use aidms_core::index::{accepts_embedding, chunk_text, fts_content, knn_query, EMBEDDING_DIM};
use aidms_core::ingest::{
    add_pending, build_content_text, check_kind, content_chunks, failed_document, indexed_document, pending_document,
    pending_to_lookup, probe_model_changed, probe_status, probe_step, read_pending, reindex_tally, remove_pending, write_pending,
    IngestError, IngestInput, ProbeStep, PENDING_MAX,
};
use aidms_core::parse::Kind;

fn input(kind: &str, content: &str, fields: Option<&str>) -> IngestInput {
    IngestInput {
        kind: kind.into(),
        source_kind: Kind::Txt,
        title: "标题".into(),
        content_text: content.into(),
        fields: fields.map(|s| s.to_string()),
        source: Some("/mock/a.txt".into()),
        doc_type: Some("合同".into()),
        party: None,
        owner: None,
        date_field: None,
        note: None,
        entity_ids: vec![1, 2],
        created_at: "2024-01-01T00:00:00Z".into(),
    }
}

#[test]
fn chunks_overlap_and_cover() {
    let c = chunk_text("abcdefghij", 4, 3);
    let v: Vec<(usize, usize, &str)> = c.iter().map(|(s, e, t)| (*s, *e, t.as_str())).collect();
    assert_eq!(v, vec![(0, 4, "abcd"), (3, 7, "defg"), (6, 10, "ghij")]);
    assert!(chunk_text("", 4, 3).is_empty());
    assert_eq!(chunk_text("短", 400, 350).len(), 1);
    let long = "字".repeat(1000);
    let cs = content_chunks(&long);
    assert_eq!(cs.len(), 3);
    assert_eq!((cs[1].0, cs[1].1), (350, 750));
    assert_eq!(cs[2].1, 1000);
}

#[test]
fn fts_text_appends_field_values() {
    assert_eq!(fts_content("正文", &vec!["v1".into(), "v2".into()]), "正文 v1 v2");
    assert_eq!(fts_content("正文", &vec![]), "正文");
}

#[test]
fn embedding_dimension_guard() {
    assert!(accepts_embedding(EMBEDDING_DIM));
    assert!(!accepts_embedding(512));
}

#[test]
fn knn_statement() {
    let (s, a) = knn_query(&vec![]);
    assert_eq!(s, "SELECT rowid, distance FROM vec_items WHERE embedding MATCH ? AND k = ?");
    assert!(a.is_empty());
    let (s2, a2) = knn_query(&vec![8, 9]);
    assert_eq!(s2, "SELECT rowid, distance FROM vec_items WHERE embedding MATCH ? AND k = ? AND rowid IN (?,?)");
    assert_eq!(a2.len(), 2);
}

#[test]
fn kind_whitelist() {
    assert!(check_kind("file").is_ok());
    assert!(check_kind("business").is_ok());
    match check_kind("memo") {
        Err(e @ IngestError::InvalidKind(_)) => assert_eq!(e.message(), "非法入库类型: memo（仅允许 file / business）"),
        other => panic!("unexpected {other:?}"),
    }
}

#[test]
fn business_fields_join_content() {
    let i = input("business", "正文", Some(r#"{"name":"甲","amount":100,"ok":true,"arr":[1],"none":null}"#));
    assert_eq!(build_content_text(&i), "正文\n100\n甲\ntrue");
    let plain = input("file", "正文", Some(r#"{"name":"甲"}"#));
    assert_eq!(build_content_text(&plain), "正文");
    let bad = input("business", "正文", Some("not json"));
    assert_eq!(build_content_text(&bad), "正文");
    let empty = input("business", "正文", Some("{}"));
    assert_eq!(build_content_text(&empty), "正文");
}

#[test]
fn records_by_outcome() {
    let i = input("file", "c", None);
    let ok = indexed_document(&i, &"内容".to_string());
    assert_eq!((ok.status.as_deref(), ok.content_text.as_deref()), (Some("ok"), Some("内容")));
    let failed = failed_document(&i, "坏文件");
    assert_eq!(failed.status.as_deref(), Some("parse_failed"));
    assert_eq!(failed.content_text.as_deref(), Some("解析失败：坏文件"));
    let pending = pending_document(&i);
    assert_eq!(pending.status.as_deref(), Some("ocr_pending"));
    assert!(pending.content_text.is_none());
    assert_eq!(pending.doc_type.as_deref(), Some("合同"));
}

#[test]
fn pending_list_dedup_and_cap() {
    let (l, changed) = add_pending(&vec![1, 2], 2);
    assert_eq!((l, changed), (vec![1, 2], false));
    let full: Vec<i64> = (0..PENDING_MAX as i64).collect();
    let (l2, changed2) = add_pending(&full, 999);
    assert!(changed2);
    assert_eq!(l2.len(), PENDING_MAX);
    assert_eq!(l2[0], 1);
    assert_eq!(*l2.last().unwrap(), 999);
    assert_eq!(remove_pending(&vec![3, 4, 3], 3), vec![4]);
    assert_eq!(pending_to_lookup(&vec![1], &vec![1, 2, 2, 3]), vec![2, 3]);
}

#[test]
fn pending_list_storage_roundtrip() {
    let text = write_pending(&vec![3, 1]);
    assert_eq!(text, "[3,1]");
    assert_eq!(read_pending(&Some(text)), vec![3, 1]);
    assert!(read_pending(&Some("garbage".into())).is_empty());
    assert!(read_pending(&None).is_empty());
}

#[test]
fn dimension_probe_decisions() {
    assert_eq!(probe_step(&Some("mismatch".into())), ProbeStep::Skip);
    assert_eq!(probe_step(&Some("ok".into())), ProbeStep::Rebuild);
    assert_eq!(probe_step(&None), ProbeStep::Probe);
    assert_eq!(probe_status(Some(1024)).as_deref(), Some("ok"));
    assert_eq!(probe_status(Some(768)).as_deref(), Some("mismatch"));
    assert_eq!(probe_status(None), None);
    assert!(probe_model_changed(&Some("bge-m3".into()), "other"));
    assert!(!probe_model_changed(&Some("bge-m3".into()), "bge-m3"));
    assert!(probe_model_changed(&None, "bge-m3"));
}

#[test]
fn cached_probe_is_not_repeated() {
    assert_eq!(probe_step(&probe_status(Some(1024))), ProbeStep::Rebuild);
    assert_eq!(probe_step(&probe_status(Some(1536))), ProbeStep::Skip);
    assert_eq!(probe_step(&probe_status(None)), ProbeStep::Probe);
}

#[test]
fn chunk_text_with_gaps_between_windows() {
    let c = chunk_text("abcdefg", 2, 5);
    assert_eq!(c, vec![(0, 2, "ab".to_string()), (5, 7, "fg".to_string())]);
    let d = chunk_text("abcde", 2, 5);
    assert_eq!(d, vec![(0, 2, "ab".to_string()), (5, 5, String::new())]);
}

#[test]
fn chunk_text_closed_form_example() {
    let c = chunk_text("abcde", 3, 2);
    assert_eq!(c, vec![(0, 3, "abc".to_string()), (2, 5, "cde".to_string())]);
}

#[test]
fn pending_list_text_round_trips() {
    let list = vec![3, -12, 0, i64::MIN, i64::MAX];
    let text = write_pending(&list);
    assert_eq!(text, format!("[3,-12,0,{},{}]", i64::MIN, i64::MAX));
    assert_eq!(read_pending(&Some(text)), list);
    assert_eq!(write_pending(&vec![]), "[]");
}

#[test]
fn reindex_tally_counts_only_successes() {
    let (n, p) = reindex_tally(2, &vec![5, 7, 9], 7, true);
    assert_eq!((n, p), (3, vec![5, 9]));
    let (n, p) = reindex_tally(2, &vec![5, 7, 9], 7, false);
    assert_eq!((n, p), (2, vec![5, 7, 9]));
}
