use aidms_core::commands::{
    check_file_len, check_payload_limits, doc_filter, effective_mode, entity_fields, err_result, failure_result,
    file_ingest_input, ocr_result, parse_mode, reindex_outcome, request_limit, stored_result, tag_name,
    to_ingest_input, refused_result, ImportFailure, ParsedInputPayload,
};
use aidms_core::commands::embed_settings;
use aidms_core::ingest::IngestError;
use aidms_core::parse::{Kind, MAX_CHARS};
use aidms_core::search::SearchMode;

fn payload(source_kind: &str) -> ParsedInputPayload {
    ParsedInputPayload {
        title: "t".into(),
        content_text: "c".into(),
        fields: None,
        source: None,
        kind: "file".into(),
        source_kind: source_kind.into(),
        entity_ids: vec![3],
        doc_type: None,
        party: None,
        owner: None,
        date_field: None,
        note: None,
    }
}

#[test]
fn modes_and_limits() {
    assert_eq!(parse_mode("keyword"), SearchMode::Keyword);
    assert_eq!(parse_mode("semantic"), SearchMode::Semantic);
    assert_eq!(parse_mode("hybrid"), SearchMode::Hybrid);
    assert_eq!(parse_mode(""), SearchMode::Hybrid);
    assert_eq!(effective_mode(SearchMode::Semantic, false), SearchMode::Keyword);
    assert_eq!(effective_mode(SearchMode::Hybrid, true), SearchMode::Hybrid);
    assert_eq!(effective_mode(SearchMode::Keyword, false), SearchMode::Keyword);
    assert_eq!(request_limit(None), 30);
    assert_eq!(request_limit(Some(5)), 5);
}

#[test]
fn filter_from_request() {
    let f = doc_filter(Some(1), None, Some(2), None, Some("o".into()), None, None, None);
    assert_eq!(f.entity_id, Some(1));
    assert_eq!(f.tag_id, Some(2));
    assert!(f.entity_ids.is_empty());
    let g = doc_filter(None, None, None, Some(vec![4, 5]), None, None, None, None);
    assert_eq!(g.entity_ids, vec![4, 5]);
}

#[test]
fn payload_kinds_and_limits() {
    assert_eq!(to_ingest_input(payload("business"), "now".into()).source_kind, Kind::Business);
    assert_eq!(to_ingest_input(payload("PDF"), "now".into()).source_kind, Kind::Pdf);
    let i = to_ingest_input(payload("weird"), "now".into());
    assert_eq!(i.source_kind, Kind::Txt);
    assert_eq!(i.created_at, "now");
    assert_eq!(i.entity_ids, vec![3]);
    assert!(check_payload_limits("ok", &None).is_ok());
    let big = "a".repeat(MAX_CHARS + 1);
    assert_eq!(check_payload_limits(&big, &None).unwrap_err(), "content_text 超过上限");
    assert_eq!(check_payload_limits("ok", &Some(big)).unwrap_err(), "fields 超过上限");
}

#[test]
fn file_inputs_are_unassigned_files() {
    let i = file_ingest_input("a.pdf".into(), "/x/a.pdf".into(), "text".into(), Kind::Pdf, "now".into());
    assert_eq!(i.kind, "file");
    assert_eq!(i.source.as_deref(), Some("/x/a.pdf"));
    assert!(i.entity_ids.is_empty());
    assert!(i.fields.is_none());
}

#[test]
fn import_results() {
    let e = err_result("error", "/p", "f", "路径无法访问: x".into());
    assert_eq!((e.status.as_str(), e.doc_id, e.message.as_deref()), ("error", None, Some("路径无法访问: x")));
    let ok = stored_result("/p", "f", "t", Ok(7));
    assert_eq!((ok.status.as_str(), ok.doc_id, ok.title.as_deref()), ("ok", Some(7), Some("t")));
    let bad = stored_result("/p", "f", "t", Err(IngestError::Db("locked".into())));
    assert_eq!(bad.status, "parse_failed");
    assert_eq!(bad.message.as_deref(), Some("入库失败: DB 错误: locked"));
    let pending = ocr_result("/p", "f", "t", Ok(8), false, "无文本层，待 OCR".into());
    assert_eq!((pending.status.as_str(), pending.message.as_deref()), ("ocr_pending", Some("无文本层，待 OCR")));
    let done = ocr_result("/p", "f", "t", Ok(8), true, "m".into());
    assert_eq!((done.status.as_str(), done.message), ("ok", None));
    let failed = failure_result("/p", "f", "t", Ok(9), "坏".into());
    assert_eq!((failed.status.as_str(), failed.doc_id), ("parse_failed", Some(9)));
    let err = failure_result("/p", "f", "t", Err(IngestError::InvalidKind("x".into())), "坏".into());
    assert_eq!(err.status, "error");
}

#[test]
fn size_precheck_message() {
    assert_eq!(check_file_len(52428801).as_deref(), Some("文件超过大小上限 52428800 字节"));
    assert_eq!(check_file_len(52428800), None);
}

#[test]
fn reindex_summary() {
    let r = reindex_outcome(2, 3, &Some("mismatch".into()));
    assert_eq!((r.reindexed, r.dim_mismatch), (5, true));
    assert!(!reindex_outcome(0, 0, &Some("ok".into())).dim_mismatch);
}

#[test]
fn entity_and_tag_inputs() {
    let (n, c, note) = entity_fields("  甲公司 ", Some("".into()), Some("备注".into()));
    assert_eq!((n.as_str(), c, note.as_deref()), ("甲公司", None, Some("备注")));
    assert_eq!(tag_name("  ").unwrap_err(), "标签名不能为空");
    assert_eq!(tag_name(" 重要 ").unwrap(), "重要");
}

#[test]
fn greeting_and_embedding_settings() {
    assert_eq!(aidms_core::commands::greet("张三"), "你好，张三！AIDMS 已就绪");
    assert_eq!(
        embed_settings(None, Some("http://h".into()), Some("m".into())),
        Some(("openai_compat".to_string(), "http://h".to_string(), "m".to_string()))
    );
    assert_eq!(embed_settings(Some("ollama".into()), Some("  ".into()), Some("m".into())), None);
    assert_eq!(embed_settings(Some("ollama".into()), Some("u".into()), None), None);
}

#[test]
fn early_refusals_pick_status_and_message() {
    let r = refused_result(ImportFailure::Unreachable("no such file".into()), "/x/a.txt", "a.txt");
    assert_eq!((r.status.as_str(), r.message.as_deref()), ("error", Some("路径无法访问: no such file")));
    let r = refused_result(ImportFailure::NoMetadata("denied".into()), "/x/a.txt", "a.txt");
    assert_eq!((r.status.as_str(), r.message.as_deref()), ("error", Some("读取元数据失败: denied")));
    let r = refused_result(ImportFailure::Unreadable("io".into()), "/x/a.txt", "a.txt");
    assert_eq!((r.status.as_str(), r.message.as_deref()), ("error", Some("读取失败: io")));
    let r = refused_result(ImportFailure::Rejected("不支持的文件类型: .xyz".into()), "/x/a.xyz", "a.xyz");
    assert_eq!((r.status.as_str(), r.message.as_deref()), ("parse_failed", Some("不支持的文件类型: .xyz")));
    assert!(r.doc_id.is_none() && r.title.is_none());
}
