use aidms_core::entities::{assemble_links, document_query, entity_delete_check, entity_lists, like_pattern, DocumentFilter};
use aidms_core::sql::{allowed_docs_query, chunk_docs_query, subset_chunks_query, SqlArg};

const SELECT: &str = "SELECT d.id, d.kind, d.title, d.type, d.source, d.content_text, d.party, d.owner, d.date_field, d.note, d.fields, d.status, d.sync_status, d.created_at, d.updated_at FROM document d";

#[test]
fn like_pattern_escapes_wildcards() {
    assert_eq!(like_pattern("50%_a\\b"), "%50\\%\\_a\\\\b%");
    assert_eq!(like_pattern(""), "%%");
}

#[test]
fn unfiltered_listing() {
    let (sql, args) = document_query(&DocumentFilter::new());
    assert_eq!(sql, format!("{SELECT} ORDER BY d.id"));
    assert!(args.is_empty());
}

#[test]
fn filtered_listing_binds_every_value() {
    let mut f = DocumentFilter::new();
    f.entity_id = Some(1);
    f.entity_ids = vec![2];
    f.owner = Some("  张三 ".into());
    f.date_to = Some("   ".into());
    f.source = Some("a%".into());
    let (sql, args) = document_query(&f);
    assert_eq!(
        sql,
        format!(
            "{SELECT} WHERE d.id IN (SELECT document_id FROM document_entity WHERE entity_id IN (?,?)) AND d.owner = ? AND d.source LIKE ? ESCAPE '\\' ORDER BY d.id"
        )
    );
    assert_eq!(args.len(), 4);
    assert!(matches!(args[0], SqlArg::Int(1)));
    assert!(matches!(args[1], SqlArg::Int(2)));
    assert!(matches!(&args[2], SqlArg::Text(s) if s == "张三"));
    assert!(matches!(&args[3], SqlArg::Text(s) if s == "%a\\%%"));
}

#[test]
fn type_and_tag_conditions() {
    let mut f = DocumentFilter::new();
    f.doc_type = Some("合同".into());
    f.tag_id = Some(9);
    f.date_from = Some("2024-01-01".into());
    let (sql, args) = document_query(&f);
    assert_eq!(
        sql,
        format!(
            "{SELECT} WHERE d.type = ? AND d.id IN (SELECT document_id FROM document_tag WHERE tag_id = ?) AND date(d.date_field) >= date(?) ORDER BY d.id"
        )
    );
    assert_eq!(args.len(), 3);
}

#[test]
fn delete_guard_message() {
    assert_eq!(
        entity_delete_check(3),
        Err("该主体下仍有 3 份资料，请先将其移出该主体（或删除资料）后再删除主体".to_string())
    );
    assert_eq!(entity_delete_check(0), Ok(()));
}

#[test]
fn links_outgoing_then_incoming() {
    let links = assemble_links(vec![(2, "合同附件".into())], vec![(5, "关联".into())]);
    let v: Vec<(i64, &str, &str)> = links.iter().map(|l| (l.id, l.kind.as_str(), l.direction.as_str())).collect();
    assert_eq!(v, vec![(2, "合同附件", "out"), (5, "关联", "in")]);
}

#[test]
fn entity_lists_per_document() {
    let r = entity_lists(&vec![1, 2, 1, 3], &vec![(1, 10), (2, 20), (1, 11)]);
    assert_eq!(r, vec![vec![10, 11], vec![20], vec![], vec![]]);
}

#[test]
fn search_allow_list_query() {
    assert!(allowed_docs_query(&None, &None, &Some(vec![])).is_none());
    let (sql, args) = allowed_docs_query(&None, &Some(vec!["报表".into()]), &Some(vec![1, 2])).unwrap();
    assert_eq!(
        sql,
        "SELECT DISTINCT d.id FROM document d JOIN document_tag dt ON dt.document_id = d.id WHERE dt.tag_id IN (?,?) AND d.type IN (?)"
    );
    assert_eq!(args.len(), 3);
    let (sql2, _) = allowed_docs_query(&Some(vec![4]), &None, &None).unwrap();
    assert_eq!(
        sql2,
        "SELECT DISTINCT d.id FROM document d JOIN document_entity de ON de.document_id = d.id WHERE de.entity_id IN (?)"
    );
}

#[test]
fn chunk_queries() {
    assert!(subset_chunks_query(&None).is_none());
    assert!(subset_chunks_query(&Some(vec![])).is_none());
    let (s, a) = subset_chunks_query(&Some(vec![1, 2])).unwrap();
    assert!(s.ends_with("WHERE de.entity_id IN (?,?)"));
    assert_eq!(a.len(), 2);
    let (s2, _) = chunk_docs_query(&vec![5, 6, 7]);
    assert_eq!(s2, "SELECT id, document_id FROM chunk WHERE id IN (?,?,?)");
}

#[test]
fn filter_values_stay_out_of_statement() {
    let mut f = DocumentFilter::new();
    f.entity_ids = vec![1, 2];
    f.owner = Some("张三".into());
    f.source = Some("'; DROP TABLE document; --".into());
    let mut g = DocumentFilter::new();
    g.entity_ids = vec![7, 8];
    g.owner = Some("李四".into());
    g.source = Some("合同".into());
    let (sql_f, args_f) = document_query(&f);
    let (sql_g, args_g) = document_query(&g);
    assert_eq!(sql_f, sql_g);
    assert!(!sql_f.contains("DROP"));
    assert!(matches!(args_f[0], SqlArg::Int(1)));
    assert!(matches!(args_g[0], SqlArg::Int(7)));

    let (a, _) = allowed_docs_query(&Some(vec![1]), &Some(vec!["x' OR 1=1".into()]), &None).unwrap();
    let (b, _) = allowed_docs_query(&Some(vec![9]), &Some(vec!["报表".into()]), &None).unwrap();
    assert_eq!(a, b);
    assert!(!a.contains("OR 1=1"));
}
