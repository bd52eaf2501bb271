use aidms_core::entities::DocumentRow;
use aidms_core::export::{csv_field, export_csv_text, export_row, ExportFormat};

fn doc() -> DocumentRow {
    DocumentRow {
        id: 7,
        kind: "file".into(),
        title: "合同, 第一版".into(),
        doc_type: Some("合同".into()),
        source: None,
        content_text: Some("x".into()),
        party: None,
        owner: Some("张三".into()),
        date_field: None,
        note: Some("含\"引号\"".into()),
        fields: None,
        status: Some("ok".into()),
        sync_status: None,
        created_at: "2024-01-01".into(),
        updated_at: "2024-01-02".into(),
    }
}

#[test]
fn format_names_case_insensitive() {
    assert_eq!(ExportFormat::parse("CSV"), Ok(ExportFormat::Csv));
    assert_eq!(ExportFormat::parse("Json"), Ok(ExportFormat::Json));
    assert_eq!(ExportFormat::parse("XML"), Err("不支持的导出格式: xml（仅 csv / json）".to_string()));
}

#[test]
fn csv_quoting() {
    assert_eq!(csv_field("plain"), "plain");
    assert_eq!(csv_field("a,b"), "\"a,b\"");
    assert_eq!(csv_field("say \"hi\""), "\"say \"\"hi\"\"\"");
    assert_eq!(csv_field("l1\nl2"), "\"l1\nl2\"");
}

#[test]
fn csv_export_header_and_rows() {
    let row = export_row(doc(), &vec!["甲公司".into(), "乙公司".into()], &vec!["重要".into()]);
    assert_eq!(row.source, "");
    assert_eq!(row.entities, "甲公司;乙公司");
    let text = export_csv_text(&vec![row]);
    assert_eq!(
        text,
        "id,kind,title,type,source,party,owner,date_field,note,status,created_at,entities,tags\n7,file,\"合同, 第一版\",合同,,,张三,,\"含\"\"引号\"\"\",ok,2024-01-01,甲公司;乙公司,重要\n"
    );
}

#[test]
fn csv_empty_export_is_header_only() {
    assert_eq!(
        export_csv_text(&vec![]),
        "id,kind,title,type,source,party,owner,date_field,note,status,created_at,entities,tags\n"
    );
}
