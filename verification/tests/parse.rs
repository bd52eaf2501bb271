use std::io::Write;

use lopdf::content::{Content, Operation};
use lopdf::{Dictionary, Document, Object, Stream};

use aidms_core::commands::{detect_kind, file_name_of, import_plan, ImportPlan};
use aidms_core::parse::{self, extract_text, Kind, ParseError, MAX_CHARS, MAX_ZIP_ENTRIES};

fn build_docx(xml: &str) -> Vec<u8> {
    let mut buf = Vec::new();
    {
        let mut w = zip::ZipWriter::new(std::io::Cursor::new(&mut buf));
        let opts = zip::write::SimpleFileOptions::default().compression_method(zip::CompressionMethod::Stored);
        w.start_file("word/document.xml", opts).unwrap();
        w.write_all(xml.as_bytes()).unwrap();
        w.finish().unwrap();
    }
    buf
}

#[test]
fn docx_extract_text() {
    let xml = r#"<?xml version="1.0" encoding="UTF-8"?>
            <w:document xmlns:w="http://schemas.openxmlformats.org/wordprocessingml/2006/main">
              <w:body>
                <w:p><w:r><w:t>重庆智习室科技有限公司</w:t></w:r></w:p>
                <w:p><w:r><w:t>合同编号：HT-2026-001 &amp; 生效</w:t></w:r></w:p>
              </w:body>
            </w:document>"#;
    let bytes = build_docx(xml);
    let text = extract_text(Kind::Docx, &bytes).unwrap().unwrap();
    assert!(text.contains("重庆智习室科技有限公司"));
    assert!(text.contains("HT-2026-001 & 生效"));
    assert!(text.lines().count() >= 2);
}

#[test]
fn docx_empty_returns_none() {
    let xml = r#"<w:document><w:body><w:p><w:r><w:t></w:t></w:r></w:p></w:body></w:document>"#;
    let bytes = build_docx(xml);
    assert!(extract_text(Kind::Docx, &bytes).unwrap().is_none());
}

#[test]
fn docx_invalid_zip_errors() {
    assert!(matches!(extract_text(Kind::Docx, b"not a zip"), Err(ParseError::Zip(_))));
}

fn build_docx_bomb() -> Vec<u8> {
    let mut buf = Vec::new();
    {
        let mut w = zip::ZipWriter::new(std::io::Cursor::new(&mut buf));
        let opts = zip::write::SimpleFileOptions::default().compression_method(zip::CompressionMethod::Deflated);
        w.start_file("word/document.xml", opts).unwrap();
        let xml = format!(
            "<w:document><w:body><w:p><w:r><w:t>{}</w:t></w:r></w:p></w:body></w:document>",
            "A".repeat(MAX_CHARS + 100)
        );
        w.write_all(xml.as_bytes()).unwrap();
        w.finish().unwrap();
    }
    buf
}

#[test]
fn docx_zip_bomb_rejected() {
    let bytes = build_docx_bomb();
    assert!(bytes.len() < 200_000);
    assert!(matches!(extract_text(Kind::Docx, &bytes), Err(ParseError::ZipTooLarge(_))));
}

#[test]
fn xlsx_zip_bomb_rejected() {
    let mut buf = Vec::new();
    {
        let mut w = zip::ZipWriter::new(std::io::Cursor::new(&mut buf));
        let opts = zip::write::SimpleFileOptions::default().compression_method(zip::CompressionMethod::Deflated);
        w.start_file("xl/sharedStrings.xml", opts).unwrap();
        let xml = format!("<sst>{}</sst>", format!("<si><t>{}</t></si>", "B".repeat(MAX_CHARS + 100)));
        w.write_all(xml.as_bytes()).unwrap();
        w.finish().unwrap();
    }
    assert!(buf.len() < 200_000);
    assert!(matches!(extract_text(Kind::Xlsx, &buf), Err(ParseError::ZipTooLarge(_))));
}

fn build_xlsx(shared_xml: &str, sheets: &[(&str, &str)]) -> Vec<u8> {
    let mut buf = Vec::new();
    {
        let mut w = zip::ZipWriter::new(std::io::Cursor::new(&mut buf));
        let opts = zip::write::SimpleFileOptions::default().compression_method(zip::CompressionMethod::Stored);
        w.start_file("xl/sharedStrings.xml", opts).unwrap();
        w.write_all(shared_xml.as_bytes()).unwrap();
        for (name, sheet) in sheets {
            w.start_file(*name, opts).unwrap();
            w.write_all(sheet.as_bytes()).unwrap();
        }
        w.finish().unwrap();
    }
    buf
}

#[test]
fn xlsx_extract_text_shared_and_numbers() {
    let shared = r#"<sst xmlns="http://schemas.openxmlformats.org/spreadsheetml/2006/main">
            <si><t>名称</t></si><si><t>重庆智习室科技有限公司</t></si>
        </sst>"#;
    let sheet1 = r#"<worksheet xmlns="...">
            <sheetData>
              <row r="1"><c r="A1" t="s"><v>0</v></c><c r="B1" t="s"><v>1</v></c></row>
              <row r="2"><c r="A2"><v>2026</v></c><c r="B2"><v>12.4</v></c></row>
            </sheetData>
          </worksheet>"#;
    let bytes = build_xlsx(shared, &[("xl/worksheets/sheet1.xml", sheet1)]);
    let text = extract_text(Kind::Xlsx, &bytes).unwrap().unwrap();
    assert!(text.contains("名称"));
    assert!(text.contains("重庆智习室科技有限公司"));
    assert!(text.contains("2026"));
    assert!(text.contains("12.4"));
    assert!(text.lines().next().unwrap().contains('\t'));
}

#[test]
fn xlsx_inline_string() {
    let sheet = r#"<worksheet><sheetData>
            <row r="1"><c r="A1" t="inlineStr"><is><t>内联文本</t></is></c></row>
          </sheetData></worksheet>"#;
    let bytes = build_xlsx("", &[("xl/worksheets/sheet1.xml", sheet)]);
    let text = extract_text(Kind::Xlsx, &bytes).unwrap().unwrap();
    assert!(text.contains("内联文本"));
}

#[test]
fn xlsx_multi_sheet_aggregate_over_limit_rejected() {
    let mut buf = Vec::new();
    {
        let mut w = zip::ZipWriter::new(std::io::Cursor::new(&mut buf));
        let opts = zip::write::SimpleFileOptions::default().compression_method(zip::CompressionMethod::Stored);
        w.start_file("xl/sharedStrings.xml", opts).unwrap();
        w.write_all(b"<sst></sst>").unwrap();
        for i in 0..2500 {
            let name = format!("xl/worksheets/sheet{i}.xml");
            w.start_file(name, opts).unwrap();
            let xml = format!(
                "<worksheet><sheetData><row r=\"1\"><c r=\"A1\" t=\"inlineStr\"><is><t>{}</t></is></c></row></sheetData></worksheet>",
                "A".repeat(900)
            );
            w.write_all(xml.as_bytes()).unwrap();
        }
        w.finish().unwrap();
    }
    assert!(buf.len() < 3_000_000);
    assert!(matches!(extract_text(Kind::Xlsx, &buf), Err(ParseError::ZipTooLarge(_))));
}

#[test]
fn xlsx_many_entries_rejected() {
    let mut buf = Vec::new();
    {
        let mut w = zip::ZipWriter::new(std::io::Cursor::new(&mut buf));
        let opts = zip::write::SimpleFileOptions::default().compression_method(zip::CompressionMethod::Stored);
        for i in 0..(MAX_ZIP_ENTRIES + 1) {
            let name = format!("xl/worksheets/sheet{i}.xml");
            w.start_file(name, opts).unwrap();
            w.write_all(b"<worksheet/>").unwrap();
        }
        w.finish().unwrap();
    }
    assert!(matches!(extract_text(Kind::Xlsx, &buf), Err(ParseError::ZipTooLarge(_))));
}

#[test]
fn parse_kind_recognition() {
    assert_eq!(parse::kind_from_ext("pdf"), Some(Kind::Pdf));
    assert_eq!(parse::kind_from_ext("docx"), Some(Kind::Docx));
    assert_eq!(parse::kind_from_ext("CSV"), Some(Kind::Csv));
    assert_eq!(parse::kind_from_ext("xyz"), None);
    assert_eq!(parse::kind_from_magic(b"%PDF-1.4..."), Some(Kind::Pdf));
    assert_eq!(parse::kind_from_magic(b"\x89PNG\r\n\x1a\n"), Some(Kind::Image));
    assert_eq!(parse::kind_from_magic(b"hello"), None);
}

#[test]
fn parse_size_limit() {
    let big = vec![b'a'; parse::MAX_FILE_BYTES + 1];
    assert!(parse::check_size(&big).is_err());
    assert!(parse::check_size(b"small").is_ok());
}

#[test]
fn parse_csv_to_text() {
    let csv = b"name,age\nAlice,30\nBob,25";
    let r = parse::extract_text(Kind::Csv, csv).unwrap().unwrap();
    assert!(r.contains("Alice\t30"));
    assert!(r.contains("Bob\t25"));
}

#[test]
fn parse_error_messages_name_the_limit() {
    assert_eq!(ParseError::TooLarge(52428801).message(), "文件超过大小上限 52428801 字节");
    assert_eq!(ParseError::Timeout(30).message(), "解析超时（>30s）");
    assert_eq!(ParseError::TooManyPages(500).message(), "PDF 超过页数上限 500 页");
    assert_eq!(ParseError::Unsupported("x".to_string()).message(), "不支持的文件类型: x");
    assert_eq!(
        ParseError::ZipTooLarge(7).message(),
        "ZIP 条目解压后超过大小上限 7 字节（疑似解压炸弹）"
    );
}

#[test]
fn image_extraction_asks_for_ocr() {
    match extract_text(Kind::Image, b"\x89PNG\r\n\x1a\n") {
        Err(ParseError::Unsupported(m)) => assert_eq!(m, "图片需 OCR（Rust 侧 tesseract/RapidOCR）"),
        other => panic!("unexpected {other:?}"),
    }
}

#[test]
fn import_file_name_is_last_component() {
    assert_eq!(file_name_of("/home/u/docs/合同.pdf"), "合同.pdf");
    assert_eq!(file_name_of("C:\\data\\a.txt"), "a.txt");
    assert_eq!(file_name_of("plain.md"), "plain.md");
    assert_eq!(file_name_of("dir/"), "");
}

#[test]
fn import_kind_by_extension_then_magic() {
    assert_eq!(detect_kind("PDF", b"xx").unwrap(), Kind::Pdf);
    assert_eq!(detect_kind("bin", b"%PDF-1.7").unwrap(), Kind::Pdf);
    assert_eq!(detect_kind("bin", b"hello").unwrap_err(), "不支持的文件类型: .bin");
}

#[test]
fn import_plan_follows_extraction_outcome() {
    assert!(matches!(import_plan(Kind::Txt, Ok(Some("t".into()))), ImportPlan::Store(s) if s == "t"));
    assert!(matches!(import_plan(Kind::Pdf, Ok(None)), ImportPlan::AwaitOcr(m) if m == "无文本层，待 OCR"));
    assert!(matches!(import_plan(Kind::Docx, Ok(None)), ImportPlan::Refuse(m) if m == "文件无文本内容"));
    assert!(matches!(
        import_plan(Kind::Image, Err(ParseError::Unsupported("r".into()))),
        ImportPlan::AwaitOcr(m) if m == "r"
    ));
    assert!(matches!(
        import_plan(Kind::Txt, Err(ParseError::Unsupported("r".into()))),
        ImportPlan::RecordFailure(m) if m == "r"
    ));
    assert!(matches!(
        import_plan(Kind::Pdf, Err(ParseError::Pdf("bad".into()))),
        ImportPlan::RecordFailure(m) if m == "PDF 解析失败: bad"
    ));
}

fn build_pdf(text: Option<&str>) -> Vec<u8> {
    let mut doc = Document::with_version("1.5");
    let pages_id = doc.new_object_id();
    let mut font = Dictionary::new();
    font.set("Type", Object::Name(b"Font".to_vec()));
    font.set("Subtype", Object::Name(b"Type1".to_vec()));
    font.set("BaseFont", Object::Name(b"Courier".to_vec()));
    let font_id = doc.add_object(font);
    let mut fonts = Dictionary::new();
    fonts.set("F1", Object::Reference(font_id));
    let mut resources = Dictionary::new();
    resources.set("Font", Object::Dictionary(fonts));
    let resources_id = doc.add_object(resources);
    let mut operations = Vec::new();
    if let Some(t) = text {
        operations.push(Operation::new("BT", vec![]));
        operations.push(Operation::new(
            "Tf",
            vec![Object::Name(b"F1".to_vec()), Object::Integer(24)],
        ));
        operations.push(Operation::new("Td", vec![Object::Integer(100), Object::Integer(600)]));
        operations.push(Operation::new("Tj", vec![Object::string_literal(t)]));
        operations.push(Operation::new("ET", vec![]));
    }
    let content = Content { operations };
    let content_id = doc.add_object(Stream::new(Dictionary::new(), content.encode().unwrap()));
    let mut page = Dictionary::new();
    page.set("Type", Object::Name(b"Page".to_vec()));
    page.set("Parent", Object::Reference(pages_id));
    page.set("Contents", Object::Reference(content_id));
    let page_id = doc.add_object(page);
    let mut pages = Dictionary::new();
    pages.set("Type", Object::Name(b"Pages".to_vec()));
    pages.set("Kids", Object::Array(vec![Object::Reference(page_id)]));
    pages.set("Count", Object::Integer(1));
    pages.set("Resources", Object::Reference(resources_id));
    pages.set(
        "MediaBox",
        Object::Array(vec![
            Object::Integer(0),
            Object::Integer(0),
            Object::Integer(595),
            Object::Integer(842),
        ]),
    );
    doc.objects.insert(pages_id, Object::Dictionary(pages));
    let mut catalog = Dictionary::new();
    catalog.set("Type", Object::Name(b"Catalog".to_vec()));
    catalog.set("Pages", Object::Reference(pages_id));
    let catalog_id = doc.add_object(catalog);
    doc.trailer.set("Root", Object::Reference(catalog_id));
    let mut buf = Vec::new();
    doc.save_to(&mut buf).unwrap();
    buf
}

fn pdf_text_of(bytes: &[u8]) -> Result<Option<String>, ParseError> {
    let pages = lopdf::Document::load_mem(bytes).ok().map(|d| d.get_pages().len());
    parse::pdf_page_check(pages)?;
    let text = pdf_extract::extract_text_from_mem(bytes).map_err(|e| e.to_string());
    parse::pdf_outcome(pages, text)
}

#[test]
fn pdf_text_layer_is_extracted() {
    let bytes = build_pdf(Some("Hello PDF"));
    let out = pdf_text_of(&bytes).unwrap().expect("text layer");
    assert!(out.contains("Hello PDF"), "got {out:?}");
}

#[test]
fn pdf_without_text_layer_gives_none() {
    let bytes = build_pdf(None);
    assert!(pdf_text_of(&bytes).unwrap().is_none());
}

#[test]
fn pdf_garbage_is_a_pdf_error() {
    let r = pdf_text_of(b"%PDF-1.5 this is not a document");
    assert!(matches!(r, Err(ParseError::Pdf(_))), "got {r:?}");
}

#[test]
fn pdf_outcome_caps_and_limits() {
    assert!(matches!(parse::pdf_page_check(Some(501)), Err(ParseError::TooManyPages(501))));
    assert!(parse::pdf_page_check(Some(500)).is_ok());
    assert!(parse::pdf_page_check(None).is_ok());
    assert!(matches!(
        parse::pdf_outcome(Some(501), Ok("x".to_string())),
        Err(ParseError::TooManyPages(501))
    ));
    assert!(matches!(parse::pdf_outcome(Some(500), Ok(" \n\t".to_string())), Ok(None)));
    assert_eq!(
        parse::pdf_outcome(None, Ok("abc".to_string())).unwrap(),
        Some("abc".to_string())
    );
    let long: String = "字".repeat(MAX_CHARS + 10);
    let capped = parse::pdf_outcome(None, Ok(long)).unwrap().unwrap();
    assert_eq!(capped.chars().count(), MAX_CHARS);
    assert!(matches!(
        parse::pdf_outcome(None, Err("bad xref".to_string())),
        Err(ParseError::Pdf(m)) if m == "bad xref"
    ));
}

fn chars(s: &str) -> Vec<char> {
    s.chars().collect()
}

#[test]
fn docx_closing_tags_end_text_and_paragraphs() {
    let xml = chars("<w:p><w:t>a</w:t></w:p>x<w:p><w:t>b</w:t></w:p>");
    let out: String = parse::docx_xml_to_text(&xml).into_iter().collect();
    assert_eq!(out, "\na\nb\n");
}

#[test]
fn shared_strings_join_each_item_texts() {
    let xml = chars("<sst><si><t>a</t></si><si><r><t>b</t></r><r><t>c</t></r></si></sst>");
    let items: Vec<String> = parse::xlsx_shared_strings(&xml)
        .unwrap()
        .into_iter()
        .map(|v| v.into_iter().collect())
        .collect();
    assert_eq!(items, vec!["a".to_string(), "bc".to_string()]);
}

#[test]
fn xlsx_exact_text() {
    let shared = r#"<sst><si><t>名称</t></si><si><t>重庆智习室科技有限公司</t></si></sst>"#;
    let sheet1 = r#"<worksheet><sheetData>
          <row r="1"><c r="A1" t="s"><v>0</v></c><c r="B1" t="s"><v>1</v></c></row>
          <row r="2"><c r="A2"><v>2026</v></c><c r="B2"><v>12.4</v></c></row>
        </sheetData></worksheet>"#;
    let bytes = build_xlsx(shared, &[("xl/worksheets/sheet1.xml", sheet1)]);
    assert_eq!(
        extract_text(Kind::Xlsx, &bytes).unwrap(),
        Some("名称\t重庆智习室科技有限公司\n2026\t12.4".to_string())
    );
}

#[test]
fn oversize_pdf_is_refused_by_size() {
    let big = vec![0u8; parse::MAX_FILE_BYTES + 1];
    assert!(matches!(extract_text(Kind::Pdf, &big), Err(ParseError::TooLarge(n)) if n == parse::MAX_FILE_BYTES + 1));
}
