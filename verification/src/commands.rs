//! The application's commands as decisions on plain values: request
//! validation, the mapping of requests to store inputs, and every step of a
//! file import that does not touch the disk or the store.

use vstd::prelude::*;
use vstd::string::StrSliceExecFns;

use crate::entities::{opt_chars, DocumentFilter, NewDocument};
use crate::ingest::{ingest_error_text, IngestError, IngestInput};
use crate::parse::{ext_kind, magic_kind, kind_from_ext, kind_from_magic, parse_error_text, Kind, ParseError, MAX_CHARS,
    MAX_FILE_BYTES};
use crate::search::SearchMode;
use crate::text::{ascii_lower, chars_of, copy_range, decimal, push_decimal, push_text, str_eq, string_of, trim,
    trim_string};

verus! {

/// A document to create as given by the front end.
#[derive(Debug, Clone)]
pub struct NewDocumentInput {
    pub kind: String,
    pub title: String,
    pub doc_type: Option<String>,
    pub source: Option<String>,
    pub content_text: Option<String>,
    pub party: Option<String>,
    pub owner: Option<String>,
    pub date_field: Option<String>,
    pub note: Option<String>,
    pub fields: Option<String>,
    pub status: Option<String>,
    pub created_at: String,
}

/// The store record of a document request, field for field.
pub fn new_document_of(d: NewDocumentInput) -> (r: NewDocument)
    ensures
        r.kind == d.kind,
        r.title == d.title,
        r.doc_type == d.doc_type,
        r.source == d.source,
        r.content_text == d.content_text,
        r.party == d.party,
        r.owner == d.owner,
        r.date_field == d.date_field,
        r.note == d.note,
        r.fields == d.fields,
        r.status == d.status,
        r.created_at == d.created_at,
{
    NewDocument {
        kind: d.kind,
        title: d.title,
        doc_type: d.doc_type,
        source: d.source,
        content_text: d.content_text,
        party: d.party,
        owner: d.owner,
        date_field: d.date_field,
        note: d.note,
        fields: d.fields,
        status: d.status,
        created_at: d.created_at,
    }
}

/// An entity to create.
#[derive(Debug, Clone)]
pub struct NewEntityInput {
    pub name: String,
    pub credit_code: Option<String>,
    pub note: Option<String>,
}

/// An entity update.
#[derive(Debug, Clone)]
pub struct UpdateEntityInput {
    pub id: i64,
    pub name: String,
    pub credit_code: Option<String>,
    pub note: Option<String>,
}

/// A tag to create.
#[derive(Debug, Clone)]
pub struct NewTagInput {
    pub name: String,
}

/// An optional text, with empty text as absent.
pub open spec fn non_empty_opt(o: Option<String>) -> Option<Seq<char>> {
    match o {
        Some(s) => if s@.len() > 0 {
            Some(s@)
        } else {
            None
        },
        None => None,
    }
}

/// The stored fields of an entity: the name trimmed; an empty credit code or
/// note stored as absent.
pub fn entity_fields(name: &str, credit_code: Option<String>, note: Option<String>) -> (r: (
    String,
    Option<String>,
    Option<String>,
))
    ensures
        r.0@ == trim(name@),
        opt_chars(r.1) == non_empty_opt(credit_code),
        opt_chars(r.2) == non_empty_opt(note),
{
    let cc = match credit_code {
        Some(s) => if s.as_str().unicode_len() > 0 {
            Some(s)
        } else {
            None
        },
        None => None,
    };
    let nt = match note {
        Some(s) => if s.as_str().unicode_len() > 0 {
            Some(s)
        } else {
            None
        },
        None => None,
    };
    (trim_string(name), cc, nt)
}

/// A tag name: trimmed; refused when nothing is left.
pub fn tag_name(name: &str) -> (r: Result<String, String>)
    ensures
        trim(name@).len() > 0 ==> (r matches Ok(n) && n@ == trim(name@)),
        trim(name@).len() == 0 ==> (r matches Err(m) && m@ == "标签名不能为空"@),
{
    let t = trim_string(name);
    if t.as_str().unicode_len() == 0 {
        Err("标签名不能为空".to_string())
    } else {
        Ok(t)
    }
}

/// The document filter of a listing request (no entity list: none).
pub fn doc_filter(
    entity_id: Option<i64>,
    doc_type: Option<String>,
    tag_id: Option<i64>,
    entity_ids: Option<Vec<i64>>,
    owner: Option<String>,
    date_from: Option<String>,
    date_to: Option<String>,
    source: Option<String>,
) -> (f: DocumentFilter)
    ensures
        f.entity_id == entity_id,
        f.doc_type == doc_type,
        f.tag_id == tag_id,
        f.entity_ids@ == (match entity_ids {
            Some(v) => v@,
            None => seq![],
        }),
        f.owner == owner,
        f.date_from == date_from,
        f.date_to == date_to,
        f.source == source,
{
    DocumentFilter {
        entity_id,
        doc_type,
        tag_id,
        entity_ids: match entity_ids {
            Some(v) => v,
            None => Vec::new(),
        },
        owner,
        date_from,
        date_to,
        source,
    }
}

/// The search mode named by a request: "keyword", "semantic" or "hybrid";
/// anything else is hybrid.
pub open spec fn mode_of(s: Seq<char>) -> SearchMode {
    if s == "keyword"@ {
        SearchMode::Keyword
    } else if s == "semantic"@ {
        SearchMode::Semantic
    } else {
        SearchMode::Hybrid
    }
}

pub fn parse_mode(s: &str) -> (m: SearchMode)
    ensures
        m == mode_of(s@),
{
    proof {
        reveal_strlit("keyword");
        reveal_strlit("semantic");
        assert("keyword"@.len() != "semantic"@.len());
    }
    if str_eq(s, "keyword") {
        SearchMode::Keyword
    } else if str_eq(s, "semantic") {
        SearchMode::Semantic
    } else {
        SearchMode::Hybrid
    }
}

/// The mode a search runs in: a mode that needs a query vector falls back to
/// full text when none could be had.
pub fn effective_mode(mode: SearchMode, has_query_vec: bool) -> (m: SearchMode)
    ensures
        m == (if (mode == SearchMode::Semantic || mode == SearchMode::Hybrid) && !has_query_vec {
            SearchMode::Keyword
        } else {
            mode
        }),
{
    if (mode == SearchMode::Semantic || mode == SearchMode::Hybrid) && !has_query_vec {
        SearchMode::Keyword
    } else {
        mode
    }
}

/// Result count of a search request: 30 unless given.
pub fn request_limit(limit: Option<usize>) -> (r: usize)
    ensures
        r == (match limit {
            Some(n) => n,
            None => 30,
        }),
{
    match limit {
        Some(n) => n,
        None => 30,
    }
}

/// A parsed document handed back by the front end.
#[derive(Debug, Clone)]
pub struct ParsedInputPayload {
    pub title: String,
    pub content_text: String,
    pub fields: Option<String>,
    pub source: Option<String>,
    /// "file" or "business".
    pub kind: String,
    /// "txt", "pdf", "docx", "xlsx", "image", "business", ...
    pub source_kind: String,
    pub entity_ids: Vec<i64>,
    pub doc_type: Option<String>,
    pub party: Option<String>,
    pub owner: Option<String>,
    pub date_field: Option<String>,
    pub note: Option<String>,
}

/// Size limits of a handed-back document, in characters.
pub fn check_payload_limits(content_text: &str, fields: &Option<String>) -> (r: Result<(), String>)
    ensures
        content_text@.len() > MAX_CHARS ==> (r matches Err(m) && m@ == "content_text 超过上限"@),
        content_text@.len() <= MAX_CHARS ==> match fields {
            Some(f) => if f@.len() > MAX_CHARS {
                r matches Err(m) && m@ == "fields 超过上限"@
            } else {
                r is Ok
            },
            None => r is Ok,
        },
{
    let c = chars_of(content_text);
    if c.len() > MAX_CHARS {
        return Err("content_text 超过上限".to_string());
    }
    match fields {
        Some(f) => {
            let fc = chars_of(f.as_str());
            if fc.len() > MAX_CHARS {
                return Err("fields 超过上限".to_string());
            }
        },
        None => {},
    }
    Ok(())
}

/// The source kind of a payload: "business" for business entries, else the
/// kind of its name as an extension, plain text when unknown.
pub open spec fn payload_kind(source_kind: Seq<char>) -> Kind {
    if source_kind == "business"@ {
        Kind::Business
    } else {
        match ext_kind(ascii_lower(source_kind)) {
            Some(k) => k,
            None => Kind::Txt,
        }
    }
}

/// The store input of a payload, stamped with `created_at`.
pub fn to_ingest_input(p: ParsedInputPayload, created_at: String) -> (r: IngestInput)
    ensures
        r.kind == p.kind,
        r.source_kind == payload_kind(p.source_kind@),
        r.title == p.title,
        r.content_text == p.content_text,
        r.fields == p.fields,
        r.source == p.source,
        r.doc_type == p.doc_type,
        r.party == p.party,
        r.owner == p.owner,
        r.date_field == p.date_field,
        r.note == p.note,
        r.entity_ids == p.entity_ids,
        r.created_at == created_at,
{
    let sk = if str_eq(p.source_kind.as_str(), "business") {
        Kind::Business
    } else {
        match kind_from_ext(p.source_kind.as_str()) {
            Some(k) => k,
            None => Kind::Txt,
        }
    };
    IngestInput {
        kind: p.kind,
        source_kind: sk,
        title: p.title,
        content_text: p.content_text,
        fields: p.fields,
        source: p.source,
        doc_type: p.doc_type,
        party: p.party,
        owner: p.owner,
        date_field: p.date_field,
        note: p.note,
        entity_ids: p.entity_ids,
        created_at,
    }
}

/// The store input of an imported file: kind "file", not yet assigned to an
/// entity, the file's path as source.
pub fn file_ingest_input(title: String, source: String, content_text: String, kind: Kind, created_at: String) -> (r:
    IngestInput)
    ensures
        r.kind@ == "file"@,
        r.source_kind == kind,
        r.title == title,
        r.content_text == content_text,
        r.fields is None,
        r.source == Some(source),
        r.doc_type is None,
        r.party is None,
        r.owner is None,
        r.date_field is None,
        r.note is None,
        r.entity_ids@.len() == 0,
        r.created_at == created_at,
{
    IngestInput {
        kind: "file".to_string(),
        source_kind: kind,
        title,
        content_text,
        fields: None,
        source: Some(source),
        doc_type: None,
        party: None,
        owner: None,
        date_field: None,
        note: None,
        entity_ids: Vec::new(),
        created_at,
    }
}

/// The outcome of an index-gap repair.
#[derive(Debug, Clone)]
pub struct ReindexMissingOut {
    /// Documents re-indexed (full-text gaps and vector gaps).
    pub reindexed: i64,
    /// The embedding model's dimension does not fit the index (semantic search
    /// is then full text).
    pub dim_mismatch: bool,
}

pub fn reindex_outcome(n_fts: usize, n_vec: usize, probe: &Option<String>) -> (r: ReindexMissingOut)
    requires
        n_fts + n_vec <= usize::MAX,
    ensures
        r.reindexed == (n_fts + n_vec) as i64,
        r.dim_mismatch == (opt_chars(*probe) == Some("mismatch"@)),
{
    ReindexMissingOut { reindexed: (n_fts + n_vec) as i64, dim_mismatch: crate::ingest::is_mismatch(probe) }
}

/// The outcome of importing one file.
#[derive(Debug, Clone)]
pub struct ImportResult {
    pub path: String,
    pub file_name: String,
    /// "ok", "parse_failed", "ocr_pending" or "error".
    pub status: String,
    pub doc_id: Option<i64>,
    pub title: Option<String>,
    pub message: Option<String>,
}

/// A failed import: no document, the given status and message.
pub fn err_result(status: &str, path: &str, file_name: &str, message: String) -> (r: ImportResult)
    ensures
        r.path@ == path@,
        r.file_name@ == file_name@,
        r.status@ == status@,
        r.doc_id is None,
        r.title is None,
        r.message == Some(message),
{
    ImportResult {
        path: path.to_string(),
        file_name: file_name.to_string(),
        status: status.to_string(),
        doc_id: None,
        title: None,
        message: Some(message),
    }
}

/// Why an import stopped before the file was parsed.
#[derive(Debug)]
pub enum ImportFailure {
    /// The path could not be resolved (with the system's message).
    Unreachable(String),
    /// The file's metadata could not be read.
    NoMetadata(String),
    /// The file could not be read.
    Unreadable(String),
    /// The file was refused (size, type or content), with the reason.
    Rejected(String),
}

/// The result of an import that stopped early: "error" with the system's
/// message when the file could not be reached or read; "parse_failed" with
/// the reason when it was refused.
pub open spec fn refusal_status_message(f: ImportFailure) -> (Seq<char>, Seq<char>) {
    match f {
        ImportFailure::Unreachable(e) => ("error"@, "路径无法访问: "@ + e@),
        ImportFailure::NoMetadata(e) => ("error"@, "读取元数据失败: "@ + e@),
        ImportFailure::Unreadable(e) => ("error"@, "读取失败: "@ + e@),
        ImportFailure::Rejected(m) => ("parse_failed"@, m@),
    }
}

fn prefixed(prefix: &str, text: &str) -> (r: String)
    ensures
        r@ == prefix@ + text@,
{
    let mut v = chars_of(prefix);
    push_text(&mut v, text);
    string_of(v.as_slice())
}

/// The result of an import that stopped early, as `refusal_status_message`
/// states it; no document, no title.
pub fn refused_result(failure: ImportFailure, path: &str, file_name: &str) -> (r: ImportResult)
    ensures
        r.path@ == path@,
        r.file_name@ == file_name@,
        r.doc_id is None,
        r.title is None,
        (r.status@, opt_chars(r.message)) == (refusal_status_message(failure).0, Some(
            refusal_status_message(failure).1,
        )),
{
    match failure {
        ImportFailure::Unreachable(e) => err_result("error", path, file_name, prefixed("路径无法访问: ", e.as_str())),
        ImportFailure::NoMetadata(e) => err_result("error", path, file_name, prefixed("读取元数据失败: ", e.as_str())),
        ImportFailure::Unreadable(e) => err_result("error", path, file_name, prefixed("读取失败: ", e.as_str())),
        ImportFailure::Rejected(m) => err_result("parse_failed", path, file_name, m),
    }
}

/// Path separators of both systems.
pub open spec fn is_sep(c: char) -> bool {
    c == '/' || c == '\\'
}

/// The last path component (the whole text without separators).
pub open spec fn last_component(s: Seq<char>) -> Seq<char>
    decreases s.len(),
{
    if s.len() == 0 {
        seq![]
    } else if is_sep(s.last()) {
        seq![]
    } else {
        last_component(s.drop_last()).push(s.last())
    }
}

/// The file name of a path as given.
pub fn file_name_of(raw: &str) -> (r: String)
    ensures
        r@ == last_component(raw@),
{
    let cs = chars_of(raw);
    let n = cs.len();
    let mut i = n;
    proof {
        assert(cs@.subrange(0, n as int) =~= cs@);
        assert(cs@.subrange(n as int, n as int) =~= seq![]);
        assert(last_component(raw@) =~= last_component(cs@.subrange(0, n as int)) + cs@.subrange(n as int, n as int));
    }
    while i > 0 && cs[i - 1] != '/' && cs[i - 1] != '\\'
        invariant
            i <= n,
            n == cs@.len(),
            cs@ == raw@,
            last_component(raw@) == last_component(cs@.subrange(0, i as int)) + cs@.subrange(i as int, n as int),
        decreases i,
    {
        proof {
            let pre = cs@.subrange(0, i as int);
            assert(pre.drop_last() =~= cs@.subrange(0, i - 1));
            assert(cs@.subrange(i - 1, n as int) =~= seq![cs@[i - 1]] + cs@.subrange(i as int, n as int));
            assert(last_component(pre) == last_component(pre.drop_last()).push(pre.last()));
        }
        i = i - 1;
    }
    proof {
        assert(cs@.subrange(0, n as int) =~= cs@);
        assert(cs@.subrange(n as int, n as int) =~= seq![]);
        if i > 0 {
            assert(last_component(cs@.subrange(0, i as int)) =~= seq![]);
        } else {
            assert(cs@.subrange(0, 0) =~= seq![]);
        }
    }
    let r = copy_range(cs.as_slice(), i, n);
    proof {
        assert(r@ =~= last_component(raw@));
    }
    string_of(r.as_slice())
}

/// Why a file over the size limit is not read.
pub open spec fn size_refusal_text() -> Seq<char> {
    "文件超过大小上限 "@ + decimal(MAX_FILE_BYTES as nat) + " 字节"@
}

/// The size check made before a file is read.
pub fn check_file_len(len: u64) -> (r: Option<String>)
    ensures
        len > MAX_FILE_BYTES ==> (r matches Some(m) && m@ == size_refusal_text()),
        len <= MAX_FILE_BYTES ==> r is None,
{
    if len > MAX_FILE_BYTES as u64 {
        let mut v = chars_of("文件超过大小上限 ");
        push_decimal(MAX_FILE_BYTES as u64, &mut v);
        push_text(&mut v, " 字节");
        Some(string_of(v.as_slice()))
    } else {
        None
    }
}

/// The kind of a file: by extension, else by its first bytes; refused with a
/// message when neither tells.
pub fn detect_kind(ext: &str, bytes: &[u8]) -> (r: Result<Kind, String>)
    ensures
        match ext_kind(ascii_lower(ext@)) {
            Some(k) => r == Ok::<Kind, String>(k),
            None => match magic_kind(bytes@) {
                Some(k) => r == Ok::<Kind, String>(k),
                None => r matches Err(m) && m@ == "不支持的文件类型: ."@ + ext@,
            },
        },
{
    match kind_from_ext(ext) {
        Some(k) => Ok(k),
        None => match kind_from_magic(bytes) {
            Some(k) => Ok(k),
            None => {
                let mut v = chars_of("不支持的文件类型: .");
                push_text(&mut v, ext);
                Err(string_of(v.as_slice()))
            },
        },
    }
}

/// What an import does with the extraction outcome.
#[derive(Debug, Clone)]
pub enum ImportPlan {
    /// Store and index the text.
    Store(String),
    /// Store as waiting for OCR; the message stands until OCR succeeds.
    AwaitOcr(String),
    /// Store as failed to parse, with the reason.
    RecordFailure(String),
    /// Store nothing; report the message.
    Refuse(String),
}

/// The plan for an extraction outcome: text is stored; no text on an image or
/// a PDF waits for OCR, on anything else is refused; an unsupported image
/// waits for OCR, any other failure is recorded.
pub open spec fn plan_matches(kind: Kind, extracted: Result<Option<String>, ParseError>, p: ImportPlan) -> bool {
    match extracted {
        Ok(Some(t)) => p matches ImportPlan::Store(s) && s@ == t@,
        Ok(None) => if kind == Kind::Image || kind == Kind::Pdf {
            p matches ImportPlan::AwaitOcr(m) && m@ == "无文本层，待 OCR"@
        } else {
            p matches ImportPlan::Refuse(m) && m@ == "文件无文本内容"@
        },
        Err(ParseError::Unsupported(reason)) => if kind == Kind::Image {
            p matches ImportPlan::AwaitOcr(m) && m@ == reason@
        } else {
            p matches ImportPlan::RecordFailure(m) && m@ == reason@
        },
        Err(e) => p matches ImportPlan::RecordFailure(m) && m@ == parse_error_text(e),
    }
}

pub fn import_plan(kind: Kind, extracted: Result<Option<String>, ParseError>) -> (p: ImportPlan)
    ensures
        plan_matches(kind, extracted, p),
{
    match extracted {
        Ok(Some(t)) => ImportPlan::Store(t),
        Ok(None) => {
            if kind == Kind::Image || kind == Kind::Pdf {
                ImportPlan::AwaitOcr("无文本层，待 OCR".to_string())
            } else {
                ImportPlan::Refuse("文件无文本内容".to_string())
            }
        },
        Err(ParseError::Unsupported(reason)) => {
            if kind == Kind::Image {
                ImportPlan::AwaitOcr(reason)
            } else {
                ImportPlan::RecordFailure(reason)
            }
        },
        Err(e) => ImportPlan::RecordFailure(e.message()),
    }
}

/// Why storing failed, as reported.
pub open spec fn store_failure_text(e: IngestError) -> Seq<char> {
    "入库失败: "@ + ingest_error_text(e)
}

fn store_failure(e: &IngestError) -> (r: String)
    ensures
        r@ == store_failure_text(*e),
{
    let mut v = chars_of("入库失败: ");
    let m = e.message();
    push_text(&mut v, m.as_str());
    string_of(v.as_slice())
}

/// The result of storing an extracted text: "ok" with the document, or
/// "parse_failed" with the store's message.
pub fn stored_result(path: &str, file_name: &str, title: &str, stored: Result<i64, IngestError>) -> (r: ImportResult)
    ensures
        r.path@ == path@,
        r.file_name@ == file_name@,
        match stored {
            Ok(id) => r.status@ == "ok"@ && r.doc_id == Some(id) && opt_chars(r.title) == Some(title@)
                && r.message is None,
            Err(e) => r.status@ == "parse_failed"@ && r.doc_id is None && r.title is None && opt_chars(r.message)
                == Some(store_failure_text(e)),
        },
{
    match stored {
        Ok(id) => ImportResult {
            path: path.to_string(),
            file_name: file_name.to_string(),
            status: "ok".to_string(),
            doc_id: Some(id),
            title: Some(title.to_string()),
            message: None,
        },
        Err(e) => err_result("parse_failed", path, file_name, store_failure(&e)),
    }
}

/// The result of storing a file that waits for OCR: "ok" when OCR already
/// succeeded, else "ocr_pending" with the message; "error" when storing failed.
pub fn ocr_result(
    path: &str,
    file_name: &str,
    title: &str,
    stored: Result<i64, IngestError>,
    ocr_done: bool,
    message: String,
) -> (r: ImportResult)
    ensures
        r.path@ == path@,
        r.file_name@ == file_name@,
        match stored {
            Ok(id) => r.status@ == (if ocr_done { "ok"@ } else { "ocr_pending"@ }) && r.doc_id == Some(id) && opt_chars(
                r.title,
            ) == Some(title@) && (if ocr_done {
                r.message is None
            } else {
                opt_chars(r.message) == Some(message@)
            }),
            Err(e) => r.status@ == "error"@ && r.doc_id is None && r.title is None && opt_chars(r.message) == Some(
                store_failure_text(e),
            ),
        },
{
    match stored {
        Ok(id) => ImportResult {
            path: path.to_string(),
            file_name: file_name.to_string(),
            status: if ocr_done { "ok".to_string() } else { "ocr_pending".to_string() },
            doc_id: Some(id),
            title: Some(title.to_string()),
            message: if ocr_done { None } else { Some(message) },
        },
        Err(e) => err_result("error", path, file_name, store_failure(&e)),
    }
}

/// The result of recording a parse failure: "parse_failed" with the reason,
/// or "error" when storing failed.
pub fn failure_result(path: &str, file_name: &str, title: &str, stored: Result<i64, IngestError>, reason: String) -> (r:
    ImportResult)
    ensures
        r.path@ == path@,
        r.file_name@ == file_name@,
        match stored {
            Ok(id) => r.status@ == "parse_failed"@ && r.doc_id == Some(id) && opt_chars(r.title) == Some(title@)
                && opt_chars(r.message) == Some(reason@),
            Err(e) => r.status@ == "error"@ && r.doc_id is None && r.title is None && opt_chars(r.message) == Some(
                store_failure_text(e),
            ),
        },
{
    match stored {
        Ok(id) => ImportResult {
            path: path.to_string(),
            file_name: file_name.to_string(),
            status: "parse_failed".to_string(),
            doc_id: Some(id),
            title: Some(title.to_string()),
            message: Some(reason),
        },
        Err(e) => err_result("error", path, file_name, store_failure(&e)),
    }
}

/// A document link as the front end receives it.
#[derive(Debug, Clone)]
pub struct DocLinkOut {
    pub id: i64,
    pub kind: String,
    pub direction: String,
}

/// The state of the folder watch.
#[derive(Debug, Clone)]
pub struct FolderWatchStatusOut {
    pub running: bool,
    pub path: Option<String>,
}

/// The greeting of the front end's health check.
pub fn greet(name: &str) -> (r: String)
    ensures
        r@ == "你好，"@ + name@ + "！AIDMS 已就绪"@,
{
    let mut v = chars_of("你好，");
    push_text(&mut v, name);
    push_text(&mut v, "！AIDMS 已就绪");
    string_of(v.as_slice())
}

/// The embedding settings of a stored, enabled configuration: provider
/// (OpenAI-compatible when unset), base URL and model; none when the URL or
/// the model is missing or blank.
pub fn embed_settings(provider: Option<String>, base_url: Option<String>, model: Option<String>) -> (r: Option<(
    String,
    String,
    String,
)>)
    ensures
        match (base_url, model) {
            (Some(b), Some(m)) => if trim(b@).len() > 0 && trim(m@).len() > 0 {
                r matches Some(t) && t.0@ == (match provider {
                    Some(p) => p@,
                    None => "openai_compat"@,
                }) && t.1@ == b@ && t.2@ == m@
            } else {
                r is None
            },
            _ => r is None,
        },
{
    let b = match base_url {
        Some(b) => b,
        None => {
            return None;
        },
    };
    let m = match model {
        Some(m) => m,
        None => {
            return None;
        },
    };
    let bt = trim_string(b.as_str());
    let mt = trim_string(m.as_str());
    if bt.as_str().unicode_len() == 0 || mt.as_str().unicode_len() == 0 {
        return None;
    }
    let p = match provider {
        Some(p) => p,
        None => "openai_compat".to_string(),
    };
    Some((p, b, m))
}

} // verus!
