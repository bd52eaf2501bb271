//! Ingestion: what a stored document holds for each outcome (indexed, failed
//! to parse, waiting for OCR), the kinds accepted, the pending-reindex list
//! and the embedding-dimension probe that guards vector rebuilds.

use vstd::prelude::*;

use serde_json::Value;

use crate::entities::{opt_chars, NewDocument};
use crate::index::{chunk_text, chunk_views, chunks_of, lemma_overlapping_chunks_ok, EMBEDDING_DIM};
use crate::parse::Kind;
use crate::search::{dedup, distinct, lemma_dedup};
use crate::text::{chars_of, decimal, extend_chars, join_chars, join_with, push_decimal, push_text, str_eq, string_of, views};

verus! {

/// Why a document could not be stored.
#[derive(Debug, Clone)]
pub enum IngestError {
    /// The store failed (its message).
    Db(String),
    /// Embedding failed.
    Embed(String),
    /// A document kind other than "file" or "business".
    InvalidKind(String),
}

/// The message of an ingestion error.
pub open spec fn ingest_error_text(e: IngestError) -> Seq<char> {
    match e {
        IngestError::Db(s) => "DB 错误: "@ + s@,
        IngestError::Embed(s) => "嵌入失败: "@ + s@,
        IngestError::InvalidKind(s) => "非法入库类型: "@ + s@ + "（仅允许 file / business）"@,
    }
}

impl IngestError {
    pub fn message(&self) -> (r: String)
        ensures
            r@ == ingest_error_text(*self),
    {
        let mut v: Vec<char> = Vec::new();
        match self {
            IngestError::Db(s) => {
                push_text(&mut v, "DB 错误: ");
                push_text(&mut v, s.as_str());
            },
            IngestError::Embed(s) => {
                push_text(&mut v, "嵌入失败: ");
                push_text(&mut v, s.as_str());
            },
            IngestError::InvalidKind(s) => {
                push_text(&mut v, "非法入库类型: ");
                push_text(&mut v, s.as_str());
                push_text(&mut v, "（仅允许 file / business）");
            },
        }
        proof {
            assert(v@ =~= ingest_error_text(*self));
        }
        string_of(v.as_slice())
    }
}

/// A parsed document to store.
#[derive(Debug, Clone)]
pub struct IngestInput {
    /// "file" or "business".
    pub kind: String,
    pub source_kind: Kind,
    pub title: String,
    pub content_text: String,
    /// Structured fields of a business entry, as a JSON object.
    pub fields: Option<String>,
    pub source: Option<String>,
    pub doc_type: Option<String>,
    pub party: Option<String>,
    pub owner: Option<String>,
    pub date_field: Option<String>,
    pub note: Option<String>,
    /// Owning entities (none: not yet assigned).
    pub entity_ids: Vec<i64>,
    pub created_at: String,
}

/// Only files and business entries are stored.
pub open spec fn kind_accepted(kind: Seq<char>) -> bool {
    kind == "file"@ || kind == "business"@
}

/// The kind check that precedes every store.
pub fn check_kind(kind: &str) -> (r: Result<(), IngestError>)
    ensures
        kind_accepted(kind@) ==> r is Ok,
        !kind_accepted(kind@) ==> (r matches Err(IngestError::InvalidKind(k)) && k@ == kind@),
{
    if str_eq(kind, "file") || str_eq(kind, "business") {
        Ok(())
    } else {
        Err(IngestError::InvalidKind(kind.to_string()))
    }
}

/// A JSON value as the field merge sees it.
#[derive(Debug, Clone)]
pub enum JsonScalar {
    Text(String),
    /// A number, as serde_json prints it.
    Number(String),
    Bool(bool),
    /// An array, an object or null.
    Other,
}

pub enum JsonScalarView {
    Text(Seq<char>),
    Number(Seq<char>),
    Bool(bool),
    Other,
}

pub open spec fn scalar_view(v: JsonScalar) -> JsonScalarView {
    match v {
        JsonScalar::Text(s) => JsonScalarView::Text(s@),
        JsonScalar::Number(s) => JsonScalarView::Number(s@),
        JsonScalar::Bool(b) => JsonScalarView::Bool(b),
        JsonScalar::Other => JsonScalarView::Other,
    }
}

pub open spec fn scalar_views(v: Option<Vec<JsonScalar>>) -> Option<Seq<JsonScalarView>> {
    match v {
        Some(vs) => Some(vs@.map_values(|x: JsonScalar| scalar_view(x))),
        None => None,
    }
}

/// The values of a JSON object text, in the order serde_json keeps them; none
/// when the text is not a JSON object.
pub uninterp spec fn json_object_values(text: Seq<char>) -> Option<Seq<JsonScalarView>>;

/// `serde_json::from_str::<Value>`, with the values of an object converted one
/// by one (a number printed by its `to_string`). The claim: the outcome is
/// `json_object_values` of the text.
#[verifier::external_body]
fn parse_object_values(text: &str) -> (r: Option<Vec<JsonScalar>>)
    ensures
        scalar_views(r) == json_object_values(text@),
{
    match serde_json::from_str::<Value>(text) {
        Ok(Value::Object(map)) => Some(
            map.values().map(
                |v| match v {
                    Value::String(s) => JsonScalar::Text(s.clone()),
                    Value::Number(n) => JsonScalar::Number(n.to_string()),
                    Value::Bool(b) => JsonScalar::Bool(*b),
                    _ => JsonScalar::Other,
                },
            ).collect(),
        ),
        Ok(_) => None,
        Err(_) => None,
    }
}

/// The searchable text of a JSON value: strings and numbers as written,
/// booleans as "true"/"false"; none for arrays, objects and null.
pub open spec fn scalar_text(v: JsonScalarView) -> Option<Seq<char>> {
    match v {
        JsonScalarView::Text(s) => Some(s),
        JsonScalarView::Number(s) => Some(s),
        JsonScalarView::Bool(b) => Some(if b { "true"@ } else { "false"@ }),
        JsonScalarView::Other => None,
    }
}

pub open spec fn scalar_texts(vs: Seq<JsonScalarView>) -> Seq<Seq<char>>
    decreases vs.len(),
{
    if vs.len() == 0 {
        seq![]
    } else {
        let p = scalar_texts(vs.drop_last());
        match scalar_text(vs.last()) {
            Some(t) => p.push(t),
            None => p,
        }
    }
}

/// The content with the field values appended, one per line.
pub open spec fn with_values(content: Seq<char>, values: Option<Seq<JsonScalarView>>) -> Seq<char> {
    match values {
        Some(vs) => {
            let extra = scalar_texts(vs);
            if extra.len() > 0 {
                content + "\n"@ + join_with(extra, "\n"@)
            } else {
                content
            }
        },
        None => content,
    }
}

/// The stored content of an input: a business entry gets the values of its
/// JSON fields appended, one per line, so that it can be found by them.
pub open spec fn stored_content(input: IngestInput) -> Seq<char> {
    if input.kind@ == "business"@ {
        match input.fields {
            Some(f) => with_values(input.content_text@, json_object_values(f@)),
            None => input.content_text@,
        }
    } else {
        input.content_text@
    }
}

/// The content with the given JSON values appended.
pub fn content_with_values(content: &str, values: &Option<Vec<JsonScalar>>) -> (r: String)
    ensures
        r@ == with_values(content@, scalar_views(*values)),
{
    let mut out = chars_of(content);
    match values {
        None => {},
        Some(vs) => {
            let ghost sv = vs@.map_values(|x: JsonScalar| scalar_view(x));
            let mut extra: Vec<Vec<char>> = Vec::new();
            let mut i: usize = 0;
            while i < vs.len()
                invariant
                    0 <= i <= vs@.len(),
                    sv == vs@.map_values(|x: JsonScalar| scalar_view(x)),
                    views(extra@) == scalar_texts(sv.take(i as int)),
                decreases vs@.len() - i,
            {
                proof {
                    assert(sv.take(i + 1).drop_last() =~= sv.take(i as int));
                    assert(sv.take(i + 1).last() == scalar_view(vs@[i as int]));
                }
                let ghost before = extra@;
                match &vs[i] {
                    JsonScalar::Text(s) => extra.push(chars_of(s.as_str())),
                    JsonScalar::Number(s) => extra.push(chars_of(s.as_str())),
                    JsonScalar::Bool(b) => {
                        if *b {
                            extra.push(chars_of("true"));
                        } else {
                            extra.push(chars_of("false"));
                        }
                    },
                    JsonScalar::Other => {},
                }
                proof {
                    assert(views(extra@) =~= scalar_texts(sv.take(i + 1)));
                }
                i = i + 1;
            }
            proof {
                assert(sv.take(vs@.len() as int) =~= sv);
            }
            if extra.len() > 0 {
                push_text(&mut out, "\n");
                let sep = chars_of("\n");
                let j = join_chars(&extra, sep.as_slice());
                proof {
                    assert(extra@.map_values(|v: Vec<char>| v@) =~= views(extra@));
                }
                extend_chars(&mut out, j.as_slice());
            }
        },
    }
    string_of(out.as_slice())
}

/// The content stored for an input.
pub fn build_content_text(input: &IngestInput) -> (r: String)
    ensures
        r@ == stored_content(*input),
{
    if str_eq(input.kind.as_str(), "business") {
        match &input.fields {
            Some(f) => {
                let values = parse_object_values(f.as_str());
                content_with_values(input.content_text.as_str(), &values)
            },
            None => input.content_text.clone(),
        }
    } else {
        input.content_text.clone()
    }
}

fn clone_opt(o: &Option<String>) -> (r: Option<String>)
    ensures
        opt_chars(r) == opt_chars(*o),
{
    match o {
        Some(s) => Some(s.clone()),
        None => None,
    }
}

/// The record stored for an input, with the given content and status.
pub open spec fn record_of(d: NewDocument, input: IngestInput, content: Option<Seq<char>>, status: Seq<char>) -> bool {
    &&& d.kind@ == input.kind@
    &&& d.title@ == input.title@
    &&& opt_chars(d.doc_type) == opt_chars(input.doc_type)
    &&& opt_chars(d.source) == opt_chars(input.source)
    &&& opt_chars(d.content_text) == content
    &&& opt_chars(d.party) == opt_chars(input.party)
    &&& opt_chars(d.owner) == opt_chars(input.owner)
    &&& opt_chars(d.date_field) == opt_chars(input.date_field)
    &&& opt_chars(d.note) == opt_chars(input.note)
    &&& opt_chars(d.fields) == opt_chars(input.fields)
    &&& opt_chars(d.status) == Some(status)
    &&& d.created_at@ == input.created_at@
}

fn record(input: &IngestInput, content: Option<String>, status: &str) -> (d: NewDocument)
    ensures
        record_of(d, *input, opt_chars(content), status@),
{
    NewDocument {
        kind: input.kind.clone(),
        title: input.title.clone(),
        doc_type: clone_opt(&input.doc_type),
        source: clone_opt(&input.source),
        content_text: content,
        party: clone_opt(&input.party),
        owner: clone_opt(&input.owner),
        date_field: clone_opt(&input.date_field),
        note: clone_opt(&input.note),
        fields: clone_opt(&input.fields),
        status: Some(status.to_string()),
        created_at: input.created_at.clone(),
    }
}

/// The record of a parsed document: its stored content, status "ok".
pub fn indexed_document(input: &IngestInput, content: &String) -> (d: NewDocument)
    ensures
        record_of(d, *input, Some(content@), "ok"@),
{
    record(input, Some(content.clone()), "ok")
}

/// The record of a document that failed to parse: the reason as content,
/// status "parse_failed"; it is kept, not silently dropped.
pub fn failed_document(input: &IngestInput, reason: &str) -> (d: NewDocument)
    ensures
        record_of(d, *input, Some("解析失败："@ + reason@), "parse_failed"@),
{
    let mut c = chars_of("解析失败：");
    push_text(&mut c, reason);
    record(input, Some(string_of(c.as_slice())), "parse_failed")
}

/// The record of an image waiting for OCR: no content, status "ocr_pending".
pub fn pending_document(input: &IngestInput) -> (d: NewDocument)
    ensures
        record_of(d, *input, None, "ocr_pending"@),
{
    record(input, None, "ocr_pending")
}

/// Chunk window, in characters.
pub const CHUNK_WINDOW: usize = 400;

/// Chunk step (the window less the overlap).
pub const CHUNK_STEP: usize = 350;

/// The chunks of a document's content for the vector index.
pub fn content_chunks(content: &str) -> (r: Vec<(usize, usize, String)>)
    ensures
        chunk_views(r@) == chunks_of(content@, CHUNK_WINDOW as int, CHUNK_STEP as int),
{
    proof {
        lemma_overlapping_chunks_ok(content@.len() as int, CHUNK_WINDOW as int, CHUNK_STEP as int);
    }
    chunk_text(content, CHUNK_WINDOW, CHUNK_STEP)
}

/// Most documents kept on the pending-reindex list.
pub const PENDING_MAX: usize = 200;

/// The pending list with a document added: unchanged when it is already
/// there; otherwise appended, the oldest dropped beyond `PENDING_MAX`.
pub open spec fn pending_added(list: Seq<i64>, id: i64) -> Seq<i64> {
    if list.contains(id) {
        list
    } else {
        let l = list.push(id);
        if l.len() > PENDING_MAX {
            l.skip(l.len() - PENDING_MAX)
        } else {
            l
        }
    }
}

fn contains_id(list: &Vec<i64>, id: i64) -> (r: bool)
    ensures
        r == list@.contains(id),
{
    let mut i: usize = 0;
    while i < list.len()
        invariant
            0 <= i <= list@.len(),
            forall|k: int| 0 <= k < i ==> list@[k] != id,
        decreases list@.len() - i,
    {
        if list[i] == id {
            assert(list@[i as int] == id);
            return true;
        }
        i = i + 1;
    }
    false
}

/// One step of repairing the index: a rebuilt document is counted and taken
/// off the pending list; a failed one leaves both as they were (it stays
/// pending for the next round).
pub fn reindex_tally(count: usize, pending: &Vec<i64>, id: i64, rebuilt: bool) -> (r: (usize, Vec<i64>))
    requires
        count < usize::MAX,
    ensures
        rebuilt ==> r.0 == count + 1 && r.1@ == pending_done(pending@, id),
        !rebuilt ==> r.0 == count && r.1@ == pending@,
{
    if rebuilt {
        (count + 1, remove_pending(pending, id))
    } else {
        (count, pending.clone())
    }
}

/// Adds a document to the pending-reindex list; tells whether the list changed.
pub fn add_pending(list: &Vec<i64>, id: i64) -> (r: (Vec<i64>, bool))
    ensures
        r.0@ == pending_added(list@, id),
        r.1 == !list@.contains(id),
{
    if contains_id(list, id) {
        return (list.clone(), false);
    }
    let n = list.len();
    let start: usize = if n >= PENDING_MAX { n - PENDING_MAX + 1 } else { 0 };
    let mut out: Vec<i64> = Vec::new();
    let mut i = start;
    while i < n
        invariant
            start <= i <= n,
            n == list@.len(),
            out@ == list@.subrange(start as int, i as int),
        decreases n - i,
    {
        out.push(list[i]);
        proof {
            assert(list@.subrange(start as int, i + 1) =~= list@.subrange(start as int, i as int).push(list@[i as int]));
        }
        i = i + 1;
    }
    out.push(id);
    proof {
        let l = list@.push(id);
        if l.len() > PENDING_MAX {
            assert(out@ =~= l.skip(l.len() - PENDING_MAX));
        } else {
            assert(out@ =~= l);
        }
    }
    (out, true)
}

/// The list holds each document once and at most `PENDING_MAX` of them.
pub open spec fn pending_ok(list: Seq<i64>) -> bool {
    distinct(list) && list.len() <= PENDING_MAX
}

/// Adding keeps the pending list free of repeats and within its bound, and the
/// document just added is on it.
pub proof fn lemma_pending_added(list: Seq<i64>, id: i64)
    requires
        pending_ok(list),
    ensures
        pending_ok(pending_added(list, id)),
        pending_added(list, id).contains(id),
{
    if !list.contains(id) {
        let l = list.push(id);
        assert(distinct(l)) by {
            assert forall|i: int, j: int| 0 <= i < j < l.len() implies l[i] != l[j] by {
                if j == list.len() {
                    assert(list.contains(l[i]));
                }
            }
        }
        assert(l[l.len() - 1] == id);
        if l.len() > PENDING_MAX {
            let s = l.skip(l.len() - PENDING_MAX);
            assert(s[s.len() - 1] == id);
            assert forall|i: int, j: int| 0 <= i < j < s.len() implies s[i] != s[j] by {
                assert(s[i] == l[i + l.len() - PENDING_MAX]);
                assert(s[j] == l[j + l.len() - PENDING_MAX]);
            }
        } else {
            assert(l[l.len() - 1] == id);
        }
    }
}

/// The pending list once a document has been reindexed: every entry of it
/// removed.
pub open spec fn pending_done(list: Seq<i64>, id: i64) -> Seq<i64>
    decreases list.len(),
{
    if list.len() == 0 {
        seq![]
    } else {
        let p = pending_done(list.drop_last(), id);
        if list.last() == id {
            p
        } else {
            p.push(list.last())
        }
    }
}

/// Taking a reindexed document off the pending list keeps the list free of
/// repeats and within its bound, removes that document, and keeps every other.
pub proof fn lemma_pending_done(list: Seq<i64>, id: i64)
    requires
        pending_ok(list),
    ensures
        pending_ok(pending_done(list, id)),
        pending_done(list, id).len() <= list.len(),
        !pending_done(list, id).contains(id),
        forall|x: i64| x != id ==> (pending_done(list, id).contains(x) <==> list.contains(x)),
    decreases list.len(),
{
    if list.len() > 0 {
        let pre = list.drop_last();
        assert(pending_ok(pre)) by {
            assert forall|i: int, j: int| 0 <= i < j < pre.len() implies pre[i] != pre[j] by {
                assert(pre[i] == list[i] && pre[j] == list[j]);
            }
        }
        lemma_pending_done(pre, id);
        let p = pending_done(pre, id);
        assert forall|x: i64| #[trigger] list.contains(x) <==> (pre.contains(x) || x == list.last()) by {
            if list.contains(x) {
                let k = choose|k: int| 0 <= k < list.len() && list[k] == x;
                if k < list.len() - 1 {
                    assert(pre[k] == x);
                }
            }
            if pre.contains(x) {
                let k = choose|k: int| 0 <= k < pre.len() && pre[k] == x;
                assert(list[k] == x);
            }
            if x == list.last() {
                assert(list[list.len() - 1] == x);
            }
        }
        if list.last() != id {
            let last = list.last();
            assert(!pre.contains(last)) by {
                if pre.contains(last) {
                    let k = choose|k: int| 0 <= k < pre.len() && pre[k] == last;
                    assert(list[k] == list[list.len() - 1]);
                }
            }
            let q = p.push(last);
            assert(!p.contains(last));
            assert forall|i: int, j: int| 0 <= i < j < q.len() implies q[i] != q[j] by {
                if j == q.len() - 1 {
                    assert(p.contains(q[i]));
                } else {
                    assert(q[i] == p[i] && q[j] == p[j]);
                }
            }
            assert forall|x: i64| #[trigger] q.contains(x) <==> (p.contains(x) || x == last) by {
                if q.contains(x) {
                    let k = choose|k: int| 0 <= k < q.len() && q[k] == x;
                    if k < q.len() - 1 {
                        assert(p[k] == x);
                    }
                }
                if p.contains(x) {
                    let k = choose|k: int| 0 <= k < p.len() && p[k] == x;
                    assert(q[k] == x);
                }
                if x == last {
                    assert(q[q.len() - 1] == x);
                }
            }
        }
    }
}

pub fn remove_pending(list: &Vec<i64>, id: i64) -> (r: Vec<i64>)
    ensures
        r@ == pending_done(list@, id),
{
    let mut out: Vec<i64> = Vec::new();
    let mut i: usize = 0;
    while i < list.len()
        invariant
            0 <= i <= list@.len(),
            out@ == pending_done(list@.take(i as int), id),
        decreases list@.len() - i,
    {
        proof {
            assert(list@.take(i + 1).drop_last() =~= list@.take(i as int));
        }
        if list[i] != id {
            out.push(list[i]);
        }
        i = i + 1;
    }
    proof {
        assert(list@.take(list@.len() as int) =~= list@);
    }
    out
}

/// The pending documents to look up besides those already missing from the
/// index: each once, in list order, none already missing.
pub open spec fn pending_lookups(missing: Seq<i64>, pending: Seq<i64>) -> Seq<i64> {
    dedup(pending).filter(|x: i64| !missing.contains(x))
}

pub fn pending_to_lookup(missing: &Vec<i64>, pending: &Vec<i64>) -> (r: Vec<i64>)
    ensures
        r@ == pending_lookups(missing@, pending@),
{
    let mut d: Vec<i64> = Vec::new();
    let ghost empty: Seq<i64> = seq![];
    proof {
        assert(dedup(empty) =~= seq![]);
    }
    crate::search::append_new(&mut d, pending, Ghost(empty));
    proof {
        assert(empty + pending@ =~= pending@);
    }
    let mut out: Vec<i64> = Vec::new();
    let mut i: usize = 0;
    while i < d.len()
        invariant
            0 <= i <= d@.len(),
            d@ == dedup(pending@),
            out@ == d@.take(i as int).filter(|x: i64| !missing@.contains(x)),
        decreases d@.len() - i,
    {
        proof {
            assert(d@.take(i + 1).drop_last() =~= d@.take(i as int));
            reveal(Seq::filter);
        }
        if !contains_id(missing, d[i]) {
            out.push(d[i]);
        }
        i = i + 1;
    }
    proof {
        assert(d@.take(d@.len() as int) =~= d@);
    }
    out
}

/// What a vector rebuild does first, by the cached probe status.
#[derive(Debug, Clone, Copy, PartialEq, Eq, Structural)]
pub enum ProbeStep {
    /// The model's dimension is known not to fit: rebuild nothing.
    Skip,
    /// The dimension is known to fit: rebuild without probing.
    Rebuild,
    /// Unknown: embed a probe text first.
    Probe,
}

pub open spec fn probe_step_of(cached: Option<Seq<char>>) -> ProbeStep {
    if cached == Some("mismatch"@) {
        ProbeStep::Skip
    } else if cached == Some("ok"@) {
        ProbeStep::Rebuild
    } else {
        ProbeStep::Probe
    }
}

pub fn probe_step(cached: &Option<String>) -> (r: ProbeStep)
    ensures
        r == probe_step_of(opt_chars(*cached)),
{
    proof {
        reveal_strlit("mismatch");
        reveal_strlit("ok");
        assert("mismatch"@.len() != "ok"@.len());
    }
    match cached {
        Some(s) => {
            if str_eq(s.as_str(), "mismatch") {
                ProbeStep::Skip
            } else if str_eq(s.as_str(), "ok") {
                ProbeStep::Rebuild
            } else {
                ProbeStep::Probe
            }
        },
        None => ProbeStep::Probe,
    }
}

/// The status a probe result caches: "ok" for the stored dimension,
/// "mismatch" for any other; nothing when the model could not be reached.
pub open spec fn probe_status_of(dim: Option<usize>) -> Option<Seq<char>> {
    match dim {
        Some(d) => Some(if d == EMBEDDING_DIM { "ok"@ } else { "mismatch"@ }),
        None => None,
    }
}

/// The status a probe result caches, as `probe_status_of` states it.
pub fn probe_status(dim: Option<usize>) -> (r: Option<String>)
    ensures
        opt_chars(r) == probe_status_of(dim),
{
    match dim {
        Some(d) => {
            if d == EMBEDDING_DIM {
                Some("ok".to_string())
            } else {
                Some("mismatch".to_string())
            }
        },
        None => None,
    }
}

/// A probe that reached the model is not repeated: once its status is cached,
/// the next round rebuilds (dimension fits) or skips (it does not) without
/// probing again.
pub proof fn lemma_probe_not_repeated(dim: usize)
    ensures
        probe_step_of(probe_status_of(Some(dim))) == (if dim == EMBEDDING_DIM {
            ProbeStep::Rebuild
        } else {
            ProbeStep::Skip
        }),
{
    reveal_strlit("mismatch");
    reveal_strlit("ok");
    assert("mismatch"@.len() != "ok"@.len());
}

/// Whether the cached probe belongs to another model and must be cleared.
pub fn probe_model_changed(cached: &Option<String>, model: &str) -> (r: bool)
    ensures
        r == (opt_chars(*cached) != Some(model@)),
{
    match cached {
        Some(s) => !str_eq(s.as_str(), model),
        None => true,
    }
}

/// Whether a cached probe status reports a dimension mismatch.
pub fn is_mismatch(status: &Option<String>) -> (r: bool)
    ensures
        r == (opt_chars(*status) == Some("mismatch"@)),
{
    match status {
        Some(s) => str_eq(s.as_str(), "mismatch"),
        None => false,
    }
}

/// What `serde_json::from_str::<Vec<i64>>` gives for a text.
pub uninterp spec fn json_int_list(text: Seq<char>) -> Option<Seq<i64>>;

/// `serde_json::from_str::<Vec<i64>>`, errors as none. The claims: the outcome
/// is `json_int_list` of the text, and the compact text `serde_json` writes
/// for a list of integers (`int_list_json`) reads back as that list.
#[verifier::external_body]
fn parse_int_list(text: &str) -> (r: Option<Vec<i64>>)
    ensures
        match r {
            Some(v) => json_int_list(text@) == Some(v@),
            None => json_int_list(text@) is None,
        },
        r is None ==> forall|v: Seq<i64>| text@ != #[trigger] int_list_json(v),
        r matches Some(w) ==> forall|v: Seq<i64>| text@ == #[trigger] int_list_json(v) ==> w@ == v,
{
    serde_json::from_str::<Vec<i64>>(text).ok()
}

/// Decimal text of a signed integer.
pub open spec fn int_text(x: i64) -> Seq<char> {
    if x < 0 {
        "-"@ + decimal((-x) as nat)
    } else {
        decimal(x as nat)
    }
}

/// The compact JSON text of a list of integers: `[`, the numbers in decimal
/// separated by `,`, `]` (what `serde_json::to_string` writes for a `Vec<i64>`).
pub open spec fn int_list_json(v: Seq<i64>) -> Seq<char> {
    "["@ + join_with(v.map_values(|x: i64| int_text(x)), ","@) + "]"@
}

fn push_int(x: i64, out: &mut Vec<char>)
    ensures
        final(out)@ == old(out)@ + int_text(x),
{
    proof {
        reveal_strlit("-");
    }
    if x < 0 {
        out.push('-');
        let a: u64 = ((-(x + 1)) as u64) + 1;
        assert(a as int == -x);
        push_decimal(a, out);
    } else {
        push_decimal(x as u64, out);
    }
}

/// The compact JSON text of a list of integers.
fn write_int_list(v: &Vec<i64>) -> (r: String)
    ensures
        r@ == int_list_json(v@),
{
    proof {
        reveal_strlit("[");
        reveal_strlit("]");
        reveal_strlit(",");
    }
    let mut out: Vec<char> = Vec::new();
    out.push('[');
    let ghost items = v@.map_values(|x: i64| int_text(x));
    let mut i: usize = 0;
    proof {
        assert(items.take(0) =~= seq![]);
        assert(out@ =~= "["@ + join_with(items.take(0), ","@));
    }
    while i < v.len()
        invariant
            0 <= i <= v@.len(),
            items == v@.map_values(|x: i64| int_text(x)),
            out@ == "["@ + join_with(items.take(i as int), ","@),
        decreases v@.len() - i,
    {
        let ghost before = out@;
        if i > 0 {
            out.push(',');
        }
        push_int(v[i], &mut out);
        proof {
            let t = items.take(i + 1);
            assert(t.drop_last() =~= items.take(i as int));
            assert(t.last() == int_text(v@[i as int]));
            reveal_strlit(",");
            assert(","@ =~= seq![',']);
            if i == 0 {
                assert(join_with(t, ","@) == t[0]);
                assert(out@ =~= before + int_text(v@[i as int]));
            } else {
                assert(join_with(t, ","@) == join_with(items.take(i as int), ","@) + ","@ + t.last());
                assert(out@ =~= before + ","@ + int_text(v@[i as int]));
            }
            assert(out@ =~= "["@ + join_with(t, ","@));
        }
        i = i + 1;
    }
    out.push(']');
    proof {
        assert(items.take(v@.len() as int) =~= items);
    }
    string_of(out.as_slice())
}

/// The pending list stored as text (absent or unreadable: empty).
pub fn read_pending(stored: &Option<String>) -> (r: Vec<i64>)
    ensures
        r@ == match opt_chars(*stored) {
            Some(t) => match json_int_list(t) {
                Some(v) => v,
                None => seq![],
            },
            None => seq![],
        },
        forall|v: Seq<i64>| opt_chars(*stored) == Some(#[trigger] int_list_json(v)) ==> r@ == v,
{
    match stored {
        Some(t) => match parse_int_list(t.as_str()) {
            Some(v) => v,
            None => Vec::new(),
        },
        None => Vec::new(),
    }
}

/// The pending list as stored text.
pub fn write_pending(list: &Vec<i64>) -> (r: String)
    ensures
        r@ == int_list_json(list@),
{
    write_int_list(list)
}

} // verus!
