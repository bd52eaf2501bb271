//! Export of filtered documents as CSV (JSON is written by the application
//! from the same rows), with owning entities and tags.

use vstd::prelude::*;

use crate::entities::DocumentRow;
use crate::text::{
    ascii_lower, ascii_lower_chars, chars_eq, chars_of, chars_of_all, decimal, extend_chars, join_chars, join_with,
    push_decimal, push_text, string_of, string_views, views,
};

verus! {

/// Export format.
#[derive(Debug, Clone, Copy, PartialEq, Eq, Structural)]
pub enum ExportFormat {
    Csv,
    Json,
}

/// Why a format name is refused.
pub open spec fn format_refusal(lowered: Seq<char>) -> Seq<char> {
    "不支持的导出格式: "@ + lowered + "（仅 csv / json）"@
}

impl ExportFormat {
    /// Parses "csv" or "json", ASCII case ignored.
    pub fn parse(s: &str) -> (r: Result<ExportFormat, String>)
        ensures
            ascii_lower(s@) == "csv"@ ==> r == Ok::<ExportFormat, String>(ExportFormat::Csv),
            ascii_lower(s@) == "json"@ ==> r == Ok::<ExportFormat, String>(ExportFormat::Json),
            ascii_lower(s@) != "csv"@ && ascii_lower(s@) != "json"@ ==> (r matches Err(m) && m@ == format_refusal(
                ascii_lower(s@),
            )),
    {
        let low = ascii_lower_chars(s);
        proof {
            reveal_strlit("csv");
            reveal_strlit("json");
            assert("csv"@.len() == 3);
            assert("json"@.len() == 4);
            assert("csv"@ != "json"@);
        }
        let csv = chars_of("csv");
        let json = chars_of("json");
        if chars_eq(low.as_slice(), csv.as_slice()) {
            Ok(ExportFormat::Csv)
        } else if chars_eq(low.as_slice(), json.as_slice()) {
            Ok(ExportFormat::Json)
        } else {
            let mut m = chars_of("不支持的导出格式: ");
            extend_chars(&mut m, low.as_slice());
            push_text(&mut m, "（仅 csv / json）");
            Err(string_of(m.as_slice()))
        }
    }
}

/// One exported record: absent values as empty text; entity and tag names
/// joined by ";" (no entity names: not yet assigned).
#[derive(Debug, Clone)]
pub struct ExportRow {
    pub id: i64,
    pub kind: String,
    pub title: String,
    pub doc_type: String,
    pub source: String,
    pub party: String,
    pub owner: String,
    pub date_field: String,
    pub note: String,
    pub status: String,
    pub created_at: String,
    pub entities: String,
    pub tags: String,
}

pub open spec fn or_empty(o: Option<String>) -> Seq<char> {
    match o {
        Some(s) => s@,
        None => seq![],
    }
}

fn take_or_empty(o: Option<String>) -> (r: String)
    ensures
        r@ == or_empty(o),
{
    match o {
        Some(s) => s,
        None => String::new(),
    }
}

fn join_names(names: &Vec<String>) -> (r: String)
    ensures
        r@ == join_with(string_views(names@), ";"@),
{
    let cv = chars_of_all(names);
    let sep = chars_of(";");
    let j = join_chars(&cv, sep.as_slice());
    proof {
        assert(cv@.map_values(|v: Vec<char>| v@) =~= views(cv@));
    }
    string_of(j.as_slice())
}

/// The export record of a document with its entity and tag names.
pub fn export_row(d: DocumentRow, entity_names: &Vec<String>, tag_names: &Vec<String>) -> (r: ExportRow)
    ensures
        r.id == d.id,
        r.kind@ == d.kind@,
        r.title@ == d.title@,
        r.doc_type@ == or_empty(d.doc_type),
        r.source@ == or_empty(d.source),
        r.party@ == or_empty(d.party),
        r.owner@ == or_empty(d.owner),
        r.date_field@ == or_empty(d.date_field),
        r.note@ == or_empty(d.note),
        r.status@ == or_empty(d.status),
        r.created_at@ == d.created_at@,
        r.entities@ == join_with(string_views(entity_names@), ";"@),
        r.tags@ == join_with(string_views(tag_names@), ";"@),
{
    ExportRow {
        id: d.id,
        kind: d.kind,
        title: d.title,
        doc_type: take_or_empty(d.doc_type),
        source: take_or_empty(d.source),
        party: take_or_empty(d.party),
        owner: take_or_empty(d.owner),
        date_field: take_or_empty(d.date_field),
        note: take_or_empty(d.note),
        status: take_or_empty(d.status),
        created_at: d.created_at,
        entities: join_names(entity_names),
        tags: join_names(tag_names),
    }
}

/// Characters that force a CSV field into quotes.
pub open spec fn csv_special(c: char) -> bool {
    c == ',' || c == '"' || c == '\n' || c == '\r'
}

/// Each double quote doubled.
pub open spec fn double_quotes(s: Seq<char>) -> Seq<char>
    decreases s.len(),
{
    if s.len() == 0 {
        seq![]
    } else {
        double_quotes(s.drop_last()) + (if s.last() == '"' {
            seq!['"', '"']
        } else {
            seq![s.last()]
        })
    }
}

/// A CSV field: quoted (inner quotes doubled) when it holds a comma, a quote
/// or a line break, as is otherwise.
pub open spec fn csv_field_of(s: Seq<char>) -> Seq<char> {
    if exists|i: int| 0 <= i < s.len() && csv_special(#[trigger] s[i]) {
        seq!['"'] + double_quotes(s) + seq!['"']
    } else {
        s
    }
}

/// Appends a CSV field.
pub fn push_csv_field(out: &mut Vec<char>, v: &[char])
    ensures
        final(out)@ == old(out)@ + csv_field_of(v@),
{
    let mut special = false;
    let mut i: usize = 0;
    while i < v.len()
        invariant
            0 <= i <= v@.len(),
            special == (exists|k: int| 0 <= k < i && csv_special(#[trigger] v@[k])),
        decreases v@.len() - i,
    {
        let c = v[i];
        if c == ',' || c == '"' || c == '\n' || c == '\r' {
            special = true;
        }
        i = i + 1;
    }
    if !special {
        extend_chars(out, v);
        return;
    }
    let ghost start = out@;
    out.push('"');
    let mut j: usize = 0;
    while j < v.len()
        invariant
            0 <= j <= v@.len(),
            out@ == start + seq!['"'] + double_quotes(v@.take(j as int)),
        decreases v@.len() - j,
    {
        if v[j] == '"' {
            out.push('"');
            out.push('"');
        } else {
            out.push(v[j]);
        }
        proof {
            assert(v@.take(j + 1).drop_last() =~= v@.take(j as int));
            assert(out@ =~= start + seq!['"'] + double_quotes(v@.take(j + 1)));
        }
        j = j + 1;
    }
    out.push('"');
    proof {
        assert(v@.take(v@.len() as int) =~= v@);
        assert(out@ =~= start + csv_field_of(v@));
    }
}

/// CSV field escaping of one value.
pub fn csv_field(v: &str) -> (r: String)
    ensures
        r@ == csv_field_of(v@),
{
    let cs = chars_of(v);
    let mut out: Vec<char> = Vec::new();
    push_csv_field(&mut out, cs.as_slice());
    proof {
        assert(out@ =~= csv_field_of(v@));
    }
    string_of(out.as_slice())
}

/// The fields joined by commas, then a line feed.
pub open spec fn csv_line(cols: Seq<Seq<char>>) -> Seq<char> {
    join_with(cols.map_values(|c: Seq<char>| csv_field_of(c)), ","@) + "\n"@
}

fn push_csv_line(out: &mut Vec<char>, cols: &Vec<Vec<char>>)
    ensures
        final(out)@ == old(out)@ + csv_line(views(cols@)),
{
    let ghost start = out@;
    let ghost fields = views(cols@).map_values(|c: Seq<char>| csv_field_of(c));
    let mut i: usize = 0;
    while i < cols.len()
        invariant
            0 <= i <= cols@.len(),
            fields == views(cols@).map_values(|c: Seq<char>| csv_field_of(c)),
            out@ == start + join_with(fields.take(i as int), ","@),
        decreases cols@.len() - i,
    {
        if i > 0 {
            out.push(',');
        }
        push_csv_field(out, cols[i].as_slice());
        proof {
            reveal_strlit(",");
            assert(fields.take(i + 1).drop_last() =~= fields.take(i as int));
            assert(fields.take(i + 1).last() == csv_field_of(cols@[i as int]@));
            if i == 0 {
                assert(fields.take(1) =~= seq![csv_field_of(cols@[0]@)]);
            }
            assert(out@ =~= start + join_with(fields.take(i + 1), ","@));
        }
        i = i + 1;
    }
    out.push('\n');
    proof {
        reveal_strlit("\n");
        assert(fields.take(cols@.len() as int) =~= fields);
        assert(out@ =~= start + csv_line(views(cols@)));
    }
}

/// Decimal text of a signed number.
pub open spec fn signed_decimal(i: int) -> Seq<char> {
    if i < 0 {
        "-"@ + decimal((-i) as nat)
    } else {
        decimal(i as nat)
    }
}

fn signed_chars(i: i64) -> (r: Vec<char>)
    ensures
        r@ == signed_decimal(i as int),
{
    let mut v: Vec<char> = Vec::new();
    if i < 0 {
        v.push('-');
        let m: u64 = ((-(i + 1)) as u64) + 1;
        push_decimal(m, &mut v);
        proof {
            reveal_strlit("-");
            assert(v@ =~= signed_decimal(i as int));
        }
    } else {
        push_decimal(i as u64, &mut v);
        proof {
            assert(v@ =~= signed_decimal(i as int));
        }
    }
    v
}

/// The CSV header fields.
pub open spec fn csv_header() -> Seq<Seq<char>> {
    seq![
        "id"@,
        "kind"@,
        "title"@,
        "type"@,
        "source"@,
        "party"@,
        "owner"@,
        "date_field"@,
        "note"@,
        "status"@,
        "created_at"@,
        "entities"@,
        "tags"@,
    ]
}

/// The CSV fields of a record, in header order.
pub open spec fn row_fields(r: ExportRow) -> Seq<Seq<char>> {
    seq![
        signed_decimal(r.id as int),
        r.kind@,
        r.title@,
        r.doc_type@,
        r.source@,
        r.party@,
        r.owner@,
        r.date_field@,
        r.note@,
        r.status@,
        r.created_at@,
        r.entities@,
        r.tags@,
    ]
}

/// The value of a record under a column name of the export (empty for a
/// name that is no column).
pub open spec fn column_value(r: ExportRow, name: Seq<char>) -> Seq<char> {
    if name == "id"@ {
        signed_decimal(r.id as int)
    } else if name == "kind"@ {
        r.kind@
    } else if name == "title"@ {
        r.title@
    } else if name == "type"@ {
        r.doc_type@
    } else if name == "source"@ {
        r.source@
    } else if name == "party"@ {
        r.party@
    } else if name == "owner"@ {
        r.owner@
    } else if name == "date_field"@ {
        r.date_field@
    } else if name == "note"@ {
        r.note@
    } else if name == "status"@ {
        r.status@
    } else if name == "created_at"@ {
        r.created_at@
    } else if name == "entities"@ {
        r.entities@
    } else if name == "tags"@ {
        r.tags@
    } else {
        seq![]
    }
}

/// Every data line lists the record's values in header order: the field in
/// column `k` is the record's value for the column named `csv_header()[k]`.
pub proof fn lemma_fields_follow_header(r: ExportRow)
    ensures
        row_fields(r).len() == csv_header().len(),
        forall|k: int| 0 <= k < csv_header().len() ==> #[trigger] row_fields(r)[k] == column_value(r, csv_header()[k]),
{
    reveal_strlit("id");
    reveal_strlit("kind");
    reveal_strlit("title");
    reveal_strlit("type");
    reveal_strlit("source");
    reveal_strlit("party");
    reveal_strlit("owner");
    reveal_strlit("date_field");
    reveal_strlit("note");
    reveal_strlit("status");
    reveal_strlit("created_at");
    reveal_strlit("entities");
    reveal_strlit("tags");
    let h = csv_header();
    assert(h[0] == "id"@);
    assert(h[1] != "id"@) by { assert(h[1][0] != "id"@[0]); }
    assert(h[2] != "id"@ && h[2] != "kind"@) by { assert(h[2].len() != 2 && h[2].len() != 4); }
    assert(h[3] != "id"@ && h[3] != "kind"@ && h[3] != "title"@) by { assert(h[3][0] == 't' && h[3][1] == 'y'); assert("title"@[1] == 'i'); }
    assert(h[4] != "id"@ && h[4] != "kind"@ && h[4] != "title"@ && h[4] != "type"@) by { assert(h[4].len() == 6); }
    assert(h[5] != "id"@ && h[5] != "kind"@ && h[5] != "title"@ && h[5] != "type"@ && h[5] != "source"@) by { assert(h[5].len() == 5 && h[5][0] == 'p'); }
    assert(h[6] != "id"@ && h[6] != "kind"@ && h[6] != "title"@ && h[6] != "type"@ && h[6] != "source"@ && h[6] != "party"@) by { assert(h[6][0] == 'o'); }
    assert(h[7] != "id"@ && h[7] != "kind"@ && h[7] != "title"@ && h[7] != "type"@ && h[7] != "source"@ && h[7] != "party"@ && h[7] != "owner"@) by { assert(h[7].len() == 10); }
    assert(h[8] != "id"@ && h[8] != "kind"@ && h[8] != "title"@ && h[8] != "type"@ && h[8] != "source"@ && h[8] != "party"@ && h[8] != "owner"@ && h[8] != "date_field"@) by { assert(h[8][0] == 'n'); }
    assert(h[9] != "id"@ && h[9] != "kind"@ && h[9] != "title"@ && h[9] != "type"@ && h[9] != "source"@ && h[9] != "party"@ && h[9] != "owner"@ && h[9] != "date_field"@ && h[9] != "note"@) by { assert(h[9].len() == 6 && h[9][1] == 't'); assert("source"@[1] == 'o'); }
    assert(h[10] != "id"@ && h[10] != "kind"@ && h[10] != "title"@ && h[10] != "type"@ && h[10] != "source"@ && h[10] != "party"@ && h[10] != "owner"@ && h[10] != "date_field"@ && h[10] != "note"@ && h[10] != "status"@) by { assert(h[10][0] == 'c'); }
    assert(h[11] != "id"@ && h[11] != "kind"@ && h[11] != "title"@ && h[11] != "type"@ && h[11] != "source"@ && h[11] != "party"@ && h[11] != "owner"@ && h[11] != "date_field"@ && h[11] != "note"@ && h[11] != "status"@ && h[11] != "created_at"@) by { assert(h[11][0] == 'e'); }
    assert(h[12] != "id"@ && h[12] != "kind"@ && h[12] != "title"@ && h[12] != "type"@ && h[12] != "source"@ && h[12] != "party"@ && h[12] != "owner"@ && h[12] != "date_field"@ && h[12] != "note"@ && h[12] != "status"@ && h[12] != "created_at"@ && h[12] != "entities"@) by { assert(h[12].len() == 4 && h[12][0] == 't' && h[12][1] == 'a'); assert("type"@[1] == 'y'); }
}

/// The CSV lines of the records, in order.
pub open spec fn csv_body(rows: Seq<ExportRow>) -> Seq<char>
    decreases rows.len(),
{
    if rows.len() == 0 {
        seq![]
    } else {
        csv_body(rows.drop_last()) + csv_line(row_fields(rows.last()))
    }
}

/// A whole CSV export: the header line, then one line per record.
pub open spec fn csv_text(rows: Seq<ExportRow>) -> Seq<char> {
    csv_line(csv_header()) + csv_body(rows)
}

fn header_cols() -> (r: Vec<Vec<char>>)
    ensures
        views(r@) == csv_header(),
{
    let mut r: Vec<Vec<char>> = Vec::new();
    r.push(chars_of("id"));
    r.push(chars_of("kind"));
    r.push(chars_of("title"));
    r.push(chars_of("type"));
    r.push(chars_of("source"));
    r.push(chars_of("party"));
    r.push(chars_of("owner"));
    r.push(chars_of("date_field"));
    r.push(chars_of("note"));
    r.push(chars_of("status"));
    r.push(chars_of("created_at"));
    r.push(chars_of("entities"));
    r.push(chars_of("tags"));
    proof {
        assert(views(r@) =~= csv_header());
    }
    r
}

fn row_cols(r: &ExportRow) -> (c: Vec<Vec<char>>)
    ensures
        views(c@) == row_fields(*r),
{
    let mut c: Vec<Vec<char>> = Vec::new();
    c.push(signed_chars(r.id));
    c.push(chars_of(r.kind.as_str()));
    c.push(chars_of(r.title.as_str()));
    c.push(chars_of(r.doc_type.as_str()));
    c.push(chars_of(r.source.as_str()));
    c.push(chars_of(r.party.as_str()));
    c.push(chars_of(r.owner.as_str()));
    c.push(chars_of(r.date_field.as_str()));
    c.push(chars_of(r.note.as_str()));
    c.push(chars_of(r.status.as_str()));
    c.push(chars_of(r.created_at.as_str()));
    c.push(chars_of(r.entities.as_str()));
    c.push(chars_of(r.tags.as_str()));
    proof {
        assert(views(c@) =~= row_fields(*r));
    }
    c
}

/// The CSV export of the records, header first.
pub fn export_csv_text(rows: &Vec<ExportRow>) -> (r: String)
    ensures
        r@ == csv_text(rows@),
{
    let mut out: Vec<char> = Vec::new();
    let h = header_cols();
    push_csv_line(&mut out, &h);
    let ghost head = out@;
    let mut i: usize = 0;
    proof {
        assert(head + csv_body(rows@.take(0)) =~= head);
    }
    while i < rows.len()
        invariant
            0 <= i <= rows@.len(),
            head == csv_line(csv_header()),
            out@ == head + csv_body(rows@.take(i as int)),
        decreases rows@.len() - i,
    {
        let cols = row_cols(&rows[i]);
        push_csv_line(&mut out, &cols);
        proof {
            assert(rows@.take(i + 1).drop_last() =~= rows@.take(i as int));
            assert(out@ =~= head + csv_body(rows@.take(i + 1)));
        }
        i = i + 1;
    }
    proof {
        assert(rows@.take(rows@.len() as int) =~= rows@);
    }
    string_of(out.as_slice())
}

/// A doubled quote read back as one.
pub open spec fn undouble_quotes(t: Seq<char>) -> Seq<char>
    decreases t.len(),
{
    if t.len() == 0 {
        seq![]
    } else if t.len() >= 2 && t[0] == '"' && t[1] == '"' {
        seq!['"'] + undouble_quotes(t.skip(2))
    } else {
        seq![t[0]] + undouble_quotes(t.skip(1))
    }
}

/// A CSV field read back: a quoted field loses its quotes and its doubled
/// quotes; any other field is its own value.
pub open spec fn csv_unquote(t: Seq<char>) -> Seq<char> {
    if t.len() >= 2 && t[0] == '"' && t.last() == '"' {
        undouble_quotes(t.subrange(1, t.len() - 1))
    } else {
        t
    }
}

proof fn lemma_double_quotes_append(a: Seq<char>, b: Seq<char>)
    ensures
        double_quotes(a + b) == double_quotes(a) + double_quotes(b),
    decreases b.len(),
{
    if b.len() == 0 {
        assert(a + b =~= a);
        assert(double_quotes(b) =~= seq![]);
        assert(double_quotes(a) + double_quotes(b) =~= double_quotes(a));
    } else {
        assert((a + b).drop_last() =~= a + b.drop_last());
        lemma_double_quotes_append(a, b.drop_last());
        assert(double_quotes(a) + double_quotes(b) =~= double_quotes(a) + double_quotes(b.drop_last()) + (if b.last()
            == '"' {
            seq!['"', '"']
        } else {
            seq![b.last()]
        }));
    }
}

proof fn lemma_undouble(s: Seq<char>)
    ensures
        undouble_quotes(double_quotes(s)) == s,
    decreases s.len(),
{
    if s.len() > 0 {
        let c = s[0];
        let rest = s.skip(1);
        lemma_undouble(rest);
        assert(s =~= seq![c] + rest);
        lemma_double_quotes_append(seq![c], rest);
        assert(seq![c].drop_last() =~= seq![]);
        assert(double_quotes(seq![c]) =~= double_quotes(seq![]) + (if c == '"' {
            seq!['"', '"']
        } else {
            seq![c]
        }));
        let t = double_quotes(s);
        if c == '"' {
            assert(t =~= seq!['"', '"'] + double_quotes(rest));
            assert(t.skip(2) =~= double_quotes(rest));
        } else {
            assert(t =~= seq![c] + double_quotes(rest));
            assert(t.skip(1) =~= double_quotes(rest));
        }
    } else {
        assert(double_quotes(s) =~= seq![]);
    }
}

/// Quoting keeps the value: a field read back is the value that was written.
pub proof fn lemma_csv_field_roundtrip(s: Seq<char>)
    ensures
        csv_unquote(csv_field_of(s)) == s,
{
    let special = exists|i: int| 0 <= i < s.len() && csv_special(#[trigger] s[i]);
    if special {
        let q = seq!['"'] + double_quotes(s) + seq!['"'];
        assert(q.subrange(1, q.len() - 1) =~= double_quotes(s));
        lemma_undouble(s);
    } else {
        if s.len() >= 2 && s[0] == '"' {
            assert(csv_special(s[0]));
        }
    }
}

} // verus!
