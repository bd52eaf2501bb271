//! Entities, documents, tags and links: the rows the store hands back, the
//! document filter and its query, and the rules around deletion and linking.

use vstd::prelude::*;

use crate::sql::{arg_views, int_args, one_if, placeholders, push_placeholders, ArgView, SqlArg};
use crate::text::{
    chars_of, decimal, extend_chars, join_chars, join_with, push_decimal, push_text, string_of, trim, trim_chars,
    views,
};

verus! {

/// A company entity.
#[derive(Debug, Clone)]
pub struct EntityRow {
    pub id: i64,
    pub name: String,
    pub credit_code: Option<String>,
    pub note: Option<String>,
    pub created_at: String,
}

/// A document (a file or a business entry).
#[derive(Debug, Clone)]
pub struct DocumentRow {
    pub id: i64,
    pub kind: String,
    pub title: String,
    pub doc_type: Option<String>,
    pub source: Option<String>,
    pub content_text: Option<String>,
    pub party: Option<String>,
    pub owner: Option<String>,
    pub date_field: Option<String>,
    pub note: Option<String>,
    pub fields: Option<String>,
    pub status: Option<String>,
    pub sync_status: Option<String>,
    pub created_at: String,
    pub updated_at: String,
}

/// A tag.
#[derive(Debug, Clone)]
pub struct TagRow {
    pub id: i64,
    pub name: String,
}

/// A document to insert (`created_at` is an ISO time given by the caller).
#[derive(Debug, Clone)]
pub struct NewDocument {
    pub kind: String,
    pub title: String,
    pub doc_type: Option<String>,
    pub source: Option<String>,
    pub content_text: Option<String>,
    pub party: Option<String>,
    pub owner: Option<String>,
    pub date_field: Option<String>,
    pub note: Option<String>,
    pub fields: Option<String>,
    pub status: Option<String>,
    pub created_at: String,
}

/// One link of a document: the other document, the link kind, and whether
/// this document is the link's source ("out") or its target ("in").
#[derive(Debug, Clone)]
pub struct DocLink {
    pub id: i64,
    pub kind: String,
    pub direction: String,
}

/// Document filter: entity × type × tag, plus owner, date range and source.
#[derive(Debug, Clone)]
pub struct DocumentFilter {
    pub entity_id: Option<i64>,
    pub doc_type: Option<String>,
    pub tag_id: Option<i64>,
    /// More entities (joined with `entity_id`).
    pub entity_ids: Vec<i64>,
    /// Exact owner; blank means no constraint.
    pub owner: Option<String>,
    /// First business date (YYYY-MM-DD, inclusive); blank means none.
    pub date_from: Option<String>,
    /// Last business date (inclusive); blank means none.
    pub date_to: Option<String>,
    /// Source, matched as a substring; blank means none.
    pub source: Option<String>,
}

impl NewDocument {
    /// The status stored with the document: the given one, "ok" by default.
    pub fn stored_status(&self) -> (r: String)
        ensures
            r@ == (match self.status {
                Some(s) => s@,
                None => "ok"@,
            }),
    {
        match &self.status {
            Some(s) => s.clone(),
            None => "ok".to_string(),
        }
    }
}

impl DocumentFilter {
    /// The filter that admits every document.
    pub fn new() -> (f: Self)
        ensures
            f.entity_id is None,
            f.doc_type is None,
            f.tag_id is None,
            f.entity_ids@.len() == 0,
            f.owner is None,
            f.date_from is None,
            f.date_to is None,
            f.source is None,
    {
        DocumentFilter {
            entity_id: None,
            doc_type: None,
            tag_id: None,
            entity_ids: Vec::new(),
            owner: None,
            date_from: None,
            date_to: None,
            source: None,
        }
    }
}

/// A document with the ids of its owning entities (none: not yet assigned).
#[derive(Debug, Clone)]
pub struct DocumentWithEntities {
    pub doc: DocumentRow,
    pub entity_ids: Vec<i64>,
}

/// A LIKE wildcard or the escape character itself.
pub open spec fn like_special(c: char) -> bool {
    c == '\\' || c == '%' || c == '_'
}

/// Each `\`, `%` and `_` preceded by `\`.
pub open spec fn like_escape(s: Seq<char>) -> Seq<char>
    decreases s.len(),
{
    if s.len() == 0 {
        seq![]
    } else {
        like_escape(s.drop_last()) + (if like_special(s.last()) {
            seq!['\\', s.last()]
        } else {
            seq![s.last()]
        })
    }
}

/// The substring pattern of a value for `LIKE ? ESCAPE '\'`.
pub open spec fn like_pattern_of(s: Seq<char>) -> Seq<char> {
    seq!['%'] + like_escape(s) + seq!['%']
}

/// Escaped text read back: each `\` dropped and the character after it kept.
pub open spec fn like_unescape(t: Seq<char>) -> Seq<char>
    decreases t.len(),
{
    if t.len() == 0 {
        seq![]
    } else if t[0] == '\\' && t.len() >= 2 {
        seq![t[1]] + like_unescape(t.skip(2))
    } else {
        seq![t[0]] + like_unescape(t.skip(1))
    }
}

/// No wildcard stands unescaped: every `\`, `%` and `_` comes as the second
/// half of a `\` pair.
pub open spec fn wildcard_free(t: Seq<char>) -> bool
    decreases t.len(),
{
    if t.len() == 0 {
        true
    } else if t[0] == '\\' {
        t.len() >= 2 && wildcard_free(t.skip(2))
    } else {
        !like_special(t[0]) && wildcard_free(t.skip(1))
    }
}

/// The LIKE substring pattern of a user value (`%value%`, with `\`, `%` and
/// `_` escaped).
pub fn like_pattern(v: &str) -> (r: String)
    ensures
        r@ == like_pattern_of(v@),
{
    let cs = chars_of(v);
    let mut out: Vec<char> = Vec::new();
    out.push('%');
    let mut i: usize = 0;
    while i < cs.len()
        invariant
            0 <= i <= cs@.len(),
            cs@ == v@,
            out@ == seq!['%'] + like_escape(cs@.take(i as int)),
        decreases cs@.len() - i,
    {
        let c = cs[i];
        if c == '\\' || c == '%' || c == '_' {
            out.push('\\');
        }
        out.push(c);
        proof {
            assert(cs@.take(i + 1).drop_last() =~= cs@.take(i as int));
            assert(out@ =~= seq!['%'] + like_escape(cs@.take(i + 1)));
        }
        i = i + 1;
    }
    out.push('%');
    proof {
        assert(cs@.take(cs@.len() as int) =~= cs@);
        assert(out@ =~= like_pattern_of(v@));
    }
    string_of(out.as_slice())
}

proof fn lemma_like_escape_append(a: Seq<char>, b: Seq<char>)
    ensures
        like_escape(a + b) == like_escape(a) + like_escape(b),
    decreases b.len(),
{
    if b.len() == 0 {
        assert(a + b =~= a);
        assert(like_escape(b) =~= seq![]);
        assert(like_escape(a) + like_escape(b) =~= like_escape(a));
    } else {
        assert((a + b).drop_last() =~= a + b.drop_last());
        lemma_like_escape_append(a, b.drop_last());
        assert(like_escape(a) + like_escape(b) =~= like_escape(a) + like_escape(b.drop_last()) + (if like_special(
            b.last(),
        ) {
            seq!['\\', b.last()]
        } else {
            seq![b.last()]
        }));
    }
}

/// Escaping keeps the value: reading the escaped text back gives the value,
/// and no wildcard in it stands unescaped.
pub proof fn lemma_like_escape_exact(s: Seq<char>)
    ensures
        like_unescape(like_escape(s)) == s,
        wildcard_free(like_escape(s)),
    decreases s.len(),
{
    if s.len() > 0 {
        let c = s[0];
        let rest = s.skip(1);
        lemma_like_escape_exact(rest);
        assert(s =~= seq![c] + rest);
        lemma_like_escape_append(seq![c], rest);
        assert(seq![c].drop_last() =~= seq![]);
        assert(like_escape(seq![c]) =~= like_escape(seq![]) + (if like_special(c) {
            seq!['\\', c]
        } else {
            seq![c]
        }));
        let t = like_escape(s);
        if like_special(c) {
            assert(t =~= seq!['\\', c] + like_escape(rest));
            assert(t.skip(2) =~= like_escape(rest));
        } else {
            assert(t =~= seq![c] + like_escape(rest));
            assert(t.skip(1) =~= like_escape(rest));
        }
    } else {
        assert(like_escape(s) =~= seq![]);
    }
}

pub open spec fn opt_chars(o: Option<String>) -> Option<Seq<char>> {
    match o {
        Some(s) => Some(s@),
        None => None,
    }
}

/// A text constraint that is present and not blank, trimmed.
pub open spec fn given(o: Option<String>) -> Option<Seq<char>> {
    match o {
        Some(s) => if trim(s@).len() > 0 {
            Some(trim(s@))
        } else {
            None
        },
        None => None,
    }
}

/// All entities of a filter: the single one first, then the list.
pub open spec fn filter_entities(f: DocumentFilter) -> Seq<i64> {
    (match f.entity_id {
        Some(e) => seq![e],
        None => seq![],
    }) + f.entity_ids@
}

pub open spec fn entity_cond(n: nat) -> Seq<char> {
    "d.id IN (SELECT document_id FROM document_entity WHERE entity_id IN ("@ + placeholders(n) + "))"@
}

/// The conditions of a filter, in order.
pub open spec fn filter_conds(f: DocumentFilter) -> Seq<Seq<char>> {
    let ents = filter_entities(f);
    one_if(ents.len() > 0, entity_cond(ents.len())) + one_if(f.doc_type is Some, "d.type = ?"@) + one_if(
        f.tag_id is Some,
        "d.id IN (SELECT document_id FROM document_tag WHERE tag_id = ?)"@,
    ) + one_if(given(f.owner) is Some, "d.owner = ?"@) + one_if(
        given(f.date_from) is Some,
        "date(d.date_field) >= date(?)"@,
    ) + one_if(given(f.date_to) is Some, "date(d.date_field) <= date(?)"@) + one_if(
        given(f.source) is Some,
        "d.source LIKE ? ESCAPE '\\'"@,
    )
}

pub open spec fn text_arg_of(o: Option<Seq<char>>) -> Seq<ArgView> {
    match o {
        Some(s) => seq![ArgView::Text(s)],
        None => seq![],
    }
}

/// The arguments of a filter, in the order of its conditions.
pub open spec fn filter_args(f: DocumentFilter) -> Seq<ArgView> {
    int_args(filter_entities(f)) + text_arg_of(opt_chars(f.doc_type)) + (match f.tag_id {
        Some(t) => seq![ArgView::Int(t)],
        None => seq![],
    }) + text_arg_of(given(f.owner)) + text_arg_of(given(f.date_from)) + text_arg_of(given(f.date_to))
        + text_arg_of(
        match given(f.source) {
            Some(s) => Some(like_pattern_of(s)),
            None => None,
        },
    )
}

/// Columns of a document row, in `DocumentRow` order.
pub open spec fn select_documents() -> Seq<char> {
    "SELECT d.id, d.kind, d.title, d.type, d.source, d.content_text, d.party, d.owner, d.date_field, d.note, d.fields, d.status, d.sync_status, d.created_at, d.updated_at FROM document d"@
}

/// The listing statement of a filter: every condition joined by AND, ordered
/// by id.
pub open spec fn filter_sql(f: DocumentFilter) -> Seq<char> {
    let conds = filter_conds(f);
    select_documents() + (if conds.len() > 0 {
        " WHERE "@ + join_with(conds, " AND "@)
    } else {
        seq![]
    }) + " ORDER BY d.id"@
}

/// Appends a trimmed, non-blank text constraint; tells whether there was one.
fn given_exec(o: &Option<String>) -> (r: Option<String>)
    ensures
        opt_chars(r) == given(*o),
{
    match o {
        Some(s) => {
            let cs = chars_of(s.as_str());
            let t = trim_chars(cs.as_slice());
            if t.len() > 0 {
                Some(string_of(t.as_slice()))
            } else {
                None
            }
        },
        None => None,
    }
}

fn entity_ids_of(f: &DocumentFilter) -> (ent: Vec<i64>)
    ensures
        ent@ == filter_entities(*f),
{
    let mut ent: Vec<i64> = Vec::new();
    match f.entity_id {
        Some(e) => ent.push(e),
        None => {},
    }
    let mut i: usize = 0;
    while i < f.entity_ids.len()
        invariant
            0 <= i <= f.entity_ids@.len(),
            ent@ == (match f.entity_id {
                Some(e) => seq![e],
                None => seq![],
            }) + f.entity_ids@.take(i as int),
        decreases f.entity_ids@.len() - i,
    {
        ent.push(f.entity_ids[i]);
        proof {
            assert(f.entity_ids@.take(i + 1) =~= f.entity_ids@.take(i as int).push(f.entity_ids@[i as int]));
        }
        i = i + 1;
    }
    proof {
        assert(f.entity_ids@.take(f.entity_ids@.len() as int) =~= f.entity_ids@);
    }
    ent
}

/// The entity condition and its arguments.
fn entity_part(f: &DocumentFilter) -> (r: (Vec<Vec<char>>, Vec<SqlArg>))
    ensures
        views(r.0@) == one_if(filter_entities(*f).len() > 0, entity_cond(filter_entities(*f).len())),
        arg_views(r.1@) == int_args(filter_entities(*f)),
{
    let ent = entity_ids_of(f);
    let mut conds: Vec<Vec<char>> = Vec::new();
    if ent.len() > 0 {
        let mut c = chars_of("d.id IN (SELECT document_id FROM document_entity WHERE entity_id IN (");
        push_placeholders(&mut c, ent.len());
        push_text(&mut c, "))");
        conds.push(c);
    }
    proof {
        assert(views(conds@) =~= one_if(ent@.len() > 0, entity_cond(ent@.len())));
    }
    let args = crate::sql::int_arg_vec(&ent);
    (conds, args)
}

/// Appends a condition and its text argument when the argument is present.
fn push_text_cond(conds: &mut Vec<Vec<char>>, args: &mut Vec<SqlArg>, cond: &str, arg: Option<String>)
    ensures
        views(final(conds)@) == views(old(conds)@) + one_if(arg is Some, cond@),
        arg_views(final(args)@) == arg_views(old(args)@) + text_arg_of(opt_chars(arg)),
{
    match arg {
        Some(a) => {
            let ghost c0 = conds@;
            let ghost a0 = args@;
            conds.push(chars_of(cond));
            args.push(SqlArg::Text(a));
            proof {
                assert(views(conds@) =~= views(c0) + seq![cond@]);
                assert(arg_views(args@) =~= arg_views(a0) + text_arg_of(opt_chars(arg)));
            }
        },
        None => {
            proof {
                assert(views(conds@) =~= views(conds@) + seq![]);
                assert(arg_views(args@) =~= arg_views(args@) + seq![]);
            }
        },
    }
}

fn like_arg(o: Option<String>) -> (r: Option<String>)
    ensures
        opt_chars(r) == (match opt_chars(o) {
            Some(s) => Some(like_pattern_of(s)),
            None => None,
        }),
{
    match o {
        Some(s) => Some(like_pattern(s.as_str())),
        None => None,
    }
}

fn tag_part(conds: &mut Vec<Vec<char>>, args: &mut Vec<SqlArg>, tag_id: Option<i64>)
    ensures
        views(final(conds)@) == views(old(conds)@) + one_if(
            tag_id is Some,
            "d.id IN (SELECT document_id FROM document_tag WHERE tag_id = ?)"@,
        ),
        arg_views(final(args)@) == arg_views(old(args)@) + (match tag_id {
            Some(t) => seq![ArgView::Int(t)],
            None => seq![],
        }),
{
    let ghost c0 = conds@;
    let ghost a0 = args@;
    match tag_id {
        Some(t) => {
            conds.push(chars_of("d.id IN (SELECT document_id FROM document_tag WHERE tag_id = ?)"));
            args.push(SqlArg::Int(t));
        },
        None => {},
    }
    proof {
        assert(views(conds@) =~= views(c0) + one_if(
            tag_id is Some,
            "d.id IN (SELECT document_id FROM document_tag WHERE tag_id = ?)"@,
        ));
        assert(arg_views(args@) =~= arg_views(a0) + (match tag_id {
            Some(t) => seq![ArgView::Int(t)],
            None => seq![],
        }));
    }
}

/// What a filter constrains, without the values: how many entities, and which
/// of the other constraints are present.
pub open spec fn filter_shape(f: DocumentFilter) -> (nat, bool, bool, bool, bool, bool, bool) {
    (
        filter_entities(f).len(),
        f.doc_type is Some,
        f.tag_id is Some,
        given(f.owner) is Some,
        given(f.date_from) is Some,
        given(f.date_to) is Some,
        given(f.source) is Some,
    )
}

/// Filter values never enter the statement text: two filters that constrain
/// the same things list documents with the same statement, and only their
/// arguments differ.
pub proof fn lemma_filter_statement_parameterized(f: DocumentFilter, g: DocumentFilter)
    requires
        filter_shape(f) == filter_shape(g),
    ensures
        filter_sql(f) == filter_sql(g),
{
    assert(filter_conds(f) == filter_conds(g));
}

/// The statement and arguments that list the documents a filter admits.
pub fn document_query(f: &DocumentFilter) -> (r: (String, Vec<SqlArg>))
    ensures
        r.0@ == filter_sql(*f),
        arg_views(r.1@) == filter_args(*f),
{
    let (mut conds, mut args) = entity_part(f);
    let doc_type = match &f.doc_type {
        Some(t) => Some(t.clone()),
        None => None,
    };
    push_text_cond(&mut conds, &mut args, "d.type = ?", doc_type);
    tag_part(&mut conds, &mut args, f.tag_id);
    push_text_cond(&mut conds, &mut args, "d.owner = ?", given_exec(&f.owner));
    push_text_cond(&mut conds, &mut args, "date(d.date_field) >= date(?)", given_exec(&f.date_from));
    push_text_cond(&mut conds, &mut args, "date(d.date_field) <= date(?)", given_exec(&f.date_to));
    push_text_cond(&mut conds, &mut args, "d.source LIKE ? ESCAPE '\\'", like_arg(given_exec(&f.source)));
    proof {
        assert(views(conds@) =~= filter_conds(*f));
        assert(arg_views(args@) =~= filter_args(*f));
    }
    let mut sql = chars_of(
        "SELECT d.id, d.kind, d.title, d.type, d.source, d.content_text, d.party, d.owner, d.date_field, d.note, d.fields, d.status, d.sync_status, d.created_at, d.updated_at FROM document d",
    );
    if conds.len() > 0 {
        push_text(&mut sql, " WHERE ");
        let and = chars_of(" AND ");
        let joined = join_chars(&conds, and.as_slice());
        proof {
            assert(conds@.map_values(|v: Vec<char>| v@) =~= views(conds@));
        }
        extend_chars(&mut sql, joined.as_slice());
    }
    push_text(&mut sql, " ORDER BY d.id");
    proof {
        assert(sql@ =~= filter_sql(*f));
    }
    (string_of(sql.as_slice()), args)
}

/// Why an entity that still owns documents cannot be deleted.
pub open spec fn delete_refusal(count: i64) -> Seq<char> {
    "该主体下仍有 "@ + decimal(count as nat) + " 份资料，请先将其移出该主体（或删除资料）后再删除主体"@
}

/// The deletion guard of an entity owning `count` documents: refused with a
/// message while it owns any.
pub fn entity_delete_check(count: i64) -> (r: Result<(), String>)
    ensures
        count > 0 ==> (r matches Err(m) && m@ == delete_refusal(count)),
        count <= 0 ==> r is Ok,
{
    if count > 0 {
        let mut v = chars_of("该主体下仍有 ");
        push_decimal(count as u64, &mut v);
        push_text(&mut v, " 份资料，请先将其移出该主体（或删除资料）后再删除主体");
        Err(string_of(v.as_slice()))
    } else {
        Ok(())
    }
}

/// The links of a document: its outgoing links (to, kind), then its incoming
/// ones (from, kind).
pub open spec fn link_view(l: DocLink) -> (i64, Seq<char>, Seq<char>) {
    (l.id, l.kind@, l.direction@)
}

pub open spec fn links_spec(outgoing: Seq<(i64, String)>, incoming: Seq<(i64, String)>) -> Seq<(i64, Seq<char>, Seq<char>)> {
    outgoing.map_values(|p: (i64, String)| (p.0, p.1@, "out"@)) + incoming.map_values(
        |p: (i64, String)| (p.0, p.1@, "in"@),
    )
}

fn push_links(out: &mut Vec<DocLink>, src: &Vec<(i64, String)>, dir: &str)
    ensures
        final(out)@.map_values(|l: DocLink| link_view(l)) == old(out)@.map_values(|l: DocLink| link_view(l))
            + src@.map_values(|p: (i64, String)| (p.0, p.1@, dir@)),
{
    let ghost start = out@.map_values(|l: DocLink| link_view(l));
    let ghost s = src@;
    let mut i: usize = 0;
    let n = src.len();
    proof {
        assert(start + s.take(0).map_values(|p: (i64, String)| (p.0, p.1@, dir@)) =~= start);
    }
    while i < n
        invariant
            0 <= i <= n,
            n == s.len(),
            s == src@,
            out@.map_values(|l: DocLink| link_view(l)) == start + s.take(i as int).map_values(
                |p: (i64, String)| (p.0, p.1@, dir@),
            ),
        decreases n - i,
    {
        let ghost before = out@;
        let id = src[i].0;
        let kind = src[i].1.clone();
        out.push(DocLink { id, kind, direction: dir.to_string() });
        proof {
            assert(s.take(i + 1) =~= s.take(i as int).push(s[i as int]));
            assert(out@.map_values(|l: DocLink| link_view(l)) =~= before.map_values(|l: DocLink| link_view(l)).push(
                (s[i as int].0, s[i as int].1@, dir@),
            ));
            assert(out@.map_values(|l: DocLink| link_view(l)) =~= start + s.take(i + 1).map_values(
                |p: (i64, String)| (p.0, p.1@, dir@),
            ));
        }
        i = i + 1;
    }
    proof {
        assert(s.take(n as int) =~= s);
    }
}

/// The links of a document, outgoing first.
pub fn assemble_links(outgoing: Vec<(i64, String)>, incoming: Vec<(i64, String)>) -> (r: Vec<DocLink>)
    ensures
        r@.map_values(|l: DocLink| link_view(l)) == links_spec(outgoing@, incoming@),
{
    let mut out: Vec<DocLink> = Vec::new();
    let ghost o = outgoing@;
    let ghost inc = incoming@;
    proof {
        assert(out@.map_values(|l: DocLink| link_view(l)) =~= seq![]);
    }
    push_links(&mut out, &outgoing, "out");
    push_links(&mut out, &incoming, "in");
    proof {
        assert(seq![] + o.map_values(|p: (i64, String)| (p.0, p.1@, "out"@)) =~= o.map_values(
            |p: (i64, String)| (p.0, p.1@, "out"@),
        ));
    }
    out
}

/// The entities of a document among (document, entity) rows, in row order.
pub open spec fn entities_of(pairs: Seq<(i64, i64)>, doc: i64) -> Seq<i64>
    decreases pairs.len(),
{
    if pairs.len() == 0 {
        seq![]
    } else {
        let p = entities_of(pairs.drop_last(), doc);
        if pairs.last().0 == doc {
            p.push(pairs.last().1)
        } else {
            p
        }
    }
}

fn entities_for(pairs: &Vec<(i64, i64)>, doc: i64) -> (r: Vec<i64>)
    ensures
        r@ == entities_of(pairs@, doc),
{
    let mut r: Vec<i64> = Vec::new();
    let mut i: usize = 0;
    while i < pairs.len()
        invariant
            0 <= i <= pairs@.len(),
            r@ == entities_of(pairs@.take(i as int), doc),
        decreases pairs@.len() - i,
    {
        proof {
            assert(pairs@.take(i + 1).drop_last() =~= pairs@.take(i as int));
        }
        if pairs[i].0 == doc {
            r.push(pairs[i].1);
        }
        i = i + 1;
    }
    proof {
        assert(pairs@.take(pairs@.len() as int) =~= pairs@);
    }
    r
}

/// The owning entities of each listed document, from the (document, entity)
/// rows of one lookup: a document's entities in row order; a document listed
/// again gets none the second time (its entities were handed out already).
pub fn entity_lists(doc_ids: &Vec<i64>, pairs: &Vec<(i64, i64)>) -> (r: Vec<Vec<i64>>)
    ensures
        r@.len() == doc_ids@.len(),
        forall|i: int|
            0 <= i < r@.len() ==> (#[trigger] r@[i])@ == (if doc_ids@.take(i).contains(doc_ids@[i]) {
                seq![]
            } else {
                entities_of(pairs@, doc_ids@[i])
            }),
{
    let mut r: Vec<Vec<i64>> = Vec::new();
    let mut i: usize = 0;
    while i < doc_ids.len()
        invariant
            0 <= i <= doc_ids@.len(),
            r@.len() == i,
            forall|k: int|
                0 <= k < i ==> (#[trigger] r@[k])@ == (if doc_ids@.take(k).contains(doc_ids@[k]) {
                    seq![]
                } else {
                    entities_of(pairs@, doc_ids@[k])
                }),
        decreases doc_ids@.len() - i,
    {
        let d = doc_ids[i];
        let mut seen = false;
        let mut j: usize = 0;
        while j < i
            invariant
                0 <= j <= i < doc_ids@.len(),
                d == doc_ids@[i as int],
                seen == doc_ids@.take(j as int).contains(d),
            decreases i - j,
        {
            let ghost t0 = doc_ids@.take(j as int);
            let ghost t1 = doc_ids@.take(j + 1);
            proof {
                assert(t1 =~= t0.push(doc_ids@[j as int]));
                if t0.contains(d) {
                    let k = choose|k: int| 0 <= k < t0.len() && t0[k] == d;
                    assert(t1[k] == d);
                }
                if t1.contains(d) && doc_ids@[j as int] != d {
                    let k = choose|k: int| 0 <= k < t1.len() && t1[k] == d;
                    assert(t0[k] == d);
                }
                if doc_ids@[j as int] == d {
                    assert(t1[j as int] == d);
                }
            }
            if doc_ids[j] == d {
                seen = true;
            }
            j = j + 1;
        }
        if seen {
            r.push(Vec::new());
        } else {
            r.push(entities_for(pairs, d));
        }
        proof {
            assert(r@[i as int]@ == (if doc_ids@.take(i as int).contains(doc_ids@[i as int]) {
                seq![]
            } else {
                entities_of(pairs@, doc_ids@[i as int])
            }));
        }
        i = i + 1;
    }
    r
}

} // verus!
