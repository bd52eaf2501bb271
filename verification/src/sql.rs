//! Construction of the parameterised SQL behind document listing and search
//! filtering. Every user value travels as a bound argument; the statement
//! text holds only fixed identifiers and `?` placeholders.

use vstd::prelude::*;

use crate::text::{chars_of, extend_chars, join_chars, join_with, push_text, string_of, trim, trim_string, views};

verus! {

/// A bound SQL argument.
#[derive(Debug, Clone)]
pub enum SqlArg {
    Int(i64),
    Text(String),
}

/// What a bound argument holds.
pub enum ArgView {
    Int(i64),
    Text(Seq<char>),
}

pub open spec fn arg_view(a: SqlArg) -> ArgView {
    match a {
        SqlArg::Int(i) => ArgView::Int(i),
        SqlArg::Text(s) => ArgView::Text(s@),
    }
}

pub open spec fn arg_views(v: Seq<SqlArg>) -> Seq<ArgView> {
    v.map_values(|a: SqlArg| arg_view(a))
}

pub open spec fn int_args(v: Seq<i64>) -> Seq<ArgView> {
    v.map_values(|i: i64| ArgView::Int(i))
}

pub open spec fn text_args(v: Seq<String>) -> Seq<ArgView> {
    v.map_values(|s: String| ArgView::Text(s@))
}

/// `n` comma-separated placeholders.
pub open spec fn placeholders(n: nat) -> Seq<char>
    decreases n,
{
    if n == 0 {
        seq![]
    } else if n == 1 {
        "?"@
    } else {
        placeholders((n - 1) as nat) + ",?"@
    }
}

/// Appends `n` comma-separated placeholders.
pub fn push_placeholders(out: &mut Vec<char>, n: usize)
    ensures
        final(out)@ == old(out)@ + placeholders(n as nat),
{
    let ghost start = out@;
    let mut i: usize = 0;
    proof {
        assert(start + placeholders(0) =~= start);
    }
    while i < n
        invariant
            0 <= i <= n,
            out@ == start + placeholders(i as nat),
        decreases n - i,
    {
        if i == 0 {
            push_text(out, "?");
        } else {
            push_text(out, ",?");
        }
        proof {
            assert(out@ =~= start + placeholders((i + 1) as nat));
        }
        i = i + 1;
    }
}

/// `head`, `n` placeholders, and a closing parenthesis.
pub open spec fn in_list(head: Seq<char>, n: nat) -> Seq<char> {
    head + placeholders(n) + ")"@
}

fn in_list_sql(head: &str, n: usize) -> (r: String)
    ensures
        r@ == in_list(head@, n as nat),
{
    let mut v = chars_of(head);
    push_placeholders(&mut v, n);
    push_text(&mut v, ")");
    string_of(v.as_slice())
}

pub fn int_arg_vec(ids: &Vec<i64>) -> (r: Vec<SqlArg>)
    ensures
        arg_views(r@) == int_args(ids@),
{
    let mut r: Vec<SqlArg> = Vec::new();
    let mut i: usize = 0;
    while i < ids.len()
        invariant
            0 <= i <= ids@.len(),
            r@.len() == i,
            arg_views(r@) == int_args(ids@.take(i as int)),
        decreases ids@.len() - i,
    {
        let ghost before = r@;
        r.push(SqlArg::Int(ids[i]));
        proof {
            assert(ids@.take(i + 1) =~= ids@.take(i as int).push(ids@[i as int]));
            assert(r@ =~= before.push(SqlArg::Int(ids@[i as int])));
            assert forall|k: int| 0 <= k < i + 1 implies arg_views(r@)[k] == int_args(ids@.take(i + 1))[k] by {
                assert(arg_views(r@)[k] == arg_view(r@[k]));
                assert(int_args(ids@.take(i + 1))[k] == ArgView::Int(ids@.take(i + 1)[k]));
                if k < i {
                    assert(arg_views(before)[k] == arg_view(before[k]));
                    assert(int_args(ids@.take(i as int))[k] == ArgView::Int(ids@.take(i as int)[k]));
                }
            }
            assert(arg_views(r@) =~= int_args(ids@.take(i + 1)));
        }
        i = i + 1;
    }
    proof {
        assert(ids@.take(ids@.len() as int) =~= ids@);
    }
    r
}

fn text_arg_vec(v: &Vec<String>) -> (r: Vec<SqlArg>)
    ensures
        arg_views(r@) == text_args(v@),
{
    let mut r: Vec<SqlArg> = Vec::new();
    let mut i: usize = 0;
    while i < v.len()
        invariant
            0 <= i <= v@.len(),
            r@.len() == i,
            arg_views(r@) == text_args(v@.take(i as int)),
        decreases v@.len() - i,
    {
        let ghost before = r@;
        let c = v[i].clone();
        r.push(SqlArg::Text(c));
        proof {
            assert(v@.take(i + 1) =~= v@.take(i as int).push(v@[i as int]));
            assert(c@ == v@[i as int]@);
            assert(r@ =~= before.push(SqlArg::Text(c)));
            assert forall|k: int| 0 <= k < i + 1 implies arg_views(r@)[k] == text_args(v@.take(i + 1))[k] by {
                assert(arg_views(r@)[k] == arg_view(r@[k]));
                assert(text_args(v@.take(i + 1))[k] == ArgView::Text(v@.take(i + 1)[k]@));
                if k < i {
                    assert(arg_views(before)[k] == arg_view(before[k]));
                    assert(text_args(v@.take(i as int))[k] == ArgView::Text(v@.take(i as int)[k]@));
                }
            }
            assert(arg_views(r@) =~= text_args(v@.take(i + 1)));
        }
        i = i + 1;
    }
    proof {
        assert(v@.take(v@.len() as int) =~= v@);
    }
    r
}

/// `r` holds exactly the statement `sql` with arguments `args`.
pub open spec fn query_is(r: Option<(String, Vec<SqlArg>)>, sql: Seq<char>, args: Seq<ArgView>) -> bool {
    match r {
        Some(q) => q.0@ == sql && arg_views(q.1@) == args,
        None => false,
    }
}

/// Chunks of documents owned by any of `n` entities.
pub open spec fn subset_chunks_sql(n: nat) -> Seq<char> {
    in_list(
        "SELECT c.id FROM chunk c JOIN document d ON d.id = c.document_id JOIN document_entity de ON de.document_id = d.id WHERE de.entity_id IN ("@,
        n,
    )
}

/// The statement and arguments that list the chunks of the documents owned by
/// the given entities; none without entities.
pub fn subset_chunks_query(entity_ids: &Option<Vec<i64>>) -> (r: Option<(String, Vec<SqlArg>)>)
    ensures
        match entity_ids {
            Some(ids) if ids@.len() > 0 => query_is(r, subset_chunks_sql(ids@.len() as nat), int_args(ids@)),
            _ => r is None,
        },
{
    match entity_ids {
        Some(ids) => {
            if ids.len() == 0 {
                None
            } else {
                let sql = in_list_sql(
                    "SELECT c.id FROM chunk c JOIN document d ON d.id = c.document_id JOIN document_entity de ON de.document_id = d.id WHERE de.entity_id IN (",
                    ids.len(),
                );
                Some((sql, int_arg_vec(ids)))
            }
        },
        None => None,
    }
}

/// The document of each of `n` chunks.
pub open spec fn chunk_docs_sql(n: nat) -> Seq<char> {
    in_list("SELECT id, document_id FROM chunk WHERE id IN ("@, n)
}

pub fn chunk_docs_query(chunk_ids: &Vec<i64>) -> (r: (String, Vec<SqlArg>))
    ensures
        r.0@ == chunk_docs_sql(chunk_ids@.len() as nat),
        arg_views(r.1@) == int_args(chunk_ids@),
{
    (in_list_sql("SELECT id, document_id FROM chunk WHERE id IN (", chunk_ids.len()), int_arg_vec(chunk_ids))
}

/// The owning entities of each of `n` documents.
pub open spec fn doc_entities_sql(n: nat) -> Seq<char> {
    in_list("SELECT document_id, entity_id FROM document_entity WHERE document_id IN ("@, n)
}

pub fn doc_entities_query(doc_ids: &Vec<i64>) -> (r: (String, Vec<SqlArg>))
    ensures
        r.0@ == doc_entities_sql(doc_ids@.len() as nat),
        arg_views(r.1@) == int_args(doc_ids@),
{
    (
        in_list_sql("SELECT document_id, entity_id FROM document_entity WHERE document_id IN (", doc_ids.len()),
        int_arg_vec(doc_ids),
    )
}

/// A non-empty optional list.
pub open spec fn nonempty<T>(o: Option<Vec<T>>) -> bool {
    match o {
        Some(v) => v@.len() > 0,
        None => false,
    }
}

pub open spec fn list_of<T>(o: Option<Vec<T>>) -> Seq<T> {
    match o {
        Some(v) => v@,
        None => seq![],
    }
}

pub open spec fn one_if<T>(b: bool, x: T) -> Seq<T> {
    if b {
        seq![x]
    } else {
        seq![]
    }
}

/// Conditions of the search allow-list query.
pub open spec fn allowed_conds(
    entity_ids: Option<Vec<i64>>,
    doc_types: Option<Vec<String>>,
    tag_ids: Option<Vec<i64>>,
) -> Seq<Seq<char>> {
    one_if(nonempty(tag_ids), in_list("dt.tag_id IN ("@, list_of(tag_ids).len())) + one_if(
        nonempty(entity_ids),
        in_list("de.entity_id IN ("@, list_of(entity_ids).len()),
    ) + one_if(nonempty(doc_types), in_list("d.type IN ("@, list_of(doc_types).len()))
}

/// The search allow-list statement: the documents carrying any of the tags,
/// owned by any of the entities and of any of the types, each constraint only
/// where its list is non-empty.
pub open spec fn allowed_sql(
    entity_ids: Option<Vec<i64>>,
    doc_types: Option<Vec<String>>,
    tag_ids: Option<Vec<i64>>,
) -> Seq<char> {
    "SELECT DISTINCT d.id FROM document d"@ + (if nonempty(tag_ids) {
        " JOIN document_tag dt ON dt.document_id = d.id"@
    } else {
        seq![]
    }) + (if nonempty(entity_ids) {
        " JOIN document_entity de ON de.document_id = d.id"@
    } else {
        seq![]
    }) + " WHERE "@ + join_with(allowed_conds(entity_ids, doc_types, tag_ids), " AND "@)
}

pub open spec fn allowed_args(
    entity_ids: Option<Vec<i64>>,
    doc_types: Option<Vec<String>>,
    tag_ids: Option<Vec<i64>>,
) -> Seq<ArgView> {
    (if nonempty(tag_ids) {
        int_args(list_of(tag_ids))
    } else {
        seq![]
    }) + (if nonempty(entity_ids) {
        int_args(list_of(entity_ids))
    } else {
        seq![]
    }) + (if nonempty(doc_types) {
        text_args(list_of(doc_types))
    } else {
        seq![]
    })
}

/// Search constraints never enter the allow-list statement text: constraints
/// with as many entities, types and tags give the same statement, and only
/// their arguments differ.
pub proof fn lemma_allowed_statement_parameterized(
    e1: Option<Vec<i64>>,
    d1: Option<Vec<String>>,
    t1: Option<Vec<i64>>,
    e2: Option<Vec<i64>>,
    d2: Option<Vec<String>>,
    t2: Option<Vec<i64>>,
)
    requires
        list_of(e1).len() == list_of(e2).len(),
        list_of(d1).len() == list_of(d2).len(),
        list_of(t1).len() == list_of(t2).len(),
    ensures
        allowed_sql(e1, d1, t1) == allowed_sql(e2, d2, t2),
{
    assert(nonempty(e1) == nonempty(e2));
    assert(nonempty(d1) == nonempty(d2));
    assert(nonempty(t1) == nonempty(t2));
    assert(allowed_conds(e1, d1, t1) == allowed_conds(e2, d2, t2));
}

/// The allow-list query of a search; none when no constraint is given (every
/// document is then allowed).
pub fn allowed_docs_query(
    entity_ids: &Option<Vec<i64>>,
    doc_types: &Option<Vec<String>>,
    tag_ids: &Option<Vec<i64>>,
) -> (r: Option<(String, Vec<SqlArg>)>)
    ensures
        r is None <==> !(nonempty(*entity_ids) || nonempty(*doc_types) || nonempty(*tag_ids)),
        r is Some ==> query_is(r, allowed_sql(*entity_ids, *doc_types, *tag_ids), allowed_args(*entity_ids, *doc_types, *tag_ids)),
{
    let has_entity = match entity_ids {
        Some(v) => v.len() > 0,
        None => false,
    };
    let has_type = match doc_types {
        Some(v) => v.len() > 0,
        None => false,
    };
    let has_tag = match tag_ids {
        Some(v) => v.len() > 0,
        None => false,
    };
    if !has_entity && !has_type && !has_tag {
        return None;
    }
    let mut sql = chars_of("SELECT DISTINCT d.id FROM document d");
    let mut conds: Vec<Vec<char>> = Vec::new();
    let mut args: Vec<SqlArg> = Vec::new();
    let ghost e = *entity_ids;
    let ghost t = *doc_types;
    let ghost g = *tag_ids;
    if has_tag {
        push_text(&mut sql, " JOIN document_tag dt ON dt.document_id = d.id");
        let tags = tag_ids.as_ref().unwrap();
        let mut c = chars_of("dt.tag_id IN (");
        push_placeholders(&mut c, tags.len());
        push_text(&mut c, ")");
        conds.push(c);
        args.append(&mut int_arg_vec(tags));
    }
    proof {
        assert(views(conds@) =~= one_if(nonempty(g), in_list("dt.tag_id IN ("@, list_of(g).len())));
        assert(arg_views(args@) =~= (if nonempty(g) {
            int_args(list_of(g))
        } else {
            seq![]
        }));
    }
    let ghost c1 = views(conds@);
    let ghost a1 = arg_views(args@);
    if has_entity {
        push_text(&mut sql, " JOIN document_entity de ON de.document_id = d.id");
        let ents = entity_ids.as_ref().unwrap();
        let mut c = chars_of("de.entity_id IN (");
        push_placeholders(&mut c, ents.len());
        push_text(&mut c, ")");
        conds.push(c);
        args.append(&mut int_arg_vec(ents));
    }
    proof {
        assert(views(conds@) =~= c1 + one_if(nonempty(e), in_list("de.entity_id IN ("@, list_of(e).len())));
        assert(arg_views(args@) =~= a1 + (if nonempty(e) {
            int_args(list_of(e))
        } else {
            seq![]
        }));
    }
    let ghost c2 = views(conds@);
    let ghost a2 = arg_views(args@);
    if has_type {
        let types = doc_types.as_ref().unwrap();
        let mut c = chars_of("d.type IN (");
        push_placeholders(&mut c, types.len());
        push_text(&mut c, ")");
        conds.push(c);
        args.append(&mut text_arg_vec(types));
    }
    proof {
        assert(views(conds@) =~= c2 + one_if(nonempty(t), in_list("d.type IN ("@, list_of(t).len())));
        assert(views(conds@) =~= allowed_conds(e, t, g));
        assert(arg_views(args@) =~= a2 + (if nonempty(t) {
            text_args(list_of(t))
        } else {
            seq![]
        }));
        assert(arg_views(args@) =~= allowed_args(e, t, g));
    }
    push_text(&mut sql, " WHERE ");
    let and = chars_of(" AND ");
    let joined = join_chars(&conds, and.as_slice());
    proof {
        assert(conds@.map_values(|v: Vec<char>| v@) =~= views(conds@));
    }
    extend_chars(&mut sql, joined.as_slice());
    proof {
        assert(sql@ =~= allowed_sql(e, t, g));
    }
    Some((string_of(sql.as_slice()), args))
}

} // verus!
