//! Queries as a closed set of variants, and the builders that make the
//! queries the note index runs.

use crate::tokenizer::{texts, tokenize, tokens_of};
use vstd::prelude::*;

verus! {

/// The fields of an indexed note.
#[derive(Debug, Clone, Copy, PartialEq, Eq, Structural)]
pub enum Field {
    Id,
    UserId,
    Title,
    Body,
}

/// Whether a clause of a boolean query must match or only adds to the score.
#[derive(Debug, Clone, Copy, PartialEq, Eq, Structural)]
pub enum Occur {
    Must,
    Should,
}

/// A query over the note fields.
pub enum Query {
    /// Documents whose text field holds the token `text`.
    Term { field: Field, text: String },
    /// Documents whose integer field lies in `lo..=hi`.
    Range { field: Field, lo: u64, hi: u64 },
    /// Documents that match every `Must` clause and, where there is no
    /// `Must` clause, at least one `Should` clause.
    Boolean { clauses: Vec<(Occur, Query)> },
}

pub open spec fn is_term(q: Query, f: Field, t: Seq<char>) -> bool {
    q matches Query::Term { field, text } && field == f && text@ == t
}

/// `q` matches exactly the documents whose field `f` equals `v`.
pub open spec fn is_exact(q: Query, f: Field, v: u64) -> bool {
    q matches Query::Range { field, lo, hi } && field == f && lo == v && hi == v
}

/// `q` is a disjunction of one term query on `f` per token, in order.
pub open spec fn is_multiterm(q: Query, f: Field, tokens: Seq<Seq<char>>) -> bool {
    q matches Query::Boolean { clauses } && clauses@.len() == tokens.len() && forall|i: int|
        0 <= i < tokens.len() ==> (#[trigger] clauses@[i]).0 == Occur::Should && is_term(
            clauses@[i].1,
            f,
            tokens[i],
        )
}

/// `q` is a disjunction, over `fields` in order, of the tokens of `text`
/// searched in that field.
pub open spec fn is_text_query(q: Query, fields: Seq<Field>, text: Seq<char>) -> bool {
    q matches Query::Boolean { clauses } && clauses@.len() == fields.len() && forall|i: int|
        0 <= i < fields.len() ==> (#[trigger] clauses@[i]).0 == Occur::Should && is_multiterm(
            clauses@[i].1,
            fields[i],
            tokens_of(text),
        )
}

/// The searchable text fields, in the order queries name them.
pub open spec fn text_fields() -> Seq<Field> {
    seq![Field::Title, Field::Body]
}

/// The query that matches the documents whose `field` equals `value`.
pub fn exact(field: Field, value: u64) -> (r: Query)
    ensures
        is_exact(r, field, value),
{
    Query::Range { field, lo: value, hi: value }
}

/// One optional term query on `field` per token.
pub fn build_multiterm_query(field: Field, tokens: Vec<String>) -> (r: Query)
    ensures
        is_multiterm(r, field, tokens@.map_values(|t: String| t@)),
{
    let ghost views = tokens@.map_values(|t: String| t@);
    let mut clauses: Vec<(Occur, Query)> = Vec::new();
    let mut rest = tokens;
    let ghost mut k: int = 0;
    while rest.len() > 0
        invariant
            0 <= k <= views.len(),
            rest@.len() == views.len() - k,
            forall|j: int| 0 <= j < rest@.len() ==> rest@[j]@ == views[k + j],
            clauses@.len() == k,
            forall|j: int|
                0 <= j < k ==> (#[trigger] clauses@[j]).0 == Occur::Should && is_term(
                    clauses@[j].1,
                    field,
                    views[j],
                ),
        decreases rest.len(),
    {
        let ghost before = rest@;
        let t = rest.remove(0);
        assert(t@ == views[k]) by {
            assert(before[0]@ == views[k + 0]);
        }
        assert forall|j: int| 0 <= j < rest@.len() implies rest@[j]@ == views[k + 1 + j] by {
            assert(rest@[j] == before[j + 1]);
        }
        clauses.push((Occur::Should, Query::Term { field, text: t }));
        proof {
            k = k + 1;
        }
    }
    Query::Boolean { clauses }
}

/// For each field, a disjunction of the tokens of `text` searched in it;
/// a match in any field counts.
pub fn build_search_query(fields: Vec<Field>, text: &str) -> (r: Query)
    ensures
        is_text_query(r, fields@, text@),
{
    let mut clauses: Vec<(Occur, Query)> = Vec::new();
    let mut i: usize = 0;
    while i < fields.len()
        invariant
            i <= fields@.len(),
            clauses@.len() == i,
            forall|j: int|
                0 <= j < i ==> (#[trigger] clauses@[j]).0 == Occur::Should && is_multiterm(
                    clauses@[j].1,
                    fields@[j],
                    tokens_of(text@),
                ),
        decreases fields.len() - i,
    {
        let tokens = tokenize(text);
        let q = build_multiterm_query(fields[i], tokens);
        clauses.push((Occur::Should, q));
        i = i + 1;
    }
    Query::Boolean { clauses }
}

/// The query that finds note `id` of `user_id`: both must match exactly.
pub fn note_lookup_query(user_id: u64, id: u64) -> (r: Query)
    ensures
        r matches Query::Boolean { clauses } && clauses@.len() == 2 && clauses@[0].0
            == Occur::Must && is_exact(clauses@[0].1, Field::Id, id) && clauses@[1].0
            == Occur::Must && is_exact(clauses@[1].1, Field::UserId, user_id),
{
    let mut clauses: Vec<(Occur, Query)> = Vec::new();
    clauses.push((Occur::Must, exact(Field::Id, id)));
    clauses.push((Occur::Must, exact(Field::UserId, user_id)));
    Query::Boolean { clauses }
}

fn text_field_list() -> (r: Vec<Field>)
    ensures
        r@ == text_fields(),
{
    let mut v: Vec<Field> = Vec::new();
    v.push(Field::Title);
    v.push(Field::Body);
    assert(v@ =~= text_fields());
    v
}

/// The keyword search for `user_id`: the owner must match, and the tokens of
/// `query_text` in the title or the body score. Where the text has no tokens
/// nothing can score, and there is no query.
pub fn note_search_query(user_id: u64, query_text: &str) -> (r: Option<Query>)
    ensures
        tokens_of(query_text@).len() == 0 <==> r is None,
        query_text@.len() == 0 ==> r is None,
        r matches Some(q) ==> q matches Query::Boolean { clauses } && clauses@.len() == 2
            && clauses@[0].0 == Occur::Must && is_exact(clauses@[0].1, Field::UserId, user_id)
            && clauses@[1].0 == Occur::Should && is_text_query(
            clauses@[1].1,
            text_fields(),
            query_text@,
        ),
{
    let tokens = tokenize(query_text);
    assert(texts(tokens@).len() == tokens@.len());
    if tokens.len() == 0 {
        return None;
    }
    let mut clauses: Vec<(Occur, Query)> = Vec::new();
    clauses.push((Occur::Must, exact(Field::UserId, user_id)));
    clauses.push((Occur::Should, build_search_query(text_field_list(), query_text)));
    Some(Query::Boolean { clauses })
}

/// The query for notes like one with `title` and `body`, among those of
/// `user_id`: the reference title and body are each searched in both text
/// fields. Where neither has a token nothing can score, and there is no query.
pub fn similar_notes_query(user_id: u64, title: &str, body: &str) -> (r: Option<Query>)
    ensures
        tokens_of(title@).len() == 0 && tokens_of(body@).len() == 0 <==> r is None,
        r matches Some(q) ==> q matches Query::Boolean { clauses } && clauses@.len() == 3
            && clauses@[0].0 == Occur::Must && is_exact(clauses@[0].1, Field::UserId, user_id)
            && clauses@[1].0 == Occur::Should && is_text_query(
            clauses@[1].1,
            text_fields(),
            title@,
        ) && clauses@[2].0 == Occur::Should && is_text_query(
            clauses@[2].1,
            text_fields(),
            body@,
        ),
{
    let title_tokens = tokenize(title);
    let body_tokens = tokenize(body);
    assert(texts(title_tokens@).len() == title_tokens@.len());
    assert(texts(body_tokens@).len() == body_tokens@.len());
    if title_tokens.len() == 0 && body_tokens.len() == 0 {
        return None;
    }
    let mut clauses: Vec<(Occur, Query)> = Vec::new();
    clauses.push((Occur::Must, exact(Field::UserId, user_id)));
    clauses.push((Occur::Should, build_search_query(text_field_list(), title)));
    clauses.push((Occur::Should, build_search_query(text_field_list(), body)));
    Some(Query::Boolean { clauses })
}

} // verus!
