//! The vector index's side: the collection's schema, the records that an
//! insertion writes, the two searches of a query and the merge of their
//! hits. The database calls themselves are made by the caller.
use vstd::prelude::*;

use crate::embed::{code_space, code_space_name, text_space, text_space_name, Embedding};
use crate::entity::TCode;

verus! {

/// Name of the collection that holds the records.
pub const COLLECTION_NAME: &'static str = "DUCKYDUCK";

/// Number of hits that each of a query's two searches asks for.
pub const DEFAULT_TOP_K: u64 = 4;

/// Distance measure of a vector space.
#[derive(Debug, Clone, Copy, PartialEq, Eq, Structural)]
pub enum Distance {
    Cosine,
    Euclid,
    Dot,
}

/// One named vector space of the collection.
#[derive(Debug)]
pub struct SpaceParams {
    pub name: String,
    pub size: u64,
    pub distance: Distance,
}

/// One nearest-neighbour search against a named space.
#[derive(Debug)]
pub struct SubSearch {
    pub space: String,
    pub limit: u64,
    pub with_payload: bool,
}

/// One record of the index: an identifier, a vector per space keyed by the
/// space's name, and the entity as payload.
pub struct VectorRecord<T> {
    pub id: String,
    pub vectors: Vec<(String, Vec<T>)>,
    pub payload: TCode,
}

/// Why an index operation failed.
#[derive(Debug)]
pub enum IndexError {
    /// The database could not be reached, or refused the collection.
    Collection { message: String },
    /// Writing record `index` of a batch failed; later records were not written.
    Upsert { index: usize, message: String },
    /// A search failed.
    Search { message: String },
    /// The searches gave other than one hit list per space, or a list
    /// longer than asked for.
    ResultShape,
}

/// The collection's two spaces: code vectors of dimension 768 and text
/// vectors of dimension 384, both compared by cosine distance.
pub fn collection_params() -> (r: Vec<SpaceParams>)
    ensures
        r@.len() == 2,
        r@[0].name@ == code_space() && r@[0].size == 768 && r@[0].distance == Distance::Cosine,
        r@[1].name@ == text_space() && r@[1].size == 384 && r@[1].distance == Distance::Cosine,
{
    let mut r: Vec<SpaceParams> = Vec::new();
    r.push(SpaceParams { name: code_space_name(), size: 768, distance: Distance::Cosine });
    r.push(SpaceParams { name: text_space_name(), size: 384, distance: Distance::Cosine });
    r
}

/// One of the collection's two spaces, as `collection_params` gives them.
pub open spec fn expected_space(p: SpaceParams) -> bool {
    ||| p.name@ == code_space() && p.size == 768 && p.distance == Distance::Cosine
    ||| p.name@ == text_space() && p.size == 384 && p.distance == Distance::Cosine
}

fn is_expected_space(p: &SpaceParams) -> (r: bool)
    ensures
        r == expected_space(*p),
{
    let code = code_space_name();
    let text = text_space_name();
    (p.name.eq(&code) && p.size == 768 && p.distance == Distance::Cosine) || (p.name.eq(&text)
        && p.size == 384 && p.distance == Distance::Cosine)
}

/// Whether an existing collection's spaces are those of `collection_params`,
/// in any order.
pub fn schema_matches(spaces: &Vec<SpaceParams>) -> (r: bool)
    ensures
        r == (spaces@.len() == 2 && expected_space(spaces@[0]) && expected_space(spaces@[1])
            && spaces@[0].name@ != spaces@[1].name@),
{
    spaces.len() == 2 && is_expected_space(&spaces[0]) && is_expected_space(&spaces[1])
        && !spaces[0].name.eq(&spaces[1].name)
}

/// The searches of one query: the code space, then the text space, each
/// asking for at most `top_k` hits with their payloads.
pub fn search_plan(top_k: u64) -> (r: Vec<SubSearch>)
    ensures
        r@.len() == 2,
        r@[0].space@ == code_space() && r@[0].limit == top_k && r@[0].with_payload,
        r@[1].space@ == text_space() && r@[1].limit == top_k && r@[1].with_payload,
{
    let mut r: Vec<SubSearch> = Vec::new();
    r.push(SubSearch { space: code_space_name(), limit: top_k, with_payload: true });
    r.push(SubSearch { space: text_space_name(), limit: top_k, with_payload: true });
    r
}

/// The answer to a query: the code space's hits, then the text space's,
/// each in the order the database ranked them. Nothing is merged or
/// dropped, so an entity found in both spaces comes twice.
pub open spec fn flattened(code_hits: Seq<TCode>, text_hits: Seq<TCode>) -> Seq<TCode> {
    code_hits + text_hits
}

/// Merges the hit lists of the searches of `search_plan(top_k)`, given in
/// the plan's order. Fails unless there are exactly two lists, each of at
/// most `top_k` hits.
pub fn flatten_results(results: Vec<Vec<TCode>>, top_k: u64) -> (r: Result<Vec<TCode>, IndexError>)
    ensures
        r is Ok <==> results@.len() == 2 && results@[0]@.len() <= top_k && results@[1]@.len()
            <= top_k,
        r matches Ok(v) ==> v@ == flattened(results@[0]@, results@[1]@),
        r is Err ==> r == Err::<Vec<TCode>, IndexError>(IndexError::ResultShape),
{
    if results.len() != 2 {
        return Err(IndexError::ResultShape);
    }
    if results[0].len() as u64 > top_k || results[1].len() as u64 > top_k {
        return Err(IndexError::ResultShape);
    }
    let mut results = results;
    let mut text_hits = results.pop().unwrap();
    let mut code_hits = results.pop().unwrap();
    code_hits.append(&mut text_hits);
    Ok(code_hits)
}

/// A query's answer has at most two lists' worth of hits: the code space's
/// hits come first, exactly as ranked, and the text space's after them.
pub proof fn lemma_search_fan_out(code_hits: Seq<TCode>, text_hits: Seq<TCode>, top_k: nat)
    requires
        code_hits.len() <= top_k,
        text_hits.len() <= top_k,
    ensures
        flattened(code_hits, text_hits).len() <= 2 * top_k,
        flattened(code_hits, text_hits).subrange(0, code_hits.len() as int) == code_hits,
        flattened(code_hits, text_hits).subrange(
            code_hits.len() as int,
            flattened(code_hits, text_hits).len() as int,
        ) == text_hits,
{
    let f = flattened(code_hits, text_hits);
    assert(f.subrange(0, code_hits.len() as int) =~= code_hits);
    assert(f.subrange(code_hits.len() as int, f.len() as int) =~= text_hits);
}

/// Relies on `uuid::Uuid::new_v4` and its `Display`: a fresh random
/// identifier, in the hyphenated form of 36 characters.
#[verifier::external_body]
fn new_point_id() -> (r: String)
    ensures
        r@.len() == 36,
{
    uuid::Uuid::new_v4().to_string()
}

/// The record that stores an embedding: a fresh identifier, the two vectors
/// keyed by space name, and the entity as payload.
pub fn make_record<T>(embedding: Embedding<T>) -> (r: VectorRecord<T>)
    ensures
        r.id@.len() == 36,
        r.vectors@.len() == 2,
        r.vectors@[0].0@ == code_space(),
        r.vectors@[0].1 == embedding.code_vector,
        r.vectors@[1].0@ == text_space(),
        r.vectors@[1].1 == embedding.text_vector,
        r.payload == embedding.code,
{
    let (vectors, payload) = embedding.into_vectormap();
    VectorRecord { id: new_point_id(), vectors, payload }
}

/// `r` is a record that stores embedding `e`.
pub open spec fn stores<T>(r: VectorRecord<T>, e: Embedding<T>) -> bool {
    &&& r.id@.len() == 36
    &&& r.vectors@.len() == 2
    &&& r.vectors@[0].0@ == code_space()
    &&& r.vectors@[0].1 == e.code_vector
    &&& r.vectors@[1].0@ == text_space()
    &&& r.vectors@[1].1 == e.text_vector
    &&& r.payload == e.code
}

/// The records of an insertion, one per embedding, in input order; the
/// caller writes them in this order and stops at the first failure.
pub fn insert_docs<T>(docs: Vec<Embedding<T>>) -> (r: Vec<VectorRecord<T>>)
    ensures
        r@.len() == docs@.len(),
        forall|i: int| 0 <= i < r@.len() ==> stores(#[trigger] r@[i], docs@[i]),
{
    let ghost docs0 = docs@;
    let mut rest = docs;
    let mut records: Vec<VectorRecord<T>> = Vec::new();
    while rest.len() > 0
        invariant
            records@.len() + rest@.len() == docs0.len(),
            rest@ == docs0.subrange(records@.len() as int, docs0.len() as int),
            forall|i: int| 0 <= i < records@.len() ==> stores(#[trigger] records@[i], docs0[i]),
        decreases rest@.len(),
    {
        let ghost k = records@.len() as int;
        let e = rest.remove(0);
        assert(e == docs0[k]);
        let record = make_record(e);
        records.push(record);
        assert(rest@ =~= docs0.subrange(records@.len() as int, docs0.len() as int));
    }
    records
}

} // verus!
