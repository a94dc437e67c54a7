use code_search::embed::{
    pair_embeddings, query_embedding, CombinedEmbedding, EmbeddingError, CODE_DIMENSION,
    TEXT_DIMENSION,
};
use code_search::entity::{CodeType, TCode};
use code_search::error::Error;
use code_search::index::{
    collection_params, flatten_results, insert_docs, make_record, schema_matches, search_plan,
    Distance, IndexError, SpaceParams, DEFAULT_TOP_K,
};

fn entity(name: &str, kind: CodeType) -> TCode {
    TCode {
        name: name.to_string(),
        signature: format!("fn {name}()"),
        code_type: kind,
        docstring: None,
        line: 1,
        line_from: 1,
        line_to: 1,
        context: None,
    }
}

fn vector(dim: usize, fill: f32) -> Vec<f32> {
    vec![fill; dim]
}

#[test]
fn pairs_by_position() {
    let docs = vec![entity("a", CodeType::Function), entity("b", CodeType::Struct)];
    let code = vec![vector(CODE_DIMENSION, 0.5), vector(CODE_DIMENSION, 1.5)];
    let text = vec![vector(TEXT_DIMENSION, 2.5), vector(TEXT_DIMENSION, 3.5)];
    let v = pair_embeddings(docs, code, text).unwrap();
    assert_eq!(v.len(), 2);
    assert_eq!(v[0].code.name, "a");
    assert_eq!(v[1].code.name, "b");
    assert_eq!(v[0].code_vector[0], 0.5);
    assert_eq!(v[1].code_vector[0], 1.5);
    assert_eq!(v[0].text_vector[0], 2.5);
    assert_eq!(v[1].text_vector[0], 3.5);
}

#[test]
fn one_entity_gets_both_dimensions() {
    let docs = vec![entity("only", CodeType::Enum)];
    let v = pair_embeddings(docs, vec![vector(768, 0.0)], vec![vector(384, 0.0)]).unwrap();
    assert_eq!(v.len(), 1);
    assert_eq!(v[0].code_vector.len(), 768);
    assert_eq!(v[0].text_vector.len(), 384);
}

#[test]
fn empty_batch_pairs_to_nothing() {
    let v = pair_embeddings::<f32>(Vec::new(), Vec::new(), Vec::new()).unwrap();
    assert!(v.is_empty());
}

#[test]
fn count_mismatch_is_an_error() {
    let docs = vec![entity("a", CodeType::Function), entity("b", CodeType::Function)];
    let r = pair_embeddings(docs, vec![vector(CODE_DIMENSION, 0.0)], vec![vector(TEXT_DIMENSION, 0.0)]);
    assert!(matches!(r, Err(EmbeddingError::Count { expected: 2, got: 1 })));
}

#[test]
fn wrong_dimension_is_an_error() {
    let docs = vec![entity("a", CodeType::Function), entity("b", CodeType::Function)];
    let code = vec![vector(CODE_DIMENSION, 0.0), vector(CODE_DIMENSION, 0.0)];
    let text = vec![vector(TEXT_DIMENSION, 0.0), vector(CODE_DIMENSION, 0.0)];
    let r = pair_embeddings(docs, code, text);
    assert!(matches!(r, Err(EmbeddingError::Dimension { index: 1 })));
}

#[test]
fn query_takes_the_single_vectors() {
    let q = query_embedding(vec![vector(CODE_DIMENSION, 1.0)], vec![vector(TEXT_DIMENSION, 2.0)]).unwrap();
    assert_eq!(q.0.len(), CODE_DIMENSION);
    assert_eq!(q.1[0], 2.0);
    let r = query_embedding::<f32>(Vec::new(), vec![vector(TEXT_DIMENSION, 2.0)]);
    assert!(matches!(r, Err(EmbeddingError::Count { expected: 1, got: 0 })));
    let r = query_embedding(vec![vector(3, 1.0)], vec![vector(TEXT_DIMENSION, 2.0)]);
    assert!(matches!(r, Err(EmbeddingError::Dimension { index: 0 })));
}

#[test]
fn query_vectors_keyed_by_space() {
    let m = CombinedEmbedding(vec![1.0f32], vec![2.0f32]).into_vectormap();
    assert_eq!(m.len(), 2);
    assert_eq!(m[0].0, "code");
    assert_eq!(m[0].1, vec![1.0]);
    assert_eq!(m[1].0, "nlp");
    assert_eq!(m[1].1, vec![2.0]);
}

#[test]
fn schema_has_two_cosine_spaces() {
    let p = collection_params();
    assert_eq!(p.len(), 2);
    assert_eq!((p[0].name.as_str(), p[0].size, p[0].distance), ("code", 768, Distance::Cosine));
    assert_eq!((p[1].name.as_str(), p[1].size, p[1].distance), ("nlp", 384, Distance::Cosine));
}

#[test]
fn search_fans_out_to_both_spaces() {
    let plan = search_plan(DEFAULT_TOP_K);
    assert_eq!(plan.len(), 2);
    assert_eq!(plan[0].space, "code");
    assert_eq!(plan[1].space, "nlp");
    assert!(plan.iter().all(|s| s.limit == 4 && s.with_payload));
}

#[test]
fn hits_are_code_space_then_text_space() {
    let code_hits = vec![entity("c1", CodeType::Function), entity("c2", CodeType::Struct)];
    let text_hits = vec![entity("t1", CodeType::Enum), entity("c1", CodeType::Function)];
    let v = flatten_results(vec![code_hits, text_hits], 2).unwrap();
    let names: Vec<&str> = v.iter().map(|t| t.name.as_str()).collect();
    assert_eq!(names, vec!["c1", "c2", "t1", "c1"]);
    assert!(v.len() <= 2 * 2);
}

#[test]
fn malformed_hits_are_an_error() {
    let one = vec![vec![entity("a", CodeType::Function)]];
    assert!(matches!(flatten_results(one, 4), Err(IndexError::ResultShape)));
    let too_many = vec![vec![entity("a", CodeType::Function), entity("b", CodeType::Function)], vec![]];
    assert!(matches!(flatten_results(too_many, 1), Err(IndexError::ResultShape)));
    let empty = flatten_results(vec![vec![], vec![]], 4).unwrap();
    assert!(empty.is_empty());
}

#[test]
fn records_store_embeddings_in_order() {
    let docs = vec![entity("a", CodeType::Function), entity("b", CodeType::Impl)];
    let code = vec![vector(CODE_DIMENSION, 1.0), vector(CODE_DIMENSION, 2.0)];
    let text = vec![vector(TEXT_DIMENSION, 3.0), vector(TEXT_DIMENSION, 4.0)];
    let records = insert_docs(pair_embeddings(docs, code, text).unwrap());
    assert_eq!(records.len(), 2);
    assert_eq!(records[0].payload.name, "a");
    assert_eq!(records[1].payload.name, "b");
    assert_eq!(records[1].vectors[0].0, "code");
    assert_eq!(records[1].vectors[0].1[0], 2.0);
    assert_eq!(records[1].vectors[1].0, "nlp");
    assert_eq!(records[1].vectors[1].1[0], 4.0);
    assert_eq!(records[0].id.len(), 36);
    assert_ne!(records[0].id, records[1].id);
}

#[test]
fn single_record() {
    let e = pair_embeddings(vec![entity("x", CodeType::Struct)], vec![vector(768, 0.0)], vec![vector(384, 0.0)])
        .unwrap()
        .pop()
        .unwrap();
    let r = make_record(e);
    assert_eq!(r.payload.code_type, CodeType::Struct);
    assert_eq!(r.vectors.len(), 2);
    assert_eq!(r.id.chars().filter(|c| *c == '-').count(), 4);
}

#[test]
fn error_messages() {
    assert_eq!(Error::Parsing.message(), "Failed to parse");
    assert_eq!(Error::Initialise("no model".to_string()).message(), "Failed to initialise: no model");
}

fn space(name: &str, size: u64, distance: Distance) -> SpaceParams {
    SpaceParams { name: name.to_string(), size, distance }
}

#[test]
fn existing_schema_is_checked() {
    assert!(schema_matches(&collection_params()));
    let swapped = vec![space("nlp", 384, Distance::Cosine), space("code", 768, Distance::Cosine)];
    assert!(schema_matches(&swapped));
    let wrong_size = vec![space("code", 512, Distance::Cosine), space("nlp", 384, Distance::Cosine)];
    assert!(!schema_matches(&wrong_size));
    let wrong_distance = vec![space("code", 768, Distance::Dot), space("nlp", 384, Distance::Cosine)];
    assert!(!schema_matches(&wrong_distance));
    let twice = vec![space("code", 768, Distance::Cosine), space("code", 768, Distance::Cosine)];
    assert!(!schema_matches(&twice));
    assert!(!schema_matches(&vec![space("code", 768, Distance::Cosine)]));
}
