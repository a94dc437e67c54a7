//! Pairing entities with the vectors of the two embedding spaces. The
//! models run outside the library; what comes back from them is checked
//! here, by count and by dimension, and matched to the entities by index.
use vstd::prelude::*;

use crate::entity::TCode;

verus! {

/// Dimension of the vectors of the code space.
pub const CODE_DIMENSION: usize = 768;

/// Dimension of the vectors of the general text space.
pub const TEXT_DIMENSION: usize = 384;

/// Name of the code space.
pub open spec fn code_space() -> Seq<char> {
    seq!['c', 'o', 'd', 'e']
}

/// Name of the general text space.
pub open spec fn text_space() -> Seq<char> {
    seq!['n', 'l', 'p']
}

/// The name of the code space, as text.
pub fn code_space_name() -> (r: String)
    ensures
        r@ == code_space(),
{
    proof {
        reveal_strlit("code");
    }
    let r = String::from_str("code");
    assert(r@ =~= code_space());
    r
}

/// The name of the general text space, as text.
pub fn text_space_name() -> (r: String)
    ensures
        r@ == text_space(),
{
    proof {
        reveal_strlit("nlp");
    }
    let r = String::from_str("nlp");
    assert(r@ =~= text_space());
    r
}

/// Why embedding failed.
#[derive(Debug)]
pub enum EmbeddingError {
    /// A model could not be set up.
    Initialise { message: String },
    /// A model failed on a batch.
    Model { message: String },
    /// A model gave `got` vectors for `expected` inputs.
    Count { expected: usize, got: usize },
    /// The vectors for input `index` do not have the dimensions of their spaces.
    Dimension { index: usize },
}

/// An entity with its vector in each space.
pub struct Embedding<T> {
    pub code: TCode,
    pub code_vector: Vec<T>,
    pub text_vector: Vec<T>,
}

/// The two vectors of one query: the code space's, then the text space's.
pub struct CombinedEmbedding<T>(pub Vec<T>, pub Vec<T>);

/// Input `i` has a vector of the right dimension in both spaces.
pub open spec fn dimensions_fit<T>(code: Seq<Vec<T>>, text: Seq<Vec<T>>, i: int) -> bool {
    code[i]@.len() == CODE_DIMENSION && text[i]@.len() == TEXT_DIMENSION
}

/// The embedding of input `i`.
pub open spec fn paired<T>(
    docs: Seq<TCode>,
    code: Seq<Vec<T>>,
    text: Seq<Vec<T>>,
    i: int,
) -> Embedding<T> {
    Embedding { code: docs[i], code_vector: code[i], text_vector: text[i] }
}

/// Pairs each entity with the vectors that the two models gave for it, by
/// position. Fails when a model gave a vector count other than the number
/// of entities, or a vector of the wrong dimension.
pub fn pair_embeddings<T>(
    documents: Vec<TCode>,
    code_vectors: Vec<Vec<T>>,
    text_vectors: Vec<Vec<T>>,
) -> (r: Result<Vec<Embedding<T>>, EmbeddingError>)
    ensures
        r is Ok <==> {
            &&& code_vectors@.len() == documents@.len()
            &&& text_vectors@.len() == documents@.len()
            &&& forall|i: int|
                0 <= i < documents@.len() ==> #[trigger] dimensions_fit(
                    code_vectors@,
                    text_vectors@,
                    i,
                )
        },
        r matches Ok(v) ==> v@.len() == documents@.len() && forall|i: int|
            0 <= i < v@.len() ==> #[trigger] v@[i] == paired(
                documents@,
                code_vectors@,
                text_vectors@,
                i,
            ),
        r matches Ok(v) ==> forall|i: int|
            0 <= i < v@.len() ==> (#[trigger] v@[i]).code_vector@.len() == CODE_DIMENSION
                && v@[i].text_vector@.len() == TEXT_DIMENSION,
        r matches Err(EmbeddingError::Count { expected, got }) ==> expected == documents@.len()
            && (got == code_vectors@.len() || got == text_vectors@.len()) && got != expected,
        r matches Err(EmbeddingError::Dimension { index }) ==> index < documents@.len()
            && !dimensions_fit(code_vectors@, text_vectors@, index as int),
        r is Err ==> (r matches Err(EmbeddingError::Count { .. }) || r matches Err(
            EmbeddingError::Dimension { .. },
        )),
{
    let n = documents.len();
    if code_vectors.len() != n {
        return Err(EmbeddingError::Count { expected: n, got: code_vectors.len() });
    }
    if text_vectors.len() != n {
        return Err(EmbeddingError::Count { expected: n, got: text_vectors.len() });
    }
    let mut i: usize = 0;
    while i < n
        invariant
            n == documents@.len(),
            n == code_vectors@.len(),
            n == text_vectors@.len(),
            i <= n,
            forall|j: int| 0 <= j < i ==> #[trigger] dimensions_fit(code_vectors@, text_vectors@, j),
        decreases n - i,
    {
        if code_vectors[i].len() != CODE_DIMENSION || text_vectors[i].len() != TEXT_DIMENSION {
            assert(!dimensions_fit(code_vectors@, text_vectors@, i as int));
            return Err(EmbeddingError::Dimension { index: i });
        }
        i = i + 1;
    }
    let ghost docs0 = documents@;
    let ghost code0 = code_vectors@;
    let ghost text0 = text_vectors@;
    let mut docs = documents;
    let mut codes = code_vectors;
    let mut texts = text_vectors;
    // first pass: from the last input to the first
    let mut reversed: Vec<Embedding<T>> = Vec::new();
    while docs.len() > 0
        invariant
            docs@.len() == codes@.len(),
            docs@.len() == texts@.len(),
            docs@.len() + reversed@.len() == n,
            n == docs0.len(),
            n == code0.len(),
            n == text0.len(),
            forall|j: int| 0 <= j < n ==> #[trigger] dimensions_fit(code0, text0, j),
            docs@ == docs0.subrange(0, docs@.len() as int),
            codes@ == code0.subrange(0, codes@.len() as int),
            texts@ == text0.subrange(0, texts@.len() as int),
            forall|j: int|
                0 <= j < reversed@.len() ==> #[trigger] reversed@[j] == paired(
                    docs0,
                    code0,
                    text0,
                    n - 1 - j,
                ),
        decreases docs@.len(),
    {
        let d = docs.pop().unwrap();
        let c = codes.pop().unwrap();
        let t = texts.pop().unwrap();
        reversed.push(Embedding { code: d, code_vector: c, text_vector: t });
    }
    // second pass: back to input order
    let mut out: Vec<Embedding<T>> = Vec::new();
    while reversed.len() > 0
        invariant
            out@.len() + reversed@.len() == n,
            n == docs0.len(),
            n == code0.len(),
            n == text0.len(),
            forall|j: int| 0 <= j < n ==> #[trigger] dimensions_fit(code0, text0, j),
            forall|j: int|
                0 <= j < reversed@.len() ==> #[trigger] reversed@[j] == paired(
                    docs0,
                    code0,
                    text0,
                    n - 1 - j,
                ),
            forall|j: int|
                0 <= j < out@.len() ==> #[trigger] out@[j] == paired(docs0, code0, text0, j),
        decreases reversed@.len(),
    {
        let e = reversed.pop().unwrap();
        out.push(e);
    }
    assert forall|i: int| 0 <= i < out@.len() implies (#[trigger] out@[i]).code_vector@.len()
        == CODE_DIMENSION && out@[i].text_vector@.len() == TEXT_DIMENSION by {
        assert(dimensions_fit(code0, text0, i));
    }
    Ok(out)
}

/// The vectors of a single query, one from each model. Fails unless each
/// model gave exactly one vector, of its space's dimension.
pub fn query_embedding<T>(code_vectors: Vec<Vec<T>>, text_vectors: Vec<Vec<T>>) -> (r: Result<
    CombinedEmbedding<T>,
    EmbeddingError,
>)
    ensures
        r is Ok <==> code_vectors@.len() == 1 && text_vectors@.len() == 1 && dimensions_fit(
            code_vectors@,
            text_vectors@,
            0,
        ),
        r matches Ok(e) ==> e.0 == code_vectors@[0] && e.1 == text_vectors@[0],
        r matches Err(EmbeddingError::Count { expected, got }) ==> expected == 1 && got != 1,
        r is Err ==> (r matches Err(EmbeddingError::Count { .. }) || r == Err::<
            CombinedEmbedding<T>,
            EmbeddingError,
        >(EmbeddingError::Dimension { index: 0 })),
{
    if code_vectors.len() != 1 {
        return Err(EmbeddingError::Count { expected: 1, got: code_vectors.len() });
    }
    if text_vectors.len() != 1 {
        return Err(EmbeddingError::Count { expected: 1, got: text_vectors.len() });
    }
    if code_vectors[0].len() != CODE_DIMENSION || text_vectors[0].len() != TEXT_DIMENSION {
        return Err(EmbeddingError::Dimension { index: 0 });
    }
    let mut code_vectors = code_vectors;
    let mut text_vectors = text_vectors;
    let c = code_vectors.pop().unwrap();
    let t = text_vectors.pop().unwrap();
    Ok(CombinedEmbedding(c, t))
}

impl<T> CombinedEmbedding<T> {
    /// The query's vectors keyed by space name: the code space, then the
    /// text space.
    pub fn into_vectormap(self) -> (r: Vec<(String, Vec<T>)>)
        ensures
            r@.len() == 2,
            r@[0].0@ == code_space(),
            r@[0].1 == self.0,
            r@[1].0@ == text_space(),
            r@[1].1 == self.1,
    {
        let mut r: Vec<(String, Vec<T>)> = Vec::new();
        r.push((code_space_name(), self.0));
        r.push((text_space_name(), self.1));
        r
    }
}

impl<T> Embedding<T> {
    /// The entity's vectors keyed by space name: the code space, then the
    /// text space; and the entity.
    pub fn into_vectormap(self) -> (r: (Vec<(String, Vec<T>)>, TCode))
        ensures
            r.0@.len() == 2,
            r.0@[0].0@ == code_space(),
            r.0@[0].1 == self.code_vector,
            r.0@[1].0@ == text_space(),
            r.0@[1].1 == self.text_vector,
            r.1 == self.code,
    {
        let mut v: Vec<(String, Vec<T>)> = Vec::new();
        v.push((code_space_name(), self.code_vector));
        v.push((text_space_name(), self.text_vector));
        (v, self.code)
    }
}

} // verus!
