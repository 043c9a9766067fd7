//! The vector store's collection of article embeddings: its settings, and
//! whether it still has to be created.
use vstd::prelude::*;

verus! {

broadcast use vstd::string::group_string_axioms;

/// How vectors of a collection are compared.
#[derive(Debug, Clone, Copy, PartialEq, Eq)]
pub enum Distance {
    Cosine,
}

/// The settings a collection is created with.
#[derive(Debug)]
pub struct CollectionConfig {
    pub collection_name: String,
    pub vector_size: u64,
    pub distance: Distance,
}

/// The name of the collection of article embeddings.
pub open spec fn embeddings_collection_name() -> Seq<char> {
    "article_embeddings"@
}

/// The name of the collection of article embeddings.
pub fn article_embeddings_name() -> (s: String)
    ensures
        s@ == embeddings_collection_name(),
{
    "article_embeddings".to_owned()
}

/// The settings of the collection of article embeddings: 768-dimensional
/// vectors compared by cosine.
pub fn embeddings_collection_config() -> (c: CollectionConfig)
    ensures
        c.collection_name@ == embeddings_collection_name(),
        c.vector_size == 768,
        c.distance == Distance::Cosine,
{
    CollectionConfig {
        collection_name: article_embeddings_name(),
        vector_size: 768,
        distance: Distance::Cosine,
    }
}

/// Whether the collection of article embeddings is missing among the
/// collections `existing` (given by name), and so has to be created.
pub fn needs_embeddings_collection(existing: &Vec<String>) -> (r: bool)
    ensures
        r == !(exists|i: int| 0 <= i < existing.len() && #[trigger] existing@[i]@ == embeddings_collection_name()),
{
    let name = article_embeddings_name();
    let mut i: usize = 0;
    while i < existing.len()
        invariant
            i <= existing.len(),
            name@ == embeddings_collection_name(),
            forall|j: int| 0 <= j < i ==> #[trigger] existing@[j]@ != embeddings_collection_name(),
        decreases existing.len() - i,
    {
        if existing[i] == name {
            return false;
        }
        i += 1;
    }
    true
}

}
