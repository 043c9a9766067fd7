//! The progress record of metadata generation: which articles and
//! collections have been processed.
use vstd::prelude::*;

verus! {

/// The identifiers of the articles and collections processed so far, in the
/// order they were recorded.
#[derive(Debug)]
pub struct Checkpoint {
    pub processed_article_ids: Vec<u128>,
    pub processed_collection_ids: Vec<u128>,
}

impl Default for Checkpoint {
    /// A checkpoint with nothing processed.
    fn default() -> (c: Checkpoint)
        ensures
            c.processed_article_ids@ == Seq::<u128>::empty(),
            c.processed_collection_ids@ == Seq::<u128>::empty(),
    {
        Checkpoint { processed_article_ids: Vec::new(), processed_collection_ids: Vec::new() }
    }
}

/// `ids` with `id` appended when there is one.
pub open spec fn recorded(ids: Seq<u128>, id: Option<u128>) -> Seq<u128> {
    match id {
        Some(i) => ids.push(i),
        None => ids,
    }
}

impl Checkpoint {
    /// The checkpoint that was read, or an empty one when none could be read.
    pub fn loaded_or_default(loaded: Option<Checkpoint>) -> (c: Checkpoint)
        ensures
            match loaded {
                Some(l) => c == l,
                None => c.processed_article_ids@.len() == 0
                    && c.processed_collection_ids@.len() == 0,
            },
    {
        match loaded {
            Some(l) => l,
            None => Checkpoint::default(),
        }
    }

    /// Records a processed article and/or collection.
    pub fn record(&mut self, article_id: Option<u128>, collection_id: Option<u128>)
        ensures
            final(self).processed_article_ids@ == recorded(
                old(self).processed_article_ids@,
                article_id,
            ),
            final(self).processed_collection_ids@ == recorded(
                old(self).processed_collection_ids@,
                collection_id,
            ),
    {
        if let Some(id) = article_id {
            self.processed_article_ids.push(id);
        }
        if let Some(id) = collection_id {
            self.processed_collection_ids.push(id);
        }
    }
}

}
