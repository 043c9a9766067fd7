//! What is embedded for an article and under which identifiers the vector is
//! kept, both in the vector store and in the database. The vector itself,
//! made of floating-point numbers, is computed and carried outside.
use vstd::prelude::*;
use crate::models::{uuid_text, uuid_to_string, Article};

verus! {

broadcast use vstd::string::group_string_axioms;

/// How one article's embedding is made and stored.
#[derive(Debug)]
pub struct EmbeddingPlan {
    /// The text to embed: the article's title.
    pub text: String,
    /// The identifier of the vector-store point.
    pub point_id: String,
    /// The point's payload, as (key, value) pairs.
    pub payload: Vec<(String, String)>,
    /// The identifier of the database row.
    pub embedding_id: u128,
    /// The article the embedding belongs to.
    pub article_id: u128,
}

/// The plan for `article`: its title is embedded; the point and the row
/// carry the article's identifier, the point's payload names it under
/// `article_id`.
pub fn plan_embedding(article: &Article) -> (p: EmbeddingPlan)
    ensures
        p.text@ == article.title@,
        p.point_id@ == uuid_text(article.id),
        p.payload.len() == 1,
        p.payload[0].0@ == "article_id"@,
        p.payload[0].1@ == uuid_text(article.id),
        p.embedding_id == article.id,
        p.article_id == article.id,
{
    let mut payload: Vec<(String, String)> = Vec::new();
    payload.push(("article_id".to_owned(), uuid_to_string(article.id)));
    EmbeddingPlan {
        text: article.title.clone(),
        point_id: uuid_to_string(article.id),
        payload,
        embedding_id: article.id,
        article_id: article.id,
    }
}

}
