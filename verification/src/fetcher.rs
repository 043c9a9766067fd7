//! The first version of the help-center API client: bearer-token requests and
//! a single page of a collection's articles.
use vstd::prelude::*;
use crate::api_client::{article_of, collection_of, ApiError};
use crate::models::{clone_opt_string, Article, ArticleFull, Collection, CollectionItem};

verus! {

broadcast use vstd::string::group_string_axioms;

/// Where and as whom the client sends its requests.
pub struct ApiClient {
    pub base_url: String,
    pub api_key: String,
}

impl ApiClient {
    /// A client for `base_url` with `api_key`.
    pub fn new(base_url: String, api_key: String) -> (c: ApiClient)
        ensures
            c.base_url == base_url,
            c.api_key == api_key,
    {
        ApiClient { base_url, api_key }
    }

    /// The URL of `endpoint`.
    pub fn request_url(&self, endpoint: &str) -> (url: String)
        ensures
            url@ == self.base_url@ + endpoint@,
    {
        let mut url = self.base_url.clone();
        url.append(endpoint);
        url
    }

    /// The value of the `Authorization` header: `Bearer {api_key}`.
    pub fn authorization(&self) -> (h: String)
        ensures
            h@ == "Bearer "@ + self.api_key@,
    {
        let mut h = "Bearer ".to_owned();
        h.append(self.api_key.as_str());
        h
    }

    /// `/v1/collections/{collection_id}/articles`
    pub fn articles_endpoint(collection_id: &str) -> (e: String)
        ensures
            e@ == "/v1/collections/"@ + collection_id@ + "/articles"@,
    {
        let mut e = "/v1/collections/".to_owned();
        e.append(collection_id);
        e.append("/articles");
        e
    }
}

/// The collections made of `items`, one for each, in order.
pub fn parse_collections(collections: Vec<CollectionItem>) -> (r: Result<Vec<Collection>, ApiError>)
    ensures
        r matches Ok(v) && v.len() == collections.len() && forall|i: int|
            0 <= i < v.len() ==> collection_of(collections[i], #[trigger] v[i]),
{
    let mut out: Vec<Collection> = Vec::new();
    let mut i: usize = 0;
    while i < collections.len()
        invariant
            i <= collections.len(),
            out.len() == i,
            forall|j: int| 0 <= j < i ==> collection_of(collections[j], #[trigger] out[j]),
        decreases collections.len() - i,
    {
        match parse_collection(&collections[i]) {
            Ok(c) => out.push(c),
            Err(e) => return Err(e),
        }
        i += 1;
    }
    Ok(out)
}

/// The collection made of one listed item, with a fresh identifier.
pub fn parse_collection(collection: &CollectionItem) -> (r: Result<Collection, ApiError>)
    ensures
        r matches Ok(c) && collection_of(*collection, c),
{
    Ok(
        Collection::new(
            collection.name.clone(),
            clone_opt_string(&collection.description),
            collection.slug.clone(),
            collection.id.clone(),
        ),
    )
}

/// The article made of the API's article within `collection`, with a fresh
/// identifier.
pub fn parse_article(helpscout_article: &ArticleFull, collection: &Collection) -> (r: Result<
    Article,
    ApiError,
>)
    ensures
        r matches Ok(a) && article_of(*helpscout_article, *collection, a),
{
    Ok(
        Article::new(
            collection.id,
            helpscout_article.collection_id.clone(),
            Some(helpscout_article.id.clone()),
            helpscout_article.name.clone(),
            helpscout_article.slug.clone(),
            Some(helpscout_article.text.clone()),
        ),
    )
}

}
