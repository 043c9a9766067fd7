//! The help-center API client: where its requests go, how their answers are
//! judged, how listed items become collections and articles, and how the
//! pages of a collection's article list are walked.
use vstd::prelude::*;
use crate::models::{
    clone_opt_string, is_v4, Article, ArticleFull, ArticleRef, Collection, CollectionItem,
};
use crate::text::{decimal, decimal_string};

verus! {

broadcast use vstd::string::group_string_axioms;

/// Why a request to the help-center API failed.
#[derive(Debug, Clone, PartialEq, Eq)]
pub enum ApiError {
    /// The API answered with a status outside `200..=299`.
    RequestFailed { status: u16 },
}

/// Where and as whom the client sends its requests.
pub struct ApiClient {
    pub base_url: String,
    pub api_key: String,
}

/// A success status (`StatusCode::is_success`).
pub open spec fn is_success(status: u16) -> bool {
    200 <= status <= 299
}

/// The endpoint listing all collections.
pub open spec fn collections_path() -> Seq<char> {
    "/v1/collections"@
}

/// The endpoint of one collection.
pub open spec fn collection_path(id: Seq<char>) -> Seq<char> {
    "/v1/collections/"@ + id
}

/// The endpoint of one page of a collection's articles.
pub open spec fn articles_page_path(collection_id: Seq<char>, page: nat) -> Seq<char> {
    "/v1/collections/"@ + collection_id + "/articles?page="@ + decimal(page)
}

/// The endpoint of one article.
pub open spec fn article_path(id: Seq<char>) -> Seq<char> {
    "/v1/articles/"@ + id
}

impl ApiClient {
    /// A client for `base_url` with `api_key`; where one is not given, the
    /// value read from the environment is used.
    pub fn new(
        base_url: Option<String>,
        api_key: Option<String>,
        env_base_url: String,
        env_api_key: String,
    ) -> (c: ApiClient)
        ensures
            c.base_url == (match base_url {
                Some(u) => u,
                None => env_base_url,
            }),
            c.api_key == (match api_key {
                Some(k) => k,
                None => env_api_key,
            }),
    {
        let api_key = match api_key {
            Some(k) => k,
            None => env_api_key,
        };
        let base_url = match base_url {
            Some(u) => u,
            None => env_base_url,
        };
        ApiClient { base_url, api_key }
    }

    /// The URL of `endpoint`.
    pub fn request_url(&self, endpoint: &str) -> (url: String)
        ensures
            url@ == self.base_url@ + endpoint@,
    {
        let mut url = self.base_url.clone();
        url.append(endpoint);
        url
    }

    /// The basic-auth credentials sent with each request: the API key as user
    /// name and a fixed password.
    pub fn basic_auth(&self) -> (r: (String, String))
        ensures
            r.0@ == self.api_key@,
            r.1@ == "DUMMY_PASSWORD"@,
    {
        (self.api_key.clone(), "DUMMY_PASSWORD".to_owned())
    }

    /// The body of an answer with a success status, else the failure.
    pub fn check_response(status: u16, body: String) -> (r: Result<String, ApiError>)
        ensures
            is_success(status) ==> r == Ok::<String, ApiError>(body),
            !is_success(status) ==> r == Err::<String, ApiError>(ApiError::RequestFailed { status }),
    {
        if 200 <= status && status <= 299 {
            Ok(body)
        } else {
            Err(ApiError::RequestFailed { status })
        }
    }

    /// `/v1/collections`
    pub fn collections_endpoint() -> (e: String)
        ensures
            e@ == collections_path(),
    {
        "/v1/collections".to_owned()
    }

    /// `/v1/collections/{id}`
    pub fn collection_endpoint(id: &str) -> (e: String)
        ensures
            e@ == collection_path(id@),
    {
        let mut e = "/v1/collections/".to_owned();
        e.append(id);
        e
    }

    /// `/v1/collections/{collection_id}/articles?page={page}`
    pub fn articles_page_endpoint(collection_id: &str, page: u64) -> (e: String)
        ensures
            e@ == articles_page_path(collection_id@, page as nat),
    {
        let mut e = "/v1/collections/".to_owned();
        e.append(collection_id);
        e.append("/articles?page=");
        let n = decimal_string(page);
        e.append(n.as_str());
        e
    }

    /// `/v1/articles/{id}`
    pub fn article_endpoint(id: &str) -> (e: String)
        ensures
            e@ == article_path(id@),
    {
        let mut e = "/v1/articles/".to_owned();
        e.append(id);
        e
    }
}

/// `c` is the collection made of `item`.
pub open spec fn collection_of(item: CollectionItem, c: Collection) -> bool {
    &&& c.name == item.name
    &&& c.description == item.description
    &&& c.slug == item.slug
    &&& c.helpscout_collection_id == item.id
    &&& is_v4(c.id)
}

/// `a` is the article made of `item` within `collection`.
pub open spec fn article_of(item: ArticleFull, collection: Collection, a: Article) -> bool {
    &&& a.collection_id == collection.id
    &&& a.helpscout_collection_id == item.collection_id
    &&& a.helpscout_article_id == Some(item.id)
    &&& a.title == item.name
    &&& a.slug == item.slug
    &&& a.html_content == Some(item.text)
    &&& is_v4(a.id)
}

/// The collections made of `items`, one for each, in order.
pub fn parse_collections(collections: Vec<CollectionItem>) -> (r: Result<Vec<Collection>, ApiError>)
    ensures
        r matches Ok(v) && v.len() == collections.len() && forall|i: int|
            0 <= i < v.len() ==> collection_of(collections[i], #[trigger] v[i]),
{
    let mut out: Vec<Collection> = Vec::new();
    let mut i: usize = 0;
    while i < collections.len()
        invariant
            i <= collections.len(),
            out.len() == i,
            forall|j: int| 0 <= j < i ==> collection_of(collections[j], #[trigger] out[j]),
        decreases collections.len() - i,
    {
        match parse_collection(&collections[i]) {
            Ok(c) => out.push(c),
            Err(e) => return Err(e),
        }
        i += 1;
    }
    Ok(out)
}

/// The collection made of one listed item, with a fresh identifier.
pub fn parse_collection(collection: &CollectionItem) -> (r: Result<Collection, ApiError>)
    ensures
        r matches Ok(c) && collection_of(*collection, c),
{
    Ok(
        Collection::new(
            collection.name.clone(),
            clone_opt_string(&collection.description),
            collection.slug.clone(),
            collection.id.clone(),
        ),
    )
}

/// The article made of the API's article within `collection`, with a fresh
/// identifier.
pub fn parse_article(helpscout_article: &ArticleFull, collection: &Collection) -> (r: Result<
    Article,
    ApiError,
>)
    ensures
        r matches Ok(a) && article_of(*helpscout_article, *collection, a),
{
    Ok(
        Article::new(
            collection.id,
            helpscout_article.collection_id.clone(),
            Some(helpscout_article.id.clone()),
            helpscout_article.name.clone(),
            helpscout_article.slug.clone(),
            Some(helpscout_article.text.clone()),
        ),
    )
}

// ---------------------------------------------------------------------------
// Walking the pages of a collection's articles
// ---------------------------------------------------------------------------

/// The article references of one collection, gathered page by page: the
/// next page to fetch and what the pages fetched so far listed.
pub struct ArticlePager {
    helpscout_collection_id: String,
    page: i64,
    article_refs: Vec<ArticleRef>,
}

impl ArticlePager {
    /// The collection whose articles are listed.
    pub closed spec fn collection_id(&self) -> Seq<char> {
        self.helpscout_collection_id@
    }

    /// The page to fetch next.
    pub closed spec fn page(&self) -> int {
        self.page as int
    }

    /// The references listed by the pages fetched so far, in order.
    pub closed spec fn fetched(&self) -> Seq<ArticleRef> {
        self.article_refs@
    }

    /// The pager's invariant: pages are counted from 1.
    pub closed spec fn wf(&self) -> bool {
        self.page >= 1
    }

    /// Starts at page 1 of `collection`'s articles, with nothing fetched.
    pub fn start(collection: &Collection) -> (p: ArticlePager)
        ensures
            p.wf(),
            p.collection_id() == collection.helpscout_collection_id@,
            p.page() == 1,
            p.fetched() == Seq::<ArticleRef>::empty(),
    {
        ArticlePager {
            helpscout_collection_id: collection.helpscout_collection_id.clone(),
            page: 1,
            article_refs: Vec::new(),
        }
    }

    /// The endpoint of the page to fetch next.
    pub fn endpoint(&self) -> (e: String)
        requires
            self.wf(),
        ensures
            e@ == articles_page_path(self.collection_id(), self.page() as nat),
    {
        ApiClient::articles_page_endpoint(self.helpscout_collection_id.as_str(), self.page as u64)
    }

    /// Takes the fetched page: its items are added after those already
    /// gathered. Returns whether another page is to be fetched, which is the
    /// case while the page just fetched is below the reported page count;
    /// the next page is then the following one.
    pub fn on_page(&mut self, pages: i64, items: Vec<ArticleRef>) -> (more: bool)
        requires
            old(self).wf(),
        ensures
            final(self).wf(),
            final(self).collection_id() == old(self).collection_id(),
            final(self).fetched() == old(self).fetched() + items@,
            more == (old(self).page() < pages),
            more ==> final(self).page() == old(self).page() + 1,
            !more ==> final(self).page() == old(self).page(),
    {
        let mut items = items;
        self.article_refs.append(&mut items);
        if self.page >= pages {
            false
        } else {
            self.page = self.page + 1;
            true
        }
    }

    /// The references gathered.
    pub fn into_refs(self) -> (refs: Vec<ArticleRef>)
        ensures
            refs@ == self.fetched(),
    {
        self.article_refs
    }
}

}
