use backend::api_client::{parse_article, parse_collection, parse_collections, ApiClient, ApiError, ArticlePager};
use backend::fetcher;
use backend::models::{ArticleFull, ArticleRef, Collection, CollectionItem};

fn item(id: &str, name: &str) -> CollectionItem {
    CollectionItem {
        id: id.to_string(),
        name: name.to_string(),
        description: Some(format!("about {}", name)),
        slug: name.to_lowercase(),
    }
}

fn is_v4(id: u128) -> bool {
    (id >> 76) & 0xf == 4 && (id >> 62) & 0x3 == 2
}

#[test]
fn client_prefers_given_values() {
    let c = ApiClient::new(Some("http://a".into()), None, "http://env".into(), "envkey".into());
    assert_eq!(c.base_url, "http://a");
    assert_eq!(c.api_key, "envkey");
    let c = ApiClient::new(None, Some("k".into()), "http://env".into(), "envkey".into());
    assert_eq!(c.base_url, "http://env");
    assert_eq!(c.api_key, "k");
}

#[test]
fn urls_and_credentials() {
    let c = ApiClient::new(Some("https://docsapi.example".into()), Some("key".into()), String::new(), String::new());
    assert_eq!(c.request_url("/v1/collections"), "https://docsapi.example/v1/collections");
    assert_eq!(c.basic_auth(), ("key".to_string(), "DUMMY_PASSWORD".to_string()));
    assert_eq!(ApiClient::collections_endpoint(), "/v1/collections");
    assert_eq!(ApiClient::collection_endpoint("abc"), "/v1/collections/abc");
    assert_eq!(ApiClient::article_endpoint("x1"), "/v1/articles/x1");
    assert_eq!(ApiClient::articles_page_endpoint("abc", 12), "/v1/collections/abc/articles?page=12");
}

#[test]
fn response_status_decides() {
    assert_eq!(ApiClient::check_response(200, "{}".into()), Ok("{}".to_string()));
    assert_eq!(ApiClient::check_response(299, "b".into()), Ok("b".to_string()));
    assert_eq!(ApiClient::check_response(404, "no".into()), Err(ApiError::RequestFailed { status: 404 }));
    assert_eq!(ApiClient::check_response(199, "".into()), Err(ApiError::RequestFailed { status: 199 }));
    assert_eq!(ApiClient::check_response(300, "".into()), Err(ApiError::RequestFailed { status: 300 }));
}

#[test]
fn collections_keep_count_and_order() {
    let items = vec![item("c1", "First"), item("c2", "Second")];
    let cs = parse_collections(items.clone()).unwrap();
    assert_eq!(cs.len(), 2);
    for (c, i) in cs.iter().zip(items.iter()) {
        assert_eq!(c.helpscout_collection_id, i.id);
        assert_eq!(c.name, i.name);
        assert_eq!(c.description, i.description);
        assert_eq!(c.slug, i.slug);
        assert!(is_v4(c.id));
    }
    assert_ne!(cs[0].id, cs[1].id);
    assert!(parse_collections(vec![]).unwrap().is_empty());
}

#[test]
fn collection_from_item() {
    let c = parse_collection(&item("c9", "Guide")).unwrap();
    assert_eq!(c.helpscout_collection_id, "c9");
    assert_eq!(c.name, "Guide");
    let f = fetcher::parse_collection(&item("c9", "Guide")).unwrap();
    assert_eq!(f.helpscout_collection_id, "c9");
    assert_eq!(fetcher::parse_collections(vec![item("a", "A")]).unwrap().len(), 1);
}

#[test]
fn article_from_api_article() {
    let collection = parse_collection(&item("c1", "First")).unwrap();
    let full = ArticleFull {
        id: "a1".into(),
        collection_id: "c1".into(),
        name: "How to".into(),
        slug: "how-to".into(),
        text: "<p>hi</p>".into(),
    };
    for a in [parse_article(&full, &collection).unwrap(), fetcher::parse_article(&full, &collection).unwrap()] {
        assert_eq!(a.collection_id, collection.id);
        assert_eq!(a.helpscout_collection_id, "c1");
        assert_eq!(a.helpscout_article_id.as_deref(), Some("a1"));
        assert_eq!(a.title, "How to");
        assert_eq!(a.slug, "how-to");
        assert_eq!(a.html_content.as_deref(), Some("<p>hi</p>"));
        assert!(is_v4(a.id));
    }
}

fn r(id: &str) -> ArticleRef {
    ArticleRef { id: id.into(), name: format!("n{}", id) }
}

#[test]
fn pager_walks_all_pages_in_order() {
    let collection: Collection = parse_collection(&item("col", "C")).unwrap();
    let mut pager = ArticlePager::start(&collection);
    assert_eq!(pager.endpoint(), "/v1/collections/col/articles?page=1");
    assert!(pager.on_page(3, vec![r("1"), r("2")]));
    assert_eq!(pager.endpoint(), "/v1/collections/col/articles?page=2");
    assert!(pager.on_page(3, vec![r("3")]));
    assert_eq!(pager.endpoint(), "/v1/collections/col/articles?page=3");
    assert!(!pager.on_page(3, vec![r("4")]));
    let ids: Vec<String> = pager.into_refs().into_iter().map(|a| a.id).collect();
    assert_eq!(ids, vec!["1", "2", "3", "4"]);
}

#[test]
fn pager_stops_after_first_page_when_no_more() {
    let collection = parse_collection(&item("col", "C")).unwrap();
    let mut pager = ArticlePager::start(&collection);
    assert!(!pager.on_page(0, vec![]));
    assert!(pager.into_refs().is_empty());
}

#[test]
fn old_client_headers_and_endpoints() {
    let c = fetcher::ApiClient::new("http://h".into(), "tok".into());
    assert_eq!(c.authorization(), "Bearer tok");
    assert_eq!(c.request_url("/v1/x"), "http://h/v1/x");
    assert_eq!(fetcher::ApiClient::articles_endpoint("c7"), "/v1/collections/c7/articles");
}
