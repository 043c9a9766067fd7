//! The records of the help-center API and the crate's own collections and
//! articles, with the identifiers they are given.
use vstd::prelude::*;

verus! {

// ---------------------------------------------------------------------------
// Identifiers
// ---------------------------------------------------------------------------

/// The lowercase hexadecimal digit for `d < 16`.
pub open spec fn hex_digit(d: nat) -> char {
    if d < 10 {
        (48 + d) as char
    } else {
        (87 + d) as char
    }
}

/// The `d`-th hexadecimal digit of `id`, counted from the most significant.
pub open spec fn uuid_nibble(id: u128, d: int) -> nat {
    ((id >> ((124 - 4 * d) as u128)) & 15u128) as nat
}

/// Which digit of an identifier's text stands at position `p`.
pub open spec fn uuid_digit_index(p: int) -> int {
    if p > 23 {
        p - 4
    } else if p > 18 {
        p - 3
    } else if p > 13 {
        p - 2
    } else if p > 8 {
        p - 1
    } else {
        p
    }
}

/// The hyphenated lowercase text of an identifier:
/// 8-4-4-4-12 hexadecimal digits, most significant first.
pub open spec fn uuid_text(id: u128) -> Seq<char> {
    Seq::new(
        36,
        |p: int|
            if p == 8 || p == 13 || p == 18 || p == 23 {
                '-'
            } else {
                hex_digit(uuid_nibble(id, uuid_digit_index(p)))
            },
    )
}

/// A random (version 4) identifier carries version 4 and the RFC 4122 variant.
pub open spec fn is_v4(id: u128) -> bool {
    (id >> 76u128) & 15u128 == 4 && (id >> 62u128) & 3u128 == 2
}

/// A fresh random identifier.
///
/// Calls `uuid::Uuid::new_v4` and converts it with `Uuid::as_u128`. Trusted:
/// `new_v4` masks random bits with the version (4) and variant (`10`) bits,
/// as its source shows; nothing else is claimed of the value.
#[verifier::external_body]
pub(crate) fn new_uuid_v4() -> (id: u128)
    ensures
        is_v4(id),
{
    uuid::Uuid::new_v4().as_u128()
}

/// The hyphenated text of an identifier.
///
/// Calls `uuid::Uuid::from_u128` and formats the result with `ToString`
/// (`Display`). Trusted: that formatting is the lowercase hyphenated form,
/// `uuid_text`.
#[verifier::external_body]
pub fn uuid_to_string(id: u128) -> (s: String)
    ensures
        s@ == uuid_text(id),
{
    uuid::Uuid::from_u128(id).to_string()
}

// ---------------------------------------------------------------------------
// Records
// ---------------------------------------------------------------------------

/// A collection as the help-center API lists it.
#[derive(Debug, Clone)]
pub struct CollectionItem {
    pub id: String,
    pub name: String,
    pub description: Option<String>,
    pub slug: String,
}

/// An article reference as the help-center API lists it.
#[derive(Debug, Clone)]
pub struct ArticleRef {
    pub id: String,
    pub name: String,
}

/// An article with its content as the help-center API returns it.
#[derive(Debug, Clone)]
pub struct ArticleFull {
    pub id: String,
    pub collection_id: String,
    pub name: String,
    pub slug: String,
    pub text: String,
}

/// A collection as this service keeps it.
#[derive(Debug, Clone)]
pub struct Collection {
    pub id: u128,
    pub name: String,
    pub description: Option<String>,
    pub slug: String,
    pub helpscout_collection_id: String,
}

/// An article as this service keeps it.
#[derive(Debug, Clone)]
pub struct Article {
    pub id: u128,
    pub collection_id: u128,
    pub helpscout_collection_id: String,
    pub helpscout_article_id: Option<String>,
    pub title: String,
    pub slug: String,
    pub html_content: Option<String>,
}

/// A copy of an optional string.
pub fn clone_opt_string(s: &Option<String>) -> (r: Option<String>)
    ensures
        r == *s,
{
    match s {
        Some(v) => Some(v.clone()),
        None => None,
    }
}

impl Collection {
    /// A collection with a fresh identifier.
    pub fn new(name: String, description: Option<String>, slug: String, helpscout_collection_id: String) -> (c: Collection)
        ensures
            c.name == name,
            c.description == description,
            c.slug == slug,
            c.helpscout_collection_id == helpscout_collection_id,
            is_v4(c.id),
    {
        Collection { id: new_uuid_v4(), name, description, slug, helpscout_collection_id }
    }
}

impl Article {
    /// An article with a fresh identifier.
    pub fn new(
        collection_id: u128,
        helpscout_collection_id: String,
        helpscout_article_id: Option<String>,
        title: String,
        slug: String,
        html_content: Option<String>,
    ) -> (a: Article)
        ensures
            a.collection_id == collection_id,
            a.helpscout_collection_id == helpscout_collection_id,
            a.helpscout_article_id == helpscout_article_id,
            a.title == title,
            a.slug == slug,
            a.html_content == html_content,
            is_v4(a.id),
    {
        Article {
            id: new_uuid_v4(),
            collection_id,
            helpscout_collection_id,
            helpscout_article_id,
            title,
            slug,
            html_content,
        }
    }
}

}
