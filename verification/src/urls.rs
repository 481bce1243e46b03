//! URLs, as the `url` crate reads and writes them. The library carries
//! them, compares them and reads their path; everything else of a URL is
//! the crate's.

use vstd::prelude::*;
use url::Url;

verus! {

/// `url::Url`, a parsed URL.
#[verifier::external_type_specification]
#[verifier::external_body]
pub struct ExUrl(Url);

/// Whether a text is a URL that the `url` crate reads.
pub uninterp spec fn is_valid_url(text: Seq<char>) -> bool;

/// The path of a URL, as `url::Url::path` gives it.
pub uninterp spec fn path_of(url: Url) -> Seq<char>;

/// `url::Url::parse`: the URL that a text is, and nothing where the text is
/// no URL. Whether a text is one follows the URL standard and depends on
/// the text alone; it has a name, not a definition.
#[verifier::external_body]
pub(crate) fn parse_url(text: &str) -> (url: Option<Url>)
    ensures
        url.is_some() == is_valid_url(text@),
{
    Url::parse(text).ok()
}

/// `url::Url`'s `==`: whether two URLs are the same. The crate compares
/// the text that each URL was read from and is written as, and every
/// other part of a URL is taken from that text.
#[verifier::external_body]
pub(crate) fn same_url(a: &Url, b: &Url) -> (same: bool)
    ensures
        same == (*a == *b),
{
    a == b
}

/// `url::Url`'s `clone`: the same URL once more.
#[verifier::external_body]
pub(crate) fn clone_url(url: &Url) -> (copy: Url)
    ensures
        copy == *url,
{
    url.clone()
}

/// `url::Url::path`: the path of the URL, a part of the text that the URL
/// is written as.
#[verifier::external_body]
pub(crate) fn url_path(url: &Url) -> (path: String)
    ensures
        path@ == path_of(*url),
{
    String::from(url.path())
}

} // verus!
