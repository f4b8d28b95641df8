//! URLs, as the text that they serialize to.

use url::Url;

use vstd::prelude::*;

use crate::text;

verus! {

/// The serialization of the URL that `Url::parse` makes of a text, if it
/// accepts it.
pub uninterp spec fn parsed_url(input: Seq<char>) -> Option<Seq<char>>;

/// The serialization of what `Url::join` makes of a base URL and a relative
/// reference, if both are accepted.
pub uninterp spec fn joined_url(base: Seq<char>, input: Seq<char>) -> Option<Seq<char>>;

/// Calls `Url::parse`. The result is named, not described: it is the
/// serialization of the URL, or nothing where the text is refused.
#[verifier::external_body]
fn url_parse(input: &str) -> (r: Option<String>)
    ensures
        text::opt_text(r) == parsed_url(input@),
{
    Url::parse(input).ok().map(String::from)
}

/// Calls `Url::join` on the URL that `base` serializes. The result is named,
/// not described: it is the serialization of the joined URL, or nothing where
/// either text is refused.
#[verifier::external_body]
fn url_join(base: &str, input: &str) -> (r: Option<String>)
    ensures
        text::opt_text(r) == joined_url(base@, input@),
{
    Url::parse(base).ok()?.join(input).ok().map(String::from)
}

/// A URL, held as its serialization.
#[derive(Debug, PartialEq, Eq)]
pub struct WebUrl {
    text: String,
}

impl View for WebUrl {
    type V = Seq<char>;

    closed spec fn view(&self) -> Seq<char> {
        self.text@
    }
}

impl Clone for WebUrl {
    fn clone(&self) -> (r: Self)
        ensures
            r@ == self@,
    {
        WebUrl { text: self.text.clone() }
    }
}

/// The text of an optional URL.
pub open spec fn opt_url(url: Option<WebUrl>) -> Option<Seq<char>> {
    match url {
        Some(u) => Some(u@),
        None => None,
    }
}

impl WebUrl {
    /// Parses an absolute URL.
    #[must_use]
    pub fn parse(input: &str) -> (r: Option<Self>)
        ensures
            opt_url(r) == parsed_url(input@),
    {
        match url_parse(input) {
            Some(text) => Some(WebUrl { text }),
            None => None,
        }
    }

    /// Resolves a relative reference against this URL.
    #[must_use]
    pub fn join(&self, input: &str) -> (r: Option<Self>)
        ensures
            opt_url(r) == joined_url(self@, input@),
    {
        match url_join(self.text.as_str(), input) {
            Some(text) => Some(WebUrl { text }),
            None => None,
        }
    }

    /// Gets the serialization of the URL.
    #[must_use]
    pub fn as_str(&self) -> (r: &str)
        ensures
            r@ == self@,
    {
        self.text.as_str()
    }
}

/// An optional URL has the text of the URL that it holds.
pub proof fn optional_urls_are_whole(url: WebUrl)
    ensures
        opt_url(Some(url)) == Some(url@),
        opt_url(None) is None,
{
}

} // verus!
