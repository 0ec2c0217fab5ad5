//! The pages of the site, and the answer that is sent once one of them has
//! been rendered. The pages are rendered by `askama` outside this library:
//! what comes back from it is taken here as it is, failure included.

use crate::headers::{
    header_entries, insert_content_type, is_header_text, no_headers, only_content_type,
};
use axum::http::{HeaderMap, HeaderValue};
use vstd::prelude::*;

verus! {

/// `askama::Error`, what a failure to render comes back as. Nothing is said
/// of it: it is told apart from a rendered page and dropped.
#[verifier::external_type_specification]
#[verifier::external_body]
pub struct ExRenderError(askama::Error);

/// The home page.
#[derive(Debug, Clone, Copy, PartialEq, Eq, Structural)]
pub struct MyTemplate {}

/// The page about the people behind the site.
#[derive(Debug, Clone, Copy, PartialEq, Eq, Structural)]
pub struct AboutUsTemplate {}

impl AboutUsTemplate {
    /// The page; it takes no data.
    pub fn new() -> (template: Self)
        ensures
            template == (AboutUsTemplate {}),
    {
        AboutUsTemplate {}
    }
}

/// The media type stated for a rendered page.
pub open spec fn html_type() -> Seq<char> {
    "text/html; charset=utf-8"@
}

/// The status of the answer to a request for a page: 200 where the page was
/// rendered, 500 where rendering failed.
pub open spec fn page_status(rendered: Result<String, askama::Error>) -> u16 {
    match rendered {
        Ok(_) => 200,
        Err(_) => 500,
    }
}

/// The headers of that answer: a rendered page is stated to be HTML, and a
/// failure states nothing.
pub open spec fn page_headers(rendered: Result<String, askama::Error>) -> Map<
    Seq<char>,
    Seq<Seq<u8>>,
> {
    match rendered {
        Ok(_) => only_content_type(html_type()),
        Err(_) => no_headers(),
    }
}

/// The body of that answer: the page as it was rendered, or nothing.
pub open spec fn page_body(rendered: Result<String, askama::Error>) -> Seq<char> {
    match rendered {
        Ok(html) => html@,
        Err(_) => Seq::empty(),
    }
}

/// Turns what rendering a page gave into the answer to the request: a
/// status, the headers and the body. A failure to render is answered with
/// an empty 500 and reaches no further.
pub fn page_reply(rendered: Result<String, askama::Error>) -> (reply: (
    u16,
    HeaderMap<HeaderValue>,
    String,
))
    ensures
        reply.0 == page_status(rendered),
        header_entries(reply.1) == page_headers(rendered),
        reply.2@ == page_body(rendered),
{
    let mut headers = HeaderMap::new();
    match rendered {
        Ok(html) => {
            proof {
                reveal_strlit("text/html; charset=utf-8");
                assert(is_header_text("text/html; charset=utf-8"@));
            }
            insert_content_type(&mut headers, "text/html; charset=utf-8");
            (200, headers, html)
        },
        Err(_) => (500, headers, String::new()),
    }
}

} // verus!
