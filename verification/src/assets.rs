//! The embedded assets, and the function that hands them out by name.

use crate::headers::{
    header_entries, insert_content_type, is_header_text, no_headers, only_content_type,
};
use crate::text::same_text;
use axum::http::{HeaderMap, HeaderValue};
use vstd::prelude::*;

verus! {

/// The site's stylesheet.
pub const THEME_CSS: &'static str = ":root {\n  --ink: #1f2430;\n  --paper: #fbfaf7;\n  --accent: #b5542f;\n}\n\nbody {\n  margin: 0 auto;\n  max-width: 42rem;\n  padding: 2rem 1rem;\n  color: var(--ink);\n  background: var(--paper);\n  font-family: Georgia, serif;\n  line-height: 1.5;\n}\n\nnav a {\n  margin-right: 1rem;\n}\n\na {\n  color: var(--accent);\n}\n";

/// The site's icon.
pub const FAVICON: &'static str = "<svg xmlns=\"http://www.w3.org/2000/svg\" viewBox=\"0 0 16 16\">\n  <rect width=\"16\" height=\"16\" rx=\"3\" fill=\"#b5542f\"/>\n  <circle cx=\"8\" cy=\"8\" r=\"4\" fill=\"#fbfaf7\"/>\n</svg>\n";

/// The name under which the stylesheet is served.
pub open spec fn theme_css_name() -> Seq<char> {
    "theme.css"@
}

/// The name under which the icon is served.
pub open spec fn favicon_name() -> Seq<char> {
    "favicon.svg"@
}

/// The media type stated for the stylesheet.
pub open spec fn theme_css_type() -> Seq<char> {
    "text/css"@
}

/// The status with which a request for `path` is answered: 200 for the two
/// names that are served, compared exactly, and 404 for every other text.
pub open spec fn asset_status(path: Seq<char>) -> u16 {
    if path == theme_css_name() || path == favicon_name() {
        200
    } else {
        404
    }
}

/// The headers of that answer: the stylesheet states its media type, and
/// nothing else states anything.
pub open spec fn asset_headers(path: Seq<char>) -> Map<Seq<char>, Seq<Seq<u8>>> {
    if path == theme_css_name() {
        only_content_type(theme_css_type())
    } else {
        no_headers()
    }
}

/// The body of that answer: the asset, or nothing where there is none.
pub open spec fn asset_body(path: Seq<char>) -> Seq<char> {
    if path == theme_css_name() {
        THEME_CSS@
    } else if path == favicon_name() {
        FAVICON@
    } else {
        Seq::empty()
    }
}

/// Answers a request for the asset called `path` with a status, the headers
/// and the body.
pub fn handle_assets(path: &str) -> (reply: (u16, HeaderMap<HeaderValue>, &'static str))
    ensures
        reply.0 == asset_status(path@),
        header_entries(reply.1) == asset_headers(path@),
        reply.2@ == asset_body(path@),
{
    let mut headers = HeaderMap::new();
    if same_text(path, "theme.css") {
        proof {
            reveal_strlit("text/css");
            assert(is_header_text("text/css"@));
        }
        insert_content_type(&mut headers, "text/css");
        (200, headers, THEME_CSS)
    } else if same_text(path, "favicon.svg") {
        (200, headers, FAVICON)
    } else {
        proof {
            reveal_strlit("");
        }
        (404, headers, "")
    }
}

} // verus!
