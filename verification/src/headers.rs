//! Response headers, held in the `HeaderMap` of the `http` crate that `axum`
//! hands on. Verus does not look inside a `HeaderMap`: what the items below
//! say of it is read off the crate's source and is not proved here.

use crate::text::text_bytes;
use axum::http::header::CONTENT_TYPE;
use axum::http::{HeaderMap, HeaderValue};
use vstd::prelude::*;

verus! {

/// `http::HeaderMap`, the multimap from header names to header values. It
/// is carried as it is; `header_entries` names what it holds.
#[verifier::external_type_specification]
#[verifier::external_body]
#[verifier::reject_recursive_types(T)]
pub struct ExHeaderMap<T>(HeaderMap<T>);

/// `http::HeaderValue`, the value of one header. Nothing is said of it: it
/// only stands in the type of the maps.
#[verifier::external_type_specification]
#[verifier::external_body]
pub struct ExHeaderValue(HeaderValue);

/// What a header map holds: for each header name that is present, written in
/// lower case, the values stored under it, in order, each as its bytes.
pub uninterp spec fn header_entries(headers: HeaderMap<HeaderValue>) -> Map<Seq<char>, Seq<Seq<u8>>>;

/// The contents of a map that holds no header.
pub open spec fn no_headers() -> Map<Seq<char>, Seq<Seq<u8>>> {
    Map::empty()
}

/// The contents of a map whose only header is a content type.
pub open spec fn only_content_type(value: Seq<char>) -> Map<Seq<char>, Seq<Seq<u8>>> {
    no_headers().insert(content_type_name(), seq![text_bytes(value)])
}

/// The name under which a response states the media type of its body.
pub open spec fn content_type_name() -> Seq<char> {
    "content-type"@
}

/// The characters that this library puts into a header value: the printable
/// ASCII characters and the space.
pub open spec fn is_header_char(c: char) -> bool {
    ' ' <= c <= '~'
}

/// Whether a text is made of such characters only.
pub open spec fn is_header_text(text: Seq<char>) -> bool {
    forall|i: int| 0 <= i < text.len() ==> is_header_char(#[trigger] text[i])
}

/// A map that holds fewer names than this has room for one more.
pub const HEADER_ROOM: usize = 1024;

/// `HeaderMap::new` gives a map that holds nothing.
pub assume_specification[ HeaderMap::<HeaderValue>::new ]() -> (made: HeaderMap<HeaderValue>)
    ensures
        header_entries(made) == no_headers(),
;

/// Stores `value` as the only value of the `content-type` header, through
/// `HeaderMap::insert`: whatever stood under that name before is replaced,
/// and every other header is kept. `insert` panics once the map cannot grow
/// any more, which takes more than six thousand names: the bound asked for
/// here keeps well below that. The value is made by `HeaderValue::from_str`,
/// which takes every text of printable ASCII and copies its bytes.
#[verifier::external_body]
pub(crate) fn insert_content_type(headers: &mut HeaderMap<HeaderValue>, value: &str)
    requires
        is_header_text(value@),
        header_entries(*old(headers)).dom().finite(),
        header_entries(*old(headers)).dom().len() < HEADER_ROOM,
    ensures
        header_entries(*final(headers)) == header_entries(*old(headers)).insert(
            content_type_name(),
            seq![text_bytes(value@)],
        ),
{
    if let Ok(stored) = HeaderValue::from_str(value) {
        headers.insert(CONTENT_TYPE, stored);
    }
}

} // verus!
