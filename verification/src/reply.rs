//! Reply elements, for builtin support of requests and replies.
//!
//! A reply element carries the identifier of the request it answers,
//! followed by the reply payload. Encoding and decoding of whole element
//! streams belongs to the bundle layer above this crate; these structures
//! are the data it carries.

use vstd::prelude::*;

verus! {

/// The element id for a reply.
pub const REPLY_ID: u8 = 0xFF;

/// Only the request id of a reply, for readers that dispatch on it before
/// decoding the payload.
#[derive(Debug)]
pub struct ReplyHeader {
    /// The request id this reply is for.
    pub request_id: u32,
}

/// A wrapper for a reply element: the request id and the payload element.
#[derive(Debug)]
pub struct Reply<E> {
    /// The request id this reply is for.
    pub request_id: u32,
    /// The inner reply element.
    pub element: E,
}

impl<E> Reply<E> {
    /// Pair a request id with the element that answers it.
    #[inline]
    pub fn new(request_id: u32, element: E) -> (r: Self)
        ensures
            r.request_id == request_id,
            r.element == element,
    {
        Reply { request_id, element }
    }
}

} // verus!
