//! A response as the cache keeps it: the status, the headers and the body,
//! all held in full.

use crate::buffered_body::{header_entries, headers_clone, BodyView, BufferedBody};
use hyper::header::HeaderValue;
use hyper::HeaderMap;
use vstd::prelude::*;

verus! {

/// What a cached response holds.
pub struct ResponseView {
    pub status: u16,
    pub headers: Map<Seq<u8>, Seq<Seq<u8>>>,
    pub body: BodyView,
}

/// A response that can be kept and handed out again.
#[derive(Debug)]
pub struct CachedResponse {
    status: u16,
    headers: HeaderMap<HeaderValue>,
    body: BufferedBody,
}

impl View for CachedResponse {
    type V = ResponseView;

    closed spec fn view(&self) -> ResponseView {
        ResponseView {
            status: self.status,
            headers: header_entries(self.headers),
            body: self.body@,
        }
    }
}

impl Clone for CachedResponse {
    /// A response of its own that equals this one in status, headers and body.
    fn clone(&self) -> (copy: Self)
        ensures
            copy@ == self@,
    {
        CachedResponse {
            status: self.status,
            headers: headers_clone(&self.headers),
            body: self.body.clone(),
        }
    }
}

impl CachedResponse {
    /// A response of these parts.
    pub fn new(status: u16, headers: HeaderMap<HeaderValue>, body: BufferedBody) -> (response: Self)
        ensures
            response@ == (ResponseView { status, headers: header_entries(headers), body: body@ }),
    {
        CachedResponse { status, headers, body }
    }

    /// The status code.
    pub fn status(&self) -> (status: u16)
        ensures
            status == self@.status,
    {
        self.status
    }

    /// The headers.
    pub fn headers(&self) -> (headers: &HeaderMap<HeaderValue>)
        ensures
            header_entries(*headers) == self@.headers,
    {
        &self.headers
    }

    /// The body.
    pub fn body(&self) -> (body: &BufferedBody)
        ensures
            body@ == self@.body,
    {
        &self.body
    }

    /// The parts of the response.
    pub fn into_parts(self) -> (parts: (u16, HeaderMap<HeaderValue>, BufferedBody))
        ensures
            parts.0 == self@.status,
            header_entries(parts.1) == self@.headers,
            parts.2@ == self@.body,
    {
        (self.status, self.headers, self.body)
    }
}

} // verus!
