//! Requests as handlers get them.
use vstd::prelude::*;

use crate::head::HeadView;
use crate::head::RequestHead;

verus! {

/// `Request` received and used by handlers. Wraps & `deref`s to a `RequestHead`, with
/// `Request::body` as the correct slice of the bytes that were read.
pub struct Request {
    inner: RequestHead,
    bytes: Vec<u8>,
    body_start: usize,
}

/// A `Request` as a value.
pub struct RequestView {
    pub head: HeadView,
    /// All the bytes that were read, those of the head as well.
    pub bytes: Seq<u8>,
    pub body: Seq<u8>,
}

impl View for Request {
    type V = RequestView;

    closed spec fn view(&self) -> RequestView {
        RequestView {
            head: self.inner@,
            bytes: self.bytes@,
            body: self.bytes@.skip(self.body_start as int),
        }
    }
}

impl Request {
    #[verifier::type_invariant]
    spec fn body_is_there(self) -> bool {
        self.body_start <= self.bytes@.len()
    }

    /// The request with this head, whose body starts at `body_start` among the bytes that were
    /// read.
    pub fn new(inner: RequestHead, bytes: Vec<u8>, body_start: usize) -> (r: Self)
        requires
            body_start <= bytes@.len(),
        ensures
            r@ == (RequestView {
                head: inner@,
                bytes: bytes@,
                body: bytes@.skip(body_start as int),
            }),
    {
        Request { inner, bytes, body_start }
    }

    /// The bytes as they were read: the head, and behind it the body.
    pub fn bytes(&self) -> (r: &[u8])
        ensures
            r@ == self@.bytes,
    {
        self.bytes.as_slice()
    }

    /// The body.
    pub fn body(&self) -> (r: &[u8])
        ensures
            r@ == self@.body,
            r@.is_suffix_of(self@.bytes),
    {
        proof {
            use_type_invariant(self);
        }
        vstd::slice::slice_subrange(self.bytes.as_slice(), self.body_start, self.bytes.len())
    }

    /// The request without its body.
    pub fn head(&self) -> (r: &RequestHead)
        ensures
            r@ == self@.head,
    {
        &self.inner
    }
}

impl std::ops::Deref for Request {
    type Target = RequestHead;

    fn deref(&self) -> (r: &RequestHead)
        ensures
            r@ == self@.head,
    {
        &self.inner
    }
}

} // verus!
