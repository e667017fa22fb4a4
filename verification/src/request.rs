//! A parsed request.

use crate::grammar::{HOST, HTTP1_1};
use crate::headers::Headers;
use crate::method::Method;
use crate::text::same_text;
use vstd::prelude::*;

verus! {

/// A request: its method and target, the protocol it was sent under, and its
/// header fields.
#[derive(Debug)]
pub struct Request {
    pub method: Method,
    pub target: String,
    protocol: &'static str,
    headers: Headers,
}

/// A [`Request`] with its texts as sequences of characters and its header
/// fields as a map.
pub struct RequestView {
    pub method: Method,
    pub target: Seq<char>,
    pub protocol: Seq<char>,
    pub headers: Map<Seq<char>, Seq<char>>,
}

impl RequestView {
    /// What holds of every request that was parsed: it asks for something,
    /// under the supported protocol, and says of which host.
    pub open spec fn is_valid(self) -> bool {
        &&& self.target.len() > 0
        &&& self.protocol == HTTP1_1@
        &&& self.headers.contains_key(HOST@)
    }
}

impl View for Request {
    type V = RequestView;

    closed spec fn view(&self) -> RequestView {
        RequestView {
            method: self.method,
            target: self.target@,
            protocol: self.protocol@,
            headers: self.headers@,
        }
    }
}

impl Request {
    /// A request for `target` with the given header fields, under [`HTTP1_1`].
    pub fn new(method: Method, target: String, headers: Headers) -> (r: Request)
        ensures
            r@ == (RequestView {
                method,
                target: target@,
                protocol: HTTP1_1@,
                headers: headers@,
            }),
    {
        Request { method, target, protocol: HTTP1_1, headers }
    }

    /// The method of the request.
    pub fn method(&self) -> (r: Method)
        ensures
            r == self@.method,
    {
        self.method
    }

    /// The target of the request, as it was written.
    pub fn target(&self) -> (r: &str)
        ensures
            r@ == self@.target,
    {
        self.target.as_str()
    }

    /// The protocol token of the request.
    pub fn protocol(&self) -> (r: &'static str)
        ensures
            r@ == self@.protocol,
    {
        self.protocol
    }

    /// The header fields of the request.
    pub fn headers(&self) -> (r: &Headers)
        ensures
            r@ == self@.headers,
    {
        &self.headers
    }

    /// The value of the header field `name`, if the request has that field.
    pub fn header(&self, name: &str) -> (r: Option<&str>)
        ensures
            match r {
                Some(value) => self@.headers.contains_key(name@) && self@.headers[name@] == value@,
                None => !self@.headers.contains_key(name@),
            },
    {
        self.headers.get(name)
    }
}

impl PartialEq for Request {
    fn eq(&self, other: &Self) -> (r: bool) {
        self.method == other.method && self.target == other.target && same_text(
            self.protocol,
            other.protocol,
        ) && self.headers == other.headers
    }
}

impl vstd::std_specs::cmp::PartialEqSpecImpl for Request {
    open spec fn obeys_eq_spec() -> bool {
        true
    }

    open spec fn eq_spec(&self, other: &Self) -> bool {
        self@ == other@
    }
}

} // verus!
