//! The request methods the server understands.

use crate::text::same_text;
use vstd::prelude::*;

verus! {

/// A request method. Only `GET` is understood.
#[derive(Debug, Clone, Copy, PartialEq, Eq, Structural)]
pub enum Method {
    GET,
}

/// The method token that was not recognised.
#[derive(Debug)]
pub struct ParseMethodError {
    pub method: String,
}

impl Method {
    /// The method that a token of a request line names, if it names one.
    /// Tokens are compared exactly: case matters.
    pub open spec fn of_token(token: Seq<char>) -> Option<Method> {
        if token == "GET"@ {
            Some(Method::GET)
        } else {
            None
        }
    }

    /// The token that names this method on a request line.
    pub open spec fn token(self) -> Seq<char> {
        match self {
            Method::GET => "GET"@,
        }
    }

    /// The token that names this method on a request line.
    pub fn as_str(&self) -> (r: &'static str)
        ensures
            r@ == self.token(),
    {
        match self {
            Method::GET => "GET",
        }
    }

    /// Reads a method token. An unknown token comes back inside the error.
    pub fn from_str(s: &str) -> (r: Result<Method, ParseMethodError>)
        ensures
            match r {
                Ok(m) => Method::of_token(s@) == Some(m),
                Err(e) => Method::of_token(s@) is None && e.method@ == s@,
            },
    {
        if same_text(s, "GET") {
            Ok(Method::GET)
        } else {
            Err(ParseMethodError { method: s.to_owned() })
        }
    }
}

/// `str::parse` and `FromStr::from_str` read a method as [`Method::from_str`]
/// does, and promise the same.
impl std::str::FromStr for Method {
    type Err = ParseMethodError;

    fn from_str(s: &str) -> (r: Result<Method, ParseMethodError>)
        ensures
            match r {
                Ok(m) => Method::of_token(s@) == Some(m),
                Err(e) => Method::of_token(s@) is None && e.method@ == s@,
            },
    {
        Method::from_str(s)
    }
}

impl ParseMethodError {
    /// The sentence that reports this error.
    pub open spec fn spec_message(&self) -> Seq<char> {
        "could not parse http method from "@ + self.method@
    }

    /// The sentence that reports this error.
    pub fn message(&self) -> (r: String)
        ensures
            r@ == self.spec_message(),
    {
        let mut text = "could not parse http method from ".to_owned();
        text.append(self.method.as_str());
        text
    }
}

impl PartialEq for ParseMethodError {
    fn eq(&self, other: &Self) -> (r: bool) {
        self.method == other.method
    }
}

impl vstd::std_specs::cmp::PartialEqSpecImpl for ParseMethodError {
    open spec fn obeys_eq_spec() -> bool {
        true
    }

    open spec fn eq_spec(&self, other: &Self) -> bool {
        self.method@ == other.method@
    }
}

} // verus!
