//! The ways in which reading a request fails.

use crate::method::ParseMethodError;
use vstd::prelude::*;

verus! {

/// Why a request could not be read. `E` is the error of the line source.
#[derive(Debug, PartialEq)]
pub enum ParseRequestError<E> {
    /// The input ended before the request line.
    UnexpectedEof,
    /// The request line, which is not three tokens with a target between them.
    MalformedRequestLine(String),
    /// The method token, which names no known method.
    UnrecognizedMethod(ParseMethodError),
    /// The protocol token, which is not the one supported.
    WrongProtocol(String),
    /// The line that should have been the `Host` field, or `None` where the
    /// input ended in its place.
    MissingHost(Option<String>),
    /// A line could not be read.
    Io(E),
}

/// A [`ParseRequestError`] with its texts as sequences of characters.
pub enum ParseRequestErrorView<E> {
    UnexpectedEof,
    MalformedRequestLine(Seq<char>),
    UnrecognizedMethod(Seq<char>),
    WrongProtocol(Seq<char>),
    MissingHost(Option<Seq<char>>),
    Io(E),
}

impl<E> View for ParseRequestError<E> {
    type V = ParseRequestErrorView<E>;

    open spec fn view(&self) -> ParseRequestErrorView<E> {
        match self {
            ParseRequestError::UnexpectedEof => ParseRequestErrorView::UnexpectedEof,
            ParseRequestError::MalformedRequestLine(line) => ParseRequestErrorView::MalformedRequestLine(line@),
            ParseRequestError::UnrecognizedMethod(e) => ParseRequestErrorView::UnrecognizedMethod(
                e.method@,
            ),
            ParseRequestError::WrongProtocol(token) => ParseRequestErrorView::WrongProtocol(token@),
            ParseRequestError::MissingHost(Some(line)) => ParseRequestErrorView::MissingHost(
                Some(line@),
            ),
            ParseRequestError::MissingHost(None) => ParseRequestErrorView::MissingHost(None),
            ParseRequestError::Io(e) => ParseRequestErrorView::Io(*e),
        }
    }
}

impl<E> ParseRequestErrorView<E> {
    /// The sentence that reports this error. Where a text was refused, the
    /// sentence ends in that text.
    pub open spec fn message(self) -> Seq<char> {
        match self {
            ParseRequestErrorView::UnexpectedEof => "could not parse request: no request line"@,
            ParseRequestErrorView::MalformedRequestLine(line) =>
                "could not parse request: malformed request line: "@ + line,
            ParseRequestErrorView::UnrecognizedMethod(token) => "could not parse http method from "@
                + token,
            ParseRequestErrorView::WrongProtocol(token) =>
                "could not parse request: unsupported protocol: "@ + token,
            ParseRequestErrorView::MissingHost(Some(line)) =>
                "could not parse request: expected the Host header, found: "@ + line,
            ParseRequestErrorView::MissingHost(None) =>
                "could not parse request: missing Host header"@,
            ParseRequestErrorView::Io(_) => "could not read request"@,
        }
    }
}

impl<E> ParseRequestError<E> {
    /// The sentence that reports this error.
    pub fn message(&self) -> (r: String)
        ensures
            r@ == self@.message(),
    {
        match self {
            ParseRequestError::UnexpectedEof => "could not parse request: no request line".to_owned(),
            ParseRequestError::MalformedRequestLine(line) => {
                let mut text = "could not parse request: malformed request line: ".to_owned();
                text.append(line.as_str());
                text
            },
            ParseRequestError::UnrecognizedMethod(e) => e.message(),
            ParseRequestError::WrongProtocol(token) => {
                let mut text = "could not parse request: unsupported protocol: ".to_owned();
                text.append(token.as_str());
                text
            },
            ParseRequestError::MissingHost(Some(line)) => {
                let mut text = "could not parse request: expected the Host header, found: ".to_owned();
                text.append(line.as_str());
                text
            },
            ParseRequestError::MissingHost(None) => "could not parse request: missing Host header".to_owned(),
            ParseRequestError::Io(_) => "could not read request".to_owned(),
        }
    }
}

} // verus!
