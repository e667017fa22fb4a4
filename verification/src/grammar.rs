//! The grammar of the request line and of the header lines.
//!
//! Lines come without their terminator. Each rule is stated on the characters
//! of one line, and read by a function that does what the rule says.

use crate::error::{ParseRequestError, ParseRequestErrorView};
use crate::method::Method;
use crate::text::{cut, find, same_text, split_once, trim, trimmed};
use vstd::prelude::*;

verus! {

/// The only protocol token that a request line may carry.
pub const HTTP1_1: &'static str = "HTTP/1.1";

/// The name of the field that must come first.
pub const HOST: &'static str = "Host";

/// The three tokens of a line that holds exactly two spaces: what stands
/// before the first, between the two, and after the second.
pub open spec fn three_tokens(line: Seq<char>) -> Option<(Seq<char>, Seq<char>, Seq<char>)> {
    match cut(line, ' ') {
        Some((first, rest)) => match cut(rest, ' ') {
            Some((second, third)) => if cut(third, ' ') is None {
                Some((first, second, third))
            } else {
                None
            },
            None => None,
        },
        None => None,
    }
}

/// What a request line says: its method and its target, or why it is refused.
///
/// The line must split at single spaces into three tokens, the second of
/// them, the target, not empty. Then the method must be known, and then the
/// protocol must be [`HTTP1_1`], character for character.
pub open spec fn request_line<E>(line: Seq<char>) -> Result<
    (Method, Seq<char>),
    ParseRequestErrorView<E>,
> {
    match three_tokens(line) {
        Some((method, target, protocol)) => if target.len() == 0 {
            Err(ParseRequestErrorView::MalformedRequestLine(line))
        } else {
            match Method::of_token(method) {
                Some(m) => if protocol == HTTP1_1@ {
                    Ok((m, target))
                } else {
                    Err(ParseRequestErrorView::WrongProtocol(protocol))
                },
                None => Err(ParseRequestErrorView::UnrecognizedMethod(method)),
            }
        },
        None => Err(ParseRequestErrorView::MalformedRequestLine(line)),
    }
}

/// The host that a line names, where the line is a `Host` field: the name
/// `Host` as it stands, a colon, and the value, which is trimmed.
pub open spec fn host_line(line: Seq<char>) -> Option<Seq<char>> {
    match cut(line, ':') {
        Some((name, value)) => if name == HOST@ {
            Some(trimmed(value))
        } else {
            None
        },
        None => None,
    }
}

/// The field that a header line holds: what stands before its first colon and
/// what stands after it, both trimmed. A line without a colon holds none.
pub open spec fn field_line(line: Seq<char>) -> Option<(Seq<char>, Seq<char>)> {
    match cut(line, ':') {
        Some((name, value)) => Some((trimmed(name), trimmed(value))),
        None => None,
    }
}

/// Whether a line ends the header fields: nothing is left of it after trimming.
pub open spec fn ends_fields(line: Seq<char>) -> bool {
    trimmed(line).len() == 0
}

/// Splits a line that holds exactly two spaces into its three tokens.
pub fn split_three(line: &str) -> (r: Option<(&str, &str, &str)>)
    ensures
        match r {
            Some((a, b, c)) => three_tokens(line@) == Some((a@, b@, c@)),
            None => three_tokens(line@) is None,
        },
{
    match split_once(line, ' ') {
        Some((first, rest)) => match split_once(rest, ' ') {
            Some((second, third)) => {
                proof {
                    third@.index_of_first_ensures(' ');
                }
                if find(third, ' ').is_none() {
                    Some((first, second, third))
                } else {
                    None
                }
            },
            None => None,
        },
        None => None,
    }
}

/// The view of what [`read_request_line`] returns.
pub open spec fn request_line_view<E>(r: Result<(Method, String), ParseRequestError<E>>) -> Result<
    (Method, Seq<char>),
    ParseRequestErrorView<E>,
> {
    match r {
        Ok((method, target)) => Ok((method, target@)),
        Err(e) => Err(e@),
    }
}

/// Reads a request line.
pub fn read_request_line<E>(line: String) -> (r: Result<(Method, String), ParseRequestError<E>>)
    ensures
        request_line_view(r) == request_line::<E>(line@),
{
    match split_three(line.as_str()) {
        Some((method, target, protocol)) => {
            if target.is_empty() {
                return Err(ParseRequestError::MalformedRequestLine(line));
            }
            match Method::from_str(method) {
                Ok(m) => {
                    if same_text(protocol, HTTP1_1) {
                        Ok((m, target.to_owned()))
                    } else {
                        Err(ParseRequestError::WrongProtocol(protocol.to_owned()))
                    }
                },
                Err(e) => Err(ParseRequestError::UnrecognizedMethod(e)),
            }
        },
        None => Err(ParseRequestError::MalformedRequestLine(line)),
    }
}

/// Reads the host out of a `Host` field.
pub fn read_host_line(line: &str) -> (r: Option<String>)
    ensures
        match r {
            Some(host) => host_line(line@) == Some(host@),
            None => host_line(line@) is None,
        },
{
    match split_once(line, ':') {
        Some((name, value)) => {
            if same_text(name, HOST) {
                Some(trim(value).to_owned())
            } else {
                None
            }
        },
        None => None,
    }
}

/// Reads the field out of a header line.
pub fn read_field_line(line: &str) -> (r: Option<(String, String)>)
    ensures
        match r {
            Some((name, value)) => field_line(line@) == Some((name@, value@)),
            None => field_line(line@) is None,
        },
{
    match split_once(line, ':') {
        Some((name, value)) => Some((trim(name).to_owned(), trim(value).to_owned())),
        None => None,
    }
}

/// Whether a line ends the header fields.
pub fn is_end_of_fields(line: &str) -> (r: bool)
    ensures
        r == ends_fields(line@),
{
    trim(line).is_empty()
}

} // verus!
