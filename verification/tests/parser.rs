use http_rs::error::ParseRequestError;
use http_rs::method::Method;
use http_rs::parser::{Progress, RequestParser};
use http_rs::request::Request;
use std::io::{Error, ErrorKind};

fn feed(parser: RequestParser, line: &str) -> Progress<Error> {
    parser.feed(Ok(line.to_string()))
}

fn more(progress: Progress<Error>) -> RequestParser {
    match progress {
        Progress::More(parser) => parser,
        Progress::Done(r) => panic!("ended early: {:?}", r),
    }
}

fn done(progress: Progress<Error>) -> Result<Request, ParseRequestError<Error>> {
    match progress {
        Progress::Done(r) => r,
        Progress::More(_) => panic!("asks for more"),
    }
}

#[test]
fn parser_reads_a_request_line_by_line() {
    let parser = RequestParser::new();
    let parser = more(feed(parser, "GET /index.html HTTP/1.1"));
    let parser = more(feed(parser, "Host: example.com"));
    let parser = more(feed(parser, "User-Agent: x"));
    let parser = more(feed(parser, "no colon here"));
    let request = done(feed(parser, "")).unwrap();
    assert_eq!(request.method, Method::GET);
    assert_eq!(request.target, "/index.html");
    assert_eq!(request.header("Host"), Some("example.com"));
    assert_eq!(request.header("User-Agent"), Some("x"));
}

#[test]
fn parser_ends_at_the_first_bad_line() {
    let r = done(feed(RequestParser::new(), "GET /"));
    assert!(matches!(r, Err(ParseRequestError::MalformedRequestLine(_))));
    let r = done(feed(RequestParser::new(), "PUT / HTTP/1.1"));
    assert!(matches!(r, Err(ParseRequestError::UnrecognizedMethod(_))));
    let r = done(feed(RequestParser::new(), "GET / HTTP/2"));
    assert!(matches!(r, Err(ParseRequestError::WrongProtocol(_))));
    let parser = more(feed(RequestParser::new(), "GET / HTTP/1.1"));
    let r = done(feed(parser, "Accept: */*"));
    assert!(matches!(r, Err(ParseRequestError::MissingHost(Some(_)))));
}

#[test]
fn parser_ends_at_an_unreadable_line() {
    let broken = || Err(Error::new(ErrorKind::UnexpectedEof, "cut"));
    let r = done(RequestParser::new().feed(broken()));
    assert!(matches!(r, Err(ParseRequestError::Io(_))));
    let parser = more(feed(RequestParser::new(), "GET / HTTP/1.1"));
    let r = done(parser.feed(broken()));
    assert!(matches!(r, Err(ParseRequestError::Io(_))));
    let parser = more(feed(RequestParser::new(), "GET / HTTP/1.1"));
    let parser = more(feed(parser, "Host: a"));
    let r = done(parser.feed(broken()));
    assert!(matches!(r, Err(ParseRequestError::Io(_))));
}

#[test]
fn parser_at_end_of_input() {
    let r: Result<Request, ParseRequestError<Error>> = RequestParser::new().finish();
    assert!(matches!(r, Err(ParseRequestError::UnexpectedEof)));
    let parser = more(feed(RequestParser::new(), "GET / HTTP/1.1"));
    let r: Result<Request, ParseRequestError<Error>> = parser.finish();
    assert!(matches!(r, Err(ParseRequestError::MissingHost(None))));
    let parser = more(feed(RequestParser::new(), "GET / HTTP/1.1"));
    let parser = more(feed(parser, "Host: a"));
    let r: Result<Request, ParseRequestError<Error>> = parser.finish();
    assert_eq!(r.unwrap().header("Host"), Some("a"));
}

#[test]
fn parser_agrees_with_parse() {
    let inputs: [&[&str]; 6] = [
        &["GET / HTTP/1.1", "Host: example.com", "a: b", "", "ignored"],
        &["GET / HTTP/1.1", "Host: example.com", "a: b"],
        &["GET / HTTP/1.1"],
        &[],
        &["GET / HTTP/1.1", "nope"],
        &["POST / HTTP/1.1", "Host: a", ""],
    ];
    for input in inputs {
        let lines = || -> Vec<Result<String, String>> {
            input.iter().map(|line| Ok(line.to_string())).collect()
        };
        let whole = Request::parse(lines());
        let mut parser = RequestParser::new();
        let mut rest = lines().into_iter();
        let stepped = loop {
            match rest.next() {
                Some(line) => match parser.feed(line) {
                    Progress::More(next) => parser = next,
                    Progress::Done(r) => break r,
                },
                None => break parser.finish(),
            }
        };
        assert_eq!(whole, stepped, "{:?}", input);
    }
}
