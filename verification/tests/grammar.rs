use http_rs::error::ParseRequestError;
use http_rs::grammar::{
    is_end_of_fields, read_field_line, read_host_line, read_request_line, split_three, HOST,
    HTTP1_1,
};
use http_rs::method::Method;

#[test]
fn constants_are_the_protocol_and_the_host_name() {
    assert_eq!(HTTP1_1, "HTTP/1.1");
    assert_eq!(HOST, "Host");
}

#[test]
fn split_three_wants_exactly_two_spaces() {
    assert_eq!(split_three("GET / HTTP/1.1"), Some(("GET", "/", "HTTP/1.1")));
    assert_eq!(split_three("a  b"), Some(("a", "", "b")));
    assert_eq!(split_three("  "), Some(("", "", "")));
    assert_eq!(split_three("a b"), None);
    assert_eq!(split_three("a"), None);
    assert_eq!(split_three(""), None);
    assert_eq!(split_three("a b c d"), None);
    assert_eq!(split_three("a b c "), None);
}

#[test]
fn split_three_agrees_with_std_split() {
    for line in ["GET / HTTP/1.1", "", " ", "  ", "   ", "a b", "a b c", "a  c", " b c", "a b ",
        "a b c d"]
    {
        let tokens: Vec<&str> = line.split(' ').collect();
        let want = match tokens[..] {
            [a, b, c] => Some((a, b, c)),
            _ => None,
        };
        assert_eq!(split_three(line), want, "{:?}", line);
    }
}

#[test]
fn request_line_gives_method_and_target() {
    let got: Result<(Method, String), ParseRequestError<()>> =
        read_request_line("GET /hello HTTP/1.1".to_string());
    assert_eq!(got, Ok((Method::GET, "/hello".to_string())));
}

#[test]
fn host_line_wants_the_exact_name() {
    assert_eq!(read_host_line("Host: example.com"), Some("example.com".to_string()));
    assert_eq!(read_host_line("Host:example.com"), Some("example.com".to_string()));
    assert_eq!(read_host_line("Host:"), Some(String::new()));
    assert_eq!(read_host_line("Host: [::1]:80 "), Some("[::1]:80".to_string()));
    assert_eq!(read_host_line("Host : example.com"), None);
    assert_eq!(read_host_line("HOST: example.com"), None);
    assert_eq!(read_host_line("Host example.com"), None);
    assert_eq!(read_host_line(""), None);
}

#[test]
fn field_line_splits_at_the_first_colon() {
    assert_eq!(read_field_line("a: b: c"), Some(("a".to_string(), "b: c".to_string())));
    assert_eq!(read_field_line(" a :b "), Some(("a".to_string(), "b".to_string())));
    assert_eq!(read_field_line(":"), Some((String::new(), String::new())));
    assert_eq!(read_field_line("a b"), None);
}

#[test]
fn end_of_fields_is_a_line_of_nothing_but_whitespace() {
    assert!(is_end_of_fields(""));
    assert!(is_end_of_fields(" "));
    assert!(is_end_of_fields("\r"));
    assert!(!is_end_of_fields("x"));
    assert!(!is_end_of_fields(" : "));
}
