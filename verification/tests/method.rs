use http_rs::method::{Method, ParseMethodError};
use std::str::FromStr;

#[test]
fn parses_get_request() {
    let method_raw = "GET";
    let want = Method::GET;
    let got = Method::from_str(method_raw).unwrap();
    assert_eq!(got, want);
}

#[test]
fn parse_fails_on_lowercase_verb() {
    let method_raw = "get";
    let want = ParseMethodError {
        method: method_raw.to_string(),
    };
    let got = Method::from_str(method_raw).unwrap_err();
    assert_eq!(got, want);
}

#[test]
fn method_parses_through_the_std_trait() {
    let got: Result<Method, ParseMethodError> = "GET".parse();
    assert_eq!(got.unwrap(), Method::GET);
    let got = <Method as FromStr>::from_str("POST").unwrap_err();
    assert_eq!(got.method, "POST");
}

#[test]
fn method_token_is_compared_exactly() {
    assert!(Method::from_str("GET ").is_err());
    assert!(Method::from_str(" GET").is_err());
    assert!(Method::from_str("Get").is_err());
    assert!(Method::from_str("").is_err());
    assert!(Method::from_str("GETT").is_err());
    assert!(Method::from_str("GE").is_err());
}

#[test]
fn method_names_its_token() {
    assert_eq!(Method::GET.as_str(), "GET");
    assert_eq!(Method::from_str(Method::GET.as_str()).unwrap(), Method::GET);
}

#[test]
fn method_error_reports_the_token() {
    let error = Method::from_str("get").unwrap_err();
    assert_eq!(error.message(), "could not parse http method from get");
    assert_ne!(
        error,
        ParseMethodError {
            method: "GET".to_string()
        }
    );
}
