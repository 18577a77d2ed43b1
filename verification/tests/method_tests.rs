use liten_http::ErrorType;
use liten_http::Method;

#[test]
fn from_string() {
    let method_string = vec![
        ("GET", Method::Get),
        ("POST", Method::Post),
        ("DELETE", Method::Delete),
        ("PUT", Method::Put),
    ];

    for (string, method) in method_string {
        assert_eq!(Method::from_string(string).unwrap(), method)
    }
}

#[test]
fn unknown_method_tokens_fail() {
    for token in ["get", "post", "delete", "put", "", "PATCH", "HEAD", "GET "] {
        let err = Method::from_string(token).unwrap_err();
        assert_eq!(err.error, ErrorType::ParseError);
        assert_eq!(err.error_msg, "Unknown method");
    }
}
