use liten_http::ErrorType;
use liten_http::Header;
use liten_http::Method;
use liten_http::Request;

#[test]
fn parse_get_request() {
    let request_string = "GET / HTTP/1.1\r\nHost: 127.0.0.1:3000\r\nAccept: */*\r\nContent-Type: application/json\r\nContent-Length: 23";
    let request = Request::from_string(request_string).unwrap();

    assert_eq!(request.method, Method::Get);
    assert_eq!(request.request_target, String::from("/"));
    assert_eq!(request.protocol_version, String::from("HTTP/1.1"));
    assert_eq!(
        request.header[0],
        Header {
            field_name: String::from("Host"),
            field_value: String::from("127.0.0.1:3000")
        }
    );
    assert_eq!(
        request.header[1],
        Header {
            field_name: String::from("Accept"),
            field_value: String::from("*/*")
        }
    );
    assert_eq!(
        request.header[2],
        Header {
            field_name: String::from("Content-Type"),
            field_value: String::from("application/json")
        }
    );
    assert_eq!(
        request.header[3],
        Header {
            field_name: String::from("Content-Length"),
            field_value: String::from("23")
        }
    )
}

#[test]
fn parse_post_request() {
    let request_string = "POST / HTTP/1.1\r\nHost: 127.0.0.1:3000\r\nAccept: */*\r\nContent-Type: application/json\r\nContent-Length: 18\r\n\r\n{\"hello\": \"world\"}";

    let request = Request::from_string(request_string).unwrap();

    assert_eq!(request.method, Method::Post);
    assert_eq!(request.request_target, String::from("/"));
    assert_eq!(request.protocol_version, String::from("HTTP/1.1"));
    assert_eq!(
        request.header[3],
        Header {
            field_name: String::from("Content-Length"),
            field_value: String::from("18")
        }
    );
    assert_eq!(request.body, Some("{\"hello\": \"world\"}".to_string()))
}

#[test]
fn parse_start_line_alone() {
    for (line, method) in [
        ("GET /index.html HTTP/1.1", Method::Get),
        ("POST /submit HTTP/1.1", Method::Post),
        ("DELETE /items/7 HTTP/1.0", Method::Delete),
        ("PUT /items/7 HTTP/1.1", Method::Put),
    ] {
        let request = Request::from_string(line).unwrap();
        assert_eq!(request.method, method);
        let mut tokens = line.split(' ');
        tokens.next();
        assert_eq!(request.request_target, tokens.next().unwrap());
        assert_eq!(request.protocol_version, tokens.next().unwrap());
        assert!(request.header.is_empty());
        assert_eq!(request.body, None);
    }
}

#[test]
fn parse_get_request_with_blank_line() {
    let request_string = "GET / HTTP/1.1\r\nHost: 127.0.0.1:3000\r\nAccept: */*\r\n\r\n";
    let request = Request::from_string(request_string).unwrap();

    assert_eq!(request.method, Method::Get);
    assert_eq!(request.request_target, "/");
    assert_eq!(request.protocol_version, "HTTP/1.1");
    assert_eq!(request.header.len(), 2);
    assert_eq!(request.header[0], Header::new("Host", "127.0.0.1:3000"));
    assert_eq!(request.header[1], Header::new("Accept", "*/*"));
    // the trailing CRLF pair leaves one empty segment after the blank
    // line, so the body is present but holds no text
    assert_eq!(request.body, Some(String::new()));
}

#[test]
fn parse_post_request_body_text() {
    let request_string = "POST / HTTP/1.1\r\nContent-Length: 18\r\n\r\n{\"hello\": \"world\"}";
    let request = Request::from_string(request_string).unwrap();
    assert_eq!(request.body, Some("{\"hello\": \"world\"}".to_string()));
}

#[test]
fn parse_multi_line_body() {
    let request_string = "POST /upload HTTP/1.1\r\nContent-Type: text/plain\r\n\r\nline one\r\nline two\r\n";
    let request = Request::from_string(request_string).unwrap();
    assert_eq!(request.body, Some("line one\r\nline two\r\n".to_string()));
}

#[test]
fn parse_rejects_bad_start_lines() {
    for bad in [
        "",
        "GET",
        "GET /",
        "get / HTTP/1.1",
        "FOO / HTTP/1.1",
        "GET / HTTP/1.1 extra",
        "GET a b c",
    ] {
        let err = Request::from_string(bad).unwrap_err();
        assert_eq!(err.error, ErrorType::ParseError);
        assert_eq!(err.error_msg, "invalid request format");
    }
}

#[test]
fn parse_rejects_bad_header_line() {
    let err = Request::from_string("GET / HTTP/1.1\r\nno colon here").unwrap_err();
    assert_eq!(err.error, ErrorType::ParseError);
    assert_eq!(err.error_msg, "invalid header format");
}

#[test]
fn serialize_then_parse_round_trip() {
    let request_string = "POST / HTTP/1.1\r\nHost: 127.0.0.1:3000\r\nContent-Length: 18\r\n\r\n{\"hello\": \"world\"}";
    let request = Request::from_string(request_string).unwrap();
    let serialized = request.serialize();
    assert_eq!(serialized, request_string);
    let reparsed = Request::from_string(&serialized).unwrap();
    assert_eq!(reparsed, request);
}

#[test]
fn round_trip_without_body_and_with_multi_line_body() {
    let no_body = "DELETE /items/7 HTTP/1.1\r\nHost: example.test\r\n";
    let request = Request::from_string(no_body).unwrap();
    assert_eq!(request.body, None);
    let reparsed = Request::from_string(&request.serialize()).unwrap();
    assert_eq!(reparsed, request);

    let with_body = "PUT /notes HTTP/1.1\r\nContent-Type: text/plain\r\n\r\nfirst\r\nsecond";
    let request = Request::from_string(with_body).unwrap();
    assert_eq!(request.body, Some("first\r\nsecond".to_string()));
    let serialized = request.serialize();
    assert_eq!(serialized, with_body);
    let reparsed = Request::from_string(&serialized).unwrap();
    assert_eq!(reparsed, request);
}
