use liten_http::ErrorType;
use liten_http::Header;

#[test]
fn header_new() {
    let header = Header::new("Content-Length", "69");
    assert_eq!(
        header,
        Header {
            field_name: "Content-Length".to_string(),
            field_value: "69".to_string()
        }
    )
}

#[test]
fn header_from_field_line() {
    let header_string = "Host: 127.0.0.1:3000";
    let header = Header::from_field_line(header_string).unwrap();

    assert_eq!(
        header,
        Header {
            field_name: "Host".to_string(),
            field_value: "127.0.0.1:3000".to_string()
        }
    );

    let bad_format_header = "Content-Length 23
";

    let header = Header::from_field_line(bad_format_header).unwrap_err();

    assert_eq!(header.error, ErrorType::ParseError)
}

#[test]
fn header_from_header_section() {
    let header_section = "Host: 127.0.0.1:3000\r\nAccept: */*\r\nContent-Type: application/json\r\nContent-Length: 23";

    let expected_headers = vec![
        Header {
            field_name: "Host".to_string(),
            field_value: "127.0.0.1:3000".to_string(),
        },
        Header {
            field_name: "Accept".to_string(),
            field_value: "*/*".to_string(),
        },
        Header {
            field_name: "Content-Type".to_string(),
            field_value: "application/json".to_string(),
        },
        Header {
            field_name: "Content-Length".to_string(),
            field_value: "23".to_string(),
        },
    ];

    let headers = Header::from_section(header_section.to_string()).unwrap();
    for (i, item) in headers.iter().enumerate() {
        assert_eq!(item, &expected_headers[i])
    }
}

#[test]
fn field_line_strips_one_space_each_side() {
    let header = Header::from_field_line("Name: value ").unwrap();
    assert_eq!(header.field_name, "Name");
    assert_eq!(header.field_value, "value");
}

#[test]
fn field_line_strips_only_one_layer() {
    let header = Header::from_field_line("Name:  padded  ").unwrap();
    assert_eq!(header.field_value, " padded ");
}

#[test]
fn field_line_empty_value_is_not_an_error() {
    let header = Header::from_field_line("Name:").unwrap();
    assert_eq!(header.field_value, "");
    let header = Header::from_field_line("Name: ").unwrap();
    assert_eq!(header.field_value, "");
}

#[test]
fn field_line_splits_at_first_colon() {
    let header = Header::from_field_line("Host: 127.0.0.1:3000 ").unwrap();
    assert_eq!(header.field_name, "Host");
    assert_eq!(header.field_value, "127.0.0.1:3000");
}

#[test]
fn field_line_without_colon_reports_message() {
    let err = Header::from_field_line("no colon here").unwrap_err();
    assert_eq!(err.error, ErrorType::ParseError);
    assert_eq!(err.error_msg, "invalid header format");
}

#[test]
fn empty_section_is_an_error() {
    let err = Header::from_section(String::new()).unwrap_err();
    assert_eq!(err.error, ErrorType::ParseError);
}

#[test]
fn error_renders_kind_and_message() {
    let err = Header::from_field_line("no colon here").unwrap_err();
    assert_eq!(err.render(), "PARSER ERROR: invalid header format");
}

#[test]
fn header_render_is_field_line_with_crlf() {
    let header = Header::new("Content-Type", "text/html");
    assert_eq!(header.render(), "Content-Type: text/html\r\n");
}
