use liten_http::Header;
use liten_http::Response;
use liten_http::Status;

#[test]
fn response_without_body() {
    let response = Response::new().status(Status::Okay);

    assert_eq!(response.serialize(), "HTTP/1.1 200 OK\r\n\r\n")
}

#[test]
fn response_with_headers() {
    let response = Response::new()
        .status(Status::Okay)
        .header(Header::new("Content-Length", "69"));

    assert_eq!(
        response.serialize(),
        "HTTP/1.1 200 OK\r\nContent-Length: 69\r\n\r\n"
    )
}

#[test]
fn response_with_html_body() {
    let response = Response::new()
        .status(Status::Okay)
        .html("<HTML><h1>Hello World</h1></HTML>");

    assert_eq!(
        response.serialize(),
        "HTTP/1.1 200 OK\r\nContent-Length: 33\r\nContent-Type: text/html\r\n\r\n<HTML><h1>Hello World</h1></HTML>"
    )
}

#[test]
fn response_with_json_body() {
    let response = Response::new()
        .status(Status::Okay)
        .json("{\"hello\": \"world\"}");

    assert_eq!(
        response.serialize(),
        "HTTP/1.1 200 OK\r\nContent-Length: 18\r\nContent-Type: application/json\r\n\r\n{\"hello\": \"world\"}"
    )
}

#[test]
fn content_replaces_earlier_headers() {
    let response = Response::new()
        .header(Header::new("X-Custom", "kept nowhere"))
        .json("{}");

    assert_eq!(
        response.serialize(),
        "HTTP/1.1 200 OK\r\nContent-Length: 2\r\nContent-Type: application/json\r\n\r\n{}"
    )
}

#[test]
fn content_length_counts_bytes() {
    let response = Response::new().content("", "text/plain");
    assert_eq!(
        response.serialize(),
        "HTTP/1.1 200 OK\r\nContent-Length: 0\r\nContent-Type: text/plain\r\n\r\n"
    );

    // a two-byte UTF-8 character counts as two bytes, not one
    let response = Response::new().content("é", "text/plain");
    assert_eq!(
        response.serialize(),
        "HTTP/1.1 200 OK\r\nContent-Length: 2\r\nContent-Type: text/plain\r\n\r\né"
    );
}

#[test]
fn response_statuses_render_in_status_line() {
    let response = Response::new().status(Status::NotFound);
    assert_eq!(response.serialize(), "HTTP/1.1 404 NOT FOUND\r\n\r\n");
    let response = Response::new().status(Status::SeeOther);
    assert_eq!(response.serialize(), "HTTP/1.1 303 SEE OTHER\r\n\r\n");
}
