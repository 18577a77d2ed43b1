use liten_http::Status;

fn codes() -> Vec<(Status, usize, &'static str, &'static str)> {
    vec![
        (Status::Okay, 200, "OK", "200 OK"),
        (Status::SeeOther, 303, "SEE OTHER", "303 SEE OTHER"),
        (Status::BadRequest, 400, "BAD REQUEST", "400 BAD REQUEST"),
        (Status::NotFound, 404, "NOT FOUND", "404 NOT FOUND"),
        (
            Status::InternalServerError,
            500,
            "INTERNAL SERVER ERROR",
            "500 INTERNAL SERVER ERROR",
        ),
    ]
}

#[test]
fn status_code() {
    for (status, code, msg, _) in codes() {
        assert_eq!(status.status_code(), code);
        assert_eq!(status.msg(), msg);
    }
}

#[test]
fn msg() {
    for (status, _, _, rendered) in codes() {
        assert_eq!(status.render(), rendered)
    }
}
