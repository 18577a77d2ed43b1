//! Response messages: built through a chain of consuming builder calls,
//! each returning a new value with one field changed, then serialized to
//! wire form.

use crate::header::render_headers;
use crate::header::render_headers_from;
use crate::header::Header;
use crate::status::status_render;
use crate::status::Status;
use crate::text::crlf_seq;
use crate::text::byte_len;
use crate::text::dec_digits;
use crate::text::usize_to_string;
use vstd::prelude::*;
use vstd::string::*;

verus! {

/// A response message: protocol version, status, headers in insertion
/// order, and an optional body.
pub struct Response {
    pub protocol_version: String,
    pub status: Status,
    pub header: Vec<Header>,
    pub body: Option<String>,
}

/// The wire form of a response:
/// `"<version> <status>\r\n<field-lines>\r\n<body>"`, with the trailing
/// segment empty when no body is set.
pub open spec fn response_render(
    version: Seq<char>,
    status: Status,
    headers: Seq<(Seq<char>, Seq<char>)>,
    body: Option<Seq<char>>,
) -> Seq<char> {
    version + seq![' '] + status_render(status) + crlf_seq() + render_headers(headers)
        + crlf_seq() + (match body {
        Some(b) => b,
        None => Seq::<char>::empty(),
    })
}

impl Default for Response {
    /// The default response: version `HTTP/1.1`, status 200, no headers,
    /// no body.
    fn default() -> (r: Response)
        ensures
            r.protocol_version@ == "HTTP/1.1"@,
            r.status == Status::Okay,
            r.header.deep_view() == Seq::<(Seq<char>, Seq<char>)>::empty(),
            r.body is None,
    {
        Response {
            protocol_version: String::from_str("HTTP/1.1"),
            status: Status::Okay,
            header: Vec::new(),
            body: None,
        }
    }
}

impl Response {
    /// A response with the defaults: version `HTTP/1.1`, status 200, no
    /// headers, no body.
    pub fn new() -> (r: Response)
        ensures
            r.protocol_version@ == "HTTP/1.1"@,
            r.status == Status::Okay,
            r.header.deep_view() == Seq::<(Seq<char>, Seq<char>)>::empty(),
            r.body is None,
    {
        Self::default()
    }

    /// Replaces the status; every other field is unchanged.
    pub fn status(self, status: Status) -> (r: Response)
        ensures
            r.status == status,
            r.protocol_version@ == self.protocol_version@,
            r.header.deep_view() == self.header.deep_view(),
            r.body.deep_view() == self.body.deep_view(),
    {
        Response {
            protocol_version: self.protocol_version,
            status,
            header: self.header,
            body: self.body,
        }
    }

    /// Appends one header at the end of the sequence; every other field is
    /// unchanged.
    pub fn header(self, h: Header) -> (r: Response)
        ensures
            r.header.deep_view() == self.header.deep_view().push(h@),
            r.status == self.status,
            r.protocol_version@ == self.protocol_version@,
            r.body.deep_view() == self.body.deep_view(),
    {
        let mut header = self.header;
        let ghost old_dv = header.deep_view();
        header.push(h);
        proof {
            assert(header.deep_view() =~~= old_dv.push(h@));
        }
        Response { protocol_version: self.protocol_version, status: self.status, header, body: self.body }
    }

    /// Replaces the header sequence with exactly two headers —
    /// `Content-Length` with the byte length of `content`, then
    /// `Content-Type` — and sets the body. Headers added earlier are
    /// discarded.
    pub fn content(self, content: &str, content_type: &str) -> (r: Response)
        ensures
            r.header.deep_view() == seq![
                ("Content-Length"@, dec_digits(byte_len(content))),
                ("Content-Type"@, content_type@),
            ],
            r.body.deep_view() == Some(content@),
            r.status == self.status,
            r.protocol_version@ == self.protocol_version@,
    {
        let len: usize = content.len();
        let content_length = usize_to_string(len);
        let content_length_header = Header::new("Content-Length", content_length.as_str());
        let content_type_header = Header::new("Content-Type", content_type);
        let mut header: Vec<Header> = Vec::new();
        header.push(content_length_header);
        header.push(content_type_header);
        let r = Response {
            protocol_version: self.protocol_version,
            status: self.status,
            header,
            body: Some(String::from_str(content)),
        };
        proof {
            assert(r.header.deep_view() =~~= seq![
                ("Content-Length"@, dec_digits(byte_len(content))),
                ("Content-Type"@, content_type@),
            ]);
        }
        r
    }

    /// Sets an HTML body: `content` with content type `text/html`, through
    /// `content`.
    pub fn html(self, content: &str) -> (r: Response)
        ensures
            r.header.deep_view() == seq![
                ("Content-Length"@, dec_digits(byte_len(content))),
                ("Content-Type"@, "text/html"@),
            ],
            r.body.deep_view() == Some(content@),
            r.status == self.status,
            r.protocol_version@ == self.protocol_version@,
    {
        Self::content(self, content, "text/html")
    }

    /// Sets a JSON body: `content` with content type `application/json`,
    /// through `content`.
    pub fn json(self, content: &str) -> (r: Response)
        ensures
            r.header.deep_view() == seq![
                ("Content-Length"@, dec_digits(byte_len(content))),
                ("Content-Type"@, "application/json"@),
            ],
            r.body.deep_view() == Some(content@),
            r.status == self.status,
            r.protocol_version@ == self.protocol_version@,
    {
        Self::content(self, content, "application/json")
    }

    /// Serializes this response to wire form, as `response_render`
    /// describes.
    pub fn serialize(&self) -> (r: String)
        ensures
            r@ == response_render(
                self.protocol_version@,
                self.status,
                self.header.deep_view(),
                self.body.deep_view(),
            ),
    {
        let mut r = self.protocol_version.clone();
        r.append(" ");
        let st = self.status.render();
        r.append(st.as_str());
        r.append("\r\n");
        let hdrs = render_headers_from(&self.header, 0);
        r.append(hdrs.as_str());
        r.append("\r\n");
        match &self.body {
            Some(b) => {
                r.append(b.as_str());
            },
            None => {},
        }
        proof {
            reveal_strlit(" ");
            reveal_strlit("\r\n");
            assert(self.header.deep_view().skip(0) =~~= self.header.deep_view());
            assert(r@ =~= response_render(
                self.protocol_version@,
                self.status,
                self.header.deep_view(),
                self.body.deep_view(),
            ));
        }
        r
    }
}

} // verus!
