//! Request messages: a request-line, a header section, and an optional
//! body, parsed from one CRLF-separated buffer and serialized back.

use crate::error::Error;
use crate::error::ErrorType;
use crate::header::lemma_line_of_plain;
use crate::header::lemma_parse_lines_none;
use crate::header::lemma_parse_lines_snoc;
use crate::header::lemma_parse_rendered_lines;
use crate::header::lemma_split_render_headers;
use crate::header::line_of;
use crate::header::parse_lines;
use crate::header::render_headers;
use crate::header::render_headers_from;
use crate::header::wf_header;
use crate::header::Header;
use crate::method::lemma_method_token_plain;
use crate::method::lemma_method_token_round_trip;
use crate::method::method_from_token;
use crate::method::method_token;
use crate::method::Method;
use crate::text::contains_char;
use crate::text::contains_crlf;
use crate::text::crlf_seq;
use crate::text::join_crlf;
use crate::text::join_crlf_from;
use crate::text::lemma_join_split_crlf;
use crate::text::lemma_split_char_concat;
use crate::text::lemma_split_char_len;
use crate::text::lemma_split_char_single;
use crate::text::lemma_split_crlf_concat;
use crate::text::lemma_split_crlf_len;
use crate::text::lemma_split_crlf_single;
use crate::text::split_char;
use crate::text::split_char_exec;
use crate::text::split_crlf;
use crate::text::split_crlf_exec;
use vstd::prelude::*;
use vstd::string::*;

verus! {

/// The mathematical content of a request: the method together with the
/// character sequences of the remaining parts.
#[verifier::ext_equal]
pub struct RequestModel {
    pub method: Method,
    pub request_target: Seq<char>,
    pub protocol_version: Seq<char>,
    pub header: Seq<(Seq<char>, Seq<char>)>,
    pub body: Option<Seq<char>>,
}

/// A parsed request: `method SP request-target SP protocol-version` from
/// the request-line, the headers in line order, and the body, when one
/// followed the blank line, verbatim.
#[derive(Debug, PartialEq, Eq)]
pub struct Request {
    pub method: Method,
    pub request_target: String,
    pub protocol_version: String,
    pub header: Vec<Header>,
    pub body: Option<String>,
}

impl View for Request {
    type V = RequestModel;

    open spec fn view(&self) -> RequestModel {
        RequestModel {
            method: self.method,
            request_target: self.request_target@,
            protocol_version: self.protocol_version@,
            header: self.header.deep_view(),
            body: self.body.deep_view(),
        }
    }
}

/// First index at or after `i` whose segment is empty, or `parts.len()`
/// when none is.
pub open spec fn first_empty_from(parts: Seq<Seq<char>>, i: int) -> int
    decreases parts.len() - i,
{
    if i < 0 || i >= parts.len() {
        parts.len() as int
    } else if parts[i].len() == 0 {
        i
    } else {
        first_empty_from(parts, i + 1)
    }
}

/// What `first_empty_from` finds: the first empty segment at or after `i`,
/// within bounds, with everything before it non-empty.
pub proof fn lemma_first_empty_from(parts: Seq<Seq<char>>, i: int)
    requires
        0 <= i <= parts.len(),
    ensures
        i <= first_empty_from(parts, i) <= parts.len(),
        first_empty_from(parts, i) < parts.len() ==> parts[first_empty_from(parts, i)].len() == 0,
        forall|j: int| i <= j < first_empty_from(parts, i) ==> parts[j].len() > 0,
    decreases parts.len() - i,
{
    if i < parts.len() && parts[i].len() != 0 {
        lemma_first_empty_from(parts, i + 1);
    }
}

/// The space-separated tokens of the start-line of `buffer`.
pub open spec fn start_tokens(buffer: Seq<char>) -> Seq<Seq<char>> {
    split_char(split_crlf(buffer)[0], ' ')
}

/// Whether the start-line of `buffer` parses as a request-line: exactly
/// three space-separated tokens, the first a canonical method token.
pub open spec fn request_line_ok(buffer: Seq<char>) -> bool {
    start_tokens(buffer).len() == 3 && method_from_token(start_tokens(buffer)[0]) is Some
}

/// The request parsed from `buffer`: the first CRLF-separated line is the
/// request-line; the following lines up to the first empty line are header
/// field-lines; whatever follows that empty line, rejoined on CRLF, is the
/// body. Nothing when the request-line or any header line is malformed.
pub open spec fn request_model(buffer: Seq<char>) -> Option<RequestModel> {
    let parts = split_crlf(buffer);
    let toks = start_tokens(buffer);
    if toks.len() != 3 {
        None
    } else {
        match method_from_token(toks[0]) {
            None => None,
            Some(m) => {
                let e = first_empty_from(parts, 1);
                match parse_lines(parts.subrange(1, e)) {
                    None => None,
                    Some(hs) => Some(
                        RequestModel {
                            method: m,
                            request_target: toks[1],
                            protocol_version: toks[2],
                            header: hs,
                            body: if e + 1 < parts.len() {
                                Some(join_crlf(parts.subrange(e + 1, parts.len() as int)))
                            } else {
                                None
                            },
                        },
                    ),
                }
            },
        }
    }
}

/// The wire form of a request: the request-line with its CRLF, each header
/// field-line, and, when a body is present, a blank line and the body
/// verbatim.
pub open spec fn request_render(m: RequestModel) -> Seq<char> {
    method_token(m.method) + seq![' '] + m.request_target + seq![' '] + m.protocol_version
        + crlf_seq() + render_headers(m.header) + (match m.body {
        Some(b) => crlf_seq() + b,
        None => Seq::<char>::empty(),
    })
}

/// The request-line built from a method and the target and version tokens:
/// `method SP request-target SP HTTP-version`.
pub open spec fn request_line_of(method: Method, target: Seq<char>, version: Seq<char>) -> Seq<
    char,
> {
    method_token(method) + seq![' '] + target + seq![' '] + version
}

/// Wire-safe request: target and version hold no space and no CRLF pair,
/// and every header is wire-safe.
pub open spec fn wf_request(m: RequestModel) -> bool {
    &&& !contains_char(m.request_target, ' ')
    &&& !contains_crlf(m.request_target)
    &&& !contains_char(m.protocol_version, ' ')
    &&& !contains_crlf(m.protocol_version)
    &&& (forall|k: int| 0 <= k < m.header.len() ==> wf_header(#[trigger] m.header[k]))
}

/// A request-line built from CRLF-free tokens holds no CRLF pair.
proof fn lemma_request_line_plain(method: Method, target: Seq<char>, version: Seq<char>)
    requires
        !contains_crlf(target),
        !contains_crlf(version),
    ensures
        !contains_crlf(request_line_of(method, target, version)),
{
    lemma_method_token_plain(method);
    let tok = method_token(method);
    let line = request_line_of(method, target, version);
    let n0 = tok.len() as int;
    let n1 = target.len() as int;
    assert forall|j: int|
        0 <= j && j + 1 < line.len() implies !(line[j] == '\r' && #[trigger] line[j + 1]
        == '\n') by {
        if j + 1 < n0 {
            assert(line[j] == tok[j] && line[j + 1] == tok[j + 1]);
            if line[j] == '\r' && line[j + 1] == '\n' {
                assert(contains_crlf(tok));
            }
        } else if j < n0 {
            assert(line[j + 1] == ' ');
        } else if j == n0 {
            assert(line[j] == ' ');
        } else if j + 1 < n0 + 1 + n1 {
            let i = j - n0 - 1;
            assert(line[j] == target[i] && line[j + 1] == target[i + 1]);
            if line[j] == '\r' && line[j + 1] == '\n' {
                assert(target[i] == '\r' && target[i + 1] == '\n');
                assert(contains_crlf(target));
            }
        } else if j < n0 + 1 + n1 {
            assert(line[j + 1] == ' ');
        } else if j == n0 + 1 + n1 {
            assert(line[j] == ' ');
        } else {
            let i = j - n0 - 2 - n1;
            assert(line[j] == version[i] && line[j + 1] == version[i + 1]);
            if line[j] == '\r' && line[j + 1] == '\n' {
                assert(version[i] == '\r' && version[i + 1] == '\n');
                assert(contains_crlf(version));
            }
        }
    }
}

/// A request-line built from space-free tokens splits back into exactly
/// those three tokens.
proof fn lemma_split_request_line(method: Method, target: Seq<char>, version: Seq<char>)
    requires
        !contains_char(target, ' '),
        !contains_char(version, ' '),
    ensures
        split_char(request_line_of(method, target, version), ' ') == seq![
            method_token(method),
            target,
            version,
        ],
{
    lemma_method_token_plain(method);
    let tok = method_token(method);
    let rest = target + seq![' '] + version;
    assert(request_line_of(method, target, version) =~= tok + seq![' '] + rest);
    lemma_split_char_concat(tok, rest, ' ');
    lemma_split_char_concat(target, version, ' ');
    lemma_split_char_single(version, ' ');
    assert(seq![tok] + (seq![target] + seq![version]) =~~= seq![tok, target, version]);
}

/// `first_empty_from` finds `e` when everything from `i` up to `e` is
/// non-empty and `e` is the end or an empty segment.
proof fn lemma_first_empty_is(parts: Seq<Seq<char>>, i: int, e: int)
    requires
        0 <= i <= e <= parts.len(),
        forall|j: int| i <= j < e ==> #[trigger] parts[j].len() > 0,
        e == parts.len() || parts[e].len() == 0,
    ensures
        first_empty_from(parts, i) == e,
    decreases e - i,
{
    if i < e {
        lemma_first_empty_is(parts, i + 1, e);
    }
}

/// For every method in the closed set and every space- and CRLF-free
/// target and version, parsing the bare request-line alone yields a
/// request with that method, target and version, no headers, and no body.
pub proof fn lemma_parse_request_line_only(method: Method, target: Seq<char>, version: Seq<char>)
    requires
        !contains_char(target, ' '),
        !contains_crlf(target),
        !contains_char(version, ' '),
        !contains_crlf(version),
    ensures
        request_model(request_line_of(method, target, version)) == Some(
            (RequestModel {
                method,
                request_target: target,
                protocol_version: version,
                header: Seq::empty(),
                body: None,
            }),
        ),
{
    let start = request_line_of(method, target, version);
    lemma_request_line_plain(method, target, version);
    lemma_split_crlf_single(start);
    let parts = split_crlf(start);
    assert(parts[0] == start);
    lemma_split_request_line(method, target, version);
    lemma_method_token_round_trip(method);
    assert(first_empty_from(parts, 1) == 1);
    assert(parts.subrange(1, 1) =~~= Seq::<Seq<char>>::empty());
    if let Some(mv) = request_model(start) {
        assert(mv =~~= RequestModel {
            method,
            request_target: target,
            protocol_version: version,
            header: Seq::empty(),
            body: None,
        });
    }
}

/// Round trip: parsing the exact serialization of a wire-safe request
/// reproduces an equal structured value.
pub proof fn lemma_request_round_trip(m: RequestModel)
    requires
        wf_request(m),
    ensures
        request_model(request_render(m)) == Some(m),
{
    let buffer = request_render(m);
    let start = request_line_of(m.method, m.request_target, m.protocol_version);
    let tail = match m.body {
        Some(b) => crlf_seq() + b,
        None => Seq::<char>::empty(),
    };
    let k = m.header.len() as int;
    let lines = m.header.map_values(|h: (Seq<char>, Seq<char>)| line_of(h));
    assert(buffer =~= start + crlf_seq() + (render_headers(m.header) + tail));
    lemma_request_line_plain(m.method, m.request_target, m.protocol_version);
    lemma_split_crlf_concat(start, render_headers(m.header) + tail);
    lemma_split_render_headers(m.header, tail);
    let parts = split_crlf(buffer);
    assert(parts =~~= seq![start] + lines + split_crlf(tail));
    lemma_split_request_line(m.method, m.request_target, m.protocol_version);
    lemma_method_token_round_trip(m.method);
    assert forall|j: int| 1 <= j < 1 + k implies #[trigger] parts[j].len() > 0 by {
        lemma_line_of_plain(m.header[j - 1]);
        assert(parts[j] == lines[j - 1]);
    }
    if m.body is None {
        assert(split_crlf(tail) =~~= seq![Seq::<char>::empty()]);
        assert(parts[1 + k].len() == 0);
        lemma_first_empty_is(parts, 1, 1 + k);
        assert(parts.subrange(1, 1 + k) =~~= lines);
        lemma_parse_rendered_lines(m.header);
        if let Some(mv) = request_model(buffer) {
            assert(mv =~~= m);
        }
    } else {
        let b = m.body->Some_0;
        assert(tail =~= Seq::<char>::empty() + crlf_seq() + b);
        lemma_split_crlf_concat(Seq::<char>::empty(), b);
        lemma_split_crlf_len(b);
        assert(parts[1 + k].len() == 0);
        lemma_first_empty_is(parts, 1, 1 + k);
        assert(parts.subrange(1, 1 + k) =~~= lines);
        lemma_parse_rendered_lines(m.header);
        assert(parts.subrange(1 + k + 1, parts.len() as int) =~~= split_crlf(b));
        lemma_join_split_crlf(b);
        if let Some(mv) = request_model(buffer) {
            assert(mv =~~= m);
        }
    }
}

impl Request {
    /// Parses one request message buffer into a request, as
    /// `request_model` describes; any malformed part rejects the whole
    /// buffer with a single parse error.
    pub fn from_string(request_string: &str) -> (r: Result<Request, Error>)
        ensures
            r is Ok <==> request_model(request_string@) is Some,
            r matches Ok(req) ==> Some(req@) == request_model(request_string@),
            r matches Err(e) ==> e.error == ErrorType::ParseError,
            r matches Err(e) ==> e.error_msg@ == (if request_line_ok(request_string@) {
                "invalid header format"@
            } else {
                "invalid request format"@
            }),
    {
        Self::parse(request_string)
    }

    /// The parsing state machine behind `from_string`.
    fn parse(request_string: &str) -> (r: Result<Request, Error>)
        ensures
            r is Ok <==> request_model(request_string@) is Some,
            r matches Ok(req) ==> Some(req@) == request_model(request_string@),
            r matches Err(e) ==> e.error == ErrorType::ParseError,
            r matches Err(e) ==> e.error_msg@ == (if request_line_ok(request_string@) {
                "invalid header format"@
            } else {
                "invalid request format"@
            }),
    {
        let parts = split_crlf_exec(request_string);
        let ghost pv = parts.deep_view();
        proof {
            lemma_split_crlf_len(request_string@);
        }
        let (method, target, version) = match Self::parse_request_line(parts[0].as_str()) {
            Ok(t) => t,
            Err(_) => return Err(Error::parse_error("invalid request format")),
        };
        let n: usize = parts.len();
        let mut headers: Vec<Header> = Vec::new();
        let mut i: usize = 1;
        proof {
            assert(pv.subrange(1, 1) =~~= Seq::<Seq<char>>::empty());
            assert(headers.deep_view() =~~= Seq::<(Seq<char>, Seq<char>)>::empty());
        }
        while i < n && !parts[i].as_str().is_empty()
            invariant
                1 <= i <= n,
                n == pv.len(),
                pv == parts.deep_view(),
                pv == split_crlf(request_string@),
                request_line_ok(request_string@),
                first_empty_from(pv, 1) == first_empty_from(pv, i as int),
                parse_lines(pv.subrange(1, i as int)) == Some(headers.deep_view()),
            decreases n - i,
        {
            match Header::from_field_line(parts[i].as_str()) {
                Err(e) => {
                    proof {
                        let e0 = first_empty_from(pv, 1);
                        lemma_first_empty_from(pv, i + 1);
                        assert(e0 == first_empty_from(pv, i + 1));
                        lemma_parse_lines_none(pv.subrange(1, e0), i - 1);
                    }
                    return Err(e);
                },
                Ok(h) => {
                    let ghost old_dv = headers.deep_view();
                    headers.push(h);
                    proof {
                        assert(headers.deep_view() =~~= old_dv.push(h@));
                        assert(pv.subrange(1, i + 1) =~~= pv.subrange(1, i as int).push(
                            pv[i as int],
                        ));
                        lemma_parse_lines_snoc(pv.subrange(1, i as int), pv[i as int]);
                    }
                },
            }
            i = i + 1;
        }
        proof {
            lemma_first_empty_from(pv, i as int);
        }
        let body = if n - i > 1 {
            Some(join_crlf_from(&parts, i + 1))
        } else {
            None
        };
        let req = Request {
            method,
            request_target: target,
            protocol_version: version,
            header: headers,
            body,
        };
        proof {
            let m = request_model(request_string@);
            assert(m is Some);
            if let Some(mv) = m {
                assert(req@ =~~= mv);
            }
        }
        Ok(req)
    }

    /// Splits a request-line on single spaces and parses
    /// `method SP request-target SP HTTP-version`: exactly three tokens
    /// are required, and the method token must be a canonical one; any
    /// other shape rejects the line.
    fn parse_request_line(request_line: &str) -> (r: Result<(Method, String, String), Error>)
        ensures
            r is Ok <==> (split_char(request_line@, ' ').len() == 3 && method_from_token(
                split_char(request_line@, ' ')[0],
            ) is Some),
            r matches Ok(t) ==> method_from_token(split_char(request_line@, ' ')[0]) == Some(t.0)
                && t.1@ == split_char(request_line@, ' ')[1] && t.2@ == split_char(
                request_line@,
                ' ',
            )[2],
            r matches Err(e) ==> e.error == ErrorType::ParseError,
    {
        let toks = split_char_exec(request_line, ' ');
        proof {
            lemma_split_char_len(request_line@, ' ');
        }
        let m = match Method::from_string(toks[0].as_str()) {
            Ok(m) => m,
            Err(e) => return Err(e),
        };
        if toks.len() != 3 {
            return Err(Error::parse_error("invalid request-line format"));
        }
        let target = toks[1].clone();
        let version = toks[2].clone();
        Ok((m, target, version))
    }

    /// Serializes this request back to wire form, as `request_render`
    /// describes.
    pub fn serialize(&self) -> (r: String)
        ensures
            r@ == request_render(self@),
    {
        let mut r = String::from_str(self.method.as_token());
        r.append(" ");
        r.append(self.request_target.as_str());
        r.append(" ");
        r.append(self.protocol_version.as_str());
        r.append("\r\n");
        let hdrs = render_headers_from(&self.header, 0);
        r.append(hdrs.as_str());
        match &self.body {
            Some(b) => {
                r.append("\r\n");
                r.append(b.as_str());
            },
            None => {},
        }
        proof {
            reveal_strlit(" ");
            reveal_strlit("\r\n");
            assert(self.header.deep_view().skip(0) =~~= self.header.deep_view());
            assert(r@ =~= request_render(self@));
        }
        r
    }
}

} // verus!
