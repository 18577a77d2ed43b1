//! Header field-lines: `field-name ":" OWS field-value OWS`, parsed one
//! line or one whole section at a time, and rendered back to wire form.

use crate::error::Error;
use crate::error::ErrorType;
use crate::text::contains_char;
use crate::text::contains_crlf;
use crate::text::crlf_seq;
use crate::text::find_char;
use crate::text::find_char_from;
use crate::text::is_ws;
use crate::text::lemma_find_char_from;
use crate::text::lemma_find_char_from_hit;
use crate::text::lemma_split_crlf_concat;
use crate::text::split_crlf;
use crate::text::strip_front;
use crate::text::split_crlf_exec;
use crate::text::strip_ows;
use crate::text::strip_ows_exec;
use vstd::prelude::*;
use vstd::string::*;

verus! {

/// One header field-line: a name and a value. The name is kept verbatim;
/// a parsed value carries no surrounding OWS layer.
#[derive(Debug, PartialEq, Eq)]
pub struct Header {
    pub field_name: String,
    pub field_value: String,
}

impl View for Header {
    type V = (Seq<char>, Seq<char>);

    open spec fn view(&self) -> (Seq<char>, Seq<char>) {
        (self.field_name@, self.field_value@)
    }
}

impl DeepView for Header {
    type V = (Seq<char>, Seq<char>);

    open spec fn deep_view(&self) -> (Seq<char>, Seq<char>) {
        self@
    }
}

/// The name/value pair parsed from one field-line, if the line holds a
/// colon: the name is everything before the first colon, the value is
/// everything after it with one layer of OWS stripped.
pub open spec fn field_line_model(line: Seq<char>) -> Option<(Seq<char>, Seq<char>)> {
    let p = find_char_from(line, ':', 0);
    if p < 0 {
        None
    } else {
        Some((line.subrange(0, p), strip_ows(line.subrange(p + 1, line.len() as int))))
    }
}

/// The headers parsed from the given lines, in line order, when every line
/// parses; nothing when any line fails.
pub open spec fn parse_lines(lines: Seq<Seq<char>>) -> Option<Seq<(Seq<char>, Seq<char>)>>
    decreases lines.len(),
{
    if lines.len() == 0 {
        Some(Seq::empty())
    } else {
        match field_line_model(lines[0]) {
            None => None,
            Some(h) => match parse_lines(lines.drop_first()) {
                None => None,
                Some(t) => Some(seq![h] + t),
            },
        }
    }
}

/// Parsing one more line extends the parsed headers by one entry exactly
/// when both the lines so far and the new line parse.
pub proof fn lemma_parse_lines_snoc(lines: Seq<Seq<char>>, x: Seq<char>)
    ensures
        parse_lines(lines.push(x)) == (match (parse_lines(lines), field_line_model(x)) {
            (Some(t), Some(h)) => Some(t.push(h)),
            _ => None,
        }),
    decreases lines.len(),
{
    assert(lines.push(x)[0] == if lines.len() == 0 {
        x
    } else {
        lines[0]
    });
    if lines.len() == 0 {
        assert(lines.push(x).drop_first() =~~= lines);
        if let Some(h) = field_line_model(x) {
            assert(seq![h] + Seq::<(Seq<char>, Seq<char>)>::empty() =~~= Seq::<(
                Seq<char>,
                Seq<char>,
            )>::empty().push(h));
        }
    } else {
        assert(lines.push(x).drop_first() =~~= lines.drop_first().push(x));
        lemma_parse_lines_snoc(lines.drop_first(), x);
        if let (Some(t0), Some(h0)) = (field_line_model(lines[0]), parse_lines(
            lines.drop_first(),
        )) {
            if let Some(h) = field_line_model(x) {
                assert(seq![t0] + h0.push(h) =~~= (seq![t0] + h0).push(h));
            }
        }
    }
}

/// A line sequence holding an unparsable line yields no headers.
pub proof fn lemma_parse_lines_none(lines: Seq<Seq<char>>, j: int)
    requires
        0 <= j < lines.len(),
        field_line_model(lines[j]) is None,
    ensures
        parse_lines(lines) is None,
    decreases j,
{
    if j > 0 && field_line_model(lines[0]) is Some {
        lemma_parse_lines_none(lines.drop_first(), j - 1);
    }
}

/// The wire form of one field-line: `"<name>: <value>\r\n"`.
pub open spec fn render_field_line(h: (Seq<char>, Seq<char>)) -> Seq<char> {
    h.0 + seq![':', ' '] + h.1 + crlf_seq()
}

/// The wire form of a header sequence: each field-line in order.
pub open spec fn render_headers(hs: Seq<(Seq<char>, Seq<char>)>) -> Seq<char>
    decreases hs.len(),
{
    if hs.len() == 0 {
        Seq::empty()
    } else {
        render_field_line(hs[0]) + render_headers(hs.drop_first())
    }
}

impl Header {
    /// Creates a header from a name and a value, both taken verbatim: no
    /// validation, no trimming.
    pub fn new(field_name: &str, field_value: &str) -> (r: Header)
        ensures
            r@ == (field_name@, field_value@),
    {
        Header {
            field_name: String::from_str(field_name),
            field_value: String::from_str(field_value),
        }
    }

    /// Parses one field-line: the part before the first colon is the name,
    /// the part after it, with one layer of OWS stripped, is the value. A
    /// line without a colon is rejected with a parse error.
    pub fn from_field_line(header: &str) -> (r: Result<Header, Error>)
        ensures
            r is Ok <==> field_line_model(header@) is Some,
            r matches Ok(h) ==> Some(h@) == field_line_model(header@),
            r matches Err(e) ==> e.error == ErrorType::ParseError && e.error_msg@
                == "invalid header format"@,
    {
        match find_char(header, ':') {
            None => Err(Error::parse_error("invalid header format")),
            Some(p) => {
                let n: usize = header.unicode_len();
                let name = header.substring_char(0, p);
                let value = strip_ows_exec(header.substring_char(p + 1, n));
                Ok(Header { field_name: String::from_str(name), field_value: value })
            },
        }
    }

    /// Parses a whole CRLF-separated header section line by line, keeping
    /// line order; the first bad line rejects the whole section.
    pub fn from_section(header_section: String) -> (r: Result<Vec<Header>, Error>)
        ensures
            r is Ok <==> parse_lines(split_crlf(header_section@)) is Some,
            r matches Ok(v) ==> Some(v.deep_view()) == parse_lines(split_crlf(header_section@)),
            r matches Err(e) ==> e.error == ErrorType::ParseError && e.error_msg@
                == "invalid header format"@,
    {
        let lines = split_crlf_exec(header_section.as_str());
        let ghost lv = lines.deep_view();
        let mut headers: Vec<Header> = Vec::new();
        let mut i: usize = 0;
        let n: usize = lines.len();
        proof {
            assert(lv.skip(0) =~~= lv);
            if let Some(t) = parse_lines(lv) {
                assert(headers.deep_view() + t =~~= t);
            }
        }
        while i < n
            invariant
                i <= n,
                n == lv.len(),
                lv == lines.deep_view(),
                lv == split_crlf(header_section@),
                parse_lines(lv) is Some <==> parse_lines(lv.skip(i as int)) is Some,
                parse_lines(lv.skip(i as int)) matches Some(t) ==> parse_lines(lv) == Some(
                    headers.deep_view() + t,
                ),
            decreases n - i,
        {
            proof {
                assert(lv.skip(i as int)[0] == lv[i as int]);
                assert(lv.skip(i as int).drop_first() =~~= lv.skip(i + 1));
            }
            match Self::from_field_line(lines[i].as_str()) {
                Err(e) => {
                    return Err(e);
                },
                Ok(h) => {
                    let ghost old_dv = headers.deep_view();
                    headers.push(h);
                    proof {
                        assert(headers.deep_view() =~~= old_dv.push(h@));
                        assert(parse_lines(lv.skip(i + 1)) matches Some(t) ==> parse_lines(lv)
                            == Some(headers.deep_view() + t)) by {
                            if let Some(t) = parse_lines(lv.skip(i + 1)) {
                                assert(old_dv + (seq![h@] + t) =~~= old_dv.push(h@) + t);
                            }
                        }
                    }
                },
            }
            i = i + 1;
        }
        proof {
            assert(lv.skip(n as int) =~~= Seq::<Seq<char>>::empty());
            assert(headers.deep_view() + Seq::<(Seq<char>, Seq<char>)>::empty() =~~= headers.deep_view());
        }
        Ok(headers)
    }

    /// Renders this header as a field-line with its CRLF terminator.
    pub fn render(&self) -> (r: String)
        ensures
            r@ == render_field_line(self@),
    {
        let mut r = self.field_name.clone();
        r.append(": ");
        r.append(self.field_value.as_str());
        r.append("\r\n");
        proof {
            reveal_strlit(": ");
            reveal_strlit("\r\n");
            assert(r@ =~= render_field_line(self@));
        }
        r
    }
}

/// One field-line without its CRLF terminator: `"<name>: <value>"`.
pub open spec fn line_of(h: (Seq<char>, Seq<char>)) -> Seq<char> {
    h.0 + seq![':', ' '] + h.1
}

/// Wire-safe header: the name holds no colon and no CRLF pair, the value
/// holds no CRLF pair and does not end in a whitespace character.
pub open spec fn wf_header(h: (Seq<char>, Seq<char>)) -> bool {
    &&& !contains_char(h.0, ':')
    &&& !contains_crlf(h.0)
    &&& !contains_crlf(h.1)
    &&& (h.1.len() > 0 ==> !is_ws(h.1.last()))
}

/// For every field-line `"<name>: <value> "` — one space on each side of
/// the value — parsing returns the name and the value with exactly those
/// two spaces stripped, whenever the name holds no colon.
pub proof fn lemma_field_line_strips_ows(name: Seq<char>, value: Seq<char>)
    requires
        !contains_char(name, ':'),
    ensures
        field_line_model(name + seq![':', ' '] + value + seq![' ']) == Some((name, value)),
{
    let line = name + seq![':', ' '] + value + seq![' '];
    let p = name.len() as int;
    assert(line[p] == ':');
    assert(forall|j: int| 0 <= j < p ==> line[j] == name[j]);
    assert(forall|j: int| 0 <= j < p ==> line[j] != ':') by {
        assert(forall|j: int| 0 <= j < p && line[j] == ':' ==> contains_char(name, ':'));
    }
    lemma_find_char_from_hit(line, ':', 0, p);
    assert(line.subrange(0, p) =~= name);
    let side = line.subrange(p + 1, line.len() as int);
    assert(side =~= seq![' '] + value + seq![' ']);
    assert(is_ws(side[0]));
    assert(strip_front(side) =~= value + seq![' ']);
    assert(is_ws(strip_front(side).last()));
    assert(strip_ows(side) =~= value);
}

/// Parsing back a rendered field-line (without its CRLF terminator) of a
/// wire-safe header gives the header back unchanged.
pub proof fn lemma_field_line_round_trip(name: Seq<char>, value: Seq<char>)
    requires
        !contains_char(name, ':'),
        value.len() > 0 ==> !is_ws(value.last()),
    ensures
        field_line_model(line_of((name, value))) == Some((name, value)),
{
    let line = line_of((name, value));
    let p = name.len() as int;
    assert(line[p] == ':');
    assert(forall|j: int| 0 <= j < p ==> line[j] == name[j]);
    assert(forall|j: int| 0 <= j < p ==> line[j] != ':') by {
        assert(forall|j: int| 0 <= j < p && line[j] == ':' ==> contains_char(name, ':'));
    }
    lemma_find_char_from_hit(line, ':', 0, p);
    assert(line.subrange(0, p) =~= name);
    let side = line.subrange(p + 1, line.len() as int);
    assert(side =~= seq![' '] + value);
    assert(is_ws(side[0]));
    assert(strip_front(side) =~= value);
    assert(strip_ows(side) =~= value);
}

/// A line holding no colon at all is rejected.
pub proof fn lemma_field_line_no_colon(line: Seq<char>)
    requires
        !contains_char(line, ':'),
    ensures
        field_line_model(line) is None,
{
    lemma_find_char_from(line, ':', 0);
    if find_char_from(line, ':', 0) >= 0 {
        assert(contains_char(line, ':'));
    }
}

/// The rendered line of a wire-safe header holds no CRLF pair and is not
/// empty.
pub proof fn lemma_line_of_plain(h: (Seq<char>, Seq<char>))
    requires
        wf_header(h),
    ensures
        !contains_crlf(line_of(h)),
        line_of(h).len() > 0,
{
    let line = line_of(h);
    let n0 = h.0.len() as int;
    assert forall|j: int|
        0 <= j && j + 1 < line.len() implies !(line[j] == '\r' && #[trigger] line[j + 1]
        == '\n') by {
        if j + 1 < n0 {
            assert(line[j] == h.0[j] && line[j + 1] == h.0[j + 1]);
            if line[j] == '\r' && line[j + 1] == '\n' {
                assert(contains_crlf(h.0));
            }
        } else if j < n0 {
            assert(line[j + 1] == if j + 1 == n0 {
                ':'
            } else {
                ' '
            });
        } else if j == n0 {
            assert(line[j] == ':');
        } else if j == n0 + 1 {
            assert(line[j] == ' ');
        } else {
            let i = j - n0 - 2;
            assert(line[j] == h.1[i] && line[j + 1] == h.1[i + 1]);
            if line[j] == '\r' && line[j + 1] == '\n' {
                assert(h.1[i] == '\r' && h.1[i + 1] == '\n');
                assert(contains_crlf(h.1));
            }
        }
    }
}

/// Every wire-safe header sequence, rendered as field-lines and followed by
/// `tail`, splits into one segment per header and then the segments of
/// `tail`.
pub proof fn lemma_split_render_headers(hs: Seq<(Seq<char>, Seq<char>)>, tail: Seq<char>)
    requires
        forall|k: int| 0 <= k < hs.len() ==> wf_header(#[trigger] hs[k]),
    ensures
        split_crlf(render_headers(hs) + tail) == hs.map_values(
            |h: (Seq<char>, Seq<char>)| line_of(h),
        ) + split_crlf(tail),
    decreases hs.len(),
{
    let lines = hs.map_values(|h: (Seq<char>, Seq<char>)| line_of(h));
    if hs.len() == 0 {
        assert(render_headers(hs) + tail =~= tail);
        assert(lines + split_crlf(tail) =~~= split_crlf(tail));
    } else {
        let h0 = hs[0];
        lemma_line_of_plain(h0);
        assert(render_headers(hs) + tail =~= line_of(h0) + crlf_seq() + (render_headers(
            hs.drop_first(),
        ) + tail));
        lemma_split_crlf_concat(line_of(h0), render_headers(hs.drop_first()) + tail);
        lemma_split_render_headers(hs.drop_first(), tail);
        assert(hs.drop_first().map_values(|h: (Seq<char>, Seq<char>)| line_of(h))
            =~~= lines.drop_first());
        assert(seq![line_of(h0)] + (lines.drop_first() + split_crlf(tail)) =~~= lines + split_crlf(
            tail,
        ));
    }
}

/// Parsing back the rendered lines of wire-safe headers gives the headers
/// back unchanged, in order.
pub proof fn lemma_parse_rendered_lines(hs: Seq<(Seq<char>, Seq<char>)>)
    requires
        forall|k: int| 0 <= k < hs.len() ==> wf_header(#[trigger] hs[k]),
    ensures
        parse_lines(hs.map_values(|h: (Seq<char>, Seq<char>)| line_of(h))) == Some(hs),
    decreases hs.len(),
{
    let lines = hs.map_values(|h: (Seq<char>, Seq<char>)| line_of(h));
    if hs.len() == 0 {
        assert(lines.len() == 0);
        assert(Seq::<(Seq<char>, Seq<char>)>::empty() =~~= hs);
    } else {
        let h0 = hs[0];
        lemma_field_line_round_trip(h0.0, h0.1);
        assert((h0.0, h0.1) == h0);
        assert(lines[0] == line_of(h0));
        lemma_parse_rendered_lines(hs.drop_first());
        assert(lines.drop_first() =~~= hs.drop_first().map_values(
            |h: (Seq<char>, Seq<char>)| line_of(h),
        ));
        assert(seq![h0] + hs.drop_first() =~~= hs);
    }
}

/// Renders the headers of `headers` from index `from` on, as concatenated
/// field-lines.
pub fn render_headers_from(headers: &Vec<Header>, from: usize) -> (r: String)
    requires
        from <= headers@.len(),
    ensures
        r@ == render_headers(headers.deep_view().skip(from as int)),
    decreases headers@.len() - from,
{
    if from >= headers.len() {
        let r = String::new();
        proof {
            assert(r@ =~= render_headers(headers.deep_view().skip(from as int)));
        }
        r
    } else {
        let mut r = headers[from].render();
        let tail = render_headers_from(headers, from + 1);
        r.append(tail.as_str());
        proof {
            assert(headers.deep_view().skip(from as int)[0] == headers.deep_view()[from as int]);
            assert(headers.deep_view().skip(from as int).drop_first() =~~= headers.deep_view().skip(
                from + 1,
            ));
            assert(r@ =~= render_headers(headers.deep_view().skip(from as int)));
        }
        r
    }
}

} // verus!
