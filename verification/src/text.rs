//! Character-sequence utilities shared by the message grammar: finding and
//! splitting on separators, joining segments back together, stripping
//! optional whitespace, and rendering decimal numbers.

use vstd::prelude::*;
use vstd::string::*;

verus! {

/// The byte length of `s`, exactly as `str::len` reports it.
pub open spec fn byte_len(s: &str) -> int {
    (s.spec_bytes().len() as usize) as int
}

/// The CRLF line terminator, as a character sequence.
pub open spec fn crlf_seq() -> Seq<char> {
    seq!['\r', '\n']
}

/// The characters treated as whitespace when optional whitespace (OWS) is
/// stripped around a header field value: the Unicode white-space set.
pub open spec fn is_ws(c: char) -> bool {
    c == ' ' || c == '\u{9}' || c == '\u{a}' || c == '\u{b}' || c == '\u{c}' || c == '\u{d}'
        || c == '\u{85}' || c == '\u{a0}' || c == '\u{1680}' || c == '\u{2000}' || c == '\u{2001}'
        || c == '\u{2002}' || c == '\u{2003}' || c == '\u{2004}' || c == '\u{2005}'
        || c == '\u{2006}' || c == '\u{2007}' || c == '\u{2008}' || c == '\u{2009}'
        || c == '\u{200a}' || c == '\u{2028}' || c == '\u{2029}' || c == '\u{202f}'
        || c == '\u{205f}' || c == '\u{3000}'
}

/// Whether `c` counts as whitespace for OWS stripping.
pub fn is_ws_char(c: char) -> (b: bool)
    ensures
        b == is_ws(c),
{
    c == ' ' || c == '\u{9}' || c == '\u{a}' || c == '\u{b}' || c == '\u{c}' || c == '\u{d}'
        || c == '\u{85}' || c == '\u{a0}' || c == '\u{1680}' || c == '\u{2000}' || c == '\u{2001}'
        || c == '\u{2002}' || c == '\u{2003}' || c == '\u{2004}' || c == '\u{2005}'
        || c == '\u{2006}' || c == '\u{2007}' || c == '\u{2008}' || c == '\u{2009}'
        || c == '\u{200a}' || c == '\u{2028}' || c == '\u{2029}' || c == '\u{202f}'
        || c == '\u{205f}' || c == '\u{3000}'
}

/// Index of the first occurrence of `c` in `s` at or after `i`, or -1 when
/// there is none.
pub open spec fn find_char_from(s: Seq<char>, c: char, i: int) -> int
    decreases s.len() - i,
{
    if i < 0 || i >= s.len() {
        -1
    } else if s[i] == c {
        i
    } else {
        find_char_from(s, c, i + 1)
    }
}

/// Index of the first CRLF pair in `s` at or after `i`, or -1 when there is
/// none.
pub open spec fn find_crlf_from(s: Seq<char>, i: int) -> int
    decreases s.len() - i,
{
    if i < 0 || i + 1 >= s.len() {
        -1
    } else if s[i] == '\r' && s[i + 1] == '\n' {
        i
    } else {
        find_crlf_from(s, i + 1)
    }
}

/// Whether `s` holds `c` anywhere.
pub open spec fn contains_char(s: Seq<char>, c: char) -> bool {
    exists|i: int| 0 <= i < s.len() && s[i] == c
}

/// Whether `s` holds a CRLF pair anywhere.
pub open spec fn contains_crlf(s: Seq<char>) -> bool {
    exists|i: int| 0 <= i && i + 1 < s.len() && s[i] == '\r' && #[trigger] s[i + 1] == '\n'
}

/// What `find_char_from` finds: the first match at or after `i`, or -1 when
/// no position at or after `i` matches.
pub proof fn lemma_find_char_from(s: Seq<char>, c: char, i: int)
    requires
        0 <= i,
    ensures
        find_char_from(s, c, i) == -1 ==> forall|j: int| i <= j < s.len() ==> s[j] != c,
        find_char_from(s, c, i) >= 0 ==> i <= find_char_from(s, c, i) < s.len()
            && s[find_char_from(s, c, i)] == c && forall|j: int|
            i <= j < find_char_from(s, c, i) ==> s[j] != c,
    decreases s.len() - i,
{
    if i < s.len() && s[i] != c {
        lemma_find_char_from(s, c, i + 1);
    }
}

/// What `find_crlf_from` finds: the first CRLF pair at or after `i`, or -1
/// when no position at or after `i` starts one.
pub proof fn lemma_find_crlf_from(s: Seq<char>, i: int)
    requires
        0 <= i,
    ensures
        find_crlf_from(s, i) == -1 ==> forall|j: int|
            i <= j && j + 1 < s.len() ==> !(s[j] == '\r' && #[trigger] s[j + 1] == '\n'),
        find_crlf_from(s, i) >= 0 ==> i <= find_crlf_from(s, i)
            && find_crlf_from(s, i) + 1 < s.len() && s[find_crlf_from(s, i)] == '\r'
            && s[find_crlf_from(s, i) + 1] == '\n' && forall|j: int|
            i <= j < find_crlf_from(s, i) ==> !(s[j] == '\r' && #[trigger] s[j + 1] == '\n'),
    decreases s.len() - i,
{
    if i + 1 < s.len() && !(s[i] == '\r' && s[i + 1] == '\n') {
        lemma_find_crlf_from(s, i + 1);
    }
}

/// The segments of `s` between successive CRLF separators, in order, as
/// `str::split("\r\n")` yields them; always at least one segment.
pub open spec fn split_crlf(s: Seq<char>) -> Seq<Seq<char>>
    decreases s.len(),
{
    let p = find_crlf_from(s, 0);
    if 0 <= p && p + 2 <= s.len() {
        seq![s.subrange(0, p)] + split_crlf(s.subrange(p + 2, s.len() as int))
    } else {
        seq![s]
    }
}

/// The segments of `s` between successive occurrences of `c`, in order, as
/// `str::split` with a one-character pattern yields them; always at least
/// one segment.
pub open spec fn split_char(s: Seq<char>, c: char) -> Seq<Seq<char>>
    decreases s.len(),
{
    let p = find_char_from(s, c, 0);
    if 0 <= p && p < s.len() {
        seq![s.subrange(0, p)] + split_char(s.subrange(p + 1, s.len() as int), c)
    } else {
        seq![s]
    }
}

/// Splitting always yields at least one segment.
pub proof fn lemma_split_crlf_len(s: Seq<char>)
    ensures
        split_crlf(s).len() >= 1,
{
}

/// Splitting always yields at least one segment.
pub proof fn lemma_split_char_len(s: Seq<char>, c: char)
    ensures
        split_char(s, c).len() >= 1,
{
}

/// `find_char_from` finds `p` when `p` is the first match at or after `k`.
pub proof fn lemma_find_char_from_hit(s: Seq<char>, c: char, k: int, p: int)
    requires
        0 <= k <= p < s.len(),
        s[p] == c,
        forall|j: int| k <= j < p ==> s[j] != c,
    ensures
        find_char_from(s, c, k) == p,
    decreases p - k,
{
    if k < p {
        lemma_find_char_from_hit(s, c, k + 1, p);
    }
}

/// `find_crlf_from` finds `p` when `p` starts the first CRLF pair at or
/// after `k`.
pub proof fn lemma_find_crlf_from_hit(s: Seq<char>, k: int, p: int)
    requires
        0 <= k <= p,
        p + 1 < s.len(),
        s[p] == '\r',
        s[p + 1] == '\n',
        forall|j: int| k <= j < p ==> !(s[j] == '\r' && #[trigger] s[j + 1] == '\n'),
    ensures
        find_crlf_from(s, k) == p,
    decreases p - k,
{
    if k < p {
        lemma_find_crlf_from_hit(s, k + 1, p);
    }
}

/// A segment free of the separator splits into itself alone.
pub proof fn lemma_split_char_single(s: Seq<char>, c: char)
    requires
        !contains_char(s, c),
    ensures
        split_char(s, c) == seq![s],
{
    lemma_find_char_from(s, c, 0);
    if find_char_from(s, c, 0) >= 0 {
        assert(contains_char(s, c));
    }
}

/// A separator-free segment followed by the separator splits off as the
/// first piece.
pub proof fn lemma_split_char_concat(a: Seq<char>, rest: Seq<char>, c: char)
    requires
        !contains_char(a, c),
    ensures
        split_char(a + seq![c] + rest, c) == seq![a] + split_char(rest, c),
{
    let s = a + seq![c] + rest;
    let p = a.len() as int;
    assert(s[p] == c);
    assert(forall|j: int| 0 <= j < p ==> s[j] == a[j]);
    assert(forall|j: int| 0 <= j < p ==> s[j] != c) by {
        assert(forall|j: int| 0 <= j < p && s[j] == c ==> contains_char(a, c));
    }
    lemma_find_char_from_hit(s, c, 0, p);
    assert(s.subrange(0, p) =~= a);
    assert(s.subrange(p + 1, s.len() as int) =~= rest);
}

/// A segment free of CRLF pairs splits into itself alone.
pub proof fn lemma_split_crlf_single(s: Seq<char>)
    requires
        !contains_crlf(s),
    ensures
        split_crlf(s) == seq![s],
{
    lemma_find_crlf_from(s, 0);
    if find_crlf_from(s, 0) >= 0 {
        assert(contains_crlf(s));
    }
}

/// A CRLF-free segment followed by a CRLF splits off as the first piece.
pub proof fn lemma_split_crlf_concat(a: Seq<char>, rest: Seq<char>)
    requires
        !contains_crlf(a),
    ensures
        split_crlf(a + crlf_seq() + rest) == seq![a] + split_crlf(rest),
{
    let s = a + crlf_seq() + rest;
    let p = a.len() as int;
    assert(s[p] == '\r' && s[p + 1] == '\n');
    assert(forall|j: int| 0 <= j < p ==> s[j] == a[j]);
    assert(forall|j: int| 0 <= j < p ==> !(s[j] == '\r' && #[trigger] s[j + 1] == '\n')) by {
        assert(forall|j: int|
            0 <= j && j + 1 < p && s[j] == '\r' && #[trigger] s[j + 1] == '\n'
                ==> contains_crlf(a));
        assert(p > 0 ==> s[p - 1 + 1] == '\r');
    }
    lemma_find_crlf_from_hit(s, 0, p);
    assert(s.subrange(0, p) =~= a);
    assert(s.subrange(p + 2, s.len() as int) =~= rest);
}

/// Joining the segments that splitting produced gives back the original
/// character sequence.
pub proof fn lemma_join_split_crlf(s: Seq<char>)
    ensures
        join_crlf(split_crlf(s)) == s,
    decreases s.len(),
{
    let p = find_crlf_from(s, 0);
    if 0 <= p && p + 2 <= s.len() {
        let pre = s.subrange(0, p);
        let suf = s.subrange(p + 2, s.len() as int);
        lemma_join_split_crlf(suf);
        lemma_split_crlf_len(suf);
        lemma_find_crlf_from(s, 0);
        let parts = seq![pre] + split_crlf(suf);
        assert(parts[0] == pre);
        assert(parts.drop_first() =~~= split_crlf(suf));
        assert(pre + crlf_seq() + suf =~= s);
    }
}

/// `parts` joined back together with a CRLF between successive segments.
pub open spec fn join_crlf(parts: Seq<Seq<char>>) -> Seq<char>
    decreases parts.len(),
{
    if parts.len() == 0 {
        Seq::empty()
    } else if parts.len() == 1 {
        parts[0]
    } else {
        parts[0] + crlf_seq() + join_crlf(parts.drop_first())
    }
}

/// At most one leading whitespace character removed.
pub open spec fn strip_front(v: Seq<char>) -> Seq<char> {
    if v.len() > 0 && is_ws(v[0]) {
        v.drop_first()
    } else {
        v
    }
}

/// At most one trailing whitespace character removed.
pub open spec fn strip_back(v: Seq<char>) -> Seq<char> {
    if v.len() > 0 && is_ws(v.last()) {
        v.drop_last()
    } else {
        v
    }
}

/// One layer of optional whitespace stripped: at most one whitespace
/// character from the front, then at most one from the back.
pub open spec fn strip_ows(v: Seq<char>) -> Seq<char> {
    strip_back(strip_front(v))
}

/// First index of `c` in `s`, if any.
pub fn find_char(s: &str, c: char) -> (r: Option<usize>)
    ensures
        match r {
            Some(p) => find_char_from(s@, c, 0) == p as int && p < s@.len(),
            None => find_char_from(s@, c, 0) == -1,
        },
{
    let n: usize = s.unicode_len();
    let mut i: usize = 0;
    while i < n
        invariant
            i <= n,
            n == s@.len(),
            find_char_from(s@, c, 0) == find_char_from(s@, c, i as int),
        decreases n - i,
    {
        if s.get_char(i) == c {
            return Some(i);
        }
        i = i + 1;
    }
    None
}

/// First index at which a CRLF pair starts in `s`, if any.
pub fn find_crlf(s: &str) -> (r: Option<usize>)
    ensures
        match r {
            Some(p) => find_crlf_from(s@, 0) == p as int && p + 1 < s@.len(),
            None => find_crlf_from(s@, 0) == -1,
        },
{
    let n: usize = s.unicode_len();
    if n < 2 {
        return None;
    }
    let mut i: usize = 0;
    while i < n - 1
        invariant
            2 <= n,
            i <= n - 1,
            n == s@.len(),
            find_crlf_from(s@, 0) == find_crlf_from(s@, i as int),
        decreases n - i,
    {
        if s.get_char(i) == '\r' && s.get_char(i + 1) == '\n' {
            return Some(i);
        }
        i = i + 1;
    }
    None
}

/// Splits `s` at every CRLF pair, as `str::split("\r\n")` does.
pub fn split_crlf_exec(s: &str) -> (r: Vec<String>)
    ensures
        r.deep_view() == split_crlf(s@),
    decreases s@.len(),
{
    match find_crlf(s) {
        None => {
            let mut v: Vec<String> = Vec::new();
            v.push(String::from_str(s));
            proof {
                assert(v.deep_view() =~~= split_crlf(s@));
            }
            v
        },
        Some(p) => {
            let n: usize = s.unicode_len();
            let head = s.substring_char(0, p);
            let rest = s.substring_char(p + 2, n);
            let mut v = split_crlf_exec(rest);
            v.insert(0, String::from_str(head));
            proof {
                assert(v.deep_view() =~~= split_crlf(s@));
            }
            v
        },
    }
}

/// Splits `s` at every occurrence of `c`, as `str::split(c)` does.
pub fn split_char_exec(s: &str, c: char) -> (r: Vec<String>)
    ensures
        r.deep_view() == split_char(s@, c),
    decreases s@.len(),
{
    match find_char(s, c) {
        None => {
            let mut v: Vec<String> = Vec::new();
            v.push(String::from_str(s));
            proof {
                assert(v.deep_view() =~~= split_char(s@, c));
            }
            v
        },
        Some(p) => {
            let n: usize = s.unicode_len();
            let head = s.substring_char(0, p);
            let rest = s.substring_char(p + 1, n);
            let mut v = split_char_exec(rest, c);
            v.insert(0, String::from_str(head));
            proof {
                assert(v.deep_view() =~~= split_char(s@, c));
            }
            v
        },
    }
}

/// Joins the segments of `parts` from index `from` on with CRLF separators;
/// the empty string when nothing remains.
pub fn join_crlf_from(parts: &Vec<String>, from: usize) -> (r: String)
    requires
        from <= parts@.len(),
    ensures
        r@ == join_crlf(parts.deep_view().subrange(from as int, parts.deep_view().len() as int)),
    decreases parts@.len() - from,
{
    let n: usize = parts.len();
    if from >= n {
        let r = String::new();
        proof {
            assert(r@ =~= join_crlf(
                parts.deep_view().subrange(from as int, parts.deep_view().len() as int),
            ));
        }
        r
    } else if from == n - 1 {
        let r = parts[from].clone();
        proof {
            assert(r@ =~= join_crlf(
                parts.deep_view().subrange(from as int, parts.deep_view().len() as int),
            ));
        }
        r
    } else {
        let mut r = parts[from].clone();
        r.append("\r\n");
        let tail = join_crlf_from(parts, from + 1);
        r.append(tail.as_str());
        proof {
            reveal_strlit("\r\n");
            let dv = parts.deep_view();
            assert(dv.subrange(from as int, n as int).drop_first() =~= dv.subrange(
                from + 1,
                n as int,
            ));
            assert(r@ =~= join_crlf(dv.subrange(from as int, dv.len() as int)));
        }
        r
    }
}

/// Whether two strings hold the same characters.
pub fn str_eq(a: &str, b: &str) -> (r: bool)
    ensures
        r == (a@ == b@),
{
    let n: usize = a.unicode_len();
    if n != b.unicode_len() {
        return false;
    }
    let mut i: usize = 0;
    while i < n
        invariant
            i <= n,
            n == a@.len(),
            n == b@.len(),
            forall|j: int| 0 <= j < i ==> a@[j] == b@[j],
        decreases n - i,
    {
        if a.get_char(i) != b.get_char(i) {
            return false;
        }
        i = i + 1;
    }
    proof {
        assert(a@ =~= b@);
    }
    true
}

/// Strips at most one whitespace character from each end of `s`.
pub fn strip_ows_exec(s: &str) -> (r: String)
    ensures
        r@ == strip_ows(s@),
{
    let n: usize = s.unicode_len();
    let start: usize = if n > 0 && is_ws_char(s.get_char(0)) {
        1
    } else {
        0
    };
    let end: usize = if n > start && is_ws_char(s.get_char(n - 1)) {
        n - 1
    } else {
        n
    };
    let r = String::from_str(s.substring_char(start, end));
    proof {
        assert(r@ =~= strip_ows(s@));
    }
    r
}

/// The decimal digit character for `d`, when `0 <= d <= 9`.
pub open spec fn digit_char(d: int) -> char {
    if d == 0 {
        '0'
    } else if d == 1 {
        '1'
    } else if d == 2 {
        '2'
    } else if d == 3 {
        '3'
    } else if d == 4 {
        '4'
    } else if d == 5 {
        '5'
    } else if d == 6 {
        '6'
    } else if d == 7 {
        '7'
    } else if d == 8 {
        '8'
    } else {
        '9'
    }
}

/// The decimal rendering of `n`, most significant digit first, as
/// `usize::to_string` produces it for non-negative numbers.
pub open spec fn dec_digits(n: int) -> Seq<char>
    decreases n,
{
    if n < 10 {
        seq![digit_char(n)]
    } else {
        dec_digits(n / 10).push(digit_char(n % 10))
    }
}

/// The one-character string for the digit `d`.
fn digit_str(d: usize) -> (r: &'static str)
    requires
        d < 10,
    ensures
        r@ == seq![digit_char(d as int)],
{
    proof {
        reveal_strlit("0");
        reveal_strlit("1");
        reveal_strlit("2");
        reveal_strlit("3");
        reveal_strlit("4");
        reveal_strlit("5");
        reveal_strlit("6");
        reveal_strlit("7");
        reveal_strlit("8");
        reveal_strlit("9");
    }
    if d == 0 {
        "0"
    } else if d == 1 {
        "1"
    } else if d == 2 {
        "2"
    } else if d == 3 {
        "3"
    } else if d == 4 {
        "4"
    } else if d == 5 {
        "5"
    } else if d == 6 {
        "6"
    } else if d == 7 {
        "7"
    } else if d == 8 {
        "8"
    } else {
        "9"
    }
}

/// Renders `n` in decimal, as `usize::to_string` does.
pub fn usize_to_string(n: usize) -> (r: String)
    ensures
        r@ == dec_digits(n as int),
    decreases n,
{
    if n < 10 {
        String::from_str(digit_str(n))
    } else {
        let mut r = usize_to_string(n / 10);
        r.append(digit_str(n % 10));
        proof {
            assert(r@ =~= dec_digits(n as int));
        }
        r
    }
}

} // verus!
