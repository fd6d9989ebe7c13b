//! Parsing of a raw request: the request line and the header lines after it.
use vstd::prelude::*;
use vstd::slice::slice_to_vec;
use vstd::string::StringExecFns;
use vstd::utf8::{decode_utf8, valid_utf8};

use crate::text::{chars_of, string_from};

verus! {

/// At most this many bytes of a request are read.
pub const MAX_REQUEST_SIZE: usize = 8192;

/// The text that lossy UTF-8 decoding makes of `b`.
pub uninterp spec fn lossy_utf8(b: Seq<u8>) -> Seq<char>;

/// The lowercase form of `s` under Unicode case mapping.
pub uninterp spec fn lower_of(s: Seq<char>) -> Seq<char>;

/// Relies on `String::from_utf8_lossy`: invalid sequences become U+FFFD, the
/// result depends on the bytes alone, valid UTF-8 is decoded as it stands, and
/// no bytes give no text.
#[verifier::external_body]
pub(crate) fn lossy_text(b: &[u8]) -> (r: String)
    ensures
        r@ == lossy_utf8(b@),
        valid_utf8(b@) ==> r@ == decode_utf8(b@),
        b@.len() == 0 ==> r@.len() == 0,
{
    String::from_utf8_lossy(b).into_owned()
}

/// Relies on `str::to_lowercase`: the result depends on the characters alone,
/// and the empty string stays empty.
#[verifier::external_body]
pub(crate) fn lowercase(s: &str) -> (r: String)
    ensures
        r@ == lower_of(s@),
        s@.len() == 0 ==> r@.len() == 0,
{
    s.to_lowercase()
}

/// Characters with the Unicode `White_Space` property.
pub open spec fn is_space(c: char) -> bool {
    let u = c as u32;
    (0x9 <= u && u <= 0xD) || u == 0x20 || u == 0x85 || u == 0xA0 || u == 0x1680 || (0x2000 <= u
        && u <= 0x200A) || u == 0x2028 || u == 0x2029 || u == 0x202F || u == 0x205F || u == 0x3000
}

/// The first index at or after `i` that holds `c`, or the length of `t`.
pub open spec fn find_char(t: Seq<char>, c: char, i: int) -> int
    decreases t.len() - i,
{
    if i >= t.len() {
        t.len() as int
    } else if t[i] == c {
        i
    } else {
        find_char(t, c, i + 1)
    }
}

/// The first index at or after `i` that holds no whitespace, or the length.
pub open spec fn skip_space(t: Seq<char>, i: int) -> int
    decreases t.len() - i,
{
    if i >= t.len() {
        t.len() as int
    } else if is_space(t[i]) {
        skip_space(t, i + 1)
    } else {
        i
    }
}

/// The first index at or after `i` that holds whitespace, or the length.
pub open spec fn skip_word(t: Seq<char>, i: int) -> int
    decreases t.len() - i,
{
    if i >= t.len() {
        t.len() as int
    } else if is_space(t[i]) {
        i
    } else {
        skip_word(t, i + 1)
    }
}

/// One past the last non-whitespace index before `j`, or 0.
pub open spec fn skip_space_back(t: Seq<char>, j: int) -> int
    decreases j,
{
    if j <= 0 {
        0
    } else if is_space(t[j - 1]) {
        skip_space_back(t, j - 1)
    } else {
        j
    }
}

/// `s` without leading and trailing whitespace.
pub open spec fn trim(s: Seq<char>) -> Seq<char> {
    let a = skip_space(s, 0);
    let b = skip_space_back(s, s.len() as int);
    if b <= a {
        Seq::empty()
    } else {
        s.subrange(a, b)
    }
}

/// The line that starts at `i`: up to the next `\n`, without the `\r` of a `\r\n`.
pub open spec fn line_at(t: Seq<char>, i: int) -> Seq<char> {
    let e = find_char(t, '\n', i);
    let l = t.subrange(i, e);
    if e < t.len() && l.len() > 0 && l.last() == '\r' {
        l.drop_last()
    } else {
        l
    }
}

/// The request line of a request's text (empty for an empty text).
pub open spec fn request_line(t: Seq<char>) -> Seq<char> {
    line_at(t, 0)
}

/// The first whitespace-separated token of `l`, or empty.
pub open spec fn method_of(l: Seq<char>) -> Seq<char> {
    let s = skip_space(l, 0);
    l.subrange(s, skip_word(l, s))
}

/// The second whitespace-separated token of `l`, or `/` where there is none.
pub open spec fn target_of(l: Seq<char>) -> Seq<char> {
    let s = skip_space(l, skip_word(l, skip_space(l, 0)));
    if s >= l.len() {
        seq!['/']
    } else {
        l.subrange(s, skip_word(l, s))
    }
}

/// The header that a line `key: value` gives: the key trimmed and lowercased,
/// the value trimmed. Only meaningful for a line with a colon.
pub open spec fn header_of(l: Seq<char>) -> (Seq<char>, Seq<char>) {
    let k = find_char(l, ':', 0);
    (lower_of(trim(l.subrange(0, k))), trim(l.subrange(k + 1, l.len() as int)))
}

/// The headers of the lines from index `i` up to the first empty line; lines
/// without a colon are passed over.
pub open spec fn header_lines(t: Seq<char>, i: int) -> Seq<(Seq<char>, Seq<char>)>
    decreases t.len() - i,
{
    if i < 0 || i >= t.len() {
        Seq::empty()
    } else {
        let l = line_at(t, i);
        let e = find_char(t, '\n', i);
        if l.len() == 0 || e < i {
            Seq::empty()
        } else {
            let rest = if e + 1 < t.len() { header_lines(t, e + 1) } else { Seq::empty() };
            if find_char(l, ':', 0) < l.len() {
                seq![header_of(l)] + rest
            } else {
                rest
            }
        }
    }
}

/// The headers of a request's text, in the order of their lines.
pub open spec fn headers_of(t: Seq<char>) -> Seq<(Seq<char>, Seq<char>)> {
    header_lines(t, find_char(t, '\n', 0) + 1)
}

/// The header mapping of a list of headers: a later header of a key wins.
pub open spec fn header_map(h: Seq<(Seq<char>, Seq<char>)>) -> Map<Seq<char>, Seq<char>>
    decreases h.len(),
{
    if h.len() == 0 {
        Map::empty()
    } else {
        header_map(h.drop_last()).insert(h.last().0, h.last().1)
    }
}

/// A parsed request.
pub struct Request {
    /// The first token of the request line.
    pub method: String,
    /// The second token of the request line, `/` where it has none.
    pub path: String,
    /// The `key: value` header lines, in order, keys trimmed and lowercased.
    pub headers: Vec<(String, String)>,
}

pub open spec fn header_views(h: Seq<(String, String)>) -> Seq<(Seq<char>, Seq<char>)> {
    h.map_values(|p: (String, String)| (p.0@, p.1@))
}

/// The mapping holds the value of the last header of each key.
pub proof fn lemma_header_map_last(h: Seq<(Seq<char>, Seq<char>)>, k: Seq<char>, j: int)
    requires
        0 <= j < h.len(),
        h[j].0 == k,
        forall|i: int| j < i < h.len() ==> h[i].0 != k,
    ensures
        header_map(h).contains_key(k),
        header_map(h)[k] == h[j].1,
    decreases h.len(),
{
    if j < h.len() - 1 {
        lemma_header_map_last(h.drop_last(), k, j);
    }
}

/// A key that no header has is not in the mapping.
pub proof fn lemma_header_map_absent(h: Seq<(Seq<char>, Seq<char>)>, k: Seq<char>)
    requires
        forall|i: int| 0 <= i < h.len() ==> h[i].0 != k,
    ensures
        !header_map(h).contains_key(k),
    decreases h.len(),
{
    if h.len() > 0 {
        lemma_header_map_absent(h.drop_last(), k);
    }
}

fn same_text(a: &str, b: &str) -> (r: bool)
    ensures
        r == (a@ == b@),
{
    let ac = chars_of(a);
    let bc = chars_of(b);
    if ac.len() != bc.len() {
        return false;
    }
    let mut i: usize = 0;
    while i < ac.len()
        invariant
            ac@ == a@,
            bc@ == b@,
            ac@.len() == bc@.len(),
            i <= ac@.len(),
            forall|j: int| 0 <= j < i ==> ac@[j] == bc@[j],
        decreases ac@.len() - i,
    {
        if ac[i] != bc[i] {
            return false;
        }
        i = i + 1;
    }
    assert(ac@ =~= bc@);
    true
}

impl Request {
    /// The header mapping of the request: each key once, the last line of a
    /// key giving its value.
    pub open spec fn header_mapping(&self) -> Map<Seq<char>, Seq<char>> {
        header_map(header_views(self.headers@))
    }

    /// The value that the header mapping gives `name` (already lowercase).
    pub fn header(&self, name: &str) -> (r: Option<String>)
        ensures
            r is Some <==> self.header_mapping().contains_key(name@),
            r is Some ==> r->0@ == self.header_mapping()[name@],
    {
        let ghost h = header_views(self.headers@);
        let mut j = self.headers.len();
        while j > 0
            invariant
                j <= self.headers@.len(),
                h == header_views(self.headers@),
                forall|i: int| j <= i < h.len() ==> h[i].0 != name@,
            decreases j,
        {
            if same_text(self.headers[j - 1].0.as_str(), name) {
                proof {
                    lemma_header_map_last(h, name@, j - 1);
                }
                return Some(self.headers[j - 1].1.clone());
            }
            j = j - 1;
        }
        proof {
            lemma_header_map_absent(h, name@);
        }
        None
    }
}

fn space_char(c: char) -> (r: bool)
    ensures
        r == is_space(c),
{
    let u = c as u32;
    (0x9 <= u && u <= 0xD) || u == 0x20 || u == 0x85 || u == 0xA0 || u == 0x1680 || (0x2000 <= u
        && u <= 0x200A) || u == 0x2028 || u == 0x2029 || u == 0x202F || u == 0x205F || u == 0x3000
}

fn find_from(t: &[char], c: char, start: usize) -> (r: usize)
    requires
        start <= t@.len(),
    ensures
        r == find_char(t@, c, start as int),
        start <= r <= t@.len(),
{
    let mut i = start;
    while i < t.len()
        invariant
            start <= i <= t@.len(),
            find_char(t@, c, start as int) == find_char(t@, c, i as int),
        decreases t@.len() - i,
    {
        if t[i] == c {
            return i;
        }
        i = i + 1;
    }
    i
}

fn skip_space_from(t: &[char], start: usize) -> (r: usize)
    requires
        start <= t@.len(),
    ensures
        r == skip_space(t@, start as int),
        start <= r <= t@.len(),
{
    let mut i = start;
    while i < t.len()
        invariant
            start <= i <= t@.len(),
            skip_space(t@, start as int) == skip_space(t@, i as int),
        decreases t@.len() - i,
    {
        if !space_char(t[i]) {
            return i;
        }
        i = i + 1;
    }
    i
}

fn skip_word_from(t: &[char], start: usize) -> (r: usize)
    requires
        start <= t@.len(),
    ensures
        r == skip_word(t@, start as int),
        start <= r <= t@.len(),
{
    let mut i = start;
    while i < t.len()
        invariant
            start <= i <= t@.len(),
            skip_word(t@, start as int) == skip_word(t@, i as int),
        decreases t@.len() - i,
    {
        if space_char(t[i]) {
            return i;
        }
        i = i + 1;
    }
    i
}

/// `s` without leading and trailing whitespace.
pub fn trim_chars(s: &[char]) -> (r: Vec<char>)
    ensures
        r@ == trim(s@),
{
    let a = skip_space_from(s, 0);
    let mut b = s.len();
    while b > 0 && space_char(s[b - 1])
        invariant
            b <= s@.len(),
            skip_space_back(s@, s@.len() as int) == skip_space_back(s@, b as int),
        decreases b,
    {
        b = b - 1;
    }
    if b <= a {
        Vec::new()
    } else {
        slice_to_vec(&s[a..b])
    }
}

fn line_from(t: &[char], i: usize) -> (r: (Vec<char>, usize))
    requires
        i <= t@.len(),
    ensures
        r.0@ == line_at(t@, i as int),
        r.1 == find_char(t@, '\n', i as int),
        i <= r.1 <= t@.len(),
{
    let e = find_from(t, '\n', i);
    if e < t.len() && e > i && t[e - 1] == '\r' {
        assert(t@.subrange(i as int, e as int).drop_last() =~= t@.subrange(i as int, e - 1));
        (slice_to_vec(&t[i..e - 1]), e)
    } else {
        (slice_to_vec(&t[i..e]), e)
    }
}

/// Parses a request's text: method and path from the request line, then the
/// header lines up to the first empty line.
pub fn parse_request_text(text: &str) -> (r: Request)
    ensures
        r.method@ == method_of(request_line(text@)),
        r.path@ == target_of(request_line(text@)),
        header_views(r.headers@) == headers_of(text@),
{
    let t = chars_of(text);
    let (line, e0) = line_from(t.as_slice(), 0);
    let s0 = skip_space_from(line.as_slice(), 0);
    let w0 = skip_word_from(line.as_slice(), s0);
    let method = string_from(&line.as_slice()[s0..w0]);
    let s1 = skip_space_from(line.as_slice(), w0);
    let path = if s1 >= line.len() {
        let p = String::from_str("/");
        proof {
            reveal_strlit("/");
        }
        assert(p@ =~= seq!['/']);
        p
    } else {
        let w1 = skip_word_from(line.as_slice(), s1);
        string_from(&line.as_slice()[s1..w1])
    };

    let mut headers: Vec<(String, String)> = Vec::new();
    let mut i: usize = if e0 < t.len() { e0 + 1 } else { t.len() };
    assert(header_lines(t@, i as int) == headers_of(text@));
    while i < t.len()
        invariant
            t@ == text@,
            i <= t@.len(),
            header_views(headers@) + header_lines(t@, i as int) == headers_of(text@),
        decreases t@.len() - i,
    {
        let (l, e) = line_from(t.as_slice(), i);
        let next: usize = if l.len() == 0 || e >= t.len() { t.len() } else { e + 1 };
        assert(header_lines(t@, t@.len() as int) =~= Seq::<(Seq<char>, Seq<char>)>::empty());
        let k = find_from(l.as_slice(), ':', 0);
        assert(l.len() > 0 ==> header_lines(t@, next as int) == header_lines(t@, e + 1));
        if l.len() == 0 {
            assert(header_lines(t@, i as int) =~= Seq::<(Seq<char>, Seq<char>)>::empty());
        } else if k < l.len() {
            let key = trim_chars(&l.as_slice()[0..k]);
            let value = trim_chars(&l.as_slice()[k + 1..l.len()]);
            let key_s = string_from(key.as_slice());
            let entry = (lowercase(key_s.as_str()), string_from(value.as_slice()));
            let ghost before = headers@;
            headers.push(entry);
            assert(header_views(headers@) =~= header_views(before).push(header_of(l@)));
            assert(header_views(headers@) + header_lines(t@, next as int) =~= header_views(before)
                + header_lines(t@, i as int));
        }
        i = next;
    }
    Request { method, path, headers }
}

/// Parses the bytes read from a connection, decoding them lossily as UTF-8.
pub fn parse_request(bytes: &[u8]) -> (r: Request)
    ensures
        r.method@ == method_of(request_line(lossy_utf8(bytes@))),
        r.path@ == target_of(request_line(lossy_utf8(bytes@))),
        header_views(r.headers@) == headers_of(lossy_utf8(bytes@)),
        valid_utf8(bytes@) ==> r.method@ == method_of(request_line(decode_utf8(bytes@))),
        valid_utf8(bytes@) ==> r.path@ == target_of(request_line(decode_utf8(bytes@))),
        valid_utf8(bytes@) ==> header_views(r.headers@) == headers_of(decode_utf8(bytes@)),
{
    let text = lossy_text(bytes);
    parse_request_text(text.as_str())
}

} // verus!
