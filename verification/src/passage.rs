//! Passing web requests on to a server inside another network, and its answers
//! back.
use vstd::prelude::*;

use crate::{decimal, jsontext, paths, search, text};
use crate::decimal::{parse_u64, to_decimal};
use crate::iostream::text_from_utf8;
use crate::model::NatResource;
use crate::search::find_char;
use crate::text::{
    chars_of, concat2, eq_ignore_ascii_case, is_white_space, same, string_of_range,
    to_ascii_lowercase, trim,
};

verus! {

/// A host without its port: what stands before the last colon, where only
/// digits follow it.
pub open spec fn without_port(host: Seq<char>) -> Seq<char> {
    let colon = paths::last_index(host, ':', host.len() as int);
    if colon >= 0 && decimal::all_digits(host.skip(colon + 1)) {
        host.take(colon)
    } else {
        host
    }
}

/// The first of `items` from `i` on whose domain is `host`, apart from capital
/// letters, or the length.
pub open spec fn domain_at(items: Seq<NatResource>, host: Seq<char>, i: int) -> int
    decreases items.len() - i,
{
    if i >= items.len() {
        items.len() as int
    } else if text::lowered(items[i].domain@) == text::lowered(host) {
        i
    } else {
        domain_at(items, host, i + 1)
    }
}

/// Which of `items` a request for a host is passed to.
pub open spec fn passage_for(items: Seq<NatResource>, host: Option<&str>) -> Option<int> {
    match host {
        Some(raw) => {
            let host = text::trimmed(raw@);
            let with_port = domain_at(items, host, 0);
            let bare = domain_at(items, without_port(host), 0);
            if host.len() == 0 {
                None
            } else if with_port < items.len() {
                Some(with_port)
            } else if bare < items.len() {
                Some(bare)
            } else {
                None
            }
        },
        None => None,
    }
}

fn find_domain(items: &[NatResource], host: &str) -> (r: usize)
    ensures
        r == domain_at(items@, host@, 0),
        r <= items@.len(),
{
    let mut i: usize = 0;
    while i < items.len()
        invariant
            i <= items@.len(),
            domain_at(items@, host@, i as int) == domain_at(items@, host@, 0),
        decreases items@.len() - i,
    {
        if eq_ignore_ascii_case(items[i].domain.as_str(), host) {
            return i;
        }
        i += 1;
    }
    i
}

fn strip_port(host: &str) -> (r: String)
    ensures
        r@ == without_port(host@),
{
    let chars = chars_of(host);
    let mut n: usize = chars.len();
    while n > 0 && chars[n - 1] != ':'
        invariant
            n <= chars@.len(),
            paths::last_index(chars@, ':', n as int)
                == paths::last_index(chars@, ':', chars@.len() as int),
        decreases n,
    {
        n -= 1;
    }
    if n == 0 {
        return host.to_owned();
    }
    let ghost port = host@.skip(n as int);
    let mut i: usize = n;
    while i < chars.len()
        invariant
            0 < n <= i <= chars@.len(),
            chars@ == host@,
            n - 1 == paths::last_index(host@, ':', host@.len() as int),
            port == host@.skip(n as int),
            forall|k: int| n <= k < i ==> decimal::is_digit(#[trigger] chars@[k]),
        decreases chars@.len() - i,
    {
        if chars[i] < '0' || chars[i] > '9' {
            proof {
                assert(!decimal::is_digit(port[i - n]));
            }
            return host.to_owned();
        }
        i += 1;
    }
    proof {
        assert forall|k: int| 0 <= k < port.len() implies decimal::is_digit(#[trigger] port[k]) by {
            assert(decimal::is_digit(chars@[k + n]));
        }
    }
    let r = string_of_range(&chars, 0, n - 1);
    proof {
        assert(r@ =~= host@.take(n - 1));
    }
    r
}

/// Which of `items` a request for a host is passed to. A domain that names the
/// port goes before one that does not.
pub fn nat_for_request(items: &[NatResource], host: Option<&str>) -> (r: Option<usize>)
    ensures
        match r {
            Some(i) => passage_for(items@, host) == Some(i as int) && i < items@.len(),
            None => passage_for(items@, host) is None,
        },
{
    let raw: &str = match host {
        Some(h) => h,
        None => {
            return None;
        },
    };
    let name = trim(raw);
    if name.as_str().is_empty() {
        return None;
    }
    let i = find_domain(items, name.as_str());
    if i < items.len() {
        return Some(i);
    }
    let bare = strip_port(name.as_str());
    let k = find_domain(items, bare.as_str());
    if k < items.len() {
        Some(k)
    } else {
        None
    }
}

/// The end of a line.
pub open spec fn line_end() -> Seq<u8> {
    seq![13u8, 10u8]
}

/// The headers of a request as they are sent.
pub open spec fn header_bytes(headers: Seq<(String, Vec<u8>)>) -> Seq<u8>
    decreases headers.len(),
{
    if headers.len() == 0 {
        seq![]
    } else {
        header_bytes(headers.drop_last()) + vstd::utf8::encode_utf8(headers.last().0@)
            + seq![58u8, 32u8] + headers.last().1@ + line_end()
    }
}

pub open spec fn has_header(headers: Seq<(String, Vec<u8>)>, name: Seq<char>) -> bool {
    exists|i: int| 0 <= i < headers.len() && (#[trigger] headers[i]).0@ == name
}

/// A request as it is passed on: its line, its headers, the host where it is
/// named in the address alone, the length of the body where it is not said, and
/// the body.
pub open spec fn request_bytes(
    method: Seq<char>,
    path: Seq<char>,
    headers: Seq<(String, Vec<u8>)>,
    authority: Option<&str>,
    body: Seq<u8>,
) -> Seq<u8> {
    let line = vstd::utf8::encode_utf8(method + " "@ + path + " HTTP/1.1\r\n"@);
    let host = if !has_header(headers, "host"@) && authority is Some {
        vstd::utf8::encode_utf8("Host: "@ + authority->0@ + "\r\n"@)
    } else {
        seq![]
    };
    let length = if body.len() > 0 && !has_header(headers, "content-length"@) {
        vstd::utf8::encode_utf8("Content-Length: "@ + decimal::decimal(body.len()) + "\r\n"@)
    } else {
        seq![]
    };
    line + header_bytes(headers) + host + length + line_end() + body
}

/// A request as it is passed on. The names of headers are in small letters.
pub fn nat_request_bytes(
    method: &str,
    path: &str,
    headers: &[(String, Vec<u8>)],
    authority: Option<&str>,
    body: &[u8],
) -> (r: Vec<u8>)
    ensures
        r@ == request_bytes(method@, path@, headers@, authority, body@),
{
    let mut line = concat2(method, " ");
    line.append(path);
    line.append(" HTTP/1.1\r\n");
    let mut raw: Vec<u8> = Vec::new();
    raw.extend_from_slice(line.as_str().as_bytes());
    let ghost first = raw@;
    proof {
        assert(first =~= vstd::utf8::encode_utf8(line@));
        assert(headers@.take(0) =~= seq![]);
        assert(raw@ =~= first + header_bytes(headers@.take(0)));
    }
    let mut has_host = false;
    let mut has_content_length = false;
    let mut i: usize = 0;
    while i < headers.len()
        invariant
            i <= headers@.len(),
            has_host == has_header(headers@.take(i as int), "host"@),
            has_content_length == has_header(headers@.take(i as int), "content-length"@),
            raw@ == first + header_bytes(headers@.take(i as int)),
        decreases headers@.len() - i,
    {
        let name: &str = headers[i].0.as_str();
        let ghost so_far = headers@.take(i as int);
        let ghost next = headers@.take(i + 1);
        proof {
            assert(next.drop_last() =~= so_far);
            assert(next[i as int] == headers@[i as int]);
            assert forall|n: Seq<char>| #[trigger] has_header(next, n) == (has_header(so_far, n)
                || name@ == n) by {
                if has_header(so_far, n) {
                    let k = choose|k: int| 0 <= k < so_far.len() && (#[trigger] so_far[k]).0@ == n;
                    assert(next[k].0@ == n);
                }
                if has_header(next, n) {
                    let k = choose|k: int| 0 <= k < next.len() && (#[trigger] next[k]).0@ == n;
                    if k < i {
                        assert(so_far[k].0@ == n);
                    }
                }
            }
        }
        if same(name, "host") {
            has_host = true;
        }
        if same(name, "content-length") {
            has_content_length = true;
        }
        let ghost before = raw@;
        raw.extend_from_slice(name.as_bytes());
        raw.push(58);
        raw.push(32);
        raw.extend_from_slice(headers[i].1.as_slice());
        raw.push(13);
        raw.push(10);
        proof {
            assert(raw@ =~= first + header_bytes(next));
        }
        i += 1;
    }
    proof {
        assert(headers@.take(i as int) =~= headers@);
    }
    if !has_host {
        if let Some(name) = authority {
            let mut host = concat2("Host: ", name);
            host.append("\r\n");
            raw.extend_from_slice(host.as_str().as_bytes());
        }
    }
    if body.len() > 0 && !has_content_length {
        let digits = to_decimal(body.len() as u64);
        let mut length = concat2("Content-Length: ", digits.as_str());
        length.append("\r\n");
        raw.extend_from_slice(length.as_str().as_bytes());
    }
    raw.push(13);
    raw.push(10);
    raw.extend_from_slice(body);
    proof {
        assert(raw@ =~= request_bytes(method@, path@, headers@, authority, body@));
    }
    raw
}

/// Whether the headers of an answer end at `i`: an empty line follows.
pub open spec fn head_ends_at(b: Seq<u8>, i: int) -> bool {
    0 <= i && i + 4 <= b.len() && b[i] == 13 && b[i + 1] == 10 && b[i + 2] == 13 && b[i + 3] == 10
}

/// Where the headers of an answer first end.
pub fn find_header_end(buffer: &[u8]) -> (r: Option<usize>)
    ensures
        match r {
            Some(i) => head_ends_at(buffer@, i as int) && forall|k: int|
                0 <= k < i ==> !#[trigger] head_ends_at(buffer@, k),
            None => forall|k: int| !#[trigger] head_ends_at(buffer@, k),
        },
{
    let n: usize = buffer.len();
    if n < 4 {
        return None;
    }
    let mut i: usize = 0;
    while i <= n - 4
        invariant
            4 <= n == buffer@.len(),
            i <= n - 3,
            forall|k: int| 0 <= k < i ==> !#[trigger] head_ends_at(buffer@, k),
        decreases n - i,
    {
        if buffer[i] == 13 && buffer[i + 1] == 10 && buffer[i + 2] == 13 && buffer[i + 3] == 10 {
            return Some(i);
        }
        i += 1;
    }
    None
}

/// What to do while an answer comes in.
#[derive(Debug, Clone, Copy, PartialEq, Eq, Structural)]
pub enum HeadStep {
    Complete(usize),
    TooLarge,
    ReadOn,
}

/// Whether what has come in is too much for the headers of an answer.
pub open spec fn is_too_much(len: nat) -> bool {
    len > 65536
}

/// What to do with what has come in of an answer: its headers may take 64 KiB.
pub fn read_nat_response_head(buffer: &[u8]) -> (r: HeadStep)
    ensures
        match r {
            HeadStep::Complete(i) => head_ends_at(buffer@, i as int) && forall|k: int|
                0 <= k < i ==> !#[trigger] head_ends_at(buffer@, k),
            HeadStep::TooLarge => (forall|k: int| !#[trigger] head_ends_at(buffer@, k))
                && is_too_much(buffer@.len()),
            HeadStep::ReadOn => (forall|k: int| !#[trigger] head_ends_at(buffer@, k))
                && !is_too_much(buffer@.len()),
        },
{
    match find_header_end(buffer) {
        Some(i) => HeadStep::Complete(i),
        None => if buffer.len() > 64 * 1024 {
            HeadStep::TooLarge
        } else {
            HeadStep::ReadOn
        },
    }
}

/// Where a line first ends in `s` from `from` on, or the length of `s`.
pub open spec fn line_break(s: Seq<char>, from: int) -> int
    decreases s.len() - from,
{
    if from + 1 >= s.len() {
        s.len() as int
    } else if s[from] == '\r' && s[from + 1] == '\n' {
        from
    } else {
        line_break(s, from + 1)
    }
}

/// The lines of a text.
pub open spec fn lines_of(s: Seq<char>) -> Seq<Seq<char>>
    decreases s.len(),
{
    let i = line_break(s, 0);
    if 0 <= i && i + 2 <= s.len() {
        seq![s.take(i)] + lines_of(s.skip(i + 2))
    } else {
        seq![s]
    }
}

proof fn lemma_line_break(s: Seq<char>, from: int)
    requires
        0 <= from <= s.len(),
    ensures
        from <= line_break(s, from) <= s.len(),
        line_break(s, from) != s.len() ==> line_break(s, from) + 2 <= s.len(),
    decreases s.len() - from,
{
    if from + 1 < s.len() && !(s[from] == '\r' && s[from + 1] == '\n') {
        lemma_line_break(s, from + 1);
    }
}

/// Looking in the rest of a text is looking on in the text.
proof fn lemma_line_break_skip(s: Seq<char>, from: int, k: int)
    requires
        0 <= k,
        0 <= from,
        k + from <= s.len(),
    ensures
        line_break(s.skip(k), from) == line_break(s, k + from) - k,
    decreases s.len() - from,
{
    let t = s.skip(k);
    if from + 1 < t.len() {
        assert(t[from] == s[k + from]);
        assert(t[from + 1] == s[k + from + 1]);
        if !(t[from] == '\r' && t[from + 1] == '\n') {
            lemma_line_break_skip(s, from + 1, k);
        }
    }
}

fn split_lines(s: &str) -> (r: Vec<String>)
    ensures
        search::texts(r@) == lines_of(s@),
        r@.len() > 0,
{
    let chars = chars_of(s);
    let mut out: Vec<String> = Vec::new();
    let mut start: usize = 0;
    let mut i: usize = 0;
    proof {
        assert(s@.skip(0) =~= s@);
        assert(search::texts(out@) + lines_of(s@) =~= lines_of(s@));
    }
    while i < chars.len() && i < chars.len() - 1
        invariant
            chars@ == s@,
            start <= i <= chars@.len(),
            search::texts(out@) + lines_of(s@.skip(start as int)) == lines_of(s@),
            line_break(s@, start as int) == line_break(s@, i as int),
        decreases chars@.len() - i,
    {
        if chars[i] == '\r' && chars[i + 1] == '\n' {
            let line = string_of_range(&chars, start, i);
            let ghost before = search::texts(out@);
            proof {
                lemma_line_break_skip(s@, 0, start as int);
                let rest = s@.skip(start as int);
                assert(line@ =~= rest.take(i - start));
                assert(rest.skip(i - start + 2) =~= s@.skip(i + 2));
                search::lemma_texts_push(out@, line);
                assert(before + (seq![line@] + lines_of(s@.skip(i + 2))) =~= before.push(line@)
                    + lines_of(s@.skip(i + 2)));
            }
            out.push(line);
            i += 2;
            start = i;
        } else {
            i += 1;
        }
    }
    let line = string_of_range(&chars, start, chars.len());
    proof {
        let rest = s@.skip(start as int);
        assert(line@ =~= rest);
        lemma_line_break_skip(s@, 0, start as int);
        search::lemma_texts_push(out@, line);
        assert(lines_of(rest) =~= seq![rest]);
        assert(search::texts(out@) + seq![rest] =~= search::texts(out@).push(line@));
    }
    out.push(line);
    out
}

/// Where white space first stands in `s` from `from` on, or the length of `s`.
pub open spec fn first_white(s: Seq<char>, from: int) -> int
    decreases s.len() - from,
{
    if from >= s.len() {
        s.len() as int
    } else if text::is_white(s[from]) {
        from
    } else {
        first_white(s, from + 1)
    }
}

/// Where something else than white space first stands.
pub open spec fn first_black(s: Seq<char>, from: int) -> int
    decreases s.len() - from,
{
    if from >= s.len() {
        s.len() as int
    } else if !text::is_white(s[from]) {
        from
    } else {
        first_black(s, from + 1)
    }
}

/// The second word of a line, or nothing.
pub open spec fn second_word(s: Seq<char>) -> Seq<char> {
    let word = first_black(s, 0);
    let gap = first_white(s, word);
    let next = first_black(s, gap);
    s.subrange(next, first_white(s, next))
}

fn find_white(chars: &[char], from: usize) -> (r: usize)
    requires
        from <= chars@.len(),
    ensures
        r == first_white(chars@, from as int),
        from <= r <= chars@.len(),
{
    let mut i: usize = from;
    while i < chars.len() && !is_white_space(chars[i])
        invariant
            from <= i <= chars@.len(),
            first_white(chars@, i as int) == first_white(chars@, from as int),
        decreases chars@.len() - i,
    {
        i += 1;
    }
    i
}

fn find_black(chars: &[char], from: usize) -> (r: usize)
    requires
        from <= chars@.len(),
    ensures
        r == first_black(chars@, from as int),
        from <= r <= chars@.len(),
{
    let mut i: usize = from;
    while i < chars.len() && is_white_space(chars[i])
        invariant
            from <= i <= chars@.len(),
            first_black(chars@, i as int) == first_black(chars@, from as int),
        decreases chars@.len() - i,
    {
        i += 1;
    }
    i
}

/// The number of the status in the first line of an answer.
pub open spec fn status_in(line: Seq<char>) -> Option<u16> {
    match decimal::parsed_u64(second_word(line)) {
        Some(n) => if 100 <= n < 1000 {
            Some(n as u16)
        } else {
            None
        },
        None => None,
    }
}

fn read_status(line: &str) -> (r: Option<u16>)
    ensures
        r == status_in(line@),
{
    let chars = chars_of(line);
    let word = find_black(&chars, 0);
    let gap = find_white(&chars, word);
    let next = find_black(&chars, gap);
    let end = find_white(&chars, next);
    let number = string_of_range(&chars, next, end);
    match parse_u64(number.as_str()) {
        Some(n) => if n >= 100 && n < 1000 {
            Some(n as u16)
        } else {
            None
        },
        None => None,
    }
}

/// Whether a character may stand in the name of a header.
pub open spec fn is_name_char(c: char) -> bool {
    ||| 'a' <= c <= 'z'
    ||| 'A' <= c <= 'Z'
    ||| '0' <= c <= '9'
    ||| c == '!' || c == '#' || c == '$' || c == '%' || c == '&' || c == '\'' || c == '*'
    ||| c == '+' || c == '-' || c == '.' || c == '^' || c == '_' || c == '`' || c == '|' || c == '~'
}

/// Whether a text is the name of a header.
pub open spec fn is_header_name(s: Seq<char>) -> bool {
    1 <= s.len() <= 65535 && forall|i: int| 0 <= i < s.len() ==> is_name_char(#[trigger] s[i])
}

/// Whether a text is the value of a header: it holds no control character but
/// the tab.
pub open spec fn is_header_value(s: Seq<char>) -> bool {
    forall|i: int|
        0 <= i < s.len() ==> (#[trigger] s[i]) == '\t' || s[i] >= ' ' && s[i] != '\u{7f}'
}

/// Calls `axum::http::HeaderName::from_bytes` on the bytes of a text: it takes the
/// names of headers, 65535 characters at most, and gives them in small letters.
#[verifier::external_body]
fn http_header_name(text: &str) -> (r: Option<String>)
    ensures
        r is Some <==> is_header_name(text@),
        r matches Some(name) ==> name@ == text::lowered(text@),
{
    axum::http::HeaderName::from_bytes(text.as_bytes()).ok().map(|name| name.as_str().to_owned())
}

/// Calls `axum::http::HeaderValue::from_str`: it takes the values of headers.
#[verifier::external_body]
fn http_header_value(text: &str) -> (r: bool)
    ensures
        r == is_header_value(text@),
{
    axum::http::HeaderValue::from_str(text).is_ok()
}

/// The header that a line tells, its name in small letters, unless it is one that
/// holds between two machines only, or none at all.
pub open spec fn header_in(line: Seq<char>) -> Option<(Seq<char>, Seq<char>)> {
    let colon = search::index_of_char(line, ':', 0);
    let raw = text::trimmed(line.take(colon));
    let name = text::lowered(raw);
    let value = text::trimmed(line.skip(colon + 1));
    if colon == line.len() || !is_header_name(raw) || name == "connection"@ || name
        == "transfer-encoding"@ || !is_header_value(value) {
        None
    } else {
        Some((name, value))
    }
}

/// The headers that lines tell.
pub open spec fn headers_in(lines: Seq<Seq<char>>) -> Seq<(Seq<char>, Seq<char>)>
    decreases lines.len(),
{
    if lines.len() == 0 {
        seq![]
    } else {
        let before = headers_in(lines.drop_last());
        match header_in(lines.last()) {
            Some(h) => before.push(h),
            None => before,
        }
    }
}

fn read_header(line: &str) -> (r: Option<(String, String)>)
    ensures
        match r {
            Some(h) => header_in(line@) == Some((h.0@, h.1@)),
            None => header_in(line@) is None,
        },
{
    let chars = chars_of(line);
    let colon = find_char(&chars, ':', 0);
    if colon == chars.len() {
        return None;
    }
    let raw_name = string_of_range(&chars, 0, colon);
    let raw_value = string_of_range(&chars, colon + 1, chars.len());
    proof {
        assert(raw_name@ =~= line@.take(colon as int));
        assert(raw_value@ =~= line@.skip(colon + 1));
    }
    let name = match http_header_name(trim(raw_name.as_str()).as_str()) {
        Some(name) => name,
        None => {
            return None;
        },
    };
    if same(name.as_str(), "connection") || same(name.as_str(), "transfer-encoding") {
        return None;
    }
    let value = trim(raw_value.as_str());
    if http_header_value(value.as_str()) {
        Some((name, value))
    } else {
        None
    }
}

/// An answer: its status, its headers, and what has come in of
/// its body.
#[derive(Debug)]
pub struct ParsedNatResponse {
    pub status: u16,
    pub headers: Vec<(String, String)>,
    pub body_prefix: Vec<u8>,
}

/// Why an answer cannot be passed on.
#[derive(Debug, Clone, Copy, PartialEq, Eq, Structural)]
pub enum PassageError {
    Header,
    Status,
    TooLarge,
}

pub open spec fn passage_error_text(e: PassageError) -> Seq<char> {
    match e {
        PassageError::Header => "invalid nat response header"@,
        PassageError::Status => "invalid nat response status"@,
        PassageError::TooLarge => "nat response header too large"@,
    }
}

impl PassageError {
    /// What is told of it.
    pub fn message(self) -> (r: &'static str)
        ensures
            r@ == passage_error_text(self),
    {
        match self {
            PassageError::Header => "invalid nat response header",
            PassageError::Status => "invalid nat response status",
            PassageError::TooLarge => "nat response header too large",
        }
    }
}

/// An answer whose headers end at `header_end`.
pub fn parse_nat_response(buffer: Vec<u8>, header_end: usize) -> (r: Result<
    ParsedNatResponse,
    PassageError,
>)
    requires
        header_end + 4 <= buffer@.len(),
    ensures
        ({
            let head = buffer@.take(header_end as int);
            match r {
                Ok(p) => vstd::utf8::valid_utf8(head) && exists|text: Seq<char>| #[trigger]
                    vstd::utf8::encode_utf8(text) == head && status_in(lines_of(text)[0]) == Some(
                        p.status,
                    ) && jsontext::pair_texts(p.headers@) == headers_in(lines_of(text).drop_first())
                        && p.body_prefix@ == buffer@.skip(header_end + 4),
                Err(PassageError::Header) => !vstd::utf8::valid_utf8(head),
                Err(PassageError::Status) => vstd::utf8::valid_utf8(head) && exists|
                    text: Seq<char>,
                | #[trigger]
                    vstd::utf8::encode_utf8(text) == head && status_in(lines_of(text)[0]) is None,
                Err(PassageError::TooLarge) => false,
            }
        }),
{
    let mut head: Vec<u8> = Vec::new();
    let mut body_prefix: Vec<u8> = Vec::new();
    let mut i: usize = 0;
    while i < buffer.len()
        invariant
            i <= buffer@.len(),
            header_end + 4 <= buffer@.len(),
            head@ == buffer@.take(
                if i < header_end {
                    i as int
                } else {
                    header_end as int
                },
            ),
            body_prefix@ == if i < header_end + 4 {
                Seq::<u8>::empty()
            } else {
                buffer@.subrange(header_end + 4, i as int)
            },
        decreases buffer@.len() - i,
    {
        if i < header_end {
            head.push(buffer[i]);
            proof {
                assert(head@ =~= buffer@.take(i + 1));
            }
        } else if i >= header_end + 4 {
            body_prefix.push(buffer[i]);
            proof {
                assert(body_prefix@ =~= buffer@.subrange(header_end + 4, i + 1));
            }
        } else {
            proof {
                assert(i == header_end + 3 ==> buffer@.subrange(header_end + 4, i + 1) =~= seq![]);
            }
        }
        i += 1;
    }
    proof {
        assert(body_prefix@ =~= buffer@.skip(header_end + 4));
    }
    let text = match text_from_utf8(head) {
        Some(t) => t,
        None => {
            return Err(PassageError::Header);
        },
    };
    let lines = split_lines(text.as_str());
    let ghost all = lines_of(text@);
    proof {
        assert(all[0] == lines@[0]@);
        assert(vstd::utf8::encode_utf8(text@) == head@);
    }
    let status = match read_status(lines[0].as_str()) {
        Some(n) => n,
        None => {
            return Err(PassageError::Status);
        },
    };
    let mut headers: Vec<(String, String)> = Vec::new();
    let ghost told = all.drop_first();
    let mut k: usize = 1;
    proof {
        assert(told.take(0) =~= seq![]);
        assert(jsontext::pair_texts(headers@) =~= seq![]);
    }
    while k < lines.len()
        invariant
            1 <= k <= lines@.len(),
            all == search::texts(lines@),
            told == all.drop_first(),
            jsontext::pair_texts(headers@) == headers_in(told.take(k - 1)),
        decreases lines@.len() - k,
    {
        let ghost before = headers@;
        proof {
            assert(told.take(k as int).drop_last() =~= told.take(k - 1));
            assert(told.take(k as int).last() == lines@[k as int]@);
        }
        if let Some(h) = read_header(lines[k].as_str()) {
            headers.push(h);
            proof {
                assert(jsontext::pair_texts(headers@)
                    =~= jsontext::pair_texts(before).push((h.0@, h.1@)));
            }
        }
        k += 1;
    }
    proof {
        assert(told.take(k - 1) =~= told);
    }
    Ok(ParsedNatResponse { status, headers, body_prefix })
}

/// The headers that hold between two machines only are never passed back, and
/// what is passed back is a header.
pub proof fn inner_headers_are_kept_back(lines: Seq<Seq<char>>, i: int)
    requires
        0 <= i < headers_in(lines).len(),
    ensures
        text::lowered(headers_in(lines)[i].0) != "connection"@,
        text::lowered(headers_in(lines)[i].0) != "transfer-encoding"@,
        is_header_name(headers_in(lines)[i].0),
        is_header_value(headers_in(lines)[i].1),
    decreases lines.len(),
{
    let before = headers_in(lines.drop_last());
    if i < before.len() {
        inner_headers_are_kept_back(lines.drop_last(), i);
    } else {
        let line = lines.last();
        let raw = text::trimmed(line.take(search::index_of_char(line, ':', 0)));
        let name = text::lowered(raw);
        assert(text::lowered(name) =~= name);
        assert forall|k: int| 0 <= k < name.len() implies is_name_char(#[trigger] name[k]) by {
            assert(is_name_char(raw[k]));
        }
    }
}

proof fn lemma_last_colon(host: Seq<char>, port: Seq<char>, n: int)
    requires
        forall|i: int| 0 <= i < port.len() ==> #[trigger] port[i] != ':',
        host.len() + 1 <= n <= host.len() + 1 + port.len(),
    ensures
        paths::last_index(host + seq![':'] + port, ':', n) == host.len(),
    decreases n,
{
    let s = host + seq![':'] + port;
    if n > host.len() + 1 {
        assert(s[n - 1] == port[n - 1 - host.len() - 1]);
        lemma_last_colon(host, port, n - 1);
    }
}

proof fn lemma_no_colon(host: Seq<char>, n: int)
    requires
        0 <= n <= host.len(),
        forall|i: int| 0 <= i < host.len() ==> #[trigger] host[i] != ':',
    ensures
        paths::last_index(host, ':', n) == -1,
    decreases n,
{
    if n > 0 {
        lemma_no_colon(host, n - 1);
    }
}

/// The port of a host is left out, and nothing else: a host without a colon, or with
/// something else than digits behind the last one, is kept.
pub proof fn ports_are_left_out(host: Seq<char>, port: Seq<char>)
    requires
        forall|i: int| 0 <= i < port.len() ==> #[trigger] port[i] != ':',
    ensures
        decimal::all_digits(port) ==> without_port(host + seq![':'] + port) == host,
        !decimal::all_digits(port) ==> without_port(host + seq![':'] + port) == host + seq![':']
            + port,
        without_port(port) == port,
{
    let s = host + seq![':'] + port;
    lemma_last_colon(host, port, s.len() as int);
    lemma_no_colon(port, port.len() as int);
    assert(s.skip((host.len() + 1) as int) =~= port);
    assert(s.take(host.len() as int) =~= host);
}

proof fn lemma_domain_at(items: Seq<NatResource>, host: Seq<char>, from: int)
    requires
        0 <= from <= items.len(),
    ensures
        from <= domain_at(items, host, from) <= items.len(),
        domain_at(items, host, from) < items.len() ==> text::lowered(
            items[domain_at(items, host, from)].domain@,
        ) == text::lowered(host),
        forall|i: int|
            from <= i < domain_at(items, host, from) ==> text::lowered(
                (#[trigger] items[i]).domain@,
            ) != text::lowered(host),
    decreases items.len() - from,
{
    if from < items.len() && text::lowered(items[from].domain@) != text::lowered(host) {
        lemma_domain_at(items, host, from + 1);
    }
}

/// A request goes to the first passage whose domain is its host, whatever the case of
/// the letters: with its port or, where there is none, without. Where neither is a
/// domain it goes to none.
pub proof fn requests_go_to_the_passage_of_their_host(items: Seq<NatResource>, raw: &str)
    requires
        text::trimmed(raw@).len() > 0,
    ensures
        ({
            let host = text::trimmed(raw@);
            let named = |i: int, h: Seq<char>|
                0 <= i < items.len() && text::lowered(items[i].domain@) == text::lowered(h);
            match passage_for(items, Some(raw)) {
                Some(k) => {
                    ||| named(k, host) && forall|i: int| 0 <= i < k ==> !#[trigger] named(i, host)
                    ||| named(k, without_port(host)) && (forall|i: int|
                        !#[trigger] named(i, host)) && forall|i: int|
                        0 <= i < k ==> !#[trigger] named(i, without_port(host))
                },
                None => forall|i: int|
                    !#[trigger] named(i, host) && !named(i, without_port(host)),
            }
        }),
        passage_for(items, None) is None,
{
    let host = text::trimmed(raw@);
    lemma_domain_at(items, host, 0);
    lemma_domain_at(items, without_port(host), 0);
}

/// A request that is passed on begins with its line and its headers and ends with an
/// empty line and its body. Between them stand the host, where no header names it but
/// the address does, and the length of the body, where it has one and no header tells
/// it.
pub proof fn requests_are_passed_on_whole(
    method: Seq<char>,
    path: Seq<char>,
    headers: Seq<(String, Vec<u8>)>,
    authority: Option<&str>,
    body: Seq<u8>,
)
    ensures
        ({
            let front = vstd::utf8::encode_utf8(method + " "@ + path + " HTTP/1.1\r\n"@)
                + header_bytes(headers);
            let back = seq![13u8, 10u8] + body;
            let all = request_bytes(method, path, headers, authority, body);
            let host = vstd::utf8::encode_utf8("Host: "@ + authority->0@ + "\r\n"@);
            let length = vstd::utf8::encode_utf8(
                "Content-Length: "@ + decimal::decimal(body.len()) + "\r\n"@,
            );
            let with_host = authority is Some && !has_header(headers, "host"@);
            let with_length = body.len() > 0 && !has_header(headers, "content-length"@);
            &&& !with_host && !with_length ==> all == front + back
            &&& with_host && !with_length ==> all == front + host + back
            &&& !with_host && with_length ==> all == front + length + back
            &&& with_host && with_length ==> all == front + host + length + back
        }),
{
    let front = vstd::utf8::encode_utf8(method + " "@ + path + " HTTP/1.1\r\n"@) + header_bytes(
        headers,
    );
    let back = seq![13u8, 10u8] + body;
    let all = request_bytes(method, path, headers, authority, body);
    let host = vstd::utf8::encode_utf8("Host: "@ + authority->0@ + "\r\n"@);
    let length = vstd::utf8::encode_utf8(
        "Content-Length: "@ + decimal::decimal(body.len()) + "\r\n"@,
    );
    if authority is Some && !has_header(headers, "host"@) {
        if body.len() > 0 && !has_header(headers, "content-length"@) {
            assert(all =~= front + host + length + back);
        } else {
            assert(all =~= front + host + back);
        }
    } else {
        if body.len() > 0 && !has_header(headers, "content-length"@) {
            assert(all =~= front + length + back);
        } else {
            assert(all =~= front + back);
        }
    }
}

/// A header that is passed on stands in a line of its own: its name, a colon and a
/// space, its value.
pub proof fn headers_are_passed_on_in_lines(
    headers: Seq<(String, Vec<u8>)>,
    name: String,
    value: Vec<u8>,
)
    ensures
        header_bytes(headers.push((name, value))) == header_bytes(headers)
            + vstd::utf8::encode_utf8(name@) + seq![58u8, 32u8] + value@ + seq![13u8, 10u8],
        header_bytes(seq![]).len() == 0,
{
    assert(headers.push((name, value)).drop_last() =~= headers);
}

proof fn lemma_white_and_black(s: Seq<char>, from: int, to: int, white: bool)
    requires
        0 <= from <= to <= s.len(),
        forall|i: int| from <= i < to ==> text::is_white(#[trigger] s[i]) == white,
        to < s.len() ==> text::is_white(s[to]) != white,
    ensures
        white ==> first_black(s, from) == to,
        !white ==> first_white(s, from) == to,
    decreases to - from,
{
    if from < to {
        assert(text::is_white(s[from]) == white);
        lemma_white_and_black(s, from + 1, to, white);
    }
}

/// The status of an answer is the number behind the first word of its first line, from
/// 100 up to 999.
pub proof fn statuses_have_three_digits(version: Seq<char>, n: u64, reason: Seq<char>)
    requires
        version.len() > 0,
        forall|i: int| 0 <= i < version.len() ==> !text::is_white(#[trigger] version[i]),
        reason.len() > 0 ==> reason[0] == ' ',
    ensures
        100 <= n <= 999 ==> status_in(version + seq![' '] + decimal::decimal(n as nat) + reason)
            == Some(n as u16),
        n < 100 || n > 999 ==> status_in(
            version + seq![' '] + decimal::decimal(n as nat) + reason,
        ) is None,
{
    let number = decimal::decimal(n as nat);
    let s = version + seq![' '] + number + reason;
    decimal::decimal_reads_back(n);
    decimal::lemma_decimal_digits(n as nat);
    let v = version.len() as int;
    let e = v + 1 + number.len();
    assert forall|i: int| 0 <= i < v implies text::is_white(#[trigger] s[i]) == false by {
        assert(s[i] == version[i]);
    }
    assert(s[v] == ' ');
    assert forall|i: int| v + 1 <= i < e implies text::is_white(#[trigger] s[i]) == false by {
        assert(s[i] == number[i - v - 1]);
        assert(decimal::is_digit(number[i - v - 1]));
    }
    if e < s.len() {
        assert(s[e] == reason[0]);
    }
    lemma_white_and_black(s, 0, 0, true);
    lemma_white_and_black(s, 0, v, false);
    lemma_white_and_black(s, v, v + 1, true);
    lemma_white_and_black(s, v + 1, e, false);
    assert(s.subrange(v + 1, e) =~= number);
}

/// A line of an answer that writes a header tells its name in small letters and its
/// value, whatever white space stands around the value; a line without a colon tells
/// none.
pub proof fn lines_tell_headers(name: Seq<char>, value: Seq<char>)
    requires
        is_header_name(name),
        is_header_value(text::trimmed(value)),
        text::lowered(name) != "connection"@,
        text::lowered(name) != "transfer-encoding"@,
    ensures
        header_in(name + seq![':'] + value) == Some((text::lowered(name), text::trimmed(value))),
        header_in(name) is None,
{
    let line = name + seq![':'] + value;
    search::lemma_index_of_char(line, ':', 0);
    search::lemma_index_of_char(name, ':', 0);
    let colon = search::index_of_char(line, ':', 0);
    assert forall|i: int| 0 <= i < name.len() implies name[i] != ':' by {
        assert(is_name_char(name[i]));
    }
    assert(line[name.len() as int] == ':');
    assert(colon == name.len()) by {
        if colon < name.len() {
            assert(line[colon] == name[colon]);
        }
    }
    assert(line.take(colon) =~= name);
    assert(line.skip(colon + 1) =~= value);
    let r = text::trimming_takes_white_space_at_the_ends(name);
    assert(r.0 == 0 && r.1 == name.len()) by {
        if r.0 > 0 {
            assert(text::is_white(name[0]));
            assert(is_name_char(name[0]));
        }
        if r.1 < name.len() {
            assert(text::is_white(name[name.len() - 1]));
            assert(is_name_char(name[name.len() - 1]));
        }
    }
    assert(name.subrange(0, name.len() as int) =~= name);
    let at = search::index_of_char(name, ':', 0);
    if at < name.len() {
        assert(name[at] == ':');
    }
}

proof fn lemma_line_break_is_one(s: Seq<char>, from: int)
    requires
        0 <= from <= s.len(),
        line_break(s, from) < s.len(),
    ensures
        s[line_break(s, from)] == '\r',
        s[line_break(s, from) + 1] == '\n',
    decreases s.len() - from,
{
    lemma_line_break(s, from);
    if from + 1 < s.len() && !(s[from] == '\r' && s[from + 1] == '\n') {
        lemma_line_break_is_one(s, from + 1);
    }
}

/// The lines of a text, joined by line ends, are the text again.
pub proof fn joining_undoes_splitting_into_lines(s: Seq<char>)
    ensures
        search::joined(lines_of(s), seq!['\r', '\n']) == s,
        lines_of(s).len() > 0,
    decreases s.len(),
{
    let i = line_break(s, 0);
    lemma_line_break(s, 0);
    if i + 2 <= s.len() {
        lemma_line_break_is_one(s, 0);
        let rest = s.skip(i + 2);
        joining_undoes_splitting_into_lines(rest);
        search::lemma_joined_front(s.take(i), lines_of(rest), seq!['\r', '\n']);
        assert(s =~= s.take(i) + seq!['\r', '\n'] + rest);
    }
}

/// The headers of an answer may take 64 KiB, and not one byte more.
pub proof fn headers_take_64_kib_at_most(len: nat)
    ensures
        !is_too_much(64 * 1024),
        is_too_much(64 * 1024 + 1),
        len <= 64 * 1024 ==> !is_too_much(len),
        len > 64 * 1024 ==> is_too_much(len),
{
}

/// The empty line behind the headers ends them where it stands first: everything before
/// it is headers.
pub proof fn headers_end_at_an_empty_line(head: Seq<u8>, body: Seq<u8>)
    ensures
        head_ends_at(head + seq![13u8, 10u8, 13u8, 10u8] + body, head.len() as int),
        forall|i: int|
            head_ends_at(head + seq![13u8, 10u8, 13u8, 10u8] + body, i) ==> i >= 0 && i + 4
                <= head.len() + 4 + body.len(),
{
    let all = head + seq![13u8, 10u8, 13u8, 10u8] + body;
    let n = head.len() as int;
    assert(all[n] == 13 && all[n + 1] == 10 && all[n + 2] == 13 && all[n + 3] == 10);
}

} // verus!
