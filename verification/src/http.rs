//! HTTP, as far as the local console needs it: requests, the head of responses, and query
//! strings.

use vstd::prelude::*;
use vstd::seq_lib::*;
use vstd::string::*;
use vstd::utf8::*;

use crate::pieces::{find_char, first_at, lemma_first_at, split_words, words};
use crate::text::{
    ascii_upper, chars_of, decimal, join3, lossy, lower_chars, lower_text,
    parse_unsigned, parsed_unsigned, push_u64, read_text, same, string_of, to_ascii_upper, trim, trimmed,
    utf8_text,
};
use crate::types::texts;

verus! {

/// Most bytes of a request, its head included.
pub const MAX_REQUEST_BYTES: usize = 131072;

/// Most bytes of a request's body.
pub const MAX_REQUEST_BODY_BYTES: usize = 65536;

/// A request.
#[derive(Clone, Debug)]
pub struct HttpRequest {
    pub method: String,
    pub path: String,
    pub query: String,
    pub body: Vec<u8>,
}

/// A request, with its texts as sequences of characters.
pub struct RequestView {
    pub method: Seq<char>,
    pub path: Seq<char>,
    pub query: Seq<char>,
    pub body: Seq<u8>,
}

impl View for HttpRequest {
    type V = RequestView;

    open spec fn view(&self) -> RequestView {
        RequestView {
            method: self.method@,
            path: self.path@,
            query: self.query@,
            body: self.body@,
        }
    }
}

/// What has been read of a request: not all of it yet, all of it, or something that is not
/// one, with the words for what is wrong.
pub enum Parsed {
    More,
    Done(HttpRequest),
    Bad(String),
}

/// What has been read of a request, as views.
pub enum ParsedView {
    More,
    Done(RequestView),
    Bad(Seq<char>),
}

impl View for Parsed {
    type V = ParsedView;

    open spec fn view(&self) -> ParsedView {
        match *self {
            Parsed::More => ParsedView::More,
            Parsed::Done(r) => ParsedView::Done(r@),
            Parsed::Bad(words) => ParsedView::Bad(words@),
        }
    }
}

// ---- the head ----

/// Whether an empty line stands at a position: two line ends in a row.
pub open spec fn blank_line_at(b: Seq<u8>, i: int) -> bool {
    0 <= i && i + 4 <= b.len() && b[i] == 13 && b[i + 1] == 10 && b[i + 2] == 13 && b[i + 3] == 10
}

/// Where the head ends: at the first empty line from a position on, if there is one.
pub open spec fn head_end(b: Seq<u8>, from: int) -> Option<int>
    decreases b.len() - from,
{
    if from >= b.len() {
        None
    } else if blank_line_at(b, from) {
        Some(from)
    } else {
        head_end(b, from + 1)
    }
}

fn find_head_end(b: &Vec<u8>) -> (r: Option<usize>)
    ensures
        match r {
            Some(i) => head_end(b@, 0) == Some(i as int) && i + 4 <= b@.len(),
            None => head_end(b@, 0) is None,
        },
{
    let n: usize = b.len();
    let mut i: usize = 0;
    while i < n
        invariant
            n == b@.len(),
            i <= n,
            head_end(b@, 0) == head_end(b@, i as int),
        decreases n - i,
    {
        if n - i >= 4 && b[i] == 13 && b[i + 1] == 10 && b[i + 2] == 13 && b[i + 3] == 10 {
            return Some(i);
        }
        i = i + 1;
    }
    None
}

/// Where the next line end stands from a position on, if there is one.
pub open spec fn line_end(s: Seq<char>, from: int) -> Option<int>
    decreases s.len() - from,
{
    if from + 1 >= s.len() {
        None
    } else if s[from] == '\r' && s[from + 1] == '\n' {
        Some(from)
    } else {
        line_end(s, from + 1)
    }
}

/// A line end that was found lies where it was looked for.
pub proof fn lemma_line_end(s: Seq<char>, from: int)
    ensures
        line_end(s, from) matches Some(e) ==> from <= e && e + 1 < s.len(),
    decreases s.len() - from,
{
    if from + 1 < s.len() && !(s[from] == '\r' && s[from + 1] == '\n') {
        lemma_line_end(s, from + 1);
    }
}

/// The lines of a head from a position on.
pub open spec fn head_lines(s: Seq<char>, i: int) -> Seq<Seq<char>>
    decreases s.len() - i,
{
    proof {
        lemma_line_end(s, i);
    }
    match line_end(s, i) {
        Some(e) => seq![s.subrange(i, e)] + head_lines(s, e + 2),
        None => seq![s.skip(i)],
    }
}

fn find_line_end(chars: &Vec<char>, from: usize) -> (r: Option<usize>)
    requires
        from <= chars@.len(),
    ensures
        match r {
            Some(e) => line_end(chars@, from as int) == Some(e as int) && from <= e && e + 1
                < chars@.len(),
            None => line_end(chars@, from as int) is None,
        },
{
    let n: usize = chars.len();
    let mut i: usize = from;
    while i < n && n - i > 1
        invariant
            n == chars@.len(),
            from <= i <= n,
            line_end(chars@, from as int) == line_end(chars@, i as int),
        decreases n - i,
    {
        if chars[i] == '\r' && chars[i + 1] == '\n' {
            return Some(i);
        }
        i = i + 1;
    }
    None
}

fn split_head(text: &str) -> (out: Vec<String>)
    ensures
        texts(out@) == head_lines(text@, 0),
{
    let chars = chars_of(text);
    let n: usize = chars.len();
    let mut out: Vec<String> = Vec::new();
    let mut i: usize = 0;
    assert(texts(out@) + head_lines(text@, 0) =~= head_lines(text@, 0));
    loop
        invariant
            chars@ == text@,
            n == chars@.len(),
            i <= n,
            texts(out@) + head_lines(text@, i as int) == head_lines(text@, 0),
        decreases n - i,
    {
        let ghost done = out@;
        match find_line_end(&chars, i) {
            Some(e) => {
                let line = string_of(&chars, i, e);
                out.push(line);
                proof {
                    assert(texts(out@) =~= texts(done).push(line@));
                    assert(texts(out@) + head_lines(text@, e + 2) =~= texts(done) + head_lines(
                        text@,
                        i as int,
                    ));
                }
                i = e + 2;
            },
            None => {
                let line = string_of(&chars, i, n);
                assert(line@ =~= text@.skip(i as int));
                out.push(line);
                proof {
                    assert(texts(out@) =~= texts(done).push(line@));
                    assert(texts(out@) =~= texts(done) + head_lines(text@, i as int));
                }
                return out;
            },
        }
    }
}

/// The length of the body that the header lines tell: that of the last one that tells a
/// length, zero where none does. There is none where one of them tells something that is no
/// length.
pub open spec fn told_length(list: Seq<Seq<char>>) -> Option<nat>
    decreases list.len(),
{
    if list.len() == 0 {
        Some(0)
    } else {
        match told_length(list.drop_last()) {
            None => None,
            Some(n) => {
                let line = list.last();
                match first_at(line, 0, ':') {
                    None => Some(n),
                    Some(k) => if lower_text(line.take(k)) == "content-length"@ {
                        parsed_unsigned(trimmed(line.skip(k + 1)), usize::MAX as nat)
                    } else {
                        Some(n)
                    },
                }
            },
        }
    }
}

fn find_length(list: &Vec<String>, from: usize) -> (r: Option<usize>)
    requires
        from <= list@.len(),
    ensures
        match r {
            Some(n) => told_length(texts(list@).skip(from as int)) == Some(n as nat),
            None => told_length(texts(list@).skip(from as int)) is None,
        },
{
    let ghost all = texts(list@).skip(from as int);
    let mut length: usize = 0;
    let mut i: usize = from;
    assert(all.take(0) =~= seq![]);
    while i < list.len()
        invariant
            all == texts(list@).skip(from as int),
            from <= i <= list@.len(),
            told_length(all.take(i - from)) == Some(length as nat),
        decreases list@.len() - i,
    {
        let line = &list[i];
        proof {
            assert(all[i - from] == line@);
            assert(all.take(i - from + 1).drop_last() =~= all.take(i - from));
            assert(all.take(i - from + 1).last() == line@);
        }
        let chars = chars_of(line.as_str());
        if let Some(k) = find_char(&chars, 0, ':') {
            let name = string_of(&chars, 0, k);
            let value = string_of(&chars, k + 1, chars.len());
            assert(name@ =~= line@.take(k as int));
            assert(value@ =~= line@.skip(k + 1));
            let lower = lower_chars(name.as_str());
            let lower_name = string_of(&lower, 0, lower.len());
            assert(lower_name@ =~= lower_text(name@));
            if same(lower_name.as_str(), "content-length") {
                let digits = trim(value.as_str());
                match parse_unsigned(digits.as_str(), usize::MAX as u64) {
                    Some(n) => {
                        length = n as usize;
                    },
                    None => {
                        proof {
                            lemma_no_length(all, i - from + 1);
                        }
                        return None;
                    },
                }
            }
        }
        i = i + 1;
    }
    assert(all.take(i - from) =~= all);
    Some(length)
}

/// Where some lines tell something that is no length, all of them do.
proof fn lemma_no_length(list: Seq<Seq<char>>, n: int)
    requires
        0 <= n <= list.len(),
        told_length(list.take(n)) is None,
    ensures
        told_length(list) is None,
    decreases list.len() - n,
{
    if n == list.len() {
        assert(list.take(n) =~= list);
    } else {
        assert(list.take(n + 1).drop_last() =~= list.take(n));
        lemma_no_length(list, n + 1);
    }
}

/// What a head says: method, target and the length of the body.
pub struct HeadView {
    pub method: Seq<char>,
    pub target: Seq<char>,
    pub length: nat,
}

/// A text with its small ASCII letters made capitals.
pub open spec fn upper_text(s: Seq<char>) -> Seq<char> {
    s.map_values(|c: char| ascii_upper(c))
}

/// The version that a request line names, if it names one.
pub open spec fn version_of(line: Seq<Seq<char>>) -> Seq<char> {
    if line.len() > 2 {
        line[2]
    } else {
        seq![]
    }
}

/// What a head says, or the words for what is wrong with it.
pub open spec fn head_of(text: Seq<char>) -> Result<HeadView, Seq<char>> {
    let list = head_lines(text, 0);
    let line = words(list[0]);
    if line.len() == 0 {
        Err("HTTP request is missing a method"@)
    } else if line.len() == 1 {
        Err("HTTP request is missing a target"@)
    } else if version_of(line) != "HTTP/1.1"@ && version_of(line) != "HTTP/1.0"@ {
        Err("unsupported HTTP version `"@ + version_of(line) + "`"@)
    } else {
        match told_length(list.skip(1)) {
            None => Err("invalid Content-Length header"@),
            Some(n) => if n > MAX_REQUEST_BODY_BYTES {
                Err("request body exceeds 65536 bytes"@)
            } else {
                Ok(HeadView { method: upper_text(line[0]), target: line[1], length: n })
            },
        }
    }
}

struct Head {
    method: String,
    target: String,
    length: usize,
}

fn upper(s: &str) -> (r: String)
    ensures
        r@ == upper_text(s@),
{
    let chars = chars_of(s);
    let mut r = String::new();
    let mut i: usize = 0;
    assert(r@ =~= upper_text(s@).take(0));
    while i < chars.len()
        invariant
            chars@ == s@,
            i <= chars@.len(),
            r@ == upper_text(s@).take(i as int),
        decreases chars@.len() - i,
    {
        r.push(to_ascii_upper(chars[i]));
        i = i + 1;
        assert(r@ =~= upper_text(s@).take(i as int));
    }
    assert(upper_text(s@).take(i as int) =~= upper_text(s@));
    r
}

fn parse_head(text: &str) -> (r: Result<Head, String>)
    ensures
        match r {
            Ok(h) => head_of(text@) == Ok::<HeadView, Seq<char>>(
                HeadView { method: h.method@, target: h.target@, length: h.length as nat },
            ) && h.length <= MAX_REQUEST_BODY_BYTES,
            Err(words) => head_of(text@) == Err::<HeadView, Seq<char>>(words@),
        },
{
    let list = split_head(text);
    proof {
        assert(texts(list@).len() == list@.len());
        assert(head_lines(text@, 0).len() > 0);
    }
    let line = split_words(list[0].as_str());
    assert(texts(list@)[0] == list@[0]@);
    assert(texts(line@).len() == line@.len());
    if line.len() == 0 {
        return Err("HTTP request is missing a method".to_owned());
    }
    if line.len() == 1 {
        return Err("HTTP request is missing a target".to_owned());
    }
    let version = if line.len() > 2 {
        assert(texts(line@)[2] == line@[2]@);
        line[2].clone()
    } else {
        String::new()
    };
    assert(version@ =~= version_of(texts(line@)));
    if !same(version.as_str(), "HTTP/1.1") && !same(version.as_str(), "HTTP/1.0") {
        return Err(join3("unsupported HTTP version `", version.as_str(), "`"));
    }
    match find_length(&list, 1) {
        None => Err("invalid Content-Length header".to_owned()),
        Some(length) => {
            if length > MAX_REQUEST_BODY_BYTES {
                return Err("request body exceeds 65536 bytes".to_owned());
            }
            assert(texts(line@)[0] == line@[0]@ && texts(line@)[1] == line@[1]@);
            Ok(Head { method: upper(line[0].as_str()), target: line[1].clone(), length })
        },
    }
}

/// The path and the query of a target: what stands before its first question mark, and what
/// stands behind it.
pub open spec fn split_target(target: Seq<char>) -> (Seq<char>, Seq<char>) {
    match first_at(target, 0, '?') {
        Some(k) => (target.take(k), target.skip(k + 1)),
        None => (target, seq![]),
    }
}

/// What has been read of a request.
pub open spec fn parsed(b: Seq<u8>) -> ParsedView {
    if b.len() > MAX_REQUEST_BYTES {
        ParsedView::Bad("HTTP request exceeds 131072 bytes"@)
    } else {
        match head_end(b, 0) {
            None => ParsedView::More,
            Some(e) => if !valid_utf8(b.take(e)) {
                ParsedView::Bad("HTTP request headers are not UTF-8"@)
            } else {
                match head_of(decode_utf8(b.take(e))) {
                    Err(words) => ParsedView::Bad(words),
                    Ok(h) => if b.len() < e + 4 + h.length {
                        ParsedView::More
                    } else {
                        ParsedView::Done(
                            RequestView {
                                method: h.method,
                                path: split_target(h.target).0,
                                query: split_target(h.target).1,
                                body: b.subrange(e + 4, e + 4 + h.length),
                            },
                        )
                    },
                }
            },
        }
    }
}

fn bytes_between(b: &Vec<u8>, from: usize, to: usize) -> (r: Vec<u8>)
    requires
        from <= to <= b@.len(),
    ensures
        r@ == b@.subrange(from as int, to as int),
{
    let mut r: Vec<u8> = Vec::new();
    let mut i: usize = from;
    while i < to
        invariant
            from <= i <= to <= b@.len(),
            r@ == b@.subrange(from as int, i as int),
        decreases to - i,
    {
        r.push(b[i]);
        i = i + 1;
        assert(r@ =~= b@.subrange(from as int, i as int));
    }
    r
}

/// Parses what has been read of a request so far.
pub fn parse_request(b: &Vec<u8>) -> (r: Parsed)
    ensures
        r@ == parsed(b@),
{
    let n: usize = b.len();
    if n > MAX_REQUEST_BYTES {
        return Parsed::Bad("HTTP request exceeds 131072 bytes".to_owned());
    }
    let e = match find_head_end(b) {
        None => {
            return Parsed::More;
        },
        Some(e) => e,
    };
    let head = bytes_between(b, 0, e);
    assert(head@ =~= b@.take(e as int));
    let text = match utf8_text(head.as_slice()) {
        None => {
            return Parsed::Bad("HTTP request headers are not UTF-8".to_owned());
        },
        Some(text) => text,
    };
    let h = match parse_head(text.as_str()) {
        Err(words) => {
            return Parsed::Bad(words);
        },
        Ok(h) => h,
    };
    let start: usize = e + 4;
    if n - start < h.length {
        return Parsed::More;
    }
    let chars = chars_of(h.target.as_str());
    let (path, query) = match find_char(&chars, 0, '?') {
        Some(k) => {
            let path = string_of(&chars, 0, k);
            let query = string_of(&chars, k + 1, chars.len());
            assert(path@ =~= h.target@.take(k as int));
            assert(query@ =~= h.target@.skip(k + 1));
            (path, query)
        },
        None => {
            let query = String::new();
            assert(query@ =~= seq![]);
            (h.target.clone(), query)
        },
    };
    assert((path@, query@) == split_target(h.target@));
    let body = bytes_between(b, start, start + h.length);
    Parsed::Done(HttpRequest { method: h.method, path, query, body })
}

/// What was parsed to the end stays what it is, whatever else arrives; and what is bad stays
/// bad.
pub proof fn law_no_second_thoughts(b: Seq<u8>, more: Seq<u8>)
    requires
        (b + more).len() <= MAX_REQUEST_BYTES,
        parsed(b) !is More,
    ensures
        parsed(b + more) == parsed(b),
{
    let c = b + more;
    match head_end(b, 0) {
        None => {},
        Some(e) => {
            lemma_head_end(b, 0);
            lemma_head_end_more(b, more, 0);
            assert(c.take(e) =~= b.take(e));
            match head_of(decode_utf8(b.take(e))) {
                Err(words) => {},
                Ok(h) => {
                    if b.len() >= e + 4 + h.length {
                        assert(c.subrange(e + 4, e + 4 + h.length) =~= b.subrange(
                            e + 4,
                            e + 4 + h.length,
                        ));
                    }
                },
            }
        },
    }
}

proof fn lemma_head_end(b: Seq<u8>, from: int)
    requires
        0 <= from,
    ensures
        head_end(b, from) matches Some(e) ==> from <= e && e + 4 <= b.len(),
    decreases b.len() - from,
{
    if from < b.len() && !blank_line_at(b, from) {
        lemma_head_end(b, from + 1);
    }
}

proof fn lemma_head_end_more(b: Seq<u8>, more: Seq<u8>, from: int)
    requires
        0 <= from,
        head_end(b, from) is Some,
    ensures
        head_end(b + more, from) == head_end(b, from),
    decreases b.len() - from,
{
    let c = b + more;
    lemma_head_end(b, from);
    if !blank_line_at(b, from) {
        lemma_head_end_more(b, more, from + 1);
        let e = head_end(b, from)->0;
        assert(from + 4 <= b.len());
        assert(c[from] == b[from] && c[from + 1] == b[from + 1] && c[from + 2] == b[from + 2]
            && c[from + 3] == b[from + 3]);
    } else {
        assert(c[from] == b[from] && c[from + 1] == b[from + 1] && c[from + 2] == b[from + 2]
            && c[from + 3] == b[from + 3]);
    }
}

// ---- responses ----

/// The words for a status.
pub open spec fn reason_of(status: u16) -> Seq<char> {
    if status == 200 {
        "OK"@
    } else if status == 400 {
        "Bad Request"@
    } else if status == 404 {
        "Not Found"@
    } else if status == 502 {
        "Bad Gateway"@
    } else if status == 503 {
        "Service Unavailable"@
    } else {
        "Internal Server Error"@
    }
}

/// The words for a status.
pub fn status_reason(status: u16) -> (r: &'static str)
    ensures
        r@ == reason_of(status),
{
    if status == 200 {
        "OK"
    } else if status == 400 {
        "Bad Request"
    } else if status == 404 {
        "Not Found"
    } else if status == 502 {
        "Bad Gateway"
    } else if status == 503 {
        "Service Unavailable"
    } else {
        "Internal Server Error"
    }
}

/// A response.
#[derive(Clone, Debug)]
pub struct HttpResponse {
    pub status: u16,
    pub content_type: &'static str,
    pub body: Vec<u8>,
}

pub const TEXT: &'static str = "text/plain; charset=utf-8";

pub const HTML: &'static str = "text/html; charset=utf-8";

pub const JSON: &'static str = "application/json; charset=utf-8";

fn bytes_of(s: &str) -> (r: Vec<u8>)
    ensures
        r@ == encode_utf8(s@),
{
    let b = s.as_bytes();
    let mut r: Vec<u8> = Vec::new();
    let mut i: usize = 0;
    while i < b.len()
        invariant
            b@ == encode_utf8(s@),
            i <= b@.len(),
            r@ == b@.take(i as int),
        decreases b@.len() - i,
    {
        r.push(b[i]);
        i = i + 1;
        assert(r@ =~= b@.take(i as int));
    }
    assert(r@ =~= b@);
    r
}

impl HttpResponse {
    /// A plain text.
    pub fn text(body: &str) -> (r: HttpResponse)
        ensures
            r.status == 200,
            r.content_type@ == TEXT@,
            r.body@ == encode_utf8(body@),
    {
        HttpResponse { status: 200, content_type: TEXT, body: bytes_of(body) }
    }

    /// A page.
    pub fn html(body: &str) -> (r: HttpResponse)
        ensures
            r.status == 200,
            r.content_type@ == HTML@,
            r.body@ == encode_utf8(body@),
    {
        HttpResponse { status: 200, content_type: HTML, body: bytes_of(body) }
    }

    /// JSON that was written already.
    pub fn json(status: u16, body: Vec<u8>) -> (r: HttpResponse)
        ensures
            r.status == status,
            r.content_type@ == JSON@,
            r.body@ == body@,
    {
        HttpResponse { status, content_type: JSON, body }
    }

    /// The answer to a request for something that is not there.
    pub fn not_found() -> (r: HttpResponse)
        ensures
            r.status == 404,
            r.content_type@ == TEXT@,
            r.body@ == encode_utf8("not found\n"@),
    {
        HttpResponse { status: 404, content_type: TEXT, body: bytes_of("not found\n") }
    }

    /// The head of the response.
    pub open spec fn head_text(&self) -> Seq<char> {
        "HTTP/1.1 "@ + decimal(self.status as nat) + " "@ + reason_of(self.status)
            + "\r\nContent-Type: "@ + self.content_type@ + "\r\nContent-Length: "@ + decimal(
            self.body@.len(),
        ) + "\r\nCache-Control: no-store\r\nConnection: close\r\n\r\n"@
    }

    /// The head of the response.
    pub fn head(&self) -> (r: String)
        ensures
            r@ == self.head_text(),
    {
        let mut r = String::new();
        r.append("HTTP/1.1 ");
        push_u64(&mut r, self.status as u64);
        r.append(" ");
        r.append(status_reason(self.status));
        r.append("\r\nContent-Type: ");
        r.append(self.content_type);
        r.append("\r\nContent-Length: ");
        push_u64(&mut r, self.body.len() as u64);
        r.append("\r\nCache-Control: no-store\r\nConnection: close\r\n\r\n");
        assert(r@ =~= self.head_text());
        r
    }
}

// ---- query strings ----

/// The value of a hexadecimal digit, if it is one.
pub open spec fn hex(b: u8) -> Option<u8> {
    if 48 <= b <= 57 {
        Some((b - 48) as u8)
    } else if 97 <= b <= 102 {
        Some((b - 87) as u8)
    } else if 65 <= b <= 70 {
        Some((b - 55) as u8)
    } else {
        None
    }
}

/// The value of a hexadecimal digit, if it is one.
pub fn hex_value(byte: u8) -> (r: Option<u8>)
    ensures
        r == hex(byte),
        r matches Some(v) ==> v < 16,
{
    if 48 <= byte && byte <= 57 {
        Some(byte - 48)
    } else if 97 <= byte && byte <= 102 {
        Some(byte - 87)
    } else if 65 <= byte && byte <= 70 {
        Some(byte - 55)
    } else {
        None
    }
}

/// Whether an escaped byte stands at a position: a percent sign and two hexadecimal digits.
pub open spec fn escape_at(b: Seq<u8>, i: int) -> bool {
    i + 2 < b.len() && b[i] == 37 && hex(b[i + 1]) is Some && hex(b[i + 2]) is Some
}

/// Bytes from a position on, with plus signs made blanks and escaped bytes put in. A percent
/// sign that starts no escape stays.
pub open spec fn unescaped(b: Seq<u8>, i: int) -> Seq<u8>
    decreases b.len() - i,
{
    if i < 0 || i >= b.len() {
        seq![]
    } else if b[i] == 43 {
        seq![32u8] + unescaped(b, i + 1)
    } else if escape_at(b, i) {
        seq![(hex(b[i + 1])->0 * 16 + hex(b[i + 2])->0) as u8] + unescaped(b, i + 3)
    } else {
        seq![b[i]] + unescaped(b, i + 1)
    }
}

/// The bytes of a text with plus signs made blanks and escaped bytes put in.
pub fn percent_bytes(value: &str) -> (out: Vec<u8>)
    ensures
        out@ == unescaped(encode_utf8(value@), 0),
{
    let b = value.as_bytes();
    let ghost all = encode_utf8(value@);
    let n: usize = b.len();
    let mut out: Vec<u8> = Vec::new();
    let mut i: usize = 0;
    assert(out@ + unescaped(all, 0) =~= unescaped(all, 0));
    while i < n
        invariant
            b@ == all,
            n == b@.len(),
            i <= n,
            out@ + unescaped(all, i as int) == unescaped(all, 0),
        decreases n - i,
    {
        let ghost done = out@;
        let byte: u8 = b[i];
        let mut step: usize = 1;
        let mut v: u8 = byte;
        if byte == 43 {
            v = 32;
        } else if byte == 37 && n - i > 2 {
            match (hex_value(b[i + 1]), hex_value(b[i + 2])) {
                (Some(high), Some(low)) => {
                    v = high * 16 + low;
                    step = 3;
                },
                _ => {},
            }
        }
        out.push(v);
        proof {
            assert(unescaped(all, i as int) == seq![v] + unescaped(all, i + step));
            assert(out@ + unescaped(all, i + step) =~= done + (seq![v] + unescaped(
                all,
                i + step,
            )));
        }
        i = i + step;
    }
    assert(out@ + unescaped(all, i as int) =~= out@);
    out
}

/// Bytes without plus and percent signs stay as they are.
pub proof fn law_plain_bytes_are_unchanged(b: Seq<u8>, i: int)
    requires
        0 <= i <= b.len(),
        forall|k: int| 0 <= k < b.len() ==> b[k] != 43 && #[trigger] b[k] != 37,
    ensures
        unescaped(b, i) == b.skip(i),
    decreases b.len() - i,
{
    if i < b.len() {
        assert(b[i] != 43);
        law_plain_bytes_are_unchanged(b, i + 1);
        assert(seq![b[i]] + b.skip(i + 1) =~= b.skip(i));
    } else {
        assert(b.skip(i) =~= seq![]);
    }
}

/// A text with plus signs made blanks and escaped bytes put in.
pub open spec fn percent_decoded(value: Seq<char>) -> Seq<char> {
    read_text(unescaped(encode_utf8(value), 0))
}

/// A text with plus signs made blanks and escaped bytes put in.
pub fn percent_decode(value: &str) -> (r: String)
    ensures
        r@ == percent_decoded(value@),
{
    let bytes = percent_bytes(value);
    lossy(bytes.as_slice())
}

/// Whether bytes write others: each byte stands for itself, unless it is a plus or a percent
/// sign, or is escaped, with digits of either case.
pub open spec fn writes(e: Seq<u8>, b: Seq<u8>) -> bool
    decreases b.len(),
{
    if b.len() == 0 {
        e.len() == 0
    } else {
        ||| e.len() > 0 && e[0] == b[0] && b[0] != 43 && b[0] != 37 && writes(e.skip(1), b.skip(1))
        ||| e.len() > 2 && e[0] == 37 && hex(e[1]) == Some((b[0] / 16) as u8) && hex(e[2]) == Some(
            (b[0] % 16) as u8,
        ) && writes(e.skip(3), b.skip(1))
    }
}

/// Decoding undoes encoding: whichever bytes of a text are escaped, and with digits of either
/// case, it reads as the text.
pub proof fn law_decoding_undoes_encoding(e: Seq<char>, s: Seq<char>)
    requires
        writes(encode_utf8(e), encode_utf8(s)),
    ensures
        percent_decoded(e) == s,
{
    lemma_unescapes(encode_utf8(e), 0, encode_utf8(s));
    assert(encode_utf8(e).skip(0) =~= encode_utf8(e));
    encode_utf8_valid_utf8(s);
    encode_utf8_decode_utf8(s);
}

proof fn lemma_unescapes(e: Seq<u8>, i: int, b: Seq<u8>)
    requires
        0 <= i <= e.len(),
        writes(e.skip(i), b),
    ensures
        unescaped(e, i) == b,
    decreases b.len(),
{
    let rest = e.skip(i);
    if b.len() > 0 {
        assert(rest[0] == e[i]);
        if rest[0] == b[0] && b[0] != 43 && b[0] != 37 && writes(rest.skip(1), b.skip(1)) {
            assert(rest.skip(1) =~= e.skip(i + 1));
            lemma_unescapes(e, i + 1, b.skip(1));
        } else {
            assert(rest[1] == e[i + 1] && rest[2] == e[i + 2]);
            assert(rest.skip(3) =~= e.skip(i + 3));
            lemma_unescapes(e, i + 3, b.skip(1));
            assert((b[0] / 16) * 16 + b[0] % 16 == b[0]);
        }
        assert(seq![b[0]] + b.skip(1) =~= b);
    }
}

/// The bytes that need no escape: ASCII letters and digits, `-`, `.`, `_` and `~`.
pub open spec fn is_unreserved(b: u8) -> bool {
    48 <= b <= 57 || 65 <= b <= 90 || 97 <= b <= 122 || b == 45 || b == 46 || b == 95 || b == 126
}

/// The hexadecimal digit of a value below sixteen.
pub open spec fn hex_digit(v: int, capital: bool) -> char {
    if v < 10 {
        (48 + v) as char
    } else if capital {
        (55 + v) as char
    } else {
        (87 + v) as char
    }
}

/// Bytes in percent-encoding: those that need an escape have one, with capital or small
/// digits.
pub open spec fn escaped(b: Seq<u8>, capital: bool) -> Seq<char>
    decreases b.len(),
{
    if b.len() == 0 {
        seq![]
    } else if is_unreserved(b[0]) {
        seq![b[0] as char] + escaped(b.skip(1), capital)
    } else {
        seq!['%', hex_digit(b[0] as int / 16, capital), hex_digit(b[0] as int % 16, capital)]
            + escaped(b.skip(1), capital)
    }
}

/// A text in percent-encoding.
pub open spec fn percent_encoded(s: Seq<char>, capital: bool) -> Seq<char> {
    escaped(encode_utf8(s), capital)
}

/// A text in percent-encoding is decoded to the text.
pub proof fn law_encoded_text_is_decoded(s: Seq<char>, capital: bool)
    ensures
        percent_decoded(percent_encoded(s, capital)) == s,
{
    lemma_escaped_writes(encode_utf8(s), capital);
    law_decoding_undoes_encoding(percent_encoded(s, capital), s);
}

proof fn lemma_escaped_writes(b: Seq<u8>, capital: bool)
    ensures
        is_ascii_chars(escaped(b, capital)),
        writes(encode_utf8(escaped(b, capital)), b),
    decreases b.len(),
{
    let t = escaped(b, capital);
    if b.len() > 0 {
        let rest = escaped(b.skip(1), capital);
        lemma_escaped_writes(b.skip(1), capital);
        let high = b[0] as int / 16;
        let low = b[0] as int % 16;
        assert(0 <= high < 16 && 0 <= low < 16);
        assert(is_ascii_chars(t)) by {
            let n = if is_unreserved(b[0]) {
                1int
            } else {
                3int
            };
            assert forall|i: int| 0 <= i < t.len() implies '\0' <= #[trigger] t[i] <= '\u{7f}' by {
                if i >= n {
                    assert(t[i] == rest[i - n]);
                }
            }
        }
        is_ascii_chars_encode_utf8(t);
        is_ascii_chars_encode_utf8(rest);
        let e = encode_utf8(t);
        if is_unreserved(b[0]) {
            assert(t[0] as u8 == e[0]);
            assert(e.skip(1) =~= encode_utf8(rest)) by {
                assert forall|i: int| 0 <= i < rest.len() implies #[trigger] e.skip(1)[i]
                    == encode_utf8(rest)[i] by {
                    assert(t[i + 1] == rest[i]);
                }
            }
        } else {
            assert(t[0] as u8 == e[0] && t[1] as u8 == e[1] && t[2] as u8 == e[2]);
            assert(e.skip(3) =~= encode_utf8(rest)) by {
                assert forall|i: int| 0 <= i < rest.len() implies #[trigger] e.skip(3)[i]
                    == encode_utf8(rest)[i] by {
                    assert(t[i + 3] == rest[i]);
                }
            }
        }
    } else {
        is_ascii_chars_encode_utf8(t);
    }
}

/// A text without plus and percent signs is decoded to itself.
pub proof fn law_plain_text_is_decoded_to_itself(s: Seq<char>)
    requires
        forall|i: int| 0 <= i < s.len() ==> s[i] != '+' && #[trigger] s[i] != '%',
    ensures
        percent_decoded(s) == s,
{
    lemma_plain_encoding(s);
    let b = encode_utf8(s);
    law_plain_bytes_are_unchanged(b, 0);
    assert(b.skip(0) =~= b);
    encode_utf8_valid_utf8(s);
    encode_utf8_decode_utf8(s);
}

proof fn lemma_plain_encoding(s: Seq<char>)
    requires
        forall|i: int| 0 <= i < s.len() ==> s[i] != '+' && #[trigger] s[i] != '%',
    ensures
        forall|k: int|
            0 <= k < encode_utf8(s).len() ==> encode_utf8(s)[k] != 43 && #[trigger] encode_utf8(
                s,
            )[k] != 37,
    decreases s.len(),
{
    if s.len() > 0 {
        let rest = s.drop_first();
        assert forall|i: int| 0 <= i < rest.len() implies rest[i] != '+' && #[trigger] rest[i]
            != '%' by {
            assert(rest[i] == s[i + 1]);
        }
        lemma_plain_encoding(rest);
        let one = encode_scalar(s[0] as u32);
        assert(s[0] != '+' && s[0] != '%');
        lemma_plain_char(s[0]);
        assert(encode_utf8(s) == one + encode_utf8(rest));
        assert forall|k: int| 0 <= k < encode_utf8(s).len() implies encode_utf8(s)[k] != 43
            && #[trigger] encode_utf8(s)[k] != 37 by {
            if k < one.len() {
                assert(encode_utf8(s)[k] == one[k]);
            } else {
                assert(encode_utf8(s)[k] == encode_utf8(rest)[k - one.len()]);
            }
        }
    }
}

proof fn lemma_plain_char(c: char)
    requires
        c != '+',
        c != '%',
    ensures
        forall|k: int|
            0 <= k < encode_scalar(c as u32).len() ==> encode_scalar(c as u32)[k] != 43
                && #[trigger] encode_scalar(c as u32)[k] != 37,
{
    lemma_scalar_bytes(c as u32);
}

/// The bytes of a character beyond ASCII are none of ASCII's.
proof fn lemma_scalar_bytes(c: u32)
    ensures
        forall|k: int|
            0 <= k < encode_scalar(c).len() ==> #[trigger] encode_scalar(c)[k] >= 128 || (c < 128
                && encode_scalar(c)[k] == c),
{
    assert(c <= 0x7f ==> (c & 0x7F) as u8 == c) by (bit_vector);
    assert(0xC0u8 | ((c >> 6) & 0x1F) as u8 >= 128) by (bit_vector);
    assert(0xE0u8 | ((c >> 12) & 0x0F) as u8 >= 128) by (bit_vector);
    assert(0xF0u8 | ((c >> 18) & 0x7) as u8 >= 128) by (bit_vector);
    assert(0x80u8 | (c & 0x3F) as u8 >= 128) by (bit_vector);
    assert(0x80u8 | ((c >> 6) & 0x3F) as u8 >= 128) by (bit_vector);
    assert(0x80u8 | ((c >> 12) & 0x3F) as u8 >= 128) by (bit_vector);
}

/// The pairs of a query from a position on: what stands between ampersands.
pub open spec fn pairs_from(s: Seq<char>, i: int) -> Seq<Seq<char>>
    decreases s.len() - i,
{
    proof {
        lemma_first_at(s, i, '&');
    }
    match first_at(s, i, '&') {
        Some(e) => seq![s.subrange(i, e)] + pairs_from(s, e + 1),
        None => seq![s.skip(i)],
    }
}

/// The value of the first of some pairs that has the wanted name, if one has. A pair without
/// an equals sign has no name.
pub open spec fn value_in(pairs: Seq<Seq<char>>, wanted: Seq<char>) -> Option<Seq<char>>
    decreases pairs.len(),
{
    if pairs.len() == 0 {
        None
    } else {
        match value_in(pairs.drop_last(), wanted) {
            Some(v) => Some(v),
            None => match first_at(pairs.last(), 0, '=') {
                Some(k) => if percent_decoded(pairs.last().take(k)) == wanted {
                    Some(percent_decoded(pairs.last().skip(k + 1)))
                } else {
                    None
                },
                None => None,
            },
        }
    }
}

proof fn lemma_value_stays(pairs: Seq<Seq<char>>, n: int, wanted: Seq<char>)
    requires
        0 <= n <= pairs.len(),
        value_in(pairs.take(n), wanted) is Some,
    ensures
        value_in(pairs, wanted) == value_in(pairs.take(n), wanted),
    decreases pairs.len() - n,
{
    if n == pairs.len() {
        assert(pairs.take(n) =~= pairs);
    } else {
        assert(pairs.take(n + 1).drop_last() =~= pairs.take(n));
        lemma_value_stays(pairs, n + 1, wanted);
    }
}

fn split_pairs(query: &str) -> (out: Vec<String>)
    ensures
        texts(out@) == pairs_from(query@, 0),
{
    let chars = chars_of(query);
    let n: usize = chars.len();
    let mut out: Vec<String> = Vec::new();
    let mut i: usize = 0;
    assert(texts(out@) + pairs_from(query@, 0) =~= pairs_from(query@, 0));
    loop
        invariant
            chars@ == query@,
            n == chars@.len(),
            i <= n,
            texts(out@) + pairs_from(query@, i as int) == pairs_from(query@, 0),
        decreases n - i,
    {
        let ghost done = out@;
        match find_char(&chars, i, '&') {
            Some(e) => {
                let pair = string_of(&chars, i, e);
                out.push(pair);
                proof {
                    assert(texts(out@) =~= texts(done).push(pair@));
                    assert(texts(out@) + pairs_from(query@, e + 1) =~= texts(done) + pairs_from(
                        query@,
                        i as int,
                    ));
                }
                i = e + 1;
            },
            None => {
                let pair = string_of(&chars, i, n);
                assert(pair@ =~= query@.skip(i as int));
                out.push(pair);
                proof {
                    assert(texts(out@) =~= texts(done).push(pair@));
                    assert(texts(out@) =~= texts(done) + pairs_from(query@, i as int));
                }
                return out;
            },
        }
    }
}

/// The value of the first pair of a query that has the wanted name, if one has.
pub fn query_param(query: &str, wanted: &str) -> (r: Option<String>)
    ensures
        crate::types::opt_text(r) == value_in(pairs_from(query@, 0), wanted@),
{
    let pairs = split_pairs(query);
    let ghost all = pairs_from(query@, 0);
    let mut i: usize = 0;
    assert(all.take(0) =~= seq![]);
    while i < pairs.len()
        invariant
            all == texts(pairs@),
            all == pairs_from(query@, 0),
            i <= pairs@.len(),
            value_in(all.take(i as int), wanted@) is None,
        decreases pairs@.len() - i,
    {
        let pair = &pairs[i];
        proof {
            assert(all[i as int] == pair@);
            assert(all.take(i + 1).drop_last() =~= all.take(i as int));
            assert(all.take(i + 1).last() == pair@);
        }
        let chars = chars_of(pair.as_str());
        if let Some(k) = find_char(&chars, 0, '=') {
            let name = string_of(&chars, 0, k);
            assert(name@ =~= pair@.take(k as int));
            let decoded = percent_decode(name.as_str());
            if same(decoded.as_str(), wanted) {
                let n: usize = chars.len();
                let value = string_of(&chars, k + 1, n);
                assert(value@ =~= pair@.skip(k + 1));
                proof {
                    lemma_value_stays(all, i + 1, wanted@);
                }
                return Some(percent_decode(value.as_str()));
            }
        }
        i = i + 1;
    }
    assert(all.take(i as int) =~= all);
    None
}

/// A query that was written from a name and a value, both in percent-encoding, gives the value
/// under that name.
pub proof fn law_query_reads_back(name: Seq<char>, value: Seq<char>, capital: bool)
    ensures
        value_in(
            pairs_from(
                percent_encoded(name, capital) + seq!['='] + percent_encoded(value, capital),
                0,
            ),
            name,
        ) == Some(value),
{
    let n = percent_encoded(name, capital);
    let v = percent_encoded(value, capital);
    let q = n + seq!['='] + v;
    let k = n.len() as int;
    lemma_escaped_chars(encode_utf8(name), capital);
    lemma_escaped_chars(encode_utf8(value), capital);
    assert forall|i: int| 0 <= i < q.len() implies #[trigger] q[i] != '&' by {
        if i < k {
            assert(q[i] == n[i]);
        } else if i > k {
            assert(q[i] == v[i - k - 1]);
        }
    }
    lemma_nowhere(q, 0, '&');
    assert(q.skip(0) =~= q);
    assert(pairs_from(q, 0) =~= seq![q]);
    assert forall|i: int| 0 <= i < k implies #[trigger] q[i] != '=' by {
        assert(q[i] == n[i]);
    }
    assert(q[k] == '=');
    lemma_first_there(q, 0, '=', k);
    assert(q.take(k) =~= n);
    assert(q.skip(k + 1) =~= v);
    law_encoded_text_is_decoded(name, capital);
    law_encoded_text_is_decoded(value, capital);
    let pairs = pairs_from(q, 0);
    assert(pairs.last() == q);
    assert(value_in(pairs.drop_last(), name) is None);
}

pub proof fn lemma_escaped_chars(b: Seq<u8>, capital: bool)
    ensures
        forall|i: int|
            0 <= i < escaped(b, capital).len() ==> escaped(b, capital)[i] != '&'
                && #[trigger] escaped(b, capital)[i] != '=',
    decreases b.len(),
{
    if b.len() > 0 {
        let t = escaped(b, capital);
        let rest = escaped(b.skip(1), capital);
        lemma_escaped_chars(b.skip(1), capital);
        let n = if is_unreserved(b[0]) {
            1int
        } else {
            3int
        };
        assert forall|i: int| 0 <= i < t.len() implies t[i] != '&' && #[trigger] t[i] != '=' by {
            if i >= n {
                assert(t[i] == rest[i - n]);
            }
        }
    }
}

pub proof fn lemma_nowhere(s: Seq<char>, i: int, c: char)
    requires
        0 <= i,
        forall|j: int| i <= j < s.len() ==> #[trigger] s[j] != c,
    ensures
        first_at(s, i, c) is None,
    decreases s.len() - i,
{
    if i < s.len() {
        lemma_nowhere(s, i + 1, c);
    }
}

pub proof fn lemma_first_there(s: Seq<char>, i: int, c: char, k: int)
    requires
        0 <= i <= k < s.len(),
        s[k] == c,
        forall|j: int| i <= j < k ==> #[trigger] s[j] != c,
    ensures
        first_at(s, i, c) == Some(k),
    decreases k - i,
{
    if i < k {
        lemma_first_there(s, i + 1, c, k);
    }
}

} // verus!
