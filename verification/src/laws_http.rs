//! What is read of an HTTP request, and what a response says.

use vstd::prelude::*;
use vstd::seq_lib::*;
use vstd::utf8::*;

use crate::http::{
    head_end, head_lines, hex, line_end, parsed, reason_of, split_target, told_length, unescaped,
    upper_text, HttpResponse, ParsedView,
};
use crate::laws_pieces::{law_first_place, law_words, unbroken};
use crate::laws_words::{law_decimal, law_number_reads_back};
use crate::pieces::words;
use crate::laws_shown::{lemma_behind, lemma_joins};
use crate::text::{decimal, has_part, is_space, lower_text};

verus! {

// ---- requests ----

/// Whether an empty line, two line ends in a row, stands at a place of what was read.
pub open spec fn empty_line(b: Seq<u8>, i: int) -> bool {
    i + 4 <= b.len() && b[i] == 0x0d && b[i + 1] == 0x0a && b[i + 2] == 0x0d && b[i + 3] == 0x0a
}

proof fn lemma_head_end_there(b: Seq<u8>, from: int, e: int)
    requires
        0 <= from <= e,
        empty_line(b, e),
        forall|i: int| from <= i < e ==> !#[trigger] empty_line(b, i),
    ensures
        head_end(b, from) == Some(e),
    decreases e - from,
{
    if from < e {
        assert(!empty_line(b, from));
        lemma_head_end_there(b, from + 1, e);
    }
}

proof fn lemma_no_head_end(b: Seq<u8>, from: int)
    requires
        0 <= from,
        forall|i: int| from <= i ==> !#[trigger] empty_line(b, i),
    ensures
        head_end(b, from) is None,
    decreases b.len() - from,
{
    if from < b.len() {
        assert(!empty_line(b, from));
        lemma_no_head_end(b, from + 1);
    }
}

proof fn lemma_line_end_there(s: Seq<char>, from: int, e: int)
    requires
        0 <= from <= e,
        e + 1 < s.len(),
        s[e] == '\r',
        s[e + 1] == '\n',
        forall|i: int| from <= i < e ==> #[trigger] s[i] != '\r',
    ensures
        line_end(s, from) == Some(e),
    decreases e - from,
{
    if from < e {
        lemma_line_end_there(s, from + 1, e);
    }
}

proof fn lemma_no_line_end(s: Seq<char>, from: int)
    requires
        0 <= from,
        forall|i: int| from <= i < s.len() ==> #[trigger] s[i] != '\r',
    ensures
        line_end(s, from) is None,
    decreases s.len() - from,
{
    if from + 1 < s.len() {
        lemma_no_line_end(s, from + 1);
    }
}

/// Whether a text holds no carriage return.
pub open spec fn one_line(s: Seq<char>) -> bool {
    forall|i: int| 0 <= i < s.len() ==> #[trigger] s[i] != '\r'
}

/// The first line of a request.
pub open spec fn request_line(method: Seq<char>, target: Seq<char>, version: Seq<char>) -> Seq<char> {
    method + seq![' '] + (target + seq![' '] + version)
}

proof fn lemma_request_words(method: Seq<char>, target: Seq<char>, version: Seq<char>)
    requires
        method.len() > 0,
        unbroken(method),
        target.len() > 0,
        unbroken(target),
        version.len() > 0,
        unbroken(version),
    ensures
        words(request_line(method, target, version)) == seq![method, target, version],
        one_line(request_line(method, target, version)),
{
    let rest = target + seq![' '] + version;
    law_words(method, ' ', rest);
    law_words(target, ' ', version);
    law_words(version, ' ', version);
    assert(seq![method] + (seq![target] + seq![version]) =~= seq![method, target, version]);
    let line = request_line(method, target, version);
    assert forall|i: int| 0 <= i < line.len() implies #[trigger] line[i] != '\r' by {
        if i < method.len() {
            assert(line[i] == method[i]);
            assert(!is_space(method[i]));
        } else if i > method.len() {
            let j = i - method.len() - 1;
            assert(line[i] == rest[j]);
            if j < target.len() {
                assert(rest[j] == target[j]);
                assert(!is_space(target[j]));
            } else if j > target.len() {
                assert(rest[j] == version[j - target.len() - 1]);
                assert(!is_space(version[j - target.len() - 1]));
            }
        }
    }
}

/// A request for something is read as its method in capitals and its target, as soon as its head
/// has ended; one for another version of the protocol is refused.
pub proof fn law_request_without_body(
    b: Seq<u8>,
    e: int,
    method: Seq<char>,
    target: Seq<char>,
    version: Seq<char>,
)
    requires
        b.len() <= 131072,
        0 <= e,
        empty_line(b, e),
        forall|i: int| 0 <= i < e ==> !#[trigger] empty_line(b, i),
        valid_utf8(b.take(e)),
        decode_utf8(b.take(e)) == request_line(method, target, version),
        method.len() > 0,
        unbroken(method),
        target.len() > 0,
        unbroken(target),
        version.len() > 0,
        unbroken(version),
    ensures
        version == "HTTP/1.1"@ || version == "HTTP/1.0"@ ==> (parsed(b) matches ParsedView::Done(r)
            && r.method == upper_text(method) && r.path == split_target(target).0 && r.query
            == split_target(target).1 && r.body.len() == 0),
        version != "HTTP/1.1"@ && version != "HTTP/1.0"@ ==> parsed(b) == ParsedView::Bad(
            "unsupported HTTP version `"@ + version + "`"@,
        ),
{
    let text = request_line(method, target, version);
    lemma_head_end_there(b, 0, e);
    lemma_request_words(method, target, version);
    lemma_no_line_end(text, 0);
    assert(text.skip(0) =~= text);
    let list = head_lines(text, 0);
    assert(list =~= seq![text]);
    assert(list.skip(1).len() == 0);
    assert(words(list[0])[2] == version);
}

/// A request that tells the length of its body is read with so many bytes behind its head, once
/// they have arrived; a body of more than 65536 bytes is refused.
pub proof fn law_request_with_body(
    b: Seq<u8>,
    e: int,
    method: Seq<char>,
    target: Seq<char>,
    name: Seq<char>,
    n: nat,
)
    requires
        b.len() <= 131072,
        0 <= e,
        empty_line(b, e),
        forall|i: int| 0 <= i < e ==> !#[trigger] empty_line(b, i),
        valid_utf8(b.take(e)),
        decode_utf8(b.take(e)) == request_line(method, target, "HTTP/1.1"@) + seq!['\r', '\n'] + (
        name + seq![':', ' '] + decimal(n)),
        method.len() > 0,
        unbroken(method),
        target.len() > 0,
        unbroken(target),
        lower_text(name) == "content-length"@,
        n <= usize::MAX,
    ensures
        n > 65536 ==> parsed(b) == ParsedView::Bad("request body exceeds 65536 bytes"@),
        n <= 65536 && b.len() < e + 4 + n ==> parsed(b) is More,
        n <= 65536 && b.len() >= e + 4 + n ==> (parsed(b) matches ParsedView::Done(r) && r.method
            == upper_text(method) && r.path == split_target(target).0 && r.query == split_target(
            target,
        ).1 && r.body == b.subrange(e + 4, e + 4 + n)),
{
    reveal_strlit("HTTP/1.1");
    let version = "HTTP/1.1"@;
    let first = request_line(method, target, version);
    let number = decimal(n);
    let second = name + seq![':', ' '] + number;
    let text = first + seq!['\r', '\n'] + second;
    let k = first.len() as int;
    lemma_head_end_there(b, 0, e);
    lemma_request_words(method, target, version);
    law_decimal(n);
    lemma_content_length(name);
    assert(text[k] == '\r' && text[k + 1] == '\n');
    assert forall|i: int| 0 <= i < k implies #[trigger] text[i] != '\r' by {
        assert(text[i] == first[i]);
    }
    lemma_line_end_there(text, 0, k);
    assert forall|i: int| k + 2 <= i < text.len() implies #[trigger] text[i] != '\r' by {
        let j = i - k - 2;
        assert(text[i] == second[j]);
        if j < name.len() {
            assert(second[j] == name[j]);
        } else if j >= name.len() + 2 {
            assert(second[j] == number[j - name.len() - 2]);
        }
    }
    lemma_no_line_end(text, k + 2);
    assert(text.subrange(0, k) =~= first);
    assert(text.skip(k + 2) =~= second);
    reveal_with_fuel(head_lines, 2);
    let list = head_lines(text, 0);
    assert(list =~= seq![first, second]);
    assert(words(list[0])[2] == version);
    let rest = list.skip(1);
    assert(rest =~= seq![second]);
    let c = name.len() as int;
    assert(second[c] == ':');
    assert forall|i: int| 0 <= i < c implies #[trigger] second[i] != ':' by {
        assert(second[i] == name[i]);
    }
    law_first_place(second, 0, ':', c);
    assert(second.take(c) =~= name);
    let value = second.skip(c + 1);
    assert(value =~= seq![' '] + number + Seq::<char>::empty());
    assert(!is_space(number[0]) && !is_space(number.last())) by {
        assert('0' as int <= number[0] as int <= '9' as int);
    }
    crate::laws_words::law_padding_is_trimmed(seq![' '], number, Seq::<char>::empty());
    law_number_reads_back(n, usize::MAX as nat);
    assert(rest.drop_last().len() == 0);
    assert(told_length(rest.drop_last()) == Some(0nat));
    assert(rest.last() == second);
    assert(told_length(rest) == Some(n));
}

proof fn lemma_content_length(name: Seq<char>)
    requires
        lower_text(name) == "content-length"@,
    ensures
        one_line(name),
        forall|i: int| 0 <= i < name.len() ==> #[trigger] name[i] != ':',
{
    reveal_strlit("content-length");
    let low = lower_text(name);
    assert(low.len() == name.len() && "content-length"@.len() == 14);
    assert forall|i: int| 0 <= i < name.len() implies #[trigger] name[i] != ':' && name[i]
        != '\r' by {
        assert(low[i] == "content-length"@[i]);
        assert(low[i] == crate::text::ascii_lower(name[i]));
        assert(i == 0 || i == 1 || i == 2 || i == 3 || i == 4 || i == 5 || i == 6 || i == 7 || i == 8
            || i == 9 || i == 10 || i == 11 || i == 12 || i == 13);
        assert("content-length"@ =~= seq![
            'c', 'o', 'n', 't', 'e', 'n', 't', '-', 'l', 'e', 'n', 'g', 't', 'h',
        ]);
    }
}

/// More than 131072 bytes are refused whatever they are; fewer without an empty line are not a
/// request yet.
pub proof fn law_unread_requests(b: Seq<u8>)
    ensures
        b.len() > 131072 ==> parsed(b) == ParsedView::Bad("HTTP request exceeds 131072 bytes"@),
        b.len() <= 131072 && (forall|i: int| 0 <= i ==> !#[trigger] empty_line(b, i)) ==> parsed(b)
            is More,
{
    if forall|i: int| 0 <= i ==> !#[trigger] empty_line(b, i) {
        lemma_no_head_end(b, 0);
    }
}

/// The path of a target is what stands before its first question mark, and the query what stands
/// behind; a method is read in capitals.
pub proof fn law_targets(path: Seq<char>, query: Seq<char>, i: int)
    requires
        forall|i: int| 0 <= i < path.len() ==> #[trigger] path[i] != '?',
    ensures
        split_target(path + seq!['?'] + query) == (path, query),
        split_target(path) == (path, Seq::<char>::empty()),
        upper_text(path).len() == path.len(),
        0 <= i < path.len() && 'a' as int <= path[i] as int <= 'z' as int ==> upper_text(
            path,
        )[i] as int == path[i] as int - 32,
        0 <= i < path.len() && !('a' as int <= path[i] as int <= 'z' as int) ==> upper_text(path)[i]
            == path[i],
{
    let s = path + seq!['?'] + query;
    let k = path.len() as int;
    assert(s[k] == '?');
    assert forall|i: int| 0 <= i < k implies #[trigger] s[i] != '?' by {
        assert(s[i] == path[i]);
    }
    law_first_place(s, 0, '?', k);
    law_first_place(path, 0, '?', 0);
    assert(s.take(k) =~= path);
    assert(s.skip(k + 1) =~= query);
}

// ---- escapes ----

/// A percent sign and two hexadecimal digits, of either case, stand for a byte, a plus sign for
/// a blank, and every other byte for itself.
pub proof fn law_escapes(high: u8, low: u8, b: Seq<u8>, other: u8)
    requires
        high < 16,
        low < 16,
        other != 0x25,
        other != 0x2b,
    ensures
        forall|x: u8, y: u8|
            #![trigger hex(x), hex(y)]
            hex(x) == Some(high) && hex(y) == Some(low) ==> unescaped(seq![0x25u8, x, y], 0)
                == seq![(high * 16 + low) as u8],
        unescaped(seq![0x2bu8], 0) == seq![0x20u8],
        unescaped(seq![other], 0) == seq![other],
        hex(('0' as int + low) as u8) == if low < 10 {
            Some(low)
        } else {
            None
        },
        10 <= low ==> hex(('a' as int + low - 10) as u8) == Some(low) && hex(
            ('A' as int + low - 10) as u8,
        ) == Some(low),
{
    reveal_with_fuel(unescaped, 4);
    assert forall|x: u8, y: u8|
        #![trigger hex(x), hex(y)]
        hex(x) == Some(high) && hex(y) == Some(low) implies unescaped(seq![0x25u8, x, y], 0)
        == seq![(high * 16 + low) as u8] by {
        let s = seq![0x25u8, x, y];
        assert(s[0] == 0x25 && s[1] == x && s[2] == y);
        assert(unescaped(s, 3) =~= seq![]);
        assert(unescaped(s, 0) =~= seq![(high * 16 + low) as u8]);
    }
    let plus = seq![0x2bu8];
    assert(unescaped(plus, 1) =~= seq![]);
    assert(unescaped(plus, 0) =~= seq![0x20u8]);
    let one = seq![other];
    assert(unescaped(one, 1) =~= seq![]);
    assert(unescaped(one, 0) =~= seq![other]);
}

// ---- responses ----

/// The reasons for the statuses.
pub proof fn law_reasons(status: u16)
    ensures
        reason_of(200) == "OK"@,
        reason_of(400) == "Bad Request"@,
        reason_of(404) == "Not Found"@,
        reason_of(502) == "Bad Gateway"@,
        reason_of(503) == "Service Unavailable"@,
        status != 200 && status != 400 && status != 404 && status != 502 && status != 503
            ==> reason_of(status) == "Internal Server Error"@,
{
}

proof fn lemma_self(s: Seq<char>)
    ensures
        has_part(s, s),
{
    lemma_behind(Seq::<char>::empty(), s);
    assert(Seq::<char>::empty() + s =~= s);
}

proof fn lemma_same_end(a: Seq<char>, b: Seq<char>)
    requires
        b.len() >= 4,
    ensures
        (a + b).skip((a + b).len() - 4) == b.skip(b.len() - 4),
{
    assert((a + b).skip((a + b).len() - 4) =~= b.skip(b.len() - 4));
}

proof fn lemma_end()
    ensures
        ({
            let end = "\r\nCache-Control: no-store\r\nConnection: close\r\n\r\n"@;
            end.len() > 4 && end.skip(end.len() - 4) == seq!['\r', '\n', '\r', '\n']
        }),
{
    reveal_strlit("\r\nCache-Control: no-store\r\nConnection: close\r\n\r\n");
}

/// The head of a response tells its status, the kind of its body and the number of its bytes,
/// and ends with an empty line.
pub proof fn law_response_head(r: HttpResponse)
    ensures
        has_part(
            r.head_text(),
            "HTTP/1.1 "@ + decimal(r.status as nat) + " "@ + reason_of(r.status),
        ),
        has_part(r.head_text(), "\r\nContent-Type: "@ + r.content_type@),
        has_part(r.head_text(), "\r\nContent-Length: "@ + decimal(r.body@.len())),
        r.head_text().len() > 4 && r.head_text().skip(r.head_text().len() - 4) == seq![
            '\r',
            '\n',
            '\r',
            '\n',
        ],
{
    let first = "HTTP/1.1 "@ + decimal(r.status as nat) + " "@ + reason_of(r.status);
    let kind = "\r\nContent-Type: "@ + r.content_type@;
    let size = "\r\nContent-Length: "@ + decimal(r.body@.len());
    let end = "\r\nCache-Control: no-store\r\nConnection: close\r\n\r\n"@;
    lemma_self(first);
    lemma_joins(first, "\r\nContent-Type: "@, r.content_type@);
    lemma_behind(first, kind);
    lemma_joins(first + kind, "\r\nContent-Length: "@, decimal(r.body@.len()));
    lemma_behind(first + kind, size);
    lemma_behind(first + kind + size, end);
    lemma_end();
    lemma_same_end(first + kind + size, end);
}

} // verus!
