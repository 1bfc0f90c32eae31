//! Markdown in message bodies, as far as chats use it: inline code, bold, fenced blocks and
//! links.

use vstd::prelude::*;
use vstd::seq_lib::*;
use vstd::string::*;

use crate::pieces::{
    find_char, find_run, first_at, first_run, is_run, lemma_first_at, lemma_first_run, lines,
    run_at, split_lines, strip_end, strip_start, trim_char,
};
use crate::style::{paint, styled, BOLD, DIM, MAGENTA, UNDERLINE};
use crate::text::{chars_of, join2, string_of};
use crate::types::texts;

verus! {

/// What stands at a position: a fenced block, inline code or bold text, each up to a
/// position; a link, with the ends of its text and of its address; an escaped character; or
/// a plain one.
pub enum Token {
    Fence(int),
    Code(int),
    Bold(int),
    Link(int, int),
    Escaped,
    Plain,
}

/// Where the text of a link that starts at `i` ends, and its address, if a link starts there.
pub open spec fn link_at(s: Seq<char>, i: int) -> Option<(int, int)> {
    if s[i] == '[' {
        match first_at(s, i + 1, ']') {
            Some(b) => if b + 1 < s.len() && s[b + 1] == '(' {
                match first_at(s, b + 2, ')') {
                    Some(p) => Some((b, p)),
                    None => None,
                }
            } else {
                None
            },
            None => None,
        }
    } else {
        None
    }
}

/// What stands at a position. Markup that is not closed is plain.
pub open spec fn token_at(s: Seq<char>, i: int) -> Token {
    if run_at(s, i, '`', 3) && first_run(s, i + 3, '`', 3) is Some {
        Token::Fence(first_run(s, i + 3, '`', 3)->0)
    } else if s[i] == '`' && first_at(s, i + 1, '`') is Some {
        Token::Code(first_at(s, i + 1, '`')->0)
    } else if run_at(s, i, '*', 2) && first_run(s, i + 2, '*', 2) is Some {
        Token::Bold(first_run(s, i + 2, '*', 2)->0)
    } else {
        match link_at(s, i) {
            Some((b, p)) => Token::Link(b, p),
            None => if s[i] == '\\' && i + 1 < s.len() {
                Token::Escaped
            } else {
                Token::Plain
            },
        }
    }
}

/// Where the next token starts.
pub open spec fn token_end(t: Token, i: int) -> int {
    match t {
        Token::Fence(e) => e + 3,
        Token::Code(e) => e + 1,
        Token::Bold(e) => e + 2,
        Token::Link(b, p) => p + 1,
        Token::Escaped => i + 2,
        Token::Plain => i + 1,
    }
}

/// A token as it is shown: code in magenta, bold text in bold, a block's lines dim and
/// indented, a link's text underlined and without its address.
pub open spec fn token_shown(s: Seq<char>, t: Token, i: int) -> Seq<char> {
    match t {
        Token::Fence(e) => "\n"@ + block_shown(
            lines(strip_end(strip_start(s.subrange(i + 3, e), '\n'), '\n')),
        ),
        Token::Code(e) => styled(MAGENTA@, s.subrange(i + 1, e)),
        Token::Bold(e) => styled(BOLD@, s.subrange(i + 2, e)),
        Token::Link(b, p) => styled(UNDERLINE@, s.subrange(i + 1, b)),
        Token::Escaped => seq![s[i + 1]],
        Token::Plain => seq![s[i]],
    }
}

/// The lines of a block, each dim, indented and on a line of its own.
pub open spec fn block_shown(list: Seq<Seq<char>>) -> Seq<char>
    decreases list.len(),
{
    if list.len() == 0 {
        seq![]
    } else {
        block_shown(list.drop_last()) + styled(DIM@, "    "@ + list.last()) + "\n"@
    }
}

/// A token ends behind its start and within the text.
pub proof fn lemma_token_ends(s: Seq<char>, i: int)
    requires
        0 <= i < s.len(),
    ensures
        i < token_end(token_at(s, i), i) <= s.len(),
{
    lemma_first_run(s, i + 3, '`', 3);
    lemma_first_at(s, i + 1, '`');
    lemma_first_run(s, i + 2, '*', 2);
    lemma_first_at(s, i + 1, ']');
    match first_at(s, i + 1, ']') {
        Some(b) => {
            lemma_first_at(s, b + 2, ')');
        },
        None => {},
    }
}

/// A body from a position on, with its markup shown.
pub open spec fn shown_from(s: Seq<char>, i: int) -> Seq<char>
    decreases s.len() - i,
{
    if i < 0 || i >= s.len() {
        seq![]
    } else {
        let t = token_at(s, i);
        proof {
            lemma_token_ends(s, i);
        }
        token_shown(s, t, i) + shown_from(s, token_end(t, i))
    }
}

/// A body as it is shown: with its markup shown where colour is on, otherwise as it is.
pub open spec fn rendered(s: Seq<char>, color: bool) -> Seq<char> {
    if color {
        shown_from(s, 0)
    } else {
        s
    }
}

fn push_block(out: &mut String, text: &str)
    ensures
        final(out)@ == old(out)@ + block_shown(lines(text@)),
{
    let list = split_lines(text);
    let ghost all = lines(text@);
    let mut i: usize = 0;
    assert(all.take(0) =~= seq![]);
    assert(out@ =~= old(out)@ + block_shown(all.take(0)));
    while i < list.len()
        invariant
            all == texts(list@),
            i <= list@.len(),
            out@ == old(out)@ + block_shown(all.take(i as int)),
        decreases list@.len() - i,
    {
        let line = join2("    ", list[i].as_str());
        let shown = paint(DIM, line.as_str(), true);
        proof {
            assert(all[i as int] == list@[i as int]@);
            assert(all.take(i + 1).drop_last() =~= all.take(i as int));
            assert(all.take(i + 1).last() == all[i as int]);
        }
        out.append(shown.as_str());
        out.append("\n");
        i = i + 1;
        assert(out@ =~= old(out)@ + block_shown(all.take(i as int)));
    }
    assert(all.take(i as int) =~= all);
}

fn push_styled(out: &mut String, prefix: &str, chars: &Vec<char>, from: usize, to: usize)
    requires
        from <= to <= chars@.len(),
    ensures
        final(out)@ == old(out)@ + styled(prefix@, chars@.subrange(from as int, to as int)),
{
    let inner = string_of(chars, from, to);
    let shown = paint(prefix, inner.as_str(), true);
    out.append(shown.as_str());
}

/// Where the text of a link that starts at `i` ends, and its address, if a link starts there.
fn find_link(chars: &Vec<char>, i: usize) -> (r: Option<(usize, usize)>)
    requires
        i < chars@.len(),
    ensures
        match r {
            Some((b, p)) => link_at(chars@, i as int) == Some((b as int, p as int)) && i < b
                && b < p && p < chars@.len(),
            None => link_at(chars@, i as int) is None,
        },
{
    let n: usize = chars.len();
    if chars[i] != '[' {
        return None;
    }
    match find_char(chars, i + 1, ']') {
        Some(b) => {
            if b + 1 < n && chars[b + 1] == '(' {
                match find_char(chars, b + 2, ')') {
                    Some(p) => Some((b, p)),
                    None => None,
                }
            } else {
                None
            }
        },
        None => None,
    }
}

/// Renders a body: with its markup shown where colour is on, otherwise as it is.
pub fn render_markdown_inner(body: &str, color: bool) -> (r: String)
    ensures
        r@ == rendered(body@, color),
{
    if !color {
        return body.to_owned();
    }
    let chars = chars_of(body);
    let ghost s = body@;
    let mut out = String::new();
    let mut i: usize = 0;
    assert(out@ + shown_from(s, 0) =~= shown_from(s, 0));
    while i < chars.len()
        invariant
            chars@ == s,
            i <= chars@.len(),
            out@ + shown_from(s, i as int) == shown_from(s, 0),
        decreases chars@.len() - i,
    {
        let ghost t = token_at(s, i as int);
        let ghost done = out@;
        proof {
            lemma_token_ends(s, i as int);
        }
        let end: usize = push_token(&mut out, &chars, i);
        proof {
            assert(out@ + shown_from(s, end as int) =~= done + (token_shown(s, t, i as int)
                + shown_from(s, end as int)));
        }
        i = end;
    }
    assert(out@ + shown_from(s, i as int) =~= out@);
    out
}

/// Appends the token at a position as it is shown, and gives the position behind it.
fn push_token(out: &mut String, chars: &Vec<char>, i: usize) -> (end: usize)
    requires
        i < chars@.len(),
    ensures
        final(out)@ == old(out)@ + token_shown(chars@, token_at(chars@, i as int), i as int),
        end == token_end(token_at(chars@, i as int), i as int),
        end <= chars@.len(),
{
    let ghost s = chars@;
    let n: usize = chars.len();
    if is_run(chars, i, '`', 3) {
        if let Some(e) = find_run(chars, i + 3, '`', 3) {
            let text = trim_char(chars, i + 3, e, '\n');
            out.append("\n");
            push_block(out, text.as_str());
            assert(out@ =~= old(out)@ + token_shown(s, Token::Fence(e as int), i as int));
            return e + 3;
        }
    }
    if chars[i] == '`' {
        if let Some(e) = find_char(chars, i + 1, '`') {
            push_styled(out, MAGENTA, chars, i + 1, e);
            return e + 1;
        }
    }
    if is_run(chars, i, '*', 2) {
        if let Some(e) = find_run(chars, i + 2, '*', 2) {
            push_styled(out, BOLD, chars, i + 2, e);
            return e + 2;
        }
    }
    if let Some((b, p)) = find_link(chars, i) {
        push_styled(out, UNDERLINE, chars, i + 1, b);
        return p + 1;
    }
    if chars[i] == '\\' && i + 1 < n {
        out.push(chars[i + 1]);
        assert(out@ =~= old(out)@ + seq![s[i + 1]]);
        return i + 2;
    }
    out.push(chars[i]);
    assert(out@ =~= old(out)@ + seq![s[i as int]]);
    i + 1
}

/// A body without backticks, stars, brackets and backslashes is shown as it is.
pub proof fn law_plain_text_is_unchanged(s: Seq<char>, color: bool)
    requires
        forall|i: int|
            0 <= i < s.len() ==> s[i] != '`' && s[i] != '*' && s[i] != '[' && #[trigger] s[i]
                != '\\',
    ensures
        rendered(s, color) == s,
{
    lemma_plain_from(s, 0);
    assert(s.skip(0) =~= s);
}

proof fn lemma_plain_from(s: Seq<char>, i: int)
    requires
        0 <= i <= s.len(),
        forall|i: int|
            0 <= i < s.len() ==> s[i] != '`' && s[i] != '*' && s[i] != '[' && #[trigger] s[i]
                != '\\',
    ensures
        shown_from(s, i) == s.skip(i),
    decreases s.len() - i,
{
    if i < s.len() {
        assert(s[i] != '`');
        assert(token_at(s, i) == Token::Plain);
        lemma_plain_from(s, i + 1);
        assert(seq![s[i]] + s.skip(i + 1) =~= s.skip(i));
    } else {
        assert(s.skip(i) =~= seq![]);
    }
}

/// Text without markup in front of a body passes through, and the body is shown as it would
/// be alone.
pub proof fn law_plain_prefix_passes(p: Seq<char>, b: Seq<char>, color: bool)
    requires
        forall|i: int|
            0 <= i < p.len() ==> p[i] != '`' && p[i] != '*' && p[i] != '[' && #[trigger] p[i]
                != '\\',
    ensures
        rendered(p + b, color) == p + rendered(b, color),
{
    if color {
        lemma_prefix_from(p, b, 0);
        assert(p.skip(0) =~= p);
    }
}

proof fn lemma_prefix_from(p: Seq<char>, b: Seq<char>, i: int)
    requires
        0 <= i <= p.len(),
        forall|i: int|
            0 <= i < p.len() ==> p[i] != '`' && p[i] != '*' && p[i] != '[' && #[trigger] p[i]
                != '\\',
    ensures
        shown_from(p + b, i) == p.skip(i) + shown_from(b, 0),
    decreases p.len() - i,
{
    let s = p + b;
    if i < p.len() {
        assert(s[i] == p[i]);
        assert(p[i] != '`');
        assert(token_at(s, i) == Token::Plain);
        lemma_prefix_from(p, b, i + 1);
        assert(seq![s[i]] + (p.skip(i + 1) + shown_from(b, 0)) =~= p.skip(i) + shown_from(b, 0));
    } else {
        lemma_shown_behind(p, b, 0);
        assert(p.skip(i) + shown_from(b, 0) =~= shown_from(b, 0));
    }
}

/// What a token is where the text is moved back by `k` characters.
spec fn moved(t: Token, k: int) -> Token {
    match t {
        Token::Fence(e) => Token::Fence(e + k),
        Token::Code(e) => Token::Code(e + k),
        Token::Bold(e) => Token::Bold(e + k),
        Token::Link(x, y) => Token::Link(x + k, y + k),
        Token::Escaped => Token::Escaped,
        Token::Plain => Token::Plain,
    }
}

spec fn moved_place(e: Option<int>, k: int) -> Option<int> {
    match e {
        Some(e) => Some(e + k),
        None => None,
    }
}

proof fn lemma_run_behind(p: Seq<char>, b: Seq<char>, i: int, c: char, n: int)
    requires
        0 <= i,
    ensures
        run_at(p + b, p.len() + i, c, n) == run_at(b, i, c, n),
{
    let s = p + b;
    let k = p.len();
    if run_at(b, i, c, n) {
        assert forall|j: int| k + i <= j < k + i + n implies s[j] == c by {
            assert(s[j] == b[j - k]);
        }
    }
    if run_at(s, k + i, c, n) {
        assert forall|j: int| i <= j < i + n implies b[j] == c by {
            assert(s[k + j] == b[j]);
        }
    }
}

proof fn lemma_first_run_behind(p: Seq<char>, b: Seq<char>, i: int, c: char, n: int)
    requires
        0 <= i,
    ensures
        first_run(p + b, p.len() + i, c, n) == moved_place(first_run(b, i, c, n), p.len() as int),
    decreases b.len() - i,
{
    lemma_run_behind(p, b, i, c, n);
    if i + n <= b.len() && !run_at(b, i, c, n) {
        lemma_first_run_behind(p, b, i + 1, c, n);
    }
}

proof fn lemma_first_at_behind(p: Seq<char>, b: Seq<char>, i: int, c: char)
    requires
        0 <= i,
    ensures
        first_at(p + b, p.len() + i, c) == moved_place(first_at(b, i, c), p.len() as int),
    decreases b.len() - i,
{
    if i < b.len() {
        assert((p + b)[p.len() + i] == b[i]);
        lemma_first_at_behind(p, b, i + 1, c);
    }
}

proof fn lemma_token_behind(p: Seq<char>, b: Seq<char>, i: int)
    requires
        0 <= i < b.len(),
    ensures
        token_at(p + b, p.len() + i) == moved(token_at(b, i), p.len() as int),
        token_shown(p + b, token_at(p + b, p.len() + i), p.len() + i) == token_shown(
            b,
            token_at(b, i),
            i,
        ),
{
    let s = p + b;
    let k = p.len() as int;
    assert(s[k + i] == b[i]);
    assert(i + 1 < b.len() ==> s[k + i + 1] == b[i + 1]);
    lemma_run_behind(p, b, i, '`', 3);
    lemma_first_run_behind(p, b, i + 3, '`', 3);
    lemma_first_at_behind(p, b, i + 1, '`');
    lemma_run_behind(p, b, i, '*', 2);
    lemma_first_run_behind(p, b, i + 2, '*', 2);
    lemma_first_at_behind(p, b, i + 1, ']');
    lemma_first_at(b, i + 1, ']');
    match first_at(b, i + 1, ']') {
        Some(e) => {
            assert(e + 1 < b.len() ==> s[k + e + 1] == b[e + 1]);
            lemma_first_at_behind(p, b, e + 2, ')');
        },
        None => {},
    }
    lemma_token_ends(b, i);
    lemma_first_run(b, i + 3, '`', 3);
    lemma_first_at(b, i + 1, '`');
    lemma_first_run(b, i + 2, '*', 2);
    match token_at(b, i) {
        Token::Fence(e) => {
            assert(s.subrange(k + i + 3, k + e) =~= b.subrange(i + 3, e));
        },
        Token::Code(e) => {
            assert(s.subrange(k + i + 1, k + e) =~= b.subrange(i + 1, e));
        },
        Token::Bold(e) => {
            assert(s.subrange(k + i + 2, k + e) =~= b.subrange(i + 2, e));
        },
        Token::Link(x, y) => {
            assert(s.subrange(k + i + 1, k + x) =~= b.subrange(i + 1, x));
        },
        _ => {},
    }
}

proof fn lemma_shown_behind(p: Seq<char>, b: Seq<char>, i: int)
    requires
        0 <= i <= b.len(),
    ensures
        shown_from(p + b, p.len() + i) == shown_from(b, i),
    decreases b.len() - i,
{
    if i < b.len() {
        lemma_token_behind(p, b, i);
        lemma_token_ends(b, i);
        lemma_shown_behind(p, b, token_end(token_at(b, i), i));
    }
}

} // verus!
