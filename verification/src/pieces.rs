//! Cutting texts into pieces: at a character, at white space, into words and into lines.

use vstd::prelude::*;
use vstd::seq_lib::*;

use crate::text::{chars_of, is_space, space, string_of};
use crate::types::texts;

verus! {

/// The first position from `from` on at which `c` stands, if there is one.
pub open spec fn first_at(s: Seq<char>, from: int, c: char) -> Option<int>
    decreases s.len() - from,
{
    if from >= s.len() {
        None
    } else if s[from] == c {
        Some(from)
    } else {
        first_at(s, from + 1, c)
    }
}

/// A position that was found lies where it was looked for, and holds the character.
pub proof fn lemma_first_at(s: Seq<char>, from: int, c: char)
    ensures
        first_at(s, from, c) matches Some(e) ==> from <= e < s.len() && s[e] == c,
    decreases s.len() - from,
{
    if from < s.len() && s[from] != c {
        lemma_first_at(s, from + 1, c);
    }
}

/// The first position from `from` on at which `c` stands, if there is one.
pub fn find_char(chars: &Vec<char>, from: usize, target: char) -> (r: Option<usize>)
    requires
        from <= chars@.len(),
    ensures
        match r {
            Some(i) => first_at(chars@, from as int, target) == Some(i as int) && from <= i
                < chars@.len() && chars@[i as int] == target && forall|j: int|
                from <= j < i ==> chars@[j] != target,
            None => first_at(chars@, from as int, target) is None && forall|j: int|
                from <= j < chars@.len() ==> chars@[j] != target,
        },
{
    let mut i: usize = from;
    while i < chars.len()
        invariant
            from <= i <= chars@.len(),
            first_at(chars@, from as int, target) == first_at(chars@, i as int, target),
            forall|j: int| from <= j < i ==> chars@[j] != target,
        decreases chars@.len() - i,
    {
        if chars[i] == target {
            return Some(i);
        }
        i = i + 1;
    }
    None
}

/// Whether `n` characters `c` stand in a row at `i`.
pub open spec fn run_at(s: Seq<char>, i: int, c: char, n: int) -> bool {
    0 <= i && i + n <= s.len() && forall|k: int| i <= k < i + n ==> s[k] == c
}

/// The first position from `from` on at which `n` characters `c` stand in a row, if there is
/// one.
pub open spec fn first_run(s: Seq<char>, from: int, c: char, n: int) -> Option<int>
    decreases s.len() - from,
{
    if from + n > s.len() {
        None
    } else if run_at(s, from, c, n) {
        Some(from)
    } else {
        first_run(s, from + 1, c, n)
    }
}

/// A run that was found lies where it was looked for.
pub proof fn lemma_first_run(s: Seq<char>, from: int, c: char, n: int)
    ensures
        first_run(s, from, c, n) matches Some(e) ==> from <= e && e + n <= s.len() && run_at(
            s,
            e,
            c,
            n,
        ),
    decreases s.len() - from,
{
    if from + n <= s.len() && !run_at(s, from, c, n) {
        lemma_first_run(s, from + 1, c, n);
    }
}

/// The first position from `from` on at which `n` characters `target` stand in a row, if
/// there is one. Behind the end there is none; up to the end, an empty row stands anywhere.
pub fn find_run(chars: &Vec<char>, from: usize, target: char, n: usize) -> (r: Option<usize>)
    ensures
        match r {
            Some(i) => first_run(chars@, from as int, target, n as int) == Some(i as int) && from
                <= i && i + n <= chars@.len() && run_at(chars@, i as int, target, n as int),
            None => first_run(chars@, from as int, target, n as int) is None,
        },
{
    let mut i: usize = from;
    while i <= chars.len() && n <= chars.len() - i
        invariant
            from <= i,
            first_run(chars@, from as int, target, n as int) == first_run(
                chars@,
                i as int,
                target,
                n as int,
            ),
        decreases chars@.len() - i,
    {
        if is_run(chars, i, target, n) {
            return Some(i);
        }
        i = i + 1;
    }
    None
}

/// Whether `n` characters `c` stand in a row at `i`.
pub fn is_run(chars: &Vec<char>, i: usize, c: char, n: usize) -> (r: bool)
    requires
        i <= chars@.len(),
    ensures
        r == run_at(chars@, i as int, c, n as int),
{
    if n > chars.len() - i {
        return false;
    }
    let mut k: usize = 0;
    while k < n
        invariant
            k <= n,
            i + n <= chars.len(),
            forall|j: int| i <= j < i + k ==> chars@[j] == c,
        decreases n - k,
    {
        if chars[i + k] != c {
            assert(chars@[i + k] != c);
            return false;
        }
        k = k + 1;
    }
    true
}

// ---- white space ----

/// The first position from `from` on at which white space stands; the end where none does.
pub open spec fn word_end(s: Seq<char>, from: int) -> int
    decreases s.len() - from,
{
    if from >= s.len() {
        s.len() as int
    } else if is_space(s[from]) {
        from
    } else {
        word_end(s, from + 1)
    }
}

/// A word ends no earlier than it starts.
pub proof fn lemma_word_end(s: Seq<char>, from: int)
    requires
        from <= s.len(),
    ensures
        from <= word_end(s, from) <= s.len(),
    decreases s.len() - from,
{
    if from < s.len() && !is_space(s[from]) {
        lemma_word_end(s, from + 1);
    }
}

/// The first position from `from` on at which white space stands; the end where none does.
pub fn find_space(chars: &Vec<char>, from: usize) -> (r: usize)
    requires
        from <= chars@.len(),
    ensures
        r == word_end(chars@, from as int),
        from <= r <= chars@.len(),
        r < chars@.len() ==> is_space(chars@[r as int]),
        forall|j: int| from <= j < r ==> !is_space(#[trigger] chars@[j]),
{
    let mut i: usize = from;
    while i < chars.len()
        invariant
            from <= i <= chars@.len(),
            word_end(chars@, from as int) == word_end(chars@, i as int),
            forall|j: int| from <= j < i ==> !is_space(#[trigger] chars@[j]),
        decreases chars@.len() - i,
    {
        if space(chars[i]) {
            return i;
        }
        i = i + 1;
    }
    i
}

/// What stands before the first white space, and what stands behind it, if there is any.
pub open spec fn cut(s: Seq<char>) -> (Seq<char>, Option<Seq<char>>) {
    let e = word_end(s, 0);
    (
        s.take(e),
        if e < s.len() {
            Some(s.skip(e + 1))
        } else {
            None
        },
    )
}

/// What stands before the first white space, and what stands behind it, if there is any.
pub fn cut_at_space(s: &str) -> (r: (String, Option<String>))
    ensures
        (r.0@, crate::types::opt_text(r.1)) == cut(s@),
{
    let chars = chars_of(s);
    let e = find_space(&chars, 0);
    let first = string_of(&chars, 0, e);
    assert(first@ =~= s@.take(e as int));
    if e < chars.len() {
        let rest = string_of(&chars, e + 1, chars.len());
        assert(rest@ =~= s@.skip(e + 1));
        (first, Some(rest))
    } else {
        (first, None)
    }
}

/// The words of a text from a position on: what stands between white space.
pub open spec fn words_from(s: Seq<char>, i: int) -> Seq<Seq<char>>
    decreases s.len() - i,
{
    if i >= s.len() || i < 0 {
        seq![]
    } else if is_space(s[i]) {
        words_from(s, i + 1)
    } else {
        proof {
            lemma_word_end(s, i + 1);
        }
        seq![s.subrange(i, word_end(s, i))] + words_from(s, word_end(s, i))
    }
}

/// The words of a text.
pub open spec fn words(s: Seq<char>) -> Seq<Seq<char>> {
    words_from(s, 0)
}

/// The words of a text.
pub fn split_words(s: &str) -> (out: Vec<String>)
    ensures
        texts(out@) == words(s@),
{
    let chars = chars_of(s);
    let mut out: Vec<String> = Vec::new();
    let mut i: usize = 0;
    assert(texts(out@) + words_from(s@, 0) =~= words(s@));
    while i < chars.len()
        invariant
            chars@ == s@,
            i <= chars@.len(),
            texts(out@) + words_from(s@, i as int) == words(s@),
        decreases chars@.len() - i,
    {
        if space(chars[i]) {
            i = i + 1;
        } else {
            let e = find_space(&chars, i);
            assert(e > i);
            let word = string_of(&chars, i, e);
            let ghost done = out@;
            out.push(word);
            proof {
                assert(texts(out@) =~= texts(done).push(word@));
                assert(texts(out@) + words_from(s@, e as int) =~= texts(done) + words_from(
                    s@,
                    i as int,
                ));
            }
            i = e;
        }
    }
    assert(texts(out@) + words_from(s@, i as int) =~= texts(out@));
    out
}

// ---- lines ----

/// A line without the carriage return at its end, where it has one.
pub open spec fn without_return(line: Seq<char>) -> Seq<char> {
    if line.len() > 0 && line.last() == '\r' {
        line.drop_last()
    } else {
        line
    }
}

/// The lines of a text from a position on. Each ends with a line feed, which may have a
/// carriage return before it, or with the text.
pub open spec fn lines_from(s: Seq<char>, i: int) -> Seq<Seq<char>>
    decreases s.len() - i,
{
    if i >= s.len() || i < 0 {
        seq![]
    } else {
        proof {
            lemma_first_at(s, i, '\n');
        }
        match first_at(s, i, '\n') {
            Some(e) => seq![without_return(s.subrange(i, e))] + lines_from(s, e + 1),
            None => seq![s.skip(i)],
        }
    }
}

/// The lines of a text.
pub open spec fn lines(s: Seq<char>) -> Seq<Seq<char>> {
    lines_from(s, 0)
}

/// The lines of a text.
pub fn split_lines(s: &str) -> (out: Vec<String>)
    ensures
        texts(out@) == lines(s@),
{
    let chars = chars_of(s);
    let mut out: Vec<String> = Vec::new();
    let mut i: usize = 0;
    assert(texts(out@) + lines_from(s@, 0) =~= lines(s@));
    while i < chars.len()
        invariant
            chars@ == s@,
            i <= chars@.len(),
            texts(out@) + lines_from(s@, i as int) == lines(s@),
        decreases chars@.len() - i,
    {
        let ghost done = out@;
        match find_char(&chars, i, '\n') {
            Some(e) => {
                let to: usize = if e > i && chars[e - 1] == '\r' {
                    e - 1
                } else {
                    e
                };
                let line = string_of(&chars, i, to);
                assert(line@ =~= without_return(s@.subrange(i as int, e as int)));
                out.push(line);
                proof {
                    assert(texts(out@) =~= texts(done).push(line@));
                    assert(texts(out@) + lines_from(s@, e + 1) =~= texts(done) + lines_from(
                        s@,
                        i as int,
                    ));
                }
                i = e + 1;
            },
            None => {
                let line = string_of(&chars, i, chars.len());
                assert(line@ =~= s@.skip(i as int));
                out.push(line);
                proof {
                    assert(texts(out@) =~= texts(done).push(line@));
                    assert(texts(out@) =~= texts(done) + lines_from(s@, i as int));
                    assert(lines_from(s@, s@.len() as int) =~= seq![]);
                    assert(texts(out@) + lines_from(s@, s@.len() as int) =~= texts(out@));
                }
                i = chars.len();
            },
        }
    }
    assert(texts(out@) + lines_from(s@, i as int) =~= texts(out@));
    out
}

// ---- leading and trailing characters ----

/// A text without the characters `c` at its start.
pub open spec fn strip_start(s: Seq<char>, c: char) -> Seq<char>
    decreases s.len(),
{
    if s.len() > 0 && s[0] == c {
        strip_start(s.skip(1), c)
    } else {
        s
    }
}

/// A text without the characters `c` at its end.
pub open spec fn strip_end(s: Seq<char>, c: char) -> Seq<char>
    decreases s.len(),
{
    if s.len() > 0 && s.last() == c {
        strip_end(s.drop_last(), c)
    } else {
        s
    }
}

/// A text without the characters `c` at its start.
pub fn trim_start_char(s: &str, c: char) -> (r: String)
    ensures
        r@ == strip_start(s@, c),
{
    let chars = chars_of(s);
    let mut i: usize = 0;
    assert(s@.skip(0) =~= s@);
    while i < chars.len() && chars[i] == c
        invariant
            chars@ == s@,
            i <= chars@.len(),
            strip_start(s@, c) == strip_start(s@.skip(i as int), c),
        decreases chars@.len() - i,
    {
        assert(s@.skip(i as int).skip(1) =~= s@.skip(i + 1));
        i = i + 1;
    }
    let r = string_of(&chars, i, chars.len());
    assert(r@ =~= s@.skip(i as int));
    r
}

/// The characters without `c` at the start and at the end.
pub fn trim_char(chars: &Vec<char>, from: usize, to: usize, c: char) -> (r: String)
    requires
        from <= to <= chars@.len(),
    ensures
        r@ == strip_end(strip_start(chars@.subrange(from as int, to as int), c), c),
{
    let ghost s = chars@.subrange(from as int, to as int);
    let mut a: usize = from;
    while a < to && chars[a] == c
        invariant
            from <= a <= to <= chars@.len(),
            strip_start(s, c) == strip_start(chars@.subrange(a as int, to as int), c),
        decreases to - a,
    {
        assert(chars@.subrange(a as int, to as int).skip(1) =~= chars@.subrange(
            a + 1,
            to as int,
        ));
        a = a + 1;
    }
    let ghost left = chars@.subrange(a as int, to as int);
    assert(strip_start(s, c) == left);
    let mut b: usize = to;
    while b > a && chars[b - 1] == c
        invariant
            a <= b <= to <= chars@.len(),
            strip_end(left, c) == strip_end(chars@.subrange(a as int, b as int), c),
        decreases b - a,
    {
        assert(chars@.subrange(a as int, b as int).drop_last() =~= chars@.subrange(
            a as int,
            b - 1,
        ));
        b = b - 1;
    }
    string_of(chars, a, b)
}

} // verus!
