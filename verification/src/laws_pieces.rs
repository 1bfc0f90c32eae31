//! What cutting a text into pieces means: where it is cut, and what the pieces are.

use vstd::prelude::*;
use vstd::seq_lib::*;

use crate::pieces::{
    cut, first_at, lines, lines_from, strip_end, strip_start, word_end, words, words_from,
};
use crate::text::is_space;

verus! {

/// The first place of a character is the one at which it stands with none of it before.
pub proof fn law_first_place(s: Seq<char>, from: int, c: char, e: int)
    ensures
        first_at(s, from, c) == Some(e) <==> from <= e < s.len() && s[e] == c && forall|j: int|
            from <= j < e ==> #[trigger] s[j] != c,
        first_at(s, from, c) is None <==> forall|j: int|
            from <= j < s.len() ==> #[trigger] s[j] != c,
    decreases s.len() - from,
{
    if from < s.len() {
        law_first_place(s, from + 1, c, e);
    }
}

/// Whether a text holds no white space.
pub open spec fn unbroken(s: Seq<char>) -> bool {
    forall|i: int| 0 <= i < s.len() ==> !is_space(#[trigger] s[i])
}

proof fn lemma_word_ends(s: Seq<char>, from: int, e: int)
    requires
        0 <= from <= e <= s.len(),
        forall|i: int| from <= i < e ==> !is_space(#[trigger] s[i]),
        e < s.len() ==> is_space(s[e]),
    ensures
        word_end(s, from) == e,
    decreases e - from,
{
    if from < e {
        lemma_word_ends(s, from + 1, e);
    }
}

proof fn lemma_word_found(s: Seq<char>, from: int)
    requires
        0 <= from <= s.len(),
    ensures
        from <= word_end(s, from) <= s.len(),
        forall|i: int| from <= i < word_end(s, from) ==> !is_space(#[trigger] s[i]),
        word_end(s, from) < s.len() ==> is_space(s[word_end(s, from)]),
    decreases s.len() - from,
{
    if from < s.len() && !is_space(s[from]) {
        lemma_word_found(s, from + 1);
    }
}

/// A text is cut at its first white space; one without any is all in front.
pub proof fn law_cut(a: Seq<char>, c: char, b: Seq<char>)
    requires
        unbroken(a),
        is_space(c),
    ensures
        cut(a + seq![c] + b) == (a, Some(b)),
        cut(a) == (a, None::<Seq<char>>),
{
    let s = a + seq![c] + b;
    let e = a.len() as int;
    assert(s[e] == c);
    assert forall|i: int| 0 <= i < e implies !is_space(#[trigger] s[i]) by {
        assert(s[i] == a[i]);
    }
    lemma_word_ends(s, 0, e);
    lemma_word_ends(a, 0, e);
    assert(s.take(e) =~= a);
    assert(s.skip(e + 1) =~= b);
    assert(a.take(e) =~= a);
}

proof fn lemma_words_shift(s: Seq<char>, i: int)
    requires
        0 <= i <= s.len(),
    ensures
        words_from(s, i) == words(s.skip(i)),
    decreases s.len() - i,
{
    let t = s.skip(i);
    if i < s.len() {
        assert(t[0] == s[i]);
        if is_space(s[i]) {
            lemma_words_shift(s, i + 1);
            lemma_words_shift(t, 1);
            assert(t.skip(1) =~= s.skip(i + 1));
        } else {
            lemma_word_found(s, i);
            let e = word_end(s, i);
            assert(e > i);
            assert forall|k: int| 0 <= k < e - i implies !is_space(#[trigger] t[k]) by {
                assert(t[k] == s[k + i]);
            }
            if e < s.len() {
                assert(t[e - i] == s[e]);
            }
            lemma_word_ends(t, 0, e - i);
            lemma_words_shift(s, e);
            lemma_words_shift(t, e - i);
            assert(t.skip(e - i) =~= s.skip(e));
            assert(t.subrange(0, e - i) =~= s.subrange(i, e));
        }
    }
}

/// The words of two texts with white space between them are those of the first and then those of
/// the second; a text without white space is one word, unless it is empty.
pub proof fn law_words(a: Seq<char>, c: char, b: Seq<char>)
    requires
        is_space(c),
    ensures
        words(a + seq![c] + b) == words(a) + words(b),
        unbroken(a) && a.len() > 0 ==> words(a) == seq![a],
        words(Seq::<char>::empty()).len() == 0,
    decreases a.len(),
{
    let s = a + seq![c] + b;
    if a.len() == 0 {
        assert(s[0] == c);
        lemma_words_shift(s, 1);
        assert(s.skip(1) =~= b);
        assert(words(a) =~= seq![]);
    } else {
        assert(s[0] == a[0]);
        let e = if is_space(a[0]) {
            1int
        } else {
            lemma_word_found(a, 0);
            word_end(a, 0)
        };
        if !is_space(a[0]) {
            assert forall|k: int| 0 <= k < e implies !is_space(#[trigger] s[k]) by {
                assert(s[k] == a[k]);
            }
            assert(s[e] == if e < a.len() {
                a[e]
            } else {
                c
            });
            lemma_word_ends(s, 0, e);
            assert(s.subrange(0, e) =~= a.subrange(0, e));
            assert(e > 0);
        }
        lemma_words_shift(s, e);
        lemma_words_shift(a, e);
        assert(s.skip(e) =~= a.skip(e) + seq![c] + b);
        law_words(a.skip(e), c, b);
        if unbroken(a) {
            lemma_word_ends(a, 0, a.len() as int);
            assert(a.subrange(0, e) =~= a);
            assert(words_from(a, e) =~= seq![]);
        }
        assert(words(s) =~= words(a) + words(b));
    }
}

/// Every word is unbroken and not empty.
pub proof fn law_words_are_words(s: Seq<char>, i: int, k: int)
    requires
        0 <= i <= s.len(),
        0 <= k < words_from(s, i).len(),
    ensures
        unbroken(words_from(s, i)[k]),
        words_from(s, i)[k].len() > 0,
    decreases s.len() - i,
{
    if is_space(s[i]) {
        law_words_are_words(s, i + 1, k);
    } else {
        lemma_word_found(s, i);
        let e = word_end(s, i);
        assert(e > i);
        if k > 0 {
            law_words_are_words(s, e, k - 1);
        } else {
            let w = s.subrange(i, e);
            assert forall|j: int| 0 <= j < w.len() implies !is_space(#[trigger] w[j]) by {
                assert(w[j] == s[i + j]);
            }
        }
    }
}

proof fn lemma_lines_shift(s: Seq<char>, i: int)
    requires
        0 <= i <= s.len(),
    ensures
        lines_from(s, i) == lines(s.skip(i)),
    decreases s.len() - i,
{
    let t = s.skip(i);
    if i < s.len() {
        match first_at(s, i, '\n') {
            Some(e) => {
                law_first_place(s, i, '\n', e);
                assert forall|k: int| 0 <= k < e - i implies #[trigger] t[k] != '\n' by {
                    assert(t[k] == s[k + i]);
                }
                assert(t[e - i] == s[e]);
                law_first_place(t, 0, '\n', e - i);
                lemma_lines_shift(s, e + 1);
                lemma_lines_shift(t, e - i + 1);
                assert(t.skip(e - i + 1) =~= s.skip(e + 1));
                assert(t.subrange(0, e - i) =~= s.subrange(i, e));
            },
            None => {
                law_first_place(s, i, '\n', 0);
                assert forall|k: int| 0 <= k < t.len() implies #[trigger] t[k] != '\n' by {
                    assert(t[k] == s[k + i]);
                }
                law_first_place(t, 0, '\n', 0);
                assert(t.skip(0) =~= t);
            },
        }
    }
}

/// A text with a line feed in it is the line before the first one, without the carriage return
/// that it may end with, and then the lines behind; one without any is one line, unless it is
/// empty.
pub proof fn law_lines(a: Seq<char>, b: Seq<char>)
    requires
        forall|i: int| 0 <= i < a.len() ==> #[trigger] a[i] != '\n',
    ensures
        a.len() == 0 || a.last() != '\r' ==> lines(a + seq!['\n'] + b) == seq![a] + lines(b),
        lines(a + seq!['\r'] + seq!['\n'] + b) == seq![a] + lines(b),
        lines(a) == if a.len() == 0 {
            seq![]
        } else {
            seq![a]
        },
{
    let s = a + seq!['\n'] + b;
    let e = a.len() as int;
    assert(s[e] == '\n');
    assert forall|i: int| 0 <= i < e implies #[trigger] s[i] != '\n' by {
        assert(s[i] == a[i]);
    }
    law_first_place(s, 0, '\n', e);
    lemma_lines_shift(s, e + 1);
    assert(s.skip(e + 1) =~= b);
    assert(s.subrange(0, e) =~= a);
    let c = a + seq!['\r'];
    let t = a + seq!['\r'] + seq!['\n'] + b;
    assert(t[e + 1] == '\n');
    assert forall|i: int| 0 <= i < e + 1 implies #[trigger] t[i] != '\n' by {
        if i < e {
            assert(t[i] == a[i]);
        } else {
            assert(t[i] == '\r');
        }
    }
    law_first_place(t, 0, '\n', e + 1);
    lemma_lines_shift(t, e + 2);
    assert(t.skip(e + 2) =~= b);
    assert(t.subrange(0, e + 1) =~= c);
    assert(c.last() == '\r');
    assert(c.drop_last() =~= a);
    law_first_place(a, 0, '\n', 0);
    assert(a.skip(0) =~= a);
}

/// However often a character stands at an end of a text, the text without it there is the rest.
pub proof fn law_strip(n: nat, c: char, s: Seq<char>)
    ensures
        s.len() == 0 || s[0] != c ==> strip_start(Seq::new(n, |i: int| c) + s, c) == s,
        s.len() == 0 || s.last() != c ==> strip_end(s + Seq::new(n, |i: int| c), c) == s,
    decreases n,
{
    let row = Seq::new(n, |i: int| c);
    if n == 0 {
        assert(row + s =~= s);
        assert(s + row =~= s);
    } else {
        let less = (n - 1) as nat;
        let rest = Seq::new(less, |i: int| c);
        law_strip(less, c, s);
        assert((row + s)[0] == c);
        assert((row + s).skip(1) =~= rest + s);
        assert((s + row).last() == c);
        assert((s + row).drop_last() =~= s + rest);
    }
}

} // verus!
