//! What the words mean that everything else is stated in: moments, characters, mentions,
//! numbers, recipients and intents.

use vstd::prelude::*;

use crate::clock::{whole_seconds, Timestamp};
use crate::mentions::{
    is_name_char, law_mentions_complete, lemma_name_end, lemma_name_end_bounds, mention_at,
    mentions, mentions_before, name_at, name_end,
};
use crate::text::{
    all_digits, decimal, has_part, is_digit, is_space, lemma_decimal_reads_back, lower_text,
    pad_left, pad_right, parsed_signed, parsed_unsigned, signed, stands_at, trim_left, trim_right,
    trimmed,
};
use crate::types::{intent_of_word, intent_word, parsed_recipient, Intent, RecipientView};

verus! {

// ---- moments ----

/// Moments are ordered by their seconds, and within a second by their nanoseconds; from one
/// second to the next there are 1000000000 nanoseconds.
pub proof fn law_moments(a: Timestamp, b: Timestamp)
    ensures
        a.nanos < 1000000000 && b.nanos < 1000000000 ==> (a.at() < b.at() <==> a.secs < b.secs || (
        a.secs == b.secs && a.nanos < b.nanos)),
        a.nanos < 1000000000 && b.nanos < 1000000000 && a.at() == b.at() ==> a == b,
        a.at() - b.at() == 1000000000 * (a.secs - b.secs) + (a.nanos - b.nanos),
        a.secs == 0 ==> a.at() == a.nanos,
{
}

/// A span in whole seconds is the largest that fits into it, and a span back in time is as many
/// seconds as the same span forward.
pub proof fn law_whole_seconds(span: int)
    requires
        span >= 0,
    ensures
        whole_seconds(span) * 1000000000 <= span < (whole_seconds(span) + 1) * 1000000000,
        whole_seconds(-span) == -whole_seconds(span),
{
}

// ---- characters ----

/// White space is the space, the tab, the ends of lines and pages, and the spaces of Unicode;
/// no letter, digit or mark of ASCII is.
pub proof fn law_white_space(c: char)
    ensures
        is_space(c) <==> (c == ' ' || c == '\t' || c == '\n' || c == '\r' || c == '\u{b}' || c
            == '\u{c}' || c == '\u{85}' || c == '\u{a0}' || c == '\u{1680}' || '\u{2000}' as int
            <= c as int <= '\u{200a}' as int || c == '\u{2028}' || c == '\u{2029}' || c == '\u{202f}'
            || c == '\u{205f}' || c == '\u{3000}'),
        33 <= c as int <= 126 ==> !is_space(c),
{
}

/// Whether a part of a text runs from one place up to another.
pub open spec fn runs(s: Seq<char>, i: int, j: int, part: Seq<char>) -> bool {
    0 <= i <= j <= s.len() && part == s.subrange(i, j)
}

/// Whether a text has white space at each place from one up to another.
pub open spec fn blank(s: Seq<char>, i: int, j: int) -> bool {
    forall|k: int| i <= k < j ==> is_space(#[trigger] s[k])
}

proof fn lemma_trim_left(s: Seq<char>) -> (i: int)
    ensures
        0 <= i <= s.len(),
        trim_left(s) == s.skip(i),
        blank(s, 0, i),
        i < s.len() ==> !is_space(s[i]),
    decreases s.len(),
{
    if s.len() > 0 && is_space(s[0]) {
        let rest = s.skip(1);
        let i = lemma_trim_left(rest);
        assert(rest.skip(i) =~= s.skip(i + 1));
        assert forall|k: int| 0 <= k < i + 1 implies is_space(#[trigger] s[k]) by {
            if k > 0 {
                assert(rest[k - 1] == s[k]);
            }
        }
        if i + 1 < s.len() {
            assert(rest[i] == s[i + 1]);
        }
        i + 1
    } else {
        assert(s.skip(0) =~= s);
        0
    }
}

proof fn lemma_trim_right(s: Seq<char>) -> (j: int)
    ensures
        0 <= j <= s.len(),
        trim_right(s) == s.take(j),
        blank(s, j, s.len() as int),
        j > 0 ==> !is_space(s[j - 1]),
    decreases s.len(),
{
    if s.len() > 0 && is_space(s.last()) {
        let front = s.drop_last();
        let j = lemma_trim_right(front);
        assert(front.take(j) =~= s.take(j));
        assert forall|k: int| j <= k < s.len() implies is_space(#[trigger] s[k]) by {
            if k < s.len() - 1 {
                assert(front[k] == s[k]);
            }
        }
        if j > 0 {
            assert(front[j - 1] == s[j - 1]);
        }
        j
    } else {
        assert(s.take(s.len() as int) =~= s);
        s.len() as int
    }
}

/// Where the text without the white space at its ends begins and ends: before it and behind it
/// there is only white space, and it neither begins nor ends with any.
pub proof fn law_trimmed(s: Seq<char>) -> (ends: (int, int))
    ensures
        runs(s, ends.0, ends.1, trimmed(s)),
        blank(s, 0, ends.0),
        blank(s, ends.1, s.len() as int),
        trimmed(s).len() > 0 ==> !is_space(trimmed(s)[0]) && !is_space(trimmed(s).last()),
{
    let i = lemma_trim_left(s);
    let left = s.skip(i);
    let j = lemma_trim_right(left);
    assert(left.take(j) =~= s.subrange(i, i + j));
    assert forall|k: int| i + j <= k < s.len() implies is_space(#[trigger] s[k]) by {
        assert(left[k - i] == s[k]);
    }
    if j > 0 {
        assert(left[0] == s[i]);
    }
    (i, i + j)
}

/// A text without white space at its ends is what is left when any is put around it.
pub proof fn law_padding_is_trimmed(before: Seq<char>, s: Seq<char>, after: Seq<char>)
    requires
        blank(before, 0, before.len() as int),
        blank(after, 0, after.len() as int),
        s.len() > 0,
        !is_space(s[0]),
        !is_space(s.last()),
    ensures
        trimmed(before + s + after) == s,
{
    let all = before + s + after;
    let a = before.len() as int;
    let b = a + s.len();
    let (i, j) = law_trimmed(all);
    assert(all[a] == s[0] && all[b - 1] == s.last());
    assert(i <= a) by {
        if i > a {
            assert(is_space(all[a]));
        }
    }
    assert(j >= b) by {
        if j < b {
            assert(is_space(all[b - 1]));
        }
    }
    assert(i == a) by {
        if i < a {
            assert(trimmed(all)[0] == all[i]);
            assert(all[i] == before[i]);
        }
    }
    assert(j == b) by {
        if j > b {
            assert(trimmed(all).last() == all[j - 1]);
            assert(all[j - 1] == after[j - 1 - b]);
        }
    }
    assert(all.subrange(a, b) =~= s);
}

/// Letters are compared without their case: `A` to `Z` are as `a` to `z`, and every other
/// character is itself.
pub proof fn law_lower_text(s: Seq<char>, i: int)
    requires
        0 <= i < s.len(),
    ensures
        lower_text(s).len() == s.len(),
        'A' as int <= s[i] as int <= 'Z' as int ==> lower_text(s)[i] as int == s[i] as int + ('a' as int
            - 'A' as int),
        !('A' as int <= s[i] as int <= 'Z' as int) ==> lower_text(s)[i] == s[i],
{
}

/// A text stands in another if and only if the other is it, with something before and behind.
pub proof fn law_part(s: Seq<char>, part: Seq<char>, before: Seq<char>, after: Seq<char>)
    ensures
        s == before + part + after ==> has_part(s, part),
        has_part(s, part) ==> exists|i: int|
            0 <= i && i + part.len() <= s.len() && s == s.take(i) + part + #[trigger] s.skip(
                i + part.len(),
            ),
{
    if s == before + part + after {
        let i = before.len() as int;
        assert(s.subrange(i, i + part.len()) =~= part);
        assert(stands_at(s, part, i));
    }
    if has_part(s, part) {
        let i = choose|i: int| #[trigger] stands_at(s, part, i);
        assert(s =~= s.take(i) + part + s.skip(i + part.len()));
    }
}

// ---- mentions ----

/// Whether a name is mentioned at a place of a body: an `@` at its start or behind white space,
/// and then the name, all of it ASCII letters, digits, `-` and `_`, with none of these behind
/// it.
pub open spec fn mentioned_at(s: Seq<char>, i: int, name: Seq<char>) -> bool {
    let end = i + 1 + name.len();
    &&& 0 <= i && end <= s.len() && name.len() > 0
    &&& s[i] == '@'
    &&& i == 0 || is_space(s[i - 1])
    &&& forall|k: int| 0 <= k < name.len() ==> #[trigger] name[k] == s[i + 1 + k] && in_name(name[k])
    &&& end == s.len() || !in_name(s[end])
}

/// ASCII letters and digits, `-` and `_`.
pub open spec fn in_name(c: char) -> bool {
    'a' as int <= c as int <= 'z' as int || 'A' as int <= c as int <= 'Z' as int || '0' as int
        <= c as int <= '9' as int || c == '-' || c == '_'
}

proof fn lemma_mentioned(s: Seq<char>, i: int, name: Seq<char>)
    ensures
        mentioned_at(s, i, name) <==> mention_at(s, i) && name_at(s, i) == name,
{
    assert(forall|c: char| #[trigger] in_name(c) == is_name_char(c));
    if mentioned_at(s, i, name) {
        let end = i + 1 + name.len();
        assert(name[0] == s[i + 1] && in_name(name[0]));
        assert forall|k: int| i + 1 <= k < end implies is_name_char(#[trigger] s[k]) by {
            assert(name[k - i - 1] == s[k]);
            assert(in_name(name[k - i - 1]));
        }
        if end < s.len() {
            assert(!in_name(s[end]));
        }
        lemma_name_end(s, i + 1, end);
        assert(s.subrange(i + 1, end) =~= name);
    }
    if mention_at(s, i) && name_at(s, i) == name {
        lemma_name_end_bounds(s, i + 1);
        lemma_name_end_bounds(s, i + 2);
        let end = name_end(s, i + 1);
        lemma_name_end_stops(s, i + 1);
        assert(end == name_end(s, i + 2));
        assert forall|k: int| 0 <= k < name.len() implies #[trigger] name[k] == s[i + 1 + k]
            && in_name(name[k]) by {
            assert(is_name_char(s[i + 1 + k]));
            assert(in_name(s[i + 1 + k]));
        }
        if end < s.len() {
            assert(!in_name(s[end]));
        }
    }
}

proof fn lemma_name_end_stops(s: Seq<char>, i: int)
    requires
        0 <= i <= s.len(),
    ensures
        i <= name_end(s, i) <= s.len(),
        name_end(s, i) < s.len() ==> !is_name_char(s[name_end(s, i)]),
    decreases s.len() - i,
{
    if i < s.len() && is_name_char(s[i]) {
        lemma_name_end_stops(s, i + 1);
    }
}

/// The names mentioned in a body are exactly those that are mentioned at some place of it, each
/// once, and those whose first mention is earlier come first.
pub proof fn law_mentions(s: Seq<char>, name: Seq<char>, j: int, k: int)
    ensures
        mentions(s).contains(name) <==> exists|i: int| #[trigger] mentioned_at(s, i, name),
        0 <= j < k < mentions(s).len() ==> mentions(s)[j] != mentions(s)[k] && exists|i: int| #[trigger]
            mentioned_at(s, i, mentions(s)[j]) && forall|x: int| #[trigger]
                mentioned_at(s, x, mentions(s)[k]) ==> i < x,
{
    law_mentions_complete(s, name);
    if mentions(s).contains(name) {
        let i = choose|i: int| #[trigger] mention_at(s, i) && name_at(s, i) == name;
        lemma_mentioned(s, i, name);
        assert(mentioned_at(s, i, name));
    }
    if exists|i: int| #[trigger] mentioned_at(s, i, name) {
        let i = choose|i: int| #[trigger] mentioned_at(s, i, name);
        lemma_mentioned(s, i, name);
    }
    if 0 <= j < k < mentions(s).len() {
        lemma_first_mention(s, s.len() as int, j, k);
    }
}

proof fn lemma_first_mention(s: Seq<char>, n: int, j: int, k: int)
    requires
        0 <= n <= s.len(),
        0 <= j < k < mentions_before(s, n).len(),
    ensures
        mentions_before(s, n)[j] != mentions_before(s, n)[k],
        exists|i: int| #[trigger]
            mentioned_at(s, i, mentions_before(s, n)[j]) && i < n && forall|x: int| #[trigger]
                mentioned_at(s, x, mentions_before(s, n)[k]) ==> i < x,
    decreases n,
{
    let earlier = mentions_before(s, n - 1);
    let here = name_at(s, n - 1);
    if k < earlier.len() {
        lemma_first_mention(s, n - 1, j, k);
        let i = choose|i: int| #[trigger]
            mentioned_at(s, i, earlier[j]) && i < n - 1 && forall|x: int| #[trigger]
                mentioned_at(s, x, earlier[k]) ==> i < x;
        assert(mentioned_at(s, i, mentions_before(s, n)[j]));
    } else {
        assert(mentions_before(s, n) == earlier.push(here));
        assert(earlier.contains(earlier[j]));
        crate::mentions::lemma_mentions_before(s, n - 1, earlier[j]);
        let i = choose|i: int|
            i < n - 1 && #[trigger] mention_at(s, i) && name_at(s, i) == earlier[j];
        lemma_mentioned(s, i, earlier[j]);
        assert forall|x: int| #[trigger] mentioned_at(s, x, here) implies i < x by {
            lemma_mentioned(s, x, here);
            if x < n - 1 {
                crate::mentions::lemma_mentions_before(s, n - 1, here);
            }
        }
        assert(mentioned_at(s, i, mentions_before(s, n)[j]));
    }
}

// ---- numbers ----

/// A number is written with digits alone, the last of which is its remainder by ten, and
/// without a zero in front; a negative one has a minus sign before it.
pub proof fn law_decimal(n: nat)
    ensures
        decimal(n).len() > 0,
        forall|i: int| 0 <= i < decimal(n).len() ==> '0' as int <= #[trigger] decimal(n)[i] as int
            <= '9' as int,
        decimal(n).last() as int == '0' as int + n % 10,
        n >= 10 ==> decimal(n).drop_last() == decimal(n / 10),
        n < 10 ==> decimal(n).len() == 1,
        n > 0 ==> decimal(n)[0] != '0',
        signed(n as int) == decimal(n),
        n > 0 ==> signed(-n) == seq!['-'] + decimal(n),
    decreases n,
{
    lemma_decimal_reads_back(n);
    assert forall|i: int| 0 <= i < decimal(n).len() implies '0' as int <= #[trigger] decimal(
        n,
    )[i] as int <= '9' as int by {
        assert(is_digit(decimal(n)[i]));
    }
    if n >= 10 {
        law_decimal(n / 10);
        assert(decimal(n).drop_last() =~= decimal(n / 10));
        assert(decimal(n)[0] == decimal(n / 10)[0]);
    }
}

/// A number that was written is read as that number where it is not too large, with a plus sign
/// before it too; a negative one is read as itself.
pub proof fn law_number_reads_back(n: nat, max: nat)
    ensures
        parsed_unsigned(decimal(n), max) == if n <= max {
            Some(n)
        } else {
            None
        },
        parsed_unsigned(seq!['+'] + decimal(n), max) == parsed_unsigned(decimal(n), max),
        n <= i64::MAX ==> parsed_signed(signed(n as int)) == Some(n as int),
        n <= i64::MAX + 1 ==> parsed_signed(seq!['-'] + decimal(n)) == Some(-(n as int)),
        n > i64::MAX ==> parsed_signed(decimal(n)) is None,
        n > i64::MAX + 1 ==> parsed_signed(seq!['-'] + decimal(n)) is None,
{
    law_decimal(n);
    lemma_decimal_reads_back(n);
    assert(decimal(n)[0] as int >= '0' as int);
    assert((seq!['+'] + decimal(n)).skip(1) =~= decimal(n));
    assert((seq!['-'] + decimal(n)).skip(1) =~= decimal(n));
}

/// Nothing but digits behind a sign is read as a number.
pub proof fn law_no_number(s: Seq<char>, max: nat, i: int)
    requires
        s.len() == 0 || (0 <= i < s.len() && !('0' as int <= s[i] as int <= '9' as int) && (i > 0 || (
        s[0] != '+' && s[0] != '-') || s.len() == 1)),
    ensures
        parsed_unsigned(s, max) is None,
        parsed_signed(s) is None,
{
    if s.len() > 0 {
        assert(!is_digit(s[i]));
        if i > 0 {
            assert(s.skip(1)[i - 1] == s[i]);
        }
        assert(all_digits(s) ==> is_digit(s[i]));
    }
}

/// A column is as wide as asked, with the text at its left or its right end and spaces
/// elsewhere; a text that is wider stays as it is.
pub proof fn law_columns(s: Seq<char>, width: nat, i: int)
    ensures
        s.len() >= width ==> pad_right(s, width) == s && pad_left(s, width) == s,
        s.len() < width ==> pad_right(s, width).len() == width && pad_left(s, width).len() == width,
        s.len() < width ==> pad_right(s, width).take(s.len() as int) == s && pad_left(
            s,
            width,
        ).skip(width - s.len()) == s,
        s.len() <= i < width ==> pad_right(s, width)[i] == ' ',
        0 <= i < width - s.len() ==> pad_left(s, width)[i] == ' ',
{
    if s.len() < width {
        assert(pad_right(s, width).take(s.len() as int) =~= s);
        assert(pad_left(s, width).skip(width - s.len()) =~= s);
    }
}

// ---- recipients and intents ----

/// White space around it aside, `*` is everyone, a name behind `@` is that agent, one behind `#`
/// is that channel, and any other name is the agent of that name.
pub proof fn law_recipient(before: Seq<char>, name: Seq<char>, after: Seq<char>)
    requires
        blank(before, 0, before.len() as int),
        blank(after, 0, after.len() as int),
        name.len() > 0,
        !is_space(name[0]),
        !is_space(name.last()),
    ensures
        parsed_recipient(before + seq!['*'] + after) == RecipientView::Broadcast,
        parsed_recipient(before + (seq!['@'] + name) + after) == RecipientView::Agent(name),
        parsed_recipient(before + (seq!['#'] + name) + after) == RecipientView::Channel(name),
        name[0] != '@' && name[0] != '#' && name != seq!['*'] ==> parsed_recipient(
            before + name + after,
        ) == RecipientView::Agent(name),
{
    reveal_strlit("*");
    assert("*"@ =~= seq!['*']);
    law_padding_is_trimmed(before, seq!['*'], after);
    let at = seq!['@'] + name;
    let hash = seq!['#'] + name;
    assert(at.last() == name.last() && hash.last() == name.last());
    assert(at[0] == '@' && hash[0] == '#' && "*"@[0] == '*');
    law_padding_is_trimmed(before, at, after);
    law_padding_is_trimmed(before, hash, after);
    law_padding_is_trimmed(before, name, after);
    assert(at.skip(1) =~= name && hash.skip(1) =~= name);
}

/// The words for the intents, and no others, name intents.
pub proof fn law_intents(s: Seq<char>, i: Intent)
    ensures
        intent_of_word(s) == Some(i) <==> s == match i {
            Intent::Fyi => "fyi"@,
            Intent::Question => "question"@,
            Intent::Task => "task"@,
            Intent::Handoff => "handoff"@,
        },
        intent_word(i) == s <==> intent_of_word(s) == Some(i),
{
    reveal_strlit("fyi");
    reveal_strlit("question");
    reveal_strlit("task");
    reveal_strlit("handoff");
    assert("fyi"@.len() == 3 && "question"@.len() == 8 && "task"@.len() == 4 && "handoff"@.len()
        == 7);
}

} // verus!
