//! `@name` mentions in message bodies.

use vstd::prelude::*;

use crate::daemon::keeping::lemma_filter_order;
use crate::text::{chars_of, code_of, is_space, space, string_of};
use crate::types::texts;

verus! {

/// The characters of a mentioned name: ASCII letters and digits, `-` and `_`.
pub open spec fn is_name_char(c: char) -> bool {
    ||| 48 <= c as int <= 57
    ||| 65 <= c as int <= 90
    ||| 97 <= c as int <= 122
    ||| c == '-'
    ||| c == '_'
}

/// Whether position `i` starts a word: it is the first, or white space stands before it.
pub open spec fn starts_word(s: Seq<char>, i: int) -> bool {
    i == 0 || is_space(s[i - 1])
}

/// Whether a mention stands at `i`: an `@` that starts a word, with a name character behind
/// it. An address such as `user@example.com` holds none.
pub open spec fn mention_at(s: Seq<char>, i: int) -> bool {
    0 <= i && i + 1 < s.len() && s[i] == '@' && starts_word(s, i) && is_name_char(s[i + 1])
}

/// The end of the run of name characters that starts at `i`.
pub open spec fn name_end(s: Seq<char>, i: int) -> int
    decreases s.len() - i,
{
    if 0 <= i < s.len() && is_name_char(s[i]) {
        name_end(s, i + 1)
    } else {
        i
    }
}

/// The name mentioned at `i`.
pub open spec fn name_at(s: Seq<char>, i: int) -> Seq<char> {
    s.subrange(i + 1, name_end(s, i + 1))
}

/// The names mentioned before position `n`, each once, in the order of their first mention.
pub open spec fn mentions_before(s: Seq<char>, n: int) -> Seq<Seq<char>>
    decreases n,
{
    if n <= 0 {
        seq![]
    } else {
        let earlier = mentions_before(s, n - 1);
        if mention_at(s, n - 1) && !earlier.contains(name_at(s, n - 1)) {
            earlier.push(name_at(s, n - 1))
        } else {
            earlier
        }
    }
}

/// The names mentioned in a body, each once, in the order of their first mention.
pub open spec fn mentions(s: Seq<char>) -> Seq<Seq<char>> {
    mentions_before(s, s.len() as int)
}

fn name_char(c: char) -> (r: bool)
    ensures
        r == is_name_char(c),
{
    let n: u32 = code_of(c);
    (48 <= n && n <= 57) || (65 <= n && n <= 90) || (97 <= n && n <= 122) || c == '-' || c == '_'
}

pub proof fn lemma_name_end(s: Seq<char>, i: int, j: int)
    requires
        0 <= i <= j <= s.len(),
        forall|k: int| i <= k < j ==> is_name_char(#[trigger] s[k]),
        j < s.len() ==> !is_name_char(s[j]),
    ensures
        name_end(s, i) == j,
    decreases j - i,
{
    if i < j {
        lemma_name_end(s, i + 1, j);
    }
}

/// No mention starts inside a run of name characters.
proof fn lemma_no_mention_inside(s: Seq<char>, i: int, j: int)
    requires
        0 <= i <= j <= s.len(),
        forall|k: int| i <= k < j ==> is_name_char(#[trigger] s[k]),
    ensures
        mentions_before(s, j) == mentions_before(s, i),
    decreases j - i,
{
    if i < j {
        lemma_no_mention_inside(s, i, j - 1);
        assert(is_name_char(s[j - 1]));
    }
}

/// The names mentioned in `body`, each once, in the order of their first mention.
pub fn extract_mentions(body: &str) -> (out: Vec<String>)
    ensures
        texts(out@) == mentions(body@),
{
    let chars = chars_of(body);
    let mut out: Vec<String> = Vec::new();
    let mut i: usize = 0;
    assert(texts(out@) =~= mentions_before(body@, 0));
    while i < chars.len()
        invariant
            chars@ == body@,
            i <= chars@.len(),
            texts(out@) == mentions_before(body@, i as int),
        decreases chars@.len() - i,
    {
        let word: bool = i == 0 || space(chars[i - 1]);
        if word && chars[i] == '@' {
            let start: usize = i + 1;
            let mut end: usize = start;
            while end < chars.len() && name_char(chars[end])
                invariant
                    chars@ == body@,
                    start <= end <= chars@.len(),
                    forall|k: int| start <= k < end ==> is_name_char(#[trigger] body@[k]),
                decreases chars@.len() - end,
            {
                end = end + 1;
            }
            proof {
                lemma_name_end(body@, start as int, end as int);
                lemma_no_mention_inside(body@, start as int, end as int);
            }
            if end > start {
                let name = string_of(&chars, start, end);
                assert(mention_at(body@, i as int));
                assert(name@ == name_at(body@, i as int));
                if !has_text(&out, &name) {
                    let ghost before = out@;
                    out.push(name);
                    assert(texts(out@) =~= texts(before).push(name@));
                }
            }
            i = end;
        } else {
            i = i + 1;
        }
    }
    out
}

/// Whether `list` holds the text of `wanted`.
pub fn has_text(list: &Vec<String>, wanted: &str) -> (r: bool)
    ensures
        r == texts(list@).contains(wanted@),
{
    let mut i: usize = 0;
    while i < list.len()
        invariant
            i <= list@.len(),
            forall|j: int| 0 <= j < i ==> #[trigger] texts(list@)[j] != wanted@,
        decreases list@.len() - i,
    {
        if *list[i].as_str() == *wanted {
            assert(texts(list@)[i as int] == wanted@);
            return true;
        }
        i = i + 1;
    }
    false
}

/// The mentioned names are exactly those that stand at some mention.
pub proof fn law_mentions_complete(s: Seq<char>, name: Seq<char>)
    ensures
        mentions(s).contains(name) <==> exists|i: int|
            #[trigger] mention_at(s, i) && name_at(s, i) == name,
{
    lemma_mentions_before(s, s.len() as int, name);
    if mentions(s).contains(name) {
    } else if exists|i: int| #[trigger] mention_at(s, i) && name_at(s, i) == name {
        let i = choose|i: int| #[trigger] mention_at(s, i) && name_at(s, i) == name;
        assert(i < s.len());
    }
}

pub proof fn lemma_mentions_before(s: Seq<char>, n: int, name: Seq<char>)
    requires
        0 <= n <= s.len(),
    ensures
        mentions_before(s, n).contains(name) <==> exists|i: int|
            i < n && #[trigger] mention_at(s, i) && name_at(s, i) == name,
    decreases n,
{
    if n > 0 {
        lemma_mentions_before(s, n - 1, name);
        let earlier = mentions_before(s, n - 1);
        let here = name_at(s, n - 1);
        if mention_at(s, n - 1) {
            if earlier.contains(here) {
                lemma_mentions_before(s, n - 1, here);
            } else {
                assert(mentions_before(s, n) == earlier.push(here));
                assert(earlier.push(here)[earlier.len() as int] == here);
                assert forall|x: Seq<char>| earlier.contains(x) implies earlier.push(here).contains(
                    x,
                ) by {
                    let k = choose|k: int| 0 <= k < earlier.len() && earlier[k] == x;
                    assert(earlier.push(here)[k] == x);
                }
                if mentions_before(s, n).contains(name) && name != here {
                    let k = choose|k: int|
                        0 <= k < earlier.push(here).len() && earlier.push(here)[k] == name;
                    assert(k < earlier.len());
                    assert(earlier[k] == name);
                }
            }
        }
    }
}

/// No name is mentioned twice in the list.
pub proof fn law_mentions_distinct(s: Seq<char>)
    ensures
        mentions(s).no_duplicates(),
{
    lemma_distinct_before(s, s.len() as int);
}

proof fn lemma_distinct_before(s: Seq<char>, n: int)
    ensures
        mentions_before(s, n).no_duplicates(),
    decreases n,
{
    if n > 0 {
        lemma_distinct_before(s, n - 1);
    }
}

/// Every mentioned name is one or more name characters.
pub proof fn law_mentions_well_formed(s: Seq<char>, k: int)
    requires
        0 <= k < mentions(s).len(),
    ensures
        mentions(s)[k].len() > 0,
        forall|j: int| 0 <= j < mentions(s)[k].len() ==> is_name_char(#[trigger] mentions(s)[k][j]),
{
    let name = mentions(s)[k];
    assert(mentions(s).contains(name));
    law_mentions_complete(s, name);
    let i = choose|i: int| #[trigger] mention_at(s, i) && name_at(s, i) == name;
    lemma_name_end_bounds(s, i + 1);
    assert(name_end(s, i + 1) > i + 1) by {
        lemma_name_end_bounds(s, i + 2);
    }
}

pub proof fn lemma_name_end_bounds(s: Seq<char>, i: int)
    requires
        0 <= i <= s.len(),
    ensures
        i <= name_end(s, i) <= s.len(),
        forall|k: int| i <= k < name_end(s, i) ==> is_name_char(#[trigger] s[k]),
    decreases s.len() - i,
{
    if i < s.len() && is_name_char(s[i]) {
        lemma_name_end_bounds(s, i + 1);
    }
}

/// Names that are not in a list.
pub open spec fn not_in(list: Seq<Seq<char>>) -> spec_fn(Seq<char>) -> bool {
    |name: Seq<char>| !list.contains(name)
}

/// The mentions of two bodies with white space between them are those of the first, and then
/// those of the second that are new, in their order.
pub proof fn law_mentions_of_two(a: Seq<char>, c: char, b: Seq<char>)
    requires
        is_space(c),
    ensures
        mentions(a + seq![c] + b) == mentions(a) + mentions(b).filter(not_in(mentions(a))),
{
    let s = a + seq![c] + b;
    let k = a.len() as int + 1;
    assert(s[k - 1] == c);
    lemma_first_part(a, c, b, a.len() as int);
    assert(!mention_at(s, k - 1));
    assert(mentions_before(s, k) == mentions(a));
    lemma_second_part(a, c, b, b.len() as int);
}

proof fn lemma_first_name_end(a: Seq<char>, c: char, b: Seq<char>, i: int)
    requires
        is_space(c),
        0 <= i <= a.len(),
    ensures
        name_end(a + seq![c] + b, i) == name_end(a, i),
    decreases a.len() - i,
{
    let s = a + seq![c] + b;
    if i < a.len() {
        assert(s[i] == a[i]);
        if is_name_char(a[i]) {
            lemma_first_name_end(a, c, b, i + 1);
        }
    } else {
        assert(s[i] == c);
    }
}

proof fn lemma_first_part(a: Seq<char>, c: char, b: Seq<char>, n: int)
    requires
        is_space(c),
        0 <= n <= a.len(),
    ensures
        mentions_before(a + seq![c] + b, n) == mentions_before(a, n),
    decreases n,
{
    let s = a + seq![c] + b;
    if n > 0 {
        lemma_first_part(a, c, b, n - 1);
        let i = n - 1;
        assert(s[i] == a[i]);
        assert(i > 0 ==> s[i - 1] == a[i - 1]);
        if i + 1 < a.len() {
            assert(s[i + 1] == a[i + 1]);
        } else {
            assert(s[i + 1] == c);
        }
        assert(mention_at(s, i) == mention_at(a, i));
        if mention_at(a, i) {
            lemma_first_name_end(a, c, b, i + 1);
            lemma_name_end_bounds(a, i + 1);
            assert(name_at(s, i) =~= name_at(a, i));
        }
    }
}

proof fn lemma_second_name_end(a: Seq<char>, c: char, b: Seq<char>, j: int)
    requires
        0 <= j <= b.len(),
    ensures
        name_end(a + seq![c] + b, a.len() + 1 + j) == a.len() + 1 + name_end(b, j),
    decreases b.len() - j,
{
    let s = a + seq![c] + b;
    let k = a.len() as int + 1;
    if j < b.len() {
        assert(s[k + j] == b[j]);
        if is_name_char(b[j]) {
            lemma_second_name_end(a, c, b, j + 1);
        }
    }
}

proof fn lemma_second_part(a: Seq<char>, c: char, b: Seq<char>, n: int)
    requires
        is_space(c),
        0 <= n <= b.len(),
    ensures
        mentions_before(a + seq![c] + b, a.len() + 1 + n) == mentions(a) + mentions_before(
            b,
            n,
        ).filter(not_in(mentions(a))),
    decreases n,
{
    let s = a + seq![c] + b;
    let k = a.len() as int + 1;
    let x = mentions(a);
    let new = not_in(x);
    if n == 0 {
        assert(s[k - 1] == c);
        lemma_first_part(a, c, b, a.len() as int);
        assert(!mention_at(s, k - 1));
        assert(mentions_before(b, 0).filter(new) =~= seq![]) by {
            reveal(Seq::filter);
        }
        assert(x + mentions_before(b, 0).filter(new) =~= x);
    } else {
        let j = n - 1;
        lemma_second_part(a, c, b, j);
        let y = mentions_before(b, j);
        let name = name_at(b, j);
        let earlier = x + y.filter(new);
        assert(s[k + j] == b[j]);
        assert(s[k + j - 1] == if j == 0 {
            c
        } else {
            b[j - 1]
        });
        assert(j + 1 < b.len() ==> s[k + j + 1] == b[j + 1]);
        assert(mention_at(s, k + j) == mention_at(b, j));
        if mention_at(b, j) {
            lemma_second_name_end(a, c, b, j + 1);
            lemma_name_end_bounds(b, j + 1);
            assert(name_at(s, k + j) =~= name);
            lemma_joined_holds(x, y, name);
            y.lemma_filter_push(name, new);
            if !earlier.contains(name) {
                assert(earlier.push(name) =~= x + y.filter(new).push(name));
            }
        }
    }
}

/// Two lists, the second without what is in the first, hold what either holds.
proof fn lemma_joined_holds(x: Seq<Seq<char>>, y: Seq<Seq<char>>, name: Seq<char>)
    ensures
        (x + y.filter(not_in(x))).contains(name) <==> x.contains(name) || y.contains(name),
{
    let f = y.filter(not_in(x));
    let all = x + f;
    lemma_filter_order(y, not_in(x));
    if x.contains(name) {
        let i = x.index_of(name);
        assert(all[i] == name);
    } else if y.contains(name) {
        let i = y.index_of(name);
        assert(not_in(x)(y[i]));
        assert(f.contains(name));
        let p = f.index_of(name);
        assert(all[x.len() + p] == name);
    }
    if all.contains(name) && !x.contains(name) {
        let i = all.index_of(name);
        if i < x.len() {
            assert(x[i] == name);
        }
        assert(f[i - x.len()] == name);
    }
}

} // verus!
