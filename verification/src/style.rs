//! Terminal colours.

use vstd::prelude::*;
use vstd::string::*;

use crate::text::{join2, join3};
use crate::types::{Recipient, RecipientView};

verus! {

pub const RESET: &'static str = "\x1b[0m";

pub const BOLD: &'static str = "\x1b[1m";

pub const DIM: &'static str = "\x1b[2m";

pub const UNDERLINE: &'static str = "\x1b[4m";

pub const YELLOW: &'static str = "\x1b[33m";

pub const MAGENTA: &'static str = "\x1b[35m";

pub const CYAN: &'static str = "\x1b[36m";

/// A text between a style and its end.
pub open spec fn styled(prefix: Seq<char>, s: Seq<char>) -> Seq<char> {
    prefix + s + RESET@
}

/// A text in a style, where colour is on; otherwise the text as it is.
pub open spec fn painted(prefix: Seq<char>, s: Seq<char>, color: bool) -> Seq<char> {
    if color {
        styled(prefix, s)
    } else {
        s
    }
}

/// A text in a style, where colour is on; otherwise the text as it is.
pub fn paint(prefix: &str, s: &str, color: bool) -> (r: String)
    ensures
        r@ == painted(prefix@, s@, color),
{
    if color {
        join3(prefix, s, RESET)
    } else {
        s.to_owned()
    }
}

// ---- a colour for each name ----

/// The hash of a name's bytes: each byte is mixed in with an exclusive or, and the result
/// multiplied, in 32 bits.
pub open spec fn mixed(bytes: Seq<u8>) -> u32
    decreases bytes.len(),
{
    if bytes.len() == 0 {
        2166136261
    } else {
        wrap_mul(mixed(bytes.drop_last()) ^ (bytes.last() as u32), 16777619)
    }
}

/// A product in 32 bits.
pub open spec fn wrap_mul(a: u32, b: u32) -> u32 {
    ((a * b) % 0x100000000) as u32
}

/// A hash whose bits are spread once more.
pub open spec fn spread(h: u32) -> u32 {
    let a = h ^ (h >> 16u32);
    let b = wrap_mul(a, 0x7feb352d);
    b ^ (b >> 15u32)
}

/// The hue of a name, in degrees: between 20 and 339, away from red.
pub open spec fn hue_of(name: Seq<char>) -> int {
    20 + spread(mixed(vstd::utf8::encode_utf8(name))) as int % 320
}

fn mul32(a: u32, b: u32) -> (r: u32)
    ensures
        r == wrap_mul(a, b),
{
    assert(0 <= a * b <= 0xffffffff * 0xffffffff) by (nonlinear_arith)
        requires
            0 <= a <= 0xffffffff,
            0 <= b <= 0xffffffff,
    ;
    let wide: u64 = a as u64 * b as u64;
    (wide % 0x100000000) as u32
}

/// The hue of a name, in degrees. Names keep their hue, and never come near red.
pub fn name_hue(name: &str) -> (hue: u16)
    ensures
        hue == hue_of(name@),
        20 <= hue < 340,
{
    let bytes = name.as_bytes();
    let ghost all = vstd::utf8::encode_utf8(name@);
    let mut h: u32 = 2166136261;
    let mut i: usize = 0;
    while i < bytes.len()
        invariant
            bytes@ == all,
            i <= bytes@.len(),
            h == mixed(all.take(i as int)),
        decreases bytes@.len() - i,
    {
        proof {
            assert(all.take(i + 1).drop_last() =~= all.take(i as int));
            assert(all.take(i + 1).last() == all[i as int]);
        }
        h = mul32(h ^ (bytes[i] as u32), 16777619);
        i = i + 1;
    }
    assert(all.take(i as int) =~= all);
    let a: u32 = h ^ (h >> 16u32);
    let b: u32 = mul32(a, 0x7feb352d);
    let c: u32 = b ^ (b >> 15u32);
    20 + (c % 320) as u16
}

// ---- recipients ----

/// What a message line says of its recipient: the channel, that it went to everyone, or
/// nothing.
pub open spec fn suffix_of(to: RecipientView, color: bool) -> Seq<char> {
    match to {
        RecipientView::Channel(name) => painted(DIM@, "  (#"@ + name + ")"@, color),
        RecipientView::Broadcast => painted(DIM@, "  (broadcast)"@, color),
        RecipientView::Agent(_) => seq![],
    }
}

/// What a message line says of its recipient.
pub fn recipient_suffix(to: &Recipient, color: bool) -> (r: String)
    ensures
        r@ == suffix_of(to@, color),
{
    match to {
        Recipient::Channel(name) => {
            let s = join3("  (#", name.as_str(), ")");
            paint(DIM, s.as_str(), color)
        },
        Recipient::Broadcast => paint(DIM, "  (broadcast)", color),
        Recipient::Agent(_) => String::new(),
    }
}

/// An agent's name as a message line shows it. `hue` is the escape sequence of its colour.
pub open spec fn name_shown(name: Seq<char>, hue: Seq<char>, color: bool) -> Seq<char> {
    if color {
        BOLD@ + hue + "@"@ + name + RESET@
    } else {
        "@"@ + name
    }
}

/// An agent's name as a message line shows it. `hue` is the escape sequence of its colour.
pub fn paint_name(name: &str, hue: &str, color: bool) -> (r: String)
    ensures
        r@ == name_shown(name@, hue@, color),
{
    if color {
        let mut r = join3(BOLD, hue, "@");
        r.append(name);
        r.append(RESET);
        assert(r@ =~= name_shown(name@, hue@, color));
        r
    } else {
        join2("@", name)
    }
}

} // verus!
