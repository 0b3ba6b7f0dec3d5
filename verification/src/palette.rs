//! Color palette of the design. Pure data (u32 `0xRRGGBB`); the UI wraps these
//! with its own color type.

use vstd::prelude::*;

use crate::text::{
    chars_of, digit_char, digit_value, digits_value, lemma_div_shrinks, parse_unsigned,
    parse_unsigned_exec, push_char, push_radix, radix_seq, unsigned_value, zero_pad,
};

verus! {

// --- chrome -----------------------------------------------------------------
pub const BG: u32 = 0xffffff;
pub const SURFACE: u32 = 0xfbfbfc;
pub const CARD: u32 = 0xffffff;
pub const TEXT: u32 = 0x18181b;
pub const TEXT_2: u32 = 0x71717a;
pub const TEXT_3: u32 = 0x8a8a93;
pub const LABEL: u32 = 0x52525b;
pub const MUTED: u32 = 0xa1a1aa;
pub const FAINT: u32 = 0xb4b4bb;
pub const BORDER: u32 = 0xececef;
pub const BORDER_2: u32 = 0xf0f0f2;
pub const HAIRLINE: u32 = 0xf3f3f5;
pub const HAIRLINE_2: u32 = 0xf5f5f7;
pub const HOVER: u32 = 0xf7f7f9;

// --- accents ----------------------------------------------------------------
pub const ACCENT: u32 = 0x4f46e5;
pub const ACCENT_DK: u32 = 0x4338ca;
pub const ACCENT_SOFT: u32 = 0xeef0fe;
pub const DANGER: u32 = 0xe11d48;
pub const RUNNING: u32 = 0x22c55e;
pub const DONE: u32 = 0x16a34a;

/// Per-project palette entry: main color, soft background, dark text.
#[derive(Debug, Clone, Copy, PartialEq, Eq, Structural)]
pub struct Pal {
    pub main: u32,
    pub soft: u32,
    pub text: u32,
}

/// Number of entries in the project palette.
pub const PALETTE_LEN: usize = 7;

/// The project palette: indigo, teal, amber, rose, violet, sky, lime.
pub open spec fn palette_seq() -> Seq<Pal> {
    seq![
        Pal { main: 0x4f46e5, soft: 0xeef0fe, text: 0x4338ca },
        Pal { main: 0x0d9488, soft: 0xe4f4f1, text: 0x0f766e },
        Pal { main: 0xd97706, soft: 0xfcf2e3, text: 0xb45309 },
        Pal { main: 0xe11d48, soft: 0xfde9ee, text: 0xbe123c },
        Pal { main: 0x7c3aed, soft: 0xf1ebfe, text: 0x6d28d9 },
        Pal { main: 0x0284c7, soft: 0xe3f1fb, text: 0x0369a1 },
        Pal { main: 0x65a30d, soft: 0xeef6e0, text: 0x4d7c0f },
    ]
}

/// The palette entry at `i` (`i < PALETTE_LEN`).
pub fn palette_entry(i: usize) -> (p: Pal)
    requires
        i < 7,
    ensures
        p == palette_seq()[i as int],
{
    if i == 0 {
        Pal { main: 0x4f46e5, soft: 0xeef0fe, text: 0x4338ca }
    } else if i == 1 {
        Pal { main: 0x0d9488, soft: 0xe4f4f1, text: 0x0f766e }
    } else if i == 2 {
        Pal { main: 0xd97706, soft: 0xfcf2e3, text: 0xb45309 }
    } else if i == 3 {
        Pal { main: 0xe11d48, soft: 0xfde9ee, text: 0xbe123c }
    } else if i == 4 {
        Pal { main: 0x7c3aed, soft: 0xf1ebfe, text: 0x6d28d9 }
    } else if i == 5 {
        Pal { main: 0x0284c7, soft: 0xe3f1fb, text: 0x0369a1 }
    } else {
        Pal { main: 0x65a30d, soft: 0xeef6e0, text: 0x4d7c0f }
    }
}

/// Palette entry for a new project, round-robin by existing count.
pub fn nth_palette(i: usize) -> (p: Pal)
    ensures
        p == palette_seq()[(i % 7) as int],
{
    palette_entry(i % PALETTE_LEN)
}

/// `s` without its leading `#`s (`str::trim_start_matches('#')`).
pub open spec fn strip_hashes(s: Seq<char>) -> Seq<char>
    decreases s.len(),
{
    if s.len() > 0 && s[0] == '#' {
        strip_hashes(s.drop_first())
    } else {
        s
    }
}

/// What `hex_to_u32` reads: the hex number after any leading `#`s, or
/// `ACCENT` when that is not a valid `u32` in hex.
pub open spec fn hex_value(s: Seq<char>) -> u32 {
    match parse_unsigned(strip_hashes(s), 16, u32::MAX as nat) {
        Some(v) => v as u32,
        None => ACCENT,
    }
}

pub fn hex_to_u32(s: &str) -> (r: u32)
    ensures
        r == hex_value(s@),
{
    let v = chars_of(s);
    let mut lo: usize = 0;
    assert(v@.subrange(0, v.len() as int) =~= v@);
    while lo < v.len() && v[lo] == '#'
        invariant
            lo <= v.len(),
            strip_hashes(v@) == strip_hashes(v@.subrange(lo as int, v.len() as int)),
        decreases v.len() - lo,
    {
        assert(v@.subrange(lo as int, v.len() as int).drop_first() =~= v@.subrange(
            lo + 1,
            v.len() as int,
        ));
        lo = lo + 1;
    }
    proof {
        assert(v@.subrange(0, v.len() as int) =~= v@);
    }
    match parse_unsigned_exec(&v, lo, v.len(), 16, u32::MAX as u64) {
        Some(x) => x as u32,
        None => ACCENT,
    }
}

/// `#rrggbb` (lower-case hex, at least six digits).
pub open spec fn hex_seq(c: u32) -> Seq<char> {
    seq!['#'] + zero_pad(radix_seq(c as nat, 16), 6)
}

pub fn u32_to_hex(c: u32) -> (s: String)
    ensures
        s@ == hex_seq(c),
{
    let mut digits = String::new();
    push_radix(&mut digits, c as u64, 16);
    let mut s = String::new();
    push_char(&mut s, '#');
    let n = digits.as_str().unicode_len();
    if n < 6 {
        let mut k: usize = 0;
        while k < 6 - n
            invariant
                k <= 6 - n,
                n < 6,
                s@ == seq!['#'] + Seq::new(k as nat, |i: int| '0'),
            decreases 6 - n - k,
        {
            push_char(&mut s, '0');
            k = k + 1;
            assert(s@ =~= seq!['#'] + Seq::new(k as nat, |i: int| '0'));
        }
    }
    let ghost before = s@;
    crate::text::push_str(&mut s, digits.as_str());
    assert(s@ =~= hex_seq(c));
    s
}

/// The palette entry whose main color `hex` names, else the first entry.
pub open spec fn pal_for_value(m: u32) -> Pal {
    if palette_seq()[0].main == m {
        palette_seq()[0]
    } else if palette_seq()[1].main == m {
        palette_seq()[1]
    } else if palette_seq()[2].main == m {
        palette_seq()[2]
    } else if palette_seq()[3].main == m {
        palette_seq()[3]
    } else if palette_seq()[4].main == m {
        palette_seq()[4]
    } else if palette_seq()[5].main == m {
        palette_seq()[5]
    } else if palette_seq()[6].main == m {
        palette_seq()[6]
    } else {
        palette_seq()[0]
    }
}

/// Look up the soft/text companions for a stored main color, else fall back.
pub fn pal_for_hex(hex: &str) -> (p: Pal)
    ensures
        p == pal_for_value(hex_value(hex@)),
{
    let m = hex_to_u32(hex);
    let mut i: usize = 0;
    while i < PALETTE_LEN
        invariant
            i <= 7,
            m == hex_value(hex@),
            forall|j: int| 0 <= j < i ==> palette_seq()[j].main != m,
        decreases 7 - i,
    {
        let p = palette_entry(i);
        if p.main == m {
            return p;
        }
        i = i + 1;
    }
    palette_entry(0)
}

// --- hex round trip ---------------------------------------------------------

proof fn lemma_digit_roundtrip(d: nat, b: nat)
    requires
        d < b,
        2 <= b <= 16,
    ensures
        digit_value(digit_char(d as int), b) == Some(d),
{
}

proof fn lemma_radix_roundtrip(n: nat, b: nat)
    requires
        2 <= b <= 16,
    ensures
        digits_value(radix_seq(n, b), b) == Some(n),
    decreases n,
{
    if n < b {
        lemma_digit_roundtrip(n, b);
        assert(radix_seq(n, b) =~= seq![digit_char(n as int)]);
    } else {
        lemma_div_shrinks(n, b);
        lemma_radix_roundtrip(n / b, b);
        let s = radix_seq(n, b);
        vstd::arithmetic::div_mod::lemma_fundamental_div_mod(n as int, b as int);
        vstd::arithmetic::div_mod::lemma_mod_pos_bound(n as int, b as int);
        lemma_digit_roundtrip(n % b, b);
        crate::text::lemma_radix_seq_nonempty(n / b, b);
        assert(s.drop_last() =~= radix_seq(n / b, b));
        assert((n / b) * b + n % b == n) by (nonlinear_arith)
            requires
                n == b * (n / b) + n % b,
        ;
    }
}

proof fn lemma_zero_prefix(k: nat, s: Seq<char>, b: nat)
    requires
        s.len() >= 1,
        2 <= b <= 16,
        digits_value(s, b) is Some,
    ensures
        digits_value(Seq::new(k, |i: int| '0') + s, b) == digits_value(s, b),
    decreases s.len(),
{
    let z = Seq::new(k, |i: int| '0');
    let t = z + s;
    if s.len() == 1 {
        if k > 0 {
            assert(t.drop_last() =~= Seq::new(k, |i: int| '0'));
            lemma_zeros_value(k, b);
            assert(t.last() == s.last());
            assert(t.len() > 1);
            assert(0nat * b == 0) by (nonlinear_arith);
        } else {
            assert(t =~= s);
        }
    } else {
        assert(t.drop_last() =~= z + s.drop_last());
        assert(t.last() == s.last());
        assert(digits_value(s.drop_last(), b) is Some);
        lemma_zero_prefix(k, s.drop_last(), b);
        assert(t.len() > 1);
    }
}

proof fn lemma_zeros_value(k: nat, b: nat)
    requires
        k >= 1,
        2 <= b <= 16,
    ensures
        digits_value(Seq::new(k, |i: int| '0'), b) == Some(0nat),
    decreases k,
{
    let z = Seq::new(k, |i: int| '0');
    if k > 1 {
        assert(z.drop_last() =~= Seq::new((k - 1) as nat, |i: int| '0'));
        lemma_zeros_value((k - 1) as nat, b);
    }
}

/// Formatting a color as `#rrggbb` and reading it back gives the same color.
pub proof fn law_hex_roundtrip(c: u32)
    ensures
        hex_value(hex_seq(c)) == c,
{
    let d = radix_seq(c as nat, 16);
    crate::text::lemma_radix_seq_nonempty(c as nat, 16);
    lemma_radix_roundtrip(c as nat, 16);
    let p = zero_pad(d, 6);
    if d.len() < 6 {
        lemma_zero_prefix((6 - d.len()) as nat, d, 16);
    }
    let h = hex_seq(c);
    assert(h.drop_first() =~= p);
    assert(strip_hashes(h) == strip_hashes(p));
    assert(p[0] != '#' && p[0] != '+') by {
        if d.len() < 6 {
            assert(p[0] == '0');
        } else {
            assert(p[0] == d[0]);
            lemma_radix_first_not_hash(c as nat, 16);
        }
    }
    assert(strip_hashes(p) == p);
    assert(unsigned_value(p, 16) == digits_value(p, 16));
}

proof fn lemma_radix_first_not_hash(n: nat, b: nat)
    requires
        2 <= b <= 16,
    ensures
        radix_seq(n, b)[0] != '#',
        radix_seq(n, b)[0] != '+',
    decreases n,
{
    crate::text::lemma_radix_seq_nonempty(n, b);
    if !(n < b) {
        lemma_div_shrinks(n, b);
        crate::text::lemma_radix_seq_nonempty(n / b, b);
        lemma_radix_first_not_hash(n / b, b);
        assert(radix_seq(n, b)[0] == radix_seq(n / b, b)[0]);
    }
}

} // verus!
