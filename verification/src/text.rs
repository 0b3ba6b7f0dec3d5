//! Character-level helpers shared by the formatters and parsers: whitespace
//! trimming, conversions between `str`/`String` and `Vec<char>`, decimal
//! rendering and parsing of integers.

use vstd::prelude::*;
use vstd::string::*;

verus! {

// --- whitespace -------------------------------------------------------------

/// Unicode `White_Space`, the set that `char::is_whitespace` (and so
/// `str::trim`) strips.
pub open spec fn is_ws(c: char) -> bool {
    let u = c as u32;
    ||| 0x09 <= u <= 0x0d
    ||| u == 0x20
    ||| u == 0x85
    ||| u == 0xa0
    ||| u == 0x1680
    ||| 0x2000 <= u <= 0x200a
    ||| u == 0x2028
    ||| u == 0x2029
    ||| u == 0x202f
    ||| u == 0x205f
    ||| u == 0x3000
}

/// ASCII whitespace as `u8::is_ascii_whitespace` sees it (space, \t, \n, \x0C, \r).
pub open spec fn is_ascii_ws(c: char) -> bool {
    c == ' ' || c == '\t' || c == '\n' || c == '\x0C' || c == '\r'
}

pub fn char_is_ws(c: char) -> (b: bool)
    ensures
        b == is_ws(c),
{
    let u = c as u32;
    (0x09 <= u && u <= 0x0d) || u == 0x20 || u == 0x85 || u == 0xa0 || u == 0x1680 || (0x2000
        <= u && u <= 0x200a) || u == 0x2028 || u == 0x2029 || u == 0x202f || u == 0x205f || u
        == 0x3000
}

pub open spec fn trim_start_seq(s: Seq<char>) -> Seq<char>
    decreases s.len(),
{
    if s.len() > 0 && is_ws(s[0]) {
        trim_start_seq(s.drop_first())
    } else {
        s
    }
}

pub open spec fn trim_end_seq(s: Seq<char>) -> Seq<char>
    decreases s.len(),
{
    if s.len() > 0 && is_ws(s.last()) {
        trim_end_seq(s.drop_last())
    } else {
        s
    }
}

/// What `str::trim` leaves of `s`.
pub open spec fn trim_seq(s: Seq<char>) -> Seq<char> {
    trim_end_seq(trim_start_seq(s))
}

/// Bounds `[lo, hi)` of the trimmed part of `s`.
pub fn trim_bounds(s: &Vec<char>) -> (r: (usize, usize))
    ensures
        r.0 <= r.1 <= s.len(),
        trim_seq(s@) == s@.subrange(r.0 as int, r.1 as int),
{
    let n = s.len();
    let mut lo: usize = 0;
    assert(s@.subrange(0, n as int) =~= s@);
    while lo < n && char_is_ws(s[lo])
        invariant
            lo <= n == s.len(),
            trim_start_seq(s@) == trim_start_seq(s@.subrange(lo as int, n as int)),
        decreases n - lo,
    {
        assert(s@.subrange(lo as int, n as int).drop_first() =~= s@.subrange(
            lo + 1,
            n as int,
        ));
        lo = lo + 1;
    }
    assert(trim_start_seq(s@.subrange(lo as int, n as int)) == s@.subrange(lo as int, n as int));
    let mut hi: usize = n;
    while hi > lo && char_is_ws(s[hi - 1])
        invariant
            lo <= hi <= n == s.len(),
            trim_seq(s@) == trim_end_seq(s@.subrange(lo as int, hi as int)),
        decreases hi,
    {
        assert(s@.subrange(lo as int, hi as int).drop_last() =~= s@.subrange(
            lo as int,
            hi - 1,
        ));
        hi = hi - 1;
    }
    (lo, hi)
}

// --- conversions ------------------------------------------------------------

/// `String::push`.
#[verifier::external_body]
pub(crate) fn push_char(s: &mut String, c: char)
    ensures
        final(s)@ == old(s)@.push(c),
{
    s.push(c);
}

pub fn chars_of(s: &str) -> (v: Vec<char>)
    ensures
        v@ == s@,
{
    let n = s.unicode_len();
    let mut v: Vec<char> = Vec::new();
    let mut i: usize = 0;
    while i < n
        invariant
            i <= n,
            n == s@.len(),
            v@ == s@.subrange(0, i as int),
        decreases n - i,
    {
        v.push(s.get_char(i));
        i = i + 1;
        assert(v@ =~= s@.subrange(0, i as int));
    }
    assert(v@ =~= s@);
    v
}

/// Append `v[lo..hi]` to `out`.
pub(crate) fn push_chars(out: &mut String, v: &Vec<char>, lo: usize, hi: usize)
    requires
        lo <= hi <= v.len(),
    ensures
        final(out)@ == old(out)@ + v@.subrange(lo as int, hi as int),
{
    let mut i = lo;
    while i < hi
        invariant
            lo <= i <= hi <= v.len(),
            out@ == old(out)@ + v@.subrange(lo as int, i as int),
        decreases hi - i,
    {
        push_char(out, v[i]);
        i = i + 1;
        assert(out@ =~= old(out)@ + v@.subrange(lo as int, i as int));
    }
}

pub fn string_of(v: &Vec<char>, lo: usize, hi: usize) -> (s: String)
    requires
        lo <= hi <= v.len(),
    ensures
        s@ == v@.subrange(lo as int, hi as int),
{
    let mut s = String::new();
    push_chars(&mut s, v, lo, hi);
    assert(s@ =~= v@.subrange(lo as int, hi as int));
    s
}

pub fn push_str(out: &mut String, t: &str)
    ensures
        final(out)@ == old(out)@ + t@,
{
    out.append(t);
}

// --- decimal rendering ------------------------------------------------------

pub proof fn lemma_div_shrinks(n: nat, b: nat)
    requires
        n >= b,
        b >= 2,
    ensures
        n / b < n,
{
    assert(n / b < n) by (nonlinear_arith)
        requires
            n >= b,
            b >= 2,
    ;
}

/// For `b > 0`: `acc * b <= x` exactly when `acc <= x / b`.
pub proof fn lemma_mul_le_iff_div(acc: int, x: int, b: int)
    requires
        b > 0,
        x >= 0,
        acc >= 0,
    ensures
        acc <= x / b <==> acc * b <= x,
{
    vstd::arithmetic::div_mod::lemma_fundamental_div_mod(x, b);
    vstd::arithmetic::div_mod::lemma_mod_pos_bound(x, b);
    let q = x / b;
    let r = x % b;
    if acc <= q {
        vstd::arithmetic::mul::lemma_mul_inequality(acc, q, b);
        assert(acc * b <= q * b);
        assert(q * b == b * q) by (nonlinear_arith);
    } else {
        vstd::arithmetic::mul::lemma_mul_inequality(q + 1, acc, b);
        assert((q + 1) * b == q * b + b) by (nonlinear_arith);
        assert(q * b == b * q) by (nonlinear_arith);
    }
}

pub open spec fn digit_char(d: int) -> char {
    if d < 10 {
        ((d + 48) as u32) as char
    } else {
        ((d - 10 + 97) as u32) as char
    }
}

pub fn digit_to_char(d: u64) -> (c: char)
    requires
        d < 16,
    ensures
        c == digit_char(d as int),
{
    if d < 10 {
        ((d as u8) + 48u8) as char
    } else {
        ((d as u8) - 10u8 + 97u8) as char
    }
}

/// Digits of `n` in base `b`, most significant first, no leading zeros.
pub open spec fn radix_seq(n: nat, b: nat) -> Seq<char>
    decreases n,
{
    if n < b || b < 2 {
        seq![digit_char(n as int)]
    } else {
        proof {
            lemma_div_shrinks(n, b);
        }
        radix_seq(n / b, b).push(digit_char((n % b) as int))
    }
}

/// Decimal digits of `n` (what `{}` prints for a non-negative integer).
pub open spec fn dec_seq(n: nat) -> Seq<char> {
    radix_seq(n, 10)
}

/// `s` left-padded with `'0'` to at least `w` characters (`{:0w}`).
pub open spec fn zero_pad(s: Seq<char>, w: nat) -> Seq<char> {
    if s.len() >= w {
        s
    } else {
        Seq::new((w - s.len()) as nat, |i: int| '0') + s
    }
}

/// What `{}` prints for an integer.
pub open spec fn int_seq(n: int) -> Seq<char> {
    if n < 0 {
        seq!['-'] + dec_seq((-n) as nat)
    } else {
        dec_seq(n as nat)
    }
}

pub proof fn lemma_radix_seq_nonempty(n: nat, b: nat)
    ensures
        radix_seq(n, b).len() >= 1,
    decreases n,
{
    if !(n < b || b < 2) {
        lemma_div_shrinks(n, b);
        lemma_radix_seq_nonempty(n / b, b);
    }
}

pub fn push_radix(out: &mut String, n: u64, b: u64)
    requires
        2 <= b <= 16,
    ensures
        final(out)@ == old(out)@ + radix_seq(n as nat, b as nat),
    decreases n,
{
    if n < b {
        push_char(out, digit_to_char(n));
        assert(out@ =~= old(out)@ + radix_seq(n as nat, b as nat));
    } else {
        proof {
            lemma_div_shrinks(n as nat, b as nat);
        }
        push_radix(out, n / b, b);
        push_char(out, digit_to_char(n % b));
        assert(out@ =~= old(out)@ + radix_seq(n as nat, b as nat));
    }
}

pub fn push_dec(out: &mut String, n: u64)
    ensures
        final(out)@ == old(out)@ + dec_seq(n as nat),
{
    push_radix(out, n, 10);
}

/// Append `n` zero-padded to width `w`.
pub fn push_dec_padded(out: &mut String, n: u64, w: usize)
    ensures
        final(out)@ == old(out)@ + zero_pad(dec_seq(n as nat), w as nat),
{
    let mut digits = String::new();
    push_dec(&mut digits, n);
    let len = digits.as_str().unicode_len();
    assert(digits@ == dec_seq(n as nat));
    if len < w {
        let mut k: usize = 0;
        while k < w - len
            invariant
                k <= w - len,
                len < w,
                out@ == old(out)@ + Seq::new(k as nat, |i: int| '0'),
            decreases w - len - k,
        {
            push_char(out, '0');
            k = k + 1;
            assert(out@ =~= old(out)@ + Seq::new(k as nat, |i: int| '0'));
        }
    }
    let ghost before = out@;
    push_str(out, digits.as_str());
    assert(out@ =~= old(out)@ + zero_pad(dec_seq(n as nat), w as nat));
}

pub fn push_int(out: &mut String, n: i64)
    ensures
        final(out)@ == old(out)@ + int_seq(n as int),
{
    if n < 0 {
        push_char(out, '-');
        let m: u64 = if n == i64::MIN {
            9223372036854775808u64
        } else {
            (-n) as u64
        };
        push_dec(out, m);
        assert(out@ =~= old(out)@ + int_seq(n as int));
    } else {
        push_dec(out, n as u64);
    }
}

// --- integer parsing --------------------------------------------------------

/// Value of `c` as a digit in base `b`, if it is one.
pub open spec fn digit_value(c: char, b: nat) -> Option<nat> {
    let u = c as u32;
    let v: int = if 48 <= u <= 57 {
        u - 48
    } else if 97 <= u <= 122 {
        u - 97 + 10
    } else if 65 <= u <= 90 {
        u - 65 + 10
    } else {
        99
    };
    if v < b {
        Some(v as nat)
    } else {
        None
    }
}

pub fn digit_value_exec(c: char, b: u32) -> (r: Option<u32>)
    requires
        2 <= b <= 36,
    ensures
        r == (match digit_value(c, b as nat) {
            Some(v) => Some(v as u32),
            None => None::<u32>,
        }),
{
    let u = c as u32;
    let v: u32 = if 48 <= u && u <= 57 {
        u - 48
    } else if 97 <= u && u <= 122 {
        u - 97 + 10
    } else if 65 <= u && u <= 90 {
        u - 65 + 10
    } else {
        99
    };
    if v < b {
        Some(v)
    } else {
        None
    }
}

/// Value of a non-empty run of base-`b` digits.
pub open spec fn digits_value(s: Seq<char>, b: nat) -> Option<nat>
    decreases s.len(),
{
    if s.len() == 0 {
        None
    } else {
        match digit_value(s.last(), b) {
            None => None,
            Some(d) => if s.len() == 1 {
                Some(d)
            } else {
                match digits_value(s.drop_last(), b) {
                    None => None,
                    Some(v) => Some(v * b + d),
                }
            },
        }
    }
}

/// What `u64::from_str_radix(s, b)` (and `s.parse::<u64>()` for `b == 10`)
/// accepts, with an optional leading `+`, before the range check.
pub open spec fn unsigned_value(s: Seq<char>, b: nat) -> Option<nat> {
    if s.len() > 0 && s[0] == '+' {
        digits_value(s.drop_first(), b)
    } else {
        digits_value(s, b)
    }
}

/// `s.parse::<T>()` / `T::from_str_radix(s, b)` for an unsigned `T` whose
/// largest value is `max`.
pub open spec fn parse_unsigned(s: Seq<char>, b: nat, max: nat) -> Option<nat> {
    match unsigned_value(s, b) {
        Some(v) => if v <= max {
            Some(v)
        } else {
            None
        },
        None => None,
    }
}

/// `s.parse::<T>()` for a signed `T` with range `[min, max]`: an optional
/// `+` or `-`, then digits.
pub open spec fn parse_signed(s: Seq<char>, min: int, max: int) -> Option<int> {
    let v: Option<int> = if s.len() > 0 && s[0] == '-' {
        match digits_value(s.drop_first(), 10) {
            Some(v) => Some(-v),
            None => None,
        }
    } else {
        match unsigned_value(s, 10) {
            Some(v) => Some(v as int),
            None => None,
        }
    };
    match v {
        Some(x) => if min <= x <= max {
            Some(x)
        } else {
            None
        },
        None => None,
    }
}

proof fn lemma_digits_value_ge(s: Seq<char>, b: nat, k: int)
    requires
        0 < k <= s.len(),
        b >= 1,
        digits_value(s, b) is Some,
    ensures
        digits_value(s.subrange(0, k), b) is Some,
        digits_value(s.subrange(0, k), b)->0 <= digits_value(s, b)->0,
    decreases s.len(),
{
    if k < s.len() {
        assert(s.drop_last().subrange(0, k) =~= s.subrange(0, k));
        lemma_digits_value_ge(s.drop_last(), b, k);
        let v = digits_value(s.drop_last(), b)->0;
        let d = digit_value(s.last(), b)->0;
        assert(v * b >= v) by (nonlinear_arith)
            requires
                b >= 1,
        ;
    } else {
        assert(s.subrange(0, k) =~= s);
    }
}

// --- reading back what was written -------------------------------------------

/// Every character of `s` is an ASCII decimal digit.
pub open spec fn all_digits(s: Seq<char>) -> bool {
    forall|i: int| 0 <= i < s.len() ==> 48 <= (#[trigger] s[i]) as u32 <= 57
}

proof fn lemma_digit_char(d: int)
    requires
        0 <= d < 10,
    ensures
        48 <= digit_char(d) as u32 <= 57,
        digit_value(digit_char(d), 10) == Some(d as nat),
{
}

proof fn lemma_digits_value_push(s: Seq<char>, c: char, b: nat)
    requires
        s.len() >= 1,
    ensures
        digits_value(s.push(c), b) == (match (digits_value(s, b), digit_value(c, b)) {
            (Some(v), Some(d)) => Some(v * b + d),
            _ => None::<nat>,
        }),
{
    assert(s.push(c).drop_last() =~= s);
}

/// The decimal digits of `n` read back as `n`.
pub proof fn lemma_dec_seq_reads_back(n: nat)
    ensures
        dec_seq(n).len() >= 1,
        all_digits(dec_seq(n)),
        digits_value(dec_seq(n), 10) == Some(n),
    decreases n,
{
    if n < 10 {
        lemma_digit_char(n as int);
    } else {
        lemma_div_shrinks(n, 10);
        lemma_dec_seq_reads_back(n / 10);
        lemma_digit_char((n % 10) as int);
        let s = dec_seq(n / 10);
        let c = digit_char((n % 10) as int);
        assert(dec_seq(n) == s.push(c));
        lemma_digits_value_push(s, c, 10);
        assert(n == (n / 10) * 10 + n % 10);
        assert forall|i: int| 0 <= i < s.push(c).len() implies 48 <= (#[trigger] s.push(c)[i]) as u32 <= 57 by {
            if i < s.len() {
                assert(s.push(c)[i] == s[i]);
            }
        }
    }
}

proof fn lemma_zeros_read_as_zero(k: nat)
    requires
        k >= 1,
    ensures
        digits_value(Seq::new(k, |i: int| '0'), 10) == Some(0nat),
    decreases k,
{
    let z = Seq::new(k, |i: int| '0');
    if k > 1 {
        lemma_zeros_read_as_zero((k - 1) as nat);
        assert(z.drop_last() =~= Seq::new((k - 1) as nat, |i: int| '0'));
    }
    assert(digit_value('0', 10) == Some(0nat));
}

proof fn lemma_leading_zeros(k: nat, s: Seq<char>)
    requires
        k >= 1,
        s.len() >= 1,
        all_digits(s),
    ensures
        digits_value(Seq::new(k, |i: int| '0') + s, 10) == digits_value(s, 10),
    decreases s.len(),
{
    let z = Seq::new(k, |i: int| '0');
    assert((z + s).last() == s.last());
    assert((z + s).drop_last() =~= z + s.drop_last());
    assert(48 <= s[s.len() - 1] as u32 <= 57);
    if s.len() == 1 {
        lemma_zeros_read_as_zero(k);
        assert(z + s.drop_last() =~= z);
    } else {
        assert(all_digits(s.drop_last())) by {
            assert forall|i: int| 0 <= i < s.drop_last().len() implies 48 <= (#[trigger] s.drop_last()[i]) as u32 <= 57 by {
                assert(s.drop_last()[i] == s[i]);
            }
        }
        lemma_leading_zeros(k, s.drop_last());
    }
}

/// `{:0w}` of `n` reads back as `n`.
pub proof fn lemma_zero_pad_reads_back(n: nat, w: nat)
    ensures
        zero_pad(dec_seq(n), w).len() >= 1,
        all_digits(zero_pad(dec_seq(n), w)),
        digits_value(zero_pad(dec_seq(n), w), 10) == Some(n),
{
    lemma_dec_seq_reads_back(n);
    let s = dec_seq(n);
    if s.len() < w {
        let k = (w - s.len()) as nat;
        let z = Seq::new(k, |i: int| '0');
        lemma_leading_zeros(k, s);
        assert forall|i: int| 0 <= i < (z + s).len() implies 48 <= (#[trigger] (z + s)[i]) as u32 <= 57 by {
            if i < k {
                assert((z + s)[i] == '0');
            } else {
                assert((z + s)[i] == s[i - k]);
            }
        }
    }
}

/// Text that neither starts nor ends with whitespace is its own trim.
pub proof fn lemma_trim_keeps(s: Seq<char>)
    requires
        s.len() >= 1,
        !is_ws(s[0]),
        !is_ws(s.last()),
    ensures
        trim_seq(s) == s,
{
}

/// A digit is not whitespace.
pub proof fn lemma_digit_not_ws(c: char)
    requires
        48 <= c as u32 <= 57,
    ensures
        !is_ws(c),
{
}

/// Value of the digits `v[lo..hi]` in base `b`, failing (`None`) on an empty
/// run, a non-digit, or a value above `max`.
pub fn parse_digits(v: &Vec<char>, lo: usize, hi: usize, b: u32, max: u64) -> (r: Option<u64>)
    requires
        lo <= hi <= v.len(),
        2 <= b <= 36,
    ensures
        r == (match digits_value(v@.subrange(lo as int, hi as int), b as nat) {
            Some(x) => if x <= max {
                Some(x as u64)
            } else {
                None::<u64>
            },
            None => None::<u64>,
        }),
{
    let ghost s = v@.subrange(lo as int, hi as int);
    if lo == hi {
        return None;
    }
    let mut acc: u64 = 0;
    let mut i = lo;
    while i < hi
        invariant
            lo <= i <= hi <= v.len(),
            2 <= b <= 36,
            acc <= max,
            s == v@.subrange(lo as int, hi as int),
            i > lo ==> digits_value(s.subrange(0, i - lo), b as nat) == Some(acc as nat),
            i == lo ==> acc == 0,
        decreases hi - i,
    {
        let d = match digit_value_exec(v[i], b) {
            Some(d) => d,
            None => {
                proof {
                    let k = i - lo + 1;
                    assert(s.subrange(0, k).last() == v@[i as int]);
                    assert(digits_value(s.subrange(0, k), b as nat) is None);
                    if digits_value(s, b as nat) is Some {
                        lemma_digits_value_ge(s, b as nat, k);
                    }
                }
                return None;
            },
        };
        let ghost k = i - lo + 1;
        proof {
            assert(s.subrange(0, k).last() == v@[i as int]);
            if k > 1 {
                assert(s.subrange(0, k).drop_last() =~= s.subrange(0, k - 1));
            }
        }
        let d64 = d as u64;
        if d64 > max || acc > (max - d64) / (b as u64) {
            proof {
                if d64 <= max {
                    lemma_mul_le_iff_div(acc as int, max - d64, b as int);
                }
                if digits_value(s, b as nat) is Some {
                    lemma_digits_value_ge(s, b as nat, k);
                }
            }
            return None;
        }
        proof {
            lemma_mul_le_iff_div(acc as int, max - d64, b as int);
        }
        acc = acc * (b as u64) + d as u64;
        i = i + 1;
    }
    assert(s.subrange(0, (hi - lo) as int) =~= s);
    Some(acc)
}

/// `s.parse::<T>()` / `from_str_radix` for `s == v[lo..hi]`, unsigned `T` with largest value `max`.
pub fn parse_unsigned_exec(v: &Vec<char>, lo: usize, hi: usize, b: u32, max: u64) -> (r: Option<u64>)
    requires
        lo <= hi <= v.len(),
        2 <= b <= 36,
    ensures
        r == (match parse_unsigned(v@.subrange(lo as int, hi as int), b as nat, max as nat) {
            Some(x) => Some(x as u64),
            None => None::<u64>,
        }),
{
    let ghost s = v@.subrange(lo as int, hi as int);
    if lo < hi && v[lo] == '+' {
        assert(s.drop_first() =~= v@.subrange(lo + 1, hi as int));
        parse_digits(v, lo + 1, hi, b, max)
    } else {
        parse_digits(v, lo, hi, b, max)
    }
}

/// `s.parse::<T>()` for `s == v[lo..hi]`, signed `T` with range `[min, max]`.
pub fn parse_signed_exec(v: &Vec<char>, lo: usize, hi: usize, min: i64, max: i64) -> (r: Option<
    i64,
>)
    requires
        lo <= hi <= v.len(),
        min < 0 < max,
    ensures
        r == (match parse_signed(v@.subrange(lo as int, hi as int), min as int, max as int) {
            Some(x) => Some(x as i64),
            None => None::<i64>,
        }),
{
    let ghost s = v@.subrange(lo as int, hi as int);
    if lo < hi && v[lo] == '-' {
        assert(s.drop_first() =~= v@.subrange(lo + 1, hi as int));
        let bound: u64 = if min == i64::MIN {
            9223372036854775808u64
        } else {
            (-min) as u64
        };
        match parse_digits(v, lo + 1, hi, 10, bound) {
            Some(x) => {
                if x == 9223372036854775808u64 {
                    Some(i64::MIN)
                } else {
                    Some(-(x as i64))
                }
            },
            None => None,
        }
    } else {
        match parse_unsigned_exec(v, lo, hi, 10, max as u64) {
            Some(x) => Some(x as i64),
            None => None,
        }
    }
}

pub fn vec_slice(v: &Vec<char>, lo: usize, hi: usize) -> (r: Vec<char>)
    requires
        lo <= hi <= v.len(),
    ensures
        r@ == v@.subrange(lo as int, hi as int),
{
    let mut r: Vec<char> = Vec::new();
    let mut i = lo;
    while i < hi
        invariant
            lo <= i <= hi <= v.len(),
            r@ == v@.subrange(lo as int, i as int),
        decreases hi - i,
    {
        r.push(v[i]);
        i = i + 1;
        assert(r@ =~= v@.subrange(lo as int, i as int));
    }
    r
}

} // verus!
