//! Text building blocks: appending characters, rendering integers and
//! reading them back as `str::parse` and `from_str_radix` do.

use vstd::arithmetic::power2::pow2;
use vstd::prelude::*;

verus! {

/// The character of a digit value below sixteen (`0-9`, then `A-F`).
pub open spec fn digit_char(d: int) -> char {
    if d < 10 {
        (d + 48) as char
    } else {
        (d + 55) as char
    }
}

/// Decimal digits of a natural number, most significant first, without padding.
pub open spec fn dec_digits(n: nat) -> Seq<char>
    decreases n,
{
    if n < 10 {
        seq![digit_char(n as int)]
    } else {
        dec_digits(n / 10).push(digit_char((n % 10) as int))
    }
}

/// Decimal text of a signed integer: a `-` before the magnitude of a negative one.
pub open spec fn signed_dec(x: int) -> Seq<char> {
    if x < 0 {
        seq!['-'] + dec_digits((-x) as nat)
    } else {
        dec_digits(x as nat)
    }
}

/// The two's complement reading of an `n`-bit unsigned value.
pub open spec fn signed_of(v: nat, n: nat) -> int {
    if v >= pow2((n - 1) as nat) {
        v - pow2(n)
    } else {
        v as int
    }
}

/// Wraps `String::push`, which appends one character.
#[verifier::external_body]
pub(crate) fn push_char(s: &mut String, c: char)
    ensures
        final(s)@ == old(s)@.push(c),
{
    s.push(c);
}

/// The digit character of `d`.
pub fn digit(d: u8) -> (c: char)
    requires
        d < 16,
    ensures
        c == digit_char(d as int),
{
    if d < 10 {
        (d + 48) as char
    } else {
        (d + 55) as char
    }
}

/// Appends every character of `t`.
pub fn push_chars(s: &mut String, t: &Vec<char>)
    ensures
        final(s)@ == old(s)@ + t@,
{
    let ghost start = s@;
    let mut i: usize = 0;
    while i < t.len()
        invariant
            i <= t.len(),
            s@ == start + t@.take(i as int),
        decreases t.len() - i,
    {
        push_char(s, t[i]);
        i = i + 1;
        proof {
            assert(t@.take(i as int) == t@.take((i - 1) as int).push(t@[i - 1]));
        }
    }
    proof {
        assert(t@.take(i as int) == t@);
    }
}

/// Appends the decimal digits of `n`.
pub fn push_dec(s: &mut String, n: u64)
    ensures
        final(s)@ == old(s)@ + dec_digits(n as nat),
    decreases n,
{
    if n >= 10 {
        push_dec(s, n / 10);
    }
    push_char(s, digit((n % 10) as u8));
    proof {
        if n >= 10 {
            assert(dec_digits(n as nat) == dec_digits((n / 10) as nat).push(digit_char((n % 10) as int)));
        } else {
            assert(dec_digits(n as nat) == seq![digit_char(n as int)]);
        }
    }
}

/// Appends the decimal text of a signed integer.
pub fn push_signed_dec(s: &mut String, x: i64)
    ensures
        final(s)@ == old(s)@ + signed_dec(x as int),
{
    if x < 0 {
        push_char(s, '-');
        let m: u64 = (0i128 - (x as i128)) as u64;
        push_dec(s, m);
        proof {
            assert(old(s)@.push('-') + dec_digits(m as nat) == old(s)@ + (seq!['-'] + dec_digits(m as nat)));
        }
    } else {
        push_dec(s, x as u64);
    }
}

/// Removes the last character, if there is one.
pub fn pop_char(s: &mut String)
    ensures
        final(s)@ == if old(s)@.len() > 0 {
            old(s)@.drop_last()
        } else {
            old(s)@
        },
{
    let mut v: Vec<char> = Vec::new();
    for c in iter: s.as_str().chars()
        invariant
            v@ == iter.seq().take(iter.index() as int),
    {
        v.push(c);
    }
    if v.len() > 0 {
        v.pop();
    }
    let mut out = String::new();
    push_chars(&mut out, &v);
    *s = out;
}

/// The value of `c` as a decimal digit, or as a hexadecimal one when `hex`.
pub open spec fn digit_in(c: char, hex: bool) -> Option<nat> {
    if '0' <= c <= '9' {
        Some((c as int - '0' as int) as nat)
    } else if hex && 'a' <= c <= 'f' {
        Some((c as int - 'a' as int + 10) as nat)
    } else if hex && 'A' <= c <= 'F' {
        Some((c as int - 'A' as int + 10) as nat)
    } else {
        None
    }
}

/// The radix: 16 when `hex`, else 10.
pub open spec fn radix_of(hex: bool) -> nat {
    if hex {
        16
    } else {
        10
    }
}

/// Every character is a digit.
pub open spec fn all_digits(ds: Seq<char>, hex: bool) -> bool {
    forall|i: int| 0 <= i < ds.len() ==> (#[trigger] digit_in(ds[i], hex)) is Some
}

/// The value of a digit string, most significant digit first.
pub open spec fn digits_val(ds: Seq<char>, hex: bool) -> nat
    decreases ds.len(),
{
    if ds.len() == 0 {
        0
    } else {
        digits_val(ds.drop_last(), hex) * radix_of(hex) + match digit_in(ds.last(), hex) {
            Some(d) => d,
            None => 0,
        }
    }
}

/// A non-empty digit string whose value is at most `max`, read as its value.
pub open spec fn parsed_digits(ds: Seq<char>, hex: bool, max: nat) -> Option<nat> {
    if ds.len() > 0 && all_digits(ds, hex) && digits_val(ds, hex) <= max {
        Some(digits_val(ds, hex))
    } else {
        None
    }
}

/// An unsigned integer as `from_str_radix` reads it: an optional `+`, then
/// digits, with a value of at most `max`.
pub open spec fn parsed_unsigned(s: Seq<char>, hex: bool, max: nat) -> Option<nat> {
    if s.len() > 0 && s[0] == '+' {
        parsed_digits(s.drop_first(), hex, max)
    } else {
        parsed_digits(s, hex, max)
    }
}

/// A decimal `i64` as `str::parse` reads it: an optional sign, then digits,
/// with a value within the type's range.
pub open spec fn parsed_i64(s: Seq<char>) -> Option<int> {
    if s.len() > 0 && s[0] == '-' {
        match parsed_digits(s.drop_first(), false, 0x8000_0000_0000_0000) {
            Some(v) => Some(-v),
            None => None,
        }
    } else {
        match parsed_unsigned(s, false, 0x7fff_ffff_ffff_ffff) {
            Some(v) => Some(v as int),
            None => None,
        }
    }
}

/// A prefix of a digit string is worth no more than the whole.
proof fn lemma_digits_val_prefix(ds: Seq<char>, hex: bool, n: int)
    requires
        0 <= n <= ds.len(),
    ensures
        digits_val(ds.take(n), hex) <= digits_val(ds, hex),
    decreases ds.len(),
{
    if n < ds.len() {
        lemma_digits_val_prefix(ds.drop_last(), hex, n);
        assert(ds.drop_last().take(n) =~= ds.take(n));
        let v = digits_val(ds.drop_last(), hex);
        let r = radix_of(hex);
        assert(v <= v * r) by (nonlinear_arith)
            requires
                r >= 1,
        ;
    } else {
        assert(ds.take(n) =~= ds);
    }
}

/// The value of a digit character, if it is one.
fn digit_value(c: char, hex: bool) -> (r: Option<u8>)
    ensures
        match r {
            Some(v) => digit_in(c, hex) == Some(v as nat),
            None => digit_in(c, hex) is None,
        },
{
    if '0' <= c && c <= '9' {
        Some((c as u32 - '0' as u32) as u8)
    } else if hex && 'a' <= c && c <= 'f' {
        Some((c as u32 - 'a' as u32 + 10) as u8)
    } else if hex && 'A' <= c && c <= 'F' {
        Some((c as u32 - 'A' as u32 + 10) as u8)
    } else {
        None
    }
}

/// Reads `cs[start..]` as digits; see [`parsed_digits`].
pub fn parse_digits(cs: &Vec<char>, start: usize, hex: bool, max: u64) -> (r: Option<u64>)
    requires
        start <= cs@.len(),
    ensures
        match r {
            Some(v) => parsed_digits(cs@.skip(start as int), hex, max as nat) == Some(v as nat),
            None => parsed_digits(cs@.skip(start as int), hex, max as nat) is None,
        },
{
    let ghost ds = cs@.skip(start as int);
    let radix: u128 = if hex {
        16
    } else {
        10
    };
    let mut v: u128 = 0;
    let mut i = start;
    while i < cs.len()
        invariant
            start <= i <= cs@.len(),
            ds == cs@.skip(start as int),
            radix == radix_of(hex),
            v <= max,
            all_digits(ds.take(i - start), hex),
            v == digits_val(ds.take(i - start), hex),
        decreases cs.len() - i,
    {
        let ghost k = i - start;
        let d = match digit_value(cs[i], hex) {
            Some(d) => d,
            None => {
                assert(digit_in(ds[k], hex) is None);
                return None;
            },
        };
        proof {
            assert(ds.take(k + 1).drop_last() =~= ds.take(k));
            assert(ds.take(k + 1).last() == cs@[i as int]);
            assert(v * radix <= 0xffff_ffff_ffff_ffffu128 * 16) by (nonlinear_arith)
                requires
                    v <= 0xffff_ffff_ffff_ffffu128,
                    radix <= 16,
            ;
        }
        let next: u128 = v * radix + d as u128;
        if next > max as u128 {
            proof {
                if all_digits(ds, hex) {
                    lemma_digits_val_prefix(ds, hex, k + 1);
                }
            }
            return None;
        }
        v = next;
        i = i + 1;
        proof {
            assert forall|j: int| 0 <= j < ds.take(i - start).len() implies (#[trigger] digit_in(
                ds.take(i - start)[j],
                hex,
            )) is Some by {
                if j < k {
                    assert(ds.take(i - start)[j] == ds.take(k)[j]);
                }
            }
        }
    }
    assert(ds.take(i - start) =~= ds);
    if i == start {
        return None;
    }
    Some(v as u64)
}

/// Reads an unsigned integer; see [`parsed_unsigned`].
pub fn parse_unsigned(cs: &Vec<char>, start: usize, hex: bool, max: u64) -> (r: Option<u64>)
    requires
        start <= cs@.len(),
    ensures
        match r {
            Some(v) => parsed_unsigned(cs@.skip(start as int), hex, max as nat) == Some(v as nat),
            None => parsed_unsigned(cs@.skip(start as int), hex, max as nat) is None,
        },
{
    if start < cs.len() && cs[start] == '+' {
        assert(cs@.skip(start as int).drop_first() =~= cs@.skip(start + 1));
        parse_digits(cs, start + 1, hex, max)
    } else {
        parse_digits(cs, start, hex, max)
    }
}

/// Whether the text reads as a decimal `i64`; see [`parsed_i64`].
pub fn parses_as_i64(s: &str) -> (b: bool)
    ensures
        b == parsed_i64(s@) is Some,
{
    let cs = crate::decode::json::chars_of(s);
    assert(cs@.skip(0) =~= cs@);
    if cs.len() > 0 && cs[0] == '-' {
        assert(cs@.drop_first() =~= cs@.skip(1));
        parse_digits(&cs, 1, false, 0x8000_0000_0000_0000).is_some()
    } else {
        parse_unsigned(&cs, 0, false, 0x7fff_ffff_ffff_ffff).is_some()
    }
}

/// Upper-case hexadecimal digits of a natural number, most significant first.
pub open spec fn hex_digits(n: nat) -> Seq<char>
    decreases n,
{
    if n < 16 {
        seq![digit_char(n as int)]
    } else {
        hex_digits(n / 16).push(digit_char((n % 16) as int))
    }
}

/// `k` copies of `c`.
pub open spec fn repeated(c: char, k: nat) -> Seq<char> {
    Seq::new(k, |_i: int| c)
}

/// `s` with copies of `c` in front until it is `w` characters long (as `{:>w}`
/// pads, or `{:0w}` with `'0'`); unchanged when it is that long already.
pub open spec fn padded_left(s: Seq<char>, w: nat, c: char) -> Seq<char> {
    if s.len() >= w {
        s
    } else {
        repeated(c, (w - s.len()) as nat) + s
    }
}

/// `s` with spaces after it until it is `w` characters long (as `{:<w}` pads).
pub open spec fn padded_right(s: Seq<char>, w: nat) -> Seq<char> {
    if s.len() >= w {
        s
    } else {
        s + repeated(' ', (w - s.len()) as nat)
    }
}

/// Appends `k` copies of `c`.
pub fn push_repeat(out: &mut String, c: char, k: usize)
    ensures
        final(out)@ == old(out)@ + repeated(c, k as nat),
{
    let ghost start = out@;
    let mut i: usize = 0;
    while i < k
        invariant
            i <= k,
            out@ == start + repeated(c, i as nat),
        decreases k - i,
    {
        push_char(out, c);
        i = i + 1;
        assert(repeated(c, i as nat) =~= repeated(c, (i - 1) as nat).push(c));
    }
}

/// Appends the characters of a string slice.
pub fn push_str(out: &mut String, s: &str)
    ensures
        final(out)@ == old(out)@ + s@,
{
    let cs = crate::decode::json::chars_of(s);
    push_chars(out, &cs);
}

/// Appends the upper-case hex digits of `n`.
pub fn push_hex(s: &mut String, n: u64)
    ensures
        final(s)@ == old(s)@ + hex_digits(n as nat),
    decreases n,
{
    if n >= 16 {
        push_hex(s, n / 16);
    }
    push_char(s, digit((n % 16) as u8));
    proof {
        if n >= 16 {
            assert(hex_digits(n as nat) == hex_digits((n / 16) as nat).push(digit_char((n % 16) as int)));
        } else {
            assert(hex_digits(n as nat) == seq![digit_char(n as int)]);
        }
    }
}

/// The number of hex digits of `n`.
fn hex_len(n: u64) -> (k: usize)
    ensures
        k == hex_digits(n as nat).len(),
        k <= 16,
    decreases n,
{
    if n >= 16 {
        let k = hex_len(n / 16);
        proof {
            assert(hex_digits(n as nat) == hex_digits((n / 16) as nat).push(digit_char((n % 16) as int)));
            assert(n / 16 < 0x1000_0000_0000_0000) by (nonlinear_arith)
                requires n <= 0xffff_ffff_ffff_ffffu64;
            lemma_hex_len_bound((n / 16) as nat);
        }
        k + 1
    } else {
        1
    }
}

/// A number below `16^15` has at most fifteen hex digits.
proof fn lemma_hex_len_bound(n: nat)
    requires
        n < 0x1000_0000_0000_0000,
    ensures
        hex_digits(n).len() <= 15,
{
    reveal_with_fuel(pow16, 16);
    lemma_hex_len_pow(n, 15);
}

/// A number below `16^k` has at most `k` hex digits.
proof fn lemma_hex_len_pow(n: nat, k: nat)
    requires
        k >= 1,
        n < pow16(k),
    ensures
        hex_digits(n).len() <= k,
    decreases k,
{
    if n >= 16 {
        assert(k >= 2) by {
            if k == 1 {
                assert(pow16(1) == 16 * pow16(0));
            }
        }
        assert(pow16(k) == 16 * pow16((k - 1) as nat));
        assert(n / 16 < pow16((k - 1) as nat)) by (nonlinear_arith)
            requires
                n < 16 * pow16((k - 1) as nat),
        ;
        lemma_hex_len_pow(n / 16, (k - 1) as nat);
    }
}

/// Sixteen to the power `k`.
pub open spec fn pow16(k: nat) -> nat
    decreases k,
{
    if k == 0 {
        1
    } else {
        16 * pow16((k - 1) as nat)
    }
}

/// `n` in upper-case hex, zero-padded to `w` digits (as `{:0wX}` gives it).
pub fn hex_padded(n: u64, w: usize) -> (s: String)
    ensures
        s@ == padded_left(hex_digits(n as nat), w as nat, '0'),
{
    let k = hex_len(n);
    let mut out = String::new();
    if k < w {
        push_repeat(&mut out, '0', w - k);
    }
    push_hex(&mut out, n);
    out
}

/// Characters of `t` padded with spaces on the left to `w` (as `{:>w}`).
pub fn push_padded_left(out: &mut String, t: &str, w: usize)
    ensures
        final(out)@ == old(out)@ + padded_left(t@, w as nat, ' '),
{
    let cs = crate::decode::json::chars_of(t);
    if cs.len() < w {
        push_repeat(out, ' ', w - cs.len());
    }
    push_chars(out, &cs);
    assert(old(out)@ + repeated(' ', (w - cs@.len()) as nat) + cs@ =~= old(out)@ + (repeated(' ', (w - cs@.len()) as nat) + cs@));
}

/// Characters of `t` padded with spaces on the right to `w` (as `{:<w}`).
pub fn push_padded_right(out: &mut String, t: &str, w: usize)
    ensures
        final(out)@ == old(out)@ + padded_right(t@, w as nat),
{
    let cs = crate::decode::json::chars_of(t);
    push_chars(out, &cs);
    if cs.len() < w {
        push_repeat(out, ' ', w - cs.len());
    }
    assert(old(out)@ + cs@ + repeated(' ', (w - cs@.len()) as nat) =~= old(out)@ + (cs@ + repeated(' ', (w - cs@.len()) as nat)));
}

/// The first `n` characters of `t` (as `{:.n}` cuts it).
pub fn push_truncated(out: &mut String, t: &str, n: usize)
    ensures
        final(out)@ == old(out)@ + (if t@.len() > n {
            t@.take(n as int)
        } else {
            t@
        }),
{
    let cs = crate::decode::json::chars_of(t);
    let ghost start = out@;
    let mut i: usize = 0;
    while i < cs.len() && i < n
        invariant
            i <= cs@.len(),
            i <= n,
            out@ == start + cs@.take(i as int),
        decreases cs.len() - i,
    {
        push_char(out, cs[i]);
        i = i + 1;
        assert(cs@.take(i as int) =~= cs@.take((i - 1) as int).push(cs@[i - 1]));
    }
    proof {
        if cs@.len() <= n {
            assert(cs@.take(i as int) =~= cs@);
        }
    }
}

/// A digit character reads back as its value.
pub proof fn lemma_digit_char_value(d: int, hex: bool)
    requires
        0 <= d < radix_of(hex),
    ensures
        digit_in(digit_char(d), hex) == Some(d as nat),
{
}

/// Hexadecimal digits read back as the number.
pub proof fn lemma_hex_digits_value(n: nat)
    ensures
        all_digits(hex_digits(n), true),
        digits_val(hex_digits(n), true) == n,
        hex_digits(n).len() > 0,
    decreases n,
{
    if n < 16 {
        lemma_digit_char_value(n as int, true);
        let s = hex_digits(n);
        assert(s.drop_last() =~= Seq::<char>::empty());
        assert(s.last() == digit_char(n as int));
        assert(digits_val(s.drop_last(), true) == 0);
        assert(digits_val(s, true) == digits_val(s.drop_last(), true) * radix_of(true) + n);
    } else {
        lemma_hex_digits_value(n / 16);
        lemma_digit_char_value((n % 16) as int, true);
        let s = hex_digits(n);
        assert(s.drop_last() =~= hex_digits(n / 16));
        assert(s.last() == digit_char((n % 16) as int));
        assert(digits_val(s, true) == digits_val(s.drop_last(), true) * radix_of(true) + (n % 16));
        assert forall|i: int| 0 <= i < s.len() implies (#[trigger] digit_in(s[i], true)) is Some by {
            if i < s.len() - 1 {
                assert(s[i] == hex_digits(n / 16)[i]);
            }
        }
    }
}

/// Decimal digits read back as the number.
pub proof fn lemma_dec_digits_value(n: nat)
    ensures
        all_digits(dec_digits(n), false),
        digits_val(dec_digits(n), false) == n,
        dec_digits(n).len() > 0,
    decreases n,
{
    if n < 10 {
        lemma_digit_char_value(n as int, false);
        let s = dec_digits(n);
        assert(s.drop_last() =~= Seq::<char>::empty());
        assert(s.last() == digit_char(n as int));
        assert(digits_val(s.drop_last(), false) == 0);
        assert(digits_val(s, false) == digits_val(s.drop_last(), false) * radix_of(false) + n);
    } else {
        lemma_dec_digits_value(n / 10);
        lemma_digit_char_value((n % 10) as int, false);
        let s = dec_digits(n);
        assert(s.drop_last() =~= dec_digits(n / 10));
        assert(s.last() == digit_char((n % 10) as int));
        assert(digits_val(s, false) == digits_val(s.drop_last(), false) * radix_of(false) + (n % 10));
        assert forall|i: int| 0 <= i < s.len() implies (#[trigger] digit_in(s[i], false)) is Some by {
            if i < s.len() - 1 {
                assert(s[i] == dec_digits(n / 10)[i]);
            }
        }
    }
}

/// Leading zeros change neither that a string is all digits nor its value.
pub proof fn lemma_leading_zeros(k: nat, ds: Seq<char>, hex: bool)
    requires
        all_digits(ds, hex),
    ensures
        all_digits(repeated('0', k) + ds, hex),
        digits_val(repeated('0', k) + ds, hex) == digits_val(ds, hex),
    decreases ds.len(),
{
    let z = repeated('0', k);
    let s = z + ds;
    assert forall|i: int| 0 <= i < s.len() implies (#[trigger] digit_in(s[i], hex)) is Some by {
        if i < k {
            assert(s[i] == '0');
        } else {
            assert(s[i] == ds[i - k]);
        }
    }
    if ds.len() == 0 {
        assert(s =~= z);
        lemma_zeros_value(k, hex);
    } else {
        assert(all_digits(ds.drop_last(), hex)) by {
            assert forall|i: int| 0 <= i < ds.drop_last().len() implies (#[trigger] digit_in(ds.drop_last()[i], hex)) is Some by {
                assert(ds.drop_last()[i] == ds[i]);
            }
        }
        lemma_leading_zeros(k, ds.drop_last(), hex);
        assert(s.drop_last() =~= z + ds.drop_last());
        assert(s.last() == ds.last());
    }
}

/// A string of zeros is worth nothing.
proof fn lemma_zeros_value(k: nat, hex: bool)
    ensures
        digits_val(repeated('0', k), hex) == 0,
    decreases k,
{
    if k > 0 {
        lemma_zeros_value((k - 1) as nat, hex);
        assert(repeated('0', k).drop_last() =~= repeated('0', (k - 1) as nat));
        assert(repeated('0', k).last() == '0');
        assert(digit_in('0', hex) == Some(0nat));
    }
}

} // verus!
