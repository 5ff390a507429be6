//! Core decoding types shared by the decoders and the view layer.

use vstd::prelude::*;

use crate::text::{digit, digit_char, push_char, push_str};

verus! {

/// Byte order for multi-byte integer decoding.
#[derive(Clone, Copy, PartialEq, Eq, Debug)]
pub enum Endian {
    /// Least significant byte first.
    Little,
    /// Most significant byte first.
    Big,
}

/// The short label of a byte order: `LE` or `BE`.
pub open spec fn endian_label(e: Endian) -> Seq<char> {
    match e {
        Endian::Little => seq!['L', 'E'],
        Endian::Big => seq!['B', 'E'],
    }
}

impl Endian {
    /// Returns `"LE"` or `"BE"`.
    pub fn label(&self) -> (r: &str)
        ensures
            r@ == endian_label(*self),
    {
        match self {
            Endian::Little => {
                proof {
                    reveal_strlit("LE");
                }
                "LE"
            },
            Endian::Big => {
                proof {
                    reveal_strlit("BE");
                }
                "BE"
            },
        }
    }
}


/// One decoded field: a line of the decode panel.
///
/// With `range` set, the field maps to `(offset, length)` bytes counted from the
/// start of the selection, which the hex view colours. An entry with an empty
/// label and no range is a spacer.
#[derive(Clone, Debug)]
pub struct DecodedValue {
    /// Display label, such as `u32 LE`.
    pub label: String,
    /// The decoded value as text.
    pub value: String,
    /// Byte range `(offset, length)` relative to the selection start.
    pub range: Option<(usize, usize)>,
    /// Palette index assigned by the rendering layer.
    pub color_index: Option<usize>,
}

impl DecodedValue {
    /// A field with the given label and value and no range.
    pub fn new(label: String, value: String) -> (r: Self)
        ensures
            r.label@ == label@,
            r.value@ == value@,
            r.range is None,
            r.color_index is None,
    {
        DecodedValue { label, value, range: None, color_index: None }
    }

    /// Attaches the byte range `(offset, length)` to this field.
    pub fn with_range(self, offset: usize, length: usize) -> (r: Self)
        ensures
            r.label == self.label,
            r.value == self.value,
            r.range == Some((offset, length)),
            r.color_index == self.color_index,
    {
        let mut s = self;
        s.range = Some((offset, length));
        s
    }
}

/// A field a decoder plugin returned: its label and value, and a byte range
/// when the plugin gave both an offset and a length.
pub fn plugin_field(label: String, value: String, offset: Option<usize>, length: Option<usize>) -> (r:
    DecodedValue)
    ensures
        r.label@ == label@,
        r.value@ == value@,
        r.range == match (offset, length) {
            (Some(o), Some(l)) => Some((o, l)),
            _ => None,
        },
        r.color_index is None,
{
    let range = match (offset, length) {
        (Some(o), Some(l)) => Some((o, l)),
        _ => None,
    };
    DecodedValue { label, value, range, color_index: None }
}

/// The entry that stands for a decoder plugin that failed: labelled with its
/// name, valued `error: ` and the message, without range or colour.
pub fn plugin_error(name: &str, message: &str) -> (r: DecodedValue)
    ensures
        r.label@ == name@,
        r.value@ == "error: "@ + message@,
        r.range is None,
        r.color_index is None,
{
    let mut label = String::new();
    push_str(&mut label, name);
    let mut value = String::new();
    push_str(&mut value, "error: ");
    push_str(&mut value, message);
    DecodedValue { label, value, range: None, color_index: None }
}

/// Number of colours in the range palette.
pub const RANGE_COLOR_COUNT: usize = 10;

/// The `(R, G, B)` palette used to colour range-mapped fields, by index.
pub open spec fn palette(i: int) -> (u8, u8, u8) {
    if i == 0 {
        (100, 180, 240)
    } else if i == 1 {
        (240, 160, 80)
    } else if i == 2 {
        (120, 220, 120)
    } else if i == 3 {
        (220, 120, 220)
    } else if i == 4 {
        (240, 220, 80)
    } else if i == 5 {
        (100, 220, 220)
    } else if i == 6 {
        (240, 120, 120)
    } else if i == 7 {
        (180, 140, 240)
    } else if i == 8 {
        (140, 220, 180)
    } else {
        (240, 180, 160)
    }
}

/// The palette colour at `idx` (blue, orange, green, purple, yellow, cyan,
/// red, lavender, teal, salmon).
pub fn range_color(idx: usize) -> (c: (u8, u8, u8))
    requires
        idx < RANGE_COLOR_COUNT,
    ensures
        c == palette(idx as int),
{
    if idx == 0 {
        (100, 180, 240)
    } else if idx == 1 {
        (240, 160, 80)
    } else if idx == 2 {
        (120, 220, 120)
    } else if idx == 3 {
        (220, 120, 220)
    } else if idx == 4 {
        (240, 220, 80)
    } else if idx == 5 {
        (100, 220, 220)
    } else if idx == 6 {
        (240, 120, 120)
    } else if idx == 7 {
        (180, 140, 240)
    } else if idx == 8 {
        (140, 220, 180)
    } else {
        (240, 180, 160)
    }
}

/// `256^n`.
pub open spec fn pow256(n: nat) -> nat
    decreases n,
{
    if n == 0 {
        1
    } else {
        256 * pow256((n - 1) as nat)
    }
}

/// The unsigned value of bytes read least significant first.
pub open spec fn le_value(s: Seq<u8>) -> nat
    decreases s.len(),
{
    if s.len() == 0 {
        0
    } else {
        (s[0] + 256 * le_value(s.drop_first())) as nat
    }
}

/// The unsigned value of bytes read most significant first.
pub open spec fn be_value(s: Seq<u8>) -> nat
    decreases s.len(),
{
    if s.len() == 0 {
        0
    } else {
        (be_value(s.drop_last()) * 256 + s.last()) as nat
    }
}

/// The value of the first `n` bytes of `s` in byte order `e`.
pub open spec fn read_value(s: Seq<u8>, n: nat, e: Endian) -> nat {
    match e {
        Endian::Little => le_value(s.take(n as int)),
        Endian::Big => be_value(s.take(n as int)),
    }
}

proof fn lemma_le_bound(s: Seq<u8>)
    ensures
        le_value(s) < pow256(s.len()),
    decreases s.len(),
{
    if s.len() > 0 {
        lemma_le_bound(s.drop_first());
    }
}

proof fn lemma_be_bound(s: Seq<u8>)
    ensures
        be_value(s) < pow256(s.len()),
    decreases s.len(),
{
    if s.len() > 0 {
        lemma_be_bound(s.drop_last());
    }
}

proof fn lemma_pow256_8()
    ensures
        pow256(1) == 0x100,
        pow256(2) == 0x1_0000,
        pow256(4) == 0x1_0000_0000,
        pow256(7) == 0x100_0000_0000_0000,
        pow256(8) == 0x1_0000_0000_0000_0000,
{
    reveal_with_fuel(pow256, 9);
}

/// Reading least significant first is reading the reversed bytes most significant first.
pub proof fn lemma_le_is_reversed_be(s: Seq<u8>)
    ensures
        le_value(s) == be_value(s.reverse()),
    decreases s.len(),
{
    if s.len() > 0 {
        lemma_le_is_reversed_be(s.drop_first());
        assert(s.reverse().drop_last() =~= s.drop_first().reverse());
        assert(s.reverse().last() == s[0]);
    }
}

/// Reads an unsigned integer from the first `n` bytes (`n <= 8`) in byte order `endian`.
fn read_uint(bytes: &[u8], n: usize, endian: Endian) -> (v: u64)
    requires
        n <= 8,
        n <= bytes@.len(),
    ensures
        v == read_value(bytes@, n as nat, endian),
        v < pow256(n as nat),
{
    let ghost s = bytes@.take(n as int);
    proof {
        lemma_pow256_8();
    }
    let mut v: u64 = 0;
    match endian {
        Endian::Big => {
            let mut i: usize = 0;
            while i < n
                invariant
                    i <= n <= 8,
                    n <= bytes@.len(),
                    s == bytes@.take(n as int),
                    v == be_value(s.take(i as int)),
                    pow256(8) == 0x1_0000_0000_0000_0000,
                decreases n - i,
            {
                proof {
                    lemma_be_bound(s.take(i as int));
                    lemma_pow_mono(i as nat, 7);
                    assert(s.take(i + 1).drop_last() =~= s.take(i as int));
                }
                v = v * 256 + bytes[i] as u64;
                i = i + 1;
            }
            proof {
                assert(s.take(n as int) =~= s);
            }
        },
        Endian::Little => {
            let mut k: usize = n;
            while k > 0
                invariant
                    k <= n <= 8,
                    n <= bytes@.len(),
                    s == bytes@.take(n as int),
                    v == le_value(s.subrange(k as int, n as int)),
                    pow256(8) == 0x1_0000_0000_0000_0000,
                decreases k,
            {
                proof {
                    lemma_le_bound(s.subrange(k as int, n as int));
                    lemma_pow_mono((n - k) as nat, 7);
                    assert(s.subrange(k - 1, n as int).drop_first() =~= s.subrange(k as int, n as int));
                }
                v = v * 256 + bytes[k - 1] as u64;
                k = k - 1;
            }
            proof {
                assert(s.subrange(0, n as int) =~= s);
            }
        },
    }
    proof {
        lemma_le_bound(s);
        lemma_be_bound(s);
    }
    v
}

proof fn lemma_pow_mono(a: nat, b: nat)
    requires
        a <= b,
    ensures
        pow256(a) <= pow256(b),
    decreases b,
{
    if a < b {
        lemma_pow_mono(a, (b - 1) as nat);
    }
}

/// Reads a 16-bit unsigned integer from the first two bytes.
pub fn read_u16(bytes: &[u8], endian: Endian) -> (v: u16)
    requires
        bytes@.len() >= 2,
    ensures
        v == read_value(bytes@, 2, endian),
{
    proof {
        lemma_pow256_8();
    }
    read_uint(bytes, 2, endian) as u16
}

/// Reads a 32-bit unsigned integer from the first four bytes.
pub fn read_u32(bytes: &[u8], endian: Endian) -> (v: u32)
    requires
        bytes@.len() >= 4,
    ensures
        v == read_value(bytes@, 4, endian),
{
    proof {
        lemma_pow256_8();
    }
    read_uint(bytes, 4, endian) as u32
}

/// Reads a 64-bit unsigned integer from the first eight bytes.
pub fn read_u64(bytes: &[u8], endian: Endian) -> (v: u64)
    requires
        bytes@.len() >= 8,
    ensures
        v == read_value(bytes@, 8, endian),
{
    read_uint(bytes, 8, endian)
}


/// The radix in which `format_hex`, `format_binary` and `format_octal` render bytes.
#[derive(Clone, Copy, PartialEq, Eq, Debug)]
pub enum Radix {
    /// Two upper-case hexadecimal digits per byte.
    Hex,
    /// Eight binary digits per byte.
    Binary,
    /// Three octal digits per byte.
    Octal,
}

/// The zero-padded text of one byte in radix `r`.
pub open spec fn unit_text(r: Radix, byte: u8) -> Seq<char> {
    let b = byte as int;
    match r {
        Radix::Hex => seq![digit_char(b / 16), digit_char(b % 16)],
        Radix::Binary => seq![
            digit_char(b / 128 % 2),
            digit_char(b / 64 % 2),
            digit_char(b / 32 % 2),
            digit_char(b / 16 % 2),
            digit_char(b / 8 % 2),
            digit_char(b / 4 % 2),
            digit_char(b / 2 % 2),
            digit_char(b % 2),
        ],
        Radix::Octal => seq![digit_char(b / 64), digit_char(b / 8 % 8), digit_char(b % 8)],
    }
}

/// The byte texts of `s` separated by single spaces.
pub open spec fn spaced_units(r: Radix, s: Seq<u8>) -> Seq<char>
    decreases s.len(),
{
    if s.len() == 0 {
        Seq::empty()
    } else if s.len() == 1 {
        unit_text(r, s[0])
    } else {
        spaced_units(r, s.drop_last()) + seq![' '] + unit_text(r, s.last())
    }
}

/// How many bytes a radix shows before it cuts the text off with `...`.
pub open spec fn unit_limit(r: Radix) -> nat {
    match r {
        Radix::Hex => 32,
        Radix::Binary => 8,
        Radix::Octal => 16,
    }
}

/// The text of `format_hex`, `format_binary` or `format_octal`: at most
/// `unit_limit(r)` bytes, followed by `...` when the input holds more than that.
pub open spec fn units_text(r: Radix, s: Seq<u8>) -> Seq<char> {
    if s.len() > unit_limit(r) {
        spaced_units(r, s.take(unit_limit(r) as int)) + seq!['.', '.', '.']
    } else {
        spaced_units(r, s)
    }
}

/// Appends the text of one byte in radix `r`.
fn push_unit(out: &mut String, r: Radix, b: u8)
    ensures
        final(out)@ == old(out)@ + unit_text(r, b),
{
    let ghost start = out@;
    match r {
        Radix::Hex => {
            push_char(out, digit(b / 16));
            push_char(out, digit(b % 16));
        },
        Radix::Binary => {
            push_char(out, digit(b / 128 % 2));
            push_char(out, digit(b / 64 % 2));
            push_char(out, digit(b / 32 % 2));
            push_char(out, digit(b / 16 % 2));
            push_char(out, digit(b / 8 % 2));
            push_char(out, digit(b / 4 % 2));
            push_char(out, digit(b / 2 % 2));
            push_char(out, digit(b % 2));
        },
        Radix::Octal => {
            push_char(out, digit(b / 64));
            push_char(out, digit(b / 8 % 8));
            push_char(out, digit(b % 8));
        },
    }
    assert(out@ =~= start + unit_text(r, b));
}

/// Renders bytes in radix `r`, space separated; more than `unit_limit(r)`
/// bytes are cut off after that many, with `...`.
pub fn format_units(bytes: &[u8], r: Radix) -> (s: String)
    ensures
        s@ == units_text(r, bytes@),
{
    let limit: usize = match r {
        Radix::Hex => 32,
        Radix::Binary => 8,
        Radix::Octal => 16,
    };
    let mut out = String::new();
    let mut i: usize = 0;
    while i < bytes.len()
        invariant_except_break
            i <= bytes@.len(),
            i <= limit,
            out@ == spaced_units(r, bytes@.take(i as int)),
        invariant
            limit == unit_limit(r),
        ensures
            i <= bytes@.len(),
            i < bytes@.len() ==> out@ == units_text(r, bytes@),
            i == bytes@.len() ==> i <= limit && out@ == spaced_units(r, bytes@.take(i as int)),
        decreases bytes.len() - i,
    {
        if i == limit {
            push_char(&mut out, '.');
            push_char(&mut out, '.');
            push_char(&mut out, '.');
            proof {
                assert(out@ =~= spaced_units(r, bytes@.take(limit as int)) + seq!['.', '.', '.']);
            }
            break;
        }
        if i > 0 {
            push_char(&mut out, ' ');
        }
        push_unit(&mut out, r, bytes[i]);
        proof {
            let t = bytes@.take(i + 1);
            assert(t.drop_last() =~= bytes@.take(i as int));
            if i > 0 {
                assert(out@ =~= spaced_units(r, t.drop_last()) + seq![' '] + unit_text(r, t.last()));
            } else {
                assert(out@ =~= unit_text(r, t[0]));
            }
        }
        i = i + 1;
    }
    proof {
        if i == bytes@.len() {
            assert(bytes@.take(i as int) =~= bytes@);
        }
    }
    out
}

/// Space-separated upper-case hex of the bytes, cut off after 32 bytes with `...`.
pub fn format_hex(bytes: &[u8]) -> (s: String)
    ensures
        s@ == units_text(Radix::Hex, bytes@),
{
    format_units(bytes, Radix::Hex)
}

/// Space-separated 8-digit binary of the bytes, cut off after 8 bytes with `...`.
pub fn format_binary(bytes: &[u8]) -> (s: String)
    ensures
        s@ == units_text(Radix::Binary, bytes@),
{
    format_units(bytes, Radix::Binary)
}

/// Space-separated 3-digit octal of the bytes, cut off after 16 bytes with `...`.
pub fn format_octal(bytes: &[u8]) -> (s: String)
    ensures
        s@ == units_text(Radix::Octal, bytes@),
{
    format_units(bytes, Radix::Octal)
}

/// Space-separated upper-case hex of all the bytes, with no cut-off.
pub fn spaced_hex(bytes: &[u8]) -> (s: String)
    ensures
        s@ == spaced_units(Radix::Hex, bytes@),
{
    let mut out = String::new();
    let mut i: usize = 0;
    while i < bytes.len()
        invariant
            i <= bytes@.len(),
            out@ == spaced_units(Radix::Hex, bytes@.take(i as int)),
        decreases bytes.len() - i,
    {
        if i > 0 {
            push_char(&mut out, ' ');
        }
        push_unit(&mut out, Radix::Hex, bytes[i]);
        proof {
            let t = bytes@.take(i + 1);
            assert(t.drop_last() =~= bytes@.take(i as int));
            if i > 0 {
                assert(out@ =~= spaced_units(Radix::Hex, t.drop_last()) + seq![' '] + unit_text(Radix::Hex, t.last()));
            } else {
                assert(out@ =~= unit_text(Radix::Hex, t[0]));
            }
        }
        i = i + 1;
    }
    assert(bytes@.take(i as int) =~= bytes@);
    out
}

} // verus!
