//! The built-in decoder: raw renderings, integers, timestamps, strings and counts.

use vstd::arithmetic::power2::{lemma2_to64, lemma2_to64_rest};
use vstd::prelude::*;
use vstd::slice::slice_subrange;
use vstd::utf8::{decode_utf8, valid_utf8};

use crate::decode::bits::{min_nat, plain_entries};
use crate::decode::calendar::{days_from_civil, epoch_days_to_date, month_length};
use crate::decode::stats::{byte_stats, distinct_below, stats_of};
use crate::text::{dec_digits, padded_left, push_char, push_dec, push_signed_dec, signed_dec, signed_of};
use crate::decode::types::{
    endian_label, format_binary, format_hex, format_octal, read_u16, read_u32, read_u64,
    lemma_le_is_reversed_be, read_value, units_text, DecodedValue, Endian, Radix,
};

verus! {

/// Texts that take floating point to produce, rendered by the caller for the
/// selection at hand: the `f32`/`f64` readings and the entropy figures.
pub struct FloatTexts {
    /// The first four bytes read as an `f32`.
    pub f32_value: String,
    /// The first eight bytes read as an `f64`.
    pub f64_value: String,
    /// Entropy bar, value and label.
    pub entropy: String,
    /// Share of the selection an ideal compressor could remove.
    pub compress: String,
    /// Null bytes out of all bytes, with the percentage.
    pub sparsity: String,
}

/// The text of `String::from_utf8_lossy`: the bytes decoded as UTF-8 with each
/// invalid sequence replaced by U+FFFD.
pub uninterp spec fn lossy_utf8(bytes: Seq<u8>) -> Seq<char>;

/// A date of the Gregorian calendar: a month from 1 to 12 and a day of it.
pub open spec fn is_date(y: int, m: int, d: int) -> bool {
    1 <= m <= 12 && 1 <= d <= month_length(y, m)
}

/// `n` in decimal, padded with zeros to at least `w` digits.
pub open spec fn zero_padded(n: int, w: nat) -> Seq<char> {
    padded_left(dec_digits(n as nat), w, '0')
}

/// The text `YYYY-MM-DD HH:MM:SS UTC` of the second `secs` after the Unix
/// epoch, given the date `y`-`m`-`d` of its day: the time of day is the
/// remainder of `secs` in the day, as hours, minutes and seconds.
pub open spec fn utc_text(secs: int, y: int, m: int, d: int) -> Seq<char> {
    let t = secs % 86400;
    zero_padded(y, 4) + "-"@ + zero_padded(m, 2) + "-"@ + zero_padded(d, 2) + " "@ + zero_padded(t / 3600, 2)
        + ":"@ + zero_padded(t / 60 % 60, 2) + ":"@ + zero_padded(t % 60, 2) + " UTC"@
}

/// Calls `chrono::DateTime::from_timestamp(secs, 0)` and formats the date as
/// `%Y-%m-%d %H:%M:%S UTC`. For a timestamp between 1970 and 2100
/// `from_timestamp` gives the instant `secs` seconds after 1970-01-01
/// 00:00:00 UTC, on the date whose day count is `secs / 86400`, and the
/// pattern writes its year in four digits and month, day, hour, minute and
/// second in two, zero-padded.
#[verifier::external_body]
fn chrono_utc_text(secs: i64) -> (r: Option<String>)
    requires
        0 <= secs <= 4_102_444_800,
    ensures
        r matches Some(s) && forall|y: int, m: int, d: int|
            is_date(y, m, d) && #[trigger] days_from_civil(y, m, d) == secs / 86400 ==> s@ == utc_text(
                secs as int,
                y,
                m,
                d,
            ),
{
    match chrono::DateTime::from_timestamp(secs, 0) {
        Some(dt) => Some(dt.format("%Y-%m-%d %H:%M:%S UTC").to_string()),
        None => None,
    }
}

/// Calls `String::from_utf8_lossy`. The contract names its text and states
/// what the documentation gives: valid UTF-8 is decoded unchanged.
#[verifier::external_body]
fn utf8_lossy(bytes: &[u8]) -> (s: String)
    ensures
        s@ == lossy_utf8(bytes@),
        valid_utf8(bytes@) ==> s@ == decode_utf8(bytes@),
{
    String::from_utf8_lossy(bytes).into_owned()
}

/// The text of a timestamp within 1970..=2100 (`0..=4_102_444_800` seconds).
pub open spec fn timestamp_text(secs: int) -> Option<Seq<char>> {
    if 0 <= secs <= 4_102_444_800 {
        let (y, m, d) = choose|y: int, m: int, d: int| is_date(y, m, d) && days_from_civil(y, m, d) == secs / 86400;
        Some(utc_text(secs, y, m, d))
    } else {
        None
    }
}

/// Formats a Unix timestamp as a UTC date and time; `None` outside 1970..=2100.
pub fn format_timestamp(secs: i64) -> (r: Option<String>)
    ensures
        match r {
            Some(s) => timestamp_text(secs as int) == Some(s@),
            None => timestamp_text(secs as int) is None,
        },
        0 <= secs <= 4_102_444_800 <==> r is Some,
{
    if secs < 0 || secs > 4_102_444_800 {
        return None;
    }
    let date = epoch_days_to_date(secs / 86400);
    proof {
        let (y, m, d) = (date.0 as int, date.1 as int, date.2 as int);
        assert(is_date(y, m, d) && days_from_civil(y, m, d) == secs / 86400);
    }
    chrono_utc_text(secs)
}

/// A byte shown in the `ASCII` rendering: printable ASCII and space as
/// themselves, anything else as `.`.
pub open spec fn ascii_char(b: u8) -> char {
    if 0x20 <= b <= 0x7e {
        (b as int) as char
    } else {
        '.'
    }
}

/// The `ASCII` rendering of bytes.
pub open spec fn ascii_text(s: Seq<u8>) -> Seq<char> {
    s.map_values(|b: u8| ascii_char(b))
}

/// `s` between double quotes.
pub open spec fn quoted(s: Seq<char>) -> Seq<char> {
    seq!['"'] + s + seq!['"']
}

/// A label made of a prefix and a byte order, such as `u32 LE`.
pub open spec fn sized_label(prefix: Seq<char>, e: Endian) -> Seq<char> {
    prefix + endian_label(e)
}

/// One `(label, text)` entry for a timestamp, or none.
pub open spec fn timestamp_entry(label: Seq<char>, secs: int) -> Seq<(Seq<char>, Seq<char>)> {
    match timestamp_text(secs) {
        Some(t) => seq![(label, t)],
        None => Seq::empty(),
    }
}

/// The integer, floating point and timestamp entries for a non-empty selection.
pub open spec fn number_entries(b: Seq<u8>, e: Endian, t: FloatTexts) -> Seq<
    (Seq<char>, Seq<char>),
> {
    seq![
        ("u8"@, dec_digits(b[0] as nat)),
        ("i8"@, signed_dec(signed_of(b[0] as nat, 8))),
    ] + small_number_entries(b, e, t) + wide_number_entries(b, e, t)
}

/// Entropy, compressibility, sparsity and the distinct value count, which a
/// selection of two bytes or more shows.
pub open spec fn stat_entries(b: Seq<u8>, t: FloatTexts) -> Seq<(Seq<char>, Seq<char>)> {
    if b.len() >= 2 {
        seq![
            ("Entropy"@, t.entropy@),
            ("Compress"@, t.compress@),
            ("Sparsity"@, t.sparsity@),
            ("Unique"@, dec_digits(distinct_below(b, 256)) + "/256 distinct byte values"@),
        ]
    } else {
        Seq::empty()
    }
}

/// The entries of `decode_selection` for the bytes `b`, in display order.
pub open spec fn decode_selection_spec(b: Seq<u8>, e: Endian, t: FloatTexts) -> Seq<
    (Seq<char>, Seq<char>),
> {
    if b.len() == 0 {
        Seq::empty()
    } else {
        let shown = b.take(min_nat(b.len(), 64) as int);
        let raw = seq![
            ("Hex"@, units_text(Radix::Hex, b)),
            ("Binary"@, units_text(Radix::Binary, b)),
            ("Octal"@, units_text(Radix::Octal, b)),
            (""@, ""@),
        ];
        let strings = seq![
            (""@, ""@),
            ("ASCII"@, quoted(ascii_text(shown))),
            ("UTF-8"@, quoted(lossy_utf8(shown))),
            (""@, ""@),
            ("Length"@, dec_digits(b.len()) + " bytes"@),
        ];
        raw + number_entries(b, e, t) + strings + stat_entries(b, t)
    }
}

/// The number of trailing entries of `decode_selection_spec` that do not read
/// the selection as a number: the strings block and the statistics.
pub open spec fn byte_order_free_tail(b: Seq<u8>) -> int {
    if b.len() >= 2 {
        9
    } else {
        5
    }
}

/// The byte order changes only the numeric readings: for one selection read
/// little- and big-endian (with the same statistics texts), the leading Hex,
/// Binary, Octal, blank, `u8` and `i8` entries and the trailing ASCII, UTF-8,
/// Length and statistics entries are the same.
pub proof fn lemma_byte_order_changes_only_numbers(
    b: Seq<u8>,
    t1: FloatTexts,
    t2: FloatTexts,
)
    requires
        b.len() > 0,
        t1.entropy@ == t2.entropy@,
        t1.compress@ == t2.compress@,
        t1.sparsity@ == t2.sparsity@,
    ensures
        ({
            let a = decode_selection_spec(b, Endian::Little, t1);
            let c = decode_selection_spec(b, Endian::Big, t2);
            let k = byte_order_free_tail(b);
            &&& a.len() >= 6 + k
            &&& c.len() >= 6 + k
            &&& a.take(6) == c.take(6)
            &&& a.skip(a.len() - k) == c.skip(c.len() - k)
        }),
{
    let a = decode_selection_spec(b, Endian::Little, t1);
    let c = decode_selection_spec(b, Endian::Big, t2);
    let k = byte_order_free_tail(b);
    let shown = b.take(min_nat(b.len(), 64) as int);
    let raw = seq![
        ("Hex"@, units_text(Radix::Hex, b)),
        ("Binary"@, units_text(Radix::Binary, b)),
        ("Octal"@, units_text(Radix::Octal, b)),
        (""@, ""@),
    ];
    let strings = seq![
        (""@, ""@),
        ("ASCII"@, quoted(ascii_text(shown))),
        ("UTF-8"@, quoted(lossy_utf8(shown))),
        (""@, ""@),
        ("Length"@, dec_digits(b.len()) + " bytes"@),
    ];
    let na = number_entries(b, Endian::Little, t1);
    let nc = number_entries(b, Endian::Big, t2);
    let tail = strings + stat_entries(b, t1);
    assert(stat_entries(b, t1) == stat_entries(b, t2));
    assert(tail.len() == k);
    assert(a == raw + na + tail);
    assert(c == raw + nc + tail);
    assert(na.take(2) == nc.take(2));
    assert(a.take(6) =~= raw + na.take(2));
    assert(c.take(6) =~= raw + nc.take(2));
    assert(a.skip(a.len() - k) =~= tail);
    assert(c.skip(c.len() - k) =~= tail);
}

/// The 32-bit timestamp of an eight-byte selection reads its first four bytes
/// in the selected byte order: it is the timestamp of the number the `u32`
/// entry shows, and is there exactly when that number is a timestamp within
/// 1970..=2100. Reading big-endian gives what reading the first four bytes
/// reversed gives little-endian.
#[verifier::spinoff_prover]
pub proof fn lemma_timestamp32_is_the_u32_reading(b: Seq<u8>, e: Endian, t: FloatTexts)
    requires
        b.len() >= 8,
    ensures
        ({
            let n = read_value(b, 4, e);
            let w = wide_number_entries(b, e, t);
            &&& small_number_entries(b, e, t)[2] == (sized_label("u32 "@, e), dec_digits(n))
            &&& timestamp_text(n as int) matches Some(x) ==> w.last() == ("Timestamp32"@, x)
            &&& timestamp_text(n as int) is None ==> w.last().0 != "Timestamp32"@
        }),
        read_value(b, 4, Endian::Big) == read_value(b.take(4).reverse(), 4, Endian::Little),
{
    reveal_strlit("Timestamp32");
    reveal_strlit("Timestamp");
    reveal_strlit("f64 ");
    let n = read_value(b, 4, e);
    let v = read_value(b, 8, e);
    let head = seq![
        (sized_label("u64 "@, e), dec_digits(v)),
        (sized_label("i64 "@, e), signed_dec(signed_of(v, 64))),
        (sized_label("f64 "@, e), t.f64_value@),
    ];
    let w = wide_number_entries(b, e, t);
    let sm = small_number_entries(b, e, t);
    let v16 = read_value(b, 2, e);
    let p16 = seq![
        (sized_label("u16 "@, e), dec_digits(v16)),
        (sized_label("i16 "@, e), signed_dec(signed_of(v16, 16))),
    ];
    let p32 = seq![
        (sized_label("u32 "@, e), dec_digits(n)),
        (sized_label("i32 "@, e), signed_dec(signed_of(n, 32))),
        (sized_label("f32 "@, e), t.f32_value@),
    ];
    assert(sm == p16 + p32);
    assert(sm[2] == p32[0]);
    assert(w == head + timestamp_entry("Timestamp"@, signed_of(v, 64)) + timestamp_entry("Timestamp32"@, n as int));
    match timestamp_text(n as int) {
        Some(x) => {
            assert(w.last() == ("Timestamp32"@, x));
        },
        None => {
            assert(timestamp_entry("Timestamp32"@, n as int) =~= Seq::<(Seq<char>, Seq<char>)>::empty());
            assert("Timestamp32"@.len() == 11);
            match timestamp_text(signed_of(v, 64)) {
                Some(y) => {
                    assert(w =~= head.push(("Timestamp"@, y)));
                    assert(w.last() == ("Timestamp"@, y));
                    assert("Timestamp"@.len() == 9);
                },
                None => {
                    assert(timestamp_entry("Timestamp"@, signed_of(v, 64)) =~= Seq::<(Seq<char>, Seq<char>)>::empty());
                    assert(w =~= head);
                    assert(w.last() == (sized_label("f64 "@, e), t.f64_value@));
                    assert(endian_label(e).len() == 2);
                    assert(sized_label("f64 "@, e).len() == 6);
                },
            }
        },
    }
    lemma_be_reads_reversed(b);
}

proof fn lemma_be_reads_reversed(b: Seq<u8>)
    requires
        b.len() >= 4,
    ensures
        read_value(b, 4, Endian::Big) == read_value(b.take(4).reverse(), 4, Endian::Little),
{
    lemma_le_is_reversed_be(b.take(4).reverse());
    assert(b.take(4).reverse().take(4) =~= b.take(4).reverse());
    assert(b.take(4).take(4) =~= b.take(4));
    assert(b.take(4).reverse().reverse() =~= b.take(4));
}

proof fn lemma_plain_push(
    v: Seq<DecodedValue>,
    w: Seq<(Seq<char>, Seq<char>)>,
    x: DecodedValue,
    p: (Seq<char>, Seq<char>),
)
    requires
        plain_entries(v, w),
        x.label@ == p.0,
        x.value@ == p.1,
        x.range is None,
        x.color_index is None,
    ensures
        plain_entries(v.push(x), w.push(p)),
{
    assert forall|i: int| 0 <= i < v.push(x).len() implies {
        &&& #[trigger] v.push(x)[i].label@ == w.push(p)[i].0
        &&& v.push(x)[i].value@ == w.push(p)[i].1
        &&& v.push(x)[i].range is None
        &&& v.push(x)[i].color_index is None
    } by {
        if i < v.len() {
            assert(v.push(x)[i] == v[i]);
        }
    }
}

/// Appends a plain entry, keeping `results` in step with the ghost list `want`.
fn push_entry(
    results: &mut Vec<DecodedValue>,
    Ghost(want): Ghost<Seq<(Seq<char>, Seq<char>)>>,
    label: String,
    value: String,
)
    requires
        plain_entries(old(results)@, want),
    ensures
        plain_entries(final(results)@, want.push((label@, value@))),
{
    let d = DecodedValue::new(label, value);
    proof {
        lemma_plain_push(old(results)@, want, d, (label@, value@));
    }
    results.push(d);
}

/// A new string holding `prefix` followed by the byte order label.
fn sized(prefix: &str, e: Endian) -> (s: String)
    ensures
        s@ == sized_label(prefix@, e),
{
    let mut s = String::from_str(prefix);
    s.append(e.label());
    s
}

/// The decimal text of `n`.
fn dec_text(n: u64) -> (s: String)
    ensures
        s@ == dec_digits(n as nat),
{
    let mut s = String::new();
    push_dec(&mut s, n);
    s
}

/// The decimal text of a signed value.
fn signed_text(x: i64) -> (s: String)
    ensures
        s@ == signed_dec(x as int),
{
    let mut s = String::new();
    push_signed_dec(&mut s, x);
    s
}

/// The `ASCII` rendering of bytes.
fn ascii_of(bytes: &[u8]) -> (s: String)
    ensures
        s@ == ascii_text(bytes@),
{
    let mut s = String::new();
    let mut i: usize = 0;
    while i < bytes.len()
        invariant
            i <= bytes@.len(),
            s@ == ascii_text(bytes@.take(i as int)),
        decreases bytes.len() - i,
    {
        let b = bytes[i];
        let c: char = if b >= 0x20 && b <= 0x7e {
            b as char
        } else {
            '.'
        };
        push_char(&mut s, c);
        i = i + 1;
        proof {
            assert(ascii_text(bytes@.take(i as int)) =~= ascii_text(bytes@.take((i - 1) as int)).push(
                ascii_char(b),
            ));
        }
    }
    proof {
        assert(bytes@.take(i as int) =~= bytes@);
    }
    s
}

/// `s` between double quotes.
fn quote(s: String) -> (q: String)
    ensures
        q@ == quoted(s@),
{
    let mut q = String::new();
    push_char(&mut q, '"');
    q.append(s.as_str());
    push_char(&mut q, '"');
    proof {
        assert(q@ =~= quoted(s@));
    }
    q
}

/// The `u16`/`i16` and `u32`/`i32`/`f32` entries.
pub open spec fn small_number_entries(b: Seq<u8>, e: Endian, t: FloatTexts) -> Seq<
    (Seq<char>, Seq<char>),
> {
    let n = b.len();
    let p16 = if n >= 2 {
        let v = read_value(b, 2, e);
        seq![
            (sized_label("u16 "@, e), dec_digits(v)),
            (sized_label("i16 "@, e), signed_dec(signed_of(v, 16))),
        ]
    } else {
        Seq::empty()
    };
    let p32 = if n >= 4 {
        let v = read_value(b, 4, e);
        seq![
            (sized_label("u32 "@, e), dec_digits(v)),
            (sized_label("i32 "@, e), signed_dec(signed_of(v, 32))),
            (sized_label("f32 "@, e), t.f32_value@),
        ]
    } else {
        Seq::empty()
    };
    p16 + p32
}

/// The eight-byte readings and the timestamps.
pub open spec fn wide_number_entries(b: Seq<u8>, e: Endian, t: FloatTexts) -> Seq<
    (Seq<char>, Seq<char>),
> {
    let n = b.len();
    if n >= 8 {
        let v = read_value(b, 8, e);
        seq![
            (sized_label("u64 "@, e), dec_digits(v)),
            (sized_label("i64 "@, e), signed_dec(signed_of(v, 64))),
            (sized_label("f64 "@, e), t.f64_value@),
        ] + timestamp_entry("Timestamp"@, signed_of(v, 64)) + timestamp_entry(
            "Timestamp32"@,
            read_value(b, 4, e) as int,
        )
    } else if n >= 4 {
        timestamp_entry("Timestamp"@, read_value(b, 4, e) as int)
    } else {
        Seq::empty()
    }
}

/// Appends the entries of a timestamp, if it has any.
fn push_timestamp(
    results: &mut Vec<DecodedValue>,
    Ghost(want): Ghost<Seq<(Seq<char>, Seq<char>)>>,
    label: &str,
    secs: i64,
)
    requires
        plain_entries(old(results)@, want),
    ensures
        plain_entries(final(results)@, want + timestamp_entry(label@, secs as int)),
{
    match format_timestamp(secs) {
        Some(t) => {
            let ghost tv = t@;
            push_entry(results, Ghost(want), String::from_str(label), t);
            assert(want.push((label@, tv)) =~= want + timestamp_entry(label@, secs as int));
        },
        None => {
            assert(want =~= want + timestamp_entry(label@, secs as int));
        },
    }
}

/// Appends the two- and four-byte integer readings.
fn push_small_numbers(
    results: &mut Vec<DecodedValue>,
    Ghost(want): Ghost<Seq<(Seq<char>, Seq<char>)>>,
    bytes: &[u8],
    endian: Endian,
    floats: &FloatTexts,
)
    requires
        plain_entries(old(results)@, want),
    ensures
        plain_entries(final(results)@, want + small_number_entries(bytes@, endian, *floats)),
{
    let ghost mut w = want;
    proof {
        lemma2_to64();
    }
    if bytes.len() >= 2 {
        let v = read_u16(bytes, endian);
        let s: i64 = if v >= 0x8000 {
            v as i64 - 0x10000
        } else {
            v as i64
        };
        push_entry(results, Ghost(w), sized("u16 ", endian), dec_text(v as u64));
        proof { w = w.push((sized_label("u16 "@, endian), dec_digits(v as nat))); }
        push_entry(results, Ghost(w), sized("i16 ", endian), signed_text(s));
        proof { w = w.push((sized_label("i16 "@, endian), signed_dec(signed_of(v as nat, 16)))); }
    }
    if bytes.len() >= 4 {
        let v = read_u32(bytes, endian);
        let s: i64 = if v >= 0x8000_0000 {
            v as i64 - 0x1_0000_0000
        } else {
            v as i64
        };
        push_entry(results, Ghost(w), sized("u32 ", endian), dec_text(v as u64));
        proof { w = w.push((sized_label("u32 "@, endian), dec_digits(v as nat))); }
        push_entry(results, Ghost(w), sized("i32 ", endian), signed_text(s));
        proof { w = w.push((sized_label("i32 "@, endian), signed_dec(signed_of(v as nat, 32)))); }
        push_entry(results, Ghost(w), sized("f32 ", endian), floats.f32_value.clone());
        proof { w = w.push((sized_label("f32 "@, endian), floats.f32_value@)); }
    }
    assert(w =~= want + small_number_entries(bytes@, endian, *floats));
}

/// Appends the eight-byte readings and the timestamps.
fn push_wide_numbers(
    results: &mut Vec<DecodedValue>,
    Ghost(want): Ghost<Seq<(Seq<char>, Seq<char>)>>,
    bytes: &[u8],
    endian: Endian,
    floats: &FloatTexts,
)
    requires
        plain_entries(old(results)@, want),
    ensures
        plain_entries(final(results)@, want + wide_number_entries(bytes@, endian, *floats)),
{
    proof {
        lemma2_to64();
        lemma2_to64_rest();
    }
    if bytes.len() >= 8 {
        let ghost mut w = want;
        let v = read_u64(bytes, endian);
        let s: i64 = if v >= 0x8000_0000_0000_0000 {
            (v as i128 - 0x1_0000_0000_0000_0000) as i64
        } else {
            v as i64
        };
        push_entry(results, Ghost(w), sized("u64 ", endian), dec_text(v));
        proof { w = w.push((sized_label("u64 "@, endian), dec_digits(v as nat))); }
        push_entry(results, Ghost(w), sized("i64 ", endian), signed_text(s));
        proof { w = w.push((sized_label("i64 "@, endian), signed_dec(signed_of(v as nat, 64)))); }
        push_entry(results, Ghost(w), sized("f64 ", endian), floats.f64_value.clone());
        proof { w = w.push((sized_label("f64 "@, endian), floats.f64_value@)); }
        push_timestamp(results, Ghost(w), "Timestamp", s);
        proof { w = w + timestamp_entry("Timestamp"@, s as int); }
        let v32 = read_u32(bytes, endian);
        push_timestamp(results, Ghost(w), "Timestamp32", v32 as i64);
        proof {
            w = w + timestamp_entry("Timestamp32"@, v32 as int);
            assert(w =~= want + wide_number_entries(bytes@, endian, *floats));
        }
    } else if bytes.len() >= 4 {
        let v32 = read_u32(bytes, endian);
        push_timestamp(results, Ghost(want), "Timestamp", v32 as i64);
    } else {
        assert(want =~= want + wide_number_entries(bytes@, endian, *floats));
    }
}

/// Appends the string renderings, the spacers around them and the length.
fn push_strings(
    results: &mut Vec<DecodedValue>,
    Ghost(want): Ghost<Seq<(Seq<char>, Seq<char>)>>,
    bytes: &[u8],
)
    requires
        plain_entries(old(results)@, want),
    ensures
        plain_entries(
            final(results)@,
            want + seq![
                (""@, ""@),
                ("ASCII"@, quoted(ascii_text(bytes@.take(min_nat(bytes@.len(), 64) as int)))),
                ("UTF-8"@, quoted(lossy_utf8(bytes@.take(min_nat(bytes@.len(), 64) as int)))),
                (""@, ""@),
                ("Length"@, dec_digits(bytes@.len()) + " bytes"@),
            ],
        ),
{
    let ghost mut w = want;
    push_entry(results, Ghost(w), String::from_str(""), String::from_str(""));
    proof { w = w.push((""@, ""@)); }
    let shown_len: usize = if bytes.len() < 64 {
        bytes.len()
    } else {
        64
    };
    let shown = slice_subrange(bytes, 0, shown_len);
    assert(shown@ =~= bytes@.take(min_nat(bytes@.len(), 64) as int));
    push_entry(results, Ghost(w), String::from_str("ASCII"), quote(ascii_of(shown)));
    proof { w = w.push(("ASCII"@, quoted(ascii_text(shown@)))); }
    push_entry(results, Ghost(w), String::from_str("UTF-8"), quote(utf8_lossy(shown)));
    proof { w = w.push(("UTF-8"@, quoted(lossy_utf8(shown@)))); }
    push_entry(results, Ghost(w), String::from_str(""), String::from_str(""));
    proof { w = w.push((""@, ""@)); }
    let mut len_text = dec_text(bytes.len() as u64);
    len_text.append(" bytes");
    push_entry(results, Ghost(w), String::from_str("Length"), len_text);
    proof {
        w = w.push(("Length"@, dec_digits(bytes@.len()) + " bytes"@));
        assert(w =~= want + seq![
            (""@, ""@),
            ("ASCII"@, quoted(ascii_text(bytes@.take(min_nat(bytes@.len(), 64) as int)))),
            ("UTF-8"@, quoted(lossy_utf8(bytes@.take(min_nat(bytes@.len(), 64) as int)))),
            (""@, ""@),
            ("Length"@, dec_digits(bytes@.len()) + " bytes"@),
        ]);
    }
}

/// Appends the integer, floating point and timestamp readings.
fn push_numbers(
    results: &mut Vec<DecodedValue>,
    Ghost(want): Ghost<Seq<(Seq<char>, Seq<char>)>>,
    bytes: &[u8],
    endian: Endian,
    floats: &FloatTexts,
)
    requires
        plain_entries(old(results)@, want),
        bytes@.len() > 0,
    ensures
        plain_entries(final(results)@, want + number_entries(bytes@, endian, *floats)),
{
    let ghost b = bytes@;
    let ghost mut w = want;
    let b0 = bytes[0];
    push_entry(results, Ghost(w), String::from_str("u8"), dec_text(b0 as u64));
    proof { w = w.push(("u8"@, dec_digits(b0 as nat))); }
    let s8: i64 = if b0 >= 128 {
        b0 as i64 - 256
    } else {
        b0 as i64
    };
    proof {
        lemma2_to64();
    }
    push_entry(results, Ghost(w), String::from_str("i8"), signed_text(s8));
    proof { w = w.push(("i8"@, signed_dec(signed_of(b0 as nat, 8)))); }
    push_small_numbers(results, Ghost(w), bytes, endian, floats);
    proof { w = w + small_number_entries(b, endian, *floats); }
    push_wide_numbers(results, Ghost(w), bytes, endian, floats);
    proof {
        w = w + wide_number_entries(b, endian, *floats);
        assert(w =~= want + number_entries(b, endian, *floats));
    }
}

/// Appends entropy, compressibility, sparsity and the distinct value count,
/// for selections of two bytes or more.
fn push_stat_entries(
    results: &mut Vec<DecodedValue>,
    Ghost(want): Ghost<Seq<(Seq<char>, Seq<char>)>>,
    bytes: &[u8],
    floats: &FloatTexts,
)
    requires
        plain_entries(old(results)@, want),
    ensures
        plain_entries(final(results)@, want + stat_entries(bytes@, *floats)),
{
    let ghost b = bytes@;
    if bytes.len() >= 2 {
        let ghost mut w = want;
        let st = byte_stats(bytes);
        push_entry(results, Ghost(w), String::from_str("Entropy"), floats.entropy.clone());
        proof { w = w.push(("Entropy"@, floats.entropy@)); }
        push_entry(results, Ghost(w), String::from_str("Compress"), floats.compress.clone());
        proof { w = w.push(("Compress"@, floats.compress@)); }
        push_entry(results, Ghost(w), String::from_str("Sparsity"), floats.sparsity.clone());
        proof { w = w.push(("Sparsity"@, floats.sparsity@)); }
        push_entry(results, Ghost(w), String::from_str("Unique"), st.unique_display());
        proof {
            w = w.push(("Unique"@, dec_digits(distinct_below(b, 256)) + "/256 distinct byte values"@));
            assert(w =~= want + stat_entries(b, *floats));
        }
    } else {
        assert(want =~= want + stat_entries(b, *floats));
    }
}

/// Decodes a selection into every built-in reading that fits its length.
///
/// The entries come in display order: hex, binary and octal renderings and a
/// spacer; `u8`/`i8`; `u16`/`i16` from two bytes; `u32`/`i32`/`f32` from four;
/// `u64`/`i64`/`f64` and the 64- and 32-bit timestamps from eight (from four
/// to seven bytes, the 32-bit timestamp alone); a spacer; the ASCII and UTF-8
/// renderings of the first 64 bytes; a spacer; the length; and, from two bytes
/// on, entropy, compressibility, sparsity and the distinct value count. The
/// floating point texts come from `floats`. An empty selection gives nothing.
pub fn decode_selection(bytes: &[u8], endian: Endian, floats: &FloatTexts) -> (r: Vec<DecodedValue>)
    ensures
        plain_entries(r@, decode_selection_spec(bytes@, endian, *floats)),
{
    let mut results: Vec<DecodedValue> = Vec::new();
    if bytes.len() == 0 {
        return results;
    }
    let ghost b = bytes@;
    let ghost mut want: Seq<(Seq<char>, Seq<char>)> = Seq::empty();
    push_entry(&mut results, Ghost(want), String::from_str("Hex"), format_hex(bytes));
    proof { want = want.push(("Hex"@, units_text(Radix::Hex, b))); }
    push_entry(&mut results, Ghost(want), String::from_str("Binary"), format_binary(bytes));
    proof { want = want.push(("Binary"@, units_text(Radix::Binary, b))); }
    push_entry(&mut results, Ghost(want), String::from_str("Octal"), format_octal(bytes));
    proof { want = want.push(("Octal"@, units_text(Radix::Octal, b))); }
    push_entry(&mut results, Ghost(want), String::from_str(""), String::from_str(""));
    proof { want = want.push((""@, ""@)); }
    push_numbers(&mut results, Ghost(want), bytes, endian, floats);
    proof { want = want + number_entries(b, endian, *floats); }
    push_strings(&mut results, Ghost(want), bytes);
    proof {
        want = want + seq![
            (""@, ""@),
            ("ASCII"@, quoted(ascii_text(b.take(min_nat(b.len(), 64) as int)))),
            ("UTF-8"@, quoted(lossy_utf8(b.take(min_nat(b.len(), 64) as int)))),
            (""@, ""@),
            ("Length"@, dec_digits(b.len()) + " bytes"@),
        ];
    }
    push_stat_entries(&mut results, Ghost(want), bytes, floats);
    proof { want = want + stat_entries(b, *floats); }
    proof {
        assert(want =~= decode_selection_spec(b, endian, *floats));
    }
    results
}

} // verus!
