//! Byte pattern search: what the search prompt means, scanning forward and
//! backward with wrap-around, and searching for the selected bytes.

use vstd::prelude::*;
use vstd::utf8::encode_utf8;

use super::selection::{min_int, scrolled_to_cursor, sel_range, selected};
use super::types::InputMode;
use super::{model_wf, App, AppModel};
use crate::decode::json::{
    chars_of, is_whitespace, is_ws, string_of, trim_chars, trim_end, trim_start, trimmed,
};
use crate::decode::types::{spaced_hex, spaced_units, unit_text, Radix};
use crate::text::digit_char;

verus! {

/// `pat` occurs in `data` starting at position `i`.
pub open spec fn matches_at(data: Seq<u8>, pat: Seq<u8>, i: int) -> bool {
    0 <= i && i + pat.len() <= data.len() && data.subrange(i, i + pat.len()) == pat
}

/// The first position in `lo..=hi` where `pat` occurs.
pub open spec fn first_match(data: Seq<u8>, pat: Seq<u8>, lo: int, hi: int) -> Option<int>
    decreases hi + 1 - lo,
{
    if lo > hi {
        None
    } else if matches_at(data, pat, lo) {
        Some(lo)
    } else {
        first_match(data, pat, lo + 1, hi)
    }
}

/// The last position in `lo..=hi` where `pat` occurs.
pub open spec fn last_match(data: Seq<u8>, pat: Seq<u8>, lo: int, hi: int) -> Option<int>
    decreases hi + 1 - lo,
{
    if lo > hi {
        None
    } else if matches_at(data, pat, hi) {
        Some(hi)
    } else {
        last_match(data, pat, lo, hi - 1)
    }
}

/// Forward search from `from`: the first occurrence after `from`, or else,
/// wrapping around, the first one that starts at or before `from`. Nothing for
/// no pattern, an empty one, or one longer than the data.
pub open spec fn search_fwd(data: Seq<u8>, pat: Option<Seq<u8>>, from: int) -> Option<int> {
    match pat {
        Some(p) => if 0 < p.len() <= data.len() {
            let last = data.len() - p.len();
            match first_match(data, p, from + 1, last) {
                Some(i) => Some(i),
                None => first_match(data, p, 0, min_int(from, last)),
            }
        } else {
            None
        },
        None => None,
    }
}

/// Backward search from `from`: the last occurrence that starts before
/// `from`, or else, wrapping around, the last occurrence in the data. Nothing
/// for no pattern, an empty one, or one longer than the data.
pub open spec fn search_bwd(data: Seq<u8>, pat: Option<Seq<u8>>, from: int) -> Option<int> {
    match pat {
        Some(p) => if 0 < p.len() <= data.len() {
            let last = data.len() - p.len();
            match last_match(data, p, 0, min_int(from - 1, last)) {
                Some(i) => Some(i),
                None => last_match(data, p, 0, last),
            }
        } else {
            None
        },
        None => None,
    }
}

/// An optional position as an optional integer.
pub open spec fn opt_int(r: Option<usize>) -> Option<int> {
    match r {
        Some(i) => Some(i as int),
        None => None,
    }
}

/// An ASCII hexadecimal digit.
pub open spec fn is_hex_char(c: char) -> bool {
    ('0' <= c <= '9') || ('a' <= c <= 'f') || ('A' <= c <= 'F')
}

/// The value of a hexadecimal digit.
pub open spec fn hex_val(c: char) -> int {
    if '0' <= c <= '9' {
        c as int - '0' as int
    } else if 'a' <= c <= 'f' {
        c as int - 'a' as int + 10
    } else {
        c as int - 'A' as int + 10
    }
}

/// The bytes of text made of whitespace-separated tokens of exactly two hex
/// digits each; nothing when some token is not such a pair.
pub open spec fn hex_pairs(s: Seq<char>) -> Option<Seq<u8>>
    decreases s.len(),
{
    if s.len() == 0 {
        Some(Seq::empty())
    } else if is_ws(s[0]) {
        hex_pairs(s.drop_first())
    } else if s.len() >= 2 && is_hex_char(s[0]) && is_hex_char(s[1]) && (s.len() == 2 || is_ws(
        s[2],
    )) {
        match hex_pairs(s.skip(2)) {
            Some(rest) => Some(seq![(hex_val(s[0]) * 16 + hex_val(s[1])) as u8] + rest),
            None => None,
        }
    } else {
        None
    }
}

/// What the search prompt asks for: nothing when it is blank; the hex bytes
/// when every token of the trimmed text is a pair of hex digits (flagged
/// `true`); otherwise the UTF-8 bytes of the trimmed text (flagged `false`).
pub open spec fn parsed_search(s: Seq<char>) -> Option<(Seq<u8>, bool)> {
    let t = trimmed(s);
    if t.len() == 0 {
        None
    } else {
        match hex_pairs(t) {
            Some(b) => Some((b, true)),
            None => Some((encode_utf8(t), false)),
        }
    }
}

/// The cursor on a match at `pos` of `len` bytes, the match selected, scrolled into view.
pub open spec fn jumped_to_match(m: AppModel, pos: int, len: int) -> AppModel {
    scrolled_to_cursor(
        AppModel {
            cursor: pos as usize,
            bit_cursor: (pos * 8) as usize,
            selection_anchor: Some(pos as usize),
            selection_end: Some((pos + len - 1) as usize),
            ..m
        },
    )
}

/// Enter at the search prompt: the prompt's pattern becomes the search
/// pattern and the cursor jumps to its first occurrence from the byte before
/// the cursor on; the prompt closes either way. A blank prompt changes nothing.
pub open spec fn searched(m: AppModel) -> AppModel {
    match parsed_search(m.search_input) {
        None => m,
        Some((p, hex)) => {
            let m1 = AppModel { search_pattern: Some(p), search_was_hex: hex, ..m };
            let from = if m.cursor > 0 {
                m.cursor - 1
            } else {
                0
            };
            match search_fwd(m.data, Some(p), from) {
                Some(pos) => AppModel {
                    input_mode: InputMode::Normal,
                    ..jumped_to_match(m1, pos, p.len() as int)
                },
                None => AppModel { input_mode: InputMode::Normal, ..m1 },
            }
        },
    }
}

/// Up to `count` jumps to the next match, stopping when there is none.
pub open spec fn next_matches(m: AppModel, count: nat) -> AppModel
    decreases count,
{
    if count == 0 {
        m
    } else {
        match search_fwd(m.data, m.search_pattern, m.cursor as int) {
            Some(pos) => next_matches(
                jumped_to_match(m, pos, m.search_pattern.unwrap().len() as int),
                (count - 1) as nat,
            ),
            None => m,
        }
    }
}

/// Up to `count` jumps to the previous match, stopping when there is none.
pub open spec fn prev_matches(m: AppModel, count: nat) -> AppModel
    decreases count,
{
    if count == 0 {
        m
    } else {
        match search_bwd(m.data, m.search_pattern, m.cursor as int) {
            Some(pos) => prev_matches(
                jumped_to_match(m, pos, m.search_pattern.unwrap().len() as int),
                (count - 1) as nat,
            ),
            None => m,
        }
    }
}

/// The selected bytes become the search pattern, shown as spaced hex, and
/// the cursor jumps to their next occurrence after the selection's end. An
/// empty selection changes nothing.
pub open spec fn searched_selection(m: AppModel) -> AppModel {
    let b = selected(m);
    if b.len() == 0 {
        m
    } else {
        let m1 = AppModel {
            search_input: spaced_units(Radix::Hex, b),
            search_was_hex: true,
            search_pattern: Some(b),
            ..m
        };
        match search_fwd(m.data, Some(b), sel_range(m).1) {
            Some(pos) => jumped_to_match(m1, pos, b.len() as int),
            None => m1,
        }
    }
}

/// A first match found is an occurrence within the range.
pub proof fn lemma_first_match_found(data: Seq<u8>, pat: Seq<u8>, lo: int, hi: int)
    ensures
        first_match(data, pat, lo, hi) matches Some(i) ==> lo <= i <= hi && matches_at(data, pat, i),
        first_match(data, pat, lo, hi) is None ==> forall|i: int|
            lo <= i <= hi ==> !#[trigger] matches_at(data, pat, i),
    decreases hi + 1 - lo,
{
    if lo <= hi {
        lemma_first_match_found(data, pat, lo + 1, hi);
    }
}

/// A last match found is an occurrence within the range.
pub proof fn lemma_last_match_found(data: Seq<u8>, pat: Seq<u8>, lo: int, hi: int)
    ensures
        last_match(data, pat, lo, hi) matches Some(i) ==> lo <= i <= hi && matches_at(data, pat, i)
            && forall|j: int| i < j <= hi ==> !#[trigger] matches_at(data, pat, j),
        last_match(data, pat, lo, hi) is None ==> forall|j: int|
            lo <= j <= hi ==> !#[trigger] matches_at(data, pat, j),
    decreases hi + 1 - lo,
{
    if lo <= hi {
        lemma_last_match_found(data, pat, lo, hi - 1);
    }
}

/// Whatever a forward or backward search returns is an occurrence of the pattern.
pub proof fn lemma_search_result_matches(data: Seq<u8>, pat: Seq<u8>, from: int)
    ensures
        search_fwd(data, Some(pat), from) matches Some(i) ==> matches_at(data, pat, i),
        search_bwd(data, Some(pat), from) matches Some(i) ==> matches_at(data, pat, i),
{
    let last = data.len() - pat.len();
    lemma_first_match_found(data, pat, from + 1, last);
    lemma_first_match_found(data, pat, 0, min_int(from, last));
    lemma_last_match_found(data, pat, 0, min_int(from - 1, last));
    lemma_last_match_found(data, pat, 0, last);
}

/// Forward search wraps around the whole file: it finds a non-empty pattern
/// from any starting point whenever the pattern occurs anywhere.
pub proof fn lemma_search_fwd_complete(data: Seq<u8>, pat: Seq<u8>, from: int, i: int)
    requires
        pat.len() > 0,
        from >= 0,
        matches_at(data, pat, i),
    ensures
        search_fwd(data, Some(pat), from) is Some,
{
    let last = data.len() - pat.len();
    lemma_first_match_found(data, pat, from + 1, last);
    lemma_first_match_found(data, pat, 0, min_int(from, last));
    if i > from {
        assert(from + 1 <= i <= last);
        assert(matches_at(data, pat, i));
    } else {
        assert(0 <= i <= min_int(from, last));
        assert(matches_at(data, pat, i));
    }
}

/// Backward search wraps around the whole file: whenever the pattern occurs
/// at `i`, the search finds an occurrence; it is the last one before `from`
/// when `i` is before `from`, and it is at or after `i` when no occurrence
/// starts before `from`.
pub proof fn lemma_search_bwd_finds_previous(data: Seq<u8>, pat: Seq<u8>, from: int, i: int)
    requires
        pat.len() > 0,
        matches_at(data, pat, i),
    ensures
        search_bwd(data, Some(pat), from) is Some,
        search_bwd(data, Some(pat), from) matches Some(r) && matches_at(data, pat, r) && (i < from ==> i
            <= r < from) && (r >= from ==> i <= r),
{
    let last = data.len() - pat.len();
    lemma_last_match_found(data, pat, 0, min_int(from - 1, last));
    lemma_last_match_found(data, pat, 0, last);
    assert(0 <= i <= last);
    if i < from {
        assert(0 <= i <= min_int(from - 1, last));
    }
}

/// Jumping to an occurrence of a pattern selects exactly that occurrence.
pub proof fn lemma_jump_selects_match(m: AppModel, pat: Seq<u8>, pos: int)
    requires
        model_wf(m),
        pat.len() > 0,
        matches_at(m.data, pat, pos),
    ensures
        selected(jumped_to_match(m, pos, pat.len() as int)) == pat,
        sel_range(jumped_to_match(m, pos, pat.len() as int)) == (pos, pos + pat.len() - 1),
{
    let j = jumped_to_match(m, pos, pat.len() as int);
    assert(j.data == m.data);
    assert(j.selection_anchor == Some(pos as usize));
    assert(j.selection_end == Some((pos + pat.len() - 1) as usize));
    assert(m.data.subrange(pos, pos + pat.len()) =~= pat);
}

/// A search typed at the prompt that finds its pattern selects an
/// occurrence of exactly the pattern typed.
pub proof fn lemma_search_selects_match(m: AppModel)
    requires
        model_wf(m),
    ensures
        parsed_search(m.search_input) matches Some((p, _)) ==> (search_fwd(
            m.data,
            Some(p),
            if m.cursor > 0 {
                m.cursor - 1
            } else {
                0
            },
        ) is Some ==> selected(searched(m)) == p),
{
    if let Some((p, hex)) = parsed_search(m.search_input) {
        let from: int = if m.cursor > 0 {
            m.cursor - 1
        } else {
            0
        };
        if let Some(pos) = search_fwd(m.data, Some(p), from) {
            lemma_search_result_matches(m.data, p, from);
            let m1 = AppModel { search_pattern: Some(p), search_was_hex: hex, ..m };
            lemma_jump_selects_match(m1, p, pos);
        }
    }
}

/// A hex digit character is a hex digit of its own value, and not whitespace.
proof fn lemma_digit_char_hex(d: int)
    requires
        0 <= d < 16,
    ensures
        is_hex_char(digit_char(d)),
        hex_val(digit_char(d)) == d,
        !is_ws(digit_char(d)),
{
}

/// Spaced hex read from the front: the first byte's digits, a space, the rest.
proof fn lemma_spaced_front(b: Seq<u8>)
    requires
        b.len() >= 2,
    ensures
        spaced_units(Radix::Hex, b) == unit_text(Radix::Hex, b[0]) + seq![' '] + spaced_units(
            Radix::Hex,
            b.drop_first(),
        ),
    decreases b.len(),
{
    if b.len() == 2 {
        assert(b.drop_last() =~= seq![b[0]]);
        assert(b.drop_first() =~= seq![b[1]]);
        assert(spaced_units(Radix::Hex, b.drop_last()) == unit_text(Radix::Hex, b[0]));
        assert(spaced_units(Radix::Hex, b.drop_first()) == unit_text(Radix::Hex, b[1]));
        assert(b.last() == b[1]);
    } else {
        lemma_spaced_front(b.drop_last());
        assert(b.drop_first().drop_last() =~= b.drop_last().drop_first());
        assert(b.drop_last()[0] == b[0]);
        assert(b.drop_first().last() == b.last());
        assert(spaced_units(Radix::Hex, b) =~= unit_text(Radix::Hex, b[0]) + seq![' '] + spaced_units(
            Radix::Hex,
            b.drop_first(),
        ));
    }
}

/// Spaced hex of bytes reads back as the bytes.
proof fn lemma_hex_pairs_spaced(b: Seq<u8>)
    requires
        b.len() > 0,
    ensures
        hex_pairs(spaced_units(Radix::Hex, b)) == Some(b),
    decreases b.len(),
{
    let v = b[0];
    lemma_digit_char_hex(v as int / 16);
    lemma_digit_char_hex(v as int % 16);
    assert(((hex_val(digit_char(v as int / 16)) * 16 + hex_val(digit_char(v as int % 16))) as u8) == v);
    let hi = digit_char(v as int / 16);
    let lo = digit_char(v as int % 16);
    if b.len() == 1 {
        let s = spaced_units(Radix::Hex, b);
        assert(s == unit_text(Radix::Hex, v));
        assert(s =~= seq![hi, lo]);
        assert(s.skip(2) =~= Seq::<char>::empty());
        assert(hex_pairs(s.skip(2)) == Some(Seq::<u8>::empty()));
        assert(hex_pairs(s) == Some(seq![v] + Seq::<u8>::empty()));
        assert(seq![v] + Seq::<u8>::empty() =~= b);
    } else {
        lemma_spaced_front(b);
        lemma_hex_pairs_spaced(b.drop_first());
        let s = spaced_units(Radix::Hex, b);
        let rest = spaced_units(Radix::Hex, b.drop_first());
        assert(s =~= seq![hi, lo, ' '] + rest);
        assert(s.skip(2) =~= seq![' '] + rest);
        assert((seq![' '] + rest).drop_first() =~= rest);
        assert(is_ws(' '));
        assert(hex_pairs(s.skip(2)) == hex_pairs(rest));
        assert(hex_pairs(s) == Some(seq![v] + b.drop_first()));
        assert(seq![v] + b.drop_first() =~= b);
    }
}

/// The text `*` shows for the selected bytes, typed at the search prompt,
/// reads back as exactly those bytes, as hex.
pub proof fn lemma_selection_text_reads_back(b: Seq<u8>)
    requires
        b.len() > 0,
    ensures
        parsed_search(spaced_units(Radix::Hex, b)) == Some((b, true)),
{
    let s = spaced_units(Radix::Hex, b);
    lemma_hex_pairs_spaced(b);
    lemma_spaced_nonempty_ends(b);
    assert(trim_start(s) == s);
    assert(trim_end(s) == s);
}

/// Spaced hex starts and ends with a hex digit.
proof fn lemma_spaced_nonempty_ends(b: Seq<u8>)
    requires
        b.len() > 0,
    ensures
        spaced_units(Radix::Hex, b).len() > 0,
        !is_ws(spaced_units(Radix::Hex, b)[0]),
        !is_ws(spaced_units(Radix::Hex, b).last()),
{
    lemma_digit_char_hex(b[0] as int / 16);
    lemma_digit_char_hex(b.last() as int % 16);
    if b.len() >= 2 {
        lemma_spaced_front(b);
    }
}

/// Whether `pat` occurs in `data` at `i`.
fn matches_here(data: &[u8], pat: &[u8], i: usize) -> (b: bool)
    requires
        i + pat@.len() <= data@.len(),
    ensures
        b == matches_at(data@, pat@, i as int),
{
    let n = data.len();
    let mut k: usize = 0;
    while k < pat.len()
        invariant
            k <= pat@.len(),
            n == data@.len(),
            i + pat@.len() <= data@.len(),
            forall|j: int| 0 <= j < k ==> data@[i + j] == pat@[j],
        decreases pat.len() - k,
    {
        if data[i + k] != pat[k] {
            assert(data@.subrange(i as int, i + pat@.len())[k as int] != pat@[k as int]);
            return false;
        }
        k = k + 1;
    }
    assert(data@.subrange(i as int, i + pat@.len()) =~= pat@);
    true
}

/// The first occurrence of a non-empty `pat` starting in `lo..=hi`.
fn find_first(data: &[u8], pat: &[u8], lo: usize, hi: usize) -> (r: Option<usize>)
    requires
        pat@.len() > 0,
        hi + pat@.len() <= data@.len(),
    ensures
        opt_int(r) == first_match(data@, pat@, lo as int, hi as int),
{
    let n = data.len();
    if lo > hi {
        return None;
    }
    let mut i = lo;
    while i <= hi
        invariant
            lo <= i,
            i <= hi + 1,
            n == data@.len(),
            pat@.len() > 0,
            hi + pat@.len() <= data@.len(),
            first_match(data@, pat@, lo as int, hi as int) == first_match(
                data@,
                pat@,
                i as int,
                hi as int,
            ),
        decreases hi + 1 - i,
    {
        if matches_here(data, pat, i) {
            return Some(i);
        }
        i = i + 1;
    }
    None
}

/// The last occurrence of a non-empty `pat` starting in `lo..=hi`.
fn find_last(data: &[u8], pat: &[u8], lo: usize, hi: usize) -> (r: Option<usize>)
    requires
        pat@.len() > 0,
        hi + pat@.len() <= data@.len(),
    ensures
        opt_int(r) == last_match(data@, pat@, lo as int, hi as int),
{
    let n = data.len();
    let mut end = hi + 1;
    while end > lo
        invariant
            end <= hi + 1,
            n == data@.len(),
            pat@.len() > 0,
            hi + pat@.len() <= data@.len(),
            last_match(data@, pat@, lo as int, hi as int) == last_match(
                data@,
                pat@,
                lo as int,
                end - 1,
            ),
        decreases end,
    {
        let i = end - 1;
        if matches_here(data, pat, i) {
            return Some(i);
        }
        end = i;
    }
    None
}

/// The forward search of [`search_fwd`] on explicit data and pattern.
fn scan_forward(data: &[u8], pat: &[u8], from: usize) -> (r: Option<usize>)
    ensures
        opt_int(r) == search_fwd(data@, Some(pat@), from as int),
{
    if pat.len() == 0 || pat.len() > data.len() {
        return None;
    }
    let last = data.len() - pat.len();
    if from < last {
        if let Some(i) = find_first(data, pat, from + 1, last) {
            return Some(i);
        }
    }
    let wrap_hi = if from < last {
        from
    } else {
        last
    };
    find_first(data, pat, 0, wrap_hi)
}

/// The backward search of [`search_bwd`] on explicit data and pattern.
fn scan_backward(data: &[u8], pat: &[u8], from: usize) -> (r: Option<usize>)
    ensures
        opt_int(r) == search_bwd(data@, Some(pat@), from as int),
{
    if pat.len() == 0 || pat.len() > data.len() {
        return None;
    }
    let last = data.len() - pat.len();
    if from > 0 {
        let hi = if from - 1 < last {
            from - 1
        } else {
            last
        };
        if let Some(i) = find_last(data, pat, 0, hi) {
            return Some(i);
        }
    } else {
        assert(last_match(data@, pat@, 0, -1) is None);
    }
    find_last(data, pat, 0, last)
}

/// The value of a hex digit, if `c` is one.
fn hex_digit(c: char) -> (r: Option<u8>)
    ensures
        r is Some <==> is_hex_char(c),
        r matches Some(v) ==> v == hex_val(c) && v < 16,
{
    if '0' <= c && c <= '9' {
        Some((c as u32 - '0' as u32) as u8)
    } else if 'a' <= c && c <= 'f' {
        Some((c as u32 - 'a' as u32 + 10) as u8)
    } else if 'A' <= c && c <= 'F' {
        Some((c as u32 - 'A' as u32 + 10) as u8)
    } else {
        None
    }
}

/// `rest` with `pre` in front, when there is a `rest`.
pub open spec fn prepended(pre: Seq<u8>, rest: Option<Seq<u8>>) -> Option<Seq<u8>> {
    match rest {
        Some(r) => Some(pre + r),
        None => None,
    }
}

/// The bytes of text made of hex pairs; see [`hex_pairs`].
fn hex_bytes(t: &Vec<char>) -> (r: Option<Vec<u8>>)
    ensures
        match r {
            Some(v) => hex_pairs(t@) == Some(v@),
            None => hex_pairs(t@) is None,
        },
{
    let mut out: Vec<u8> = Vec::new();
    let mut i: usize = 0;
    assert(t@.skip(0) =~= t@);
    while i < t.len()
        invariant
            i <= t@.len(),
            hex_pairs(t@) == prepended(out@, hex_pairs(t@.skip(i as int))),
        decreases t.len() - i,
    {
        let ghost rest = t@.skip(i as int);
        if is_whitespace(t[i]) {
            assert(rest.drop_first() =~= t@.skip(i + 1));
            i = i + 1;
        } else {
            if i + 1 >= t.len() {
                return None;
            }
            let h = hex_digit(t[i]);
            let l = hex_digit(t[i + 1]);
            match (h, l) {
                (Some(h), Some(l)) => {
                    if i + 2 < t.len() && !is_whitespace(t[i + 2]) {
                        return None;
                    }
                    let b: u8 = h * 16 + l;
                    let ghost before = out@;
                    out.push(b);
                    proof {
                        assert(rest.skip(2) =~= t@.skip(i + 2));
                        assert(b == (hex_val(rest[0]) * 16 + hex_val(rest[1])) as u8);
                        match hex_pairs(t@.skip(i + 2)) {
                            Some(x) => {
                                assert(before + (seq![b] + x) =~= out@ + x);
                            },
                            None => {},
                        }
                    }
                    i = i + 2;
                },
                _ => {
                    return None;
                },
            }
        }
    }
    assert(t@.skip(i as int) =~= Seq::<char>::empty());
    assert(out@ + Seq::<u8>::empty() =~= out@);
    Some(out)
}

impl App {
    /// What the search prompt asks for; see [`parsed_search`].
    pub fn parse_search_input(input: &str) -> (r: Option<(Vec<u8>, bool)>)
        ensures
            match r {
                Some((v, hex)) => parsed_search(input@) == Some((v@, hex)),
                None => parsed_search(input@) is None,
            },
    {
        let chars = chars_of(input);
        let t = trim_chars(&chars);
        if t.len() == 0 {
            return None;
        }
        match hex_bytes(&t) {
            Some(b) => Some((b, true)),
            None => {
                let s = string_of(&t);
                let bytes = vstd::slice::slice_to_vec(s.as_str().as_bytes());
                Some((bytes, false))
            },
        }
    }

    /// The next occurrence of the search pattern after `from`, wrapping around;
    /// see [`search_fwd`].
    pub fn search_forward(&self, from: usize) -> (r: Option<usize>)
        ensures
            opt_int(r) == search_fwd(self@.data, self@.search_pattern, from as int),
    {
        match &self.search_pattern {
            Some(p) => scan_forward(self.buffer.data(), p.as_slice(), from),
            None => None,
        }
    }

    /// The previous occurrence of the search pattern before `from`, wrapping
    /// around; see [`search_bwd`].
    pub fn search_backward(&self, from: usize) -> (r: Option<usize>)
        ensures
            opt_int(r) == search_bwd(self@.data, self@.search_pattern, from as int),
    {
        match &self.search_pattern {
            Some(p) => scan_backward(self.buffer.data(), p.as_slice(), from),
            None => None,
        }
    }

    /// Moves to a match at `pos` of `len` bytes and selects it.
    fn jump_to_match(&mut self, pos: usize, len: usize)
        requires
            model_wf(old(self)@),
            len > 0,
            pos + len <= old(self)@.data.len(),
        ensures
            final(self)@ == jumped_to_match(old(self)@, pos as int, len as int),
            model_wf(final(self)@),
    {
        self.cursor = pos;
        self.bit_cursor = pos * 8;
        self.selection_anchor = Some(pos);
        self.selection_end = Some(pos + len - 1);
        self.ensure_cursor_visible();
    }

    /// Runs the search typed at the prompt; see [`searched`].
    #[verifier::rlimit(50)]
    pub fn apply_search(&mut self)
        requires
            model_wf(old(self)@),
        ensures
            final(self)@ == searched(old(self)@),
            model_wf(final(self)@),
    {
        let parsed = Self::parse_search_input(self.search_input.as_str());
        let (pattern, is_hex) = match parsed {
            Some(x) => x,
            None => {
                return;
            },
        };
        let pat_len = pattern.len();
        self.search_pattern = Some(pattern);
        self.search_was_hex = is_hex;
        let from = if self.cursor > 0 {
            self.cursor - 1
        } else {
            0
        };
        match self.search_forward(from) {
            Some(pos) => {
                proof {
                    lemma_search_result_matches(self@.data, self@.search_pattern.unwrap(), from as int);
                }
                self.jump_to_match(pos, pat_len);
                self.input_mode = InputMode::Normal;
            },
            None => {
                self.input_mode = InputMode::Normal;
            },
        }
    }

    /// The length of the search pattern (1 without one).
    fn pattern_len(&self) -> (n: usize)
        ensures
            n == match self@.search_pattern {
                Some(p) => p.len(),
                None => 1,
            },
    {
        match &self.search_pattern {
            Some(p) => p.len(),
            None => 1,
        }
    }

    /// Jumps to the next match up to `count` times; see [`next_matches`].
    pub fn search_next(&mut self, count: usize)
        requires
            model_wf(old(self)@),
        ensures
            final(self)@ == next_matches(old(self)@, count as nat),
            model_wf(final(self)@),
    {
        let mut i: usize = 0;
        while i < count
            invariant
                i <= count,
                model_wf(self@),
                next_matches(old(self)@, count as nat) == next_matches(self@, (count - i) as nat),
            ensures
                next_matches(old(self)@, count as nat) == self@,
                model_wf(self@),
            decreases count - i,
        {
            match self.search_forward(self.cursor) {
                Some(pos) => {
                    proof {
                        lemma_search_result_matches(
                            self@.data,
                            self@.search_pattern.unwrap(),
                            self.cursor as int,
                        );
                    }
                    let len = self.pattern_len();
                    self.jump_to_match(pos, len);
                },
                None => {
                    break;
                },
            }
            i = i + 1;
        }
    }

    /// Jumps to the previous match up to `count` times; see [`prev_matches`].
    pub fn search_prev(&mut self, count: usize)
        requires
            model_wf(old(self)@),
        ensures
            final(self)@ == prev_matches(old(self)@, count as nat),
            model_wf(final(self)@),
    {
        let mut i: usize = 0;
        while i < count
            invariant
                i <= count,
                model_wf(self@),
                prev_matches(old(self)@, count as nat) == prev_matches(self@, (count - i) as nat),
            ensures
                prev_matches(old(self)@, count as nat) == self@,
                model_wf(self@),
            decreases count - i,
        {
            match self.search_backward(self.cursor) {
                Some(pos) => {
                    proof {
                        lemma_search_result_matches(
                            self@.data,
                            self@.search_pattern.unwrap(),
                            self.cursor as int,
                        );
                    }
                    let len = self.pattern_len();
                    self.jump_to_match(pos, len);
                },
                None => {
                    break;
                },
            }
            i = i + 1;
        }
    }

    /// Searches for the selected bytes; see [`searched_selection`].
    pub fn search_selected_bytes(&mut self)
        requires
            model_wf(old(self)@),
        ensures
            final(self)@ == searched_selection(old(self)@),
            model_wf(final(self)@),
    {
        let bytes = vstd::slice::slice_to_vec(self.selected_bytes());
        if bytes.len() == 0 {
            return;
        }
        let (_, sel_end) = self.selection_range();
        let len = bytes.len();
        self.search_input = spaced_hex(bytes.as_slice());
        self.search_was_hex = true;
        self.search_pattern = Some(bytes);
        match self.search_forward(sel_end) {
            Some(pos) => {
                proof {
                    lemma_search_result_matches(self@.data, self@.search_pattern.unwrap(), sel_end as int);
                }
                self.jump_to_match(pos, len);
            },
            None => {},
        }
    }
}


/// A count of `k + 1` for `n` is `k` jumps and then one more: each of the
/// jumps goes on from where the previous one left the cursor, so `k` then `1`
/// lands where `k + 1` does.
pub proof fn lemma_next_matches_steps(m: AppModel, k: nat)
    ensures
        next_matches(next_matches(m, k), 1) == next_matches(m, k + 1),
    decreases k,
{
    if k > 0 {
        match search_fwd(m.data, m.search_pattern, m.cursor as int) {
            Some(pos) => {
                let j = jumped_to_match(m, pos, m.search_pattern.unwrap().len() as int);
                lemma_next_matches_steps(j, (k - 1) as nat);
                assert(next_matches(m, k) == next_matches(j, (k - 1) as nat));
                assert(next_matches(m, k + 1) == next_matches(j, k));
            },
            None => {},
        }
    }
}

/// Likewise for `N` and `#`: `k` steps back and then one more are `k + 1` steps back.
pub proof fn lemma_prev_matches_steps(m: AppModel, k: nat)
    ensures
        prev_matches(prev_matches(m, k), 1) == prev_matches(m, k + 1),
    decreases k,
{
    if k > 0 {
        match search_bwd(m.data, m.search_pattern, m.cursor as int) {
            Some(pos) => {
                let j = jumped_to_match(m, pos, m.search_pattern.unwrap().len() as int);
                lemma_prev_matches_steps(j, (k - 1) as nat);
                assert(prev_matches(m, k) == prev_matches(j, (k - 1) as nat));
                assert(prev_matches(m, k + 1) == prev_matches(j, k));
            },
            None => {},
        }
    }
}

} // verus!
