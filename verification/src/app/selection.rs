//! Cursor movement, selections, scrolling and decode focus.

use vstd::prelude::*;
use vstd::slice::slice_subrange;

use super::types::{InputMode, SelectionMode};
use super::{model_wf, App, AppModel};
use crate::decode::types::{DecodedValue, RANGE_COLOR_COUNT};

verus! {

/// The smaller of two integers.
pub open spec fn min_int(a: int, b: int) -> int {
    if a < b {
        a
    } else {
        b
    }
}

/// The larger of two integers.
pub open spec fn max_int(a: int, b: int) -> int {
    if a < b {
        b
    } else {
        a
    }
}

/// The inclusive byte range selected: from anchor to end in either order, or
/// the cursor byte alone when there is no selection.
pub open spec fn sel_range(m: AppModel) -> (int, int) {
    match (m.selection_anchor, m.selection_end) {
        (Some(a), Some(e)) => (min_int(a as int, e as int), max_int(a as int, e as int)),
        _ => (m.cursor as int, m.cursor as int),
    }
}

/// The selected bytes, clipped to the file; empty when the selection starts
/// past its end.
pub open spec fn selected(m: AppModel) -> Seq<u8> {
    let (s, e) = sel_range(m);
    if s >= m.data.len() {
        Seq::empty()
    } else {
        m.data.subrange(s, min_int(e, m.data.len() - 1) + 1)
    }
}

/// The bit selection as `(offset, length)`, or the bit cursor alone.
pub open spec fn bit_sel(m: AppModel) -> (int, int) {
    match (m.bit_selection_anchor, m.bit_selection_end) {
        (Some(a), Some(e)) => (min_int(a as int, e as int), max_int(a as int, e as int) - min_int(a as int, e as int) + 1),
        _ => (m.bit_cursor as int, 1),
    }
}

/// The state without byte or bit selection.
pub open spec fn cleared(m: AppModel) -> AppModel {
    AppModel {
        selection_anchor: None,
        selection_end: None,
        bit_selection_anchor: None,
        bit_selection_end: None,
        ..m
    }
}

/// While selecting, the selection end follows the cursor (byte or bit).
pub open spec fn follow_selection(m: AppModel) -> AppModel {
    if m.input_mode == InputMode::Selecting {
        match m.mode {
            SelectionMode::Byte => AppModel { selection_end: Some(m.cursor), ..m },
            SelectionMode::Bit => AppModel { bit_selection_end: Some(m.bit_cursor), ..m },
        }
    } else {
        m
    }
}

/// The scroll offset that brings the cursor's row into view, moving as little as possible.
pub open spec fn scrolled_to_cursor(m: AppModel) -> AppModel {
    let row = m.cursor / m.bytes_per_row;
    if row < m.scroll_offset {
        AppModel { scroll_offset: row, ..m }
    } else if row >= m.scroll_offset + m.visible_rows {
        AppModel { scroll_offset: (row - m.visible_rows + 1) as usize, ..m }
    } else {
        m
    }
}

/// `x` moved by `delta`, not below zero and not above `max`.
pub open spec fn step_within(x: int, delta: int, max: int) -> int {
    if delta < 0 {
        if x + delta < 0 {
            0
        } else {
            x + delta
        }
    } else {
        min_int(x + delta, max)
    }
}

/// The cursor moved by `delta` positions: bytes in byte mode, bits in bit mode
/// (which moves the byte cursor to the bit's byte).
pub open spec fn cursor_moved(m: AppModel, delta: int) -> AppModel {
    match m.mode {
        SelectionMode::Byte => AppModel {
            cursor: step_within(m.cursor as int, delta, m.data.len() - 1) as usize,
            ..m
        },
        SelectionMode::Bit => {
            let b = step_within(m.bit_cursor as int, delta, m.data.len() * 8 - 1);
            AppModel { bit_cursor: b as usize, cursor: (b / 8) as usize, ..m }
        },
    }
}

/// A cursor movement: nothing in an empty file; otherwise the move, the
/// selection following it, and scrolling to the cursor.
pub open spec fn after_move(m: AppModel, delta: int) -> AppModel {
    if m.data.len() == 0 {
        m
    } else {
        scrolled_to_cursor(follow_selection(cursor_moved(m, delta)))
    }
}

/// The first entry at or after `k` that maps to a byte range.
pub open spec fn first_ranged_from(es: Seq<DecodedValue>, k: int) -> Option<int>
    decreases es.len() - k,
{
    if k < 0 || k >= es.len() {
        None
    } else if es[k].range is Some {
        Some(k)
    } else {
        first_ranged_from(es, k + 1)
    }
}

/// The last entry before `k` that maps to a byte range.
pub open spec fn last_ranged_below(es: Seq<DecodedValue>, k: int) -> Option<int>
    decreases k,
{
    if k <= 0 || k > es.len() {
        None
    } else if es[k - 1].range is Some {
        Some(k - 1)
    } else {
        last_ranged_below(es, k - 1)
    }
}

/// Focus moved to the next range-mapped entry, wrapping to the first; unchanged
/// when no entry maps to a range.
pub open spec fn focus_next(m: AppModel) -> AppModel {
    match first_ranged_from(m.decode_entries, 0) {
        None => m,
        Some(first) => {
            let next = match m.decode_focus {
                None => first,
                Some(c) => match first_ranged_from(m.decode_entries, c + 1) {
                    Some(n) => n,
                    None => first,
                },
            };
            AppModel { decode_focus: Some(next as usize), ..m }
        },
    }
}

/// Focus moved to the previous range-mapped entry, wrapping to the last;
/// unchanged when no entry maps to a range.
pub open spec fn focus_prev(m: AppModel) -> AppModel {
    let n = m.decode_entries.len() as int;
    match last_ranged_below(m.decode_entries, n) {
        None => m,
        Some(last) => {
            let prev = match m.decode_focus {
                None => last,
                Some(c) => match last_ranged_below(m.decode_entries, min_int(c as int, n)) {
                    Some(p) => p,
                    None => last,
                },
            };
            AppModel { decode_focus: Some(prev as usize), ..m }
        },
    }
}

/// `a + b` saturated at `usize::MAX`.
pub open spec fn sat_add(a: int, b: int) -> int {
    min_int(a + b, usize::MAX as int)
}

/// The absolute byte range of a field `(offset, length)` of the selection
/// starting at `sel_start`, clipped to the last byte of the file.
pub open spec fn abs_range(sel_start: int, offset: int, length: int, file_max: int) -> (int, int) {
    let s = min_int(sat_add(sel_start, offset), file_max);
    (s, min_int(sat_add(s, length - 1), file_max))
}

/// The highlights of the entries `es`, coloured from colour number `color` on:
/// one per entry with a non-empty range.
pub open spec fn highlights_from(es: Seq<DecodedValue>, sel_start: int, file_max: int, color: int) -> Seq<
    (usize, usize, usize),
>
    decreases es.len(),
{
    if es.len() == 0 {
        Seq::empty()
    } else {
        match es[0].range {
            Some((o, l)) if l > 0 => {
                let (s, e) = abs_range(sel_start, o as int, l as int, file_max);
                seq![(s as usize, e as usize, (color % 10) as usize)] + highlights_from(
                    es.drop_first(),
                    sel_start,
                    file_max,
                    color + 1,
                )
            },
            _ => highlights_from(es.drop_first(), sel_start, file_max, color),
        }
    }
}

/// The last byte position of the file (0 for an empty file).
pub open spec fn file_max(m: AppModel) -> int {
    if m.data.len() == 0 {
        0
    } else {
        m.data.len() - 1
    }
}

/// The absolute byte range of the focused entry, if it has a non-empty range.
pub open spec fn focused(m: AppModel) -> Option<(int, int)> {
    match m.decode_focus {
        None => None,
        Some(f) => if f < m.decode_entries.len() {
            match m.decode_entries[f as int].range {
                Some((o, l)) => if l == 0 {
                    None
                } else {
                    Some(abs_range(sel_range(m).0, o as int, l as int, file_max(m)))
                },
                None => None,
            }
        } else {
            None
        },
    }
}

/// Scrolling that brings the focused range into view; nothing without focus.
pub open spec fn scrolled_to_focus(m: AppModel) -> AppModel {
    match focused(m) {
        None => m,
        Some((s, e)) => {
            let sr = s / m.bytes_per_row as int;
            let er = e / m.bytes_per_row as int;
            if sr < m.scroll_offset {
                AppModel { scroll_offset: sr as usize, ..m }
            } else if er >= m.scroll_offset + m.visible_rows {
                AppModel {
                    scroll_offset: (if er < m.visible_rows - 1 {
                        0
                    } else {
                        er - (m.visible_rows - 1)
                    }) as usize,
                    ..m
                }
            } else {
                m
            }
        },
    }
}

/// Whether scrolling to the focused range stays clear of `visible_rows - 1`
/// going below zero, which happens only with no visible rows.
pub open spec fn focus_scroll_ok(m: AppModel) -> bool {
    match focused(m) {
        None => true,
        Some((s, e)) => {
            let sr = s / m.bytes_per_row as int;
            let er = e / m.bytes_per_row as int;
            sr < m.scroll_offset || er < m.scroll_offset + m.visible_rows || m.visible_rows > 0
        },
    }
}

/// A window of `len` positions starting at `start`, moved `count` windows
/// forward and clipped to `max`: its new start and end.
pub open spec fn fwd_window(start: int, len: int, count: int, max: int) -> (int, int) {
    let ns = min_int(start + len * count, max);
    (ns, min_int(ns + len - 1, max))
}

/// A window moved `count` windows backward, stopping at 0: its new start and end.
pub open spec fn back_window(start: int, len: int, count: int) -> (int, int) {
    let ns = if len * count > start {
        0
    } else {
        start - len * count
    };
    (ns, ns + (len - 1))
}

/// The selection window moved `count` windows forward (byte or bit), clipped
/// to the end of the file; nothing without a selection.
pub open spec fn chunk_forward(m: AppModel, count: int) -> AppModel {
    match m.mode {
        SelectionMode::Byte => match (m.selection_anchor, m.selection_end) {
            (Some(a), Some(e)) => {
                let start = min_int(a as int, e as int);
                let len = max_int(a as int, e as int) - start + 1;
                let (ns, ne) = fwd_window(start, len, count, file_max(m));
                scrolled_to_cursor(
                    AppModel {
                        selection_anchor: Some(ns as usize),
                        selection_end: Some(ne as usize),
                        cursor: ns as usize,
                        ..m
                    },
                )
            },
            _ => m,
        },
        SelectionMode::Bit => match (m.bit_selection_anchor, m.bit_selection_end) {
            (Some(a), Some(e)) => {
                let start = min_int(a as int, e as int);
                let len = max_int(a as int, e as int) - start + 1;
                let mb = if m.data.len() == 0 {
                    0
                } else {
                    m.data.len() * 8 - 1
                };
                let (ns, ne) = fwd_window(start, len, count, mb);
                scrolled_to_cursor(
                    AppModel {
                        bit_selection_anchor: Some(ns as usize),
                        bit_selection_end: Some(ne as usize),
                        bit_cursor: ns as usize,
                        cursor: (ns / 8) as usize,
                        ..m
                    },
                )
            },
            _ => m,
        },
    }
}

/// The selection window moved `count` windows backward, stopping at the start.
pub open spec fn chunk_backward(m: AppModel, count: int) -> AppModel {
    match m.mode {
        SelectionMode::Byte => match (m.selection_anchor, m.selection_end) {
            (Some(a), Some(e)) => {
                let start = min_int(a as int, e as int);
                let len = max_int(a as int, e as int) - start + 1;
                let (ns, ne) = back_window(start, len, count);
                scrolled_to_cursor(
                    AppModel {
                        selection_anchor: Some(ns as usize),
                        selection_end: Some(ne as usize),
                        cursor: ns as usize,
                        ..m
                    },
                )
            },
            _ => m,
        },
        SelectionMode::Bit => match (m.bit_selection_anchor, m.bit_selection_end) {
            (Some(a), Some(e)) => {
                let start = min_int(a as int, e as int);
                let len = max_int(a as int, e as int) - start + 1;
                let (ns, ne) = back_window(start, len, count);
                scrolled_to_cursor(
                    AppModel {
                        bit_selection_anchor: Some(ns as usize),
                        bit_selection_end: Some(ne as usize),
                        bit_cursor: ns as usize,
                        cursor: (ns / 8) as usize,
                        ..m
                    },
                )
            },
            _ => m,
        },
    }
}

/// The window `start .. start + len` moved `count` windows forward, clipped to `max`.
fn forward_window(start: usize, len: usize, count: usize, max: usize) -> (r: (usize, usize))
    requires
        len >= 1,
    ensures
        (r.0 as int, r.1 as int) == fwd_window(start as int, len as int, count as int, max as int),
{
    proof {
        assert(len as u128 * count as u128 <= 0xffff_ffff_ffff_ffffu128 * 0xffff_ffff_ffff_ffffu128) by (nonlinear_arith)
            requires
                len <= 0xffff_ffff_ffff_ffffu128,
                count <= 0xffff_ffff_ffff_ffffu128,
        ;
    }
    let target: u128 = start as u128 + len as u128 * count as u128;
    let ns: usize = if target < max as u128 {
        target as usize
    } else {
        max
    };
    let ne: usize = if ns >= max || len - 1 >= max - ns {
        max
    } else {
        ns + (len - 1)
    };
    (ns, ne)
}

/// The window `start .. start + len` moved `count` windows backward, stopping at 0.
fn backward_window(start: usize, len: usize, count: usize) -> (r: (usize, usize))
    requires
        len >= 1,
        start as int + len - 1 <= usize::MAX,
    ensures
        (r.0 as int, r.1 as int) == back_window(start as int, len as int, count as int),
{
    proof {
        assert(len as u128 * count as u128 <= 0xffff_ffff_ffff_ffffu128 * 0xffff_ffff_ffff_ffffu128) by (nonlinear_arith)
            requires
                len <= 0xffff_ffff_ffff_ffffu128,
                count <= 0xffff_ffff_ffff_ffffu128,
        ;
    }
    let back: u128 = len as u128 * count as u128;
    let ns: usize = if back > start as u128 {
        0
    } else {
        start - back as usize
    };
    assert(ns <= start);
    (ns, ns + (len - 1))
}

impl App {
    /// The inclusive byte range selected; see [`sel_range`].
    pub fn selection_range(&self) -> (r: (usize, usize))
        ensures
            (r.0 as int, r.1 as int) == sel_range(self@),
    {
        match (self.selection_anchor, self.selection_end) {
            (Some(anchor), Some(end)) => {
                if anchor <= end {
                    (anchor, end)
                } else {
                    (end, anchor)
                }
            },
            _ => (self.cursor, self.cursor),
        }
    }

    /// The selected bytes; see [`selected`].
    pub fn selected_bytes(&self) -> (r: &[u8])
        ensures
            r@ == selected(self@),
    {
        let (start, end) = self.selection_range();
        let data = self.buffer.data();
        if start >= data.len() {
            return slice_subrange(data, 0, 0);
        }
        let last = if end < data.len() - 1 {
            end
        } else {
            data.len() - 1
        };
        slice_subrange(data, start, last + 1)
    }

    /// The bit selection as `(offset, length)`; see [`bit_sel`].
    pub fn bit_selection(&self) -> (r: (usize, usize))
        requires
            model_wf(self@),
        ensures
            (r.0 as int, r.1 as int) == bit_sel(self@),
    {
        match (self.bit_selection_anchor, self.bit_selection_end) {
            (Some(anchor), Some(end)) => {
                if anchor <= end {
                    (anchor, end - anchor + 1)
                } else {
                    (end, anchor - end + 1)
                }
            },
            _ => (self.bit_cursor, 1),
        }
    }

    /// Clears the byte and bit selections.
    pub fn clear_selection(&mut self)
        ensures
            final(self)@ == cleared(old(self)@),
    {
        self.selection_anchor = None;
        self.selection_end = None;
        self.bit_selection_anchor = None;
        self.bit_selection_end = None;
    }

    /// While selecting, moves the selection end to the cursor.
    pub fn update_selection_on_move(&mut self)
        ensures
            final(self)@ == follow_selection(old(self)@),
    {
        if self.input_mode == InputMode::Selecting {
            match self.mode {
                SelectionMode::Byte => {
                    self.selection_end = Some(self.cursor);
                },
                SelectionMode::Bit => {
                    self.bit_selection_end = Some(self.bit_cursor);
                },
            }
        }
    }

    /// Scrolls so that the cursor's row is visible.
    pub fn ensure_cursor_visible(&mut self)
        requires
            model_wf(old(self)@),
        ensures
            final(self)@ == scrolled_to_cursor(old(self)@),
            model_wf(final(self)@),
    {
        let row = self.cursor / self.bytes_per_row;
        if row < self.scroll_offset {
            self.scroll_offset = row;
        } else if row >= self.scroll_offset + self.visible_rows {
            self.scroll_offset = row - self.visible_rows + 1;
        }
    }

    /// Moves the cursor by `delta` (bytes, or bits in bit mode), clamped to the
    /// file, then lets a selection follow and scrolls to the cursor.
    pub fn move_cursor(&mut self, delta: isize)
        requires
            model_wf(old(self)@),
            delta > isize::MIN,
        ensures
            final(self)@ == after_move(old(self)@, delta as int),
            model_wf(final(self)@),
    {
        if self.file_len() == 0 {
            return;
        }
        match self.mode {
            SelectionMode::Byte => {
                let max = self.file_len() - 1;
                let new = if delta < 0 {
                    let d = (0 - delta) as usize;
                    if self.cursor < d {
                        0
                    } else {
                        self.cursor - d
                    }
                } else {
                    let d = delta as usize;
                    if self.cursor >= max || d >= max - self.cursor {
                        max
                    } else {
                        self.cursor + d
                    }
                };
                self.cursor = new;
            },
            SelectionMode::Bit => {
                let max_bits = self.file_len() * 8 - 1;
                let new = if delta < 0 {
                    let d = (0 - delta) as usize;
                    if self.bit_cursor < d {
                        0
                    } else {
                        self.bit_cursor - d
                    }
                } else {
                    let d = delta as usize;
                    if self.bit_cursor >= max_bits || d >= max_bits - self.bit_cursor {
                        max_bits
                    } else {
                        self.bit_cursor + d
                    }
                };
                self.bit_cursor = new;
                self.cursor = new / 8;
            },
        }
        self.update_selection_on_move();
        self.ensure_cursor_visible();
    }

    /// The first range-mapped entry at or after `k`.
    fn first_ranged(&self, k: usize) -> (r: Option<usize>)
        ensures
            match r {
                Some(i) => first_ranged_from(self@.decode_entries, k as int) == Some(i as int),
                None => first_ranged_from(self@.decode_entries, k as int) is None,
            },
        decreases self.decode_entries@.len() - k,
    {
        if k >= self.decode_entries.len() {
            return None;
        }
        if self.decode_entries[k].range.is_some() {
            Some(k)
        } else {
            self.first_ranged(k + 1)
        }
    }

    /// The last range-mapped entry before `k`.
    fn last_ranged(&self, k: usize) -> (r: Option<usize>)
        requires
            k <= self.decode_entries@.len(),
        ensures
            match r {
                Some(i) => last_ranged_below(self@.decode_entries, k as int) == Some(i as int),
                None => last_ranged_below(self@.decode_entries, k as int) is None,
            },
        decreases k,
    {
        if k == 0 {
            return None;
        }
        if self.decode_entries[k - 1].range.is_some() {
            Some(k - 1)
        } else {
            self.last_ranged(k - 1)
        }
    }

    /// Moves decode focus to the next range-mapped entry; see [`focus_next`].
    pub fn focus_next_decode_entry(&mut self)
        ensures
            final(self)@ == focus_next(old(self)@),
    {
        self.decode_focus = self.focus_after(true);
    }

    /// Moves decode focus to the previous range-mapped entry; see [`focus_prev`].
    pub fn focus_prev_decode_entry(&mut self)
        ensures
            final(self)@ == focus_prev(old(self)@),
    {
        self.decode_focus = self.focus_after(false);
    }

    /// Where Tab (`forward`) or Shift+Tab would move the decode focus; see
    /// [`focus_next`] and [`focus_prev`].
    pub fn focus_after(&self, forward: bool) -> (r: Option<usize>)
        ensures
            forward ==> focus_next(self@) == (AppModel { decode_focus: r, ..self@ }),
            !forward ==> focus_prev(self@) == (AppModel { decode_focus: r, ..self@ }),
    {
        let n = self.decode_entries.len();
        if forward {
            let first = match self.first_ranged(0) {
                Some(f) => f,
                None => {
                    return self.decode_focus;
                },
            };
            proof {
                assert(first_ranged_from(self@.decode_entries, 0) == Some(first as int));
            }
            let next = match self.decode_focus {
                None => first,
                Some(current) => {
                    if current < n {
                        match self.first_ranged(current + 1) {
                            Some(n) => n,
                            None => first,
                        }
                    } else {
                        first
                    }
                },
            };
            Some(next)
        } else {
            let last = match self.last_ranged(n) {
                Some(l) => l,
                None => {
                    return self.decode_focus;
                },
            };
            let prev = match self.decode_focus {
                None => last,
                Some(current) => {
                    let below = if current < n {
                        current
                    } else {
                        n
                    };
                    match self.last_ranged(below) {
                        Some(p) => p,
                        None => last,
                    }
                },
            };
            Some(prev)
        }
    }

    /// Whether Tab (`forward`) or Shift+Tab can be handled: the newly focused
    /// range has rows to scroll in; see [`focus_scroll_ok`].
    pub fn focus_key_ok(&self, forward: bool) -> (b: bool)
        requires
            model_wf(self@),
        ensures
            forward ==> b == focus_scroll_ok(focus_next((AppModel { count_prefix: None, ..self@ }))),
            !forward ==> b == focus_scroll_ok(focus_prev((AppModel { count_prefix: None, ..self@ }))),
    {
        let f = self.focus_after(forward);
        let ok = match self.range_at_focus(f) {
            None => true,
            Some((s, e)) => {
                let sr = s / self.bytes_per_row;
                let er = e / self.bytes_per_row;
                sr < self.scroll_offset || (er as u128) < (self.scroll_offset as u128) + (self.visible_rows as u128)
                    || self.visible_rows > 0
            },
        };
        ok
    }

    /// The highlights of the range-mapped decode entries as
    /// `(start, end, colour)`, positions absolute and clipped to the file.
    pub fn active_range_highlights(&self) -> (r: Vec<(usize, usize, usize)>)
        ensures
            r@ == highlights_from(self@.decode_entries, sel_range(self@).0, file_max(self@), 0),
    {
        let (sel_start, _) = self.selection_range();
        let fm = if self.file_len() == 0 {
            0
        } else {
            self.file_len() - 1
        };
        let ghost es = self@.decode_entries;
        let mut highlights: Vec<(usize, usize, usize)> = Vec::new();
        let mut color_idx: usize = 0;
        let mut k: usize = 0;
        proof {
            assert(es.subrange(0, es.len() as int) =~= es);
        }
        while k < self.decode_entries.len()
            invariant
                k <= es.len(),
                es == self@.decode_entries,
                color_idx <= k,
                highlights@ + highlights_from(es.subrange(k as int, es.len() as int), sel_start as int, fm as int, color_idx as int)
                    == highlights_from(es, sel_start as int, fm as int, 0),
            decreases es.len() - k,
        {
            let ghost rest = es.subrange(k as int, es.len() as int);
            proof {
                assert(rest.drop_first() =~= es.subrange(k + 1, es.len() as int));
                assert(rest[0] == es[k as int]);
            }
            match self.decode_entries[k].range {
                Some((offset, length)) => {
                    if length > 0 {
                        let s0 = if sel_start <= usize::MAX - offset {
                            sel_start + offset
                        } else {
                            usize::MAX
                        };
                        let abs_start = if s0 < fm {
                            s0
                        } else {
                            fm
                        };
                        let e0 = if abs_start <= usize::MAX - (length - 1) {
                            abs_start + (length - 1)
                        } else {
                            usize::MAX
                        };
                        let abs_end = if e0 < fm {
                            e0
                        } else {
                            fm
                        };
                        let ghost before = highlights@;
                        highlights.push((abs_start, abs_end, color_idx % RANGE_COLOR_COUNT));
                        proof {
                            assert(before.push((abs_start, abs_end, color_idx % RANGE_COLOR_COUNT))
                                + highlights_from(rest.drop_first(), sel_start as int, fm as int, color_idx + 1)
                                =~= before + highlights_from(rest, sel_start as int, fm as int, color_idx as int));
                        }
                        color_idx = color_idx + 1;
                    } else {
                        proof {
                            assert(highlights_from(rest, sel_start as int, fm as int, color_idx as int)
                                == highlights_from(rest.drop_first(), sel_start as int, fm as int, color_idx as int));
                        }
                    }
                },
                None => {},
            }
            k = k + 1;
        }
        proof {
            assert(es.subrange(k as int, es.len() as int) =~= Seq::<DecodedValue>::empty());
            assert(highlights@ + Seq::<(usize, usize, usize)>::empty() =~= highlights@);
        }
        highlights
    }

    /// The absolute byte range of the focused entry; see [`focused`].
    pub fn focused_range(&self) -> (r: Option<(usize, usize)>)
        ensures
            match r {
                Some((s, e)) => focused(self@) == Some((s as int, e as int)),
                None => focused(self@) is None,
            },
    {
        let r = self.range_at_focus(self.decode_focus);
        assert(AppModel { decode_focus: self@.decode_focus, ..self@ } == self@);
        r
    }

    /// The byte range the decode focus would pick out if it were `focus`; see [`focused`].
    pub fn range_at_focus(&self, focus: Option<usize>) -> (r: Option<(usize, usize)>)
        ensures
            match r {
                Some((s, e)) => focused((AppModel { decode_focus: focus, ..self@ })) == Some((s as int, e as int)),
                None => focused((AppModel { decode_focus: focus, ..self@ })) is None,
            },
    {
        let focus_idx = match focus {
            Some(f) => f,
            None => {
                return None;
            },
        };
        if focus_idx >= self.decode_entries.len() {
            return None;
        }
        let (offset, length) = match self.decode_entries[focus_idx].range {
            Some(r) => r,
            None => {
                return None;
            },
        };
        if length == 0 {
            return None;
        }
        let (sel_start, _) = self.selection_range();
        let fm = if self.file_len() == 0 {
            0
        } else {
            self.file_len() - 1
        };
        let s0 = if sel_start <= usize::MAX - offset {
            sel_start + offset
        } else {
            usize::MAX
        };
        let abs_start = if s0 < fm {
            s0
        } else {
            fm
        };
        let e0 = if abs_start <= usize::MAX - (length - 1) {
            abs_start + (length - 1)
        } else {
            usize::MAX
        };
        let abs_end = if e0 < fm {
            e0
        } else {
            fm
        };
        Some((abs_start, abs_end))
    }

    /// Takes the typed count, 1 when none was typed.
    pub fn take_count(&mut self) -> (n: usize)
        ensures
            n == match old(self)@.count_prefix {
                Some(c) => c,
                None => 1,
            },
            final(self)@ == (AppModel { count_prefix: None, ..old(self)@ }),
    {
        let n = match self.count_prefix {
            Some(c) => c,
            None => 1,
        };
        self.count_prefix = None;
        n
    }

    /// Moves the selection window `count` windows forward; see [`chunk_forward`].
    pub fn navigate_chunk_forward(&mut self, count: usize)
        requires
            model_wf(old(self)@),
        ensures
            final(self)@ == chunk_forward(old(self)@, count as int),
            model_wf(final(self)@),
    {
        match self.mode {
            SelectionMode::Byte => {
                let (anchor, end) = match (self.selection_anchor, self.selection_end) {
                    (Some(a), Some(e)) => (a, e),
                    _ => {
                        return;
                    },
                };
                let start = if anchor <= end {
                    anchor
                } else {
                    end
                };
                let sel_end = if anchor <= end {
                    end
                } else {
                    anchor
                };
                let sel_len = sel_end - start + 1;
                let fm = if self.file_len() == 0 {
                    0
                } else {
                    self.file_len() - 1
                };
                let (new_start, new_end) = forward_window(start, sel_len, count, fm);
                self.selection_anchor = Some(new_start);
                self.selection_end = Some(new_end);
                self.cursor = new_start;
            },
            SelectionMode::Bit => {
                let (anchor, end) = match (self.bit_selection_anchor, self.bit_selection_end) {
                    (Some(a), Some(e)) => (a, e),
                    _ => {
                        return;
                    },
                };
                let start = if anchor <= end {
                    anchor
                } else {
                    end
                };
                let sel_end = if anchor <= end {
                    end
                } else {
                    anchor
                };
                let sel_len = sel_end - start + 1;
                let max_bits = if self.file_len() == 0 {
                    0
                } else {
                    self.file_len() * 8 - 1
                };
                let (new_start, new_end) = forward_window(start, sel_len, count, max_bits);
                self.bit_selection_anchor = Some(new_start);
                self.bit_selection_end = Some(new_end);
                self.bit_cursor = new_start;
                self.cursor = new_start / 8;
            },
        }
        self.ensure_cursor_visible();
    }

    /// Moves the selection window `count` windows backward; see [`chunk_backward`].
    pub fn navigate_chunk_backward(&mut self, count: usize)
        requires
            model_wf(old(self)@),
        ensures
            final(self)@ == chunk_backward(old(self)@, count as int),
            model_wf(final(self)@),
    {
        match self.mode {
            SelectionMode::Byte => {
                let (anchor, end) = match (self.selection_anchor, self.selection_end) {
                    (Some(a), Some(e)) => (a, e),
                    _ => {
                        return;
                    },
                };
                let start = if anchor <= end {
                    anchor
                } else {
                    end
                };
                let sel_end = if anchor <= end {
                    end
                } else {
                    anchor
                };
                let sel_len = sel_end - start + 1;
                let (new_start, new_end) = backward_window(start, sel_len, count);
                self.selection_anchor = Some(new_start);
                self.selection_end = Some(new_end);
                self.cursor = new_start;
            },
            SelectionMode::Bit => {
                let (anchor, end) = match (self.bit_selection_anchor, self.bit_selection_end) {
                    (Some(a), Some(e)) => (a, e),
                    _ => {
                        return;
                    },
                };
                let start = if anchor <= end {
                    anchor
                } else {
                    end
                };
                let sel_end = if anchor <= end {
                    end
                } else {
                    anchor
                };
                let sel_len = sel_end - start + 1;
                let (new_start, new_end) = backward_window(start, sel_len, count);
                self.bit_selection_anchor = Some(new_start);
                self.bit_selection_end = Some(new_end);
                self.bit_cursor = new_start;
                self.cursor = new_start / 8;
            },
        }
        self.ensure_cursor_visible();
    }

    /// Scrolls so that the focused range is visible; see [`scrolled_to_focus`].
    pub fn ensure_focused_range_visible(&mut self)
        requires
            model_wf(old(self)@),
            focus_scroll_ok(old(self)@),
        ensures
            final(self)@ == scrolled_to_focus(old(self)@),
            model_wf(final(self)@),
    {
        if let Some((start, end)) = self.focused_range() {
            let start_row = start / self.bytes_per_row;
            let end_row = end / self.bytes_per_row;
            if start_row < self.scroll_offset {
                self.scroll_offset = start_row;
            } else if end_row >= self.scroll_offset + self.visible_rows {
                let v1 = self.visible_rows - 1;
                self.scroll_offset = if end_row < v1 {
                    0
                } else {
                    end_row - v1
                };
            }
        }
    }
}


proof fn lemma_first_ranged_from(es: Seq<DecodedValue>, j: int)
    requires
        0 <= j,
    ensures
        match first_ranged_from(es, j) {
            Some(r) => j <= r < es.len() && es[r].range is Some && forall|i: int|
                j <= i < r ==> (#[trigger] es[i]).range is None,
            None => forall|i: int| j <= i < es.len() ==> (#[trigger] es[i]).range is None,
        },
    decreases es.len() - j,
{
    if j < es.len() && es[j].range is None {
        lemma_first_ranged_from(es, j + 1);
    }
}

proof fn lemma_last_ranged_below(es: Seq<DecodedValue>, j: int)
    requires
        j <= es.len(),
    ensures
        match last_ranged_below(es, j) {
            Some(r) => 0 <= r < j && es[r].range is Some && forall|i: int|
                r < i < j ==> (#[trigger] es[i]).range is None,
            None => forall|i: int| 0 <= i < j ==> (#[trigger] es[i]).range is None,
        },
    decreases j,
{
    if j > 0 && es[j - 1].range is None {
        lemma_last_ranged_below(es, j - 1);
    }
}

/// Moving the decode focus back undoes moving it forward: from a focused entry
/// that maps to a byte range, Tab then Shift-Tab returns the focus to it.
pub proof fn lemma_focus_prev_undoes_next(m: AppModel)
    requires
        m.decode_focus is Some,
        m.decode_focus->0 < m.decode_entries.len(),
        m.decode_entries[m.decode_focus->0 as int].range is Some,
        m.decode_entries.len() <= usize::MAX,
    ensures
        focus_prev(focus_next(m)) == m,
{
    let es = m.decode_entries;
    let k = m.decode_focus->0 as int;
    let n = es.len() as int;
    lemma_first_ranged_from(es, 0);
    lemma_first_ranged_from(es, k + 1);
    lemma_last_ranged_below(es, n);
    let first = first_ranged_from(es, 0)->0;
    let next = match first_ranged_from(es, k + 1) {
        Some(x) => x,
        None => first,
    };
    lemma_last_ranged_below(es, next);
    match first_ranged_from(es, k + 1) {
        Some(x) => {
            let r = last_ranged_below(es, next);
            assert(r == Some(k)) by {
                if r is Some {
                    assert(es[r->0].range is Some);
                }
            }
        },
        None => {
            let r = last_ranged_below(es, n);
            assert(r == Some(k)) by {
                if r is Some {
                    assert(es[r->0].range is Some);
                }
            }
        },
    }
    let mn = focus_next(m);
    assert(0 <= next < n);
    assert(mn.decode_focus == Some(next as usize));
    assert(min_int((next as usize) as int, n) == next);
    assert(focus_prev(mn).decode_focus == Some(k as usize));
    assert(focus_prev(mn) == m);
}


/// A bit selection reads the same from either end: it starts at the lower of
/// anchor and end and covers every bit between them, both included, so that
/// swapping its ends changes nothing.
pub proof fn lemma_bit_selection_symmetric(m: AppModel, a: usize, e: usize)
    requires
        m.bit_selection_anchor == Some(a),
        m.bit_selection_end == Some(e),
    ensures
        bit_sel(m).0 == (if a <= e { a as int } else { e as int }),
        bit_sel(m).1 == (if a <= e { e - a } else { a - e }) + 1,
        bit_sel(m) == bit_sel((AppModel { bit_selection_anchor: Some(e), bit_selection_end: Some(a), ..m })),
        bit_sel(m).0 <= a as int && bit_sel(m).0 <= e as int,
        bit_sel(m).0 + bit_sel(m).1 - 1 == (if a <= e { e as int } else { a as int }),
{
}

} // verus!
