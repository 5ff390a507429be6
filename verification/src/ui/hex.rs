//! Rows of the hex view: an offset column, the bytes in hex in groups of
//! eight, and the bytes as ASCII, each byte coloured by what it is and where
//! it lies (cursor, decoded field, selection).

use vstd::prelude::*;

use super::style::{fg, fg_bold, fg_bold_spec, fg_spec, on, on_bold, on_bold_spec, on_spec, Cell, Color, Style};
use crate::app::{model_wf, App};
use crate::decode::types::{palette, range_color};
use crate::decode::json::chars_of;
use crate::text::{digit, digit_char, hex_digits, hex_padded, padded_left};

verus! {

/// An ASCII whitespace byte, as `u8::is_ascii_whitespace` counts them.
pub open spec fn is_ascii_ws(b: u8) -> bool {
    b == 0x20 || b == 0x09 || b == 0x0a || b == 0x0c || b == 0x0d
}

/// A visible ASCII character (`!` to `~`), as `u8::is_ascii_graphic` counts them.
pub open spec fn is_ascii_graphic(b: u8) -> bool {
    0x21 <= b <= 0x7e
}

/// The colour of a byte by what it is: NUL dark grey, whitespace green,
/// visible ASCII cyan, 0xFF red, anything else amber.
pub open spec fn byte_color_spec(b: u8) -> Color {
    if b == 0 {
        Color::DarkGray
    } else if is_ascii_ws(b) {
        Color::Rgb(100, 180, 100)
    } else if is_ascii_graphic(b) {
        Color::Cyan
    } else if b == 0xff {
        Color::Rgb(200, 80, 80)
    } else {
        Color::Rgb(180, 140, 60)
    }
}

/// See [`byte_color_spec`].
pub fn byte_color(b: u8) -> (c: Color)
    ensures
        c == byte_color_spec(b),
{
    if b == 0 {
        Color::DarkGray
    } else if b == 0x20 || b == 0x09 || b == 0x0a || b == 0x0c || b == 0x0d {
        Color::Rgb(100, 180, 100)
    } else if 0x21 <= b && b <= 0x7e {
        Color::Cyan
    } else if b == 0xff {
        Color::Rgb(200, 80, 80)
    } else {
        Color::Rgb(180, 140, 60)
    }
}

/// The colour number of the first highlight `(start, end, colour)` whose
/// inclusive range holds `off`.
pub open spec fn first_highlight(hs: Seq<(usize, usize, usize)>, off: int) -> Option<usize>
    decreases hs.len(),
{
    if hs.len() == 0 {
        None
    } else if hs[0].0 <= off <= hs[0].1 {
        Some(hs[0].2)
    } else {
        first_highlight(hs.drop_first(), off)
    }
}

/// Every highlight names a palette colour.
pub open spec fn colors_ok(hs: Seq<(usize, usize, usize)>) -> bool {
    forall|k: int| 0 <= k < hs.len() ==> (#[trigger] hs[k]).2 < 10
}

/// Whether `off` lies in the inclusive range.
pub open spec fn within(r: Option<(usize, usize)>, off: int) -> bool {
    match r {
        Some((s, e)) => s <= off <= e,
        None => false,
    }
}

/// A byte of a decoded field: black on the field's colour, and bold,
/// underlined in white when the field has the focus.
pub open spec fn field_style(rgb: (u8, u8, u8), focused: bool) -> Style {
    let s = on_spec(Color::Black, Color::Rgb(rgb.0, rgb.1, rgb.2));
    if focused {
        Style { bold: true, underlined: true, underline_color: Some(Color::White), ..s }
    } else {
        s
    }
}

/// The style of a byte in the hex column, by priority: the cursor (black on
/// white), then a decoded field's colour, then the selection (black on
/// blue), then the byte's own colour.
pub open spec fn hex_style_spec(
    off: int,
    b: u8,
    cursor: int,
    sel: (int, int),
    hs: Seq<(usize, usize, usize)>,
    focus: Option<(usize, usize)>,
) -> Style {
    if off == cursor {
        on_bold_spec(Color::Black, Color::White)
    } else if let Some(ci) = first_highlight(hs, off) {
        field_style(palette(ci as int), within(focus, off))
    } else if sel.0 <= off <= sel.1 {
        on_spec(Color::Black, Color::Rgb(80, 120, 200))
    } else {
        fg_spec(byte_color_spec(b))
    }
}

/// The style of a byte in the ASCII column, by the same priority: the cursor
/// (black on yellow), a decoded field's colour, the selection (black on
/// green), then green for visible characters and dark grey for the rest.
pub open spec fn ascii_style_spec(
    off: int,
    b: u8,
    cursor: int,
    sel: (int, int),
    hs: Seq<(usize, usize, usize)>,
    focus: Option<(usize, usize)>,
) -> Style {
    if off == cursor {
        on_bold_spec(Color::Black, Color::Yellow)
    } else if let Some(ci) = first_highlight(hs, off) {
        field_style(palette(ci as int), within(focus, off))
    } else if sel.0 <= off <= sel.1 {
        on_spec(Color::Black, Color::Rgb(80, 140, 100))
    } else if is_ascii_graphic(b) {
        fg_spec(Color::Green)
    } else {
        fg_spec(Color::DarkGray)
    }
}

/// How a byte shows in the ASCII column: itself when visible or a space, else a middle dot.
pub open spec fn ascii_char(b: u8) -> char {
    if is_ascii_graphic(b) || b == 0x20 {
        b as char
    } else {
        '\u{b7}'
    }
}

/// The palette colour of the first highlight holding `off`.
fn find_range_color(off: usize, hs: &Vec<(usize, usize, usize)>) -> (r: Option<(u8, u8, u8)>)
    requires
        colors_ok(hs@),
    ensures
        r == match first_highlight(hs@, off as int) {
            Some(ci) => Some(palette(ci as int)),
            None => None::<(u8, u8, u8)>,
        },
{
    let mut k: usize = 0;
    assert(hs@.skip(0) =~= hs@);
    while k < hs.len()
        invariant
            k <= hs@.len(),
            colors_ok(hs@),
            first_highlight(hs@, off as int) == first_highlight(hs@.skip(k as int), off as int),
        decreases hs.len() - k,
    {
        let (s, e, ci) = hs[k];
        assert(hs@.skip(k as int)[0] == hs@[k as int]);
        assert(hs@.skip(k as int).drop_first() =~= hs@.skip(k + 1));
        if s <= off && off <= e {
            return Some(range_color(ci));
        }
        k = k + 1;
    }
    assert(hs@.skip(k as int) =~= Seq::<(usize, usize, usize)>::empty());
    None
}

/// A byte of a decoded field; see [`field_style`].
fn field_style_of(rgb: (u8, u8, u8), focused: bool) -> (s: Style)
    ensures
        s == field_style(rgb, focused),
{
    let s = on(Color::Black, Color::Rgb(rgb.0, rgb.1, rgb.2));
    if focused {
        Style { bold: true, underlined: true, underline_color: Some(Color::White), ..s }
    } else {
        s
    }
}

/// Whether `off` lies in the inclusive range.
fn within_range(r: Option<(usize, usize)>, off: usize) -> (b: bool)
    ensures
        b == within(r, off as int),
{
    match r {
        Some((s, e)) => s <= off && off <= e,
        None => false,
    }
}

/// The style of a byte in the hex column; see [`hex_style_spec`].
pub fn hex_style(
    off: usize,
    b: u8,
    cursor: usize,
    sel: (usize, usize),
    hs: &Vec<(usize, usize, usize)>,
    focus: Option<(usize, usize)>,
) -> (s: Style)
    requires
        colors_ok(hs@),
    ensures
        s == hex_style_spec(off as int, b, cursor as int, (sel.0 as int, sel.1 as int), hs@, focus),
{
    if off == cursor {
        on_bold(Color::Black, Color::White)
    } else if let Some(rgb) = find_range_color(off, hs) {
        field_style_of(rgb, within_range(focus, off))
    } else if sel.0 <= off && off <= sel.1 {
        on(Color::Black, Color::Rgb(80, 120, 200))
    } else {
        fg(byte_color(b))
    }
}

/// The style of a byte in the ASCII column; see [`ascii_style_spec`].
pub fn ascii_style(
    off: usize,
    b: u8,
    cursor: usize,
    sel: (usize, usize),
    hs: &Vec<(usize, usize, usize)>,
    focus: Option<(usize, usize)>,
) -> (s: Style)
    requires
        colors_ok(hs@),
    ensures
        s == ascii_style_spec(off as int, b, cursor as int, (sel.0 as int, sel.1 as int), hs@, focus),
{
    if off == cursor {
        on_bold(Color::Black, Color::Yellow)
    } else if let Some(rgb) = find_range_color(off, hs) {
        field_style_of(rgb, within_range(focus, off))
    } else if sel.0 <= off && off <= sel.1 {
        on(Color::Black, Color::Rgb(80, 140, 100))
    } else if 0x21 <= b && b <= 0x7e {
        fg(Color::Green)
    } else {
        fg(Color::DarkGray)
    }
}

/// How a byte shows in the ASCII column; see [`ascii_char`].
fn ascii_char_of(b: u8) -> (c: char)
    ensures
        c == ascii_char(b),
{
    if (0x21 <= b && b <= 0x7e) || b == 0x20 {
        b as char
    } else {
        '\u{b7}'
    }
}

/// One step of laying out a row: writing a cell at the next column, or
/// turning the last written cell into the opening bracket of a focused field.
pub enum RowOp {
    Put((char, Option<Style>)),
    OpenBracket,
}

/// A cell as a character and an optional style.
pub open spec fn cell_view(c: Cell) -> (char, Option<Style>) {
    (c.ch, c.style)
}

/// Cells as characters and optional styles.
pub open spec fn cells_view(v: Seq<Cell>) -> Seq<(char, Option<Style>)> {
    v.map_values(|c: Cell| cell_view(c))
}

/// The bracket that marks a focused field: bold white.
pub open spec fn bracket_style() -> Style {
    fg_bold_spec(Color::White)
}

/// One step on the cells written so far, in a row `width` columns wide:
/// a cell past the width is dropped; the bracket replaces the last cell.
pub open spec fn applied(cells: Seq<(char, Option<Style>)>, op: RowOp, width: nat) -> Seq<
    (char, Option<Style>),
> {
    match op {
        RowOp::Put(c) => if cells.len() < width {
            cells.push(c)
        } else {
            cells
        },
        RowOp::OpenBracket => if cells.len() > 0 {
            cells.update(cells.len() - 1, ('[', Some(bracket_style())))
        } else {
            cells
        },
    }
}

/// The cells that a sequence of steps writes into a row `width` columns wide.
pub open spec fn laid_out(ops: Seq<RowOp>, width: nat) -> Seq<(char, Option<Style>)>
    decreases ops.len(),
{
    if ops.len() == 0 {
        Seq::empty()
    } else {
        applied(laid_out(ops.drop_last(), width), ops.last(), width)
    }
}

/// What a hex row depends on: the file, the cursor, the selected range, the
/// decoded fields' highlights, the focused field, where the row starts and
/// how many bytes it shows.
pub ghost struct RowContext {
    pub data: Seq<u8>,
    pub cursor: int,
    pub sel: (int, int),
    pub hs: Seq<(usize, usize, usize)>,
    pub focus: Option<(usize, usize)>,
    pub start: int,
    pub per_row: int,
}

/// Cells of `text`, all in one style.
pub open spec fn text_ops(text: Seq<char>, style: Option<Style>) -> Seq<RowOp>
    decreases text.len(),
{
    if text.len() == 0 {
        Seq::empty()
    } else {
        text_ops(text.drop_last(), style).push(RowOp::Put((text.last(), style)))
    }
}

/// The offset column: the row's offset as eight hex digits and `: `, dark grey.
pub open spec fn offset_ops(start: int) -> Seq<RowOp> {
    text_ops(padded_left(hex_digits(start as nat), 8, '0') + seq![':', ' '], Some(fg_spec(Color::DarkGray)))
}

/// The end of the row's bytes within the file.
pub open spec fn row_end(x: RowContext) -> int {
    if x.start + x.per_row < x.data.len() {
        x.start + x.per_row
    } else {
        x.data.len() as int
    }
}

/// A blank cell that keeps the style under it.
pub open spec fn blank() -> RowOp {
    RowOp::Put((' ', None))
}

/// The hex column's steps for byte `i` of the row: the opening bracket where
/// the focused field starts, two hex digits (or blanks past the file's end),
/// a closing bracket where the focused field ends or a blank, and an extra
/// blank after every eighth byte but the last.
pub open spec fn byte_ops(x: RowContext, i: int) -> Seq<RowOp> {
    let off = x.start + i;
    let open = match x.focus {
        Some((s, _)) => if off == s {
            seq![RowOp::OpenBracket]
        } else {
            Seq::empty()
        },
        None => Seq::empty(),
    };
    let body = if off < row_end(x) {
        let b = x.data[off];
        let st = Some(hex_style_spec(off, b, x.cursor, x.sel, x.hs, x.focus));
        seq![
            RowOp::Put((digit_char((b / 16) as int), st)),
            RowOp::Put((digit_char((b % 16) as int), st)),
        ]
    } else {
        seq![blank(), blank()]
    };
    let close = match x.focus {
        Some((s, e)) => if off == e && s <= off {
            seq![RowOp::Put((']', Some(bracket_style())))]
        } else {
            seq![blank()]
        },
        None => seq![blank()],
    };
    let group = if i > 0 && i < x.per_row - 1 && (i + 1) % 8 == 0 {
        seq![blank()]
    } else {
        Seq::empty()
    };
    open + body + close + group
}

/// The hex column's steps for the first `n` bytes of the row.
pub open spec fn bytes_ops(x: RowContext, n: int) -> Seq<RowOp>
    decreases n,
{
    if n <= 0 {
        Seq::empty()
    } else {
        bytes_ops(x, n - 1) + byte_ops(x, n - 1)
    }
}

/// The ASCII column's step for byte `i` of the row.
pub open spec fn ascii_op(x: RowContext, i: int) -> RowOp {
    let off = x.start + i;
    if off < row_end(x) {
        let b = x.data[off];
        RowOp::Put((ascii_char(b), Some(ascii_style_spec(off, b, x.cursor, x.sel, x.hs, x.focus))))
    } else {
        blank()
    }
}

/// The ASCII column's steps for the first `n` bytes of the row.
pub open spec fn ascii_ops(x: RowContext, n: int) -> Seq<RowOp>
    decreases n,
{
    if n <= 0 {
        Seq::empty()
    } else {
        ascii_ops(x, n - 1).push(ascii_op(x, n - 1))
    }
}

/// The dark grey bar that frames the ASCII column.
pub open spec fn separator() -> RowOp {
    RowOp::Put(('\u{2502}', Some(fg_spec(Color::DarkGray))))
}

/// All steps of a row: offset column, hex column, bar, ASCII column, bar.
pub open spec fn row_ops(x: RowContext) -> Seq<RowOp> {
    offset_ops(x.start) + bytes_ops(x, x.per_row) + seq![separator()] + ascii_ops(x, x.per_row)
        + seq![separator()]
}

/// The row of the hex view `row` rows below the top: nothing past the end of
/// the file, else the cells of [`row_ops`] laid out in `width` columns.
pub open spec fn hex_row_spec(
    m: crate::app::AppModel,
    row: int,
    sel: (int, int),
    hs: Seq<(usize, usize, usize)>,
    focus: Option<(usize, usize)>,
    width: nat,
) -> Option<Seq<(char, Option<Style>)>> {
    let start = (m.scroll_offset + row) * m.bytes_per_row;
    if start >= m.data.len() {
        None
    } else {
        Some(
            laid_out(
                row_ops(
                    RowContext {
                        data: m.data,
                        cursor: m.cursor as int,
                        sel,
                        hs,
                        focus,
                        start,
                        per_row: m.bytes_per_row as int,
                    },
                ),
                width,
            ),
        )
    }
}

/// Writes one step.
fn put(cells: &mut Vec<Cell>, c: Cell, width: usize)
    ensures
        cells_view(final(cells)@) == applied(cells_view(old(cells)@), RowOp::Put(cell_view(c)), width as nat),
{
    if cells.len() < width {
        cells.push(c);
        assert(cells_view(cells@) =~= cells_view(old(cells)@).push(cell_view(c)));
    }
}

/// Turns the last written cell into the opening bracket.
fn open_bracket(cells: &mut Vec<Cell>, width: usize)
    ensures
        cells_view(final(cells)@) == applied(cells_view(old(cells)@), RowOp::OpenBracket, width as nat),
{
    let n = cells.len();
    if n > 0 {
        let c = Cell { ch: '[', style: Some(fg_bold(Color::White)) };
        cells.set(n - 1, c);
        assert(cells_view(cells@) =~= cells_view(old(cells)@).update(n - 1, cell_view(c)));
    }
}

/// Appending one step to the steps extends the layout by that step.
proof fn lemma_laid_out_push(ops: Seq<RowOp>, op: RowOp, width: nat)
    ensures
        laid_out(ops.push(op), width) == applied(laid_out(ops, width), op, width),
{
    assert(ops.push(op).drop_last() =~= ops);
}

/// Cells of a prefix of `t`: none for the empty prefix, one more per character.
proof fn lemma_puts_take(t: Seq<char>, k: int, st: Option<Style>)
    requires
        0 <= k <= t.len(),
    ensures
        k == 0 ==> text_ops(t.take(k), st) =~= Seq::<RowOp>::empty(),
        k > 0 ==> text_ops(t.take(k), st) =~= text_ops(t.take(k - 1), st).push(RowOp::Put((t[k - 1], st))),
{
    if k > 0 {
        let p = t.take(k);
        assert(p.drop_last() =~= t.take(k - 1));
        assert(p.last() == t[k - 1]);
    }
}

/// The offset column of a row starting at `start`.
fn offset_cells(start: usize, width: usize) -> (cells: Vec<Cell>)
    ensures
        cells_view(cells@) == laid_out(offset_ops(start as int), width as nat),
{
    let mut cells: Vec<Cell> = Vec::new();
    let ghost mut ops: Seq<RowOp> = Seq::empty();
    let label = Some(fg(Color::DarkGray));
    let mut text = chars_of(hex_padded(start as u64, 8).as_str());
    text.push(':');
    text.push(' ');
    let ghost t = text@;
    assert(t == padded_left(hex_digits(start as nat), 8, '0') + seq![':', ' ']);
    let mut k: usize = 0;
    proof {
        lemma_puts_take(t, 0, label);
    }
    while k < text.len()
        invariant
            k <= text@.len(),
            text@ == t,
            cells_view(cells@) == laid_out(ops, width as nat),
            ops == text_ops(t.take(k as int), label),
        decreases text.len() - k,
    {
        let c = Cell { ch: text[k], style: label };
        proof {
            lemma_laid_out_push(ops, RowOp::Put(cell_view(c)), width as nat);
            lemma_puts_take(t, k + 1, label);
            ops = ops.push(RowOp::Put(cell_view(c)));
        }
        put(&mut cells, c, width);
        k = k + 1;
    }
    assert(t.take(k as int) =~= t);
    cells
}

/// Lays out the hex column's steps for byte `i` of the row after `ops0`.
fn push_hex_byte(
    cells: &mut Vec<Cell>,
    data: &[u8],
    start: usize,
    per_row: usize,
    i: usize,
    end: usize,
    cursor: usize,
    sel: (usize, usize),
    hs: &Vec<(usize, usize, usize)>,
    focus: Option<(usize, usize)>,
    width: usize,
    Ghost(x): Ghost<RowContext>,
    Ghost(ops0): Ghost<Seq<RowOp>>,
)
    requires
        cells_view(old(cells)@) == laid_out(ops0, width as nat),
        x.data == data@,
        x.cursor == cursor,
        x.sel == (sel.0 as int, sel.1 as int),
        x.hs == hs@,
        x.focus == focus,
        x.start == start,
        x.per_row == per_row,
        start + i <= usize::MAX,
        i < per_row,
        end == row_end(x),
        colors_ok(hs@),
    ensures
        cells_view(final(cells)@) == laid_out(ops0 + byte_ops(x, i as int), width as nat),
{
    let off = start + i;
    let ghost mut ops = ops0;
    let is_start = match focus {
        Some((s, _)) => off == s,
        None => false,
    };
    if is_start {
        proof {
            lemma_laid_out_push(ops, RowOp::OpenBracket, width as nat);
            ops = ops.push(RowOp::OpenBracket);
        }
        open_bracket(cells, width);
    }
    if off < end {
        let b = data[off];
        let st = Some(hex_style(off, b, cursor, sel, hs, focus));
        let hi = Cell { ch: digit(b / 16), style: st };
        let lo = Cell { ch: digit(b % 16), style: st };
        proof {
            lemma_laid_out_push(ops, RowOp::Put(cell_view(hi)), width as nat);
            ops = ops.push(RowOp::Put(cell_view(hi)));
            lemma_laid_out_push(ops, RowOp::Put(cell_view(lo)), width as nat);
            ops = ops.push(RowOp::Put(cell_view(lo)));
        }
        put(cells, hi, width);
        put(cells, lo, width);
    } else {
        let sp = Cell { ch: ' ', style: None };
        proof {
            lemma_laid_out_push(ops, RowOp::Put(cell_view(sp)), width as nat);
            ops = ops.push(RowOp::Put(cell_view(sp)));
            lemma_laid_out_push(ops, RowOp::Put(cell_view(sp)), width as nat);
            ops = ops.push(RowOp::Put(cell_view(sp)));
        }
        put(cells, sp, width);
        put(cells, sp, width);
    }
    let closes = match focus {
        Some((s, e)) => off == e && s <= off,
        None => false,
    };
    let after = if closes {
        Cell { ch: ']', style: Some(fg_bold(Color::White)) }
    } else {
        Cell { ch: ' ', style: None }
    };
    proof {
        lemma_laid_out_push(ops, RowOp::Put(cell_view(after)), width as nat);
        ops = ops.push(RowOp::Put(cell_view(after)));
    }
    put(cells, after, width);
    if i > 0 && i < per_row - 1 && (i + 1) % 8 == 0 {
        let sp = Cell { ch: ' ', style: None };
        proof {
            lemma_laid_out_push(ops, RowOp::Put(cell_view(sp)), width as nat);
            ops = ops.push(RowOp::Put(cell_view(sp)));
        }
        put(cells, sp, width);
    }
    proof {
        assert(ops =~= ops0 + byte_ops(x, i as int));
    }
}

impl App {
    /// A row of the hex view; see [`hex_row_spec`]. `sel`, `hs` and `focus`
    /// are the selection range, the field highlights and the focused field.
    pub fn hex_row(
        &self,
        row: usize,
        sel: (usize, usize),
        hs: &Vec<(usize, usize, usize)>,
        focus: Option<(usize, usize)>,
        width: usize,
    ) -> (r: Option<Vec<Cell>>)
        requires
            model_wf(self@),
            (self.scroll_offset + row) * self.bytes_per_row <= usize::MAX,
            colors_ok(hs@),
        ensures
            match r {
                Some(cells) => hex_row_spec(self@, row as int, (sel.0 as int, sel.1 as int), hs@, focus, width as nat)
                    == Some(cells_view(cells@)),
                None => hex_row_spec(self@, row as int, (sel.0 as int, sel.1 as int), hs@, focus, width as nat) is None,
            },
    {
        let data = self.buffer.data();
        let per_row = self.bytes_per_row;
        assert(self.scroll_offset + row <= usize::MAX) by (nonlinear_arith)
            requires
                (self.scroll_offset + row) * per_row <= usize::MAX,
                per_row >= 1,
        ;
        let start = (self.scroll_offset + row) * per_row;
        if start >= data.len() {
            return None;
        }
        let ghost x = RowContext {
            data: data@,
            cursor: self.cursor as int,
            sel: (sel.0 as int, sel.1 as int),
            hs: hs@,
            focus,
            start: start as int,
            per_row: per_row as int,
        };
        let end = if start + per_row < data.len() {
            start + per_row
        } else {
            data.len()
        };
        let mut cells = offset_cells(start, width);
        let ghost mut ops: Seq<RowOp> = offset_ops(start as int);
        let mut i: usize = 0;
        while i < per_row
            invariant
                i <= per_row,
                per_row == x.per_row,
                0 < per_row <= 1024,
                x.start == start,
                start < data@.len(),
                x.data == data@,
                x.cursor == self.cursor,
                x.sel == (sel.0 as int, sel.1 as int),
                x.hs == hs@,
                x.focus == focus,
                end == row_end(x),
                data@.len() * 8 + 8 <= isize::MAX,
                colors_ok(hs@),
                cells_view(cells@) == laid_out(ops, width as nat),
                ops == offset_ops(start as int) + bytes_ops(x, i as int),
            decreases per_row - i,
        {
            push_hex_byte(
                &mut cells,
                data,
                start,
                per_row,
                i,
                end,
                self.cursor,
                sel,
                hs,
                focus,
                width,
                Ghost(x),
                Ghost(ops),
            );
            proof {
                assert(bytes_ops(x, i + 1) == bytes_ops(x, i as int) + byte_ops(x, i as int));
                assert(ops + byte_ops(x, i as int) =~= offset_ops(start as int) + bytes_ops(x, i + 1));
                ops = ops + byte_ops(x, i as int);
            }
            i = i + 1;
        }
        let bar = Cell { ch: '\u{2502}', style: Some(fg(Color::DarkGray)) };
        proof {
            lemma_laid_out_push(ops, RowOp::Put(cell_view(bar)), width as nat);
            ops = ops.push(RowOp::Put(cell_view(bar)));
        }
        put(&mut cells, bar, width);
        let ghost head = ops;
        let mut j: usize = 0;
        while j < per_row
            invariant
                j <= per_row,
                per_row == x.per_row,
                0 < per_row <= 1024,
                x.start == start,
                start < data@.len(),
                x.data == data@,
                x.cursor == self.cursor,
                x.sel == (sel.0 as int, sel.1 as int),
                x.hs == hs@,
                x.focus == focus,
                end == row_end(x),
                data@.len() * 8 + 8 <= isize::MAX,
                colors_ok(hs@),
                cells_view(cells@) == laid_out(ops, width as nat),
                ops == head + ascii_ops(x, j as int),
            decreases per_row - j,
        {
            let off = start + j;
            let c = if off < end {
                let b = data[off];
                Cell { ch: ascii_char_of(b), style: Some(ascii_style(off, b, self.cursor, sel, hs, focus)) }
            } else {
                Cell { ch: ' ', style: None }
            };
            proof {
                assert(RowOp::Put(cell_view(c)) == ascii_op(x, j as int));
                lemma_laid_out_push(ops, RowOp::Put(cell_view(c)), width as nat);
                assert(ops.push(RowOp::Put(cell_view(c))) =~= head + ascii_ops(x, j + 1));
                ops = ops.push(RowOp::Put(cell_view(c)));
            }
            put(&mut cells, c, width);
            j = j + 1;
        }
        proof {
            lemma_laid_out_push(ops, RowOp::Put(cell_view(bar)), width as nat);
            ops = ops.push(RowOp::Put(cell_view(bar)));
            assert(ops =~= row_ops(x));
        }
        put(&mut cells, bar, width);
        Some(cells)
    }
}

} // verus!
