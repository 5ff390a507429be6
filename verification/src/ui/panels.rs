//! The decode panel, the stats panel and the status bar.

use vstd::prelude::*;

use super::style::{
    fg, fg_bold, fg_bold_spec, fg_spec, line_view, lines_view, on_bold, on_bold_spec, plain,
    plain_spec, span, span_str, span_view, Color, Span, Style,
};
use crate::app::selection::{abs_range, bit_sel, highlights_from, sel_range, selected};
use crate::app::{find_builtin, model_wf, App, AppModel, InputMode, SelectionMode};
use crate::decode::bits::{decode_bits, decode_bits_spec, plain_entries};
use crate::decode::builtin::{decode_selection, decode_selection_spec, FloatTexts};
use crate::decode::stats::{byte_stats, count_of, distinct_below};
use crate::decode::types::{endian_label, palette, range_color, DecodedValue};
use crate::text::{
    dec_digits, hex_digits, hex_padded, padded_left, padded_right, push_dec, push_padded_left,
    push_padded_right, push_str, push_truncated,
};
use vstd::utf8::encode_utf8;

verus! {

/// The fields one decoder source produced, with how to title and colour them.
pub struct PanelSection {
    /// The heading (empty for the built-in decoder, which has none).
    pub title: String,
    pub title_color: Color,
    pub label_color: Color,
    pub entries: Vec<DecodedValue>,
}

/// The fields of all sections, in order.
pub open spec fn section_entries(secs: Seq<PanelSection>) -> Seq<DecodedValue>
    decreases secs.len(),
{
    if secs.len() == 0 {
        Seq::empty()
    } else {
        section_entries(secs.drop_last()) + secs.last().entries@
    }
}

/// How many of the first `k` fields map to a byte range.
pub open spec fn ranged_before(es: Seq<DecodedValue>, k: int) -> nat
    decreases k,
{
    if k <= 0 {
        0
    } else {
        ranged_before(es, k - 1) + if es[k - 1].range is Some {
            1nat
        } else {
            0nat
        }
    }
}

/// Whether `out` is `es` with the fields that map to a byte range coloured in
/// turn through the palette: the `n`-th such field gets colour `n % 10`.
pub open spec fn colored(out: Seq<DecodedValue>, es: Seq<DecodedValue>) -> bool {
    &&& out.len() == es.len()
    &&& forall|k: int|
        0 <= k < es.len() ==> {
            &&& (#[trigger] out[k]).label@ == es[k].label@
            &&& out[k].value@ == es[k].value@
            &&& out[k].range == es[k].range
            &&& out[k].color_index == if es[k].range is Some {
                Some((ranged_before(es, k) % 10) as usize)
            } else {
                es[k].color_index
            }
        }
}

/// A row of the decode panel: a blank line, a section's heading, or field
/// `k` (counted over all sections) of section `i`.
pub ghost enum PanelRow {
    Blank,
    Title(int),
    Entry(int, int),
}

/// The panel's rows: the fields of each section in order, the sections after
/// the first set off by a blank line and their heading, if they have one.
pub open spec fn panel_rows(secs: Seq<PanelSection>) -> Seq<PanelRow>
    decreases secs.len(),
{
    if secs.len() == 0 {
        Seq::empty()
    } else {
        let i = secs.len() - 1;
        let prev = secs.drop_last();
        let head = if i > 0 {
            if secs[i].title@.len() > 0 {
                seq![PanelRow::Blank, PanelRow::Title(i)]
            } else {
                seq![PanelRow::Blank]
            }
        } else {
            Seq::empty()
        };
        panel_rows(prev) + head + Seq::new(
            secs[i].entries@.len(),
            |j: int| PanelRow::Entry(i, section_entries(prev).len() + j),
        )
    }
}

/// The spans of a panel row. A field shows a focus marker, a swatch of its
/// colour, its label right-aligned in ten columns and its value, the label
/// and value inverted when it has the focus; a field with neither label nor
/// range is a blank line.
pub open spec fn panel_line(
    row: PanelRow,
    secs: Seq<PanelSection>,
    fields: Seq<DecodedValue>,
    focus: Option<usize>,
) -> Seq<(Seq<char>, Style)> {
    match row {
        PanelRow::Blank => Seq::empty(),
        PanelRow::Title(i) => seq![(secs[i].title@, fg_bold_spec(secs[i].title_color))],
        PanelRow::Entry(i, k) => {
            let dv = fields[k];
            let focused = focus == Some(k as usize);
            if dv.label@.len() == 0 && dv.range is None {
                Seq::empty()
            } else {
                let lc = secs[i].label_color;
                seq![
                    (if focused {
                        ">"@
                    } else {
                        " "@
                    }, fg_bold_spec(Color::White)),
                    match dv.color_index {
                        Some(ci) => {
                            let (r, g, b) = palette(ci as int);
                            ("\u{2588} "@, fg_spec(Color::Rgb(r, g, b)))
                        },
                        None => ("  "@, plain_spec()),
                    },
                    (padded_left(dv.label@, 10, ' ') + ": "@, if focused {
                        on_bold_spec(Color::Black, lc)
                    } else {
                        fg_spec(lc)
                    }),
                    (dv.value@, if focused {
                        on_bold_spec(Color::Black, Color::White)
                    } else {
                        fg_spec(Color::White)
                    }),
                ]
            }
        },
    }
}

/// The panel's lines; see [`panel_rows`] and [`panel_line`].
pub open spec fn panel_lines(
    secs: Seq<PanelSection>,
    fields: Seq<DecodedValue>,
    focus: Option<usize>,
) -> Seq<Seq<(Seq<char>, Style)>> {
    panel_rows(secs).map_values(|r: PanelRow| panel_line(r, secs, fields, focus))
}

/// Whether `line` is the row of field `f`, or there is none and `line` is `None`.
pub open spec fn focus_row(rows: Seq<PanelRow>, focus: Option<usize>, line: Option<usize>) -> bool {
    match (line, focus) {
        (Some(l), Some(f)) => l < rows.len() && shows_field(rows[l as int], f as int),
        (Some(_), None) => false,
        (None, Some(f)) => forall|l: int| 0 <= l < rows.len() ==> !shows_field(#[trigger] rows[l], f as int),
        (None, None) => true,
    }
}

/// Whether the row shows field `f`.
pub open spec fn shows_field(row: PanelRow, f: int) -> bool {
    match row {
        PanelRow::Entry(_, k) => k == f,
        _ => false,
    }
}

/// The scroll offset that keeps a focused line in a view `height` lines
/// high, moving as little as possible, then kept within the `count` lines.
pub open spec fn scrolled_to_line(offset: int, focused: Option<usize>, height: int, count: int) -> int {
    let o = match focused {
        Some(fl) => if fl < offset {
            fl as int
        } else if fl >= offset + height {
            if fl > height - 1 {
                fl - (height - 1)
            } else {
                0
            }
        } else {
            offset
        },
        None => offset,
    };
    let max = if count > height {
        count - height
    } else {
        0
    };
    if o > max {
        max
    } else {
        o
    }
}

/// The rows inside a bordered box `height` rows high.
pub open spec fn sat_sub2(height: u16) -> int {
    if height > 2 {
        height - 2
    } else {
        0
    }
}

/// Whether scrolling to the focused line stays clear of `height - 1` going
/// below zero, which only happens in a view with no lines.
pub open spec fn scroll_ok(offset: int, focused: Option<usize>, height: int) -> bool {
    focused matches Some(fl) && fl >= offset ==> height > 0
}

/// The scroll offset that keeps a focused line visible; see [`scrolled_to_line`].
pub fn scroll_to_line(offset: usize, focused: Option<usize>, height: usize, count: usize) -> (r: usize)
    requires
        scroll_ok(offset as int, focused, height as int),
    ensures
        r == scrolled_to_line(offset as int, focused, height as int, count as int),
{
    let mut o = offset;
    if let Some(fl) = focused {
        if fl < o {
            o = fl;
        } else if fl - o >= height {
            o = fl.saturating_sub(height - 1);
        }
    }
    let max = count.saturating_sub(height);
    if o > max {
        max
    } else {
        o
    }
}

/// The field's copy for the panel, with the given colour.
fn colored_copy(e: &DecodedValue, color: Option<usize>) -> (r: DecodedValue)
    ensures
        r.label@ == e.label@,
        r.value@ == e.value@,
        r.range == e.range,
        r.color_index == color,
{
    DecodedValue { label: e.label.clone(), value: e.value.clone(), range: e.range, color_index: color }
}

/// The spans of a field's line; see [`panel_line`].
fn field_line(dv: &DecodedValue, focused: bool, label_color: Color) -> (r: Vec<Span>)
    requires
        dv.color_index matches Some(ci) ==> ci < 10,
    ensures
        line_view(r@) == if dv.label@.len() == 0 && dv.range is None {
            Seq::<(Seq<char>, Style)>::empty()
        } else {
            seq![
                (if focused {
                    ">"@
                } else {
                    " "@
                }, fg_bold_spec(Color::White)),
                match dv.color_index {
                    Some(ci) => {
                        let (r, g, b) = palette(ci as int);
                        ("\u{2588} "@, fg_spec(Color::Rgb(r, g, b)))
                    },
                    None => ("  "@, plain_spec()),
                },
                (padded_left(dv.label@, 10, ' ') + ": "@, if focused {
                    on_bold_spec(Color::Black, label_color)
                } else {
                    fg_spec(label_color)
                }),
                (dv.value@, if focused {
                    on_bold_spec(Color::Black, Color::White)
                } else {
                    fg_spec(Color::White)
                }),
            ]
        },
{
    let mut spans: Vec<Span> = Vec::new();
    if dv.label.as_str().is_empty() && dv.range.is_none() {
        assert(line_view(spans@) =~= Seq::<(Seq<char>, Style)>::empty());
        return spans;
    }
    let marker = if focused {
        span_str(">", fg_bold(Color::White))
    } else {
        span_str(" ", fg_bold(Color::White))
    };
    let swatch = match dv.color_index {
        Some(ci) => {
            let (r, g, b) = range_color(ci);
            span_str("\u{2588} ", fg(Color::Rgb(r, g, b)))
        },
        None => span_str("  ", plain()),
    };
    let mut label = String::new();
    push_padded_left(&mut label, dv.label.as_str(), 10);
    push_str(&mut label, ": ");
    let label_style = if focused {
        on_bold(Color::Black, label_color)
    } else {
        fg(label_color)
    };
    let value_style = if focused {
        on_bold(Color::Black, Color::White)
    } else {
        fg(Color::White)
    };
    let ghost want = seq![span_view(marker), span_view(swatch)];
    spans.push(marker);
    spans.push(swatch);
    spans.push(span(label, label_style));
    spans.push(span(dv.value.clone(), value_style));
    assert(line_view(spans@) =~= seq![
        span_view(spans@[0]),
        span_view(spans@[1]),
        span_view(spans@[2]),
        span_view(spans@[3]),
    ]);
    spans
}

/// One more section's rows come after those of the sections before it.
proof fn lemma_panel_rows_push(secs: Seq<PanelSection>, n: int)
    requires
        0 < n <= secs.len(),
    ensures
        panel_rows(secs.take(n)) == panel_rows(secs.take(n - 1)) + (if n - 1 > 0 {
            if secs[n - 1].title@.len() > 0 {
                seq![PanelRow::Blank, PanelRow::Title(n - 1)]
            } else {
                seq![PanelRow::Blank]
            }
        } else {
            Seq::empty()
        }) + Seq::new(
            secs[n - 1].entries@.len(),
            |j: int| PanelRow::Entry(n - 1, section_entries(secs.take(n - 1)).len() + j),
        ),
        section_entries(secs.take(n)) == section_entries(secs.take(n - 1)) + secs[n - 1].entries@,
{
    assert(secs.take(n).drop_last() =~= secs.take(n - 1));
}

/// Counting ranged fields over a longer list does not change the count of a prefix.
proof fn lemma_ranged_before_push(es: Seq<DecodedValue>, e: DecodedValue, k: int)
    requires
        0 <= k <= es.len(),
    ensures
        ranged_before(es.push(e), k) == ranged_before(es, k),
    decreases k,
{
    if k > 0 {
        lemma_ranged_before_push(es, e, k - 1);
    }
}

/// The sections' fields, coloured; see [`colored`].
fn color_fields(sections: &Vec<PanelSection>) -> (r: Vec<DecodedValue>)
    ensures
        colored(r@, section_entries(sections@)),
{
    let ghost secs = sections@;
    let mut fields: Vec<DecodedValue> = Vec::new();
    let mut counter: usize = 0;
    let mut i: usize = 0;
    assert(secs.take(0) =~= Seq::<PanelSection>::empty());
    while i < sections.len()
        invariant
            i <= secs.len(),
            secs == sections@,
            colored(fields@, section_entries(secs.take(i as int))),
            counter == ranged_before(section_entries(secs.take(i as int)), fields@.len() as int),
            counter <= fields@.len(),
        decreases sections.len() - i,
    {
        let entries = &sections[i].entries;
        let ghost base = section_entries(secs.take(i as int));
        let mut j: usize = 0;
        assert(entries@.take(0) =~= Seq::<DecodedValue>::empty());
        assert(base + entries@.take(0) =~= base);
        while j < entries.len()
            invariant
                j <= entries@.len(),
                entries == &sections@[i as int].entries,
                colored(fields@, base + entries@.take(j as int)),
                counter == ranged_before(base + entries@.take(j as int), fields@.len() as int),
                counter <= fields@.len(),
            decreases entries.len() - j,
        {
            let ghost es = base + entries@.take(j as int);
            let e = &entries[j];
            let n = fields.len();
            let color = if e.range.is_some() {
                Some(counter % 10)
            } else {
                e.color_index
            };
            let ghost before = fields@;
            fields.push(colored_copy(e, color));
            proof {
                let es2 = base + entries@.take(j + 1);
                assert(es2 =~= es.push(*e));
                assert forall|k: int| 0 <= k < es.len() implies ranged_before(es2, k) == ranged_before(es, k) by {
                    lemma_ranged_before_push(es, *e, k);
                }
                lemma_ranged_before_push(es, *e, es.len() as int);
                assert forall|k: int| 0 <= k < es2.len() implies {
                    &&& (#[trigger] fields@[k]).label@ == es2[k].label@
                    &&& fields@[k].value@ == es2[k].value@
                    &&& fields@[k].range == es2[k].range
                    &&& fields@[k].color_index == if es2[k].range is Some {
                        Some((ranged_before(es2, k) % 10) as usize)
                    } else {
                        es2[k].color_index
                    }
                } by {
                    if k < es.len() {
                        assert(fields@[k] == before[k]);
                        assert(es2[k] == es[k]);
                    }
                }
            }
            let n2 = fields.len();
            if e.range.is_some() {
                counter = counter + 1;
            }
            j = j + 1;
        }
        proof {
            assert(entries@.take(j as int) =~= entries@);
            assert(secs.take(i + 1).drop_last() =~= secs.take(i as int));
        }
        i = i + 1;
    }
    assert(secs.take(i as int) =~= secs);
    fields
}

/// The panel's lines and focused line for coloured fields; see [`panel_lines`].
fn panel_text(sections: &Vec<PanelSection>, fields: &Vec<DecodedValue>, focus: Option<usize>) -> (r: (
    Vec<Vec<Span>>,
    Option<usize>,
))
    requires
        fields@.len() == section_entries(sections@).len(),
        forall|k: int| 0 <= k < fields@.len() ==> ((#[trigger] fields@[k]).color_index matches Some(ci) ==> ci < 10),
    ensures
        lines_view(r.0@) == panel_lines(sections@, fields@, focus),
        focus_row(panel_rows(sections@), focus, r.1),
{
    let ghost secs = sections@;
    let nf = fields.len();
    let ghost line_of = |row: PanelRow| panel_line(row, secs, fields@, focus);
    let mut lines: Vec<Vec<Span>> = Vec::new();
    let mut focused_line: Option<usize> = None;
    let mut k: usize = 0;
    let ghost mut rows: Seq<PanelRow> = Seq::empty();
    let mut i: usize = 0;
    assert(secs.take(0) =~= Seq::<PanelSection>::empty());
    while i < sections.len()
        invariant
            i <= secs.len(),
            secs == sections@,
            fields@.len() == section_entries(secs).len(),
            forall|q: int| 0 <= q < fields@.len() ==> ((#[trigger] fields@[q]).color_index matches Some(ci) ==> ci < 10),
            line_of == (|row: PanelRow| panel_line(row, secs, fields@, focus)),
            nf == fields@.len(),
            rows == panel_rows(secs.take(i as int)),
            k == section_entries(secs.take(i as int)).len(),
            lines_view(lines@) == rows.map_values(line_of),
            focus_row(rows, focus, focused_line),
        decreases sections.len() - i,
    {
        let sec = &sections[i];
        if i > 0 {
            let blank: Vec<Span> = Vec::new();
            let ghost before = lines@;
            lines.push(blank);
            proof {
                assert(line_of(PanelRow::Blank) =~= line_view(blank@));
                assert(lines_view(lines@) =~= lines_view(before).push(line_view(blank@)));
                assert(rows.push(PanelRow::Blank).map_values(line_of) =~= rows.map_values(line_of).push(
                    line_of(PanelRow::Blank),
                ));
                rows = rows.push(PanelRow::Blank);
            }
            if !sec.title.as_str().is_empty() {
                let mut t: Vec<Span> = Vec::new();
                t.push(span(sec.title.clone(), fg_bold(sec.title_color)));
                let ghost before2 = lines@;
                proof {
                    assert(line_view(t@) =~= seq![(sec.title@, fg_bold_spec(sec.title_color))]);
                }
                lines.push(t);
                proof {
                    let row = PanelRow::Title(i as int);
                    assert(line_of(row) == line_view(t@));
                    assert(lines_view(lines@) =~= lines_view(before2).push(line_view(t@)));
                    assert(rows.push(row).map_values(line_of) =~= rows.map_values(line_of).push(line_of(row)));
                    rows = rows.push(row);
                }
            }
        }
        let entries = &sec.entries;
        let ghost kbase = k as int;
        let ghost rows_base = rows;
        proof {
            lemma_section_entries_prefix(secs, i + 1);
            lemma_panel_rows_push(secs, i + 1);
        }
        let mut j: usize = 0;
        assert(rows =~= rows_base + Seq::new(0, |q: int| PanelRow::Entry(i as int, kbase + q)));
        while j < entries.len()
            invariant
                j <= entries@.len(),
                entries == &sections@[i as int].entries,
                secs == sections@,
                *sec == secs[i as int],
                i < secs.len(),
                line_of == (|row: PanelRow| panel_line(row, secs, fields@, focus)),
                fields@.len() == section_entries(secs).len(),
                forall|q: int| 0 <= q < fields@.len() ==> ((#[trigger] fields@[q]).color_index matches Some(ci) ==> ci < 10),
                kbase + entries@.len() <= fields@.len(),
                nf == fields@.len(),
                k == kbase + j,
                rows == rows_base + Seq::new(j as nat, |q: int| PanelRow::Entry(i as int, kbase + q)),
                lines_view(lines@) == rows.map_values(line_of),
                focus_row(rows, focus, focused_line),
            decreases entries.len() - j,
        {
            let is_focused = match focus {
                Some(f) => f == k,
                None => false,
            };
            let ghost row = PanelRow::Entry(i as int, k as int);
            if is_focused {
                focused_line = Some(lines.len());
            }
            let line = field_line(&fields[k], is_focused, sec.label_color);
            let ghost before = lines@;
            lines.push(line);
            proof {
                assert(is_focused == (focus == Some(k as usize)));
                assert(sec.label_color == secs[i as int].label_color);
                assert(row == PanelRow::Entry(i as int, k as int));
                assert(panel_line(row, secs, fields@, focus) == line_view(line@));
                assert(line_of(row) == panel_line(row, secs, fields@, focus));
                assert(lines_view(lines@) =~= lines_view(before).push(line_view(line@)));
                assert(rows.push(row).map_values(line_of) =~= rows.map_values(line_of).push(line_of(row)));
                assert(rows.push(row) =~= rows_base + Seq::new((j + 1) as nat, |q: int| PanelRow::Entry(i as int, kbase + q)));
                let old_rows = rows;
                rows = rows.push(row);
                assert forall|l: int| 0 <= l < old_rows.len() implies rows[l] == old_rows[l] by {}
            }
            k = k + 1;
            j = j + 1;
        }
        proof {
            assert(rows =~= panel_rows(secs.take(i + 1)));
        }
        i = i + 1;
    }
    assert(secs.take(i as int) =~= secs);
    (lines, focused_line)
}

/// The fields of the first `n` sections are the first fields of all.
proof fn lemma_section_entries_prefix(secs: Seq<PanelSection>, n: int)
    requires
        0 <= n <= secs.len(),
    ensures
        section_entries(secs.take(n)).len() <= section_entries(secs).len(),
    decreases secs.len(),
{
    if n < secs.len() {
        lemma_section_entries_prefix(secs.drop_last(), n);
        assert(secs.drop_last().take(n) =~= secs.take(n));
    } else {
        assert(secs.take(n) =~= secs);
    }
}

/// A section as the specification sees it: heading, colours and fields.
pub open spec fn section_view(s: PanelSection) -> (Seq<char>, Color, Color, Seq<DecodedValue>) {
    (s.title@, s.title_color, s.label_color, s.entries@)
}

/// The heading of the Lua section.
pub open spec fn lua_title() -> Seq<char> {
    "\u{2500}\u{2500} Lua Decoders \u{2500}\u{2500}"@
}

/// The heading of the WASM section.
pub open spec fn wasm_title() -> Seq<char> {
    "\u{2500}\u{2500} WASM Decoders \u{2500}\u{2500}"@
}

/// The colour of the WASM section.
pub open spec fn wasm_color() -> Color {
    Color::Rgb(100, 200, 255)
}

/// The decode panel's sections: the built-in fields, untitled and yellow,
/// when given; then the Lua fields (magenta) and the WASM fields (light
/// blue) under their headings, each when there are any.
pub open spec fn panel_sections_spec(
    builtin: Option<Seq<DecodedValue>>,
    lua: Seq<DecodedValue>,
    wasm: Seq<DecodedValue>,
) -> Seq<(Seq<char>, Color, Color, Seq<DecodedValue>)> {
    (match builtin {
        Some(b) => seq![(Seq::<char>::empty(), Color::Yellow, Color::Yellow, b)],
        None => Seq::empty(),
    }) + (if lua.len() > 0 {
        seq![(lua_title(), Color::Magenta, Color::Magenta, lua)]
    } else {
        Seq::empty()
    }) + (if wasm.len() > 0 {
        seq![(wasm_title(), wasm_color(), wasm_color(), wasm)]
    } else {
        Seq::empty()
    })
}

/// The fields of an optional list.
pub open spec fn fields_opt(b: Option<Vec<DecodedValue>>) -> Option<Seq<DecodedValue>> {
    match b {
        Some(v) => Some(v@),
        None => None,
    }
}

/// Builds the decode panel's sections; see [`panel_sections_spec`].
pub fn panel_sections(
    builtin: Option<Vec<DecodedValue>>,
    lua: Vec<DecodedValue>,
    wasm: Vec<DecodedValue>,
) -> (r: Vec<PanelSection>)
    ensures
        r@.map_values(|s: PanelSection| section_view(s)) == panel_sections_spec(
            fields_opt(builtin),
            lua@,
            wasm@,
        ),
{
    let ghost bv = fields_opt(builtin);
    let ghost (lv, wv) = (lua@, wasm@);
    let mut r: Vec<PanelSection> = Vec::new();
    let ghost mut want: Seq<(Seq<char>, Color, Color, Seq<DecodedValue>)> = Seq::empty();
    if let Some(b) = builtin {
        let sec = PanelSection {
            title: String::new(),
            title_color: Color::Yellow,
            label_color: Color::Yellow,
            entries: b,
        };
        proof {
            want = want.push(section_view(sec));
        }
        r.push(sec);
    }
    if lua.len() > 0 {
        let mut title = String::new();
        push_str(&mut title, "\u{2500}\u{2500} Lua Decoders \u{2500}\u{2500}");
        let sec = PanelSection { title, title_color: Color::Magenta, label_color: Color::Magenta, entries: lua };
        proof {
            want = want.push(section_view(sec));
        }
        r.push(sec);
    }
    if wasm.len() > 0 {
        let mut title = String::new();
        push_str(&mut title, "\u{2500}\u{2500} WASM Decoders \u{2500}\u{2500}");
        let sec = PanelSection {
            title,
            title_color: Color::Rgb(100, 200, 255),
            label_color: Color::Rgb(100, 200, 255),
            entries: wasm,
        };
        proof {
            want = want.push(section_view(sec));
        }
        r.push(sec);
    }
    assert(r@.map_values(|s: PanelSection| section_view(s)) =~= panel_sections_spec(bv, lv, wv));
    r
}

/// The entropy readings of the selection, worked out with floating point
/// outside this library: the entropy with two decimals, and the share an
/// ideal compressor could remove, in whole percent.
pub struct EntropyTexts {
    pub entropy: String,
    pub compress: u32,
}

/// The divider between status bar items.
pub open spec fn divider() -> (Seq<char>, Style) {
    ("  \u{2502}  "@, fg_spec(Color::DarkGray))
}

/// The mode the status bar names: byte or bit, and whether selecting.
pub open spec fn mode_label(m: AppModel) -> Seq<char> {
    let selecting = m.input_mode == InputMode::Selecting;
    match m.mode {
        SelectionMode::Byte => if selecting {
            "BYTE SELECT"@
        } else {
            "BYTE"@
        },
        SelectionMode::Bit => if selecting {
            "BIT SELECT"@
        } else {
            "BIT"@
        },
    }
}

/// The typed count, if any, bold white.
pub open spec fn status_count(m: AppModel) -> Seq<(Seq<char>, Style)> {
    match m.count_prefix {
        Some(c) => seq![(" "@ + dec_digits(c as nat), fg_bold_spec(Color::White))],
        None => Seq::empty(),
    }
}

/// The length of the selected range.
pub open spec fn sel_length(m: AppModel) -> int {
    sel_range(m).1 - sel_range(m).0 + 1
}

/// The cursor offset in hex and decimal, the selection length, the mode,
/// the byte order and the file size, between dividers.
pub open spec fn status_base(m: AppModel) -> Seq<(Seq<char>, Style)> {
    seq![
        (" Offset: 0x"@ + padded_left(hex_digits(m.cursor as nat), 8, '0') + " ("@ + dec_digits(
            m.cursor as nat,
        ) + ")"@, fg_spec(Color::Cyan)),
        divider(),
        ("Sel: "@ + dec_digits(sel_length(m) as nat) + " bytes"@, fg_spec(Color::Green)),
        divider(),
        ("Mode: "@ + mode_label(m), fg_spec(Color::Yellow)),
        divider(),
        (endian_label(m.endian), fg_spec(Color::Magenta)),
        divider(),
        ("Size: "@ + dec_digits(m.data.len()) + " bytes"@, fg_spec(Color::DarkGray)),
    ]
}

/// In bit mode, the bit selection as `offset:length`.
pub open spec fn status_bits(m: AppModel) -> Seq<(Seq<char>, Style)> {
    if m.mode == SelectionMode::Bit {
        let (o, l) = bit_sel(m);
        seq![
            divider(),
            ("Bits: "@ + dec_digits(o as nat) + ":"@ + dec_digits(l as nat), fg_spec(Color::Rgb(200, 140, 60))),
        ]
    } else {
        Seq::empty()
    }
}

/// With a search pattern, the pattern as typed and whether it is hex or ASCII.
pub open spec fn status_search(m: AppModel) -> Seq<(Seq<char>, Style)> {
    if m.search_pattern is Some {
        seq![
            divider(),
            ("/"@ + m.search_input + " ["@ + (if m.search_was_hex {
                "hex"@
            } else {
                "ascii"@
            }) + "]"@, fg_spec(Color::Rgb(200, 180, 100))),
        ]
    } else {
        Seq::empty()
    }
}

/// For a selection of two or more bytes: its entropy, compressibility and
/// number of null bytes.
pub open spec fn status_entropy(m: AppModel, entropy: Seq<char>, compress: u32, nulls: nat) -> Seq<
    (Seq<char>, Style),
> {
    if sel_length(m) >= 2 {
        seq![
            divider(),
            ("H: "@ + entropy + " b/B"@, fg_spec(Color::Rgb(180, 140, 240))),
            (" ~"@ + dec_digits(compress as nat) + "%\u{2193}"@, fg_spec(Color::Rgb(140, 220, 180))),
            (" "@ + dec_digits(nulls) + "N"@, fg_spec(Color::DarkGray)),
        ]
    } else {
        Seq::empty()
    }
}

/// The status bar. At the goto and search prompts: the prompt, the text
/// typed and a block cursor. Otherwise the typed count, the base items, the
/// bit selection, the search pattern and the selection's entropy; see
/// [`status_count`], [`status_base`], [`status_bits`], [`status_search`] and
/// [`status_entropy`].
pub open spec fn status_spans(m: AppModel, entropy: Seq<char>, compress: u32, nulls: nat) -> Seq<
    (Seq<char>, Style),
> {
    match m.input_mode {
        InputMode::GotoOffset => seq![
            (" Goto offset: "@, fg_spec(Color::Yellow)),
            (m.goto_input, fg_spec(Color::White)),
            ("\u{2588}"@, fg_spec(Color::White)),
        ],
        InputMode::SearchInput => seq![
            (" Search: "@, fg_spec(Color::Yellow)),
            (m.search_input, fg_spec(Color::White)),
            ("\u{2588}"@, fg_spec(Color::White)),
        ],
        _ => status_count(m) + status_base(m) + status_bits(m) + status_search(m) + status_entropy(
            m,
            entropy,
            compress,
            nulls,
        ),
    }
}

/// Appends a span.
fn push_span(spans: &mut Vec<Span>, sp: Span)
    ensures
        line_view(final(spans)@) == line_view(old(spans)@).push(span_view(sp)),
{
    spans.push(sp);
    assert(line_view(spans@) =~= line_view(old(spans)@).push(span_view(sp)));
}

/// The stats panel's heading; see [`stats_header`].
fn stats_header_line() -> (r: Vec<Span>)
    ensures
        line_view(r@) == stats_header(),
{
    let mut text = String::new();
    push_padded_right(&mut text, "Field", 22);
    push_str(&mut text, " ");
    push_padded_left(&mut text, "Entropy", 10);
    push_str(&mut text, "  ");
    push_padded_left(&mut text, "Compress", 8);
    push_str(&mut text, "  ");
    push_padded_left(&mut text, "Nulls", 6);
    push_str(&mut text, "  ");
    push_padded_left(&mut text, "Unique", 7);
    let mut spans: Vec<Span> = Vec::new();
    push_span(&mut spans, span_str("  ", plain()));
    let style = Style { bold: true, ..fg(Color::DarkGray) };
    push_span(&mut spans, span(text, style));
    spans
}

/// Appends spans.
fn append_spans(spans: &mut Vec<Span>, more: Vec<Span>)
    ensures
        line_view(final(spans)@) == line_view(old(spans)@) + line_view(more@),
{
    let mut more = more;
    let ghost m = more@;
    spans.append(&mut more);
    assert(line_view(spans@) =~= line_view(old(spans)@) + line_view(m));
}

/// The divider between status bar items.
fn divider_span() -> (r: Span)
    ensures
        span_view(r) == divider(),
{
    span_str("  \u{2502}  ", fg(Color::DarkGray))
}

/// The entropy readings of one field, worked out with floating point outside
/// this library: a six-cell bar, the entropy with two decimals and the share
/// an ideal compressor could remove, in whole percent.
pub struct FieldTexts {
    pub bar: String,
    pub entropy: String,
    pub compress: u32,
}

/// Whether a field has a row in the stats panel: it maps to a non-empty
/// range inside the selection of `sel_len` bytes.
pub open spec fn has_stats_row(e: DecodedValue, sel_len: int) -> bool {
    match e.range {
        Some((o, l)) => o + l <= sel_len && l > 0,
        None => false,
    }
}

/// The range of a field whose stats row shows numbers: at least two bytes.
pub open spec fn stats_range_spec(e: DecodedValue, sel_len: int) -> Option<(usize, usize)> {
    match e.range {
        Some((o, l)) => if o + l <= sel_len && l >= 2 {
            Some((o, l))
        } else {
            None
        },
        None => None,
    }
}

/// A field's label in the stats panel: cut to 20 characters when its UTF-8
/// text is longer than 20 bytes, else padded to 20.
pub open spec fn stats_label(label: Seq<char>) -> Seq<char> {
    if encode_utf8(label).len() > 20 {
        if label.len() > 20 {
            label.take(20)
        } else {
            label
        }
    } else {
        padded_right(label, 20)
    }
}

/// The stats panel's heading.
pub open spec fn stats_header() -> Seq<(Seq<char>, Style)> {
    seq![
        ("  "@, plain_spec()),
        (padded_right("Field"@, 22) + " "@ + padded_left("Entropy"@, 10, ' ') + "  "@ + padded_left(
            "Compress"@,
            8,
            ' ',
        ) + "  "@ + padded_left("Nulls"@, 6, ' ') + "  "@ + padded_left("Unique"@, 7, ' '), Style {
            bold: true,
            ..fg_spec(Color::DarkGray)
        }),
    ]
}

/// The stats row of field `k`: its colour swatch and, highlighted when it
/// has the focus, its label with dashes for a one-byte field, or else the
/// entropy bar and value, compressibility, null bytes and distinct values of
/// its bytes.
pub open spec fn stats_row(m: AppModel, texts: Seq<Option<FieldTexts>>, k: int) -> Seq<(Seq<char>, Style)> {
    let e = m.decode_entries[k];
    let (o, l) = e.range.unwrap();
    let sel = selected(m);
    let bytes = sel.subrange(o as int, o + l);
    let swatch = match e.color_index {
        Some(ci) => {
            let (r, g, b) = palette(ci as int);
            ("\u{2588} "@, fg_spec(Color::Rgb(r, g, b)))
        },
        None => ("  "@, plain_spec()),
    };
    let style = if m.decode_focus == Some(k as usize) {
        on_bold_spec(Color::Black, Color::Rgb(180, 140, 240))
    } else {
        fg_spec(Color::White)
    };
    let label = stats_label(e.label@);
    let text = if l < 2 {
        label + " "@ + padded_left("-"@, 10, ' ') + "  "@ + padded_left("-"@, 8, ' ') + "  "@
            + padded_left("-"@, 6, ' ') + "  "@ + padded_left("-"@, 7, ' ')
    } else {
        let t = texts[k].unwrap();
        label + " "@ + t.bar@ + " "@ + t.entropy@ + " b/B  ~"@ + padded_left(
            dec_digits(t.compress as nat),
            3,
            ' ',
        ) + "%\u{2193}  "@ + padded_left(dec_digits(count_of(bytes, 0)), 5, ' ') + "  "@ + padded_left(
            dec_digits(distinct_below(bytes, 256)),
            3,
            ' ',
        ) + "/256"@
    };
    seq![swatch, (text, style)]
}

/// The rows of the first `n` fields that have one.
pub open spec fn stats_rows(m: AppModel, texts: Seq<Option<FieldTexts>>, n: int) -> Seq<
    Seq<(Seq<char>, Style)>,
>
    decreases n,
{
    if n <= 0 {
        Seq::empty()
    } else {
        stats_rows(m, texts, n - 1) + if has_stats_row(m.decode_entries[n - 1], selected(m).len() as int) {
            seq![stats_row(m, texts, n - 1)]
        } else {
            Seq::empty()
        }
    }
}

/// The stats panel: the heading, a row per field that has one, and a note
/// when no field maps to a range at all.
pub open spec fn stats_lines_spec(m: AppModel, texts: Seq<Option<FieldTexts>>) -> Seq<
    Seq<(Seq<char>, Style)>,
> {
    seq![stats_header()] + stats_rows(m, texts, m.decode_entries.len() as int) + if exists|k: int|
        0 <= k < m.decode_entries.len() && (#[trigger] m.decode_entries[k]).range is Some {
        Seq::empty()
    } else {
        seq![seq![("  No range-mapped entries"@, fg_spec(Color::DarkGray))]]
    }
}

/// The line of the focused field's row in the stats panel, if it has one.
pub open spec fn stats_focus(m: AppModel, texts: Seq<Option<FieldTexts>>) -> Option<usize> {
    match m.decode_focus {
        Some(f) => if f < m.decode_entries.len() && has_stats_row(
            m.decode_entries[f as int],
            selected(m).len() as int,
        ) {
            Some((1 + stats_rows(m, texts, f as int).len()) as usize)
        } else {
            None
        },
        None => None,
    }
}

/// Whether the stats panel can be laid out: field ranges end within `usize`,
/// colours are palette colours, and every field whose row shows numbers has
/// its readings.
pub open spec fn stats_ok(m: AppModel, texts: Seq<Option<FieldTexts>>) -> bool {
    &&& texts.len() == m.decode_entries.len()
    &&& forall|k: int|
        0 <= k < m.decode_entries.len() ==> {
            &&& ((#[trigger] m.decode_entries[k]).range matches Some((o, l)) ==> o + l <= usize::MAX)
            &&& (m.decode_entries[k].color_index matches Some(ci) ==> ci < 10)
            &&& (stats_range_spec(m.decode_entries[k], selected(m).len() as int) is Some ==> texts[k] is Some)
        }
}

/// The hex view's highlights of the fields `es` if each field's bytes took
/// the field's own colour.
pub open spec fn own_colour_highlights(es: Seq<DecodedValue>, sel_start: int, file_max: int) -> Seq<
    (usize, usize, usize),
>
    decreases es.len(),
{
    if es.len() == 0 {
        Seq::empty()
    } else {
        let rest = own_colour_highlights(es.drop_first(), sel_start, file_max);
        match es[0].range {
            Some((o, l)) => if l > 0 {
                let (s, e) = abs_range(sel_start, o as int, l as int, file_max);
                seq![(s as usize, e as usize, es[0].color_index.unwrap())] + rest
            } else {
                rest
            },
            None => rest,
        }
    }
}

/// The step of [`lemma_panel_and_hex_colours_agree`] from the `k`-th field on.
proof fn lemma_colours_agree_from(es: Seq<DecodedValue>, out: Seq<DecodedValue>, sel_start: int, file_max: int, k: int)
    requires
        colored(out, es),
        forall|q: int| 0 <= q < es.len() ==> ((#[trigger] es[q]).range matches Some((_, l)) ==> l > 0),
        0 <= k <= es.len(),
    ensures
        highlights_from(out.skip(k), sel_start, file_max, ranged_before(es, k) as int) == own_colour_highlights(
            out.skip(k),
            sel_start,
            file_max,
        ),
    decreases es.len() - k,
{
    if k < es.len() {
        lemma_colours_agree_from(es, out, sel_start, file_max, k + 1);
        let t = out.skip(k);
        assert(t[0] == out[k]);
        assert(t.drop_first() =~= out.skip(k + 1));
        assert(out[k].range == es[k].range);
    } else {
        assert(out.skip(k) =~= Seq::<DecodedValue>::empty());
    }
}

/// The decode panel and the hex view agree on colours: when no field maps
/// to an empty range, the hex view colours each field's bytes with the
/// colour the decode panel gave that field.
pub proof fn lemma_panel_and_hex_colours_agree(
    es: Seq<DecodedValue>,
    out: Seq<DecodedValue>,
    sel_start: int,
    file_max: int,
)
    requires
        colored(out, es),
        forall|q: int| 0 <= q < es.len() ==> ((#[trigger] es[q]).range matches Some((_, l)) ==> l > 0),
    ensures
        highlights_from(out, sel_start, file_max, 0) == own_colour_highlights(out, sel_start, file_max),
{
    lemma_colours_agree_from(es, out, sel_start, file_max, 0);
    assert(out.skip(0) =~= out);
}

impl App {
    /// Whether plugin decoders run on the selection: only in byte mode.
    pub fn runs_plugins(&self) -> (b: bool)
        ensures
            b == (self@.mode == SelectionMode::Byte),
    {
        match self.mode {
            SelectionMode::Byte => true,
            SelectionMode::Bit => false,
        }
    }

    /// The built-in decoder's fields, when the settings enable it: the
    /// selected bytes decoded, or in bit mode the selected bits.
    pub fn builtin_entries(&self, floats: &FloatTexts) -> (r: Option<Vec<DecodedValue>>)
        requires
            model_wf(self@),
        ensures
            r is Some <==> match find_builtin(self@.decoders) {
                Some(k) => self@.decoders[k].enabled,
                None => true,
            },
            r matches Some(v) ==> match self@.mode {
                SelectionMode::Byte => plain_entries(
                    v@,
                    decode_selection_spec(selected(self@), self@.endian, *floats),
                ),
                SelectionMode::Bit => {
                    let (off, len) = bit_sel(self@);
                    if self@.data.len() == 0 || len == 0 {
                        v@.len() == 0
                    } else {
                        plain_entries(v@, decode_bits_spec(self@.data, off as nat, len as nat, self@.endian))
                    }
                },
            },
    {
        if !self.is_builtin_enabled() {
            return None;
        }
        match self.mode {
            SelectionMode::Byte => Some(decode_selection(self.selected_bytes(), self.endian, floats)),
            SelectionMode::Bit => {
                let (off, len) = self.bit_selection();
                Some(decode_bits(self.buffer.data(), off, len, self.endian))
            },
        }
    }

    /// The status bar's spans; see [`status_spans`]. The null count is that
    /// of the selected bytes.
    pub fn status_line(&self, ent: &EntropyTexts) -> (r: Vec<Span>)
        requires
            model_wf(self@),
        ensures
            line_view(r@) == status_spans(self@, ent.entropy@, ent.compress, count_of(selected(self@), 0)),
    {
        let mut spans: Vec<Span> = Vec::new();
        match self.input_mode {
            InputMode::GotoOffset => {
                push_span(&mut spans, span_str(" Goto offset: ", fg(Color::Yellow)));
                push_span(&mut spans, span(self.goto_input.clone(), fg(Color::White)));
                push_span(&mut spans, span_str("\u{2588}", fg(Color::White)));
                return spans;
            },
            InputMode::SearchInput => {
                push_span(&mut spans, span_str(" Search: ", fg(Color::Yellow)));
                push_span(&mut spans, span(self.search_input.clone(), fg(Color::White)));
                push_span(&mut spans, span_str("\u{2588}", fg(Color::White)));
                return spans;
            },
            _ => {},
        }
        let mut spans = self.status_count_spans();
        append_spans(&mut spans, self.status_base_spans());
        append_spans(&mut spans, self.status_bits_spans());
        append_spans(&mut spans, self.status_search_spans());
        append_spans(&mut spans, self.status_entropy_spans(ent));
        spans
    }

    /// See [`status_count`].
    fn status_count_spans(&self) -> (r: Vec<Span>)
        ensures
            line_view(r@) == status_count(self@),
    {
        let mut spans: Vec<Span> = Vec::new();
        if let Some(c) = self.count_prefix {
            let mut t = String::new();
            push_str(&mut t, " ");
            push_dec(&mut t, c as u64);
            push_span(&mut spans, span(t, fg_bold(Color::White)));
        }
        spans
    }

    /// See [`status_base`].
    fn status_base_spans(&self) -> (r: Vec<Span>)
        requires
            model_wf(self@),
        ensures
            line_view(r@) == status_base(self@),
    {
        let (sel_start, sel_end) = self.selection_range();
        let sel_len = sel_end - sel_start + 1;
        let mut offset = String::new();
        push_str(&mut offset, " Offset: 0x");
        push_str(&mut offset, hex_padded(self.cursor as u64, 8).as_str());
        push_str(&mut offset, " (");
        push_dec(&mut offset, self.cursor as u64);
        push_str(&mut offset, ")");
        let mut sel = String::new();
        push_str(&mut sel, "Sel: ");
        push_dec(&mut sel, sel_len as u64);
        push_str(&mut sel, " bytes");
        let mut mode = String::new();
        push_str(&mut mode, "Mode: ");
        let selecting = self.input_mode == InputMode::Selecting;
        match self.mode {
            SelectionMode::Byte => push_str(&mut mode, if selecting { "BYTE SELECT" } else { "BYTE" }),
            SelectionMode::Bit => push_str(&mut mode, if selecting { "BIT SELECT" } else { "BIT" }),
        }
        let mut size = String::new();
        push_str(&mut size, "Size: ");
        push_dec(&mut size, self.file_len() as u64);
        push_str(&mut size, " bytes");
        let mut spans: Vec<Span> = Vec::new();
        push_span(&mut spans, span(offset, fg(Color::Cyan)));
        push_span(&mut spans, divider_span());
        push_span(&mut spans, span(sel, fg(Color::Green)));
        push_span(&mut spans, divider_span());
        push_span(&mut spans, span(mode, fg(Color::Yellow)));
        push_span(&mut spans, divider_span());
        push_span(&mut spans, span_str(self.endian.label(), fg(Color::Magenta)));
        push_span(&mut spans, divider_span());
        push_span(&mut spans, span(size, fg(Color::DarkGray)));
        spans
    }

    /// See [`status_bits`].
    fn status_bits_spans(&self) -> (r: Vec<Span>)
        requires
            model_wf(self@),
        ensures
            line_view(r@) == status_bits(self@),
    {
        let mut spans: Vec<Span> = Vec::new();
        if self.mode == SelectionMode::Bit {
            let (o, l) = self.bit_selection();
            let mut t = String::new();
            push_str(&mut t, "Bits: ");
            push_dec(&mut t, o as u64);
            push_str(&mut t, ":");
            push_dec(&mut t, l as u64);
            push_span(&mut spans, divider_span());
            push_span(&mut spans, span(t, fg(Color::Rgb(200, 140, 60))));
        }
        spans
    }

    /// See [`status_search`].
    fn status_search_spans(&self) -> (r: Vec<Span>)
        ensures
            line_view(r@) == status_search(self@),
    {
        let mut spans: Vec<Span> = Vec::new();
        if self.search_pattern.is_some() {
            let mut t = String::new();
            push_str(&mut t, "/");
            push_str(&mut t, self.search_input.as_str());
            push_str(&mut t, " [");
            push_str(&mut t, if self.search_was_hex { "hex" } else { "ascii" });
            push_str(&mut t, "]");
            push_span(&mut spans, divider_span());
            push_span(&mut spans, span(t, fg(Color::Rgb(200, 180, 100))));
        }
        spans
    }

    /// See [`status_entropy`]; the null count is that of the selected bytes.
    fn status_entropy_spans(&self, ent: &EntropyTexts) -> (r: Vec<Span>)
        requires
            model_wf(self@),
        ensures
            line_view(r@) == status_entropy(self@, ent.entropy@, ent.compress, count_of(selected(self@), 0)),
    {
        let mut spans: Vec<Span> = Vec::new();
        let (sel_start, sel_end) = self.selection_range();
        let sel_len = sel_end - sel_start + 1;
        if sel_len >= 2 {
            let stats = byte_stats(self.selected_bytes());
            let mut h = String::new();
            push_str(&mut h, "H: ");
            push_str(&mut h, ent.entropy.as_str());
            push_str(&mut h, " b/B");
            let mut c = String::new();
            push_str(&mut c, " ~");
            push_dec(&mut c, ent.compress as u64);
            push_str(&mut c, "%\u{2193}");
            let mut n = String::new();
            push_str(&mut n, " ");
            push_dec(&mut n, stats.null_count as u64);
            push_str(&mut n, "N");
            push_span(&mut spans, divider_span());
            push_span(&mut spans, span(h, fg(Color::Rgb(180, 140, 240))));
            push_span(&mut spans, span(c, fg(Color::Rgb(140, 220, 180))));
            push_span(&mut spans, span(n, fg(Color::DarkGray)));
        }
        spans
    }

    /// For each decode entry, the range of selected bytes whose readings its
    /// stats row shows; see [`stats_range_spec`].
    pub fn stats_ranges(&self) -> (r: Vec<Option<(usize, usize)>>)
        requires
            forall|k: int|
                0 <= k < self@.decode_entries.len() ==> ((#[trigger] self@.decode_entries[k]).range matches Some((o, l)) ==> o + l
                    <= usize::MAX),
        ensures
            r@.len() == self@.decode_entries.len(),
            forall|k: int|
                0 <= k < r@.len() ==> #[trigger] r@[k] == stats_range_spec(
                    self@.decode_entries[k],
                    selected(self@).len() as int,
                ),
    {
        let sel_len = self.selected_bytes().len();
        let mut out: Vec<Option<(usize, usize)>> = Vec::new();
        let mut k: usize = 0;
        while k < self.decode_entries.len()
            invariant
                k <= self@.decode_entries.len(),
                sel_len == selected(self@).len(),
                out@.len() == k,
                forall|q: int|
                    0 <= q < self@.decode_entries.len() ==> ((#[trigger] self@.decode_entries[q]).range matches Some((o, l)) ==> o + l
                        <= usize::MAX),
                forall|q: int|
                    0 <= q < k ==> #[trigger] out@[q] == stats_range_spec(self@.decode_entries[q], sel_len as int),
            decreases self.decode_entries.len() - k,
        {
            let r = match self.decode_entries[k].range {
                Some((o, l)) => if o + l <= sel_len && l >= 2 {
                    Some((o, l))
                } else {
                    None
                },
                None => None,
            };
            out.push(r);
            k = k + 1;
        }
        out
    }

    /// The stats panel's lines and the line of the focused field's row; see
    /// [`stats_lines_spec`] and [`stats_focus`].
    pub fn stats_lines(&self, texts: &Vec<Option<FieldTexts>>) -> (r: (Vec<Vec<Span>>, Option<usize>))
        requires
            stats_ok(self@, texts@),
        ensures
            lines_view(r.0@) == stats_lines_spec(self@, texts@),
            r.1 == stats_focus(self@, texts@),
    {
        let sel = self.selected_bytes();
        let mut lines: Vec<Vec<Span>> = Vec::new();
        lines.push(stats_header_line());
        let mut focused_line: Option<usize> = None;
        let mut any_ranged = false;
        let mut k: usize = 0;
        let ghost m = self@;
        assert(lines_view(lines@) =~= seq![stats_header()] + stats_rows(m, texts@, 0));
        while k < self.decode_entries.len()
            invariant
                k <= m.decode_entries.len(),
                m == self@,
                sel@ == selected(m),
                stats_ok(m, texts@),
                lines_view(lines@) == seq![stats_header()] + stats_rows(m, texts@, k as int),
                any_ranged == exists|q: int| 0 <= q < k && (#[trigger] m.decode_entries[q]).range is Some,
                match m.decode_focus {
                    Some(f) => if f < k {
                        focused_line == stats_focus(m, texts@)
                    } else {
                        focused_line is None
                    },
                    None => focused_line is None,
                },
            decreases self.decode_entries.len() - k,
        {
            let e = &self.decode_entries[k];
            let ghost before = lines@;
            if let Some((o, l)) = e.range {
                any_ranged = true;
                if o + l <= sel.len() && l > 0 {
                    let is_focused = match self.decode_focus {
                        Some(f) => f == k,
                        None => false,
                    };
                    if is_focused {
                        focused_line = Some(lines.len());
                    }
                    let line = self.stats_row_line(sel, texts, k, is_focused);
                    lines.push(line);
                    proof {
                        assert(lines_view(lines@) =~= lines_view(before).push(line_view(line@)));
                    }
                }
            }
            proof {
                assert(stats_rows(m, texts@, k + 1) == stats_rows(m, texts@, k as int) + if has_stats_row(
                    m.decode_entries[k as int],
                    sel@.len() as int,
                ) {
                    seq![stats_row(m, texts@, k as int)]
                } else {
                    Seq::empty()
                });
                assert(lines_view(lines@) =~= seq![stats_header()] + stats_rows(m, texts@, k + 1));
                if any_ranged {
                    if e.range is Some {
                        assert(m.decode_entries[k as int].range is Some);
                    }
                }
            }
            k = k + 1;
        }
        let ghost rows = seq![stats_header()] + stats_rows(m, texts@, m.decode_entries.len() as int);
        if !any_ranged {
            let mut note: Vec<Span> = Vec::new();
            push_span(&mut note, span_str("  No range-mapped entries", fg(Color::DarkGray)));
            let ghost before = lines@;
            lines.push(note);
            assert(lines_view(lines@) =~= lines_view(before).push(line_view(note@)));
            assert(stats_lines_spec(m, texts@) == rows + seq![seq![("  No range-mapped entries"@, fg_spec(Color::DarkGray))]]);
            assert(line_view(note@) =~= seq![("  No range-mapped entries"@, fg_spec(Color::DarkGray))]);
            assert(lines_view(lines@) =~= rows + seq![line_view(note@)]);
        } else {
            assert(stats_lines_spec(m, texts@) == rows + Seq::<Seq<(Seq<char>, Style)>>::empty());
            assert(rows + Seq::<Seq<(Seq<char>, Style)>>::empty() =~= rows);
        }
        (lines, focused_line)
    }

    /// The stats row of decode entry `k`; see [`stats_row`].
    fn stats_row_line(&self, sel: &[u8], texts: &Vec<Option<FieldTexts>>, k: usize, focused: bool) -> (r: Vec<Span>)
        requires
            stats_ok(self@, texts@),
            sel@ == selected(self@),
            k < self@.decode_entries.len(),
            has_stats_row(self@.decode_entries[k as int], sel@.len() as int),
            focused == (self@.decode_focus == Some(k)),
        ensures
            line_view(r@) == stats_row(self@, texts@, k as int),
    {
        let e = &self.decode_entries[k];
        let (o, l) = match e.range {
            Some(r) => r,
            None => (0, 0),
        };
        let swatch = match e.color_index {
            Some(ci) => {
                let (r, g, b) = range_color(ci);
                span_str("\u{2588} ", fg(Color::Rgb(r, g, b)))
            },
            None => span_str("  ", plain()),
        };
        let style = if focused {
            on_bold(Color::Black, Color::Rgb(180, 140, 240))
        } else {
            fg(Color::White)
        };
        let mut text = String::new();
        if e.label.as_str().as_bytes().len() > 20 {
            push_truncated(&mut text, e.label.as_str(), 20);
        } else {
            push_padded_right(&mut text, e.label.as_str(), 20);
        }
        assert(text@ =~= stats_label(e.label@));
        let ghost label = text@;
        if l < 2 {
            push_str(&mut text, " ");
            push_padded_left(&mut text, "-", 10);
            push_str(&mut text, "  ");
            push_padded_left(&mut text, "-", 8);
            push_str(&mut text, "  ");
            push_padded_left(&mut text, "-", 6);
            push_str(&mut text, "  ");
            push_padded_left(&mut text, "-", 7);
            assert(text@ =~= label + " "@ + padded_left("-"@, 10, ' ') + "  "@ + padded_left("-"@, 8, ' ') + "  "@
                + padded_left("-"@, 6, ' ') + "  "@ + padded_left("-"@, 7, ' '));
        } else {
            let bytes = vstd::slice::slice_subrange(sel, o, o + l);
            let stats = byte_stats(bytes);
            let t = match &texts[k] {
                Some(t) => t,
                None => {
                    return Vec::new();
                },
            };
            push_str(&mut text, " ");
            push_str(&mut text, t.bar.as_str());
            push_str(&mut text, " ");
            push_str(&mut text, t.entropy.as_str());
            push_str(&mut text, " b/B  ~");
            let mut n1 = String::new();
            push_dec(&mut n1, t.compress as u64);
            push_padded_left(&mut text, n1.as_str(), 3);
            push_str(&mut text, "%\u{2193}  ");
            let mut n2 = String::new();
            push_dec(&mut n2, stats.null_count as u64);
            push_padded_left(&mut text, n2.as_str(), 5);
            push_str(&mut text, "  ");
            let mut n3 = String::new();
            push_dec(&mut n3, stats.unique_count as u64);
            push_padded_left(&mut text, n3.as_str(), 3);
            push_str(&mut text, "/256");
            assert(n1@ =~= dec_digits(t.compress as nat));
            assert(n2@ =~= dec_digits(count_of(bytes@, 0)));
            assert(n3@ =~= dec_digits(distinct_below(bytes@, 256)));
            assert(text@ =~= label + " "@ + t.bar@ + " "@ + t.entropy@ + " b/B  ~"@ + padded_left(
                dec_digits(t.compress as nat),
                3,
                ' ',
            ) + "%\u{2193}  "@ + padded_left(dec_digits(count_of(bytes@, 0)), 5, ' ') + "  "@ + padded_left(
                dec_digits(distinct_below(bytes@, 256)),
                3,
                ' ',
            ) + "/256"@);
        }
        let mut spans: Vec<Span> = Vec::new();
        push_span(&mut spans, swatch);
        push_span(&mut spans, span(text, style));
        spans
    }

    /// Lays out the decode panel: colours the sections' fields that map to a
    /// byte range, keeps them as the decode entries (which the hex view
    /// colours in turn), and returns the panel's lines and the line of the
    /// focused field; see [`colored`], [`panel_lines`] and [`focus_row`].
    pub fn decode_panel(&mut self, sections: &Vec<PanelSection>) -> (r: (Vec<Vec<Span>>, Option<usize>))
        requires
            forall|k: int|
                0 <= k < section_entries(sections@).len() ==> (#[trigger] section_entries(
                    sections@,
                )[k]).color_index is None,
        ensures
            colored(final(self)@.decode_entries, section_entries(sections@)),
            final(self)@ == (AppModel { decode_entries: final(self)@.decode_entries, ..old(self)@ }),
            lines_view(r.0@) == panel_lines(sections@, final(self)@.decode_entries, old(self)@.decode_focus),
            focus_row(panel_rows(sections@), old(self)@.decode_focus, r.1),
    {
        let fields = color_fields(sections);
        proof {
            let es = section_entries(sections@);
            assert forall|k: int| 0 <= k < fields@.len() implies ((#[trigger] fields@[k]).color_index matches Some(
                ci,
            ) ==> ci < 10) by {
                assert(fields@[k].label@ == es[k].label@);
            }
        }
        let (lines, focused_line) = panel_text(sections, &fields, self.decode_focus);
        self.decode_entries = fields;
        (lines, focused_line)
    }

    /// Scrolls the stats panel, `height` rows high with its border, so that
    /// the focused row stays visible; see [`scrolled_to_line`].
    pub fn scroll_stats_panel(&mut self, focused_line: Option<usize>, height: u16, line_count: usize)
        requires
            scroll_ok(old(self)@.stats_scroll_offset as int, focused_line, sat_sub2(height)),
        ensures
            final(self)@ == (AppModel {
                stats_scroll_offset: scrolled_to_line(
                    old(self)@.stats_scroll_offset as int,
                    focused_line,
                    sat_sub2(height),
                    line_count as int,
                ) as usize,
                ..old(self)@
            }),
    {
        let inner = height.saturating_sub(2) as usize;
        self.stats_scroll_offset = scroll_to_line(self.stats_scroll_offset, focused_line, inner, line_count);
    }

    /// Scrolls the decode panel, `height` rows high with its border, so that
    /// the focused line stays visible; see [`scrolled_to_line`].
    pub fn scroll_decode_panel(&mut self, focused_line: Option<usize>, height: u16, line_count: usize)
        requires
            scroll_ok(old(self)@.decode_scroll_offset as int, focused_line, sat_sub2(height)),
        ensures
            final(self)@ == (AppModel {
                decode_scroll_offset: scrolled_to_line(
                    old(self)@.decode_scroll_offset as int,
                    focused_line,
                    sat_sub2(height),
                    line_count as int,
                ) as usize,
                ..old(self)@
            }),
    {
        let inner = height.saturating_sub(2) as usize;
        self.decode_scroll_offset = scroll_to_line(self.decode_scroll_offset, focused_line, inner, line_count);
    }
}

} // verus!
