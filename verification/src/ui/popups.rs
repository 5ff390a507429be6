//! The help popup, the decoder settings popup, and centring a popup.

use vstd::prelude::*;

use super::style::{
    fg, fg_bold, fg_bold_spec, fg_spec, line_view, lines_view, on_bold, on_bold_spec, plain,
    plain_spec, span, span_str, span_view, Color, Span, Style,
};
use crate::app::{
    decoder_model, param_model, App, AppModel, Area, DecoderModel, DecoderSource, InputMode,
    ParamModel, ParamType,
};
use crate::text::{padded_right, push_padded_right, push_str};

verus! {

/// A popup of at most `width` by `height` cells centred in `area`, shrunk to fit.
pub open spec fn centered_spec(width: u16, height: u16, area: Area) -> Area {
    let w = if width < area.width {
        width
    } else {
        area.width
    };
    let h = if height < area.height {
        height
    } else {
        area.height
    };
    Area {
        x: (area.x + (area.width - w) / 2) as u16,
        y: (area.y + (area.height - h) / 2) as u16,
        width: w,
        height: h,
    }
}

/// Centres a popup; see [`centered_spec`].
pub fn centered_rect(width: u16, height: u16, area: Area) -> (r: Area)
    requires
        area.x + area.width <= u16::MAX,
        area.y + area.height <= u16::MAX,
    ensures
        r == centered_spec(width, height, area),
{
    let w = if width < area.width {
        width
    } else {
        area.width
    };
    let h = if height < area.height {
        height
    } else {
        area.height
    };
    Area {
        x: area.x + (area.width - w) / 2,
        y: area.y + (area.height - h) / 2,
        width: w,
        height: h,
    }
}

/// A line of one span.
pub open spec fn one(text: Seq<char>, style: Style) -> Seq<(Seq<char>, Style)> {
    seq![(text, style)]
}

/// The name a decoder's source is tagged with.
pub open spec fn source_tag(s: DecoderSource) -> Seq<char> {
    match s {
        DecoderSource::Builtin => "builtin"@,
        DecoderSource::Lua => "lua"@,
        DecoderSource::Wasm => "wasm"@,
    }
}

/// The colour of a decoder's source tag.
pub open spec fn source_color(s: DecoderSource) -> Color {
    match s {
        DecoderSource::Builtin => Color::Yellow,
        DecoderSource::Lua => Color::Magenta,
        DecoderSource::Wasm => Color::Rgb(100, 200, 255),
    }
}

/// The hint of a parameter's type.
pub open spec fn type_hint(t: ParamType) -> Seq<char> {
    match t {
        ParamType::String => "str"@,
        ParamType::Int => "int"@,
        ParamType::Bool => "bool"@,
        ParamType::Choice(_) => "choice"@,
    }
}

/// The cursor marker: `>` on the cursor row, else a space.
pub open spec fn marker(on: bool) -> Seq<char> {
    if on {
        ">"@
    } else {
        " "@
    }
}

/// A decoder's row: cursor marker, checkbox, name in 32 columns and source tag.
pub open spec fn decoder_line(d: DecoderModel, at_cursor: bool) -> Seq<(Seq<char>, Style)> {
    seq![
        ("  "@ + marker(at_cursor) + " "@, fg_bold_spec(Color::White)),
        ((if d.enabled {
            "[x]"@
        } else {
            "[ ]"@
        }) + " "@, fg_bold_spec(if d.enabled {
            Color::Green
        } else {
            Color::Red
        })),
        (padded_right(d.name, 32), if at_cursor {
            fg_bold_spec(Color::White)
        } else {
            fg_spec(Color::White)
        }),
        ("  "@ + source_tag(d.source), fg_spec(source_color(d.source))),
    ]
}

/// A parameter's row: cursor marker, name in 20 columns, type hint and
/// value; while it is being edited, the text typed so far with a block
/// cursor, inverted.
pub open spec fn param_line(p: ParamModel, at_cursor: bool, editing: bool, input: Seq<char>) -> Seq<
    (Seq<char>, Style),
> {
    seq![
        ("  "@ + marker(at_cursor) + " "@, fg_bold_spec(Color::White)),
        ("    "@, plain_spec()),
        (padded_right(p.name, 20), if at_cursor {
            fg_bold_spec(Color::Cyan)
        } else {
            fg_spec(Color::Cyan)
        }),
        ("["@ + type_hint(p.param_type) + "] "@, fg_spec(Color::DarkGray)),
        (if at_cursor && editing {
            input + "\u{2588}"@
        } else {
            p.value
        }, if at_cursor && editing {
            on_bold_spec(Color::Black, Color::Yellow)
        } else if at_cursor {
            fg_bold_spec(Color::White)
        } else {
            fg_spec(Color::Gray)
        }),
    ]
}

/// The rows of the decoders `ds`, the first of them at settings row `row`:
/// each decoder's row followed by its parameters' rows.
pub open spec fn decoder_lines(
    ds: Seq<DecoderModel>,
    row: int,
    cursor: int,
    editing: bool,
    input: Seq<char>,
) -> Seq<Seq<(Seq<char>, Style)>>
    decreases ds.len(),
{
    if ds.len() == 0 {
        Seq::empty()
    } else {
        let d = ds[0];
        seq![decoder_line(d, row == cursor)] + Seq::new(
            d.params.len(),
            |j: int| param_line(d.params[j], row + 1 + j == cursor, editing, input),
        ) + decoder_lines(ds.drop_first(), row + 1 + d.params.len(), cursor, editing, input)
    }
}

/// The settings popup: a key hint, the decoders with their parameters, and
/// how to close it.
pub open spec fn settings_lines_spec(m: AppModel) -> Seq<Seq<(Seq<char>, Style)>> {
    seq![
        Seq::empty(),
        one("  Up/Down: navigate  Space/Enter: toggle/edit  Esc: close"@, fg_spec(Color::DarkGray)),
        Seq::empty(),
    ] + decoder_lines(
        m.decoders,
        0,
        m.decoder_settings_cursor as int,
        m.input_mode == InputMode::ParamEdit,
        m.param_edit_input,
    ) + seq![Seq::empty(), one("  Esc to close"@, fg_spec(Color::DarkGray))]
}

/// Appends a line.
fn push_line(lines: &mut Vec<Vec<Span>>, line: Vec<Span>)
    ensures
        lines_view(final(lines)@) == lines_view(old(lines)@).push(line_view(line@)),
{
    lines.push(line);
    assert(lines_view(lines@) =~= lines_view(old(lines)@).push(line_view(line@)));
}

/// A line without spans.
fn empty_line() -> (r: Vec<Span>)
    ensures
        line_view(r@) == Seq::<(Seq<char>, Style)>::empty(),
{
    let v: Vec<Span> = Vec::new();
    assert(line_view(v@) =~= Seq::<(Seq<char>, Style)>::empty());
    v
}

/// A line of one span.
fn one_span(text: &str, style: Style) -> (r: Vec<Span>)
    ensures
        line_view(r@) == one(text@, style),
{
    let mut v: Vec<Span> = Vec::new();
    v.push(span_str(text, style));
    assert(line_view(v@) =~= one(text@, style));
    v
}

/// The cursor marker text; see [`marker`].
fn marker_text(out: &mut String, on: bool)
    ensures
        final(out)@ == old(out)@ + marker(on),
{
    if on {
        push_str(out, ">");
    } else {
        push_str(out, " ");
    }
}

/// A decoder's row; see [`decoder_line`].
fn decoder_row(name: &str, source: DecoderSource, enabled: bool, at_cursor: bool) -> (r: Vec<Span>)
    ensures
        line_view(r@) == decoder_line(
            DecoderModel { name: name@, source, enabled, params: Seq::empty() },
            at_cursor,
        ),
{
    let mut m = String::new();
    push_str(&mut m, "  ");
    marker_text(&mut m, at_cursor);
    push_str(&mut m, " ");
    let mut check = String::new();
    push_str(&mut check, if enabled { "[x]" } else { "[ ]" });
    push_str(&mut check, " ");
    let mut nm = String::new();
    push_padded_right(&mut nm, name, 32);
    let mut tag = String::new();
    push_str(&mut tag, "  ");
    let (t, c) = match source {
        DecoderSource::Builtin => ("builtin", Color::Yellow),
        DecoderSource::Lua => ("lua", Color::Magenta),
        DecoderSource::Wasm => ("wasm", Color::Rgb(100, 200, 255)),
    };
    push_str(&mut tag, t);
    let mut v: Vec<Span> = Vec::new();
    v.push(span(m, fg_bold(Color::White)));
    v.push(span(check, fg_bold(if enabled { Color::Green } else { Color::Red })));
    v.push(span(nm, if at_cursor { fg_bold(Color::White) } else { fg(Color::White) }));
    v.push(span(tag, fg(c)));
    assert(line_view(v@) =~= decoder_line(
        DecoderModel { name: name@, source, enabled, params: Seq::empty() },
        at_cursor,
    ));
    v
}

/// A parameter's row; see [`param_line`].
fn param_row(p: &crate::app::DecoderParam, at_cursor: bool, editing: bool, input: &str) -> (r: Vec<Span>)
    ensures
        line_view(r@) == param_line(param_model(*p), at_cursor, editing, input@),
{
    let mut m = String::new();
    push_str(&mut m, "  ");
    marker_text(&mut m, at_cursor);
    push_str(&mut m, " ");
    let mut nm = String::new();
    push_padded_right(&mut nm, p.name.as_str(), 20);
    let mut hint = String::new();
    push_str(&mut hint, "[");
    match &p.param_type {
        ParamType::String => push_str(&mut hint, "str"),
        ParamType::Int => push_str(&mut hint, "int"),
        ParamType::Bool => push_str(&mut hint, "bool"),
        ParamType::Choice(_) => push_str(&mut hint, "choice"),
    }
    push_str(&mut hint, "] ");
    let mut value = String::new();
    if at_cursor && editing {
        push_str(&mut value, input);
        push_str(&mut value, "\u{2588}");
    } else {
        push_str(&mut value, p.value.as_str());
    }
    let value_style = if at_cursor && editing {
        on_bold(Color::Black, Color::Yellow)
    } else if at_cursor {
        fg_bold(Color::White)
    } else {
        fg(Color::Gray)
    };
    let mut v: Vec<Span> = Vec::new();
    v.push(span(m, fg_bold(Color::White)));
    v.push(span_str("    ", plain()));
    v.push(span(nm, if at_cursor { fg_bold(Color::Cyan) } else { fg(Color::Cyan) }));
    v.push(span(hint, fg(Color::DarkGray)));
    v.push(span(value, value_style));
    assert(line_view(v@) =~= param_line(param_model(*p), at_cursor, editing, input@));
    v
}

/// The rows of the decoders from `k` on, starting at settings row `row`, as
/// [`decoder_lines`] gives them for the rest of the list.
proof fn lemma_decoder_lines_step(ds: Seq<DecoderModel>, k: int, row: int, cursor: int, editing: bool, input: Seq<char>)
    requires
        0 <= k < ds.len(),
    ensures
        decoder_lines(ds.skip(k), row, cursor, editing, input) == seq![decoder_line(ds[k], row == cursor)]
            + Seq::new(
            ds[k].params.len(),
            |j: int| param_line(ds[k].params[j], row + 1 + j == cursor, editing, input),
        ) + decoder_lines(ds.skip(k + 1), row + 1 + ds[k].params.len(), cursor, editing, input),
{
    assert(ds.skip(k).drop_first() =~= ds.skip(k + 1));
    assert(ds.skip(k)[0] == ds[k]);
}

/// The lines of a help section: a blank line before all but the first, the
/// section's name, a blank line, and each key in 16 columns with what it does.
pub open spec fn help_section_lines(first: bool, name: Seq<char>, entries: Seq<(Seq<char>, Seq<char>)>) -> Seq<
    Seq<(Seq<char>, Style)>,
> {
    (if first {
        Seq::empty()
    } else {
        seq![Seq::empty()]
    }) + seq![one("  "@ + name, fg_bold_spec(Color::Yellow)), Seq::empty()] + entries.map_values(
        |e: (Seq<char>, Seq<char>)|
            seq![("    "@ + padded_right(e.0, 16), fg_bold_spec(Color::Cyan)), (e.1, fg_spec(Color::White))],
    )
}

/// The help popup: every key, by section, and how to close it.
pub open spec fn help_lines_spec() -> Seq<Seq<(Seq<char>, Style)>> {
    seq![Seq::empty()]
        + help_section_lines(true, "Navigation"@, seq![
                ("Arrow keys"@, "Move cursor"@),
                ("0-9"@, "Count prefix (multiplies next movement)"@),
                ("Page Up/Down"@, "Scroll one page"@),
                ("Home / End"@, "Jump to start / end of file"@),
                ("g"@, "Goto offset (hex: 0x..., or decimal)"@),
                ("/"@, "Search for hex bytes or ASCII text"@),
                ("*"@, "Search selected bytes / find next match"@),
                ("#"@, "Find previous match"@),
            ])
        + help_section_lines(false, "Selection"@, seq![
                ("v"@, "Toggle select mode (anchor at cursor)"@),
                ("n / N"@, "Next/prev search match or chunk"@),
                ("Esc"@, "Clear selection / cancel"@),
            ])
        + help_section_lines(false, "Modes"@, seq![
                ("b"@, "Toggle byte / bit selection mode"@),
                ("e"@, "Toggle little-endian / big-endian"@),
            ])
        + help_section_lines(false, "Layout"@, seq![
                ("w"@, "Toggle 16 / 32 bytes per row"@),
                ("[  /  ]"@, "Shrink / grow decode panel"@),
                ("s"@, "Toggle stats panel"@),
                ("{  /  }"@, "Scroll stats panel up / down"@),
            ])
        + help_section_lines(false, "Decoders"@, seq![
                ("d"@, "Decoder settings (enable/disable)"@),
                ("Tab / S-Tab"@, "Focus next/prev decoded field"@),
                ("Esc"@, "Clear decoder focus"@),
            ])
        + help_section_lines(false, "Other"@, seq![
                ("?"@, "Show this help"@),
                ("q"@, "Quit"@),
            ])
        + seq![Seq::empty(), one("  Press any key to close"@, fg_spec(Color::DarkGray))]
}

/// Keys and descriptions as character sequences.
pub open spec fn pairs_view(v: Seq<(&str, &str)>) -> Seq<(Seq<char>, Seq<char>)> {
    v.map_values(|e: (&str, &str)| (e.0@, e.1@))
}

/// Appends the lines of a help section; see [`help_section_lines`].
fn push_help_section(lines: &mut Vec<Vec<Span>>, first: bool, name: &str, entries: &Vec<(&str, &str)>)
    ensures
        lines_view(final(lines)@) == lines_view(old(lines)@) + help_section_lines(first, name@, pairs_view(entries@)),
{
    let ghost start = lines_view(lines@);
    if !first {
        push_line(lines, empty_line());
    }
    let mut title = String::new();
    push_str(&mut title, "  ");
    push_str(&mut title, name);
    push_line(lines, one_span(title.as_str(), fg_bold(Color::Yellow)));
    push_line(lines, empty_line());
    let ghost head = lines_view(lines@);
    let ghost row = |e: (Seq<char>, Seq<char>)|
        seq![("    "@ + padded_right(e.0, 16), fg_bold_spec(Color::Cyan)), (e.1, fg_spec(Color::White))];
    let mut k: usize = 0;
    assert(head =~= start + (if first {
        Seq::empty()
    } else {
        seq![Seq::empty()]
    }) + seq![one("  "@ + name@, fg_bold_spec(Color::Yellow)), Seq::empty()]);
    while k < entries.len()
        invariant
            k <= entries@.len(),
            row == (|e: (Seq<char>, Seq<char>)|
                seq![("    "@ + padded_right(e.0, 16), fg_bold_spec(Color::Cyan)), (e.1, fg_spec(Color::White))]),
            lines_view(lines@) == head + pairs_view(entries@.take(k as int)).map_values(row),
        decreases entries.len() - k,
    {
        let (key, desc) = entries[k];
        let mut kt = String::new();
        push_str(&mut kt, "    ");
        push_padded_right(&mut kt, key, 16);
        let mut v: Vec<Span> = Vec::new();
        v.push(span(kt, fg_bold(Color::Cyan)));
        v.push(span_str(desc, fg(Color::White)));
        let ghost before = lines_view(lines@);
        push_line(lines, v);
        proof {
            assert(line_view(v@) =~= row((key@, desc@)));
            assert(entries@.take(k + 1) =~= entries@.take(k as int).push(entries@[k as int]));
            assert(pairs_view(entries@.take(k + 1)).map_values(row) =~= pairs_view(entries@.take(k as int)).map_values(row).push(
                row((key@, desc@)),
            ));
        }
        k = k + 1;
    }
    assert(entries@.take(k as int) =~= entries@);
    assert(pairs_view(entries@).map_values(row) =~= pairs_view(entries@).map_values(
        |e: (Seq<char>, Seq<char>)|
            seq![("    "@ + padded_right(e.0, 16), fg_bold_spec(Color::Cyan)), (e.1, fg_spec(Color::White))],
    ));
}

/// The help popup's lines; see [`help_lines_spec`].
pub fn help_lines() -> (r: Vec<Vec<Span>>)
    ensures
        lines_view(r@) == help_lines_spec(),
{
    let mut lines: Vec<Vec<Span>> = Vec::new();
    push_line(&mut lines, empty_line());
    push_help_section(&mut lines, true, "Navigation", &vec![
        ("Arrow keys", "Move cursor"),
        ("0-9", "Count prefix (multiplies next movement)"),
        ("Page Up/Down", "Scroll one page"),
        ("Home / End", "Jump to start / end of file"),
        ("g", "Goto offset (hex: 0x..., or decimal)"),
        ("/", "Search for hex bytes or ASCII text"),
        ("*", "Search selected bytes / find next match"),
        ("#", "Find previous match"),
    ]);
    push_help_section(&mut lines, false, "Selection", &vec![
        ("v", "Toggle select mode (anchor at cursor)"),
        ("n / N", "Next/prev search match or chunk"),
        ("Esc", "Clear selection / cancel"),
    ]);
    push_help_section(&mut lines, false, "Modes", &vec![
        ("b", "Toggle byte / bit selection mode"),
        ("e", "Toggle little-endian / big-endian"),
    ]);
    push_help_section(&mut lines, false, "Layout", &vec![
        ("w", "Toggle 16 / 32 bytes per row"),
        ("[  /  ]", "Shrink / grow decode panel"),
        ("s", "Toggle stats panel"),
        ("{  /  }", "Scroll stats panel up / down"),
    ]);
    push_help_section(&mut lines, false, "Decoders", &vec![
        ("d", "Decoder settings (enable/disable)"),
        ("Tab / S-Tab", "Focus next/prev decoded field"),
        ("Esc", "Clear decoder focus"),
    ]);
    push_help_section(&mut lines, false, "Other", &vec![
        ("?", "Show this help"),
        ("q", "Quit"),
    ]);
    push_line(&mut lines, empty_line());
    push_line(&mut lines, one_span("  Press any key to close", fg(Color::DarkGray)));
    assert(lines_view(lines@) =~= help_lines_spec());
    lines
}

/// Where the help popup goes: 80 columns wide and as high as its lines and
/// border, centred in `area`.
pub fn help_area(line_count: usize, area: Area) -> (r: Area)
    requires
        line_count + 2 <= u16::MAX,
        area.x + area.width <= u16::MAX,
        area.y + area.height <= u16::MAX,
    ensures
        r == centered_spec(80, (line_count + 2) as u16, area),
{
    centered_rect(80, (line_count + 2) as u16, area)
}

/// Where the settings popup goes: 72 columns wide and as high as its lines
/// and border but no higher than `area`, centred in it.
pub fn settings_area(line_count: usize, area: Area) -> (r: Area)
    requires
        area.x + area.width <= u16::MAX,
        area.y + area.height <= u16::MAX,
    ensures
        r == centered_spec(
            72,
            (if line_count + 2 < area.height {
                line_count + 2
            } else {
                area.height as int
            }) as u16,
            area,
        ),
{
    let h: u16 = if line_count < area.height as usize && line_count + 2 < area.height as usize {
        (line_count + 2) as u16
    } else {
        area.height
    };
    centered_rect(72, h, area)
}

/// The rows of a non-empty decoder list: the first decoder's and then the rest's.
proof fn lemma_settings_rows_front(s: Seq<DecoderModel>)
    requires
        s.len() > 0,
    ensures
        crate::app::settings_rows(s) == 1 + s[0].params.len() + crate::app::settings_rows(s.drop_first()),
    decreases s.len(),
{
    if s.len() > 1 {
        lemma_settings_rows_front(s.drop_last());
        assert(s.drop_last().drop_first() =~= s.drop_first().drop_last());
        assert(s.drop_last()[0] == s[0]);
    } else {
        assert(s.drop_first() =~= Seq::<DecoderModel>::empty());
        assert(s.drop_last() =~= Seq::<DecoderModel>::empty());
    }
}

impl App {
    /// The decoder settings popup's lines; see [`settings_lines_spec`].
    pub fn settings_lines(&self) -> (r: Vec<Vec<Span>>)
        requires
            crate::app::settings_rows(self@.decoders) <= usize::MAX,
        ensures
            lines_view(r@) == settings_lines_spec(self@),
    {
        let ghost m = self@;
        let ghost ds = m.decoders;
        let cursor = self.decoder_settings_cursor;
        let editing = self.input_mode == InputMode::ParamEdit;
        let input = self.param_edit_input.as_str();
        let mut lines: Vec<Vec<Span>> = Vec::new();
        push_line(&mut lines, empty_line());
        push_line(&mut lines, one_span("  Up/Down: navigate  Space/Enter: toggle/edit  Esc: close", fg(Color::DarkGray)));
        push_line(&mut lines, empty_line());
        let ghost head = lines_view(lines@);
        assert(head =~= seq![
            Seq::empty(),
            one("  Up/Down: navigate  Space/Enter: toggle/edit  Esc: close"@, fg_spec(Color::DarkGray)),
            Seq::empty(),
        ]);
        let mut row: usize = 0;
        let mut k: usize = 0;
        assert(ds.skip(0) =~= ds);
        assert(head + Seq::<Seq<(Seq<char>, Style)>>::empty() =~= head);
        while k < self.decoders.len()
            invariant
                k <= self.decoders@.len(),
                m == self@,
                ds == m.decoders,
                cursor == m.decoder_settings_cursor,
                editing == (m.input_mode == InputMode::ParamEdit),
                input@ == m.param_edit_input,
                crate::app::settings_rows(ds) <= usize::MAX,
                row + crate::app::settings_rows(ds.skip(k as int)) == crate::app::settings_rows(ds),
                lines_view(lines@) + decoder_lines(ds.skip(k as int), row as int, cursor as int, editing, input@)
                    == head + decoder_lines(ds, 0, cursor as int, editing, input@),
            decreases self.decoders.len() - k,
        {
            let d = &self.decoders[k];
            let ghost dm = ds[k as int];
            let ghost before = lines_view(lines@);
            proof {
                lemma_decoder_lines_step(ds, k as int, row as int, cursor as int, editing, input@);
                assert(dm == decoder_model(*d));
                lemma_settings_rows_front(ds.skip(k as int));
                assert(ds.skip(k as int).drop_first() =~= ds.skip(k + 1));
                assert(ds.skip(k as int)[0] == dm);
            }
            let at = row == cursor;
            push_line(&mut lines, decoder_row(d.name.as_str(), d.source, d.enabled, at));
            let ghost pl = |j: int| param_line(dm.params[j], row + 1 + j == cursor, editing, input@);
            let mut j: usize = 0;
            assert(lines_view(lines@) =~= before + seq![decoder_line(dm, row == cursor)] + Seq::new(0, pl));
            while j < d.params.len()
                invariant
                    j <= d.params@.len(),
                    dm == decoder_model(*d),
                    k < self.decoders@.len(),
                    d == &self.decoders@[k as int],
                    row + 1 + d.params@.len() <= usize::MAX,
                    cursor == m.decoder_settings_cursor,
                    editing == (m.input_mode == InputMode::ParamEdit),
                    input@ == m.param_edit_input,
                    pl == (|j: int| param_line(dm.params[j], row + 1 + j == cursor, editing, input@)),
                    lines_view(lines@) == before + seq![decoder_line(dm, row == cursor)] + Seq::new(j as nat, pl),
                decreases d.params.len() - j,
            {
                proof {
                    assert(dm.params[j as int] == param_model(d.params@[j as int]));
                }
                let line = param_row(&d.params[j], row + 1 + j == cursor, editing, input);
                let ghost b2 = lines_view(lines@);
                push_line(&mut lines, line);
                proof {
                    assert(line_view(line@) == pl(j as int));
                    assert(lines_view(lines@) =~= before + seq![decoder_line(dm, row == cursor)] + Seq::new((j + 1) as nat, pl));
                }
                j = j + 1;
            }
            proof {
                let tail = decoder_lines(ds.skip(k + 1), row + 1 + dm.params.len(), cursor as int, editing, input@);
                assert(Seq::new(dm.params.len(), pl) =~= Seq::new(
                    dm.params.len(),
                    |q: int| param_line(dm.params[q], row + 1 + q == cursor, editing, input@),
                ));
                assert(lines_view(lines@) + tail =~= before + decoder_lines(ds.skip(k as int), row as int, cursor as int, editing, input@));
            }
            row = row + 1 + d.params.len();
            k = k + 1;
        }
        proof {
            assert(ds.skip(k as int) =~= Seq::<DecoderModel>::empty());
            assert(lines_view(lines@) + Seq::<Seq<(Seq<char>, Style)>>::empty() =~= lines_view(lines@));
        }
        let ghost body = lines_view(lines@);
        push_line(&mut lines, empty_line());
        push_line(&mut lines, one_span("  Esc to close", fg(Color::DarkGray)));
        assert(lines_view(lines@) =~= body + seq![Seq::empty(), one("  Esc to close"@, fg_spec(Color::DarkGray))]);
        lines
    }
}

} // verus!
