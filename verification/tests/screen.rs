use turbohex::app::input::{KeyCode, KeyEvent};
use turbohex::app::types::{DecoderParam, DecoderSource, ParamType};
use turbohex::app::{App, Area};
use turbohex::decode::builtin::FloatTexts;
use turbohex::decode::types::DecodedValue;
use turbohex::file_buffer::FileBuffer;
use turbohex::ui::hex::{ascii_style, byte_color, hex_style};
use turbohex::ui::panels::{panel_sections, scroll_to_line, EntropyTexts, FieldTexts};
use turbohex::ui::popups::{centered_rect, help_area, help_lines, settings_area};
use turbohex::ui::style::{fg, fg_bold, on, on_bold, plain, span_str, Cell, Color, Span, Style};

fn viewer(data: Vec<u8>) -> App {
    App::new(FileBuffer::Vec(data), "t.bin".to_string())
}

fn texts(line: &[Span]) -> Vec<String> {
    line.iter().map(|s| s.text.clone()).collect()
}

fn row_text(cells: &[Cell]) -> String {
    cells.iter().map(|c| c.ch).collect()
}

fn no_floats() -> FloatTexts {
    FloatTexts {
        f32_value: String::new(),
        f64_value: String::new(),
        entropy: String::new(),
        compress: String::new(),
        sparsity: String::new(),
    }
}

#[test]
fn style_builders() {
    assert_eq!(plain(), Style { fg: None, bg: None, bold: false, underlined: false, underline_color: None });
    assert_eq!(fg(Color::Red).fg, Some(Color::Red));
    assert!(fg_bold(Color::Red).bold);
    assert_eq!(on(Color::Black, Color::White).bg, Some(Color::White));
    let s = on_bold(Color::Black, Color::Yellow);
    assert!(s.bold && s.fg == Some(Color::Black));
    assert_eq!(span_str("x", plain()).text, "x");
}

#[test]
fn byte_colours_by_class() {
    assert_eq!(byte_color(0x00), Color::DarkGray);
    assert_eq!(byte_color(b' '), Color::Rgb(100, 180, 100));
    assert_eq!(byte_color(b'\n'), Color::Rgb(100, 180, 100));
    assert_eq!(byte_color(b'A'), Color::Cyan);
    assert_eq!(byte_color(0xff), Color::Rgb(200, 80, 80));
    assert_eq!(byte_color(0x80), Color::Rgb(180, 140, 60));
}

#[test]
fn byte_styles_by_priority() {
    let hs = vec![(2usize, 3usize, 1usize)];
    assert_eq!(hex_style(5, 0x41, 5, (0, 9), &hs, None), on_bold(Color::Black, Color::White));
    assert_eq!(hex_style(2, 0x41, 5, (0, 9), &hs, None), on(Color::Black, Color::Rgb(240, 160, 80)));
    let focused = hex_style(3, 0x41, 5, (0, 9), &hs, Some((2, 3)));
    assert!(focused.bold && focused.underlined);
    assert_eq!(focused.underline_color, Some(Color::White));
    assert_eq!(hex_style(7, 0x41, 5, (6, 9), &hs, None), on(Color::Black, Color::Rgb(80, 120, 200)));
    assert_eq!(hex_style(12, 0x41, 5, (6, 9), &hs, None), fg(Color::Cyan));
    assert_eq!(ascii_style(5, 0x41, 5, (0, 9), &hs, None), on_bold(Color::Black, Color::Yellow));
    assert_eq!(ascii_style(7, 0x41, 5, (6, 9), &hs, None), on(Color::Black, Color::Rgb(80, 140, 100)));
    assert_eq!(ascii_style(12, 0x41, 5, (6, 9), &hs, None), fg(Color::Green));
    assert_eq!(ascii_style(12, 0x01, 5, (6, 9), &hs, None), fg(Color::DarkGray));
}

#[test]
fn a_hex_row_lays_out_offset_bytes_and_text() {
    let app = viewer(vec![0x41, 0x00]);
    let cells = app.hex_row(0, (0, 0), &Vec::new(), None, 200).unwrap();
    let want = format!("00000000: 41 00 {}\u{2502}A\u{b7}{}\u{2502}", " ".repeat(43), " ".repeat(14));
    assert_eq!(row_text(&cells), want);
    assert_eq!(cells[0].style, Some(fg(Color::DarkGray)));
    assert_eq!(cells[10].style, Some(on_bold(Color::Black, Color::White)));
    assert_eq!(cells[13].style, Some(fg(Color::DarkGray)));
    assert_eq!(cells[12].style, None);
    assert_eq!(cells[60].style, Some(on_bold(Color::Black, Color::Yellow)));
    assert!(app.hex_row(1, (0, 0), &Vec::new(), None, 200).is_none());
}

#[test]
fn a_hex_row_is_cut_to_its_width() {
    let app = viewer(vec![0x41, 0x00]);
    let cells = app.hex_row(0, (0, 0), &Vec::new(), None, 5).unwrap();
    assert_eq!(row_text(&cells), "00000");
}

#[test]
fn a_focused_field_is_bracketed() {
    let mut app = viewer((0u8..40).collect());
    app.cursor = 30;
    let hs = vec![(17usize, 18usize, 0usize)];
    let cells = app.hex_row(1, (30, 30), &hs, Some((17, 18)), 200).unwrap();
    let t = row_text(&cells);
    assert!(t.starts_with("00000010: 10[11 12]13 "));
    assert_eq!(cells[12].style, Some(fg_bold(Color::White)));
    let row2 = app.hex_row(2, (30, 30), &hs, Some((17, 18)), 200).unwrap();
    assert!(row_text(&row2).starts_with("00000020: 20 21 22 23 24 25 26 27  "));
}

#[test]
fn status_bar_in_normal_mode() {
    let app = viewer(vec![0; 300]);
    let line = app.status_line(&EntropyTexts { entropy: "0.00".to_string(), compress: 100 });
    let d = "  \u{2502}  ".to_string();
    assert_eq!(
        texts(&line),
        vec![
            " Offset: 0x00000000 (0)".to_string(),
            d.clone(),
            "Sel: 1 bytes".to_string(),
            d.clone(),
            "Mode: BYTE".to_string(),
            d.clone(),
            "LE".to_string(),
            d.clone(),
            "Size: 300 bytes".to_string(),
        ]
    );
    assert_eq!(line[0].style, fg(Color::Cyan));
}

#[test]
fn status_bar_with_count_selection_and_search() {
    let mut app = viewer(vec![0, 1, 0, 0xab, 0xcd]);
    app.handle_key(KeyEvent { code: KeyCode::Char('/'), shift: false });
    for c in "AB CD".chars() {
        app.handle_key(KeyEvent { code: KeyCode::Char(c), shift: false });
    }
    app.handle_key(KeyEvent { code: KeyCode::Enter, shift: false });
    app.handle_key(KeyEvent { code: KeyCode::Char('4'), shift: false });
    let line = app.status_line(&EntropyTexts { entropy: "1.00".to_string(), compress: 87 });
    let t = texts(&line);
    assert_eq!(t[0], " 4");
    assert_eq!(t[1], " Offset: 0x00000003 (3)");
    assert_eq!(t[3], "Sel: 2 bytes");
    assert!(t.contains(&"/AB CD [hex]".to_string()));
    let n = t.len();
    assert_eq!(t[n - 3], "H: 1.00 b/B");
    assert_eq!(t[n - 2], " ~87%\u{2193}");
    assert_eq!(t[n - 1], " 0N");
}

#[test]
fn status_bar_at_the_prompts() {
    let mut app = viewer(vec![0; 4]);
    app.handle_key(KeyEvent { code: KeyCode::Char('g'), shift: false });
    app.handle_key(KeyEvent { code: KeyCode::Char('1'), shift: false });
    let line = app.status_line(&EntropyTexts { entropy: String::new(), compress: 0 });
    assert_eq!(texts(&line), vec![" Goto offset: ".to_string(), "1".to_string(), "\u{2588}".to_string()]);
    app.handle_key(KeyEvent { code: KeyCode::Esc, shift: false });
    app.handle_key(KeyEvent { code: KeyCode::Char('b'), shift: false });
    let line = app.status_line(&EntropyTexts { entropy: String::new(), compress: 0 });
    let t = texts(&line);
    assert_eq!(t[4], "Mode: BIT");
    assert_eq!(t[t.len() - 1], "Bits: 0:1");
}

#[test]
fn decode_panel_sections_and_lines() {
    let lua = vec![DecodedValue::new("Sum".to_string(), "10".to_string())];
    let wasm = vec![DecodedValue::new("Magic".to_string(), "PK".to_string()).with_range(0, 2)];
    let secs = panel_sections(None, lua, wasm);
    assert_eq!(secs.len(), 2);
    assert_eq!(secs[0].title, "\u{2500}\u{2500} Lua Decoders \u{2500}\u{2500}");
    assert_eq!(secs[1].title_color, Color::Rgb(100, 200, 255));
    let mut app = viewer(vec![0; 4]);
    let (lines, focused) = app.decode_panel(&secs);
    assert_eq!(focused, None);
    assert_eq!(lines.len(), 4);
    assert_eq!(texts(&lines[0]), vec![" ", "  ", "       Sum: ", "10"]);
    assert_eq!(lines[0][2].style, fg(Color::Magenta));
    assert!(lines[1].is_empty());
    assert_eq!(texts(&lines[2]), vec!["\u{2500}\u{2500} WASM Decoders \u{2500}\u{2500}"]);
    assert_eq!(texts(&lines[3]), vec![" ", "\u{2588} ", "     Magic: ", "PK"]);
    assert_eq!(lines[3][1].style, fg(Color::Rgb(100, 180, 240)));
    assert_eq!(app.decode_entries.len(), 2);
    assert_eq!(app.decode_entries[0].color_index, None);
    assert_eq!(app.decode_entries[1].color_index, Some(0));
}

#[test]
fn decode_panel_focus_and_colours_match_the_hex_view() {
    let mut app = viewer(vec![0; 8]);
    app.selection_anchor = Some(2);
    app.selection_end = Some(7);
    let fields = vec![
        DecodedValue::new("a".to_string(), "1".to_string()).with_range(0, 2),
        DecodedValue::new(String::new(), String::new()),
        DecodedValue::new("b".to_string(), "2".to_string()).with_range(2, 2),
    ];
    let secs = panel_sections(Some(fields), Vec::new(), Vec::new());
    app.decode_focus = Some(2);
    let (lines, focused) = app.decode_panel(&secs);
    assert_eq!(focused, Some(2));
    assert!(lines[1].is_empty());
    assert_eq!(lines[2][0].text, ">");
    assert_eq!(lines[2][2].style, on_bold(Color::Black, Color::Yellow));
    let colours: Vec<Option<usize>> = app.decode_entries.iter().map(|e| e.color_index).collect();
    assert_eq!(colours, vec![Some(0), None, Some(1)]);
    assert_eq!(app.active_range_highlights(), vec![(2, 3, 0), (4, 5, 1)]);
}

#[test]
fn builtin_entries_follow_the_settings_and_mode() {
    let mut app = viewer(vec![7, 8]);
    let v = app.builtin_entries(&no_floats()).unwrap();
    assert_eq!(v[0].value, "07");
    app.register_decoder("Built-in".to_string(), DecoderSource::Builtin, Vec::new());
    app.decoders[0].enabled = false;
    assert!(app.builtin_entries(&no_floats()).is_none());
    app.decoders[0].enabled = true;
    app.handle_key(KeyEvent { code: KeyCode::Char('b'), shift: false });
    assert!(!app.runs_plugins());
    let bits = app.builtin_entries(&no_floats()).unwrap();
    assert_eq!(bits[0].label, "Bits");
    assert_eq!(bits[0].value, "0");
}

#[test]
fn stats_rows_for_ranged_fields() {
    let mut app = viewer(vec![0, 0, 5, 6]);
    app.selection_anchor = Some(0);
    app.selection_end = Some(3);
    app.decode_entries = vec![
        DecodedValue::new("a_rather_long_field_label".to_string(), String::new()).with_range(0, 4),
        DecodedValue::new("one".to_string(), String::new()).with_range(2, 1),
        DecodedValue::new("plain".to_string(), String::new()),
    ];
    app.decode_entries[0].color_index = Some(0);
    app.decode_focus = Some(1);
    assert_eq!(app.stats_ranges(), vec![Some((0, 4)), None, None]);
    let field = FieldTexts { bar: "\u{2588}\u{2591}".to_string(), entropy: "1.50".to_string(), compress: 81 };
    let (lines, focused) = app.stats_lines(&vec![Some(field), None, None]);
    assert_eq!(lines.len(), 3);
    assert_eq!(focused, Some(2));
    assert_eq!(
        lines[1][1].text,
        "a_rather_long_field_ \u{2588}\u{2591} 1.50 b/B  ~ 81%\u{2193}      2    3/256"
    );
    assert_eq!(
        lines[2][1].text,
        format!("{:<20} {:>10}  {:>8}  {:>6}  {:>7}", "one", "-", "-", "-", "-")
    );
    assert_eq!(lines[2][1].style, on_bold(Color::Black, Color::Rgb(180, 140, 240)));
    assert_eq!(lines[0][1].text, format!("{:<22} {:>10}  {:>8}  {:>6}  {:>7}", "Field", "Entropy", "Compress", "Nulls", "Unique"));
}

#[test]
fn stats_panel_without_ranged_fields() {
    let app = viewer(vec![0; 4]);
    let (lines, focused) = app.stats_lines(&Vec::new());
    assert_eq!(lines.len(), 2);
    assert_eq!(lines[1][0].text, "  No range-mapped entries");
    assert_eq!(focused, None);
}

#[test]
fn scrolling_keeps_the_focused_line_visible() {
    assert_eq!(scroll_to_line(0, Some(12), 10, 30), 3);
    assert_eq!(scroll_to_line(5, Some(2), 10, 30), 2);
    assert_eq!(scroll_to_line(25, None, 10, 30), 20);
    assert_eq!(scroll_to_line(4, Some(6), 10, 30), 4);
    let mut app = viewer(vec![0; 4]);
    app.decode_scroll_offset = 7;
    app.scroll_decode_panel(None, 12, 12);
    assert_eq!(app.decode_scroll_offset, 2);
    app.stats_scroll_offset = 0;
    app.scroll_stats_panel(Some(15), 7, 40);
    assert_eq!(app.stats_scroll_offset, 11);
}

#[test]
fn popups_are_centred() {
    let area = Area { x: 0, y: 0, width: 20, height: 10 };
    assert_eq!(centered_rect(10, 4, area), Area { x: 5, y: 3, width: 10, height: 4 });
    assert_eq!(centered_rect(30, 20, area), area);
    let screen = Area { x: 0, y: 0, width: 100, height: 50 };
    assert_eq!(help_area(40, screen), Area { x: 10, y: 4, width: 80, height: 42 });
    assert_eq!(settings_area(100, screen), Area { x: 14, y: 0, width: 72, height: 50 });
    assert_eq!(settings_area(3, screen), Area { x: 14, y: 22, width: 72, height: 5 });
}

#[test]
fn help_lists_the_keys() {
    let lines = help_lines();
    assert!(lines[0].is_empty());
    assert_eq!(texts(&lines[1]), vec!["  Navigation"]);
    assert_eq!(lines[1][0].style, fg_bold(Color::Yellow));
    assert!(lines[2].is_empty());
    assert_eq!(texts(&lines[3]), vec![format!("    {:<16}", "Arrow keys"), "Move cursor".to_string()]);
    let last = &lines[lines.len() - 1];
    assert_eq!(texts(last), vec!["  Press any key to close"]);
    let all: Vec<String> = lines.iter().flat_map(|l| texts(l)).collect();
    assert!(all.contains(&"Search for hex bytes or ASCII text".to_string()));
    assert!(all.contains(&format!("    {:<16}", "q")));
}

#[test]
fn settings_popup_lists_decoders_and_parameters() {
    let mut app = viewer(vec![0; 4]);
    app.register_decoder("Built-in".to_string(), DecoderSource::Builtin, Vec::new());
    app.register_decoder(
        "proto".to_string(),
        DecoderSource::Wasm,
        vec![DecoderParam {
            name: "mode".to_string(),
            param_type: ParamType::Choice(vec!["a".to_string(), "b".to_string()]),
            default: "a".to_string(),
            value: "b".to_string(),
        }],
    );
    let lines = app.settings_lines();
    let all: Vec<String> = lines.iter().flat_map(|l| texts(l)).collect();
    assert!(all.iter().any(|t| t.contains("Built-in")));
    assert!(all.iter().any(|t| t.contains("proto")));
    assert!(all.iter().any(|t| t.contains("mode")));
    assert!(all.iter().any(|t| t.contains('b')));
}
