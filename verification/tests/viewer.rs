use turbohex::app::input::{KeyCode, KeyEvent};
use turbohex::app::types::{DecoderParam, DecoderSource, InputMode, ParamType, SelectionMode};
use turbohex::app::{App, Area};
use turbohex::decode::types::{DecodedValue, Endian};
use turbohex::file_buffer::{load_strategy, FileBuffer, LoadStrategy};

fn viewer(data: Vec<u8>) -> App {
    App::new(FileBuffer::Vec(data), "t.bin".to_string())
}

fn press(app: &mut App, code: KeyCode) {
    app.handle_key(KeyEvent { code, shift: false });
}

fn typed(app: &mut App, text: &str) {
    for c in text.chars() {
        press(app, KeyCode::Char(c));
    }
}

fn param(name: &str, param_type: ParamType, default: &str) -> DecoderParam {
    DecoderParam {
        name: name.to_string(),
        param_type,
        default: default.to_string(),
        value: default.to_string(),
    }
}

#[test]
fn a_new_viewer_starts_at_the_top() {
    let app = viewer(vec![1, 2, 3]);
    assert_eq!(app.cursor, 0);
    assert_eq!(app.bytes_per_row, 16);
    assert_eq!(app.visible_rows, 20);
    assert_eq!(app.decode_panel_pct, 50);
    assert_eq!(app.endian, Endian::Little);
    assert_eq!(app.mode, SelectionMode::Byte);
    assert_eq!(app.input_mode, InputMode::Normal);
    assert_eq!(app.file_len(), 3);
    assert_eq!(app.total_rows(), 1);
    assert_eq!(app.selection_range(), (0, 0));
    assert_eq!(app.selected_bytes(), &[1]);
}

#[test]
fn quit_key() {
    let mut app = viewer(vec![0; 4]);
    typed(&mut app, "q");
    assert!(app.quit);
}

#[test]
fn byte_order_key_twice_restores_the_state() {
    let mut app = viewer(vec![0; 4]);
    typed(&mut app, "e");
    assert_eq!(app.endian, Endian::Big);
    typed(&mut app, "e");
    assert_eq!(app.endian, Endian::Little);
    assert_eq!(app.cursor, 0);
    assert_eq!(app.input_mode, InputMode::Normal);
    assert_eq!(app.count_prefix, None);
}

#[test]
fn arrow_keys_move_and_stop_at_the_ends() {
    let mut app = viewer(vec![0; 100]);
    press(&mut app, KeyCode::Left);
    assert_eq!(app.cursor, 0);
    press(&mut app, KeyCode::Down);
    assert_eq!(app.cursor, 16);
    press(&mut app, KeyCode::Right);
    assert_eq!(app.cursor, 17);
    app.handle_key(KeyEvent { code: KeyCode::Down, shift: true });
    assert_eq!(app.cursor, 99);
    press(&mut app, KeyCode::Right);
    assert_eq!(app.cursor, 99);
    press(&mut app, KeyCode::Home);
    assert_eq!(app.cursor, 0);
    press(&mut app, KeyCode::End);
    assert_eq!(app.cursor, 99);
}

#[test]
fn count_prefix_multiplies_a_motion() {
    let mut app = viewer(vec![0; 100]);
    typed(&mut app, "12");
    assert_eq!(app.count_prefix, Some(12));
    press(&mut app, KeyCode::Right);
    assert_eq!(app.cursor, 12);
    assert_eq!(app.count_prefix, None);
    typed(&mut app, "2");
    press(&mut app, KeyCode::Down);
    assert_eq!(app.cursor, 44);
}

#[test]
fn page_keys_scroll_a_screen() {
    let mut app = viewer(vec![0; 1000]);
    press(&mut app, KeyCode::PageDown);
    assert_eq!(app.cursor, 19 * 16);
    assert_eq!(app.scroll_offset, 0);
    press(&mut app, KeyCode::PageDown);
    assert_eq!(app.cursor, 38 * 16);
    assert_eq!(app.scroll_offset, 38 - 19);
    press(&mut app, KeyCode::PageUp);
    assert_eq!(app.cursor, 19 * 16);
}

#[test]
fn goto_hex_offset() {
    let mut app = viewer(vec![0; 64]);
    typed(&mut app, "g");
    assert_eq!(app.input_mode, InputMode::GotoOffset);
    typed(&mut app, " 0x1A ");
    press(&mut app, KeyCode::Enter);
    assert_eq!(app.cursor, 26);
    assert_eq!(app.bit_cursor, 208);
    assert_eq!(app.input_mode, InputMode::Normal);
    assert_eq!(app.goto_input, "");
}

#[test]
fn goto_reads_the_status_bar_offsets_back() {
    let mut app = viewer(vec![0; 64]);
    typed(&mut app, "g");
    typed(&mut app, "0x0000002A");
    press(&mut app, KeyCode::Enter);
    assert_eq!(app.cursor, 42);
    typed(&mut app, "g");
    typed(&mut app, "7");
    press(&mut app, KeyCode::Enter);
    assert_eq!(app.cursor, 7);
}

#[test]
fn goto_outside_the_file_or_garbled_stays_put() {
    let mut app = viewer(vec![0; 64]);
    typed(&mut app, "g64");
    press(&mut app, KeyCode::Enter);
    assert_eq!(app.cursor, 0);
    assert_eq!(app.input_mode, InputMode::Normal);
    typed(&mut app, "g1z");
    press(&mut app, KeyCode::Backspace);
    press(&mut app, KeyCode::Enter);
    assert_eq!(app.cursor, 1);
    typed(&mut app, "gzz");
    press(&mut app, KeyCode::Enter);
    assert_eq!(app.cursor, 1);
    typed(&mut app, "g5");
    press(&mut app, KeyCode::Esc);
    assert_eq!(app.cursor, 1);
    assert_eq!(app.goto_input, "");
}

#[test]
fn search_input_parsing() {
    assert_eq!(App::parse_search_input("DE ad"), Some((vec![0xde, 0xad], true)));
    assert_eq!(App::parse_search_input("  hello "), Some((b"hello".to_vec(), false)));
    assert_eq!(App::parse_search_input("DEA"), Some((b"DEA".to_vec(), false)));
    assert_eq!(App::parse_search_input("zz 01"), Some((b"zz 01".to_vec(), false)));
    assert_eq!(App::parse_search_input("   "), None);
}

#[test]
fn forward_and_backward_search_wrap() {
    let mut app = viewer(b"abcabc".to_vec());
    app.search_pattern = Some(b"bc".to_vec());
    assert_eq!(app.search_forward(0), Some(1));
    assert_eq!(app.search_forward(1), Some(4));
    assert_eq!(app.search_forward(4), Some(1));
    assert_eq!(app.search_backward(4), Some(1));
    assert_eq!(app.search_backward(1), Some(4));
    assert_eq!(app.search_backward(0), Some(4));
    assert_eq!(app.search_backward(100), Some(4));
    app.search_pattern = Some(b"zz".to_vec());
    assert_eq!(app.search_forward(0), None);
    app.search_pattern = None;
    assert_eq!(app.search_forward(0), None);
}

#[test]
fn typed_search_selects_each_match() {
    let mut app = viewer(vec![0, 0xde, 0xad, 0, 0xde, 0xad]);
    typed(&mut app, "/DE AD");
    assert_eq!(app.input_mode, InputMode::SearchInput);
    press(&mut app, KeyCode::Enter);
    assert_eq!(app.input_mode, InputMode::Normal);
    assert_eq!(app.cursor, 1);
    assert_eq!(app.selection_range(), (1, 2));
    assert_eq!(app.selected_bytes(), &[0xde, 0xad]);
    assert!(app.search_was_hex);
    typed(&mut app, "n");
    assert_eq!(app.selection_range(), (4, 5));
    typed(&mut app, "n");
    assert_eq!(app.cursor, 1);
    typed(&mut app, "#");
    assert_eq!(app.cursor, 4);
    typed(&mut app, "N");
    assert_eq!(app.cursor, 1);
}

#[test]
fn ascii_search_and_no_match() {
    let mut app = viewer(b"say hello".to_vec());
    typed(&mut app, "/hello");
    press(&mut app, KeyCode::Enter);
    assert_eq!(app.selection_range(), (4, 8));
    assert!(!app.search_was_hex);
    let mut other = viewer(b"abc".to_vec());
    typed(&mut other, "/xyz");
    press(&mut other, KeyCode::Enter);
    assert_eq!(other.cursor, 0);
    assert_eq!(other.input_mode, InputMode::Normal);
    assert_eq!(other.search_pattern, Some(b"xyz".to_vec()));
}

#[test]
fn search_escape_forgets_the_pattern() {
    let mut app = viewer(b"abc".to_vec());
    typed(&mut app, "/ab");
    press(&mut app, KeyCode::Esc);
    assert_eq!(app.search_input, "");
    assert_eq!(app.search_pattern, None);
    assert_eq!(app.input_mode, InputMode::Normal);
}

#[test]
fn star_searches_the_selected_bytes() {
    let mut app = viewer(vec![1, 2, 9, 1, 2]);
    typed(&mut app, "v");
    press(&mut app, KeyCode::Right);
    assert_eq!(app.selection_range(), (0, 1));
    typed(&mut app, "*");
    assert_eq!(app.search_input, "01 02");
    assert!(app.search_was_hex);
    assert_eq!(app.cursor, 3);
    assert_eq!(app.selection_range(), (3, 4));
    assert_eq!(App::parse_search_input(&app.search_input), Some((vec![1, 2], true)));
}

#[test]
fn chunk_steps_without_a_pattern() {
    let mut app = viewer(vec![0; 10]);
    typed(&mut app, "v");
    press(&mut app, KeyCode::Right);
    typed(&mut app, "v");
    assert_eq!(app.input_mode, InputMode::Normal);
    typed(&mut app, "n");
    assert_eq!(app.selection_range(), (2, 3));
    assert_eq!(app.cursor, 2);
    typed(&mut app, "3n");
    assert_eq!(app.selection_range(), (8, 9));
    typed(&mut app, "n");
    assert_eq!(app.selection_range(), (9, 9));
    typed(&mut app, "N");
    assert_eq!(app.selection_range(), (8, 8));
}

#[test]
fn escape_clears_the_selection() {
    let mut app = viewer(vec![0; 10]);
    typed(&mut app, "v");
    press(&mut app, KeyCode::Right);
    press(&mut app, KeyCode::Esc);
    assert_eq!(app.input_mode, InputMode::Normal);
    assert_eq!(app.selection_anchor, None);
    assert_eq!(app.selection_range(), (1, 1));
}

#[test]
fn bit_mode_selects_bits() {
    let mut app = viewer(vec![0xf0, 0x0f]);
    press(&mut app, KeyCode::Right);
    typed(&mut app, "b");
    assert_eq!(app.mode, SelectionMode::Bit);
    assert_eq!(app.bit_cursor, 8);
    typed(&mut app, "v");
    press(&mut app, KeyCode::Right);
    press(&mut app, KeyCode::Right);
    assert_eq!(app.bit_selection(), (8, 3));
    press(&mut app, KeyCode::End);
    assert_eq!(app.bit_cursor, 15);
    typed(&mut app, "b");
    assert_eq!(app.mode, SelectionMode::Byte);
}

#[test]
fn split_keys_ignore_a_typed_count() {
    let mut app = viewer(vec![0; 10]);
    typed(&mut app, "7[");
    assert_eq!(app.decode_panel_pct, 45);
    assert_eq!(app.count_prefix, None);
    typed(&mut app, "99]");
    assert_eq!(app.decode_panel_pct, 50);
    app.decode_panel_pct = 88;
    typed(&mut app, "3]");
    assert_eq!(app.decode_panel_pct, 90);
}

#[test]
fn layout_keys() {
    let mut app = viewer(vec![0; 10]);
    typed(&mut app, "w");
    assert_eq!(app.bytes_per_row, 32);
    typed(&mut app, "w");
    assert_eq!(app.bytes_per_row, 16);
    typed(&mut app, "[");
    assert_eq!(app.decode_panel_pct, 45);
    typed(&mut app, "]]]]]]]]]]");
    assert_eq!(app.decode_panel_pct, 90);
    app.decode_panel_pct = 12;
    typed(&mut app, "[");
    assert_eq!(app.decode_panel_pct, 10);
    typed(&mut app, "}");
    assert_eq!(app.stats_scroll_offset, 0);
    typed(&mut app, "s");
    assert!(app.show_stats_panel);
    typed(&mut app, "}}{");
    assert_eq!(app.stats_scroll_offset, 3);
    typed(&mut app, "s");
    assert!(!app.show_stats_panel);
    assert_eq!(app.stats_scroll_offset, 0);
}

#[test]
fn help_closes_on_any_key() {
    let mut app = viewer(vec![0; 10]);
    typed(&mut app, "?");
    assert_eq!(app.input_mode, InputMode::Help);
    press(&mut app, KeyCode::Right);
    assert_eq!(app.input_mode, InputMode::Normal);
    assert_eq!(app.cursor, 0);
}

#[test]
fn mouse_wheel_scrolls_the_panel_under_it() {
    let mut app = viewer(vec![0; 1000]);
    let hex = Area { x: 0, y: 0, width: 40, height: 12 };
    let dec = Area { x: 40, y: 0, width: 40, height: 12 };
    app.set_layout(hex, dec, None);
    assert_eq!(app.visible_rows, 10);
    assert_eq!(app.total_rows(), 63);
    app.handle_mouse_scroll(5, 5, false);
    assert_eq!(app.scroll_offset, 3);
    app.scroll_offset = 52;
    app.handle_mouse_scroll(5, 5, false);
    assert_eq!(app.scroll_offset, 53);
    app.handle_mouse_scroll(5, 5, true);
    assert_eq!(app.scroll_offset, 50);
    app.handle_mouse_scroll(45, 2, false);
    assert_eq!(app.decode_scroll_offset, 3);
    app.handle_mouse_scroll(45, 2, true);
    app.handle_mouse_scroll(45, 2, true);
    assert_eq!(app.decode_scroll_offset, 0);
    app.handle_mouse_scroll(200, 2, false);
    assert_eq!(app.scroll_offset, 50);
    assert_eq!(app.decode_scroll_offset, 0);
}

#[test]
fn mouse_wheel_leaves_the_stats_panel_alone() {
    let mut app = viewer(vec![0; 10]);
    let hex = Area { x: 0, y: 0, width: 40, height: 12 };
    let dec = Area { x: 40, y: 0, width: 40, height: 6 };
    let stats = Area { x: 40, y: 6, width: 40, height: 6 };
    app.set_layout(hex, dec, Some(stats));
    app.handle_mouse_scroll(41, 7, false);
    assert_eq!(app.stats_scroll_offset, 0);
    assert_eq!(app.decode_scroll_offset, 0);
}

fn with_decoders() -> App {
    let mut app = viewer(vec![0; 10]);
    app.register_decoder("Built-in".to_string(), DecoderSource::Builtin, Vec::new());
    app.register_decoder(
        "fmt".to_string(),
        DecoderSource::Lua,
        vec![
            param("flag", ParamType::Bool, "false"),
            param("kind", ParamType::Choice(vec!["a".to_string(), "b".to_string()]), "a"),
            param("n", ParamType::Int, "1"),
        ],
    );
    app
}

#[test]
fn settings_rows_and_targets() {
    let mut app = with_decoders();
    assert_eq!(app.settings_row_count(), 5);
    assert_eq!(app.settings_cursor_target(), Some((0, None)));
    app.decoder_settings_cursor = 3;
    assert_eq!(app.settings_cursor_target(), Some((1, Some(1))));
    app.decoder_settings_cursor = 5;
    assert_eq!(app.settings_cursor_target(), None);
    assert!(app.is_decoder_enabled("fmt", &DecoderSource::Lua));
    assert!(app.is_decoder_enabled("unknown", &DecoderSource::Wasm));
    assert!(app.is_builtin_enabled());
    assert_eq!(
        app.decoder_params("fmt", &DecoderSource::Lua),
        vec![
            ("flag".to_string(), "false".to_string()),
            ("kind".to_string(), "a".to_string()),
            ("n".to_string(), "1".to_string()),
        ]
    );
    assert!(app.decoder_params("fmt", &DecoderSource::Wasm).is_empty());
}

#[test]
fn settings_keys_toggle_cycle_and_edit() {
    let mut app = with_decoders();
    typed(&mut app, "d");
    assert_eq!(app.input_mode, InputMode::DecoderSettings);
    typed(&mut app, " ");
    assert!(!app.is_builtin_enabled());
    press(&mut app, KeyCode::Down);
    press(&mut app, KeyCode::Enter);
    assert!(!app.is_decoder_enabled("fmt", &DecoderSource::Lua));
    press(&mut app, KeyCode::Down);
    typed(&mut app, " ");
    assert_eq!(app.decoders[1].params[0].value, "true");
    press(&mut app, KeyCode::Enter);
    assert_eq!(app.decoders[1].params[0].value, "false");
    press(&mut app, KeyCode::Down);
    press(&mut app, KeyCode::Enter);
    assert_eq!(app.decoders[1].params[1].value, "b");
    press(&mut app, KeyCode::Enter);
    assert_eq!(app.decoders[1].params[1].value, "a");
    typed(&mut app, " ");
    assert_eq!(app.decoders[1].params[1].value, "a");
    press(&mut app, KeyCode::Down);
    press(&mut app, KeyCode::Down);
    assert_eq!(app.decoder_settings_cursor, 4);
    press(&mut app, KeyCode::Enter);
    assert_eq!(app.input_mode, InputMode::ParamEdit);
    assert_eq!(app.param_edit_input, "1");
    press(&mut app, KeyCode::Backspace);
    typed(&mut app, "x");
    press(&mut app, KeyCode::Enter);
    assert_eq!(app.input_mode, InputMode::DecoderSettings);
    assert_eq!(app.decoders[1].params[2].value, "1");
    press(&mut app, KeyCode::Enter);
    typed(&mut app, "-2");
    press(&mut app, KeyCode::Enter);
    assert_eq!(app.decoders[1].params[2].value, "1");
    press(&mut app, KeyCode::Enter);
    press(&mut app, KeyCode::Backspace);
    press(&mut app, KeyCode::Backspace);
    press(&mut app, KeyCode::Backspace);
    typed(&mut app, "-7");
    press(&mut app, KeyCode::Enter);
    assert_eq!(app.decoders[1].params[2].value, "-7");
    press(&mut app, KeyCode::Enter);
    press(&mut app, KeyCode::Esc);
    assert_eq!(app.input_mode, InputMode::DecoderSettings);
    assert_eq!(app.param_edit_input, "");
    typed(&mut app, "q");
    assert_eq!(app.input_mode, InputMode::Normal);
    assert!(!app.quit);
}

#[test]
fn text_parameters_take_any_text() {
    let mut app = viewer(vec![0; 4]);
    app.register_decoder("p".to_string(), DecoderSource::Wasm, vec![param("s", ParamType::String, "")]);
    typed(&mut app, "d");
    press(&mut app, KeyCode::Down);
    press(&mut app, KeyCode::Enter);
    typed(&mut app, "hi there");
    press(&mut app, KeyCode::Enter);
    assert_eq!(app.decoders[0].params[0].value, "hi there");
    press(&mut app, KeyCode::Down);
    assert_eq!(app.decoder_settings_cursor, 1);
    press(&mut app, KeyCode::Up);
    press(&mut app, KeyCode::Up);
    assert_eq!(app.decoder_settings_cursor, 0);
}

fn ranged(label: &str, offset: usize, length: usize) -> DecodedValue {
    DecodedValue::new(label.to_string(), String::new()).with_range(offset, length)
}

#[test]
fn tab_moves_the_decode_focus_over_ranged_fields() {
    let mut app = viewer(vec![0; 40]);
    app.decode_entries = vec![
        DecodedValue::new("plain".to_string(), String::new()),
        ranged("a", 0, 2),
        ranged("b", 2, 2),
    ];
    press(&mut app, KeyCode::Tab);
    assert_eq!(app.decode_focus, Some(1));
    press(&mut app, KeyCode::Tab);
    assert_eq!(app.decode_focus, Some(2));
    press(&mut app, KeyCode::Tab);
    assert_eq!(app.decode_focus, Some(1));
    press(&mut app, KeyCode::BackTab);
    assert_eq!(app.decode_focus, Some(2));
    assert_eq!(app.focused_range(), Some((2, 3)));
    press(&mut app, KeyCode::Esc);
    assert_eq!(app.decode_focus, None);
}

#[test]
fn shift_tab_undoes_tab_on_a_focused_field() {
    let mut app = viewer(vec![0; 40]);
    app.decode_entries = vec![
        ranged("a", 0, 2),
        DecodedValue::new("plain".to_string(), String::new()),
        ranged("b", 2, 2),
        DecodedValue::new("tail".to_string(), String::new()),
    ];
    for start in [0usize, 2] {
        app.decode_focus = Some(start);
        press(&mut app, KeyCode::Tab);
        assert_ne!(app.decode_focus, Some(start));
        press(&mut app, KeyCode::BackTab);
        assert_eq!(app.decode_focus, Some(start));
    }
}

#[test]
fn highlights_follow_the_selection_start() {
    let mut app = viewer(vec![0; 20]);
    app.selection_anchor = Some(4);
    app.selection_end = Some(9);
    app.decode_entries = vec![ranged("a", 0, 2), DecodedValue::new("x".to_string(), String::new()), ranged("b", 1, 30), ranged("z", 3, 0)];
    assert_eq!(app.active_range_highlights(), vec![(4, 5, 0), (5, 19, 1)]);
    app.decode_focus = Some(2);
    assert_eq!(app.focused_range(), Some((5, 19)));
    app.decode_focus = Some(3);
    assert_eq!(app.focused_range(), None);
}

#[test]
fn loading_strategy_by_size() {
    assert_eq!(load_strategy(0), LoadStrategy::Empty);
    assert_eq!(load_strategy(1), LoadStrategy::Read);
    assert_eq!(load_strategy(1_048_575), LoadStrategy::Read);
    assert_eq!(load_strategy(1_048_576), LoadStrategy::MapFile);
}

#[test]
fn mapped_buffer_shows_the_mapped_bytes() {
    let mut m = memmap2::MmapOptions::new().len(4).map_anon().unwrap();
    m.copy_from_slice(&[9, 8, 7, 6]);
    let buf = FileBuffer::Mmap(m.make_read_only().unwrap());
    assert_eq!(buf.data(), &[9, 8, 7, 6]);
    assert_eq!(buf.len(), 4);
    assert!(!buf.is_empty());
    assert!(FileBuffer::Vec(Vec::new()).is_empty());
}

#[test]
fn focus_moves_are_previewed() {
    let mut app = viewer(vec![0; 40]);
    app.decode_entries = vec![ranged("a", 0, 2), DecodedValue::new("plain".to_string(), String::new()), ranged("b", 2, 2)];
    assert_eq!(app.focus_after(true), Some(0));
    assert_eq!(app.focus_after(false), Some(2));
    app.decode_focus = Some(0);
    assert_eq!(app.focus_after(true), Some(2));
    assert_eq!(app.focus_after(false), Some(2));
    assert!(app.focus_key_ok(true));
    assert_eq!(app.range_at_focus(Some(2)), Some((2, 3)));
    assert_eq!(app.range_at_focus(Some(1)), None);
}
