//! Keys and mouse scrolling in every input mode.
//!
//! [`App::handle_key`] hands a key to the handler of the current
//! [`InputMode`]; each handler is specified as a function from the viewer's
//! model and the key to the next model.

use vstd::prelude::*;

use super::search::{next_matches, prev_matches, searched, searched_selection};
use super::selection::{
    after_move, chunk_backward, chunk_forward, cleared, cursor_moved, focus_next, focus_prev, focus_scroll_ok,
    follow_selection, min_int, scrolled_to_cursor, scrolled_to_focus, step_within,
};
use super::types::{string_views, str_eq, InputMode, ParamType, SelectionMode};
use super::{
    decoder_model, decoders_model, model_wf, param_model, params_model, rows_for, settings_rows,
    settings_target, settings_target_from, App, AppModel, Area, DecoderModel, ParamModel,
};
use crate::decode::json::{chars_of, trim_chars, trimmed};
use crate::decode::types::Endian;
use crate::decode::json::{is_ws, trim_end, trim_start};
use crate::text::{
    all_digits, dec_digits, digit_in, digits_val, hex_digits, lemma_dec_digits_value,
    lemma_hex_digits_value, lemma_leading_zeros, padded_left, parse_unsigned, parsed_i64,
    parsed_unsigned, parses_as_i64, pop_char, push_char,
};

verus! {

/// A key, as the viewer tells keys apart.
#[derive(Clone, Copy, PartialEq, Eq, Structural, Debug)]
pub enum KeyCode {
    /// A printable character.
    Char(char),
    Enter,
    Esc,
    Backspace,
    Tab,
    /// Shift+Tab.
    BackTab,
    Left,
    Right,
    Up,
    Down,
    PageUp,
    PageDown,
    Home,
    End,
    /// Any other key; ignored.
    Other,
}

/// A key press: the key and whether Shift was held.
#[derive(Clone, Copy, PartialEq, Eq, Structural, Debug)]
pub struct KeyEvent {
    pub code: KeyCode,
    pub shift: bool,
}

/// Text after a key at a prompt: Backspace drops the last character, a
/// character is appended, other keys leave it.
pub open spec fn edited(s: Seq<char>, code: KeyCode) -> Seq<char> {
    match code {
        KeyCode::Backspace => if s.len() > 0 {
            s.drop_last()
        } else {
            s
        },
        KeyCode::Char(c) => s.push(c),
        _ => s,
    }
}

/// Applies a key to prompt text; see [`edited`].
fn edit_text(s: &mut String, code: KeyCode)
    ensures
        final(s)@ == edited(old(s)@, code),
{
    match code {
        KeyCode::Backspace => pop_char(s),
        KeyCode::Char(c) => push_char(s, c),
        _ => {},
    }
}

/// The offset typed at the goto prompt: hexadecimal after `0x` or `0X`,
/// decimal otherwise, surrounding whitespace ignored; nothing when it does
/// not read as a `usize`.
pub open spec fn goto_target(input: Seq<char>) -> Option<nat> {
    let t = trimmed(input);
    if t.len() >= 2 && t[0] == '0' && (t[1] == 'x' || t[1] == 'X') {
        parsed_unsigned(t.skip(2), true, usize::MAX as nat)
    } else {
        parsed_unsigned(t, false, usize::MAX as nat)
    }
}

/// Enter at the goto prompt: the prompt is cleared, and an offset within the
/// file moves the cursor there (bit cursor to its first bit), scrolled into view.
pub open spec fn goto_applied(m: AppModel) -> AppModel {
    let m1 = AppModel { goto_input: Seq::empty(), ..m };
    match goto_target(m.goto_input) {
        Some(off) => if off < m.data.len() {
            scrolled_to_cursor(
                AppModel {
                    cursor: off as usize,
                    bit_cursor: (off * 8) as usize,
                    input_mode: InputMode::Normal,
                    ..m1
                },
            )
        } else {
            m1
        },
        None => m1,
    }
}

/// A key at the goto prompt: Esc cancels, Enter jumps and closes the prompt,
/// other keys edit the text.
pub open spec fn goto_key(m: AppModel, code: KeyCode) -> AppModel {
    match code {
        KeyCode::Esc => AppModel { input_mode: InputMode::Normal, goto_input: Seq::empty(), ..m },
        KeyCode::Enter => AppModel { input_mode: InputMode::Normal, ..goto_applied(m) },
        _ => AppModel { goto_input: edited(m.goto_input, code), ..m },
    }
}

/// A key at the search prompt: Esc cancels and forgets the pattern (so `n`
/// and `N` step through chunks again), Enter searches, other keys edit the text.
pub open spec fn search_key(m: AppModel, code: KeyCode) -> AppModel {
    match code {
        KeyCode::Esc => AppModel {
            input_mode: InputMode::Normal,
            search_input: Seq::empty(),
            search_pattern: None,
            ..m
        },
        KeyCode::Enter => searched(m),
        _ => AppModel { search_input: edited(m.search_input, code), ..m },
    }
}

/// The models with decoder `di` switched on or off.
pub open spec fn with_toggled(m: AppModel, di: int) -> AppModel {
    AppModel {
        decoders: m.decoders.update(di, DecoderModel { enabled: !m.decoders[di].enabled, ..m.decoders[di] }),
        ..m
    }
}

/// The models with parameter `pi` of decoder `di` set to `v`.
pub open spec fn with_param_value(m: AppModel, di: int, pi: int, v: Seq<char>) -> AppModel {
    let d = m.decoders[di];
    AppModel {
        decoders: m.decoders.update(
            di,
            DecoderModel { params: d.params.update(pi, ParamModel { value: v, ..d.params[pi] }), ..d },
        ),
        ..m
    }
}

/// A boolean parameter flipped: `"true"` becomes `"false"`, anything else `"true"`.
pub open spec fn flipped_bool(v: Seq<char>) -> Seq<char> {
    if v == "true"@ {
        "false"@
    } else {
        "true"@
    }
}

/// The first index at or after `k` holding `v`.
pub open spec fn index_from(cs: Seq<Seq<char>>, v: Seq<char>, k: int) -> Option<int>
    decreases cs.len() - k,
{
    if k < 0 || k >= cs.len() {
        None
    } else if cs[k] == v {
        Some(k)
    } else {
        index_from(cs, v, k + 1)
    }
}

/// The choice after the current value, wrapping around; the second choice
/// when the value is none of them.
pub open spec fn next_choice(cs: Seq<Seq<char>>, v: Seq<char>) -> Seq<char> {
    let i = match index_from(cs, v, 0) {
        Some(i) => i,
        None => 0,
    };
    cs[(i + 1) % (cs.len() as int)]
}

/// Space in the settings popup: switches the decoder under the cursor on or
/// off, or flips a boolean parameter under it.
pub open spec fn settings_space(m: AppModel) -> AppModel {
    match settings_target(m.decoders, m.decoder_settings_cursor as int) {
        Some((di, None)) => with_toggled(m, di as int),
        Some((di, Some(pi))) => if m.decoders[di as int].params[pi as int].param_type is Bool {
            with_param_value(
                m,
                di as int,
                pi as int,
                flipped_bool(m.decoders[di as int].params[pi as int].value),
            )
        } else {
            m
        },
        None => m,
    }
}

/// Enter in the settings popup: switches a decoder on or off, flips a boolean
/// parameter, cycles a choice parameter, or opens a text or integer
/// parameter for editing with its current value.
pub open spec fn settings_enter(m: AppModel) -> AppModel {
    match settings_target(m.decoders, m.decoder_settings_cursor as int) {
        Some((di, None)) => with_toggled(m, di as int),
        Some((di, Some(pi))) => {
            let p = m.decoders[di as int].params[pi as int];
            match p.param_type {
                ParamType::Bool => with_param_value(m, di as int, pi as int, flipped_bool(p.value)),
                ParamType::Choice(cs) => with_param_value(
                    m,
                    di as int,
                    pi as int,
                    next_choice(string_views(cs@), p.value),
                ),
                _ => AppModel { param_edit_input: p.value, input_mode: InputMode::ParamEdit, ..m },
            }
        },
        None => m,
    }
}

/// A key in the settings popup: Esc, `d` or `q` closes it; Up and Down move
/// the cursor within the rows; Space and Enter act on the row.
pub open spec fn settings_key(m: AppModel, code: KeyCode) -> AppModel {
    let rows = settings_rows(m.decoders);
    let cur = m.decoder_settings_cursor;
    match code {
        KeyCode::Esc | KeyCode::Char('d') | KeyCode::Char('q') => AppModel {
            input_mode: InputMode::Normal,
            ..m
        },
        KeyCode::Up => if cur > 0 {
            AppModel { decoder_settings_cursor: (cur - 1) as usize, ..m }
        } else {
            m
        },
        KeyCode::Down => if rows > 0 && cur < rows - 1 {
            AppModel { decoder_settings_cursor: (cur + 1) as usize, ..m }
        } else {
            m
        },
        KeyCode::Char(' ') => settings_space(m),
        KeyCode::Enter => settings_enter(m),
        _ => m,
    }
}

/// Whether a settings key can be handled: the rows can be counted, and Enter
/// on a choice parameter finds at least one choice to cycle to.
pub open spec fn settings_key_ok(m: AppModel, code: KeyCode) -> bool {
    &&& settings_rows(m.decoders) <= usize::MAX
    &&& code == KeyCode::Enter ==> match settings_target(
        m.decoders,
        m.decoder_settings_cursor as int,
    ) {
        Some((di, Some(pi))) => m.decoders[di as int].params[pi as int].param_type matches ParamType::Choice(
            cs,
        ) ==> cs@.len() > 0,
        _ => true,
    }
}

/// Enter while editing a parameter: the typed text becomes its value, except
/// that an integer parameter only takes text that reads as an `i64` or is
/// empty; the popup returns to the list either way.
pub open spec fn param_committed(m: AppModel) -> AppModel {
    let v = m.param_edit_input;
    let m1 = match settings_target(m.decoders, m.decoder_settings_cursor as int) {
        Some((di, Some(pi))) => if m.decoders[di as int].params[pi as int].param_type is Int && !(
        parsed_i64(v) is Some || v.len() == 0) {
            m
        } else {
            with_param_value(m, di as int, pi as int, v)
        },
        _ => m,
    };
    AppModel { input_mode: InputMode::DecoderSettings, param_edit_input: Seq::empty(), ..m1 }
}

/// A key while editing a parameter: Esc cancels, Enter commits, other keys edit the text.
pub open spec fn param_edit_key(m: AppModel, code: KeyCode) -> AppModel {
    match code {
        KeyCode::Esc => AppModel {
            input_mode: InputMode::DecoderSettings,
            param_edit_input: Seq::empty(),
            ..m
        },
        KeyCode::Enter => param_committed(m),
        _ => AppModel { param_edit_input: edited(m.param_edit_input, code), ..m },
    }
}

/// The count typed before a key, 1 when none was typed.
pub open spec fn count_of(m: AppModel) -> nat {
    match m.count_prefix {
        Some(c) => c as nat,
        None => 1,
    }
}

/// A digit typed in normal mode: appended to the count, which saturates at `usize::MAX`.
pub open spec fn with_digit(m: AppModel, d: int) -> AppModel {
    let prev = match m.count_prefix {
        Some(c) => c as int,
        None => 0,
    };
    AppModel { count_prefix: Some(min_int(prev * 10 + d, usize::MAX as int) as usize), ..m }
}

/// Whether a key moves the cursor.
pub open spec fn is_motion(code: KeyCode) -> bool {
    match code {
        KeyCode::Left | KeyCode::Right | KeyCode::Up | KeyCode::Down | KeyCode::PageUp
        | KeyCode::PageDown => true,
        _ => false,
    }
}

/// How far a motion key moves the cursor once: a position left or right, a
/// row up or down (fifty rows with Shift), or a screenful less one row.
pub open spec fn motion_step(m: AppModel, code: KeyCode, shift: bool) -> int {
    let row = m.bytes_per_row as int;
    let rows: int = if shift {
        50
    } else {
        1
    };
    let page = sat_sub(m.visible_rows as int, 1) * row;
    match code {
        KeyCode::Left => -1,
        KeyCode::Right => 1,
        KeyCode::Up => -(rows * row),
        KeyCode::Down => rows * row,
        KeyCode::PageUp => -page,
        KeyCode::PageDown => page,
        _ => 0,
    }
}

/// `b` switches between byte and bit mode, clearing the selection; entering
/// bit mode puts the bit cursor on the cursor byte's first bit.
pub open spec fn mode_switched(m: AppModel) -> AppModel {
    match m.mode {
        SelectionMode::Byte => cleared(
            AppModel { bit_cursor: (m.cursor * 8) as usize, mode: SelectionMode::Bit, ..m },
        ),
        SelectionMode::Bit => cleared(AppModel { mode: SelectionMode::Byte, ..m }),
    }
}

/// `v` leaves select mode keeping the selection, or enters it with the
/// selection anchored at the cursor (byte or bit).
pub open spec fn select_switched(m: AppModel) -> AppModel {
    if m.input_mode == InputMode::Selecting {
        AppModel { input_mode: InputMode::Normal, ..m }
    } else {
        match m.mode {
            SelectionMode::Byte => AppModel {
                input_mode: InputMode::Selecting,
                selection_anchor: Some(m.cursor),
                selection_end: Some(m.cursor),
                ..m
            },
            SelectionMode::Bit => AppModel {
                input_mode: InputMode::Selecting,
                bit_selection_anchor: Some(m.bit_cursor),
                bit_selection_end: Some(m.bit_cursor),
                ..m
            },
        }
    }
}

/// Home: the cursor (the bit cursor in bit mode) to the start of the file.
pub open spec fn went_home(m: AppModel) -> AppModel {
    scrolled_to_cursor(
        follow_selection(
            match m.mode {
                SelectionMode::Byte => AppModel { cursor: 0, ..m },
                SelectionMode::Bit => AppModel { bit_cursor: 0, ..m },
            },
        ),
    )
}

/// End: the cursor to the last byte (the bit cursor to its last bit in bit mode).
pub open spec fn went_end(m: AppModel) -> AppModel {
    let last = sat_sub(m.data.len() as int, 1);
    scrolled_to_cursor(
        follow_selection(
            match m.mode {
                SelectionMode::Byte => AppModel { cursor: last as usize, ..m },
                SelectionMode::Bit => AppModel { bit_cursor: (last * 8 + 7) as usize, ..m },
            },
        ),
    )
}

/// Esc: drops the decode focus if there is one; otherwise leaves select mode
/// and clears the selection.
pub open spec fn escaped(m: AppModel) -> AppModel {
    if m.decode_focus is Some {
        AppModel { decode_focus: None, ..m }
    } else if m.input_mode == InputMode::Selecting {
        cleared(AppModel { input_mode: InputMode::Normal, ..m })
    } else {
        cleared(m)
    }
}

/// Whether a key moves, searches or jumps.
pub open spec fn is_navigation(code: KeyCode) -> bool {
    match code {
        KeyCode::Char('n') | KeyCode::Char('N') | KeyCode::Char('*') | KeyCode::Char('#')
        | KeyCode::Home | KeyCode::End | KeyCode::Tab | KeyCode::BackTab => true,
        _ => false,
    }
}

/// Whether a key changes the layout.
pub open spec fn is_layout(code: KeyCode) -> bool {
    match code {
        KeyCode::Char('s') | KeyCode::Char('w') | KeyCode::Char('[') | KeyCode::Char(']')
        | KeyCode::Char('{') | KeyCode::Char('}') => true,
        _ => false,
    }
}

/// Keys that move, search or jump, with the count `n`: `n` and `N` step
/// through search matches, or through selection-sized chunks without a search
/// pattern; `*` searches for the selection; `#` steps back through matches;
/// Home and End; Tab and Shift+Tab move the decode focus.
pub open spec fn navigation_cmd(m: AppModel, code: KeyCode, n: nat) -> AppModel {
    match code {
        KeyCode::Char('n') => if m.search_pattern is Some {
            next_matches(m, n)
        } else {
            chunk_forward(m, n as int)
        },
        KeyCode::Char('N') => if m.search_pattern is Some {
            prev_matches(m, n)
        } else {
            chunk_backward(m, n as int)
        },
        KeyCode::Char('*') => searched_selection(m),
        KeyCode::Char('#') => prev_matches(m, n),
        KeyCode::Home => went_home(m),
        KeyCode::End => went_end(m),
        KeyCode::Tab => scrolled_to_focus(focus_next(m)),
        KeyCode::BackTab => scrolled_to_focus(focus_prev(m)),
        _ => m,
    }
}

/// Keys that change the layout: `s` shows or hides the stats panel, `w`
/// switches between 16 and 32 bytes per row, `[` and `]` narrow and widen the
/// decode panel within 10 to 90 percent, `{` and `}` scroll the stats panel.
pub open spec fn layout_cmd(m: AppModel, code: KeyCode) -> AppModel {
    match code {
        KeyCode::Char('s') => AppModel {
            show_stats_panel: !m.show_stats_panel,
            stats_scroll_offset: 0,
            ..m
        },
        KeyCode::Char('w') => scrolled_to_cursor(
            AppModel {
                bytes_per_row: if m.bytes_per_row == 16 {
                    32
                } else {
                    16
                },
                ..m
            },
        ),
        KeyCode::Char('[') => AppModel {
            decode_panel_pct: if m.decode_panel_pct >= 15 {
                (m.decode_panel_pct - 5) as u16
            } else {
                10
            },
            ..m
        },
        KeyCode::Char(']') => AppModel {
            decode_panel_pct: min_int(m.decode_panel_pct + 5, 90) as u16,
            ..m
        },
        KeyCode::Char('{') => if m.show_stats_panel {
            AppModel { stats_scroll_offset: sat_sub(m.stats_scroll_offset as int, 3) as usize, ..m }
        } else {
            m
        },
        KeyCode::Char('}') => if m.show_stats_panel {
            AppModel { stats_scroll_offset: (m.stats_scroll_offset + 3) as usize, ..m }
        } else {
            m
        },
        _ => m,
    }
}

/// Keys that quit, switch modes or open prompts: `q`, `?` for help, `e` for
/// the byte order, `b`, `v`, `/` for search, `g` for goto, `d` for the
/// decoder settings, and Esc.
pub open spec fn mode_cmd(m: AppModel, code: KeyCode) -> AppModel {
    match code {
        KeyCode::Char('q') | KeyCode::Char('Q') => AppModel { quit: true, ..m },
        KeyCode::Char('?') => AppModel { input_mode: InputMode::Help, ..m },
        KeyCode::Char('e') => AppModel {
            endian: match m.endian {
                Endian::Little => Endian::Big,
                Endian::Big => Endian::Little,
            },
            ..m
        },
        KeyCode::Char('b') => mode_switched(m),
        KeyCode::Char('v') => select_switched(m),
        KeyCode::Char('/') => AppModel {
            input_mode: InputMode::SearchInput,
            search_input: Seq::empty(),
            ..m
        },
        KeyCode::Char('g') => AppModel {
            input_mode: InputMode::GotoOffset,
            goto_input: Seq::empty(),
            ..m
        },
        KeyCode::Char('d') => AppModel {
            input_mode: InputMode::DecoderSettings,
            decoder_settings_cursor: 0,
            ..m
        },
        KeyCode::Esc => escaped(m),
        _ => m,
    }
}

/// A key other than a digit or a motion in normal or select mode, with the count `n`.
pub open spec fn command(m: AppModel, code: KeyCode, n: nat) -> AppModel {
    if is_navigation(code) {
        navigation_cmd(m, code, n)
    } else if is_layout(code) {
        layout_cmd(m, code)
    } else {
        mode_cmd(m, code)
    }
}

/// A key in normal or select mode: a digit extends the count; any other key
/// uses up the count (1 when none was typed), a motion moving that many
/// steps and `n`, `N`, `#` repeating that many times.
pub open spec fn normal_key(m: AppModel, key: KeyEvent) -> AppModel {
    match key.code {
        KeyCode::Char(c) if '0' <= c <= '9' => with_digit(m, c as int - '0' as int),
        _ => {
            let n = count_of(m);
            let m0 = AppModel { count_prefix: None, ..m };
            if is_motion(key.code) {
                after_move(m0, motion_step(m0, key.code, key.shift) * n)
            } else {
                command(m0, key.code, n)
            }
        },
    }
}

/// Whether a key in normal or select mode can be handled: the stats panel's
/// scroll offset stays within its type, and scrolling to a newly focused
/// decode field has rows to scroll in.
pub open spec fn normal_key_ok(m: AppModel, key: KeyEvent) -> bool {
    let m0 = AppModel { count_prefix: None, ..m };
    match key.code {
        KeyCode::Char('}') => m.show_stats_panel ==> m.stats_scroll_offset + 3 <= usize::MAX,
        KeyCode::Tab => focus_scroll_ok(focus_next(m0)),
        KeyCode::BackTab => focus_scroll_ok(focus_prev(m0)),
        _ => true,
    }
}

/// The effect of a key in whatever mode the viewer is in: in help any key
/// closes it; the other modes hand the key to their handler.
pub open spec fn key_handled(m: AppModel, key: KeyEvent) -> AppModel {
    match m.input_mode {
        InputMode::Help => AppModel { input_mode: InputMode::Normal, ..m },
        InputMode::DecoderSettings => settings_key(m, key.code),
        InputMode::ParamEdit => param_edit_key(m, key.code),
        InputMode::GotoOffset => goto_key(m, key.code),
        InputMode::SearchInput => search_key(m, key.code),
        InputMode::Normal | InputMode::Selecting => normal_key(m, key),
    }
}

/// Whether the key can be handled in the current mode; see
/// [`settings_key_ok`] and [`normal_key_ok`].
pub open spec fn key_ok(m: AppModel, key: KeyEvent) -> bool {
    match m.input_mode {
        InputMode::DecoderSettings => settings_key_ok(m, key.code),
        InputMode::Normal | InputMode::Selecting => normal_key_ok(m, key),
        _ => true,
    }
}

/// The cursor offset the status bar shows in hex (`0x` and at least eight
/// digits), typed at the goto prompt, names that offset again.
pub proof fn lemma_goto_reads_hex_offset(c: usize)
    ensures
        goto_target("0x"@ + padded_left(hex_digits(c as nat), 8, '0')) == Some(c as nat),
{
    let d = hex_digits(c as nat);
    lemma_hex_digits_value(c as nat);
    let p = padded_left(d, 8, '0');
    if d.len() < 8 {
        lemma_leading_zeros((8 - d.len()) as nat, d, true);
    }
    assert(all_digits(p, true) && digits_val(p, true) == c);
    let t = "0x"@ + p;
    reveal_strlit("0x");
    assert(t[0] == '0' && t[1] == 'x');
    assert(digit_in(p.last(), true) is Some);
    assert(!is_ws(t.last()));
    assert(trim_start(t) == t);
    assert(trim_end(t) == t);
    assert(t.skip(2) =~= p);
    assert(digit_in(p[0], true) is Some);
}

/// The decimal cursor offset the status bar shows, typed at the goto
/// prompt, names that offset again.
pub proof fn lemma_goto_reads_decimal_offset(c: usize)
    ensures
        goto_target(dec_digits(c as nat)) == Some(c as nat),
{
    let t = dec_digits(c as nat);
    lemma_dec_digits_value(c as nat);
    assert(digit_in(t[0], false) is Some);
    assert(digit_in(t.last(), false) is Some);
    assert(trim_start(t) == t);
    assert(trim_end(t) == t);
    if t.len() >= 2 {
        assert(digit_in(t[1], false) is Some);
    }
}

/// Pressing `e` twice, with no count typed, gives back the state it started from.
pub proof fn lemma_endian_key_twice(m: AppModel, shift: bool)
    requires
        m.count_prefix is None,
        m.input_mode == InputMode::Normal || m.input_mode == InputMode::Selecting,
    ensures
        key_handled(key_handled(m, KeyEvent { code: KeyCode::Char('e'), shift }), KeyEvent {
            code: KeyCode::Char('e'),
            shift,
        }) == m,
{
}

/// `[` and `]` move the decode panel's share by five points and keep it within
/// 10 to 90 percent, whatever count was typed before them; nothing else changes
/// but the count, which they clear.
pub proof fn lemma_split_keys_stay_in_range(m: AppModel, shift: bool, widen: bool)
    requires
        model_wf(m),
        m.input_mode == InputMode::Normal || m.input_mode == InputMode::Selecting,
    ensures
        ({
            let key = KeyEvent { code: if widen { KeyCode::Char(']') } else { KeyCode::Char('[') }, shift };
            let r = key_handled(m, key);
            &&& 10 <= r.decode_panel_pct <= 90
            &&& r.decode_panel_pct == if widen {
                min_int(m.decode_panel_pct + 5, 90)
            } else {
                if m.decode_panel_pct >= 15 { m.decode_panel_pct - 5 } else { 10 }
            }
            &&& r == AppModel { decode_panel_pct: r.decode_panel_pct, count_prefix: None, ..m }
        }),
{
}

/// The vertical and horizontal motion steps are mirror images: Up moves back
/// exactly as far as Down moves forward (a row, or fifty rows with Shift),
/// Left as Right (one position), Page Up as Page Down (a screenful less a row).
pub proof fn lemma_motion_steps_mirror(m: AppModel, shift: bool)
    ensures
        motion_step(m, KeyCode::Up, shift) == -motion_step(m, KeyCode::Down, shift),
        motion_step(m, KeyCode::Left, shift) == -motion_step(m, KeyCode::Right, shift),
        motion_step(m, KeyCode::PageUp, shift) == -motion_step(m, KeyCode::PageDown, shift),
        motion_step(m, KeyCode::Right, shift) == 1,
        motion_step(m, KeyCode::Down, shift) == (if shift { 50 * m.bytes_per_row } else { m.bytes_per_row as int }),
{
}

/// With no count typed, in byte mode, Shift+Up moves the cursor fifty rows
/// back (stopping at the first byte) and Shift+Down fifty rows on (stopping
/// at the last byte); so away from the ends each undoes the other.
pub proof fn lemma_shift_moves_fifty_rows(m: AppModel)
    requires
        model_wf(m),
        m.input_mode == InputMode::Normal || m.input_mode == InputMode::Selecting,
        m.mode == SelectionMode::Byte,
        m.count_prefix is None,
        m.data.len() > 0,
    ensures
        ({
            let jump = 50 * m.bytes_per_row;
            let up = key_handled(m, KeyEvent { code: KeyCode::Up, shift: true });
            let down = key_handled(m, KeyEvent { code: KeyCode::Down, shift: true });
            &&& up.cursor == (if m.cursor >= jump { m.cursor - jump } else { 0 })
            &&& down.cursor == (if m.cursor + jump <= m.data.len() - 1 { m.cursor + jump } else { m.data.len() - 1 })
            &&& (jump <= m.cursor && m.cursor + jump < m.data.len()) ==> key_handled(
                up,
                KeyEvent { code: KeyCode::Down, shift: true },
            ).cursor == m.cursor
        }),
{
    let jump = 50 * m.bytes_per_row;
    let ku = KeyEvent { code: KeyCode::Up, shift: true };
    let kd = KeyEvent { code: KeyCode::Down, shift: true };
    lemma_shift_key_moves(m, ku, -jump);
    lemma_shift_key_moves(m, kd, jump);
    let up = key_handled(m, ku);
    if jump <= m.cursor && m.cursor + jump < m.data.len() {
        lemma_shift_key_moves(up, kd, jump);
    }
}

/// A motion key in byte mode with no count moves the cursor by its step,
/// stopping at the file's ends, and leaves mode, count and data as they were.
proof fn lemma_shift_key_moves(m: AppModel, key: KeyEvent, step: int)
    requires
        m.input_mode == InputMode::Normal || m.input_mode == InputMode::Selecting,
        m.mode == SelectionMode::Byte,
        m.count_prefix is None,
        m.data.len() > 0,
        m.data.len() * 8 + 8 <= isize::MAX,
        m.cursor <= m.data.len(),
        is_motion(key.code),
        step == motion_step(m, key.code, key.shift),
    ensures
        key_handled(m, key).cursor <= m.data.len(),
        key_handled(m, key).cursor == step_within(m.cursor as int, step, m.data.len() - 1),
        key_handled(m, key).input_mode == m.input_mode,
        key_handled(m, key).mode == m.mode,
        key_handled(m, key).count_prefix is None,
        key_handled(m, key).data == m.data,
        key_handled(m, key).bytes_per_row == m.bytes_per_row,
{
    let m0 = AppModel { count_prefix: None, ..m };
    assert(m0 == m);
    assert(count_of(m) == 1);
    assert(key_handled(m, key) == normal_key(m, key));
    assert(normal_key(m, key) == after_move(m0, step * 1));
    let c = cursor_moved(m0, step);
    let t = step_within(m.cursor as int, step, m.data.len() - 1);
    assert(0 <= t <= m.data.len());
    assert(c.cursor == step_within(m.cursor as int, step, m.data.len() - 1));
    assert(follow_selection(c).cursor == c.cursor);
    assert(scrolled_to_cursor(follow_selection(c)).cursor == c.cursor);
}

/// Moving by a delta beyond `isize`'s range does what the delta clipped to it does.
proof fn lemma_move_clipped(m: AppModel, delta: int, clipped: int)
    requires
        model_wf(m),
        clipped == if delta > isize::MAX {
            isize::MAX as int
        } else if delta < -(isize::MAX as int) {
            -(isize::MAX as int)
        } else {
            delta
        },
    ensures
        after_move(m, delta) == after_move(m, clipped),
{
    let len = m.data.len() as int;
    assert(step_within(m.cursor as int, delta, len - 1) == step_within(
        m.cursor as int,
        clipped,
        len - 1,
    ));
    assert(step_within(m.bit_cursor as int, delta, len * 8 - 1) == step_within(
        m.bit_cursor as int,
        clipped,
        len * 8 - 1,
    ));
}

/// A settings row found by [`settings_target`] names a decoder and parameter that exist.
pub proof fn lemma_settings_target_in_range(ds: Seq<DecoderModel>, k: int, pos: int, cur: int)
    requires
        k >= 0,
        pos >= 0,
        ds.len() <= usize::MAX,
        cur <= usize::MAX,
    ensures
        settings_target_from(ds, k, pos, cur) matches Some((di, p)) ==> di < ds.len() && (
        p matches Some(pi) ==> pi < ds[di as int].params.len()),
    decreases ds.len() - k,
{
    if k < ds.len() && cur != pos && !(pos < cur <= pos + ds[k].params.len()) {
        lemma_settings_target_in_range(ds, k + 1, pos + 1 + ds[k].params.len(), cur);
    }
}

/// Whether the cell at `col`, `row` lies in the area.
pub open spec fn inside(a: Option<Area>, col: u16, row: u16) -> bool {
    match a {
        Some(r) => r.x <= col < r.x + r.width && r.y <= row < r.y + r.height,
        None => false,
    }
}

/// `a - b`, or 0 when that is negative.
pub open spec fn sat_sub(a: int, b: int) -> int {
    if a > b {
        a - b
    } else {
        0
    }
}

/// A mouse wheel step at `col`, `row`: over the hex view it scrolls three
/// rows (down no further than the last screenful); over the decode panel it
/// scrolls that panel three rows; elsewhere, the stats panel included, it does
/// nothing.
pub open spec fn wheel_scrolled(m: AppModel, col: u16, row: u16, up: bool) -> AppModel {
    let m1 = if inside(m.hex_area, col, row) {
        if up {
            AppModel { scroll_offset: sat_sub(m.scroll_offset as int, 3) as usize, ..m }
        } else {
            let max_scroll = sat_sub(
                rows_for(m.data.len() as int, m.bytes_per_row as int),
                m.visible_rows as int,
            );
            AppModel { scroll_offset: min_int(m.scroll_offset + 3, max_scroll) as usize, ..m }
        }
    } else {
        m
    };
    if inside(m1.decode_area, col, row) {
        if up {
            AppModel { decode_scroll_offset: sat_sub(m1.decode_scroll_offset as int, 3) as usize, ..m1 }
        } else {
            AppModel { decode_scroll_offset: (m1.decode_scroll_offset + 3) as usize, ..m1 }
        }
    } else {
        m1
    }
}

/// Whether the cell lies in the area, computed without overflow.
fn in_area(a: Option<Area>, col: u16, row: u16) -> (b: bool)
    ensures
        b == inside(a, col, row),
{
    match a {
        Some(r) => {
            let c = col as u32;
            let w = row as u32;
            r.x as u32 <= c && c < r.x as u32 + r.width as u32 && r.y as u32 <= w && w < r.y as u32
                + r.height as u32
        },
        None => false,
    }
}

/// Rows needed for `len` bytes are at most `len + 1`.
proof fn lemma_rows_for_bound(len: int, per_row: int)
    requires
        len >= 0,
        per_row >= 1,
    ensures
        0 <= rows_for(len, per_row) <= len + 1,
{
    assert((len + per_row - 1) / per_row <= len + 1) by (nonlinear_arith)
        requires
            len >= 0,
            per_row >= 1,
    ;
    assert((len + per_row - 1) / per_row >= 0) by (nonlinear_arith)
        requires
            len >= 0,
            per_row >= 1,
    ;
}

impl App {
    /// Appends a typed digit to the count; see [`with_digit`].
    fn add_count_digit(&mut self, d: u8)
        requires
            d < 10,
        ensures
            final(self)@ == with_digit(old(self)@, d as int),
    {
        let prev: u128 = match self.count_prefix {
            Some(c) => c as u128,
            None => 0,
        };
        let next: u128 = prev * 10 + d as u128;
        let c: usize = if next > usize::MAX as u128 {
            usize::MAX
        } else {
            next as usize
        };
        self.count_prefix = Some(c);
    }

    /// Moves the cursor `n` times the step of a motion key; see [`motion_step`].
    fn move_by(&mut self, code: KeyCode, shift: bool, n: usize)
        requires
            model_wf(old(self)@),
            is_motion(code),
        ensures
            final(self)@ == after_move(old(self)@, motion_step(old(self)@, code, shift) * n),
            model_wf(final(self)@),
    {
        let row = self.bytes_per_row;
        let rows: usize = if shift {
            50
        } else {
            1
        };
        let above = self.visible_rows.saturating_sub(1);
        assert(above * row <= 0x10000 * 1024) by (nonlinear_arith)
            requires
                above <= 0x10000,
                row <= 1024,
        ;
        let page = above * row;
        let (step, back): (usize, bool) = match code {
            KeyCode::Left => (1, true),
            KeyCode::Right => (1, false),
            KeyCode::Up => (rows * row, true),
            KeyCode::Down => (rows * row, false),
            KeyCode::PageUp => (page, true),
            _ => (page, false),
        };
        let ghost signed: int = if back {
            -(step as int)
        } else {
            step as int
        };
        assert(signed == motion_step(self@, code, shift));
        assert(step as u128 * n as u128 <= 0xffff_ffff_ffff_ffffu128 * 0xffff_ffff_ffff_ffffu128)
            by (nonlinear_arith)
            requires
                step <= 0xffff_ffff_ffff_ffffu128,
                n <= 0xffff_ffff_ffff_ffffu128,
        ;
        let mag: u128 = step as u128 * n as u128;
        let d: isize = if mag > isize::MAX as u128 {
            isize::MAX
        } else {
            mag as isize
        };
        let delta: isize = if back {
            -d
        } else {
            d
        };
        proof {
            assert(signed * n == if back {
                -(mag as int)
            } else {
                mag as int
            }) by (nonlinear_arith)
                requires
                    mag == step * n,
                    signed == if back {
                        -(step as int)
                    } else {
                        step as int
                    },
            ;
            lemma_move_clipped(self@, signed * n, delta as int);
        }
        self.move_cursor(delta);
    }

    /// Home; see [`went_home`].
    fn go_home(&mut self)
        requires
            model_wf(old(self)@),
        ensures
            final(self)@ == went_home(old(self)@),
            model_wf(final(self)@),
    {
        match self.mode {
            SelectionMode::Byte => {
                self.cursor = 0;
            },
            SelectionMode::Bit => {
                self.bit_cursor = 0;
            },
        }
        self.update_selection_on_move();
        self.ensure_cursor_visible();
    }

    /// End; see [`went_end`].
    fn go_end(&mut self)
        requires
            model_wf(old(self)@),
        ensures
            final(self)@ == went_end(old(self)@),
            model_wf(final(self)@),
    {
        let last = self.file_len().saturating_sub(1);
        match self.mode {
            SelectionMode::Byte => {
                self.cursor = last;
            },
            SelectionMode::Bit => {
                self.bit_cursor = last * 8 + 7;
            },
        }
        self.update_selection_on_move();
        self.ensure_cursor_visible();
    }

    /// `b`; see [`mode_switched`].
    fn switch_mode(&mut self)
        requires
            model_wf(old(self)@),
        ensures
            final(self)@ == mode_switched(old(self)@),
            model_wf(final(self)@),
    {
        match self.mode {
            SelectionMode::Byte => {
                self.bit_cursor = self.cursor * 8;
                self.clear_selection();
                self.mode = SelectionMode::Bit;
            },
            SelectionMode::Bit => {
                self.clear_selection();
                self.mode = SelectionMode::Byte;
            },
        }
    }

    /// `v`; see [`select_switched`].
    fn switch_select(&mut self)
        requires
            model_wf(old(self)@),
        ensures
            final(self)@ == select_switched(old(self)@),
            model_wf(final(self)@),
    {
        if self.input_mode == InputMode::Selecting {
            self.input_mode = InputMode::Normal;
        } else {
            self.input_mode = InputMode::Selecting;
            match self.mode {
                SelectionMode::Byte => {
                    self.selection_anchor = Some(self.cursor);
                    self.selection_end = Some(self.cursor);
                },
                SelectionMode::Bit => {
                    self.bit_selection_anchor = Some(self.bit_cursor);
                    self.bit_selection_end = Some(self.bit_cursor);
                },
            }
        }
    }

    /// Esc in normal or select mode; see [`escaped`].
    fn escape(&mut self)
        ensures
            final(self)@ == escaped(old(self)@),
    {
        if self.decode_focus.is_some() {
            self.decode_focus = None;
        } else if self.input_mode == InputMode::Selecting {
            self.input_mode = InputMode::Normal;
            self.clear_selection();
        } else {
            self.clear_selection();
        }
    }

    /// Keys that move, search or jump; see [`navigation_cmd`].
    fn navigation_command(&mut self, code: KeyCode, n: usize)
        requires
            model_wf(old(self)@),
            code == KeyCode::Tab ==> focus_scroll_ok(focus_next(old(self)@)),
            code == KeyCode::BackTab ==> focus_scroll_ok(focus_prev(old(self)@)),
        ensures
            final(self)@ == navigation_cmd(old(self)@, code, n as nat),
            model_wf(final(self)@),
    {
        match code {
            KeyCode::Char('n') => {
                if self.search_pattern.is_some() {
                    self.search_next(n);
                } else {
                    self.navigate_chunk_forward(n);
                }
            },
            KeyCode::Char('N') => {
                if self.search_pattern.is_some() {
                    self.search_prev(n);
                } else {
                    self.navigate_chunk_backward(n);
                }
            },
            KeyCode::Char('*') => self.search_selected_bytes(),
            KeyCode::Char('#') => self.search_prev(n),
            KeyCode::Home => self.go_home(),
            KeyCode::End => self.go_end(),
            KeyCode::Tab => {
                self.focus_next_decode_entry();
                self.ensure_focused_range_visible();
            },
            KeyCode::BackTab => {
                self.focus_prev_decode_entry();
                self.ensure_focused_range_visible();
            },
            _ => {},
        }
    }

    /// Keys that change the layout; see [`layout_cmd`].
    fn layout_command(&mut self, code: KeyCode)
        requires
            model_wf(old(self)@),
            code == KeyCode::Char('}') && old(self)@.show_stats_panel ==> old(self)@.stats_scroll_offset
                + 3 <= usize::MAX,
        ensures
            final(self)@ == layout_cmd(old(self)@, code),
            model_wf(final(self)@),
    {
        match code {
            KeyCode::Char('s') => {
                self.show_stats_panel = !self.show_stats_panel;
                self.stats_scroll_offset = 0;
            },
            KeyCode::Char('w') => {
                self.bytes_per_row = if self.bytes_per_row == 16 {
                    32
                } else {
                    16
                };
                self.ensure_cursor_visible();
            },
            KeyCode::Char('[') => {
                let p = self.decode_panel_pct.saturating_sub(5);
                self.decode_panel_pct = if p < 10 {
                    10
                } else {
                    p
                };
            },
            KeyCode::Char(']') => {
                let p = self.decode_panel_pct + 5;
                self.decode_panel_pct = if p < 90 {
                    p
                } else {
                    90
                };
            },
            KeyCode::Char('{') => {
                if self.show_stats_panel {
                    self.stats_scroll_offset = self.stats_scroll_offset.saturating_sub(3);
                }
            },
            KeyCode::Char('}') => {
                if self.show_stats_panel {
                    self.stats_scroll_offset = self.stats_scroll_offset + 3;
                }
            },
            _ => {},
        }
    }

    /// Keys that quit, switch modes or open prompts; see [`mode_cmd`].
    fn mode_command(&mut self, code: KeyCode)
        requires
            model_wf(old(self)@),
        ensures
            final(self)@ == mode_cmd(old(self)@, code),
            model_wf(final(self)@),
    {
        match code {
            KeyCode::Char('q') | KeyCode::Char('Q') => {
                self.quit = true;
            },
            KeyCode::Char('?') => {
                self.input_mode = InputMode::Help;
            },
            KeyCode::Char('e') => {
                self.endian = match self.endian {
                    Endian::Little => Endian::Big,
                    Endian::Big => Endian::Little,
                };
            },
            KeyCode::Char('b') => self.switch_mode(),
            KeyCode::Char('v') => self.switch_select(),
            KeyCode::Char('/') => {
                self.input_mode = InputMode::SearchInput;
                self.search_input = String::new();
            },
            KeyCode::Char('g') => {
                self.input_mode = InputMode::GotoOffset;
                self.goto_input = String::new();
            },
            KeyCode::Char('d') => {
                self.input_mode = InputMode::DecoderSettings;
                self.decoder_settings_cursor = 0;
            },
            KeyCode::Esc => self.escape(),
            _ => {},
        }
    }

    /// Handles a key in normal or select mode; see [`normal_key`].
    pub fn handle_normal_key(&mut self, key: KeyEvent)
        requires
            model_wf(old(self)@),
            normal_key_ok(old(self)@, key),
        ensures
            final(self)@ == normal_key(old(self)@, key),
            model_wf(final(self)@),
    {
        if let KeyCode::Char(c) = key.code {
            if '0' <= c && c <= '9' {
                self.add_count_digit((c as u32 - '0' as u32) as u8);
                return;
            }
        }
        let n = self.take_count();
        match key.code {
            KeyCode::Left | KeyCode::Right | KeyCode::Up | KeyCode::Down | KeyCode::PageUp
            | KeyCode::PageDown => self.move_by(key.code, key.shift, n),
            KeyCode::Char('n') | KeyCode::Char('N') | KeyCode::Char('*') | KeyCode::Char('#')
            | KeyCode::Home | KeyCode::End | KeyCode::Tab | KeyCode::BackTab => {
                self.navigation_command(key.code, n)
            },
            KeyCode::Char('s') | KeyCode::Char('w') | KeyCode::Char('[') | KeyCode::Char(']')
            | KeyCode::Char('{') | KeyCode::Char('}') => self.layout_command(key.code),
            _ => self.mode_command(key.code),
        }
    }

    /// Handles a key in whatever mode the viewer is in; see [`key_handled`].
    #[verifier::rlimit(60)]
    pub fn handle_key(&mut self, key: KeyEvent)
        requires
            model_wf(old(self)@),
            key_ok(old(self)@, key),
        ensures
            final(self)@ == key_handled(old(self)@, key),
            model_wf(final(self)@),
    {
        match self.input_mode {
            InputMode::Help => {
                self.input_mode = InputMode::Normal;
            },
            InputMode::DecoderSettings => self.handle_decoder_settings_key(key),
            InputMode::ParamEdit => self.handle_param_edit_key(key),
            InputMode::GotoOffset => self.handle_goto_key(key),
            InputMode::SearchInput => self.handle_search_key(key),
            InputMode::Normal | InputMode::Selecting => self.handle_normal_key(key),
        }
    }

    /// Handles a key at the goto prompt; see [`goto_key`].
    pub fn handle_goto_key(&mut self, key: KeyEvent)
        requires
            model_wf(old(self)@),
        ensures
            final(self)@ == goto_key(old(self)@, key.code),
            model_wf(final(self)@),
    {
        match key.code {
            KeyCode::Esc => {
                self.input_mode = InputMode::Normal;
                self.goto_input = String::new();
            },
            KeyCode::Enter => {
                self.apply_goto();
                self.input_mode = InputMode::Normal;
            },
            _ => edit_text(&mut self.goto_input, key.code),
        }
    }

    /// Jumps to the offset typed at the goto prompt; see [`goto_applied`].
    pub fn apply_goto(&mut self)
        requires
            model_wf(old(self)@),
        ensures
            final(self)@ == goto_applied(old(self)@),
            model_wf(final(self)@),
    {
        let chars = chars_of(self.goto_input.as_str());
        let t = trim_chars(&chars);
        self.goto_input = String::new();
        let max = usize::MAX as u64;
        let offset = if t.len() >= 2 && t[0] == '0' && (t[1] == 'x' || t[1] == 'X') {
            parse_unsigned(&t, 2, true, max)
        } else {
            assert(t@.skip(0) =~= t@);
            parse_unsigned(&t, 0, false, max)
        };
        if let Some(off) = offset {
            let off = off as usize;
            if off < self.file_len() {
                self.cursor = off;
                self.bit_cursor = off * 8;
                self.input_mode = InputMode::Normal;
                self.ensure_cursor_visible();
            }
        }
    }

    /// Handles a key at the search prompt; see [`search_key`].
    pub fn handle_search_key(&mut self, key: KeyEvent)
        requires
            model_wf(old(self)@),
        ensures
            final(self)@ == search_key(old(self)@, key.code),
            model_wf(final(self)@),
    {
        match key.code {
            KeyCode::Esc => {
                self.input_mode = InputMode::Normal;
                self.search_input = String::new();
                self.search_pattern = None;
            },
            KeyCode::Enter => self.apply_search(),
            _ => edit_text(&mut self.search_input, key.code),
        }
    }

    /// Switches decoder `di` on or off.
    fn toggle_decoder(&mut self, di: usize)
        requires
            di < old(self)@.decoders.len(),
        ensures
            final(self)@ == with_toggled(old(self)@, di as int),
    {
        let ghost ds = self.decoders@;
        let e = self.decoders[di].enabled;
        self.decoders[di].enabled = !e;
        proof {
            assert(self.decoders@ == ds.update(di as int, self.decoders@[di as int]));
            assert(decoders_model(self.decoders@) =~= decoders_model(ds).update(
                di as int,
                DecoderModel { enabled: !e, ..decoders_model(ds)[di as int] },
            ));
        }
    }

    /// Sets parameter `pi` of decoder `di`.
    fn set_param_value(&mut self, di: usize, pi: usize, v: String)
        requires
            di < old(self)@.decoders.len(),
            pi < old(self)@.decoders[di as int].params.len(),
        ensures
            final(self)@ == with_param_value(old(self)@, di as int, pi as int, v@),
    {
        let ghost ds = self.decoders@;
        let ghost ps = ds[di as int].params@;
        self.decoders[di].params[pi].value = v;
        proof {
            let d = self.decoders@[di as int];
            assert(d.params@ =~= ps.update(pi as int, d.params@[pi as int]));
            assert(params_model(d.params@) =~= params_model(ps).update(
                pi as int,
                ParamModel { value: v@, ..params_model(ps)[pi as int] },
            ));
            assert(self.decoders@ =~= ds.update(di as int, d));
            assert(decoders_model(self.decoders@) =~= decoders_model(ds).update(
                di as int,
                decoder_model(d),
            ));
        }
    }

    /// Flips boolean parameter `pi` of decoder `di`.
    fn flip_bool_param(&mut self, di: usize, pi: usize)
        requires
            di < old(self)@.decoders.len(),
            pi < old(self)@.decoders[di as int].params.len(),
        ensures
            final(self)@ == with_param_value(
                old(self)@,
                di as int,
                pi as int,
                flipped_bool(old(self)@.decoders[di as int].params[pi as int].value),
            ),
    {
        let is_true = str_eq(self.decoders[di].params[pi].value.as_str(), "true");
        let v = if is_true {
            String::from_str("false")
        } else {
            String::from_str("true")
        };
        proof {
            reveal_strlit("true");
            reveal_strlit("false");
        }
        self.set_param_value(di, pi, v);
    }

    /// Moves a choice parameter to its next choice.
    fn cycle_choice_param(&mut self, di: usize, pi: usize)
        requires
            di < old(self)@.decoders.len(),
            pi < old(self)@.decoders[di as int].params.len(),
            old(self)@.decoders[di as int].params[pi as int].param_type matches ParamType::Choice(cs)
                && cs@.len() > 0,
        ensures
            final(self)@ == with_param_value(
                old(self)@,
                di as int,
                pi as int,
                match old(self)@.decoders[di as int].params[pi as int].param_type {
                    ParamType::Choice(cs) => next_choice(
                        string_views(cs@),
                        old(self)@.decoders[di as int].params[pi as int].value,
                    ),
                    _ => Seq::empty(),
                },
            ),
    {
        let ghost pm = self@.decoders[di as int].params[pi as int];
        let next = match &self.decoders[di].params[pi].param_type {
            ParamType::Choice(choices) => {
                let ghost cv = string_views(choices@);
                let cur = self.decoders[di].params[pi].value.as_str();
                let mut k: usize = 0;
                while k < choices.len()
                    invariant
                        k <= choices@.len(),
                        cv == string_views(choices@),
                        cur@ == pm.value,
                        index_from(cv, pm.value, 0) == index_from(cv, pm.value, k as int),
                    ensures
                        k <= choices@.len(),
                        index_from(cv, pm.value, 0) == if k < choices@.len() {
                            Some(k as int)
                        } else {
                            None::<int>
                        },
                    decreases choices.len() - k,
                {
                    if str_eq(choices[k].as_str(), cur) {
                        assert(cv[k as int] == choices@[k as int]@);
                        break;
                    }
                    k = k + 1;
                }
                let i = if k < choices.len() {
                    k
                } else {
                    0
                };
                choices[(i + 1) % choices.len()].clone()
            },
            _ => String::new(),
        };
        self.set_param_value(di, pi, next);
    }

    /// Handles a key in the settings popup; see [`settings_key`].
    pub fn handle_decoder_settings_key(&mut self, key: KeyEvent)
        requires
            model_wf(old(self)@),
            settings_key_ok(old(self)@, key.code),
        ensures
            final(self)@ == settings_key(old(self)@, key.code),
            model_wf(final(self)@),
    {
        let row_count = self.settings_row_count();
        match key.code {
            KeyCode::Esc | KeyCode::Char('d') | KeyCode::Char('q') => {
                self.input_mode = InputMode::Normal;
            },
            KeyCode::Up => {
                if self.decoder_settings_cursor > 0 {
                    self.decoder_settings_cursor = self.decoder_settings_cursor - 1;
                }
            },
            KeyCode::Down => {
                if row_count > 0 && self.decoder_settings_cursor < row_count - 1 {
                    self.decoder_settings_cursor = self.decoder_settings_cursor + 1;
                }
            },
            KeyCode::Char(' ') => self.settings_space_key(),
            KeyCode::Enter => self.settings_enter_key(),
            _ => {},
        }
    }

    /// Space in the settings popup; see [`settings_space`].
    fn settings_space_key(&mut self)
        ensures
            final(self)@ == settings_space(old(self)@),
    {
        let _ = self.decoders.len();
        proof {
            lemma_settings_target_in_range(self@.decoders, 0, 0, self.decoder_settings_cursor as int);
        }
        match self.settings_cursor_target() {
            Some((di, None)) => self.toggle_decoder(di),
            Some((di, Some(pi))) => {
                proof {
                    assert(self@.decoders[di as int].params[pi as int] == param_model(
                        self.decoders@[di as int].params@[pi as int],
                    ));
                }
                let is_bool = match self.decoders[di].params[pi].param_type {
                    ParamType::Bool => true,
                    _ => false,
                };
                if is_bool {
                    self.flip_bool_param(di, pi);
                }
            },
            None => {},
        }
    }

    /// Enter in the settings popup; see [`settings_enter`].
    fn settings_enter_key(&mut self)
        requires
            settings_key_ok(old(self)@, KeyCode::Enter),
        ensures
            final(self)@ == settings_enter(old(self)@),
    {
        let _ = self.decoders.len();
        proof {
            lemma_settings_target_in_range(self@.decoders, 0, 0, self.decoder_settings_cursor as int);
        }
        match self.settings_cursor_target() {
            Some((di, None)) => self.toggle_decoder(di),
            Some((di, Some(pi))) => {
                proof {
                    assert(self@.decoders[di as int].params[pi as int] == param_model(
                        self.decoders@[di as int].params@[pi as int],
                    ));
                }
                let kind: u8 = match self.decoders[di].params[pi].param_type {
                    ParamType::Bool => 0,
                    ParamType::Choice(_) => 1,
                    _ => 2,
                };
                if kind == 0 {
                    self.flip_bool_param(di, pi);
                } else if kind == 1 {
                    self.cycle_choice_param(di, pi);
                } else {
                    self.param_edit_input = self.decoders[di].params[pi].value.clone();
                    self.input_mode = InputMode::ParamEdit;
                }
            },
            None => {},
        }
    }

    /// Handles a key while a parameter is edited; see [`param_edit_key`].
    pub fn handle_param_edit_key(&mut self, key: KeyEvent)
        ensures
            final(self)@ == param_edit_key(old(self)@, key.code),
    {
        match key.code {
            KeyCode::Esc => {
                self.input_mode = InputMode::DecoderSettings;
                self.param_edit_input = String::new();
            },
            KeyCode::Enter => {
                let _ = self.decoders.len();
                proof {
                    lemma_settings_target_in_range(
                        self@.decoders,
                        0,
                        0,
                        self.decoder_settings_cursor as int,
                    );
                }
                match self.settings_cursor_target() {
                    Some((di, Some(pi))) => {
                        proof {
                            assert(self@.decoders[di as int].params[pi as int] == param_model(
                                self.decoders@[di as int].params@[pi as int],
                            ));
                        }
                        let is_int = match self.decoders[di].params[pi].param_type {
                            ParamType::Int => true,
                            _ => false,
                        };
                        let text = self.param_edit_input.as_str();
                        if !is_int || parses_as_i64(text) || text.is_empty() {
                            let v = self.param_edit_input.clone();
                            self.set_param_value(di, pi, v);
                        }
                    },
                    _ => {},
                }
                self.input_mode = InputMode::DecoderSettings;
                self.param_edit_input = String::new();
            },
            _ => edit_text(&mut self.param_edit_input, key.code),
        }
    }

    /// Handles a mouse wheel step at a cell; see [`wheel_scrolled`].
    pub fn handle_mouse_scroll(&mut self, col: u16, row: u16, up: bool)
        requires
            model_wf(old(self)@),
            !up && inside(old(self)@.decode_area, col, row) ==> old(self)@.decode_scroll_offset + 3
                <= usize::MAX,
        ensures
            final(self)@ == wheel_scrolled(old(self)@, col, row, up),
            model_wf(final(self)@),
    {
        if in_area(self.hex_area, col, row) {
            if up {
                self.scroll_offset = self.scroll_offset.saturating_sub(3);
            } else {
                proof {
                    lemma_rows_for_bound(self@.data.len() as int, self.bytes_per_row as int);
                }
                let max_scroll = self.total_rows().saturating_sub(self.visible_rows);
                let next = self.scroll_offset + 3;
                self.scroll_offset = if next < max_scroll {
                    next
                } else {
                    max_scroll
                };
            }
        }
        if in_area(self.decode_area, col, row) {
            if up {
                self.decode_scroll_offset = self.decode_scroll_offset.saturating_sub(3);
            } else {
                self.decode_scroll_offset = self.decode_scroll_offset + 3;
            }
        }
    }

    /// Records where the panels were drawn, for mouse hit testing, and how
    /// many rows the hex view shows: its height less the border.
    pub fn set_layout(&mut self, hex: Area, decode: Area, stats: Option<Area>)
        requires
            model_wf(old(self)@),
        ensures
            final(self)@ == (AppModel {
                hex_area: Some(hex),
                decode_area: Some(decode),
                stats_area: stats,
                visible_rows: sat_sub(hex.height as int, 2) as usize,
                ..old(self)@
            }),
            model_wf(final(self)@),
    {
        self.hex_area = Some(hex);
        self.decode_area = Some(decode);
        self.stats_area = stats;
        self.visible_rows = hex.height.saturating_sub(2) as usize;
    }
}

} // verus!
