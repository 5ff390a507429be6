//! Viewer state and its handling of keys and mouse scrolling.
//!
//! [`App`] holds everything the viewer shows and edits. Its specification is
//! stated over [`AppModel`], the same state with text as character sequences,
//! bytes as byte sequences and decoders as [`DecoderModel`]s.
//!
//! - [`types`]: modes, decoder descriptions and parameters.
//! - [`selection`]: cursor movement, selections, scrolling and decode focus.
//! - [`input`]: key handling in every input mode.
//! - [`search`]: byte pattern search.

pub mod input;
pub mod search;
pub mod selection;
pub mod types;

pub use types::{DecoderInfo, DecoderParam, DecoderSource, InputMode, ParamType, SelectionMode};

use vstd::prelude::*;

use crate::decode::types::{DecodedValue, Endian};
use crate::file_buffer::FileBuffer;
use types::str_eq;

verus! {

/// Default number of bytes per hex row.
pub const DEFAULT_BYTES_PER_ROW: usize = 16;

/// A rectangle of the terminal, in cells.
#[derive(Clone, Copy, PartialEq, Eq, Structural, Debug)]
pub struct Area {
    /// Left column.
    pub x: u16,
    /// Top row.
    pub y: u16,
    /// Width in columns.
    pub width: u16,
    /// Height in rows.
    pub height: u16,
}

/// A decoder parameter as the specification sees it.
pub ghost struct ParamModel {
    pub name: Seq<char>,
    pub param_type: ParamType,
    pub default: Seq<char>,
    pub value: Seq<char>,
}

/// A registered decoder as the specification sees it.
pub ghost struct DecoderModel {
    pub name: Seq<char>,
    pub source: DecoderSource,
    pub enabled: bool,
    pub params: Seq<ParamModel>,
}

/// The model of a parameter.
pub open spec fn param_model(p: DecoderParam) -> ParamModel {
    ParamModel { name: p.name@, param_type: p.param_type, default: p.default@, value: p.value@ }
}

/// The models of a list of parameters.
pub open spec fn params_model(ps: Seq<DecoderParam>) -> Seq<ParamModel> {
    ps.map_values(|p: DecoderParam| param_model(p))
}

/// The model of a decoder.
pub open spec fn decoder_model(d: DecoderInfo) -> DecoderModel {
    DecoderModel { name: d.name@, source: d.source, enabled: d.enabled, params: params_model(d.params@) }
}

/// The models of a list of decoders.
pub open spec fn decoders_model(ds: Seq<DecoderInfo>) -> Seq<DecoderModel> {
    ds.map_values(|d: DecoderInfo| decoder_model(d))
}

/// The viewer state as the specification sees it.
pub ghost struct AppModel {
    pub data: Seq<u8>,
    pub filename: Seq<char>,
    pub cursor: usize,
    pub selection_anchor: Option<usize>,
    pub selection_end: Option<usize>,
    pub scroll_offset: usize,
    pub visible_rows: usize,
    pub endian: Endian,
    pub mode: SelectionMode,
    pub input_mode: InputMode,
    pub goto_input: Seq<char>,
    pub quit: bool,
    pub bit_cursor: usize,
    pub bit_selection_anchor: Option<usize>,
    pub bit_selection_end: Option<usize>,
    pub bytes_per_row: usize,
    pub decode_panel_pct: u16,
    pub decode_entries: Seq<DecodedValue>,
    pub decode_focus: Option<usize>,
    pub decode_scroll_offset: usize,
    pub hex_area: Option<Area>,
    pub decode_area: Option<Area>,
    pub stats_area: Option<Area>,
    pub decoders: Seq<DecoderModel>,
    pub decoder_settings_cursor: usize,
    pub param_edit_input: Seq<char>,
    pub show_stats_panel: bool,
    pub stats_scroll_offset: usize,
    pub count_prefix: Option<usize>,
    pub search_input: Seq<char>,
    pub search_pattern: Option<Seq<u8>>,
    pub search_was_hex: bool,
}

/// The state of the hex viewer.
pub struct App {
    /// The file's bytes.
    pub buffer: FileBuffer,
    /// Display name of the file.
    pub filename: String,
    /// Byte offset of the cursor.
    pub cursor: usize,
    /// Where the byte selection started.
    pub selection_anchor: Option<usize>,
    /// Where the byte selection ends (follows the cursor while selecting).
    pub selection_end: Option<usize>,
    /// First visible row.
    pub scroll_offset: usize,
    /// Number of rows the hex view shows.
    pub visible_rows: usize,
    /// Byte order for multi-byte readings.
    pub endian: Endian,
    /// Byte or bit selection.
    pub mode: SelectionMode,
    /// The active input mode.
    pub input_mode: InputMode,
    /// Text typed at the goto prompt.
    pub goto_input: String,
    /// Set when the viewer should exit.
    pub quit: bool,
    /// Bit offset of the bit cursor.
    pub bit_cursor: usize,
    /// Where the bit selection started.
    pub bit_selection_anchor: Option<usize>,
    /// Where the bit selection ends.
    pub bit_selection_end: Option<usize>,
    /// Bytes per hex row (16 or 32).
    pub bytes_per_row: usize,
    /// Width of the decode panel in percent of the terminal (10 to 90).
    pub decode_panel_pct: u16,
    /// The decode entries shown in the last frame.
    pub decode_entries: Vec<DecodedValue>,
    /// Index of the focused decode entry.
    pub decode_focus: Option<usize>,
    /// Scroll offset of the decode panel.
    pub decode_scroll_offset: usize,
    /// Where the hex view was drawn.
    pub hex_area: Option<Area>,
    /// Where the decode panel was drawn.
    pub decode_area: Option<Area>,
    /// Where the stats panel was drawn, if shown.
    pub stats_area: Option<Area>,
    /// The registered decoders.
    pub decoders: Vec<DecoderInfo>,
    /// Cursor row in the flattened decoder settings list.
    pub decoder_settings_cursor: usize,
    /// Text of the parameter being edited.
    pub param_edit_input: String,
    /// Whether the stats panel is shown.
    pub show_stats_panel: bool,
    /// Scroll offset of the stats panel.
    pub stats_scroll_offset: usize,
    /// Count typed before a movement key.
    pub count_prefix: Option<usize>,
    /// Text typed at the search prompt.
    pub search_input: String,
    /// The active search pattern.
    pub search_pattern: Option<Vec<u8>>,
    /// Whether the search pattern was typed as hex.
    pub search_was_hex: bool,
}

/// The bytes of an optional pattern.
pub open spec fn pattern_view(p: Option<Vec<u8>>) -> Option<Seq<u8>> {
    match p {
        Some(v) => Some(v@),
        None => None,
    }
}

impl View for App {
    type V = AppModel;

    open spec fn view(&self) -> AppModel {
        AppModel {
            data: self.buffer@,
            filename: self.filename@,
            cursor: self.cursor,
            selection_anchor: self.selection_anchor,
            selection_end: self.selection_end,
            scroll_offset: self.scroll_offset,
            visible_rows: self.visible_rows,
            endian: self.endian,
            mode: self.mode,
            input_mode: self.input_mode,
            goto_input: self.goto_input@,
            quit: self.quit,
            bit_cursor: self.bit_cursor,
            bit_selection_anchor: self.bit_selection_anchor,
            bit_selection_end: self.bit_selection_end,
            bytes_per_row: self.bytes_per_row,
            decode_panel_pct: self.decode_panel_pct,
            decode_entries: self.decode_entries@,
            decode_focus: self.decode_focus,
            decode_scroll_offset: self.decode_scroll_offset,
            hex_area: self.hex_area,
            decode_area: self.decode_area,
            stats_area: self.stats_area,
            decoders: decoders_model(self.decoders@),
            decoder_settings_cursor: self.decoder_settings_cursor,
            param_edit_input: self.param_edit_input@,
            show_stats_panel: self.show_stats_panel,
            stats_scroll_offset: self.stats_scroll_offset,
            count_prefix: self.count_prefix,
            search_input: self.search_input@,
            search_pattern: pattern_view(self.search_pattern),
            search_was_hex: self.search_was_hex,
        }
    }
}

/// The state of a freshly opened file: cursor at 0, little-endian, byte mode,
/// no selection, 20 visible rows, 16 bytes per row, a decode panel at half
/// the width, and no decoders.
pub open spec fn initial_model(data: Seq<u8>, filename: Seq<char>) -> AppModel {
    AppModel {
        data,
        filename,
        cursor: 0,
        selection_anchor: None,
        selection_end: None,
        scroll_offset: 0,
        visible_rows: 20,
        endian: Endian::Little,
        mode: SelectionMode::Byte,
        input_mode: InputMode::Normal,
        goto_input: Seq::empty(),
        quit: false,
        bit_cursor: 0,
        bit_selection_anchor: None,
        bit_selection_end: None,
        bytes_per_row: 16,
        decode_panel_pct: 50,
        decode_entries: Seq::empty(),
        decode_focus: None,
        decode_scroll_offset: 0,
        hex_area: None,
        decode_area: None,
        stats_area: None,
        decoders: Seq::empty(),
        decoder_settings_cursor: 0,
        param_edit_input: Seq::empty(),
        show_stats_panel: false,
        stats_scroll_offset: 0,
        count_prefix: None,
        search_input: Seq::empty(),
        search_pattern: None,
        search_was_hex: false,
    }
}

/// What holds of the viewer in every state: rows of 16 or 32 bytes, a decode
/// panel between 10 and 90 percent wide, bit offsets of the whole file that
/// fit in `usize`, and positions within the file (a bit position may name any
/// bit of the last byte, or of byte 0 of an empty file).
pub open spec fn model_wf(m: AppModel) -> bool {
    &&& (m.bytes_per_row == 16 || m.bytes_per_row == 32)
    &&& 10 <= m.decode_panel_pct <= 90
    &&& m.data.len() * 8 + 8 <= isize::MAX
    &&& m.visible_rows <= 0x10000
    &&& m.scroll_offset <= m.data.len() + 1
    &&& m.cursor <= m.data.len()
    &&& m.bit_cursor <= m.data.len() * 8 + 7
    &&& (m.selection_anchor matches Some(a) ==> a <= m.data.len())
    &&& (m.selection_end matches Some(e) ==> e <= m.data.len())
    &&& (m.bit_selection_anchor matches Some(a) ==> a <= m.data.len() * 8 + 7)
    &&& (m.bit_selection_end matches Some(e) ==> e <= m.data.len() * 8 + 7)
}

/// The index of the first decoder with this name and source.
pub open spec fn find_decoder(ds: Seq<DecoderModel>, name: Seq<char>, source: DecoderSource) -> Option<
    int,
>
    decreases ds.len(),
{
    if ds.len() == 0 {
        None
    } else {
        match find_decoder(ds.drop_last(), name, source) {
            Some(k) => Some(k),
            None => if ds.last().name == name && ds.last().source == source {
                Some(ds.len() - 1)
            } else {
                None
            },
        }
    }
}

/// The index of the first built-in decoder.
pub open spec fn find_builtin(ds: Seq<DecoderModel>) -> Option<int>
    decreases ds.len(),
{
    if ds.len() == 0 {
        None
    } else {
        match find_builtin(ds.drop_last()) {
            Some(k) => Some(k),
            None => if ds.last().source == DecoderSource::Builtin {
                Some(ds.len() - 1)
            } else {
                None
            },
        }
    }
}

/// Number of rows of the flattened settings list: one per decoder and one per parameter.
pub open spec fn settings_rows(ds: Seq<DecoderModel>) -> nat
    decreases ds.len(),
{
    if ds.len() == 0 {
        0
    } else {
        settings_rows(ds.drop_last()) + 1 + ds.last().params.len()
    }
}

/// The decoder (and parameter) at settings row `cur`, counting from decoder `k`
/// whose row is `pos`.
pub open spec fn settings_target_from(ds: Seq<DecoderModel>, k: int, pos: int, cur: int) -> Option<
    (usize, Option<usize>),
>
    decreases ds.len() - k,
{
    if k < 0 || k >= ds.len() {
        None
    } else if cur == pos {
        Some((k as usize, None))
    } else if pos < cur <= pos + ds[k].params.len() {
        Some((k as usize, Some((cur - pos - 1) as usize)))
    } else {
        settings_target_from(ds, k + 1, pos + 1 + ds[k].params.len(), cur)
    }
}

/// The decoder (and parameter) at settings row `cur`.
pub open spec fn settings_target(ds: Seq<DecoderModel>, cur: int) -> Option<(usize, Option<usize>)> {
    settings_target_from(ds, 0, 0, cur)
}

/// The state with one more decoder registered.
pub open spec fn with_decoder(m: AppModel, d: DecoderModel) -> AppModel {
    AppModel { decoders: m.decoders.push(d), ..m }
}

/// Pairs of strings as pairs of character sequences.
pub open spec fn string_pairs(v: Seq<(String, String)>) -> Seq<(Seq<char>, Seq<char>)> {
    v.map_values(|p: (String, String)| (p.0@, p.1@))
}

/// The `(name, value)` pairs of a decoder's parameters.
pub open spec fn param_pairs(ps: Seq<ParamModel>) -> Seq<(Seq<char>, Seq<char>)> {
    ps.map_values(|p: ParamModel| (p.name, p.value))
}

/// Rows needed for `len` bytes at `per_row` bytes per row.
pub open spec fn rows_for(len: int, per_row: int) -> int {
    (len + per_row - 1) / per_row
}

impl App {
    /// Opens the viewer on a file; see [`initial_model`].
    pub fn new(buffer: FileBuffer, filename: String) -> (r: Self)
        ensures
            r@ == initial_model(buffer@, filename@),
            buffer@.len() * 8 + 8 <= isize::MAX ==> model_wf(r@),
    {
        let r = App {
            buffer,
            filename,
            cursor: 0,
            selection_anchor: None,
            selection_end: None,
            scroll_offset: 0,
            visible_rows: 20,
            endian: Endian::Little,
            mode: SelectionMode::Byte,
            input_mode: InputMode::Normal,
            goto_input: String::new(),
            quit: false,
            bit_cursor: 0,
            bit_selection_anchor: None,
            bit_selection_end: None,
            bytes_per_row: DEFAULT_BYTES_PER_ROW,
            decode_panel_pct: 50,
            decode_entries: Vec::new(),
            decode_focus: None,
            decode_scroll_offset: 0,
            hex_area: None,
            decode_area: None,
            stats_area: None,
            decoders: Vec::new(),
            decoder_settings_cursor: 0,
            param_edit_input: String::new(),
            show_stats_panel: false,
            stats_scroll_offset: 0,
            count_prefix: None,
            search_input: String::new(),
            search_pattern: None,
            search_was_hex: false,
        };
        assert(r@.decoders =~= Seq::<DecoderModel>::empty());
        r
    }

    /// Registers a decoder for the settings list, enabled.
    pub fn register_decoder(&mut self, name: String, source: DecoderSource, params: Vec<DecoderParam>)
        ensures
            final(self)@ == with_decoder(
                old(self)@,
                DecoderModel { name: name@, source, enabled: true, params: params_model(params@) },
            ),
    {
        let d = DecoderInfo { name, source, enabled: true, params };
        self.decoders.push(d);
        proof {
            assert(decoders_model(self.decoders@) =~= decoders_model(old(self).decoders@).push(
                decoder_model(d),
            ));
        }
    }

    /// Finds the first decoder with this name and source.
    fn decoder_index(&self, name: &str, source: &DecoderSource) -> (r: Option<usize>)
        ensures
            r matches Some(k) ==> k < self.decoders@.len(),
            match r {
                Some(k) => find_decoder(self@.decoders, name@, *source) == Some(k as int),
                None => find_decoder(self@.decoders, name@, *source) is None,
            },
    {
        let ghost ds = self@.decoders;
        let mut k: usize = 0;
        while k < self.decoders.len()
            invariant
                k <= self.decoders@.len(),
                ds == decoders_model(self.decoders@),
                find_decoder(ds.take(k as int), name@, *source) is None,
            decreases self.decoders.len() - k,
        {
            let d = &self.decoders[k];
            proof {
                assert(ds.take(k + 1).drop_last() =~= ds.take(k as int));
                assert(ds[k as int] == decoder_model(self.decoders@[k as int]));
            }
            if str_eq(d.name.as_str(), name) && d.source == *source {
                proof {
                    lemma_find_decoder_prefix(ds, k as int + 1, name@, *source);
                }
                return Some(k);
            }
            k = k + 1;
        }
        proof {
            assert(ds.take(k as int) =~= ds);
        }
        None
    }

    /// The current `(name, value)` of each parameter of the first decoder with
    /// this name and source; empty when there is none.
    pub fn decoder_params(&self, name: &str, source: &DecoderSource) -> (r: Vec<(String, String)>)
        ensures
            string_pairs(r@) == match find_decoder(self@.decoders, name@, *source) {
                Some(k) => param_pairs(self@.decoders[k].params),
                None => Seq::empty(),
            },
    {
        let mut out: Vec<(String, String)> = Vec::new();
        match self.decoder_index(name, source) {
            Some(k) => {
                proof {
                    assert(self@.decoders[k as int] == decoder_model(self.decoders@[k as int]));
                }
                let ps = &self.decoders[k].params;
                let ghost want = param_pairs(self@.decoders[k as int].params);
                let mut i: usize = 0;
                while i < ps.len()
                    invariant
                        i <= ps@.len(),
                        want == param_pairs(params_model(ps@)),
                        string_pairs(out@) == want.take(i as int),
                    decreases ps.len() - i,
                {
                    let p = &ps[i];
                    let pair = (p.name.clone(), p.value.clone());
                    let ghost before = out@;
                    out.push(pair);
                    proof {
                        assert(out@ == before.push(pair));
                        assert(params_model(ps@)[i as int] == param_model(ps@[i as int]));
                        assert(want[i as int] == (p.name@, p.value@));
                        assert(string_pairs(out@) =~= string_pairs(before).push((p.name@, p.value@)));
                        assert(string_pairs(out@) =~= want.take(i + 1));
                    }
                    i = i + 1;
                }
                proof {
                    assert(want.take(i as int) =~= want);
                }
            },
            None => {
                assert(string_pairs(out@) =~= Seq::<(Seq<char>, Seq<char>)>::empty());
            },
        }
        out
    }

    /// Number of rows of the flattened settings list.
    pub fn settings_row_count(&self) -> (n: usize)
        requires
            settings_rows(self@.decoders) <= usize::MAX,
        ensures
            n == settings_rows(self@.decoders),
    {
        let ghost ds = self@.decoders;
        let mut n: usize = 0;
        let mut k: usize = 0;
        while k < self.decoders.len()
            invariant
                k <= self.decoders@.len(),
                ds == decoders_model(self.decoders@),
                settings_rows(ds) <= usize::MAX,
                n == settings_rows(ds.take(k as int)),
            decreases self.decoders.len() - k,
        {
            proof {
                assert(ds.take(k + 1).drop_last() =~= ds.take(k as int));
                lemma_settings_rows_prefix(ds, k as int + 1);
            }
            n = n + 1 + self.decoders[k].params.len();
            k = k + 1;
        }
        proof {
            assert(ds.take(k as int) =~= ds);
        }
        n
    }

    /// The decoder, and the parameter if any, at the settings cursor.
    pub fn settings_cursor_target(&self) -> (r: Option<(usize, Option<usize>)>)
        ensures
            r == settings_target(self@.decoders, self.decoder_settings_cursor as int),
    {
        let ghost ds = self@.decoders;
        let cur = self.decoder_settings_cursor;
        let mut pos: usize = 0;
        let mut k: usize = 0;
        while k < self.decoders.len()
            invariant
                k <= self.decoders@.len(),
                ds == decoders_model(self.decoders@),
                cur == self.decoder_settings_cursor,
                pos <= cur,
                settings_target(ds, cur as int) == settings_target_from(ds, k as int, pos as int, cur as int),
            decreases self.decoders.len() - k,
        {
            if cur == pos {
                return Some((k, None));
            }
            let n = self.decoders[k].params.len();
            proof {
                assert(ds[k as int].params.len() == n);
            }
            if cur - pos <= n {
                return Some((k, Some(cur - pos - 1)));
            }
            pos = pos + 1 + n;
            k = k + 1;
        }
        None
    }

    /// Whether the first decoder with this name and source is enabled; an
    /// unknown decoder counts as enabled.
    pub fn is_decoder_enabled(&self, name: &str, source: &DecoderSource) -> (b: bool)
        ensures
            b == match find_decoder(self@.decoders, name@, *source) {
                Some(k) => self@.decoders[k].enabled,
                None => true,
            },
    {
        match self.decoder_index(name, source) {
            Some(k) => {
                proof {
                    assert(self@.decoders[k as int] == decoder_model(self.decoders@[k as int]));
                }
                self.decoders[k].enabled
            },
            None => true,
        }
    }

    /// Whether the built-in decoder is enabled (or not registered).
    pub fn is_builtin_enabled(&self) -> (b: bool)
        ensures
            b == match find_builtin(self@.decoders) {
                Some(k) => self@.decoders[k].enabled,
                None => true,
            },
    {
        let ghost ds = self@.decoders;
        let mut k: usize = 0;
        while k < self.decoders.len()
            invariant
                k <= self.decoders@.len(),
                ds == decoders_model(self.decoders@),
                find_builtin(ds.take(k as int)) is None,
            decreases self.decoders.len() - k,
        {
            proof {
                assert(ds.take(k + 1).drop_last() =~= ds.take(k as int));
            }
            if self.decoders[k].source == DecoderSource::Builtin {
                proof {
                    lemma_find_builtin_prefix(ds, k as int + 1);
                }
                return self.decoders[k].enabled;
            }
            k = k + 1;
        }
        proof {
            assert(ds.take(k as int) =~= ds);
        }
        true
    }

    /// The file size in bytes.
    pub fn file_len(&self) -> (n: usize)
        ensures
            n == self@.data.len(),
    {
        self.buffer.len()
    }

    /// Rows needed to show the whole file.
    pub fn total_rows(&self) -> (n: usize)
        requires
            model_wf(self@),
        ensures
            n == rows_for(self@.data.len() as int, self.bytes_per_row as int),
    {
        (self.file_len() + self.bytes_per_row - 1) / self.bytes_per_row
    }
}

proof fn lemma_find_decoder_prefix(ds: Seq<DecoderModel>, n: int, name: Seq<char>, source: DecoderSource)
    requires
        0 < n <= ds.len(),
        find_decoder(ds.take(n - 1), name, source) is None,
        ds[n - 1].name == name,
        ds[n - 1].source == source,
    ensures
        find_decoder(ds, name, source) == Some(n - 1),
    decreases ds.len(),
{
    assert(ds.take(n).drop_last() =~= ds.take(n - 1));
    if n < ds.len() {
        assert(ds.drop_last().take(n - 1) =~= ds.take(n - 1));
        lemma_find_decoder_prefix(ds.drop_last(), n, name, source);
        assert(ds.drop_last().take(n) =~= ds.take(n));
        assert(ds.drop_last().take(n - 1) =~= ds.take(n - 1));
    } else {
        assert(ds.take(n) =~= ds);
        assert(ds.take(n - 1) =~= ds.drop_last());
    }
}

/// A decoder found by name and source is within the list and has them.
pub proof fn lemma_find_decoder_found(ds: Seq<DecoderModel>, name: Seq<char>, source: DecoderSource)
    ensures
        find_decoder(ds, name, source) matches Some(k) ==> 0 <= k < ds.len() && ds[k].name == name
            && ds[k].source == source,
    decreases ds.len(),
{
    if ds.len() > 0 {
        lemma_find_decoder_found(ds.drop_last(), name, source);
    }
}

/// A built-in decoder found is within the list.
pub proof fn lemma_find_builtin_found(ds: Seq<DecoderModel>)
    ensures
        find_builtin(ds) matches Some(k) ==> 0 <= k < ds.len() && ds[k].source
            == DecoderSource::Builtin,
    decreases ds.len(),
{
    if ds.len() > 0 {
        lemma_find_builtin_found(ds.drop_last());
    }
}

proof fn lemma_find_builtin_prefix(ds: Seq<DecoderModel>, n: int)
    requires
        0 < n <= ds.len(),
        find_builtin(ds.take(n - 1)) is None,
        ds[n - 1].source == DecoderSource::Builtin,
    ensures
        find_builtin(ds) == Some(n - 1),
    decreases ds.len(),
{
    if n < ds.len() {
        assert(ds.drop_last().take(n - 1) =~= ds.take(n - 1));
        lemma_find_builtin_prefix(ds.drop_last(), n);
    } else {
        assert(ds.take(n - 1) =~= ds.drop_last());
    }
}

proof fn lemma_settings_rows_prefix(ds: Seq<DecoderModel>, n: int)
    requires
        0 <= n <= ds.len(),
    ensures
        settings_rows(ds.take(n)) <= settings_rows(ds),
    decreases ds.len(),
{
    if n < ds.len() {
        lemma_settings_rows_prefix(ds.drop_last(), n);
        assert(ds.drop_last().take(n) =~= ds.take(n));
    } else {
        assert(ds.take(n) =~= ds);
    }
}

} // verus!
