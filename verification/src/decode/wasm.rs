//! Running WASM decoder plugins with `wasmtime`.
//!
//! A plugin exports `memory`, `alloc(size) -> ptr` and `decode(ptr, len,
//! endian) -> ptr`, and may export `params() -> ptr` and
//! `decode_with_params(ptr, len, endian, params_ptr, params_len) -> ptr`.
//! Answers are NUL-terminated JSON texts in the plugin's memory. Each call
//! into `wasmtime` goes through a trusted wrapper below; what the library
//! checks of the plugin's answers, and what it makes of them, is verified.
//!
//! Every store here comes from an engine made by [`WasmDecoderManager::new`],
//! without async support; a plugin's store, instance and exports stay
//! together in a [`PluginInstance`], so that each is used only with its own store.

use vstd::prelude::*;
use vstd::slice::slice_subrange;
use vstd::utf8::{decode_utf8, encode_utf8, valid_utf8};
use wasmtime::{Config, Engine, Instance, Memory, Module, Store, TypedFunc};

use super::plugin::{
    bind_alloc, bind_decode, bind_decode_with_params, bind_memory, bind_params, call_alloc,
    call_decode, call_decode_with_params, call_params, memory_data, memory_size, write_memory,
    exports_i32_func, exports_memory, CompiledModule, PluginCall, PluginInstance,
};

use super::json::{
    build_params_json, entries_match, pair_views, param_value_members, parse_json_results, parse_param_definitions,
    parse_params_spec, params_match, parse_results_spec, JsonError,
};
use super::types::{plugin_error, DecodedValue, Endian};
use crate::app::types::{str_eq, string_views};
use crate::app::{find_decoder, param_pairs, string_pairs, App, DecoderModel, DecoderParam, DecoderSource};
use crate::text::push_str;

verus! {

/// `wasmtime::Config`, the settings an engine is made with.
#[verifier::external_type_specification]
#[verifier::external_body]
pub struct ExConfig(Config);

/// `wasmtime::Engine`, which compiles and runs modules.
#[verifier::external_type_specification]
#[verifier::external_body]
pub struct ExEngine(Engine);

/// `wasmtime::Module`, a compiled plugin.
#[verifier::external_type_specification]
#[verifier::external_body]
pub struct ExModule(Module);

/// `wasmtime::Store`, which owns the state of instances.
#[verifier::external_type_specification]
#[verifier::external_body]
#[verifier::reject_recursive_types(T)]
pub struct ExStore<T>(Store<T>);

/// `wasmtime::Instance`, an instantiated module.
#[verifier::external_type_specification]
#[verifier::external_body]
pub struct ExInstance(Instance);

/// `wasmtime::Memory`, a linear memory of an instance.
#[verifier::external_type_specification]
#[verifier::external_body]
pub struct ExMemory(Memory);

/// `wasmtime::TypedFunc`, an exported function with known parameter and result types.
#[verifier::external_type_specification]
#[verifier::external_body]
#[verifier::reject_recursive_types(Params)]
#[verifier::reject_recursive_types(Results)]
pub struct ExTypedFunc<Params, Results>(TypedFunc<Params, Results>);

/// `wasmtime::Error` (`anyhow::Error`), the error of every fallible `wasmtime` call.
#[verifier::external_type_specification]
#[verifier::external_body]
pub struct ExWasmError(wasmtime::Error);

/// Calls `Config::new`: the default settings.
#[verifier::external_body]
fn default_config() -> Config {
    Config::new()
}

/// Calls `Config::consume_fuel(true)`, so that stores can be given fuel.
#[verifier::external_body]
fn enable_fuel(config: &mut Config) {
    config.consume_fuel(true);
}

/// Calls `Engine::new`, which fails when the settings are unusable here.
#[verifier::external_body]
fn new_engine(config: &Config) -> Result<Engine, wasmtime::Error> {
    Engine::new(config)
}

/// Renders a `wasmtime` error with `Display`: its outermost message.
#[verifier::external_body]
fn error_text(e: &wasmtime::Error) -> String {
    format!("{}", e)
}

/// Calls `std::str::from_utf8` and copies the text out. As its documentation
/// states, it succeeds exactly on valid UTF-8, which it decodes unchanged.
#[verifier::external_body]
fn utf8_text(bytes: &[u8]) -> (r: Option<String>)
    ensures
        match r {
            Some(s) => valid_utf8(bytes@) && s@ == decode_utf8(bytes@),
            None => !valid_utf8(bytes@),
        },
{
    match std::str::from_utf8(bytes) {
        Ok(s) => Some(s.to_string()),
        Err(_) => None,
    }
}

/// How far an answer text is searched for its terminating NUL: one MiB.
pub const SCAN_LIMIT: usize = 1048576;

/// Fuel for one decode call (about ten million instructions).
pub const DECODE_FUEL: u64 = 10000000;

/// Fuel for a `params()` query.
pub const PARAMS_FUEL: u64 = 1000000;

/// The first position from `k` on, and before `limit`, holding a NUL; `limit` when there is none.
pub open spec fn nul_end(mem: Seq<u8>, k: int, limit: int) -> int
    decreases limit - k,
{
    if k >= limit || mem[k] == 0 {
        k
    } else {
        nul_end(mem, k + 1, limit)
    }
}

/// The answer text at `start`: the bytes up to the first NUL, looking no
/// further than a MiB and not past the memory's end, read as UTF-8; nothing
/// when they are not UTF-8.
pub open spec fn nul_text(mem: Seq<u8>, start: int) -> Option<Seq<char>> {
    let limit = if mem.len() < start + SCAN_LIMIT {
        mem.len() as int
    } else {
        start + SCAN_LIMIT
    };
    let bytes = mem.subrange(start, nul_end(mem, start, limit));
    if valid_utf8(bytes) {
        Some(decode_utf8(bytes))
    } else {
        None
    }
}

/// An optional string as optional characters.
pub open spec fn opt_chars(r: Option<String>) -> Option<Seq<char>> {
    match r {
        Some(s) => Some(s@),
        None => None,
    }
}

/// Reads the NUL-terminated UTF-8 text at `start`; see [`nul_text`].
pub fn read_nul_terminated_str(mem: &[u8], start: usize) -> (r: Option<String>)
    requires
        start <= mem@.len(),
    ensures
        opt_chars(r) == nul_text(mem@, start as int),
{
    let reach = start.saturating_add(SCAN_LIMIT);
    let limit = if mem.len() < reach {
        mem.len()
    } else {
        reach
    };
    let mut end = start;
    while end < limit && mem[end] != 0
        invariant
            start <= end <= limit,
            limit <= mem@.len(),
            nul_end(mem@, start as int, limit as int) == nul_end(mem@, end as int, limit as int),
        decreases limit - end,
    {
        end = end + 1;
    }
    utf8_text(slice_subrange(mem, start, end))
}

/// What went wrong with a place a plugin named in its memory.
#[derive(Clone, Copy, PartialEq, Eq, Structural, Debug)]
pub enum RegionFault {
    /// The pointer is negative.
    Negative,
    /// The region runs past the end of the memory.
    OutOfBounds,
}

/// Checks a region of `len` bytes at the plugin pointer `ptr` against a
/// memory of `mem_len` bytes: its start as an offset, or why it is unusable.
pub fn check_region(ptr: i32, len: usize, mem_len: usize) -> (r: Result<usize, RegionFault>)
    ensures
        ptr < 0 ==> r == Err::<usize, RegionFault>(RegionFault::Negative),
        ptr >= 0 && ptr + len > mem_len ==> r == Err::<usize, RegionFault>(RegionFault::OutOfBounds),
        ptr >= 0 && ptr + len <= mem_len ==> r == Ok::<usize, RegionFault>(ptr as usize),
{
    if ptr < 0 {
        return Err(RegionFault::Negative);
    }
    let p = ptr as usize;
    if len > mem_len || p > mem_len - len {
        Err(RegionFault::OutOfBounds)
    } else {
        Ok(p)
    }
}

/// Why a WASM decoder produced no entries.
#[derive(Clone, Debug)]
pub enum WasmFault {
    /// `wasmtime` refused or the plugin trapped; its message.
    Runtime(String),
    /// No `memory` export.
    NoMemory,
    /// No usable `alloc` export; `wasmtime`'s message.
    MissingAlloc(String),
    /// No usable `decode` export; `wasmtime`'s message.
    MissingDecode(String),
    /// The selection is longer than an `i32` can say.
    InputTooLarge,
    /// `alloc` for the input gave an unusable place.
    InputRegion(RegionFault),
    /// The parameter JSON is longer than an `i32` can say.
    ParamsTooLarge,
    /// `alloc` for the parameters gave an unusable place.
    ParamsRegion(RegionFault),
    /// The answer pointer is negative.
    NegativeResult,
    /// The answer pointer is past the memory's end.
    ResultOutOfBounds,
    /// The answer is not UTF-8.
    InvalidUtf8,
    /// The answer is not a JSON array.
    BadAnswer(JsonError),
}

/// The message of a fault of the decoder `name`.
pub open spec fn fault_text(name: Seq<char>, f: WasmFault) -> Seq<char> {
    match f {
        WasmFault::Runtime(m) => m@,
        WasmFault::NoMemory => name + ": no 'memory' export"@,
        WasmFault::MissingAlloc(m) => name + ": missing 'alloc' export: "@ + m@,
        WasmFault::MissingDecode(m) => name + ": missing 'decode' export: "@ + m@,
        WasmFault::InputTooLarge => name + ": input too large for WASM i32"@,
        WasmFault::InputRegion(RegionFault::Negative) => name + ": alloc returned negative pointer"@,
        WasmFault::InputRegion(RegionFault::OutOfBounds) => name
            + ": alloc returned out-of-bounds pointer"@,
        WasmFault::ParamsTooLarge => name + ": params too large for WASM i32"@,
        WasmFault::ParamsRegion(RegionFault::Negative) => name
            + ": alloc returned negative pointer for params"@,
        WasmFault::ParamsRegion(RegionFault::OutOfBounds) => name
            + ": alloc returned out-of-bounds pointer for params"@,
        WasmFault::NegativeResult => name + ": decode returned negative pointer"@,
        WasmFault::ResultOutOfBounds => name + ": decode returned out-of-bounds pointer"@,
        WasmFault::InvalidUtf8 => name + ": invalid UTF-8 in result"@,
        WasmFault::BadAnswer(JsonError::ExpectedArray) => "Expected JSON array"@,
    }
}

/// The message of a fault; see [`fault_text`].
pub fn fault_message(name: &str, f: &WasmFault) -> (s: String)
    ensures
        s@ == fault_text(name@, *f),
{
    let mut out = String::new();
    match f {
        WasmFault::Runtime(m) => {
            push_str(&mut out, m.as_str());
            return out;
        },
        WasmFault::BadAnswer(JsonError::ExpectedArray) => {
            push_str(&mut out, "Expected JSON array");
            return out;
        },
        _ => {},
    }
    push_str(&mut out, name);
    match f {
        WasmFault::NoMemory => push_str(&mut out, ": no 'memory' export"),
        WasmFault::MissingAlloc(m) => {
            push_str(&mut out, ": missing 'alloc' export: ");
            push_str(&mut out, m.as_str());
        },
        WasmFault::MissingDecode(m) => {
            push_str(&mut out, ": missing 'decode' export: ");
            push_str(&mut out, m.as_str());
        },
        WasmFault::InputTooLarge => push_str(&mut out, ": input too large for WASM i32"),
        WasmFault::InputRegion(RegionFault::Negative) => push_str(
            &mut out,
            ": alloc returned negative pointer",
        ),
        WasmFault::InputRegion(RegionFault::OutOfBounds) => push_str(
            &mut out,
            ": alloc returned out-of-bounds pointer",
        ),
        WasmFault::ParamsTooLarge => push_str(&mut out, ": params too large for WASM i32"),
        WasmFault::ParamsRegion(RegionFault::Negative) => push_str(
            &mut out,
            ": alloc returned negative pointer for params",
        ),
        WasmFault::ParamsRegion(RegionFault::OutOfBounds) => push_str(
            &mut out,
            ": alloc returned out-of-bounds pointer for params",
        ),
        WasmFault::NegativeResult => push_str(&mut out, ": decode returned negative pointer"),
        WasmFault::ResultOutOfBounds => push_str(
            &mut out,
            ": decode returned out-of-bounds pointer",
        ),
        WasmFault::InvalidUtf8 => push_str(&mut out, ": invalid UTF-8 in result"),
        _ => {},
    }
    out
}

/// Reads the answer at the plugin pointer `ptr` and parses it: the pointer
/// must be non-negative and inside the memory, the text UTF-8 and a JSON array.
pub fn answer_entries(mem: &[u8], ptr: i32) -> (r: Result<Vec<DecodedValue>, WasmFault>)
    ensures
        r matches Ok(v) ==> forall|k: int| 0 <= k < v@.len() ==> (#[trigger] v@[k]).color_index is None,
        ptr < 0 ==> r matches Err(WasmFault::NegativeResult),
        ptr >= mem@.len() ==> r matches Err(WasmFault::ResultOutOfBounds),
        0 <= ptr < mem@.len() ==> match nul_text(mem@, ptr as int) {
            None => r matches Err(WasmFault::InvalidUtf8),
            Some(t) => match (r, parse_results_spec(t)) {
                (Ok(v), Ok(w)) => entries_match(v@, w),
                (Err(WasmFault::BadAnswer(e)), Err(e2)) => e == e2,
                _ => false,
            },
        },
{
    if ptr < 0 {
        return Err(WasmFault::NegativeResult);
    }
    let start = ptr as usize;
    if start >= mem.len() {
        return Err(WasmFault::ResultOutOfBounds);
    }
    match read_nul_terminated_str(mem, start) {
        None => Err(WasmFault::InvalidUtf8),
        Some(text) => match parse_json_results(text.as_str()) {
            Ok(v) => {
                assert forall|k: int| 0 <= k < v@.len() implies (#[trigger] v@[k]).color_index is None by {
                    let w = parse_results_spec(text@)->Ok_0;
                    assert(v@[k].label@ == w[k].0);
                }
                Ok(v)
            },
            Err(e) => Err(WasmFault::BadAnswer(e)),
        },
    }
}

/// The parameter definitions in a `params()` answer at `ptr`; none when the
/// pointer is negative or past the memory, or the text is not UTF-8.
pub fn answer_params(mem: &[u8], ptr: i32) -> (r: Vec<DecoderParam>)
    ensures
        !(0 <= ptr < mem@.len()) ==> r@.len() == 0,
        0 <= ptr < mem@.len() ==> match nul_text(mem@, ptr as int) {
            None => r@.len() == 0,
            Some(t) => params_match(r@, parse_params_spec(t)),
        },
{
    if ptr < 0 {
        return Vec::new();
    }
    let start = ptr as usize;
    if start >= mem.len() {
        return Vec::new();
    }
    match read_nul_terminated_str(mem, start) {
        None => Vec::new(),
        Some(text) => parse_param_definitions(text.as_str()),
    }
}

/// A compiled WASM decoder and its display name.
pub struct WasmDecoder {
    /// The plugin's file stem.
    pub name: String,
    module: CompiledModule,
}

/// The WASM decoder plugins: a fuel-metering engine and the compiled modules.
pub struct WasmDecoderManager {
    engine: Engine,
    decoders: Vec<WasmDecoder>,
}

/// Whether the module of `w` exports `memory`.
pub open spec fn has_memory(w: Seq<u8>) -> bool {
    exports_memory(w, "memory"@)
}

/// Whether the module of `w` exports `alloc(i32) -> i32`.
pub open spec fn has_alloc(w: Seq<u8>) -> bool {
    exports_i32_func(w, "alloc"@, 1, 1)
}

/// Whether the module of `w` exports `decode(i32, i32, i32) -> i32`.
pub open spec fn has_decode(w: Seq<u8>) -> bool {
    exports_i32_func(w, "decode"@, 3, 1)
}

/// Whether the module of `w` exports `decode_with_params(i32, i32, i32, i32, i32) -> i32`.
pub open spec fn has_decode_with_params(w: Seq<u8>) -> bool {
    exports_i32_func(w, "decode_with_params"@, 5, 1)
}

/// Whether the module of `w` exports `params() -> i32`.
pub open spec fn has_params(w: Seq<u8>) -> bool {
    exports_i32_func(w, "params"@, 0, 1)
}

/// A run's result with its fields as a sequence.
pub open spec fn seq_result(r: Result<Vec<DecodedValue>, WasmFault>) -> Result<Seq<DecodedValue>, WasmFault> {
    match r {
        Ok(v) => Ok(v@),
        Err(f) => Err(f),
    }
}

/// What a decode run of an instance of the module `w` on `b` gives, with the
/// calls it made into the plugin:
/// - `NoMemory`, `MissingAlloc` and `MissingDecode` exactly when `memory`,
///   `alloc` or `decode` is the first of them the module does not export, and
///   `InputTooLarge` exactly when it exports all three but `b` is longer than
///   an `i32` can say; in these cases no call is made;
/// - on success, the calls of [`decode_with_params_calls`] when there are
///   parameters and the module exports `decode_with_params`, else those of
///   [`decode_calls`]; and the fields, uncoloured, of some answer text.
pub open spec fn decode_run(
    w: Seq<u8>,
    b: Seq<u8>,
    e: Endian,
    ps: Seq<(String, String)>,
    r: Result<Seq<DecodedValue>, WasmFault>,
    calls: Seq<PluginCall>,
) -> bool {
    let ready = has_memory(w) && has_alloc(w) && has_decode(w);
    &&& (r matches Err(WasmFault::NoMemory)) <==> !has_memory(w)
    &&& (r matches Err(WasmFault::MissingAlloc(_))) <==> has_memory(w) && !has_alloc(w)
    &&& (r matches Err(WasmFault::MissingDecode(_))) <==> has_memory(w) && has_alloc(w) && !has_decode(w)
    &&& (r matches Err(WasmFault::InputTooLarge)) <==> ready && b.len() > 0x7fff_ffff
    &&& (!ready || b.len() > 0x7fff_ffff) ==> calls.len() == 0
    &&& (r is Ok && ps.len() > 0 && has_decode_with_params(w)) ==> exists|p: i32, q: i32|
        calls == #[trigger] decode_with_params_calls(p, q, b, e, params_json_bytes(ps))
    &&& (r is Ok && !(ps.len() > 0 && has_decode_with_params(w))) ==> exists|p: i32|
        calls == #[trigger] decode_calls(p, b, e)
    &&& r is Ok ==> b.len() <= 0x7fff_ffff
    &&& r matches Ok(v) ==> forall|k: int| 0 <= k < v.len() ==> (#[trigger] v[k]).color_index is None
    &&& r matches Ok(v) ==> exists|t: Seq<char>| #[trigger] parse_results_spec(t) matches Ok(x) && entries_match(v, x)
}

/// What running decoder module `w` in a fresh instance gives: a `Runtime`
/// fault with no call made when the instance cannot be made, else a decode
/// run of it ([`decode_run`]).
pub open spec fn decoder_run(
    w: Seq<u8>,
    b: Seq<u8>,
    e: Endian,
    ps: Seq<(String, String)>,
    r: Result<Seq<DecodedValue>, WasmFault>,
    calls: Seq<PluginCall>,
) -> bool {
    ||| (r matches Err(WasmFault::Runtime(_)) && calls.len() == 0)
    ||| decode_run(w, b, e, ps, r, calls)
}

/// The entries a run contributes to the decode panel: its fields, or one
/// uncoloured, rangeless entry labelled with the decoder's name and carrying
/// `error: ` and the message of its fault (see [`fault_text`]).
pub open spec fn run_entries_are(
    name: Seq<char>,
    r: Result<Seq<DecodedValue>, WasmFault>,
    chunk: Seq<DecodedValue>,
) -> bool {
    match r {
        Ok(v) => chunk == v,
        Err(f) => chunk.len() == 1 && chunk[0].label@ == name && chunk[0].value@ == "error: "@ + fault_text(
            name,
            f,
        ) && chunk[0].range is None && chunk[0].color_index is None,
    }
}

/// Whether the decoder is enabled in the settings for `source`: the first
/// decoder registered with that name and source, or any unregistered one.
pub open spec fn plugin_enabled(ds: Seq<DecoderModel>, name: Seq<char>, source: DecoderSource) -> bool {
    match find_decoder(ds, name, source) {
        Some(k) => ds[k].enabled,
        None => true,
    }
}

/// The current `(name, value)` pairs of a decoder's parameters, as the
/// settings hold them; none for an unregistered decoder.
pub open spec fn settings_params(ds: Seq<DecoderModel>, name: Seq<char>, source: DecoderSource) -> Seq<
    (Seq<char>, Seq<char>),
> {
    match find_decoder(ds, name, source) {
        Some(k) => param_pairs(ds[k].params),
        None => Seq::empty(),
    }
}

/// Whether `chunk` is what the WASM decoder `name`, compiled from `w`,
/// contributes: nothing when the settings disable it, else the entries of a
/// run of it on `b` with its parameters from the settings.
pub open spec fn plugin_chunk_ok(
    name: Seq<char>,
    w: Seq<u8>,
    ds: Seq<DecoderModel>,
    b: Seq<u8>,
    e: Endian,
    chunk: Seq<DecodedValue>,
) -> bool {
    if plugin_enabled(ds, name, DecoderSource::Wasm) {
        exists|ps: Seq<(String, String)>, r: Result<Seq<DecodedValue>, WasmFault>, calls: Seq<PluginCall>|
            string_pairs(ps) == settings_params(ds, name, DecoderSource::Wasm) && #[trigger] decoder_run(
                w,
                b,
                e,
                ps,
                r,
                calls,
            ) && run_entries_are(name, r, chunk)
    } else {
        chunk.len() == 0
    }
}

/// Whether `r` is the concatenation, in decoder order, of what each decoder
/// contributes; see [`plugin_chunk_ok`].
pub open spec fn decoded_by_plugins(
    names: Seq<Seq<char>>,
    wasms: Seq<Seq<u8>>,
    ds: Seq<DecoderModel>,
    b: Seq<u8>,
    e: Endian,
    r: Seq<DecodedValue>,
) -> bool {
    exists|chunks: Seq<Seq<DecodedValue>>|
        chunks.len() == names.len() && r == chunks.flatten() && forall|k: int|
            0 <= k < names.len() ==> plugin_chunk_ok(names[k], wasms[k], ds, b, e, #[trigger] chunks[k])
}

impl WasmDecoderManager {
    /// The decoders' names, in the order they were added.
    pub closed spec fn names(&self) -> Seq<Seq<char>> {
        self.decoders@.map_values(|d: WasmDecoder| d.name@)
    }

    /// The WebAssembly binaries the decoders were compiled from, in the same order.
    pub closed spec fn wasms(&self) -> Seq<Seq<u8>> {
        self.decoders@.map_values(|d: WasmDecoder| d.module.wasm())
    }

    /// A manager with a fuel-metering engine and no decoders; `None` when
    /// `wasmtime` cannot make such an engine here.
    pub fn new() -> (r: Option<Self>)
        ensures
            r matches Some(m) ==> m.names().len() == 0 && m.wasms().len() == 0,
    {
        let mut config = default_config();
        enable_fuel(&mut config);
        match new_engine(&config) {
            Ok(engine) => {
                let m = WasmDecoderManager { engine, decoders: Vec::new() };
                assert(m.names() =~= Seq::<Seq<char>>::empty());
                assert(m.wasms() =~= Seq::<Seq<u8>>::empty());
                Some(m)
            },
            Err(_) => None,
        }
    }

    /// The engine this manager runs its plugins with.
    pub closed spec fn engine_used(&self) -> Engine {
        self.engine
    }

    /// The engine that plugin modules are compiled with.
    pub fn engine(&self) -> (r: &Engine)
        ensures
            *r == self.engine_used(),
    {
        &self.engine
    }

    /// Compiles a WebAssembly binary and adds it under a name; on failure
    /// nothing is added and the error's message comes back.
    pub fn add_decoder(&mut self, name: String, wasm: &[u8]) -> (r: Result<(), String>)
        ensures
            r is Ok ==> final(self).names() == old(self).names().push(name@),
            r is Ok ==> final(self).wasms() == old(self).wasms().push(wasm@),
            r is Err ==> final(self).names() == old(self).names() && final(self).wasms() == old(self).wasms(),
    {
        let ghost n = name@;
        match CompiledModule::compile(&self.engine, wasm) {
            Ok(module) => {
                self.decoders.push(WasmDecoder { name, module });
                assert(self.names() =~= old(self).names().push(n));
                assert(self.wasms() =~= old(self).wasms().push(wasm@));
                Ok(())
            },
            Err(e) => Err(error_text(&e)),
        }
    }

    /// The names of the decoders, in the order they were added.
    pub fn decoder_names(&self) -> (r: Vec<String>)
        ensures
            string_views(r@) == self.names(),
    {
        let mut out: Vec<String> = Vec::new();
        let mut k: usize = 0;
        while k < self.decoders.len()
            invariant
                k <= self.decoders@.len(),
                out@.len() == k,
                forall|j: int| 0 <= j < k ==> (#[trigger] out@[j])@ == self.decoders@[j].name@,
            decreases self.decoders.len() - k,
        {
            out.push(self.decoders[k].name.clone());
            k = k + 1;
        }
        assert(string_views(out@) =~= self.names());
        out
    }

    /// A fresh instance of decoder `idx` with `fuel`, no exports bound yet.
    fn start(&self, idx: usize, fuel: u64) -> (r: Result<PluginInstance, WasmFault>)
        requires
            idx < self.decoders@.len(),
        ensures
            r matches Err(f) ==> f is Runtime,
            r matches Ok(run) ==> run.exports() == (false, false, false, false, false),
            r matches Ok(run) ==> run.calls().len() == 0,
            r matches Ok(run) ==> run.wasm() == self.wasms()[idx as int] && run.fuel() == fuel,
    {
        match PluginInstance::start(&self.engine, &self.decoders[idx].module, fuel) {
            Ok(run) => Ok(run),
            Err(e) => Err(WasmFault::Runtime(error_text(&e))),
        }
    }

    /// The parameters the decoder named `name` declares through its
    /// `params()` export: the declarations its answer text parses to (see
    /// [`parse_params_spec`]); none when there is no such decoder, export or
    /// readable answer.
    pub fn query_params(&self, name: &str) -> (r: Vec<DecoderParam>)
        ensures
            !self.names().contains(name@) ==> r@.len() == 0,
            forall|k: int|
                0 <= k < self.names().len() && #[trigger] self.names()[k] == name@ && (forall|j: int|
                    0 <= j < k ==> self.names()[j] != name@) ==> (!(has_memory(self.wasms()[k]) && has_params(
                    self.wasms()[k],
                )) ==> r@.len() == 0),
            r@.len() == 0 || exists|t: Seq<char>| params_match(r@, #[trigger] parse_params_spec(t)),
    {
        let mut k: usize = 0;
        while k < self.decoders.len()
            invariant
                k <= self.decoders@.len(),
                forall|j: int| 0 <= j < k ==> self.names()[j] != name@,
            ensures
                k < self.decoders@.len() ==> self.decoders@[k as int].name@ == name@,
            decreases self.decoders.len() - k,
        {
            if str_eq(self.decoders[k].name.as_str(), name) {
                break;
            }
            k = k + 1;
        }
        if k >= self.decoders.len() {
            return Vec::new();
        }
        assert(self.names()[k as int] == name@);
        let mut run = match self.start(k, PARAMS_FUEL) {
            Ok(p) => p,
            Err(_) => {
                return Vec::new();
            },
        };
        run_plugin_params(&mut run)
    }

    /// Copies `bytes` into the plugin's memory at a place its `alloc` gives.
    fn place(run: &mut PluginInstance, bytes: &[u8], len: i32) -> (r: Result<i32, Result<RegionFault, WasmFault>>)
        requires
            old(run).exports().0,
            old(run).exports().1,
        ensures
            final(run).exports() == old(run).exports(),
            final(run).same_plugin(old(run)),
            r matches Ok(p) ==> 0 <= p && final(run).calls() == old(run).calls() + placed(len, p, bytes@),
            r is Err ==> final(run).calls() == old(run).calls().push(PluginCall::Alloc(len)),
            r matches Err(Err(f)) ==> f is Runtime,
    {
        let ptr = match call_alloc(run, len) {
            Ok(p) => p,
            Err(e) => {
                return Err(Err(WasmFault::Runtime(error_text(&e))));
            },
        };
        let mem_len = memory_size(run);
        match check_region(ptr, bytes.len(), mem_len) {
            Err(f) => Err(Ok(f)),
            Ok(at) => {
                if write_memory(run, at, bytes) {
                    assert(final(run).calls() =~= old(run).calls() + placed(len, ptr, bytes@));
                    Ok(ptr)
                } else {
                    Err(Ok(RegionFault::OutOfBounds))
                }
            },
        }
    }

    /// Runs decoder `idx` on `bytes` in a fresh instance of it with the decode
    /// fuel (see [`run_plugin_decode`]), and hands back the instance, whose
    /// record holds the calls made; none when the instance cannot be made.
    fn run_decoder(&self, idx: usize, bytes: &[u8], endian: Endian, params: &Vec<(String, String)>) -> (r: (
        Result<Vec<DecodedValue>, WasmFault>,
        Option<PluginInstance>,
    ))
        requires
            idx < self.decoders@.len(),
        ensures
            r.1 is None ==> r.0 matches Err(WasmFault::Runtime(_)),
            r.1 matches Some(run) ==> run.wasm() == self.wasms()[idx as int] && run.fuel() == DECODE_FUEL
                && decode_run(run.wasm(), bytes@, endian, params@, seq_result(r.0), run.calls()),
    {
        let mut run = match self.start(idx, DECODE_FUEL) {
            Ok(run) => run,
            Err(f) => {
                return (Err(f), None);
            },
        };
        let r = run_plugin_decode(&mut run, bytes, endian, params);
        proof {
            assert(run.calls().skip(0) =~= run.calls());
        }
        (r, Some(run))
    }

    /// Runs every decoder that the settings enable for WASM, in order, on the
    /// selection with its current parameters; see [`decoded_by_plugins`].
    pub fn decode(&self, bytes: &[u8], endian: Endian, app: &App) -> (r: Vec<DecodedValue>)
        ensures
            decoded_by_plugins(self.names(), self.wasms(), app@.decoders, bytes@, endian, r@),
    {
        let ghost wasms = self.wasms();
        let ghost names = self.decoders@.map_values(|d: WasmDecoder| d.name@);
        let ghost mut chunks: Seq<Seq<DecodedValue>> = Seq::empty();
        let mut results: Vec<DecodedValue> = Vec::new();
        let mut i: usize = 0;
        while i < self.decoders.len()
            invariant
                i <= self.decoders@.len(),
                names == self.decoders@.map_values(|d: WasmDecoder| d.name@),
                chunks.len() == i,
                results@ == chunks.flatten(),
                wasms == self.wasms(),
                forall|k: int|
                    0 <= k < i ==> plugin_chunk_ok(names[k], wasms[k], app@.decoders, bytes@, endian, #[trigger] chunks[k]),
            decreases self.decoders.len() - i,
        {
            let name = &self.decoders[i].name;
            let ghost before = results@;
            let ghost chunk: Seq<DecodedValue>;
            if !app.is_decoder_enabled(name.as_str(), &DecoderSource::Wasm) {
                proof {
                    chunk = Seq::empty();
                }
            } else {
                let params = app.decoder_params(name.as_str(), &DecoderSource::Wasm);
                let (outcome, run) = self.run_decoder(i, bytes, endian, &params);
                let ghost res = seq_result(outcome);
                let ghost calls = match run {
                    Some(p) => p.calls(),
                    None => Seq::<PluginCall>::empty(),
                };
                proof {
                    assert(names[i as int] == name@);
                    assert(wasms[i as int] == self.decoders@[i as int].module.wasm());
                    assert(decoder_run(wasms[i as int], bytes@, endian, params@, res, calls));
                }
                match outcome {
                    Ok(mut vals) => {
                        proof {
                            chunk = vals@;
                        }
                        results.append(&mut vals);
                    },
                    Err(f) => {
                        let msg = fault_message(name.as_str(), &f);
                        let entry = plugin_error(name.as_str(), msg.as_str());
                        proof {
                            chunk = seq![entry];
                            assert(entry.value@ == "error: "@ + fault_text(name@, f));
                        }
                        results.push(entry);
                    },
                }
                proof {
                    assert(run_entries_are(name@, res, chunk));
                    assert(plugin_chunk_ok(name@, wasms[i as int], app@.decoders, bytes@, endian, chunk));
                }
            }
            proof {
                assert(names[i as int] == name@);
                assert(results@ == before + chunk);
                assert(chunks.push(chunk).flatten() =~= chunks.flatten() + chunk) by {
                    chunks.lemma_flatten_push(chunk);
                }
                chunks = chunks.push(chunk);
                assert(plugin_chunk_ok(names[i as int], wasms[i as int], app@.decoders, bytes@, endian, chunks[i as int]));
            }
            i = i + 1;
        }
        proof {
            assert(names.len() == chunks.len());
        }
        results
    }
}

/// The number a plugin is handed for a byte order: 0 little-endian, 1 big-endian.
pub open spec fn endian_code(e: Endian) -> i32 {
    match e {
        Endian::Little => 0,
        Endian::Big => 1,
    }
}

/// The UTF-8 bytes of the parameter object handed to a plugin.
pub open spec fn params_json_bytes(params: Seq<(String, String)>) -> Seq<u8> {
    encode_utf8(seq!['{'] + param_value_members(pair_views(params)) + seq!['}'])
}

/// The calls that place `bytes` in a plugin: `alloc(len)`, which gave `p`,
/// then the copy of `bytes` to `p`.
pub open spec fn placed(len: i32, p: i32, bytes: Seq<u8>) -> Seq<PluginCall> {
    seq![PluginCall::Alloc(len), PluginCall::Write(p as usize, bytes)]
}

/// The calls of a run without parameters: the input placed at `p`, then
/// `decode(p, len, endian)`.
pub open spec fn decode_calls(p: i32, bytes: Seq<u8>, e: Endian) -> Seq<PluginCall> {
    placed(bytes.len() as i32, p, bytes) + seq![PluginCall::Decode(p, bytes.len() as i32, endian_code(e))]
}

/// The calls of a run with parameters: the input placed at `p`, the parameter
/// object at `q`, then `decode_with_params(p, len, endian, q, json_len)`.
pub open spec fn decode_with_params_calls(p: i32, q: i32, bytes: Seq<u8>, e: Endian, json: Seq<u8>) -> Seq<
    PluginCall,
> {
    placed(bytes.len() as i32, p, bytes) + placed(json.len() as i32, q, json) + seq![
        PluginCall::DecodeWithParams(p, bytes.len() as i32, endian_code(e), q, json.len() as i32),
    ]
}

/// Runs a plugin's decoder on `bytes`: binds the `memory`, `alloc` and
/// `decode` exports, copies the bytes to a place `alloc` gives, and calls
/// `decode_with_params` with the parameter object also copied in when there
/// are parameters and the plugin exports it, else `decode`; then reads the
/// answer at the pointer returned.
///
/// The calls it makes are appended to the instance's record; what it gives,
/// with those calls, is a [`decode_run`] of the instance's module.
pub fn run_plugin_decode(run: &mut PluginInstance, bytes: &[u8], endian: Endian, params: &Vec<(String, String)>) -> (r:
    Result<Vec<DecodedValue>, WasmFault>)
    ensures
        final(run).same_plugin(old(run)),
        final(run).calls().len() >= old(run).calls().len(),
        final(run).calls().take(old(run).calls().len() as int) == old(run).calls(),
        decode_run(
            old(run).wasm(),
            bytes@,
            endian,
            params@,
            seq_result(r),
            final(run).calls().skip(old(run).calls().len() as int),
        ),
{
    let ghost c0 = run.calls();
    proof {
        assert(c0.skip(c0.len() as int) =~= Seq::<PluginCall>::empty());
        assert(c0.take(c0.len() as int) =~= c0);
    }
    if !bind_memory(run, "memory") {
        return Err(WasmFault::NoMemory);
    }
    if let Err(e) = bind_alloc(run, "alloc") {
        return Err(WasmFault::MissingAlloc(error_text(&e)));
    }
    if let Err(e) = bind_decode(run, "decode") {
        return Err(WasmFault::MissingDecode(error_text(&e)));
    }
    if bytes.len() > 0x7fff_ffff {
        return Err(WasmFault::InputTooLarge);
    }
    let ghost bound = run.calls();
    assert(bound == c0);
    let input_len = bytes.len() as i32;
    let input_ptr = match WasmDecoderManager::place(run, bytes, input_len) {
        Ok(p) => p,
        Err(Ok(f)) => {
            return Err(WasmFault::InputRegion(f));
        },
        Err(Err(f)) => {
            return Err(f);
        },
    };
    let endian_val: i32 = match endian {
        Endian::Little => 0,
        Endian::Big => 1,
    };
    let with_params = params.len() > 0 && bind_decode_with_params(run, "decode_with_params").is_ok();
    let called = if with_params {
        let json = build_params_json(params.as_slice());
        let json_bytes = json.as_str().as_bytes();
        if json_bytes.len() > 0x7fff_ffff {
            return Err(WasmFault::ParamsTooLarge);
        }
        let params_len = json_bytes.len() as i32;
        let params_ptr = match WasmDecoderManager::place(run, json_bytes, params_len) {
            Ok(p) => p,
            Err(Ok(f)) => {
                return Err(WasmFault::ParamsRegion(f));
            },
            Err(Err(f)) => {
                return Err(f);
            },
        };
        let c = call_decode_with_params(run, (input_ptr, input_len, endian_val, params_ptr, params_len));
        proof {
            assert(json_bytes@ == params_json_bytes(params@));
            let dc = decode_with_params_calls(input_ptr, params_ptr, bytes@, endian, params_json_bytes(params@));
            assert(run.calls() =~= bound + dc);
            assert(run.calls().skip(c0.len() as int) =~= dc);
            assert(run.calls().take(c0.len() as int) =~= c0);
        }
        c
    } else {
        let c = call_decode(run, (input_ptr, input_len, endian_val));
        proof {
            let dc = decode_calls(input_ptr, bytes@, endian);
            assert(run.calls() =~= bound + dc);
            assert(run.calls().skip(c0.len() as int) =~= dc);
            assert(run.calls().take(c0.len() as int) =~= c0);
        }
        c
    };
    let result_ptr = match called {
        Ok(p) => p,
        Err(e) => {
            return Err(WasmFault::Runtime(error_text(&e)));
        },
    };
    let mem = memory_data(run);
    let r = answer_entries(mem, result_ptr);
    proof {
        if r is Ok {
            let t = nul_text(mem@, result_ptr as int)->Some_0;
            assert(parse_results_spec(t) is Ok);
        }
    }
    r
}

/// Asks a plugin for its parameters: binds the `memory` and `params` exports,
/// calls `params()` and reads the declarations at the pointer it returns (see
/// [`parse_params_spec`]). Without either export nothing is called and there
/// are none; a declaration list means `params()` was the one call made.
pub fn run_plugin_params(run: &mut PluginInstance) -> (r: Vec<DecoderParam>)
    ensures
        final(run).same_plugin(old(run)),
        has_memory(old(run).wasm()) && has_params(old(run).wasm()) ==> final(run).calls() == old(run).calls().push(
            PluginCall::Params,
        ),
        !(has_memory(old(run).wasm()) && has_params(old(run).wasm())) ==> r@.len() == 0 && final(run).calls()
            == old(run).calls(),
        r@.len() == 0 || exists|t: Seq<char>| params_match(r@, #[trigger] parse_params_spec(t)),
{
    if !bind_memory(run, "memory") {
        return Vec::new();
    }
    if bind_params(run, "params").is_err() {
        return Vec::new();
    }
    let ptr = match call_params(run) {
        Ok(p) => p,
        Err(_) => {
            return Vec::new();
        },
    };
    let mem = memory_data(run);
    let r = answer_params(mem, ptr);
    proof {
        if r@.len() != 0 {
            let t = nul_text(mem@, ptr as int)->Some_0;
            assert(params_match(r@, parse_params_spec(t)));
        }
    }
    r
}

} // verus!
