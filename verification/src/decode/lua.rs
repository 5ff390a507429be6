//! Running Lua decoder scripts with `mlua`.
//!
//! A script defines a global `decode(bytes, endian, params)` that receives a
//! 1-indexed table of byte values, `"LE"` or `"BE"`, and a table of parameter
//! values, and returns a sequence of `{label, value, offset?, length?}`
//! tables; it may define `params()`, returning a sequence of
//! `{name, type, default, choices?}` tables. All scripts share one Lua state
//! that has only the table, string, utf8 and math libraries. Reading the
//! scripts from disk happens outside this library, which receives their text.
//! Each call into `mlua` goes through a trusted wrapper below; what the
//! library does with what comes back is verified.

use std::path::PathBuf;

use mlua::{Function, Lua, LuaOptions, StdLib, Table, Value};
use vstd::prelude::*;

use super::json::{entries_match, pair_views, ResultEntry};
use super::types::{endian_label, plugin_error, plugin_field, DecodedValue, Endian};
use super::wasm::{plugin_enabled, settings_params};
use crate::app::types::{make_param, param_type_for, str_eq, string_views};
use crate::app::{string_pairs, App, DecoderParam, DecoderSource};
use crate::text::push_str;

verus! {

/// `mlua::Lua`, a Lua state.
#[verifier::external_type_specification]
#[verifier::external_body]
pub struct ExLua(Lua);

/// `mlua::Table`, a reference to a Lua table.
#[verifier::external_type_specification]
#[verifier::external_body]
pub struct ExLuaTable(Table);

/// `mlua::Function`, a reference to a Lua function.
#[verifier::external_type_specification]
#[verifier::external_body]
pub struct ExLuaFunction(Function);

/// `mlua::Error`, the error of every fallible `mlua` call.
#[verifier::external_type_specification]
#[verifier::external_body]
pub struct ExLuaError(mlua::Error);

/// `mlua::StdLib`, a set of Lua standard libraries.
#[verifier::external_type_specification]
#[verifier::external_body]
pub struct ExStdLib(StdLib);

/// `std::path::PathBuf`, where a script lives.
#[verifier::external_type_specification]
#[verifier::external_body]
pub struct ExPathBuf(PathBuf);

/// A Lua standard library that scripts may use.
pub enum LuaLib {
    Table,
    Strings,
    Utf8,
    Math,
}

/// The `mlua::StdLib` flag of a library (`TABLE`, `STRING`, `UTF8`, `MATH`).
#[verifier::external_body]
fn std_lib(lib: LuaLib) -> StdLib {
    match lib {
        LuaLib::Table => StdLib::TABLE,
        LuaLib::Strings => StdLib::STRING,
        LuaLib::Utf8 => StdLib::UTF8,
        LuaLib::Math => StdLib::MATH,
    }
}

/// Calls `StdLib`'s `|`: the libraries of both sets.
#[verifier::external_body]
fn std_libs_union(a: StdLib, b: StdLib) -> StdLib {
    a | b
}

/// Calls `Lua::new_with` with the default options: a state with only the
/// given standard libraries; `mlua` refuses the unsafe `debug` and `ffi` ones.
#[verifier::external_body]
fn new_lua(libs: StdLib) -> Result<Lua, mlua::Error> {
    Lua::new_with(libs, LuaOptions::default())
}

/// What passed between this library and a Lua state: a chunk of source run
/// in it, and whether it ran without error; a global function looked up by
/// name, and whether there was one; a call of `decode` with the bytes, the
/// byte order's label and the parameter values; a call of `params`; how such
/// a call answered (`None` when it failed, else whether the answer is a
/// table); a member of an answer table read as text or as a count, with what
/// it gave (`None` where it was missing or did not convert).
pub enum LuaCall {
    Exec(Seq<char>, bool),
    Global(Seq<char>, bool),
    Decode(Seq<u8>, Seq<char>, Seq<(Seq<char>, Seq<char>)>),
    Params,
    Answer(Option<bool>),
    ReadText(Seq<char>, Option<Seq<char>>),
    ReadCount(Seq<char>, Option<usize>),
}

/// How a call answered: `None` when it failed, else whether with a table.
pub open spec fn answer_kind(r: Result<Option<Table>, mlua::Error>) -> Option<bool> {
    match r {
        Ok(Some(_)) => Some(true),
        Ok(None) => Some(false),
        Err(_) => None,
    }
}

/// A Lua state limited to the table, string, utf8 and math libraries, with
/// the record of what was handed to it. Each script runs in a fresh one, so
/// that nothing a script defines reaches the next.
pub struct Sandbox {
    lua: Lua,
    history: Ghost<Seq<LuaCall>>,
}

impl Sandbox {
    /// What was handed to the state so far, oldest first.
    pub closed spec fn calls(&self) -> Seq<LuaCall> {
        self.history@
    }

    /// A fresh state with the four libraries.
    pub fn new() -> (r: Result<Sandbox, mlua::Error>)
        ensures
            r matches Ok(sb) ==> sb.calls() == Seq::<LuaCall>::empty(),
    {
        let libs = std_libs_union(
            std_libs_union(std_lib(LuaLib::Table), std_lib(LuaLib::Strings)),
            std_libs_union(std_lib(LuaLib::Utf8), std_lib(LuaLib::Math)),
        );
        let lua = new_lua(libs)?;
        Ok(Sandbox { lua, history: Ghost(Seq::empty()) })
    }
}

/// Calls `Lua::load(source).exec()`: runs a chunk, which may define globals,
/// and records it with whether it ran without error. It returns only if the
/// script's code does: nothing limits how long it runs.
#[verifier::external_body]
fn exec_chunk(sb: &mut Sandbox, source: &str) -> (r: Result<(), mlua::Error>)
    ensures
        final(sb).calls() == old(sb).calls().push(LuaCall::Exec(source@, r is Ok)),
{
    sb.lua.load(source).exec()
}

/// Calls `Table::get::<Function>` on the globals: the global function of that
/// name, or an error when there is none; the lookup is recorded with whether
/// it found one. A script may give the globals an `__index` hook, which
/// returns only if its code does.
#[verifier::external_body]
fn global_function(sb: &mut Sandbox, name: &str) -> (r: Result<Function, mlua::Error>)
    ensures
        final(sb).calls() == old(sb).calls().push(LuaCall::Global(name@, r is Ok)),
{
    sb.lua.globals().get::<Function>(name)
}

/// Calls `Lua::create_sequence_from` on the bytes (`t[i + 1]` is byte `i`)
/// and `Lua::create_table_from` on the parameter values (`p[k]` is the value
/// of `k`), both of which set entries without hooks, then `Function::call`
/// with those tables and the byte order's label; the answer is kept when it
/// is a table. What was handed over is recorded, and then how the call
/// answered: `None` when building the tables or the call failed. The call
/// returns only if the script's code does.
#[verifier::external_body]
fn call_decode(
    sb: &mut Sandbox,
    f: &Function,
    bytes: &[u8],
    endian: &str,
    params: &Vec<(String, String)>,
) -> (r: Result<Option<Table>, mlua::Error>)
    ensures
        final(sb).calls() == old(sb).calls() + seq![
            LuaCall::Decode(bytes@, endian@, pair_views(params@)),
            LuaCall::Answer(answer_kind(r)),
        ],
{
    let t = sb.lua.create_sequence_from(bytes.iter().copied())?;
    let p = sb.lua.create_table_from(params.iter().map(|(k, v)| (k.as_str(), v.as_str())))?;
    match f.call::<Value>((t, endian, p))? {
        Value::Table(t) => Ok(Some(t)),
        _ => Ok(None),
    }
}

/// Calls `Function::call` with no arguments, which is recorded with how it
/// answered; the answer is kept when it is a table. The call returns only if
/// the script's code does.
#[verifier::external_body]
fn call_params(sb: &mut Sandbox, f: &Function) -> (r: Result<Option<Table>, mlua::Error>)
    ensures
        final(sb).calls() == old(sb).calls() + seq![LuaCall::Params, LuaCall::Answer(answer_kind(r))],
{
    match f.call::<Value>(())? {
        Value::Table(t) => Ok(Some(t)),
        _ => Ok(None),
    }
}

/// Collects `Table::sequence_values::<Table>`: the values at 1, 2, ... up to
/// the first nil, each as a table or the error of converting it to one.
#[verifier::external_body]
fn sequence_tables(t: &Table) -> Vec<Result<Table, mlua::Error>> {
    t.sequence_values::<Table>().collect()
}

/// Collects `Table::sequence_values::<String>`: the values at 1, 2, ... up to
/// the first nil, each as text or the error of converting it to text.
#[verifier::external_body]
fn sequence_texts(t: &Table) -> Vec<Result<String, mlua::Error>> {
    t.sequence_values::<String>().collect()
}

/// Calls `Table::get::<String>`: the field as text, or an error when it is
/// missing or not convertible; the read and what it gave are recorded. It runs the table's `__index` hook, if the
/// script gave it one, which returns only if the script's code does.
#[verifier::external_body]
fn get_text(sb: &mut Sandbox, t: &Table, key: &str) -> (r: Result<String, mlua::Error>)
    ensures
        final(sb).calls() == old(sb).calls().push(
            LuaCall::ReadText(
                key@,
                match r {
                    Ok(s) => Some(s@),
                    Err(_) => None,
                },
            ),
        ),
{
    t.get::<String>(key)
}

/// Calls `Table::get::<usize>`: the field as a count, or an error when it is
/// missing or not convertible; the read and what it gave are recorded. It runs the table's `__index` hook, if the
/// script gave it one, which returns only if the script's code does.
#[verifier::external_body]
fn get_count(sb: &mut Sandbox, t: &Table, key: &str) -> (r: Result<usize, mlua::Error>)
    ensures
        final(sb).calls() == old(sb).calls().push(
            LuaCall::ReadCount(
                key@,
                match r {
                    Ok(n) => Some(n),
                    Err(_) => None,
                },
            ),
        ),
{
    t.get::<usize>(key)
}

/// Calls `Table::get::<Table>`: the field as a table, or an error. It runs
/// the table's `__index` hook, if the script gave it one, which returns only
/// if the script's code does.
#[verifier::external_body]
fn get_table(t: &Table, key: &str) -> Result<Table, mlua::Error> {
    t.get::<Table>(key)
}

/// Renders an `mlua` error with `Display`.
#[verifier::external_body]
fn lua_error_text(e: &mlua::Error) -> String {
    e.to_string()
}

/// A field of a script's answer, each member as it converted: `label` and
/// `value` as text, `offset` and `length` as counts; `None` where the member
/// is missing or does not convert.
pub struct LuaAnswer {
    pub label: Option<String>,
    pub value: Option<String>,
    pub offset: Option<usize>,
    pub length: Option<usize>,
}

/// The text of an optional member, empty when it is absent.
pub open spec fn opt_text(t: Option<String>) -> Seq<char> {
    match t {
        Some(s) => s@,
        None => Seq::empty(),
    }
}

/// The field an answer table gives: its label and value (empty when absent),
/// and a range when it has both an offset and a length.
pub open spec fn answer_entry(a: LuaAnswer) -> ResultEntry {
    (
        opt_text(a.label),
        opt_text(a.value),
        match (a.offset, a.length) {
            (Some(o), Some(l)) => Some((o, l)),
            _ => None,
        },
    )
}

/// The fields of an answer's members in order; a member that is not a table
/// (`None`) gives none.
pub open spec fn answer_entries_of(items: Seq<Option<LuaAnswer>>) -> Seq<ResultEntry>
    decreases items.len(),
{
    if items.len() == 0 {
        Seq::empty()
    } else {
        (match items[0] {
            Some(a) => seq![answer_entry(a)],
            None => Seq::empty(),
        }) + answer_entries_of(items.drop_first())
    }
}

/// The fields of a script's answer, read into plain values; see [`answer_entries_of`].
#[verifier::spinoff_prover]
pub fn answer_fields(items: Vec<Option<LuaAnswer>>) -> (r: Vec<DecodedValue>)
    ensures
        entries_match(r@, answer_entries_of(items@)),
{
    let ghost all = items@;
    let ghost mut done: Seq<ResultEntry> = Seq::empty();
    let mut out: Vec<DecodedValue> = Vec::new();
    let mut items = items;
    let n = items.len();
    let mut k: usize = 0;
    while k < n
        invariant
            n == items@.len() + k,
            k <= n,
            done + answer_entries_of(items@) == answer_entries_of(all),
            entries_match(out@, done),
        decreases n - k,
    {
        let ghost before = items@;
        let item = items.remove(0);
        proof {
            assert(items@ =~= before.drop_first());
            assert(item == before[0]);
        }
        match item {
            Some(a) => {
                let ghost e = answer_entry(a);
                let label = match a.label {
                    Some(t) => t,
                    None => String::new(),
                };
                let value = match a.value {
                    Some(t) => t,
                    None => String::new(),
                };
                let d = plugin_field(label, value, a.offset, a.length);
                let ghost prev = out@;
                out.push(d);
                proof {
                    assert(done.push(e) + answer_entries_of(items@) =~= done + (seq![e] + answer_entries_of(
                        items@,
                    )));
                    assert forall|q: int| 0 <= q < out@.len() implies {
                        &&& #[trigger] out@[q].label@ == done.push(e)[q].0
                        &&& out@[q].value@ == done.push(e)[q].1
                        &&& out@[q].range == done.push(e)[q].2
                        &&& out@[q].color_index is None
                    } by {
                        if q < prev.len() {
                            assert(out@[q] == prev[q]);
                            assert(done.push(e)[q] == done[q]);
                        } else {
                            assert(out@[q] == d);
                            assert(done.push(e)[q] == e);
                        }
                        assert(out@[q].label@ == done.push(e)[q].0);
                        assert(out@[q].value@ == done.push(e)[q].1);
                        assert(out@[q].range == done.push(e)[q].2);
                    }
                    done = done.push(e);
                }
            },
            None => {
                proof {
                    assert(done + answer_entries_of(items@) =~= done + answer_entries_of(before));
                }
            },
        }
        k = k + 1;
    }
    proof {
        assert(items@ =~= Seq::<Option<LuaAnswer>>::empty());
        assert(done + answer_entries_of(items@) =~= done);
    }
    out
}

/// A parameter declaration of a script, each member as it converted: `name`,
/// `type` and `default` as text, and for a choice type the texts of its
/// `choices`; `None` where a member is missing or does not convert.
pub struct LuaParamDecl {
    pub name: Option<String>,
    pub kind: Option<String>,
    pub default: Option<String>,
    pub choices: Option<Vec<String>>,
}

/// The type name a declaration gives: `string` when it has none.
pub open spec fn decl_kind(d: LuaParamDecl) -> Seq<char> {
    match d.kind {
        Some(s) => s@,
        None => "string"@,
    }
}

/// The choice texts a declaration gives: none when it has no list.
pub open spec fn decl_choices(d: LuaParamDecl) -> Seq<Seq<char>> {
    match d.choices {
        Some(v) => string_views(v@),
        None => Seq::empty(),
    }
}

/// Whether `p` is the parameter that the declaration `d` makes: its name and
/// default (empty when absent), its value starting at the default, and the
/// type its type name gives.
pub open spec fn param_from_decl(p: DecoderParam, d: LuaParamDecl) -> bool {
    &&& p.name@ == opt_text(d.name)
    &&& p.default@ == opt_text(d.default)
    &&& p.value@ == opt_text(d.default)
    &&& param_type_for(p.param_type, decl_kind(d), decl_choices(d))
}

/// The declarations that make a parameter, in order: the members that are
/// tables (`Some`) with a non-empty name.
pub open spec fn named_decls(items: Seq<Option<LuaParamDecl>>) -> Seq<LuaParamDecl>
    decreases items.len(),
{
    if items.len() == 0 {
        Seq::empty()
    } else {
        (match items[0] {
            Some(d) => if opt_text(d.name).len() > 0 {
                seq![d]
            } else {
                Seq::empty()
            },
            None => Seq::empty(),
        }) + named_decls(items.drop_first())
    }
}

/// The parameters of a script's declarations, read into plain values; see
/// [`named_decls`] and [`param_from_decl`].
pub fn params_from_decls(items: Vec<Option<LuaParamDecl>>) -> (r: Vec<DecoderParam>)
    ensures
        r@.len() == named_decls(items@).len(),
        forall|k: int| 0 <= k < r@.len() ==> param_from_decl(#[trigger] r@[k], named_decls(items@)[k]),
{
    let ghost all = items@;
    let ghost mut done: Seq<LuaParamDecl> = Seq::empty();
    let mut out: Vec<DecoderParam> = Vec::new();
    let mut items = items;
    let n = items.len();
    let mut k: usize = 0;
    while k < n
        invariant
            n == items@.len() + k,
            k <= n,
            done + named_decls(items@) == named_decls(all),
            out@.len() == done.len(),
            forall|q: int| 0 <= q < out@.len() ==> param_from_decl(#[trigger] out@[q], done[q]),
        decreases n - k,
    {
        let ghost before = items@;
        let item = items.remove(0);
        proof {
            assert(items@ =~= before.drop_first());
            assert(item == before[0]);
        }
        match item {
            Some(d) => {
                let ghost dv = d;
                let name = match d.name {
                    Some(t) => t,
                    None => String::new(),
                };
                let kind = match d.kind {
                    Some(t) => t,
                    None => String::from_str("string"),
                };
                let default = match d.default {
                    Some(t) => t,
                    None => String::new(),
                };
                let choices = match d.choices {
                    Some(v) => v,
                    None => Vec::new(),
                };
                proof {
                    reveal_strlit("string");
                }
                let ghost kv = kind@;
                let ghost cv = string_views(choices@);
                let ghost nv = name@;
                let ghost fv = default@;
                proof {
                    assert(kv == decl_kind(dv));
                    assert(cv == decl_choices(dv));
                    assert(nv == opt_text(dv.name));
                    assert(fv == opt_text(dv.default));
                }
                match make_param(name, kind.as_str(), default, choices) {
                    Some(p) => {
                        let ghost prev = out@;
                        out.push(p);
                        proof {
                            assert(opt_text(dv.name).len() > 0);
                            assert(done.push(dv) + named_decls(items@) =~= done + (seq![dv] + named_decls(
                                items@,
                            )));
                            assert forall|q: int| 0 <= q < out@.len() implies param_from_decl(
                                #[trigger] out@[q],
                                done.push(dv)[q],
                            ) by {
                                if q < prev.len() {
                                    assert(out@[q] == prev[q]);
                                    assert(done.push(dv)[q] == done[q]);
                                } else {
                                    assert(out@[q] == p);
                                    assert(done.push(dv)[q] == dv);
                                }
                            }
                            done = done.push(dv);
                        }
                    },
                    None => {
                        proof {
                            assert(opt_text(dv.name).len() == 0);
                            assert(done + named_decls(items@) =~= done + named_decls(before));
                        }
                    },
                }
            },
            None => {
                proof {
                    assert(done + named_decls(items@) =~= done + named_decls(before));
                }
            },
        }
        k = k + 1;
    }
    proof {
        assert(items@ =~= Seq::<Option<LuaParamDecl>>::empty());
        assert(done + named_decls(items@) =~= done);
    }
    out
}

/// A Lua decoder script: its display name and where it lives.
pub struct LuaScript {
    /// The script's file stem.
    pub name: String,
    path: PathBuf,
}

/// The Lua decoder scripts.
pub struct LuaDecoderManager {
    scripts: Vec<LuaScript>,
}

/// The positions of the scripts that the settings enable for Lua, in order.
pub open spec fn enabled_scripts(names: Seq<Seq<char>>, ds: Seq<crate::app::DecoderModel>) -> Seq<usize>
    decreases names.len(),
{
    if names.len() == 0 {
        Seq::empty()
    } else {
        let k = names.len() - 1;
        enabled_scripts(names.drop_last(), ds) + if plugin_enabled(ds, names[k], DecoderSource::Lua) {
            seq![k as usize]
        } else {
            Seq::empty()
        }
    }
}

/// The plan of a run holds exactly the scripts that the settings enable for
/// Lua, each once and in order: a disabled script is never run.
pub proof fn lemma_enabled_scripts(names: Seq<Seq<char>>, ds: Seq<crate::app::DecoderModel>)
    requires
        names.len() <= usize::MAX,
    ensures
        forall|i: int|
            0 <= i < enabled_scripts(names, ds).len() ==> {
                let k = #[trigger] enabled_scripts(names, ds)[i];
                k < names.len() && plugin_enabled(ds, names[k as int], DecoderSource::Lua)
            },
        forall|i: int, j: int|
            0 <= i < j < enabled_scripts(names, ds).len() ==> enabled_scripts(names, ds)[i]
                < enabled_scripts(names, ds)[j],
        forall|k: int|
            0 <= k < names.len() && plugin_enabled(ds, #[trigger] names[k], DecoderSource::Lua)
                ==> enabled_scripts(names, ds).contains(k as usize),
    decreases names.len(),
{
    if names.len() > 0 {
        let p = names.drop_last();
        let n = names.len() - 1;
        lemma_enabled_scripts(p, ds);
        let e = enabled_scripts(names, ds);
        let ep = enabled_scripts(p, ds);
        let on = plugin_enabled(ds, names[n], DecoderSource::Lua);
        let tail = if on {
            seq![n as usize]
        } else {
            Seq::<usize>::empty()
        };
        assert(e == ep + tail);
        assert forall|i: int| 0 <= i < ep.len() implies e[i] == ep[i] && ep[i] < n by {
            assert(p[ep[i] as int] == names[ep[i] as int]);
        }
        assert forall|k: int|
            0 <= k < names.len() && plugin_enabled(ds, #[trigger] names[k], DecoderSource::Lua) implies e.contains(
            k as usize,
        ) by {
            if k < n {
                assert(p[k] == names[k]);
                assert(plugin_enabled(ds, p[k], DecoderSource::Lua));
                assert(ep.contains(k as usize));
                let i = choose|i: int| 0 <= i < ep.len() && ep[i] == k as usize;
                assert(e[i] == k as usize);
            } else {
                assert(e[ep.len() as int] == k as usize);
            }
        }
        assert forall|i: int| 0 <= i < e.len() implies {
            let k = #[trigger] e[i];
            k < names.len() && plugin_enabled(ds, names[k as int], DecoderSource::Lua)
        } by {
            if i < ep.len() {
                assert(e[i] == ep[i]);
                assert(p[ep[i] as int] == names[ep[i] as int]);
            } else {
                assert(e[i] == n as usize);
            }
        }
        assert forall|i: int, j: int| 0 <= i < j < e.len() implies e[i] < e[j] by {
            if j < ep.len() {
                assert(e[i] == ep[i] && e[j] == ep[j]);
            } else {
                assert(e[i] == ep[i]);
                assert(e[j] == n as usize);
            }
        }
    }
}

/// The message for a script whose text could not be read.
pub open spec fn unreadable_message(name: Seq<char>, why: Seq<char>) -> Seq<char> {
    "Failed to read "@ + name + ": "@ + why
}

/// Whether `chunk` is what a script run with outcome `out` contributes: its
/// fields, or, when it failed, one uncoloured, rangeless entry labelled with
/// the script's name and carrying `error: ` and a message.
pub open spec fn script_entries_are(name: Seq<char>, out: Option<Seq<DecodedValue>>, chunk: Seq<DecodedValue>) -> bool {
    match out {
        Some(v) => chunk == v,
        None => chunk.len() == 1 && chunk[0].label@ == name && chunk[0].range is None && chunk[0].color_index is None
            && exists|m: Seq<char>| chunk[0].value@ == "error: "@ + m,
    }
}

/// What running a script in a fresh state may give: a failure with nothing
/// passed when no state can be made, else a [`decode_script_run`].
pub open spec fn fresh_script_run(
    source: Seq<char>,
    b: Seq<u8>,
    label: Seq<char>,
    ps: Seq<(Seq<char>, Seq<char>)>,
    out: Option<Seq<DecodedValue>>,
    c: Seq<LuaCall>,
) -> bool {
    ||| (out is None && c.len() == 0)
    ||| decode_script_run(source, b, label, ps, out, c)
}

/// Whether `chunk` is what the script `name` contributes given its text:
/// for text that could not be read, one uncoloured, rangeless entry with the
/// reason; else the entries of a run of it in a fresh state on the bytes `b`
/// with the byte order's label and its parameters from the settings `ds`.
pub open spec fn script_chunk_ok(
    name: Seq<char>,
    source: Result<String, String>,
    ds: Seq<crate::app::DecoderModel>,
    b: Seq<u8>,
    e: Endian,
    chunk: Seq<DecodedValue>,
) -> bool {
    match source {
        Err(why) => {
            &&& chunk.len() == 1
            &&& chunk[0].label@ == name
            &&& chunk[0].value@ == "error: "@ + unreadable_message(name, why@)
            &&& chunk[0].range is None
            &&& chunk[0].color_index is None
        },
        Ok(text) => exists|out: Option<Seq<DecodedValue>>, c: Seq<LuaCall>|
            #[trigger] fresh_script_run(
                text@,
                b,
                endian_label(e),
                settings_params(ds, name, DecoderSource::Lua),
                out,
                c,
            ) && script_entries_are(name, out, chunk),
    }
}

/// Whether `r` is the concatenation, in the order of `plan`, of what each
/// planned script contributes; see [`script_chunk_ok`].
pub open spec fn decoded_by_scripts(
    names: Seq<Seq<char>>,
    plan: Seq<usize>,
    sources: Seq<Result<String, String>>,
    ds: Seq<crate::app::DecoderModel>,
    b: Seq<u8>,
    e: Endian,
    r: Seq<DecodedValue>,
) -> bool {
    exists|chunks: Seq<Seq<DecodedValue>>|
        chunks.len() == plan.len() && r == chunks.flatten() && forall|j: int|
            0 <= j < plan.len() ==> script_chunk_ok(names[plan[j] as int], sources[j], ds, b, e, #[trigger] chunks[j])
}

/// Whether every parameter has a name and starts at its default.
pub open spec fn declared_params(ps: Seq<DecoderParam>) -> bool {
    forall|k: int| 0 <= k < ps.len() ==> (#[trigger] ps[k]).name@.len() > 0 && ps[k].value@ == ps[k].default@
}

/// The texts of the successful conversions, in order.
pub open spec fn ok_texts(items: Seq<Result<String, mlua::Error>>) -> Seq<Seq<char>>
    decreases items.len(),
{
    if items.len() == 0 {
        Seq::empty()
    } else {
        (match items[0] {
            Ok(t) => seq![t@],
            Err(_) => Seq::empty(),
        }) + ok_texts(items.drop_first())
    }
}

/// The text of each successful conversion, in order.
fn texts_of(items: Vec<Result<String, mlua::Error>>) -> (r: Vec<String>)
    ensures
        string_views(r@) == ok_texts(items@),
{
    let ghost all = items@;
    let mut out: Vec<String> = Vec::new();
    let mut items = items;
    let mut k: usize = 0;
    let n = items.len();
    while k < n
        invariant
            n == items@.len() + k,
            k <= n,
            string_views(out@) + ok_texts(items@) == ok_texts(all),
        decreases n - k,
    {
        let ghost before = items@;
        let ghost seen = out@;
        let item = items.remove(0);
        proof {
            assert(items@ =~= before.drop_first());
            assert(item == before[0]);
        }
        if let Ok(s) = item {
            out.push(s);
            proof {
                assert(string_views(out@) =~= string_views(seen) + seq![s@]);
            }
        } else {
            assert(string_views(out@) =~= string_views(seen));
        }
        proof {
            assert(string_views(out@) + ok_texts(items@) =~= string_views(seen) + ok_texts(before));
        }
        k = k + 1;
    }
    assert(items@ =~= Seq::<Result<String, mlua::Error>>::empty());
    assert(string_views(out@) + ok_texts(items@) =~= string_views(out@));
    out
}

impl LuaDecoderManager {
    /// The scripts' names, in the order they were added.
    pub closed spec fn names(&self) -> Seq<Seq<char>> {
        self.scripts@.map_values(|s: LuaScript| s.name@)
    }

    /// A manager with no scripts.
    pub fn new() -> (r: Self)
        ensures
            r.names().len() == 0,
    {
        let m = LuaDecoderManager { scripts: Vec::new() };
        assert(m.names() =~= Seq::<Seq<char>>::empty());
        m
    }

    /// Adds a script under a name.
    pub fn add_decoder(&mut self, name: String, path: PathBuf)
        ensures
            final(self).names() == old(self).names().push(name@),
            final(self).paths() == old(self).paths().push(path),
    {
        let ghost n = name@;
        let ghost pa = path;
        self.scripts.push(LuaScript { name, path });
        assert(self.names() =~= old(self).names().push(n));
        assert(self.paths() =~= old(self).paths().push(pa));
    }

    /// The names of the scripts, in the order they were added.
    pub fn decoder_names(&self) -> (r: Vec<String>)
        ensures
            string_views(r@) == self.names(),
    {
        let mut out: Vec<String> = Vec::new();
        let mut k: usize = 0;
        while k < self.scripts.len()
            invariant
                k <= self.scripts@.len(),
                out@.len() == k,
                forall|j: int| 0 <= j < k ==> (#[trigger] out@[j])@ == self.scripts@[j].name@,
            decreases self.scripts.len() - k,
        {
            out.push(self.scripts[k].name.clone());
            k = k + 1;
        }
        assert(string_views(out@) =~= self.names());
        out
    }

    /// Where the scripts live, in the order they were added.
    pub closed spec fn paths(&self) -> Seq<PathBuf> {
        self.scripts@.map_values(|s: LuaScript| s.path)
    }

    /// Where script `idx` lives.
    pub fn script_path(&self, idx: usize) -> (r: &PathBuf)
        requires
            idx < self.names().len(),
        ensures
            *r == self.paths()[idx as int],
    {
        &self.scripts[idx].path
    }

    /// The position of the first script with this name, if any.
    pub fn find_script(&self, name: &str) -> (r: Option<usize>)
        ensures
            match r {
                Some(i) => i < self.names().len() && self.names()[i as int] == name@ && forall|j: int|
                    0 <= j < i ==> self.names()[j] != name@,
                None => !self.names().contains(name@),
            },
    {
        let mut k: usize = 0;
        while k < self.scripts.len()
            invariant
                k <= self.scripts@.len(),
                forall|j: int| 0 <= j < k ==> self.names()[j] != name@,
            decreases self.scripts.len() - k,
        {
            assert(self.names()[k as int] == self.scripts@[k as int].name@);
            if str_eq(self.scripts[k].name.as_str(), name) {
                return Some(k);
            }
            k = k + 1;
        }
        assert forall|j: int| 0 <= j < self.names().len() implies self.names()[j] != name@ by {}
        None
    }

    /// The positions of the scripts that the settings enable for Lua; see
    /// [`enabled_scripts`].
    pub fn scripts_to_run(&self, app: &App) -> (r: Vec<usize>)
        ensures
            r@ == enabled_scripts(self.names(), app@.decoders),
    {
        let ghost names = self.names();
        let mut out: Vec<usize> = Vec::new();
        let mut k: usize = 0;
        while k < self.scripts.len()
            invariant
                k <= self.scripts@.len(),
                names == self.names(),
                names.len() == self.scripts@.len(),
                out@ == enabled_scripts(names.take(k as int), app@.decoders),
            decreases self.scripts.len() - k,
        {
            proof {
                assert(names.take(k + 1).drop_last() =~= names.take(k as int));
                assert(names.take(k + 1)[k as int] == names[k as int]);
                assert(names[k as int] == self.scripts@[k as int].name@);
            }
            if app.is_decoder_enabled(self.scripts[k].name.as_str(), &DecoderSource::Lua) {
                out.push(k);
            }
            k = k + 1;
        }
        assert(names.take(k as int) =~= names);
        out
    }

    /// The parameters a script declares through its `params()` function, given
    /// the script's text, run in a fresh state; none when the state cannot be
    /// made, the script defines no such function, the call fails or the answer
    /// is not a table. Each declaration is read into plain values and turned
    /// into a parameter by [`params_from_decls`].
    pub fn query_params(&self, source: &str) -> (r: Vec<DecoderParam>)
        ensures
            r@.len() == 0 || exists|decls: Seq<Option<LuaParamDecl>>|
                r@.len() == named_decls(decls).len() && forall|k: int|
                    0 <= k < r@.len() ==> param_from_decl(#[trigger] r@[k], named_decls(decls)[k]),
    {
        let mut sb = match Sandbox::new() {
            Ok(sb) => sb,
            Err(_) => {
                return Vec::new();
            },
        };
        run_params_script(&mut sb, source)
    }

    /// Runs a script in a fresh state (see [`run_decode_script`]) and hands
    /// back the state, whose record holds what passed; none when no state
    /// can be made.
    fn run_script(&self, source: &str, bytes: &[u8], endian: Endian, params: &Vec<(String, String)>) -> (r: (
        Result<Vec<DecodedValue>, mlua::Error>,
        Option<Sandbox>,
    ))
        ensures
            r.1 is None ==> r.0 is Err,
            r.1 matches Some(sb) ==> decode_script_run(
                source@,
                bytes@,
                endian_label(endian),
                pair_views(params@),
                ok_fields(r.0),
                sb.calls(),
            ),
    {
        let mut sb = match Sandbox::new() {
            Ok(sb) => sb,
            Err(e) => {
                return (Err(e), None);
            },
        };
        let r = run_decode_script(&mut sb, source, bytes, endian, params);
        proof {
            assert(sb.calls().skip(0) =~= sb.calls());
        }
        (r, Some(sb))
    }

    /// Runs the planned scripts, in order, each on the selection with its
    /// current parameters, given the text read for each (or why it could not
    /// be read); see [`decoded_by_scripts`]. A script that fails contributes
    /// one entry with its error.
    pub fn decode(
        &self,
        plan: &Vec<usize>,
        sources: &Vec<Result<String, String>>,
        bytes: &[u8],
        endian: Endian,
        app: &App,
    ) -> (r: Vec<DecodedValue>)
        requires
            plan@.len() == sources@.len(),
            forall|j: int| 0 <= j < plan@.len() ==> plan@[j] < self.names().len(),
        ensures
            decoded_by_scripts(self.names(), plan@, sources@, app@.decoders, bytes@, endian, r@),
    {
        let ghost names = self.names();
        let ghost mut chunks: Seq<Seq<DecodedValue>> = Seq::empty();
        let mut results: Vec<DecodedValue> = Vec::new();
        let mut j: usize = 0;
        while j < plan.len()
            invariant
                j <= plan@.len(),
                plan@.len() == sources@.len(),
                forall|q: int| 0 <= q < plan@.len() ==> plan@[q] < self.names().len(),
                names == self.names(),
                names.len() == self.scripts@.len(),
                chunks.len() == j,
                results@ == chunks.flatten(),
                forall|q: int|
                    0 <= q < j ==> script_chunk_ok(
                        names[plan@[q] as int],
                        sources@[q],
                        app@.decoders,
                        bytes@,
                        endian,
                        #[trigger] chunks[q],
                    ),
            decreases plan.len() - j,
        {
            let idx = plan[j];
            let name = &self.scripts[idx].name;
            proof {
                assert(names[idx as int] == name@);
            }
            let ghost before = results@;
            let mut chunk: Vec<DecodedValue> = Vec::new();
            match &sources[j] {
                Err(why) => {
                    let mut message = String::new();
                    push_str(&mut message, "Failed to read ");
                    push_str(&mut message, name.as_str());
                    push_str(&mut message, ": ");
                    push_str(&mut message, why.as_str());
                    let entry = plugin_error(name.as_str(), message.as_str());
                    proof {
                        assert(message@ =~= unreadable_message(name@, why@));
                    }
                    chunk.push(entry);
                },
                Ok(source) => {
                    let params = app.decoder_params(name.as_str(), &DecoderSource::Lua);
                    let (outcome, state) = self.run_script(source.as_str(), bytes, endian, &params);
                    let ghost out = ok_fields(outcome);
                    let ghost record = match state {
                        Some(sb) => sb.calls(),
                        None => Seq::<LuaCall>::empty(),
                    };
                    proof {
                        assert(pair_views(params@) =~= string_pairs(params@));
                        assert(fresh_script_run(
                            source@,
                            bytes@,
                            endian_label(endian),
                            settings_params(app@.decoders, name@, DecoderSource::Lua),
                            out,
                            record,
                        ));
                    }
                    match outcome {
                        Ok(vals) => {
                            chunk = vals;
                        },
                        Err(e) => {
                            let text = lua_error_text(&e);
                            chunk.push(plugin_error(name.as_str(), text.as_str()));
                            proof {
                                assert(chunk@[0].value@ == "error: "@ + text@);
                            }
                        },
                    }
                    proof {
                        assert(script_entries_are(name@, out, chunk@));
                    }
                },
            }
            proof {
                assert(script_chunk_ok(names[idx as int], sources@[j as int], app@.decoders, bytes@, endian, chunk@));
            }
            let ghost c = chunk@;
            results.append(&mut chunk);
            proof {
                assert(results@ == before + c);
                assert(chunks.push(c).flatten() =~= chunks.flatten() + c) by {
                    chunks.lemma_flatten_push(c);
                }
                chunks = chunks.push(c);
                assert(chunks[j as int] == c);
            }
            j = j + 1;
        }
        proof {
            assert(names.len() == self.scripts@.len());
        }
        results
    }
}

/// Text that may be absent, as a plain value.
pub open spec fn opt_view(t: Option<String>) -> Option<Seq<char>> {
    match t {
        Some(s) => Some(s@),
        None => None,
    }
}

/// The reads of one answer table: `label` and `value` as text, `offset` and
/// `length` as counts, each with what it gave; none for a member of the
/// answer that is not a table.
pub open spec fn item_reads(item: Option<LuaAnswer>) -> Seq<LuaCall> {
    match item {
        Some(a) => seq![
            LuaCall::ReadText("label"@, opt_view(a.label)),
            LuaCall::ReadText("value"@, opt_view(a.value)),
            LuaCall::ReadCount("offset"@, a.offset),
            LuaCall::ReadCount("length"@, a.length),
        ],
        None => Seq::empty(),
    }
}

/// The reads of the answer tables, in order.
pub open spec fn answer_reads(items: Seq<Option<LuaAnswer>>) -> Seq<LuaCall>
    decreases items.len(),
{
    if items.len() == 0 {
        Seq::empty()
    } else {
        answer_reads(items.drop_last()) + item_reads(items.last())
    }
}

/// The fields of a run that succeeded; `None` for one that failed.
pub open spec fn ok_fields(r: Result<Vec<DecodedValue>, mlua::Error>) -> Option<Seq<DecodedValue>> {
    match r {
        Ok(v) => Some(v@),
        Err(_) => None,
    }
}

/// What running a script's `decode` in a fresh state may give, with the
/// record `c` of what passed: a failure when the text does not run, when it
/// defines no global `decode`, or when the call fails; no fields when the
/// answer is not a table; else, after the call with the bytes `b`, the label
/// and the parameter values, the fields of the answer tables, whose
/// `label`, `value`, `offset` and `length` are what reading them gave.
pub open spec fn decode_script_run(
    source: Seq<char>,
    b: Seq<u8>,
    label: Seq<char>,
    ps: Seq<(Seq<char>, Seq<char>)>,
    out: Option<Seq<DecodedValue>>,
    c: Seq<LuaCall>,
) -> bool {
    let called = seq![LuaCall::Exec(source, true), LuaCall::Global("decode"@, true), LuaCall::Decode(b, label, ps)];
    ||| (c == seq![LuaCall::Exec(source, false)] && out is None)
    ||| (c == seq![LuaCall::Exec(source, true), LuaCall::Global("decode"@, false)] && out is None)
    ||| (c == called.push(LuaCall::Answer(None)) && out is None)
    ||| (c == called.push(LuaCall::Answer(Some(false))) && out == Some(Seq::<DecodedValue>::empty()))
    ||| (exists|items: Seq<Option<LuaAnswer>>|
        c == called.push(LuaCall::Answer(Some(true))) + #[trigger] answer_reads(items) && (out matches Some(v)
            && entries_match(v, answer_entries_of(items))))
}

/// Runs a script in `sb`: its text, then its `decode` with the bytes (`t[i + 1]`
/// is byte `i`), the byte order's label (`LE` or `BE`) and the parameter values
/// (`p[k]` is the value of `k`); then reads each table of the answer into plain
/// values, turned into fields by [`answer_fields`]. What passed is appended to
/// the state's record; see [`decode_script_run`].
pub fn run_decode_script(
    sb: &mut Sandbox,
    source: &str,
    bytes: &[u8],
    endian: Endian,
    params: &Vec<(String, String)>,
) -> (r: Result<Vec<DecodedValue>, mlua::Error>)
    ensures
        final(sb).calls().len() >= old(sb).calls().len(),
        final(sb).calls().take(old(sb).calls().len() as int) == old(sb).calls(),
        decode_script_run(
            source@,
            bytes@,
            endian_label(endian),
            pair_views(params@),
            ok_fields(r),
            final(sb).calls().skip(old(sb).calls().len() as int),
        ),
{
    let ghost c0 = sb.calls();
    let ghost label = endian_label(endian);
    let ghost ps = pair_views(params@);
    if let Err(e) = exec_chunk(sb, source) {
        proof {
            assert(sb.calls().skip(c0.len() as int) =~= seq![LuaCall::Exec(source@, false)]);
            assert(sb.calls().take(c0.len() as int) =~= c0);
        }
        return Err(e);
    }
    let decode_fn = match global_function(sb, "decode") {
        Ok(f) => f,
        Err(e) => {
            proof {
                assert(sb.calls().skip(c0.len() as int) =~= seq![
                    LuaCall::Exec(source@, true),
                    LuaCall::Global("decode"@, false),
                ]);
                assert(sb.calls().take(c0.len() as int) =~= c0);
            }
            return Err(e);
        },
    };
    let answer = call_decode(sb, &decode_fn, bytes, endian.label(), params);
    let ghost called = seq![
        LuaCall::Exec(source@, true),
        LuaCall::Global("decode"@, true),
        LuaCall::Decode(bytes@, label, ps),
    ];
    let answer = match answer {
        Ok(a) => a,
        Err(e) => {
            proof {
                assert(sb.calls().skip(c0.len() as int) =~= called.push(LuaCall::Answer(None)));
                assert(sb.calls().take(c0.len() as int) =~= c0);
            }
            return Err(e);
        },
    };
    let ghost base = sb.calls();
    if answer.is_none() {
        proof {
            assert(sb.calls().skip(c0.len() as int) =~= called.push(LuaCall::Answer(Some(false))));
            assert(sb.calls().take(c0.len() as int) =~= c0);
        }
        return Ok(Vec::new());
    }
    proof {
        assert(base =~= c0 + called.push(LuaCall::Answer(Some(true))));
    }
    let mut items: Vec<Option<LuaAnswer>> = Vec::new();
    if let Some(table) = answer {
        let mut entries = sequence_tables(&table);
        let n = entries.len();
        let mut k: usize = 0;
        while k < n
            invariant
                n == entries@.len() + k,
                k <= n,
                sb.calls() == base + answer_reads(items@),
            decreases n - k,
        {
            let ghost before = items@;
            let item = entries.remove(0);
            match item {
                Ok(entry) => {
                    let label = match get_text(sb, &entry, "label") {
                        Ok(s) => Some(s),
                        Err(_) => None,
                    };
                    let value = match get_text(sb, &entry, "value") {
                        Ok(s) => Some(s),
                        Err(_) => None,
                    };
                    let offset = match get_count(sb, &entry, "offset") {
                        Ok(o) => Some(o),
                        Err(_) => None,
                    };
                    let length = match get_count(sb, &entry, "length") {
                        Ok(l) => Some(l),
                        Err(_) => None,
                    };
                    let a = LuaAnswer { label, value, offset, length };
                    proof {
                        assert(sb.calls() =~= base + answer_reads(before) + item_reads(Some(a)));
                    }
                    items.push(Some(a));
                },
                Err(_) => {
                    proof {
                        assert(item_reads(None) =~= Seq::<LuaCall>::empty());
                    }
                    items.push(None);
                },
            }
            proof {
                assert(items@.drop_last() =~= before);
                assert(sb.calls() =~= base + answer_reads(items@));
            }
            k = k + 1;
        }
    }
    let ghost iv = items@;
    let v = answer_fields(items);
    assert(entries_match(v@, answer_entries_of(iv)));
    proof {
        assert(sb.calls() == base + answer_reads(iv));
        assert(sb.calls().skip(c0.len() as int) =~= called.push(LuaCall::Answer(Some(true))) + answer_reads(iv));
        assert(sb.calls().take(c0.len() as int) =~= c0);
    }
    Ok(v)
}

/// The reads of one declaration table: `name`, `type` and `default` as text,
/// each with what it gave; none for a member that is not a table.
pub open spec fn decl_reads(item: Option<LuaParamDecl>) -> Seq<LuaCall> {
    match item {
        Some(d) => seq![
            LuaCall::ReadText("name"@, opt_view(d.name)),
            LuaCall::ReadText("type"@, opt_view(d.kind)),
            LuaCall::ReadText("default"@, opt_view(d.default)),
        ],
        None => Seq::empty(),
    }
}

/// The reads of the declaration tables, in order.
pub open spec fn decls_reads(items: Seq<Option<LuaParamDecl>>) -> Seq<LuaCall>
    decreases items.len(),
{
    if items.len() == 0 {
        Seq::empty()
    } else {
        decls_reads(items.drop_last()) + decl_reads(items.last())
    }
}

/// Whether `r` are the parameters of declarations read as `decls`; see [`params_from_decls`].
pub open spec fn params_of_decls(r: Seq<DecoderParam>, decls: Seq<Option<LuaParamDecl>>) -> bool {
    &&& r.len() == named_decls(decls).len()
    &&& forall|k: int| 0 <= k < r.len() ==> param_from_decl(#[trigger] r[k], named_decls(decls)[k])
}

/// What asking a script for its parameters in a fresh state may give, with
/// the record `c` of what passed: the text is run whatever comes of it;
/// without a global `params`, or when its call fails or answers with no
/// table, there are none; else the parameters of the declaration tables,
/// whose `name`, `type` and `default` are what reading them gave.
pub open spec fn params_script_run(source: Seq<char>, r: Seq<DecoderParam>, c: Seq<LuaCall>) -> bool {
    &&& c.len() >= 2
    &&& (c[0] == LuaCall::Exec(source, true) || c[0] == LuaCall::Exec(source, false))
    &&& {
        ||| (c.skip(1) == seq![LuaCall::Global("params"@, false)] && r.len() == 0)
        ||| ((c.skip(1) == seq![LuaCall::Global("params"@, true), LuaCall::Params, LuaCall::Answer(None)]
            || c.skip(1) == seq![LuaCall::Global("params"@, true), LuaCall::Params, LuaCall::Answer(Some(false))])
            && r.len() == 0)
        ||| (exists|decls: Seq<Option<LuaParamDecl>>|
            c.skip(1) == seq![LuaCall::Global("params"@, true), LuaCall::Params, LuaCall::Answer(Some(true))]
                + #[trigger] decls_reads(decls) && params_of_decls(r, decls))
    }
}

/// Runs a script's text in `sb` and asks its `params` for declarations, each
/// read into plain values and turned into parameters by [`params_from_decls`].
/// What passed is appended to the state's record; see [`params_script_run`].
pub fn run_params_script(sb: &mut Sandbox, source: &str) -> (r: Vec<DecoderParam>)
    ensures
        final(sb).calls().len() >= old(sb).calls().len(),
        final(sb).calls().take(old(sb).calls().len() as int) == old(sb).calls(),
        params_script_run(source@, r@, final(sb).calls().skip(old(sb).calls().len() as int)),
{
    let ghost c0 = sb.calls();
    let ran = exec_chunk(sb, source);
    let ghost e = LuaCall::Exec(source@, ran is Ok);
    let params_fn = match global_function(sb, "params") {
        Ok(f) => f,
        Err(_) => {
            proof {
                let c = sb.calls().skip(c0.len() as int);
                assert(c =~= seq![e, LuaCall::Global("params"@, false)]);
                assert(c.skip(1) =~= seq![LuaCall::Global("params"@, false)]);
                assert(sb.calls().take(c0.len() as int) =~= c0);
            }
            return Vec::new();
        },
    };
    let answer = call_params(sb, &params_fn);
    let table = match answer {
        Ok(Some(t)) => t,
        _ => {
            proof {
                let c = sb.calls().skip(c0.len() as int);
                assert(c =~= seq![
                    e,
                    LuaCall::Global("params"@, true),
                    LuaCall::Params,
                    LuaCall::Answer(answer_kind(answer)),
                ]);
                assert(c.skip(1) =~= seq![
                    LuaCall::Global("params"@, true),
                    LuaCall::Params,
                    LuaCall::Answer(answer_kind(answer)),
                ]);
                assert(sb.calls().take(c0.len() as int) =~= c0);
            }
            return Vec::new();
        },
    };
    let ghost head = seq![
        e,
        LuaCall::Global("params"@, true),
        LuaCall::Params,
        LuaCall::Answer(Some(true)),
    ];
    let ghost base = sb.calls();
    proof {
        assert(base =~= c0 + head);
    }
    let mut entries = sequence_tables(&table);
    let mut decls: Vec<Option<LuaParamDecl>> = Vec::new();
    let n = entries.len();
    let mut k: usize = 0;
    while k < n
        invariant
            n == entries@.len() + k,
            k <= n,
            sb.calls() == base + decls_reads(decls@),
        decreases n - k,
    {
        let ghost before = decls@;
        let item = entries.remove(0);
        match item {
            Ok(entry) => {
                let name = match get_text(sb, &entry, "name") {
                    Ok(s) => Some(s),
                    Err(_) => None,
                };
                let kind = match get_text(sb, &entry, "type") {
                    Ok(s) => Some(s),
                    Err(_) => None,
                };
                let default = match get_text(sb, &entry, "default") {
                    Ok(s) => Some(s),
                    Err(_) => None,
                };
                let is_choice = match &kind {
                    Some(t) => str_eq(t.as_str(), "choice"),
                    None => false,
                };
                let choices = if is_choice {
                    match get_table(&entry, "choices") {
                        Ok(t) => Some(texts_of(sequence_texts(&t))),
                        Err(_) => None,
                    }
                } else {
                    None
                };
                let d = LuaParamDecl { name, kind, default, choices };
                proof {
                    assert(sb.calls() =~= base + decls_reads(before) + decl_reads(Some(d)));
                }
                decls.push(Some(d));
            },
            Err(_) => {
                proof {
                    assert(decl_reads(None) =~= Seq::<LuaCall>::empty());
                }
                decls.push(None);
            },
        }
        proof {
            assert(decls@.drop_last() =~= before);
            assert(sb.calls() =~= base + decls_reads(decls@));
        }
        k = k + 1;
    }
    let ghost dv = decls@;
    let r = params_from_decls(decls);
    assert(r@.len() == named_decls(dv).len());
    proof {
        assert(sb.calls() == base + decls_reads(dv));
        let c = sb.calls().skip(c0.len() as int);
        assert(c =~= head + decls_reads(dv));
        assert(c.skip(1) =~= seq![LuaCall::Global("params"@, true), LuaCall::Params, LuaCall::Answer(Some(true))]
            + decls_reads(dv));
        assert(params_of_decls(r@, dv));
        assert(sb.calls().take(c0.len() as int) =~= c0);
    }
    r
}

} // verus!
