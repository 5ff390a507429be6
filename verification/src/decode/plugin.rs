//! A WASM plugin: its compiled module, and an instance of it in a store of
//! its own.
//!
//! `wasmtime` panics when an instance, memory or function is used with a
//! store other than the one it was created in. [`PluginInstance`] keeps the
//! store together with the instance and with every export the library uses;
//! its fields are private to this module, which builds the store and the
//! instance together, and only the wrappers below read or set the exports,
//! each with the store of the same plugin.
//!
//! A [`CompiledModule`] remembers the bytes it was compiled from, and an
//! instance the bytes of its module ([`PluginInstance::wasm`]); what a module
//! exports is a function of those bytes ([`exports_memory`],
//! [`exports_i32_func`]). Each wrapper that calls into the plugin or copies
//! into its memory also states what it handed over, as one more entry of the
//! instance's call record ([`PluginInstance::calls`]); a caller's contract can
//! then say which calls, with which arguments, a run made.

use vstd::prelude::*;
use wasmtime::{Engine, Instance, Memory, Module, Store, TypedFunc};

verus! {

/// Whether the module compiled from the WebAssembly binary `wasm` exports a
/// memory named `name`.
pub uninterp spec fn exports_memory(wasm: Seq<u8>, name: Seq<char>) -> bool;

/// Whether the module compiled from the WebAssembly binary `wasm` exports a
/// function named `name` whose type is exactly `params` parameters of type
/// `i32` and `results` results of type `i32`.
pub uninterp spec fn exports_i32_func(wasm: Seq<u8>, name: Seq<char>, params: nat, results: nat) -> bool;

/// A call this library made into a plugin, with what it handed over: a call
/// of `alloc`, a copy of bytes into the plugin's memory, a call of `decode`,
/// of `decode_with_params`, or of `params`.
pub enum PluginCall {
    Alloc(i32),
    Write(usize, Seq<u8>),
    Decode(i32, i32, i32),
    DecodeWithParams(i32, i32, i32, i32, i32),
    Params,
}

/// Calls `Module::new` on a WebAssembly binary: compiles it for `engine`, or
/// fails when the bytes are not a valid module.
#[verifier::external_body]
fn compile_module(engine: &Engine, bytes: &[u8]) -> Result<Module, wasmtime::Error> {
    Module::new(engine, bytes)
}

/// A compiled plugin module, with the bytes it was compiled from.
pub struct CompiledModule {
    module: Module,
    source: Ghost<Seq<u8>>,
}

impl CompiledModule {
    /// The WebAssembly binary the module was compiled from.
    pub closed spec fn wasm(&self) -> Seq<u8> {
        self.source@
    }

    /// Compiles a WebAssembly binary for `engine`.
    pub fn compile(engine: &Engine, bytes: &[u8]) -> (r: Result<CompiledModule, wasmtime::Error>)
        ensures
            r matches Ok(m) ==> m.wasm() == bytes@,
    {
        let module = compile_module(engine, bytes)?;
        Ok(CompiledModule { module, source: Ghost(bytes@) })
    }
}

/// A plugin's store, its instance, the exports bound so far, the bytes its
/// module was compiled from, the fuel it was given, and the record of the
/// calls made into it.
pub struct PluginInstance {
    store: Store<()>,
    instance: Instance,
    memory: Option<Memory>,
    alloc: Option<TypedFunc<i32, i32>>,
    decode: Option<TypedFunc<(i32, i32, i32), i32>>,
    decode_with_params: Option<TypedFunc<(i32, i32, i32, i32, i32), i32>>,
    params: Option<TypedFunc<(), i32>>,
    source: Ghost<Seq<u8>>,
    budget: Ghost<u64>,
    history: Ghost<Seq<PluginCall>>,
}

/// Which exports are bound: memory, `alloc`, `decode`, `decode_with_params`, `params`.
pub type BoundExports = (bool, bool, bool, bool, bool);

impl PluginInstance {
    /// Which exports are bound.
    pub closed spec fn exports(&self) -> BoundExports {
        (
            self.memory is Some,
            self.alloc is Some,
            self.decode is Some,
            self.decode_with_params is Some,
            self.params is Some,
        )
    }

    /// The WebAssembly binary the instance's module was compiled from.
    pub closed spec fn wasm(&self) -> Seq<u8> {
        self.source@
    }

    /// The fuel the store was given when the instance was made.
    pub closed spec fn fuel(&self) -> u64 {
        self.budget@
    }

    /// The calls made into the plugin so far, oldest first.
    pub closed spec fn calls(&self) -> Seq<PluginCall> {
        self.history@
    }

    /// Whether two states are of the same instance: same module bytes and fuel.
    pub open spec fn same_plugin(&self, other: &PluginInstance) -> bool {
        self.wasm() == other.wasm() && self.fuel() == other.fuel()
    }
}

/// Calls `Store::new` with no host data.
#[verifier::external_body]
fn new_store(engine: &Engine) -> Store<()> {
    Store::new(engine, ())
}

/// Calls `Store::set_fuel`, which fails when the engine does not meter fuel.
#[verifier::external_body]
fn set_fuel(store: &mut Store<()>, fuel: u64) -> Result<(), wasmtime::Error> {
    store.set_fuel(fuel)
}

/// Calls `Instance::new` without imports; it runs the module's start
/// function and fails when the module needs imports, comes from another
/// engine, traps or exceeds limits.
#[verifier::external_body]
fn instantiate(store: &mut Store<()>, module: &Module) -> Result<Instance, wasmtime::Error> {
    Instance::new(store, module, &[])
}

/// Calls `Instance::get_memory` on the plugin's own store and keeps the
/// exported memory of that name, if any; the result says whether there is
/// one, which is whether the module exports a memory of that name.
#[verifier::external_body]
pub(crate) fn bind_memory(run: &mut PluginInstance, name: &str) -> (r: bool)
    ensures
        r == exports_memory(old(run).wasm(), name@),
        final(run).exports() == (r, old(run).exports().1, old(run).exports().2, old(run).exports().3, old(
            run,
        ).exports().4),
        final(run).same_plugin(old(run)),
        final(run).calls() == old(run).calls(),
{
    run.memory = run.instance.get_memory(&mut run.store, name);
    run.memory.is_some()
}

/// Calls `Instance::get_typed_func` for an `(i32) -> i32` export on the
/// plugin's own store, and keeps it as the `alloc` function. It succeeds
/// exactly when the module exports a function of that name and type.
#[verifier::external_body]
pub(crate) fn bind_alloc(run: &mut PluginInstance, name: &str) -> (r: Result<(), wasmtime::Error>)
    ensures
        r is Ok == exports_i32_func(old(run).wasm(), name@, 1, 1),
        final(run).exports() == (old(run).exports().0, r is Ok, old(run).exports().2, old(
            run,
        ).exports().3, old(run).exports().4),
        final(run).same_plugin(old(run)),
        final(run).calls() == old(run).calls(),
{
    let f = run.instance.get_typed_func::<i32, i32>(&mut run.store, name);
    run.alloc = f.as_ref().ok().cloned();
    f.map(|_| ())
}

/// Calls `Instance::get_typed_func` for an `(i32, i32, i32) -> i32` export
/// on the plugin's own store, and keeps it as the `decode` function. It
/// succeeds exactly when the module exports a function of that name and type.
#[verifier::external_body]
pub(crate) fn bind_decode(run: &mut PluginInstance, name: &str) -> (r: Result<(), wasmtime::Error>)
    ensures
        r is Ok == exports_i32_func(old(run).wasm(), name@, 3, 1),
        final(run).exports() == (old(run).exports().0, old(run).exports().1, r is Ok, old(
            run,
        ).exports().3, old(run).exports().4),
        final(run).same_plugin(old(run)),
        final(run).calls() == old(run).calls(),
{
    let f = run.instance.get_typed_func::<(i32, i32, i32), i32>(&mut run.store, name);
    run.decode = f.as_ref().ok().cloned();
    f.map(|_| ())
}

/// Calls `Instance::get_typed_func` for an `(i32, i32, i32, i32, i32) -> i32`
/// export on the plugin's own store, and keeps it as `decode_with_params`. It
/// succeeds exactly when the module exports a function of that name and type.
#[verifier::external_body]
pub(crate) fn bind_decode_with_params(run: &mut PluginInstance, name: &str) -> (r: Result<(), wasmtime::Error>)
    ensures
        r is Ok == exports_i32_func(old(run).wasm(), name@, 5, 1),
        final(run).exports() == (old(run).exports().0, old(run).exports().1, old(run).exports().2, r is Ok, old(
            run,
        ).exports().4),
        final(run).same_plugin(old(run)),
        final(run).calls() == old(run).calls(),
{
    let f = run.instance.get_typed_func::<(i32, i32, i32, i32, i32), i32>(&mut run.store, name);
    run.decode_with_params = f.as_ref().ok().cloned();
    f.map(|_| ())
}

/// Calls `Instance::get_typed_func` for a `() -> i32` export on the plugin's
/// own store, and keeps it as the `params` function. It succeeds exactly
/// when the module exports a function of that name and type.
#[verifier::external_body]
pub(crate) fn bind_params(run: &mut PluginInstance, name: &str) -> (r: Result<(), wasmtime::Error>)
    ensures
        r is Ok == exports_i32_func(old(run).wasm(), name@, 0, 1),
        final(run).exports() == (old(run).exports().0, old(run).exports().1, old(run).exports().2, old(
            run,
        ).exports().3, r is Ok),
        final(run).same_plugin(old(run)),
        final(run).calls() == old(run).calls(),
{
    let f = run.instance.get_typed_func::<(), i32>(&mut run.store, name);
    run.params = f.as_ref().ok().cloned();
    f.map(|_| ())
}

/// Calls `TypedFunc::call` on the bound `alloc` with the plugin's store and
/// records `Alloc(size)`; it fails when the plugin traps or runs out of fuel.
#[verifier::external_body]
pub(crate) fn call_alloc(run: &mut PluginInstance, size: i32) -> (r: Result<i32, wasmtime::Error>)
    requires
        old(run).exports().1,
    ensures
        final(run).exports() == old(run).exports(),
        final(run).same_plugin(old(run)),
        final(run).calls() == old(run).calls().push(PluginCall::Alloc(size)),
{
    match &run.alloc {
        Some(f) => f.call(&mut run.store, size),
        None => Err(wasmtime::Error::msg("alloc is not bound")),
    }
}

/// Calls `TypedFunc::call` on the bound `decode` with the plugin's store and
/// records the arguments handed to it.
#[verifier::external_body]
pub(crate) fn call_decode(run: &mut PluginInstance, args: (i32, i32, i32)) -> (r: Result<i32, wasmtime::Error>)
    requires
        old(run).exports().2,
    ensures
        final(run).exports() == old(run).exports(),
        final(run).same_plugin(old(run)),
        final(run).calls() == old(run).calls().push(PluginCall::Decode(args.0, args.1, args.2)),
{
    match &run.decode {
        Some(f) => f.call(&mut run.store, args),
        None => Err(wasmtime::Error::msg("decode is not bound")),
    }
}

/// Calls `TypedFunc::call` on the bound `decode_with_params` with the
/// plugin's store and records the arguments handed to it.
#[verifier::external_body]
pub(crate) fn call_decode_with_params(run: &mut PluginInstance, args: (i32, i32, i32, i32, i32)) -> (r: Result<
    i32,
    wasmtime::Error,
>)
    requires
        old(run).exports().3,
    ensures
        final(run).exports() == old(run).exports(),
        final(run).same_plugin(old(run)),
        final(run).calls() == old(run).calls().push(
            PluginCall::DecodeWithParams(args.0, args.1, args.2, args.3, args.4),
        ),
{
    match &run.decode_with_params {
        Some(f) => f.call(&mut run.store, args),
        None => Err(wasmtime::Error::msg("decode_with_params is not bound")),
    }
}

/// Calls `TypedFunc::call` on the bound `params` with the plugin's store and
/// records the call.
#[verifier::external_body]
pub(crate) fn call_params(run: &mut PluginInstance) -> (r: Result<i32, wasmtime::Error>)
    requires
        old(run).exports().4,
    ensures
        final(run).exports() == old(run).exports(),
        final(run).same_plugin(old(run)),
        final(run).calls() == old(run).calls().push(PluginCall::Params),
{
    match &run.params {
        Some(f) => f.call(&mut run.store, ()),
        None => Err(wasmtime::Error::msg("params is not bound")),
    }
}

/// Calls `Memory::data_size` on the bound memory with the plugin's store:
/// its current length in bytes.
#[verifier::external_body]
pub(crate) fn memory_size(run: &PluginInstance) -> usize
    requires
        run.exports().0,
{
    match &run.memory {
        Some(m) => m.data_size(&run.store),
        None => 0,
    }
}

/// Calls `Memory::write` on the bound memory with the plugin's store, which
/// copies `bytes` to `offset` and refuses a range past the memory's end; the
/// result says whether it copied, and a copy is recorded as `Write`.
#[verifier::external_body]
pub(crate) fn write_memory(run: &mut PluginInstance, offset: usize, bytes: &[u8]) -> (r: bool)
    requires
        old(run).exports().0,
    ensures
        final(run).exports() == old(run).exports(),
        final(run).same_plugin(old(run)),
        r ==> final(run).calls() == old(run).calls().push(PluginCall::Write(offset, bytes@)),
        !r ==> final(run).calls() == old(run).calls(),
{
    match &run.memory {
        Some(m) => m.write(&mut run.store, offset, bytes).is_ok(),
        None => false,
    }
}

/// Calls `Memory::data` on the bound memory with the plugin's store: its current bytes.
#[verifier::external_body]
pub(crate) fn memory_data(run: &PluginInstance) -> &[u8]
    requires
        run.exports().0,
{
    match &run.memory {
        Some(m) => m.data(&run.store),
        None => &[],
    }
}

impl PluginInstance {
    /// A fresh store of `engine` with `fuel`, and `module` instantiated in it,
    /// with no exports bound yet and no call made.
    pub fn start(engine: &Engine, module: &CompiledModule, fuel: u64) -> (r: Result<PluginInstance, wasmtime::Error>)
        ensures
            r matches Ok(run) ==> run.exports() == (false, false, false, false, false),
            r matches Ok(run) ==> run.calls() == Seq::<PluginCall>::empty(),
            r matches Ok(run) ==> run.wasm() == module.wasm() && run.fuel() == fuel,
    {
        let mut store = new_store(engine);
        set_fuel(&mut store, fuel)?;
        let instance = instantiate(&mut store, &module.module)?;
        Ok(
            PluginInstance {
                store,
                instance,
                memory: None,
                alloc: None,
                decode: None,
                decode_with_params: None,
                params: None,
                source: Ghost(module.source@),
                budget: Ghost(fuel),
                history: Ghost(Seq::empty()),
            },
        )
    }
}

} // verus!
