use std::path::PathBuf;

use turbohex::app::types::{make_param, DecoderSource, ParamType};
use turbohex::app::App;
use turbohex::decode::json::{
    build_params_json, chars_of, json_escape_into, parse_json_number, parse_json_results,
    parse_json_string, parse_param_definitions, skip_ws_comma, string_of, trim_chars, JsonError,
};
use turbohex::decode::lua::{
    answer_fields, params_from_decls, run_decode_script, run_params_script, LuaAnswer, LuaDecoderManager, LuaParamDecl, Sandbox,
};
use turbohex::decode::plugin::{CompiledModule, PluginInstance};
use turbohex::decode::types::Endian;
use turbohex::decode::wasm::{
    answer_entries, answer_params, check_region, fault_message, read_nul_terminated_str,
    run_plugin_decode, run_plugin_params, RegionFault, WasmDecoderManager, WasmFault,
};
use turbohex::file_buffer::FileBuffer;

/// A module exporting `memory`, `alloc` (always 1024) and `decode` (always
/// the answer at 16, one field `x` = `y` over the first two bytes).
const ANSWERING_MODULE: [u8; 134] = [
    0x00, 0x61, 0x73, 0x6d, 0x01, 0x00, 0x00, 0x00, 0x01, 0x0d, 0x02, 0x60, 0x01, 0x7f, 0x01, 0x7f,
    0x60, 0x03, 0x7f, 0x7f, 0x7f, 0x01, 0x7f, 0x03, 0x03, 0x02, 0x00, 0x01, 0x05, 0x03, 0x01, 0x00,
    0x01, 0x07, 0x1b, 0x03, 0x06, 0x6d, 0x65, 0x6d, 0x6f, 0x72, 0x79, 0x02, 0x00, 0x05, 0x61, 0x6c,
    0x6c, 0x6f, 0x63, 0x00, 0x00, 0x06, 0x64, 0x65, 0x63, 0x6f, 0x64, 0x65, 0x00, 0x01, 0x0a, 0x0c,
    0x02, 0x05, 0x00, 0x41, 0x80, 0x08, 0x0b, 0x04, 0x00, 0x41, 0x10, 0x0b, 0x0b, 0x38, 0x01, 0x00,
    0x41, 0x10, 0x0b, 0x32, 0x5b, 0x7b, 0x22, 0x6c, 0x61, 0x62, 0x65, 0x6c, 0x22, 0x3a, 0x22, 0x78,
    0x22, 0x2c, 0x22, 0x76, 0x61, 0x6c, 0x75, 0x65, 0x22, 0x3a, 0x22, 0x79, 0x22, 0x2c, 0x22, 0x6f,
    0x66, 0x66, 0x73, 0x65, 0x74, 0x22, 0x3a, 0x30, 0x2c, 0x22, 0x6c, 0x65, 0x6e, 0x67, 0x74, 0x68,
    0x22, 0x3a, 0x32, 0x7d, 0x5d, 0x00,
];

/// A module with no exports at all.
const EMPTY_MODULE: [u8; 8] = [0x00, 0x61, 0x73, 0x6d, 0x01, 0x00, 0x00, 0x00];

#[test]
fn results_parse_labels_values_and_ranges() {
    let r = parse_json_results(
        r#" [{"label":"Magic","value":"PK","offset":0,"length":2}, {"label":"Note","value":"a\"b\n"}] "#,
    )
    .unwrap();
    assert_eq!(r.len(), 2);
    assert_eq!((r[0].label.as_str(), r[0].value.as_str()), ("Magic", "PK"));
    assert_eq!(r[0].range, Some((0, 2)));
    assert_eq!((r[1].label.as_str(), r[1].value.as_str()), ("Note", "a\"b\n"));
    assert_eq!(r[1].range, None);
    assert!(r.iter().all(|e| e.color_index.is_none()));
}

#[test]
fn results_without_a_label_or_with_one_bound_are_handled() {
    let r = parse_json_results(r#"[{"value":"dropped"},{"label":"half","offset":3},{"label":"k","flag":true,"value":"v"}]"#)
        .unwrap();
    assert_eq!(r.len(), 2);
    assert_eq!(r[0].label, "half");
    assert_eq!(r[0].range, None);
    assert_eq!((r[1].label.as_str(), r[1].value.as_str()), ("k", "v"));
}

#[test]
fn results_empty_and_malformed() {
    assert!(parse_json_results("[]").unwrap().is_empty());
    assert!(parse_json_results("   ").unwrap().is_empty());
    assert!(matches!(parse_json_results("{\"label\":\"x\"}"), Err(JsonError::ExpectedArray)));
    assert!(matches!(parse_json_results("[1, 2"), Err(JsonError::ExpectedArray)));
    assert!(matches!(parse_json_results(r#"[{"label":"a"]"#), Err(JsonError::ExpectedArray)));
    assert!(matches!(parse_json_results(r#"[{"label":"a"}, {"label":"b"]"#), Err(JsonError::ExpectedArray)));
}

#[test]
fn parameter_definitions_parse_types_and_choices() {
    let ps = parse_param_definitions(
        r#"[{"name":"mode","type":"choice","default":"a","choices":["a","b"]},{"name":"n","type":"int","default":"3"},{"name":"flag","type":"bool","default":"true"},{"name":"s"},{"type":"int"}]"#,
    );
    assert_eq!(ps.len(), 4);
    assert_eq!(ps[0].name, "mode");
    assert_eq!(ps[0].param_type, ParamType::Choice(vec!["a".to_string(), "b".to_string()]));
    assert_eq!((ps[0].default.as_str(), ps[0].value.as_str()), ("a", "a"));
    assert_eq!(ps[1].param_type, ParamType::Int);
    assert_eq!(ps[1].value, "3");
    assert_eq!(ps[2].param_type, ParamType::Bool);
    assert_eq!(ps[3].param_type, ParamType::String);
    assert_eq!(ps[3].value, "");
    assert!(parse_param_definitions("not json").is_empty());
    assert!(parse_param_definitions("[]").is_empty());
}

#[test]
fn parameter_values_as_json_object() {
    let json = build_params_json(&[
        ("endian".to_string(), "big".to_string()),
        ("q\"k".to_string(), "tab\there\\".to_string()),
    ]);
    assert_eq!(json, r#"{"endian":"big","q\"k":"tab\there\\"}"#);
    assert_eq!(build_params_json(&[]), "{}");
}

#[test]
fn escaped_text_reads_back() {
    let plain_text = "line\none \"quoted\" back\\slash\ttab";
    let mut escaped = String::from("\"");
    json_escape_into(&mut escaped, plain_text);
    escaped.push_str("\"rest");
    let chars = chars_of(&escaped);
    let mut i: usize = 0;
    let back = parse_json_string(&chars, &mut i);
    assert_eq!(back, plain_text);
    assert_eq!(chars[i..].iter().collect::<String>(), "rest");
}

#[test]
fn json_strings_keep_unknown_escapes() {
    let chars = chars_of(r#"  "a\qb\/c"x"#);
    let mut i: usize = 0;
    assert_eq!(parse_json_string(&chars, &mut i), "a\\qb/c");
    assert_eq!(chars[i], 'x');
    let mut j: usize = 0;
    assert_eq!(parse_json_string(&chars_of("no quote"), &mut j), "");
}

#[test]
fn json_numbers() {
    let chars = chars_of("-42,7 99999999999999999999x");
    let mut i: usize = 0;
    assert_eq!(parse_json_number(&chars, &mut i), -42);
    assert_eq!(i, 3);
    skip_ws_comma(&chars, &mut i, chars.len());
    assert_eq!(parse_json_number(&chars, &mut i), 7);
    skip_ws_comma(&chars, &mut i, chars.len());
    assert_eq!(parse_json_number(&chars, &mut i), 0);
    assert_eq!(chars[i], 'x');
}

#[test]
fn character_helpers() {
    let v = chars_of("  ab \n");
    assert_eq!(string_of(&trim_chars(&v)), "ab");
    assert_eq!(string_of(&v), "  ab \n");
}

#[test]
fn declared_parameters() {
    let p = make_param("n".to_string(), "int", "5".to_string(), vec![]).unwrap();
    assert_eq!(p.param_type, ParamType::Int);
    assert_eq!(p.value, "5");
    let c = make_param("c".to_string(), "choice", "x".to_string(), vec!["x".to_string()]).unwrap();
    assert_eq!(c.param_type, ParamType::Choice(vec!["x".to_string()]));
    let s = make_param("s".to_string(), "float", "".to_string(), vec![]).unwrap();
    assert_eq!(s.param_type, ParamType::String);
    assert!(make_param(String::new(), "int", "1".to_string(), vec![]).is_none());
}

#[test]
fn nul_terminated_text() {
    let mem = b"xxhello\0world";
    assert_eq!(read_nul_terminated_str(mem, 2).as_deref(), Some("hello"));
    assert_eq!(read_nul_terminated_str(mem, 8).as_deref(), Some("world"));
    assert_eq!(read_nul_terminated_str(mem, mem.len()).as_deref(), Some(""));
    assert_eq!(read_nul_terminated_str(&[0x61, 0xff, 0x00], 0), None);
}

#[test]
fn regions_in_plugin_memory() {
    assert_eq!(check_region(-1, 4, 100), Err(RegionFault::Negative));
    assert_eq!(check_region(97, 4, 100), Err(RegionFault::OutOfBounds));
    assert_eq!(check_region(96, 4, 100), Ok(96));
    assert_eq!(check_region(0, 200, 100), Err(RegionFault::OutOfBounds));
}

#[test]
fn fault_messages() {
    assert_eq!(fault_message("p", &WasmFault::NoMemory), "p: no 'memory' export");
    assert_eq!(
        fault_message("p", &WasmFault::InputRegion(RegionFault::OutOfBounds)),
        "p: alloc returned out-of-bounds pointer"
    );
    assert_eq!(
        fault_message("p", &WasmFault::ParamsRegion(RegionFault::Negative)),
        "p: alloc returned negative pointer for params"
    );
    assert_eq!(fault_message("p", &WasmFault::Runtime("trap".to_string())), "trap");
    assert_eq!(
        fault_message("p", &WasmFault::BadAnswer(JsonError::ExpectedArray)),
        "Expected JSON array"
    );
    assert_eq!(
        fault_message("p", &WasmFault::MissingDecode("gone".to_string())),
        "p: missing 'decode' export: gone"
    );
}

#[test]
fn answers_read_from_plugin_memory() {
    let mut mem = vec![0u8; 8];
    mem.extend_from_slice(br#"[{"label":"a","value":"b"}]"#);
    mem.push(0);
    let v = answer_entries(&mem, 8).unwrap();
    assert_eq!(v.len(), 1);
    assert_eq!((v[0].label.as_str(), v[0].value.as_str()), ("a", "b"));
    assert!(matches!(answer_entries(&mem, -3), Err(WasmFault::NegativeResult)));
    assert!(matches!(answer_entries(&mem, 500), Err(WasmFault::ResultOutOfBounds)));
    assert!(matches!(answer_entries(&mem, 0), Ok(ref e) if e.is_empty()));
    let bad = [b'{', b'}', 0];
    assert!(matches!(answer_entries(&bad, 0), Err(WasmFault::BadAnswer(JsonError::ExpectedArray))));
    let not_utf8 = [0xff, 0xfe, 0];
    assert!(matches!(answer_entries(&not_utf8, 0), Err(WasmFault::InvalidUtf8)));
}

#[test]
fn parameter_answers_read_from_plugin_memory() {
    let mut mem = br#"[{"name":"w","type":"bool","default":"false"}]"#.to_vec();
    mem.push(0);
    let ps = answer_params(&mem, 0);
    assert_eq!(ps.len(), 1);
    assert_eq!(ps[0].param_type, ParamType::Bool);
    assert!(answer_params(&mem, -1).is_empty());
    assert!(answer_params(&mem, 10_000).is_empty());
}

fn viewer(data: Vec<u8>) -> App {
    App::new(FileBuffer::Vec(data), "t.bin".to_string())
}

#[test]
fn plugin_manager_runs_a_decoder() {
    let mut mgr = WasmDecoderManager::new().unwrap();
    assert!(mgr.add_decoder("answer".to_string(), &ANSWERING_MODULE).is_ok());
    assert_eq!(mgr.decoder_names(), vec!["answer".to_string()]);
    let app = viewer(vec![1, 2, 3]);
    let out = mgr.decode(&[1, 2], Endian::Little, &app);
    assert_eq!(out.len(), 1);
    if out[0].label == "answer" {
        // wasmtime could not reserve the module's linear memory on this
        // machine: the run fails as a whole, into one error entry.
        assert!(out[0].value.starts_with("error: "));
        assert_eq!(out[0].range, None);
    } else {
        assert_eq!((out[0].label.as_str(), out[0].value.as_str()), ("x", "y"));
        assert_eq!(out[0].range, Some((0, 2)));
    }
    assert!(mgr.query_params("answer").is_empty());
    assert!(mgr.query_params("missing").is_empty());
}

#[test]
fn plugin_manager_reports_a_broken_decoder() {
    let mut mgr = WasmDecoderManager::new().unwrap();
    assert!(mgr.add_decoder("bare".to_string(), &EMPTY_MODULE).is_ok());
    let app = viewer(vec![1]);
    let out = mgr.decode(&[1], Endian::Big, &app);
    assert_eq!(out.len(), 1);
    assert_eq!((out[0].label.as_str(), out[0].value.as_str()), ("bare", "error: bare: no 'memory' export"));
}

#[test]
fn plugin_manager_skips_disabled_decoders() {
    let mut mgr = WasmDecoderManager::new().unwrap();
    assert!(mgr.add_decoder("answer".to_string(), &ANSWERING_MODULE).is_ok());
    let mut app = viewer(vec![1, 2]);
    app.register_decoder("answer".to_string(), DecoderSource::Wasm, Vec::new());
    app.decoders[0].enabled = false;
    assert!(mgr.decode(&[1, 2], Endian::Little, &app).is_empty());
    app.decoders[0].enabled = true;
    assert_eq!(mgr.decode(&[1, 2], Endian::Little, &app).len(), 1);
}

const SUM_SCRIPT: &str = r#"
function decode(bytes, endian, params)
    local s = 0
    for i = 1, #bytes do s = s + bytes[i] end
    return {
        {label = "Sum", value = tostring(s), offset = 0, length = #bytes},
        {label = "E", value = endian .. (params.mode or "-")},
        42,
    }
end

function params()
    return {
        {name = "mode", type = "choice", default = "a", choices = {"a", "b"}},
        {type = "int", default = "1"},
        {name = "n", type = "int", default = "3"},
        {name = "s"},
    }
end
"#;

fn lua_manager() -> LuaDecoderManager {
    let mut mgr = LuaDecoderManager::new();
    mgr.add_decoder("sum".to_string(), PathBuf::from("sum.lua"));
    mgr.add_decoder("other".to_string(), PathBuf::from("other.lua"));
    mgr
}

#[test]
fn lua_scripts_are_listed_and_found() {
    let mgr = lua_manager();
    assert_eq!(mgr.decoder_names(), vec!["sum".to_string(), "other".to_string()]);
    assert_eq!(mgr.find_script("other"), Some(1));
    assert_eq!(mgr.find_script("none"), None);
    assert_eq!(mgr.script_path(0), &PathBuf::from("sum.lua"));
}

#[test]
fn lua_scripts_run_only_when_enabled() {
    let mgr = lua_manager();
    let mut app = viewer(vec![1, 2, 3]);
    assert_eq!(mgr.scripts_to_run(&app), vec![0, 1]);
    app.register_decoder("other".to_string(), DecoderSource::Lua, Vec::new());
    app.decoders[0].enabled = false;
    assert_eq!(mgr.scripts_to_run(&app), vec![0]);
    app.register_decoder("sum".to_string(), DecoderSource::Wasm, Vec::new());
    app.decoders[1].enabled = false;
    assert_eq!(mgr.scripts_to_run(&app), vec![0]);
}

#[test]
fn lua_script_fields_and_parameters() {
    let mgr = lua_manager();
    let mut app = viewer(vec![1, 2, 3]);
    let params = mgr.query_params(SUM_SCRIPT);
    assert_eq!(params.len(), 3);
    assert_eq!(params[0].name, "mode");
    assert_eq!(params[0].param_type, ParamType::Choice(vec!["a".to_string(), "b".to_string()]));
    assert_eq!(params[1].param_type, ParamType::Int);
    assert_eq!(params[1].value, "3");
    assert_eq!(params[2].param_type, ParamType::String);
    app.register_decoder("sum".to_string(), DecoderSource::Lua, params);
    app.decoders[0].params[0].value = "b".to_string();
    let out = mgr.decode(&vec![0], &vec![Ok(SUM_SCRIPT.to_string())], &[1, 2, 3], Endian::Big, &app);
    assert_eq!(out.len(), 2);
    assert_eq!((out[0].label.as_str(), out[0].value.as_str()), ("Sum", "6"));
    assert_eq!(out[0].range, Some((0, 3)));
    assert_eq!((out[1].label.as_str(), out[1].value.as_str()), ("E", "BEb"));
    assert_eq!(out[1].range, None);
    assert!(out.iter().all(|e| e.color_index.is_none()));
}

#[test]
fn lua_failures_become_error_entries() {
    let mgr = lua_manager();
    let app = viewer(vec![1]);
    let sources = vec![
        Err("No such file or directory".to_string()),
        Ok("function decode() error('boom') end".to_string()),
    ];
    let out = mgr.decode(&vec![0, 1], &sources, &[1], Endian::Little, &app);
    assert_eq!(out.len(), 2);
    assert_eq!(
        (out[0].label.as_str(), out[0].value.as_str()),
        ("sum", "error: Failed to read sum: No such file or directory")
    );
    assert_eq!(out[1].label, "other");
    assert!(out[1].value.starts_with("error: "));
    assert!(out[1].value.contains("boom"));
    let none = mgr.decode(&vec![], &vec![], &[1], Endian::Little, &app);
    assert!(none.is_empty());
}

#[test]
fn lua_script_without_params_declares_none() {
    let mgr = LuaDecoderManager::new();
    assert!(mgr.query_params("params = 5").is_empty());
    assert!(mgr.query_params("function params() return 'x' end").is_empty());
}

#[test]
fn lua_scripts_do_not_see_each_other() {
    let mgr = lua_manager();
    assert_eq!(mgr.query_params(SUM_SCRIPT).len(), 3);
    assert!(mgr.query_params("x = 1").is_empty());
    let app = viewer(vec![1]);
    let out = mgr.decode(
        &vec![0, 1],
        &vec![Ok(SUM_SCRIPT.to_string()), Ok("y = 2".to_string())],
        &[1],
        Endian::Little,
        &app,
    );
    assert_eq!(out.len(), 3);
    assert_eq!(out[2].label, "other");
    assert!(out[2].value.starts_with("error: "));
}

#[test]
fn lua_answers_become_fields() {
    let items = vec![
        Some(LuaAnswer { label: Some("a".to_string()), value: None, offset: Some(1), length: Some(2) }),
        None,
        Some(LuaAnswer { label: None, value: Some("v".to_string()), offset: Some(3), length: None }),
    ];
    let out = answer_fields(items);
    assert_eq!(out.len(), 2);
    assert_eq!((out[0].label.as_str(), out[0].value.as_str(), out[0].range), ("a", "", Some((1, 2))));
    assert_eq!((out[1].label.as_str(), out[1].value.as_str(), out[1].range), ("", "v", None));
}

#[test]
fn lua_declarations_become_parameters() {
    let decls = vec![
        Some(LuaParamDecl { name: Some("k".to_string()), kind: Some("choice".to_string()), default: None, choices: Some(vec!["x".to_string()]) }),
        Some(LuaParamDecl { name: None, kind: Some("int".to_string()), default: Some("1".to_string()), choices: None }),
        None,
        Some(LuaParamDecl { name: Some("n".to_string()), kind: None, default: Some("d".to_string()), choices: None }),
    ];
    let ps = params_from_decls(decls);
    assert_eq!(ps.len(), 2);
    assert_eq!(ps[0].param_type, ParamType::Choice(vec!["x".to_string()]));
    assert_eq!(ps[0].value, "");
    assert_eq!(ps[1].param_type, ParamType::String);
    assert_eq!((ps[1].name.as_str(), ps[1].default.as_str(), ps[1].value.as_str()), ("n", "d", "d"));
}

#[test]
fn plugin_run_without_memory_export_stops_first() {
    let mgr = WasmDecoderManager::new().unwrap();
    let module = CompiledModule::compile(mgr.engine(), &EMPTY_MODULE).ok().unwrap();
    let mut run = PluginInstance::start(mgr.engine(), &module, 1_000).ok().unwrap();
    let r = run_plugin_decode(&mut run, &[1, 2], Endian::Little, &vec![]);
    assert!(matches!(r, Err(WasmFault::NoMemory)));
}

#[test]
fn plugin_run_reads_the_answer() {
    let mgr = WasmDecoderManager::new().unwrap();
    let module = CompiledModule::compile(mgr.engine(), &ANSWERING_MODULE).ok().unwrap();
    if let Ok(mut run) = PluginInstance::start(mgr.engine(), &module, 1_000_000) {
        let out = run_plugin_decode(&mut run, &[7, 8, 9], Endian::Big, &vec![]).ok().unwrap();
        assert_eq!(out.len(), 1);
        assert_eq!((out[0].label.as_str(), out[0].value.as_str()), ("x", "y"));
        assert_eq!(out[0].range, Some((0, 2)));
    }
}

#[test]
fn lua_decode_is_handed_the_byte_order_label() {
    let mut sb = Sandbox::new().ok().unwrap();
    let params = vec![("mode".to_string(), "q".to_string())];
    let out = run_decode_script(&mut sb, SUM_SCRIPT, &[4, 5], Endian::Little, &params).ok().unwrap();
    assert_eq!(out.len(), 2);
    assert_eq!((out[0].label.as_str(), out[0].value.as_str()), ("Sum", "9"));
    assert_eq!(out[0].range, Some((0, 2)));
    assert_eq!((out[1].label.as_str(), out[1].value.as_str()), ("E", "LEq"));
}

#[test]
fn plugin_without_params_export_declares_none() {
    let mgr = WasmDecoderManager::new().unwrap();
    let module = CompiledModule::compile(mgr.engine(), &EMPTY_MODULE).ok().unwrap();
    let mut run = PluginInstance::start(mgr.engine(), &module, 1_000).ok().unwrap();
    assert!(run_plugin_params(&mut run).is_empty());
}

#[test]
fn lua_params_read_in_a_sandbox() {
    let mut sb = Sandbox::new().ok().unwrap();
    let ps = run_params_script(&mut sb, SUM_SCRIPT);
    assert_eq!(ps.len(), 3);
    assert_eq!((ps[0].name.as_str(), ps[0].value.as_str()), ("mode", "a"));
    let mut bare = Sandbox::new().ok().unwrap();
    assert!(run_params_script(&mut bare, "function decode() return {} end").is_empty());
}

#[test]
fn a_module_that_does_not_compile_is_not_added() {
    let mut mgr = WasmDecoderManager::new().unwrap();
    assert!(mgr.add_decoder("junk".to_string(), &[1, 2, 3, 4]).is_err());
    assert!(mgr.decoder_names().is_empty());
    assert!(mgr.add_decoder("bare".to_string(), &EMPTY_MODULE).is_ok());
    assert_eq!(mgr.decoder_names(), vec!["bare".to_string()]);
}

#[test]
fn parameter_declarations_with_an_unclosed_object_are_none() {
    assert!(parse_param_definitions(r#"[{"name":"a","type":"int"]"#).is_empty());
    assert_eq!(parse_param_definitions(r#"[{"name":"a","type":"int"}]"#).len(), 1);
}

#[test]
fn lua_decode_outcomes() {
    let mut sb = Sandbox::new().ok().unwrap();
    let out = run_decode_script(&mut sb, "function decode() return 5 end", &[1], Endian::Big, &vec![]);
    assert!(matches!(out, Ok(v) if v.is_empty()));
    let mut sb = Sandbox::new().ok().unwrap();
    assert!(run_decode_script(&mut sb, "x = 1", &[1], Endian::Big, &vec![]).is_err());
    let mut sb = Sandbox::new().ok().unwrap();
    assert!(run_decode_script(&mut sb, "this is not lua", &[1], Endian::Big, &vec![]).is_err());
    let mut sb = Sandbox::new().ok().unwrap();
    assert!(run_decode_script(&mut sb, "function decode() error('no') end", &[1], Endian::Big, &vec![]).is_err());
}

#[test]
fn plugin_params_need_both_exports() {
    let mut mgr = WasmDecoderManager::new().unwrap();
    assert!(mgr.add_decoder("answer".to_string(), &ANSWERING_MODULE).is_ok());
    assert!(mgr.query_params("answer").is_empty());
}
