//! Modes, decoder descriptions and decoder parameters.

use vstd::prelude::*;

verus! {

/// Whether the user selects whole bytes or single bits.
#[derive(Clone, Copy, PartialEq, Eq, Structural, Debug)]
pub enum SelectionMode {
    /// Byte-level selection (default).
    Byte,
    /// Bit-level selection for sub-byte fields.
    Bit,
}

/// The input mode, which decides how keys are handled.
#[derive(Clone, Copy, PartialEq, Eq, Structural, Debug)]
pub enum InputMode {
    /// Browsing with full navigation.
    Normal,
    /// Visual selection: movement extends the selection from its anchor.
    Selecting,
    /// Typing an offset to jump to.
    GotoOffset,
    /// Typing a search pattern.
    SearchInput,
    /// The help popup is open; any key closes it.
    Help,
    /// The decoder settings popup is open.
    DecoderSettings,
    /// A decoder parameter value is being edited.
    ParamEdit,
}

/// The type of a configurable decoder parameter.
#[derive(Clone, PartialEq, Eq, Debug)]
pub enum ParamType {
    /// Free-form text.
    String,
    /// An integer, checked when entered.
    Int,
    /// `"true"` or `"false"`.
    Bool,
    /// One of a fixed list of values, cycled through.
    Choice(Vec<std::string::String>),
}

/// A configurable parameter declared by a decoder plugin.
#[derive(Clone, Debug)]
pub struct DecoderParam {
    /// Display name.
    pub name: String,
    /// The value type, used for checking and display.
    pub param_type: ParamType,
    /// The default the plugin declared.
    pub default: String,
    /// The current value (initially the default).
    pub value: String,
}

/// Where a decoder comes from.
#[derive(Clone, Copy, PartialEq, Eq, Structural, Debug)]
pub enum DecoderSource {
    /// The built-in decoder.
    Builtin,
    /// A Lua script plugin.
    Lua,
    /// A WASM module plugin.
    Wasm,
}

/// A registered decoder with its enabled state and parameters.
#[derive(Clone, Debug)]
pub struct DecoderInfo {
    /// Display name (the plugin's file stem, or `Built-in`).
    pub name: String,
    /// Where the decoder comes from.
    pub source: DecoderSource,
    /// Whether the decoder runs.
    pub enabled: bool,
    /// Its parameters.
    pub params: Vec<DecoderParam>,
}

/// Wraps `str`'s `==`: whether two string slices hold the same characters.
#[verifier::external_body]
pub(crate) fn str_eq(a: &str, b: &str) -> (r: bool)
    ensures
        r == (a@ == b@),
{
    a == b
}

/// The characters of each string of a list.
pub open spec fn string_views(v: Seq<String>) -> Seq<Seq<char>> {
    v.map_values(|s: String| s@)
}

/// Whether `t` is the parameter type a plugin declares with the type name
/// `kind_name` and the choice list `choices`: `int`, `bool` and `choice` name
/// their types, anything else is a string.
pub open spec fn param_type_for(t: ParamType, kind_name: Seq<char>, choices: Seq<Seq<char>>) -> bool {
    if kind_name == "int"@ {
        t is Int
    } else if kind_name == "bool"@ {
        t is Bool
    } else if kind_name == "choice"@ {
        t matches ParamType::Choice(cs) && string_views(cs@) == choices
    } else {
        t is String
    }
}

/// Builds the parameter a plugin declares, or `None` when its name is empty.
/// Its value starts as its default.
pub fn make_param(name: String, kind_name: &str, default: String, choices: Vec<String>) -> (r: Option<
    DecoderParam,
>)
    ensures
        name@.len() == 0 <==> r is None,
        r matches Some(p) ==> {
            &&& p.name@ == name@
            &&& p.default@ == default@
            &&& p.value@ == default@
            &&& param_type_for(p.param_type, kind_name@, string_views(choices@))
        },
{
    if name.as_str().is_empty() {
        return None;
    }
    let param_type = if str_eq(kind_name, "int") {
        ParamType::Int
    } else if str_eq(kind_name, "bool") {
        ParamType::Bool
    } else if str_eq(kind_name, "choice") {
        ParamType::Choice(choices)
    } else {
        ParamType::String
    };
    let value = default.clone();
    Some(DecoderParam { name, param_type, default, value })
}

} // verus!
