//! The sandbox execution contract: each generation task owns a private,
//! freshly constructed Lua interpreter with a fixed helper surface (a `log`
//! namespace and a `to_json` converter), loads its plugin bundle, and runs the
//! two-phase validate/generate protocol. Every call into the interpreter goes
//! through a trusted wrapper; the protocol itself is verified.

use vstd::prelude::*;

verus! {

use mlua::LuaSerdeExt;

use crate::config::{Config, ConfigValue, ConfigView, has_section, project_config};
use crate::logs::LogKind;
use crate::plugin::{Plugin, PluginDetails};

broadcast use vstd::std_specs::vec::axiom_vec_index_decreases;

// ---------------------------------------------------------------------------
// Declarations of the interpreter's types. Values of these are opaque here;
// the library only carries them between wrapper calls.
// ---------------------------------------------------------------------------

#[verifier::external_type_specification]
#[verifier::external_body]
pub struct ExLua(mlua::Lua);

#[verifier::external_type_specification]
#[verifier::external_body]
pub struct ExLuaTable(mlua::Table);

#[verifier::external_type_specification]
#[verifier::external_body]
pub struct ExLuaFunction(mlua::Function);

#[verifier::external_type_specification]
#[verifier::external_body]
pub struct ExLuaValue(mlua::Value);

#[verifier::external_type_specification]
#[verifier::external_body]
pub struct ExLuaError(mlua::Error);

// ---------------------------------------------------------------------------
// Trusted wrappers, one per interpreter operation the engine relies on.
// ---------------------------------------------------------------------------

/// Relies on mlua::Lua::new: a fresh, isolated interpreter instance with the
/// safe standard libraries; no state is shared with any other instance.
#[verifier::external_body]
fn lua_new() -> (r: mlua::Lua) {
    mlua::Lua::new()
}

/// Relies on mlua::Lua::load and mlua::Chunk::exec: compiles and runs a script
/// in the interpreter's global environment; Err when it fails to parse or run.
#[verifier::external_body]
fn lua_exec(lua: &mlua::Lua, src: &str) -> (r: Result<(), mlua::Error>) {
    lua.load(src).exec()
}

/// Relies on mlua::Lua::globals and mlua::Table::get: Err unless the global
/// `name` currently holds a function.
#[verifier::external_body]
fn lua_global_function(lua: &mlua::Lua, name: &str) -> (r: Result<mlua::Function, mlua::Error>) {
    lua.globals().get::<mlua::Function>(name)
}

/// Relies on mlua::Function::call: calls the function with no arguments and
/// hands back whatever single value it returned.
#[verifier::external_body]
fn lua_call_no_args(f: &mlua::Function) -> (r: Result<mlua::Value, mlua::Error>) {
    f.call::<mlua::Value>(())
}

/// Relies on mlua::Function::call: calls the function with the given table as
/// its one argument and hands back whatever single value it returned.
#[verifier::external_body]
fn lua_call_with_table(f: &mlua::Function, arg: &mlua::Table) -> (r: Result<
    mlua::Value,
    mlua::Error,
>) {
    f.call::<mlua::Value>(arg)
}

/// Relies on mlua::Lua::create_table: a fresh, empty table.
#[verifier::external_body]
fn lua_new_table(lua: &mlua::Lua) -> (r: Result<mlua::Table, mlua::Error>) {
    lua.create_table()
}

/// Relies on mlua::Lua::create_string: the given characters as a Lua string
/// value.
#[verifier::external_body]
fn lua_value_str(lua: &mlua::Lua, s: &str) -> (r: Result<mlua::Value, mlua::Error>) {
    Ok(mlua::Value::String(lua.create_string(s)?))
}

/// Relies on mlua::Value::Integer: the given integer as a Lua value.
#[verifier::external_body]
fn lua_value_int(i: i64) -> (r: mlua::Value) {
    mlua::Value::Integer(i)
}

/// Relies on mlua::Value::Boolean: the given boolean as a Lua value.
#[verifier::external_body]
fn lua_value_bool(b: bool) -> (r: mlua::Value) {
    mlua::Value::Boolean(b)
}

/// Relies on mlua::Value::Table: the given table as a Lua value.
#[verifier::external_body]
fn lua_value_table(t: mlua::Table) -> (r: mlua::Value) {
    mlua::Value::Table(t)
}

/// Relies on mlua::Table::set: binds `key` to `v` in the table, replacing any
/// earlier binding of `key`.
#[verifier::external_body]
fn lua_table_set(t: &mlua::Table, key: &str, v: &mlua::Value) -> (r: Result<(), mlua::Error>) {
    t.set(key, v)
}

/// Relies on mlua::Table::push: appends `v` at the back of the table's
/// sequence part.
#[verifier::external_body]
fn lua_table_push(t: &mlua::Table, v: &mlua::Value) -> (r: Result<(), mlua::Error>) {
    t.push(v)
}

/// Relies on mlua's serde deserializer: Ok exactly when the value is a
/// boolean, as the validate phase's result must be.
#[verifier::external_body]
fn lua_value_to_bool(lua: &mlua::Lua, v: mlua::Value) -> (r: Result<bool, mlua::Error>) {
    lua.from_value::<bool>(v)
}

/// Relies on mlua's serde deserializer into a BTreeMap: Ok exactly when the
/// value is a table mapping strings to strings; the returned pairs carry the
/// map's entries, so their keys are distinct.
#[verifier::external_body]
fn lua_value_to_string_map(lua: &mlua::Lua, v: mlua::Value) -> (r: Result<
    Vec<(String, String)>,
    mlua::Error,
>)
    ensures
        r is Ok ==> distinct_paths(r->Ok_0@),
{
    let m: std::collections::BTreeMap<String, String> = lua.from_value(v)?;
    Ok(m.into_iter().collect())
}

/// Relies on mlua::Value::as_table, mlua::Table::get and mlua's serde
/// deserializer: Err unless `v` is a table whose `key` field holds a string.
#[verifier::external_body]
fn lua_field_string(lua: &mlua::Lua, v: &mlua::Value, key: &str) -> (r: Result<
    String,
    mlua::Error,
>) {
    match v.as_table() {
        Some(t) => lua.from_value::<String>(t.get::<mlua::Value>(key)?),
        None => Err(mlua::Error::runtime("descriptor is not a table")),
    }
}

/// Relies on mlua::Value::as_table, mlua::Table::get and mlua's serde
/// deserializer: Err unless `v` is a table whose `key` field holds a sequence
/// of strings.
#[verifier::external_body]
fn lua_field_string_list(lua: &mlua::Lua, v: &mlua::Value, key: &str) -> (r: Result<
    Vec<String>,
    mlua::Error,
>) {
    match v.as_table() {
        Some(t) => lua.from_value::<Vec<String>>(t.get::<mlua::Value>(key)?),
        None => Err(mlua::Error::runtime("descriptor is not a table")),
    }
}

/// Relies on mlua::Lua::create_function and mlua::Table::set: installs the
/// `to_json` global, which pretty-prints its argument as JSON through
/// serde_json (the conversion helper plugins may call).
#[verifier::external_body]
fn lua_install_to_json(lua: &mlua::Lua) -> (r: Result<(), mlua::Error>) {
    let f = lua.create_function(|_, v: mlua::Value| {
        serde_json::to_string_pretty(&v).map_err(mlua::Error::external)
    })?;
    lua.globals().set("to_json", f)
}

/// Relies on mlua::Lua::create_function and mlua::Table::set: installs the
/// `to_toml` global, which renders its argument as TOML through the toml
/// crate's serializer (so a value that is not a table raises a Lua error, as
/// TOML documents are tables).
#[verifier::external_body]
fn lua_install_to_toml(lua: &mlua::Lua) -> (r: Result<(), mlua::Error>) {
    let f = lua.create_function(|_, v: mlua::Value| {
        toml::to_string_pretty(&v).map_err(mlua::Error::external)
    })?;
    lua.globals().set("to_toml", f)
}

/// Relies on mlua::Lua::load and mlua::Chunk::exec: defines the `log` helper
/// namespace in Lua. Its info/success/error/warn/debug functions append
/// `{kind tag, message}` pairs to the interpreter-private `__flint_logs`
/// buffer, which `lua_drain_logs` reads back; `debug` stores its argument
/// pretty-printed through the `to_json` global.
#[verifier::external_body]
fn lua_install_log_table(lua: &mlua::Lua) -> (r: Result<(), mlua::Error>) {
    lua.load(
        "__flint_logs = {}\nlocal function put(k) return function(m) __flint_logs[#__flint_logs + 1] = { k, tostring(m) } end end\nlog = { info = put(0), success = put(1), error = put(2), warn = put(3), debug = function(v) __flint_logs[#__flint_logs + 1] = { 4, to_json(v) } end }",
    ).exec()
}

/// Relies on mlua::Table::get, mlua's serde deserializer and
/// mlua::Chunk::exec: reads the `__flint_logs` buffer as `(kind tag, message)`
/// pairs and clears it. Err when a script replaced the buffer with something
/// of another shape.
#[verifier::external_body]
fn lua_drain_logs(lua: &mlua::Lua) -> (r: Result<Vec<(u8, String)>, mlua::Error>) {
    let v: mlua::Value = lua.globals().get("__flint_logs")?;
    let entries: Vec<(u8, String)> = lua.from_value(v)?;
    lua.load("__flint_logs = {}").exec()?;
    Ok(entries)
}

// ---------------------------------------------------------------------------
// Verified logic.
// ---------------------------------------------------------------------------

/// Why a discovered bundle was skipped during registry construction.
#[derive(Clone, Copy, Debug, PartialEq, Eq, Structural)]
pub enum DiscoveryError {
    /// The metadata script failed to parse or run.
    MalformedScript,
    /// The `Details` entry point was missing, failed, or returned a record
    /// that does not convert to a descriptor.
    MalformedDescriptor,
}

/// Why a generation task failed. Each recoverable per-plugin failure is caught
/// at the task boundary and becomes one error log entry.
#[derive(Clone, Copy, Debug, PartialEq, Eq, Structural)]
pub enum GenerationFailure {
    /// The configuration holds no section for the activated plugin's id.
    MissingConfig,
    /// The bundle's script failed to parse or run, or does not expose the
    /// validate/generate contract.
    UnreadableCode,
    /// `Validate` reported `false`, failed, or returned a non-boolean.
    ValidationFailed,
    /// `Generate` failed or returned something other than a table of path to
    /// contents strings.
    GenerationFailed,
    /// A generated file could not be written; the failure stays with this
    /// task instead of aborting the run.
    WriteFailed,
}

/// Whether no two pairs share a path.
pub open spec fn distinct_paths(files: Seq<(String, String)>) -> bool {
    forall|i: int, j: int|
        0 <= i < files.len() && 0 <= j < files.len() && i != j ==> files[i].0@ != files[j].0@
}

/// The two physical bundle layouts: one script exposing both `Validate` and
/// `Generate`, or two scripts each exposing the one function of its phase.
pub enum PluginBundleLayout {
    Combined(String),
    Split { validate: String, generate: String },
}

/// What the protocol does once the validate phase has produced its verdict.
#[derive(Clone, Copy, Debug, PartialEq, Eq, Structural)]
pub enum ProtocolStep {
    InvokeGenerate,
    Halt(GenerationFailure),
}

/// The protocol's one decision point: generation is reached exactly when the
/// validate phase returned `true`; a `false` verdict or any validate-phase
/// failure halts the task before `Generate` is ever invoked.
pub open spec fn decide_after_validate(verdict: Result<bool, GenerationFailure>) -> ProtocolStep {
    match verdict {
        Ok(true) => ProtocolStep::InvokeGenerate,
        Ok(false) => ProtocolStep::Halt(GenerationFailure::ValidationFailed),
        Err(f) => ProtocolStep::Halt(f),
    }
}

fn after_validate(verdict: &Result<bool, GenerationFailure>) -> (r: ProtocolStep)
    ensures
        r == decide_after_validate(*verdict),
{
    match verdict {
        Ok(true) => ProtocolStep::InvokeGenerate,
        Ok(false) => ProtocolStep::Halt(GenerationFailure::ValidationFailed),
        Err(f) => ProtocolStep::Halt(*f),
    }
}

/// Law: a `false` validate verdict, or a validate-phase failure, never lets
/// the protocol invoke `Generate`.
pub proof fn lemma_validate_false_blocks_generate(verdict: Result<bool, GenerationFailure>)
    requires
        verdict != Ok::<bool, GenerationFailure>(true),
    ensures
        decide_after_validate(verdict) != ProtocolStep::InvokeGenerate,
        verdict == Ok::<bool, GenerationFailure>(false) ==> decide_after_validate(verdict)
            == ProtocolStep::Halt(GenerationFailure::ValidationFailed),
{
}

fn value_to_lua(lua: &mlua::Lua, v: &ConfigValue) -> (r: Result<mlua::Value, mlua::Error>)
    decreases *v,
{
    match v {
        ConfigValue::Str(s) => lua_value_str(lua, s.as_str()),
        ConfigValue::Int(i) => Ok(lua_value_int(*i)),
        ConfigValue::Bool(b) => Ok(lua_value_bool(*b)),
        ConfigValue::Arr(items) => {
            let t = match lua_new_table(lua) {
                Ok(t) => t,
                Err(e) => {
                    return Err(e);
                },
            };
            let mut i: usize = 0;
            while i < items.len()
                invariant
                    i <= items.len(),
                    *v == ConfigValue::Arr(*items),
                decreases items.len() - i,
            {
                proof {
                    assert(decreases_to!(*v => v->Arr_0));
                    assert(decreases_to!(*items => items@));
                    assert(decreases_to!(items@ => items@[i as int]));
                }
                let item = match value_to_lua(lua, &items[i]) {
                    Ok(item) => item,
                    Err(e) => {
                        return Err(e);
                    },
                };
                match lua_table_push(&t, &item) {
                    Ok(()) => (),
                    Err(e) => {
                        return Err(e);
                    },
                }
                i = i + 1;
            }
            Ok(lua_value_table(t))
        },
        ConfigValue::Tbl(entries) => {
            let t = match lua_new_table(lua) {
                Ok(t) => t,
                Err(e) => {
                    return Err(e);
                },
            };
            let mut i: usize = 0;
            while i < entries.len()
                invariant
                    i <= entries.len(),
                    *v == ConfigValue::Tbl(*entries),
                decreases entries.len() - i,
            {
                proof {
                    assert(decreases_to!(*v => v->Tbl_0));
                    assert(decreases_to!(*entries => entries@));
                    assert(decreases_to!(entries@ => entries@[i as int]));
                    assert(decreases_to!(entries@[i as int] => entries@[i as int].1));
                }
                let item = match value_to_lua(lua, &entries[i].1) {
                    Ok(item) => item,
                    Err(e) => {
                        return Err(e);
                    },
                };
                match lua_table_set(&t, entries[i].0.as_str(), &item) {
                    Ok(()) => (),
                    Err(e) => {
                        return Err(e);
                    },
                }
                i = i + 1;
            }
            Ok(lua_value_table(t))
        },
    }
}

/// Builds the Lua table a plugin receives: the entries of its own section in
/// order, then the shared `common` section nested under `common` (set last,
/// so it replaces any section entry of that key, as the augmentation step
/// requires).
fn view_to_lua(lua: &mlua::Lua, view: &ConfigView<'_>) -> (r: Result<mlua::Table, mlua::Error>) {
    let t = match lua_new_table(lua) {
        Ok(t) => t,
        Err(e) => {
            return Err(e);
        },
    };
    let mut i: usize = 0;
    while i < view.section.len()
        invariant
            i <= view.section.len(),
        decreases view.section.len() - i,
    {
        let item = match value_to_lua(lua, &view.section[i].1) {
            Ok(item) => item,
            Err(e) => {
                return Err(e);
            },
        };
        match lua_table_set(&t, view.section[i].0.as_str(), &item) {
            Ok(()) => (),
            Err(e) => {
                return Err(e);
            },
        }
        i = i + 1;
    }
    let common = match lua_new_table(lua) {
        Ok(t) => t,
        Err(e) => {
            return Err(e);
        },
    };
    let mut j: usize = 0;
    while j < view.common.len()
        invariant
            j <= view.common.len(),
        decreases view.common.len() - j,
    {
        let item = match value_to_lua(lua, &view.common[j].1) {
            Ok(item) => item,
            Err(e) => {
                return Err(e);
            },
        };
        match lua_table_set(&common, view.common[j].0.as_str(), &item) {
            Ok(()) => (),
            Err(e) => {
                return Err(e);
            },
        }
        j = j + 1;
    }
    match lua_table_set(&t, "common", &lua_value_table(common)) {
        Ok(()) => Ok(t),
        Err(e) => Err(e),
    }
}

/// Turns a drained helper-buffer tag back into the log kind the helper
/// function was installed under.
fn kind_of_tag(tag: u8) -> (r: LogKind)
    ensures
        tag == 0 ==> r == LogKind::Info,
        tag == 1 ==> r == LogKind::Success,
        tag == 2 ==> r == LogKind::Error,
        tag == 3 ==> r == LogKind::Warn,
        tag >= 4 ==> r == LogKind::Debug,
{
    if tag == 0 {
        LogKind::Info
    } else if tag == 1 {
        LogKind::Success
    } else if tag == 2 {
        LogKind::Error
    } else if tag == 3 {
        LogKind::Warn
    } else {
        LogKind::Debug
    }
}

fn drain_script_logs(lua: &mlua::Lua) -> (r: Vec<(LogKind, String)>) {
    let mut out: Vec<(LogKind, String)> = Vec::new();
    let drained = match lua_drain_logs(lua) {
        Ok(entries) => entries,
        Err(_) => {
            return out;
        },
    };
    let mut i: usize = 0;
    while i < drained.len()
        invariant
            i <= drained.len(),
        decreases drained.len() - i,
    {
        let kind = kind_of_tag(drained[i].0);
        out.push((kind, drained[i].1.clone()));
        i = i + 1;
    }
    out
}

/// Parses a plugin's metadata script: runs it in a fresh interpreter, calls
/// its zero-argument `Details` entry point, and converts the returned record
/// into a descriptor. Any failure to run the script, find the entry point, or
/// convert the record is reported, never propagated further.
pub fn parse_plugin_details(source: &str) -> (r: Result<PluginDetails, DiscoveryError>) {
    let lua = lua_new();
    match lua_exec(&lua, source) {
        Ok(()) => (),
        Err(_) => {
            return Err(DiscoveryError::MalformedScript);
        },
    }
    let details_fn = match lua_global_function(&lua, "Details") {
        Ok(f) => f,
        Err(_) => {
            return Err(DiscoveryError::MalformedDescriptor);
        },
    };
    let record = match lua_call_no_args(&details_fn) {
        Ok(v) => v,
        Err(_) => {
            return Err(DiscoveryError::MalformedDescriptor);
        },
    };
    let id = match lua_field_string(&lua, &record, "id") {
        Ok(s) => s,
        Err(_) => {
            return Err(DiscoveryError::MalformedDescriptor);
        },
    };
    let extensions = match lua_field_string_list(&lua, &record, "extensions") {
        Ok(v) => v,
        Err(_) => {
            return Err(DiscoveryError::MalformedDescriptor);
        },
    };
    let version = match lua_field_string(&lua, &record, "version") {
        Ok(s) => s,
        Err(_) => {
            return Err(DiscoveryError::MalformedDescriptor);
        },
    };
    let author = match lua_field_string(&lua, &record, "author") {
        Ok(s) => s,
        Err(_) => {
            return Err(DiscoveryError::MalformedDescriptor);
        },
    };
    let category = match lua_field_string(&lua, &record, "category") {
        Ok(s) => s,
        Err(_) => {
            return Err(DiscoveryError::MalformedDescriptor);
        },
    };
    Ok(PluginDetails { id, extensions, version, author, category })
}

/// Runs one plugin's two-phase contract against its configuration view inside
/// a private interpreter. Returns the task's result together with whatever
/// entries the script reported through the injected `log` helpers, in order.
///
/// The result is `Err(MissingConfig)` exactly when the configuration holds no
/// section for the plugin's id; in that case nothing is executed and no script
/// log entries exist. On success the returned pairs have pairwise-distinct
/// paths.
pub fn run_plugin(plugin: &Plugin, config: &Config, layout: &PluginBundleLayout) -> (r: (
    Result<Vec<(String, String)>, GenerationFailure>,
    Vec<(LogKind, String)>,
))
    ensures
        (r.0 == Err::<Vec<(String, String)>, GenerationFailure>(GenerationFailure::MissingConfig))
            <==> !has_section(config.linters@, plugin.details.id@),
        !has_section(config.linters@, plugin.details.id@) ==> r.1@ =~= Seq::<(
            LogKind,
            String,
        )>::empty(),
        r.0 is Ok ==> distinct_paths(r.0->Ok_0@),
{
    let view = match project_config(config, &plugin.details.id) {
        Some(view) => view,
        None => {
            return (Err(GenerationFailure::MissingConfig), Vec::new());
        },
    };
    let lua = lua_new();
    if lua_install_to_json(&lua).is_err() {
        return (Err(GenerationFailure::UnreadableCode), Vec::new());
    }
    if lua_install_to_toml(&lua).is_err() {
        return (Err(GenerationFailure::UnreadableCode), Vec::new());
    }
    if lua_install_log_table(&lua).is_err() {
        return (Err(GenerationFailure::UnreadableCode), Vec::new());
    }
    let loaded = match layout {
        PluginBundleLayout::Combined(source) => lua_exec(&lua, source.as_str()),
        PluginBundleLayout::Split { validate, generate } => {
            match lua_exec(&lua, validate.as_str()) {
                Ok(()) => lua_exec(&lua, generate.as_str()),
                Err(e) => Err(e),
            }
        },
    };
    if loaded.is_err() {
        return (Err(GenerationFailure::UnreadableCode), drain_script_logs(&lua));
    }
    let validate_fn = match lua_global_function(&lua, "Validate") {
        Ok(f) => f,
        Err(_) => {
            return (Err(GenerationFailure::UnreadableCode), drain_script_logs(&lua));
        },
    };
    let generate_fn = match lua_global_function(&lua, "Generate") {
        Ok(f) => f,
        Err(_) => {
            return (Err(GenerationFailure::UnreadableCode), drain_script_logs(&lua));
        },
    };
    let arg = match view_to_lua(&lua, &view) {
        Ok(t) => t,
        Err(_) => {
            return (Err(GenerationFailure::ValidationFailed), drain_script_logs(&lua));
        },
    };
    let verdict: Result<bool, GenerationFailure> = match lua_call_with_table(&validate_fn, &arg) {
        Ok(v) => match lua_value_to_bool(&lua, v) {
            Ok(b) => Ok(b),
            Err(_) => Err(GenerationFailure::ValidationFailed),
        },
        Err(_) => Err(GenerationFailure::ValidationFailed),
    };
    match after_validate(&verdict) {
        ProtocolStep::Halt(failure) => (Err(failure), drain_script_logs(&lua)),
        ProtocolStep::InvokeGenerate => {
            let produced = match lua_call_with_table(&generate_fn, &arg) {
                Ok(v) => v,
                Err(_) => {
                    return (Err(GenerationFailure::GenerationFailed), drain_script_logs(&lua));
                },
            };
            match lua_value_to_string_map(&lua, produced) {
                Ok(files) => (Ok(files), drain_script_logs(&lua)),
                Err(_) => (Err(GenerationFailure::GenerationFailed), drain_script_logs(&lua)),
            }
        },
    }
}

} // verus!
