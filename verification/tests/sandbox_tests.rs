use flint::config::{Config, ConfigValue, FlintConfig};
use flint::logs::LogKind;
use flint::plugin::{Plugin, PluginDetails};
use flint::sandbox::{run_plugin, GenerationFailure, PluginBundleLayout};

fn plugin(id: &str) -> Plugin {
    Plugin {
        details: PluginDetails {
            id: String::from(id),
            extensions: vec![String::from("js")],
            version: String::from("0.1"),
            author: String::from("someone"),
            category: String::from("lint"),
        },
        path: String::from("plugins/lint/sample"),
    }
}

fn config_for(id: &str) -> Config {
    Config {
        flint: FlintConfig { version: 1, plugins_branch: String::from("main") },
        common: vec![
            (String::from("shared"), ConfigValue::Int(5)),
            (String::from("name"), ConfigValue::Str(String::from("proj"))),
        ],
        linters: vec![(
            String::from(id),
            vec![
                (String::from("opt"), ConfigValue::Str(String::from("val"))),
                (String::from("on"), ConfigValue::Bool(true)),
                (
                    String::from("list"),
                    ConfigValue::Arr(vec![ConfigValue::Int(1), ConfigValue::Int(2)]),
                ),
                (
                    String::from("nested"),
                    ConfigValue::Tbl(vec![(String::from("inner"), ConfigValue::Int(7))]),
                ),
            ],
        )],
    }
}

fn combined(source: &str) -> PluginBundleLayout {
    PluginBundleLayout::Combined(String::from(source))
}

#[test]
fn missing_config_section_fails_before_anything_runs() {
    let config = config_for("other");
    let (result, script_logs) = run_plugin(
        &plugin("eslint"),
        &config,
        &combined("function Validate(c) return true end\nfunction Generate(c) return {} end"),
    );
    assert_eq!(result, Err(GenerationFailure::MissingConfig));
    assert!(script_logs.is_empty());
}

#[test]
fn combined_layout_success_returns_generated_files() {
    let config = config_for("eslint");
    let source = "function Validate(config) return true end\n\
                  function Generate(config) return { [\"x.conf\"] = \"content\" } end";
    let (result, _) = run_plugin(&plugin("eslint"), &config, &combined(source));
    let files = result.unwrap();
    assert_eq!(files, vec![(String::from("x.conf"), String::from("content"))]);
}

#[test]
fn split_layout_loads_both_scripts() {
    let config = config_for("eslint");
    let layout = PluginBundleLayout::Split {
        validate: String::from("function Validate(config) return true end"),
        generate: String::from(
            "function Generate(config) return { [\"a.conf\"] = \"1\", [\"b.conf\"] = \"2\" } end",
        ),
    };
    let (result, _) = run_plugin(&plugin("eslint"), &config, &layout);
    let files = result.unwrap();
    assert_eq!(files.len(), 2);
    assert!(files.contains(&(String::from("a.conf"), String::from("1"))));
    assert!(files.contains(&(String::from("b.conf"), String::from("2"))));
}

#[test]
fn config_view_carries_section_and_common() {
    // Validate checks the projected view: its own section's entries, and the
    // shared section nested under `common`. Generate names files from it.
    let config = config_for("eslint");
    let source = "function Validate(config)\n\
                    return config.opt == \"val\" and config.on == true\n\
                      and config.list[1] == 1 and config.list[2] == 2\n\
                      and config.nested.inner == 7\n\
                      and config.common.shared == 5 and config.common.name == \"proj\"\n\
                  end\n\
                  function Generate(config) return { [config.opt] = config.common.name } end";
    let (result, _) = run_plugin(&plugin("eslint"), &config, &combined(source));
    let files = result.unwrap();
    assert_eq!(files, vec![(String::from("val"), String::from("proj"))]);
}

#[test]
fn validate_false_fails_task_and_generate_never_runs() {
    // The observable side effect is recorded only inside Generate: it must be
    // absent when Validate answers false.
    let config = config_for("eslint");
    let source = "function Validate(config) return false end\n\
                  function Generate(config) log.info(\"generate ran\") return {} end";
    let (result, script_logs) = run_plugin(&plugin("eslint"), &config, &combined(source));
    assert_eq!(result, Err(GenerationFailure::ValidationFailed));
    assert!(!script_logs.iter().any(|(_, m)| m.contains("generate ran")));
}

#[test]
fn validate_true_lets_generate_run() {
    // The positive control for the side-effect marker above.
    let config = config_for("eslint");
    let source = "function Validate(config) return true end\n\
                  function Generate(config) log.info(\"generate ran\") return {} end";
    let (result, script_logs) = run_plugin(&plugin("eslint"), &config, &combined(source));
    assert!(result.is_ok());
    assert!(script_logs.iter().any(|(_, m)| m.contains("generate ran")));
}

#[test]
fn non_boolean_validate_result_fails_validation() {
    let config = config_for("eslint");
    let source = "function Validate(config) return \"yes\" end\n\
                  function Generate(config) return {} end";
    let (result, _) = run_plugin(&plugin("eslint"), &config, &combined(source));
    assert_eq!(result, Err(GenerationFailure::ValidationFailed));
}

#[test]
fn validate_runtime_error_fails_validation() {
    let config = config_for("eslint");
    let source = "function Validate(config) error(\"boom\") end\n\
                  function Generate(config) return {} end";
    let (result, _) = run_plugin(&plugin("eslint"), &config, &combined(source));
    assert_eq!(result, Err(GenerationFailure::ValidationFailed));
}

#[test]
fn unparsable_script_is_unreadable_code() {
    let config = config_for("eslint");
    let (result, _) = run_plugin(&plugin("eslint"), &config, &combined("function Validate("));
    assert_eq!(result, Err(GenerationFailure::UnreadableCode));
}

#[test]
fn script_without_generate_is_unreadable_code() {
    let config = config_for("eslint");
    let (result, _) = run_plugin(
        &plugin("eslint"),
        &config,
        &combined("function Validate(config) return true end"),
    );
    assert_eq!(result, Err(GenerationFailure::UnreadableCode));
}

#[test]
fn generate_result_of_wrong_shape_fails_generation() {
    let config = config_for("eslint");
    let source = "function Validate(config) return true end\n\
                  function Generate(config) return 42 end";
    let (result, _) = run_plugin(&plugin("eslint"), &config, &combined(source));
    assert_eq!(result, Err(GenerationFailure::GenerationFailed));
}

#[test]
fn generate_runtime_error_fails_generation() {
    let config = config_for("eslint");
    let source = "function Validate(config) return true end\n\
                  function Generate(config) error(\"boom\") end";
    let (result, _) = run_plugin(&plugin("eslint"), &config, &combined(source));
    assert_eq!(result, Err(GenerationFailure::GenerationFailed));
}

#[test]
fn script_log_helpers_are_captured_in_order() {
    let config = config_for("eslint");
    let source = "function Validate(config)\n\
                    log.info(\"starting\")\n\
                    log.warn(\"careful\")\n\
                    log.error(\"oops\")\n\
                    log.success(\"done\")\n\
                    return true\n\
                  end\n\
                  function Generate(config) return {} end";
    let (result, script_logs) = run_plugin(&plugin("eslint"), &config, &combined(source));
    assert!(result.is_ok());
    assert_eq!(script_logs.len(), 4);
    assert_eq!(script_logs[0], (LogKind::Info, String::from("starting")));
    assert_eq!(script_logs[1], (LogKind::Warn, String::from("careful")));
    assert_eq!(script_logs[2], (LogKind::Error, String::from("oops")));
    assert_eq!(script_logs[3], (LogKind::Success, String::from("done")));
}

#[test]
fn to_toml_helper_is_injected() {
    let config = config_for("eslint");
    let source = "function Validate(config)\n\
                    local s = to_toml({ key = \"value\" })\n\
                    return type(s) == \"string\" and string.find(s, \"key\") ~= nil\n\
                  end\n\
                  function Generate(config) return {} end";
    let (result, _) = run_plugin(&plugin("eslint"), &config, &combined(source));
    assert!(result.is_ok());
}

#[test]
fn to_json_and_log_debug_helpers_are_injected() {
    let config = config_for("eslint");
    let source = "function Validate(config)\n\
                    local s = to_json({ answer = 42 })\n\
                    if type(s) ~= \"string\" or not string.find(s, \"answer\") then return false end\n\
                    log.debug({ answer = 42 })\n\
                    return true\n\
                  end\n\
                  function Generate(config) return {} end";
    let (result, script_logs) = run_plugin(&plugin("eslint"), &config, &combined(source));
    assert!(result.is_ok());
    assert_eq!(script_logs.len(), 1);
    assert_eq!(script_logs[0].0, LogKind::Debug);
    assert!(script_logs[0].1.contains("answer"));
}
