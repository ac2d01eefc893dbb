use flint::config::{Config, ConfigValue, FlintConfig};
use flint::engine::{
    apply_outcome, execute_task, generate_all, FsModel, GenerationOutcome,
};
use flint::logs::{LogKind, Logs};
use flint::plugin::{Plugin, PluginDetails};
use flint::sandbox::{GenerationFailure, PluginBundleLayout};

fn plugin(id: &str) -> Plugin {
    Plugin {
        details: PluginDetails {
            id: String::from(id),
            extensions: vec![String::from("js")],
            version: String::from("0.1"),
            author: String::from("someone"),
            category: String::from("lint"),
        },
        path: String::from("plugins/lint/sample"),
    }
}

fn config_for(ids: &[&str]) -> Config {
    Config {
        flint: FlintConfig { version: 1, plugins_branch: String::from("main") },
        common: vec![],
        linters: ids
            .iter()
            .map(|id| (String::from(*id), vec![(String::from("k"), ConfigValue::Int(1))]))
            .collect(),
    }
}

#[test]
fn filesystem_model_keeps_the_last_write_of_a_path() {
    let mut fs = FsModel::new();
    assert!(fs.read_file(&String::from("x.conf")).is_none());
    fs.write_file(String::from("x.conf"), String::from("first"));
    fs.write_file(String::from("y.conf"), String::from("other"));
    fs.write_file(String::from("x.conf"), String::from("second"));
    assert_eq!(fs.read_file(&String::from("x.conf")).unwrap(), "second");
    assert_eq!(fs.read_file(&String::from("y.conf")).unwrap(), "other");
    assert!(fs.read_file(&String::from("z.conf")).is_none());
}

#[test]
fn applying_a_success_writes_every_pair_and_logs_one_success_entry() {
    let mut fs = FsModel::new();
    let mut logs = Logs::new();
    let outcome = GenerationOutcome::Success {
        files: vec![
            (String::from("a.conf"), String::from("1")),
            (String::from("b.conf"), String::from("2")),
        ],
    };
    apply_outcome(&String::from("eslint"), &outcome, &mut fs, &mut logs);
    assert_eq!(fs.read_file(&String::from("a.conf")).unwrap(), "1");
    assert_eq!(fs.read_file(&String::from("b.conf")).unwrap(), "2");
    let entries = logs.get_logs();
    assert_eq!(entries.len(), 1);
    assert_eq!(entries[0].0, LogKind::Success);
    assert_eq!(entries[0].1, "[success]: Generated eslint config successfully");
}

#[test]
fn applying_a_failure_writes_nothing_and_logs_one_error_entry() {
    let mut fs = FsModel::new();
    let mut logs = Logs::new();
    let outcome = GenerationOutcome::Failure { reason: GenerationFailure::MissingConfig };
    apply_outcome(&String::from("eslint"), &outcome, &mut fs, &mut logs);
    assert!(fs.read_file(&String::from("a.conf")).is_none());
    let entries = logs.get_logs();
    assert_eq!(entries.len(), 1);
    assert_eq!(entries[0].0, LogKind::Error);
    assert_eq!(entries[0].1, "[error]: missing plugin configuration");
}

#[test]
fn each_failure_reason_has_its_own_description() {
    let cases = [
        (GenerationFailure::MissingConfig, "[error]: missing plugin configuration"),
        (GenerationFailure::UnreadableCode, "[error]: unreadable plugin code"),
        (GenerationFailure::ValidationFailed, "[error]: plugin config validation failed"),
        (GenerationFailure::GenerationFailed, "[error]: plugin config generation failed"),
        (GenerationFailure::WriteFailed, "[error]: failed to write generated files"),
    ];
    for (reason, expected) in cases {
        let mut fs = FsModel::new();
        let mut logs = Logs::new();
        let outcome = GenerationOutcome::Failure { reason };
        apply_outcome(&String::from("p"), &outcome, &mut fs, &mut logs);
        assert_eq!(logs.get_logs()[0].1, *expected);
    }
}

#[test]
fn task_with_missing_config_section_fails_and_writes_nothing() {
    let mut fs = FsModel::new();
    let mut logs = Logs::new();
    let config = config_for(&["other"]);
    let layout = PluginBundleLayout::Combined(String::from(
        "function Validate(c) return true end\nfunction Generate(c) return { [\"x\"] = \"1\" } end",
    ));
    let report = execute_task(&plugin("eslint"), &config, &layout, &mut fs, &mut logs);
    match report.outcome {
        GenerationOutcome::Failure { reason } => {
            assert_eq!(reason, GenerationFailure::MissingConfig)
        }
        GenerationOutcome::Success { .. } => panic!("task must fail without a config section"),
    }
    assert!(fs.read_file(&String::from("x")).is_none());
    let entries = logs.get_logs();
    assert_eq!(entries.len(), 1);
    assert_eq!(entries[0].1, "[error]: missing plugin configuration");
}

fn success_script(path: &str, contents: &str) -> PluginBundleLayout {
    PluginBundleLayout::Combined(format!(
        "function Validate(config) return true end\nfunction Generate(config) return {{ [\"{}\"] = \"{}\" }} end",
        path, contents
    ))
}

#[test]
fn a_run_of_n_tasks_appends_exactly_n_terminal_entries() {
    // Three activated plugins with independent output paths: one succeeds per
    // path, one fails validation, one has no config section. The run yields
    // exactly three terminal entries: success + error count equals N.
    let mut fs = FsModel::new();
    let mut logs = Logs::new();
    let config = config_for(&["a", "b"]);
    let plugins = vec![plugin("a"), plugin("b"), plugin("c")];
    let layouts = vec![
        success_script("a.conf", "alpha"),
        PluginBundleLayout::Combined(String::from(
            "function Validate(config) return false end\nfunction Generate(config) return {} end",
        )),
        success_script("c.conf", "gamma"),
    ];
    let reports = generate_all(&plugins, &config, &layouts, &mut fs, &mut logs);
    assert_eq!(reports.len(), 3);
    let entries = logs.get_logs();
    let terminal = entries
        .iter()
        .filter(|(k, _)| *k == LogKind::Success || *k == LogKind::Error)
        .count();
    assert_eq!(terminal, 3);
    assert_eq!(entries.len(), 3);
    assert_eq!(entries[0].1, "[success]: Generated a config successfully");
    assert_eq!(entries[1].1, "[error]: plugin config validation failed");
    assert_eq!(entries[2].1, "[error]: missing plugin configuration");
    assert_eq!(fs.read_file(&String::from("a.conf")).unwrap(), "alpha");
    assert!(fs.read_file(&String::from("c.conf")).is_none());
}

#[test]
fn two_plugins_sharing_an_output_path_leave_the_last_write() {
    // Both declare "x.conf" with different contents: the final file holds
    // whichever task's write was applied last, and both tasks still report
    // success — the documented no-detection limitation.
    let mut fs = FsModel::new();
    let mut logs = Logs::new();
    let config = config_for(&["first", "second"]);
    let plugins = vec![plugin("first"), plugin("second")];
    let layouts = vec![
        success_script("x.conf", "from first"),
        success_script("x.conf", "from second"),
    ];
    let reports = generate_all(&plugins, &config, &layouts, &mut fs, &mut logs);
    assert_eq!(reports.len(), 2);
    assert_eq!(fs.read_file(&String::from("x.conf")).unwrap(), "from second");
    let entries = logs.get_logs();
    assert_eq!(entries.len(), 2);
    assert_eq!(entries[0].1, "[success]: Generated first config successfully");
    assert_eq!(entries[1].1, "[success]: Generated second config successfully");
}

#[test]
fn script_log_entries_precede_the_tasks_terminal_entry() {
    let mut fs = FsModel::new();
    let mut logs = Logs::new();
    let config = config_for(&["a"]);
    let layout = PluginBundleLayout::Combined(String::from(
        "function Validate(config) log.info(\"checking\") return true end\n\
         function Generate(config) log.warn(\"generating\") return {} end",
    ));
    let report = execute_task(&plugin("a"), &config, &layout, &mut fs, &mut logs);
    assert_eq!(report.plugin_id, "a");
    let entries = logs.get_logs();
    assert_eq!(entries.len(), 3);
    assert_eq!(entries[0].1, "[info]: checking");
    assert_eq!(entries[1].1, "[warn]: generating");
    assert_eq!(entries[2].1, "[success]: Generated a config successfully");
}
