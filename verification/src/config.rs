//! The project configuration: a `flint` metadata block, a `common` section
//! shared by every plugin, and one section per activated plugin keyed by that
//! plugin's id. Also the configuration projector, which builds the exact view
//! a selected plugin receives.

use vstd::prelude::*;

verus! {

use vstd::string::StringExecFns;

/// One structured configuration value. Sections map arbitrary keys to these.
#[derive(Debug, PartialEq, Eq)]
pub enum ConfigValue {
    Str(String),
    Int(i64),
    Bool(bool),
    Arr(Vec<ConfigValue>),
    Tbl(Vec<(String, ConfigValue)>),
}

/// A configuration section: an ordered list of key/value pairs.
pub type Section = Vec<(String, ConfigValue)>;

/// The `flint` metadata block: the configuration schema version and the
/// branch plugins are sourced from.
pub struct FlintConfig {
    pub version: u8,
    pub plugins_branch: String,
}

/// The parsed project configuration. Loaded once per command invocation and
/// read-only for the duration of a run. A plugin is activated by the presence
/// of a section in `linters` keyed by its id.
pub struct Config {
    pub flint: FlintConfig,
    pub common: Section,
    pub linters: Vec<(String, Section)>,
}

/// The branch plugins are fetched from when the configuration names none.
pub fn default_plugins_branch() -> (r: String)
    ensures
        r@ == "main"@,
{
    String::from_str("main")
}

impl Config {
    /// The default project configuration: schema version 1, the default
    /// plugins branch, and no sections at all.
    pub fn create_default() -> (r: Config)
        ensures
            r.flint.version == 1,
            r.flint.plugins_branch@ == "main"@,
            r.common@ =~= Seq::<(String, ConfigValue)>::empty(),
            r.linters@ =~= Seq::<(String, Section)>::empty(),
    {
        Config {
            flint: FlintConfig { version: 1, plugins_branch: default_plugins_branch() },
            common: Vec::new(),
            linters: Vec::new(),
        }
    }
}

/// Whether a list of keyed sections holds one under `key`.
pub open spec fn has_section(sections: Seq<(String, Section)>, key: Seq<char>) -> bool {
    exists|i: int| 0 <= i < sections.len() && sections[i].0@ == key
}

/// The index of the first section under `key`, if any.
pub fn find_section(sections: &Vec<(String, Section)>, key: &String) -> (r: Option<usize>)
    ensures
        match r {
            Some(i) => i < sections@.len() && sections@[i as int].0@ == key@ && (forall|j: int|
                0 <= j < i ==> sections@[j].0@ != key@),
            None => !has_section(sections@, key@),
        },
{
    let mut i: usize = 0;
    while i < sections.len()
        invariant
            i <= sections@.len(),
            forall|j: int| 0 <= j < i ==> sections@[j].0@ != key@,
        decreases sections@.len() - i,
    {
        if sections[i].0.eq(key) {
            return Some(i);
        }
        i = i + 1;
    }
    None
}

/// The exact configuration a selected plugin receives: its own section,
/// augmented with the project's shared `common` section nested under the key
/// `common`. Built freshly per task; the borrowed sections are serialized
/// into the task's own interpreter before any script runs.
pub struct ConfigView<'a> {
    pub section: &'a Section,
    pub common: &'a Section,
}

/// Projects the configuration for the plugin with the given id: its own
/// section paired with the shared `common` section, or `None` when the
/// configuration holds no section for that id (a fault fatal to that plugin's
/// task only).
pub fn project_config<'a>(config: &'a Config, id: &String) -> (r: Option<ConfigView<'a>>)
    ensures
        r is Some <==> has_section(config.linters@, id@),
        r is Some ==> exists|i: int|
            0 <= i < config.linters@.len() && config.linters@[i].0@ == id@ && *r->0.section
                == config.linters@[i].1 && (forall|j: int|
                0 <= j < i ==> config.linters@[j].0@ != id@),
        r is Some ==> *r->0.common == config.common,
{
    match find_section(&config.linters, id) {
        Some(i) => Some(ConfigView { section: &config.linters[i].1, common: &config.common }),
        None => None,
    }
}

} // verus!
