//! Project configuration (`.rapstat/config.toml`) and its defaults.
use vstd::prelude::*;

verus! {

/// The default of the boolean settings: on.
pub fn default_true() -> (r: bool)
    ensures
        r,
{
    true
}

/// The configuration of a project.
#[derive(Debug, PartialEq, Eq)]
pub struct Config {
    pub project: ProjectSection,
    pub hooks: HooksSection,
    pub validation: ValidationSection,
}

/// `[project]`: the project's name.
#[derive(Debug, PartialEq, Eq)]
pub struct ProjectSection {
    pub name: String,
}

/// `[hooks]`: which git hooks run a scan.
#[derive(Clone, Copy, Debug, PartialEq, Eq)]
pub struct HooksSection {
    pub pre_commit: bool,
    pub pre_push: bool,
}

impl Default for HooksSection {
    fn default() -> (r: Self)
        ensures
            r.pre_commit && r.pre_push,
    {
        HooksSection { pre_commit: default_true(), pre_push: default_true() }
    }
}

/// `[validation]`: how CONTEXT.md is checked.
#[derive(Clone, Copy, Debug, PartialEq, Eq)]
pub struct ValidationSection {
    pub check_context_md: bool,
    pub flag_only: bool,
}

impl Default for ValidationSection {
    fn default() -> (r: Self)
        ensures
            r.check_context_md && r.flag_only,
    {
        ValidationSection { check_context_md: default_true(), flag_only: default_true() }
    }
}

/// The name that a directory gives a project: the directory's name, or
/// `unknown` when it has none (or none that is valid UTF-8).
pub open spec fn name_from_dir(dir_name: Option<String>) -> Seq<char> {
    match dir_name {
        Some(n) => n@,
        None => "unknown"@,
    }
}

/// The directory's name, or `unknown`.
pub fn project_name_from_dir(dir_name: Option<String>) -> (r: String)
    ensures
        r@ == name_from_dir(dir_name),
{
    match dir_name {
        Some(n) => n,
        None => "unknown".to_owned(),
    }
}

/// Where a project's configuration comes from.
#[derive(Clone, Copy, Debug, PartialEq, Eq)]
pub enum ConfigSource {
    /// `.rapstat/config.toml` in the project root.
    Project,
    /// `~/.rapstat/config.toml` in the home directory.
    User,
    /// Neither exists: defaults, named after the project directory.
    Derived,
}

/// The project's own file wins, then the user's, then the defaults.
/// `user_config_exists` is false when there is no home directory.
pub fn choose_config_source(project_config_exists: bool, user_config_exists: bool) -> (r:
    ConfigSource)
    ensures
        project_config_exists ==> r == ConfigSource::Project,
        !project_config_exists && user_config_exists ==> r == ConfigSource::User,
        !project_config_exists && !user_config_exists ==> r == ConfigSource::Derived,
{
    if project_config_exists {
        ConfigSource::Project
    } else if user_config_exists {
        ConfigSource::User
    } else {
        ConfigSource::Derived
    }
}

impl Config {
    /// The configuration of a project without a config file: named after its
    /// directory, with every hook and check on.
    pub fn derived(dir_name: Option<String>) -> (r: Config)
        ensures
            r.project.name@ == name_from_dir(dir_name),
            r.hooks.pre_commit && r.hooks.pre_push,
            r.validation.check_context_md && r.validation.flag_only,
    {
        Config {
            project: ProjectSection { name: project_name_from_dir(dir_name) },
            hooks: HooksSection::default(),
            validation: ValidationSection::default(),
        }
    }
}

/// The text of the `.rapstat/config.toml` that `rapstat init` creates.
pub open spec fn default_config_text(name: Seq<char>) -> Seq<char> {
    "[project]\nname = \""@ + name
        + "\"\n\n[hooks]\npre_commit = true\npre_push = true\n\n[validation]\ncheck_context_md = true\nflag_only = true\n"@
}

/// The default configuration file for a project called `name`.
pub fn default_config(name: &str) -> (r: String)
    ensures
        r@ == default_config_text(name@),
{
    let mut r = "[project]\nname = \"".to_owned();
    crate::text::push_str(&mut r, name);
    crate::text::push_str(
        &mut r,
        "\"\n\n[hooks]\npre_commit = true\npre_push = true\n\n[validation]\ncheck_context_md = true\nflag_only = true\n",
    );
    r
}

} // verus!
