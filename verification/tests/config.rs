use rapstat::config::{
    choose_config_source, default_config, default_true, project_name_from_dir, Config, ConfigSource,
    HooksSection, ValidationSection,
};

#[test]
fn boolean_settings_default_to_on() {
    assert!(default_true());
    let h = HooksSection::default();
    assert!(h.pre_commit && h.pre_push);
    let v = ValidationSection::default();
    assert!(v.check_context_md && v.flag_only);
}

#[test]
fn derived_config_is_named_after_the_directory() {
    let c = Config::derived(Some("my-project".to_string()));
    assert_eq!(c.project.name, "my-project");
    assert_eq!(c.hooks, HooksSection { pre_commit: true, pre_push: true });
    assert_eq!(c.validation, ValidationSection { check_context_md: true, flag_only: true });
    assert_eq!(Config::derived(None).project.name, "unknown");
    assert_eq!(project_name_from_dir(None), "unknown");
    assert_eq!(project_name_from_dir(Some("x".to_string())), "x");
}

#[test]
fn project_config_wins_over_user_config() {
    assert_eq!(choose_config_source(true, true), ConfigSource::Project);
    assert_eq!(choose_config_source(true, false), ConfigSource::Project);
    assert_eq!(choose_config_source(false, true), ConfigSource::User);
    assert_eq!(choose_config_source(false, false), ConfigSource::Derived);
}

#[test]
fn init_writes_the_default_config() {
    assert_eq!(
        default_config("demo"),
        "[project]\nname = \"demo\"\n\n[hooks]\npre_commit = true\npre_push = true\n\n[validation]\ncheck_context_md = true\nflag_only = true\n"
    );
}
