use up::config::{console_inherit, ConfigPath, ConfigYaml, DEFAULT_CONFIG_ARG};
use up::error::ConfigError;

fn s(v: &str) -> String {
    v.to_string()
}

#[test]
fn explicit_config_argument_wins() {
    let r = ConfigYaml::up_yaml_path(&s("/etc/up.yaml"), Some(s("/env/up.yaml")), None, Some(s("/home/me")));
    assert!(matches!(r, Ok(ConfigPath::Explicit(p)) if p == "/etc/up.yaml"));
}

#[test]
fn up_config_variable_comes_next() {
    let r = ConfigYaml::up_yaml_path(&s(DEFAULT_CONFIG_ARG), Some(s("/env/up.yaml")), Some(s("/xdg")), None);
    assert!(matches!(r, Ok(ConfigPath::FromEnv(p)) if p == "/env/up.yaml"));
}

#[test]
fn xdg_config_home_then_home_config() {
    let r = ConfigYaml::up_yaml_path(&s(DEFAULT_CONFIG_ARG), None, Some(s("/xdg")), Some(s("/home/me")));
    assert!(matches!(r, Ok(ConfigPath::Default(p)) if p == "/xdg/up/up.yaml"));
    let r = ConfigYaml::up_yaml_path(&s(DEFAULT_CONFIG_ARG), None, None, Some(s("/home/me")));
    assert!(matches!(r, Ok(ConfigPath::Default(p)) if p == "/home/me/.config/up/up.yaml"));
}

#[test]
fn default_location_needs_a_home() {
    let r = ConfigYaml::up_yaml_path(&s(DEFAULT_CONFIG_ARG), None, Some(s("/xdg")), None);
    assert!(matches!(r, Err(ConfigError::NoHomeDir)));
}

#[test]
fn console_follows_request_or_single_task() {
    assert!(console_inherit(None, 1));
    assert!(!console_inherit(None, 2));
    assert!(!console_inherit(None, 0));
    assert!(console_inherit(Some(true), 5));
    assert!(!console_inherit(Some(false), 1));
}
