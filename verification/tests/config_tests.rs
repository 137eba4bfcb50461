use lupa::config::{
    config_folder, config_path, default_config_dir, names_config_file, plugin_path, Behavior,
};

fn s(v: &str) -> Option<String> {
    Some(v.to_string())
}

#[test]
fn config_path_prefers_override() {
    assert_eq!(config_path(s("/tmp/conf"), s("/x"), s("/home/u")), "/tmp/conf/conf.toml");
    assert_eq!(plugin_path(s("/tmp/conf"), None, None), "/tmp/conf/plugins");
}

#[test]
fn config_path_uses_xdg_config_home() {
    assert_eq!(config_path(None, s("/home/u/.cfg"), s("/home/u")), "/home/u/.cfg/lupa/conf.toml");
    assert_eq!(plugin_path(None, s("/home/u/.cfg"), None), "/home/u/.cfg/lupa/plugins");
}

#[test]
fn config_path_falls_back_on_home() {
    assert_eq!(config_path(None, None, s("/home/u")), "/home/u/.config/lupa/conf.toml");
    assert_eq!(config_folder(None, None, s("/home/u")), "/home/u/.config/lupa");
}

#[test]
fn config_path_without_environment() {
    assert_eq!(config_folder(None, None, None), "/etc/");
    assert_eq!(config_path(None, None, None), "/etc//conf.toml");
    assert_eq!(plugin_path(None, None, None), "/etc//plugins");
}

#[test]
fn default_config_dir_drops_file_name() {
    assert_eq!(default_config_dir("/home/u/.config/lupa/conf.toml"), "/home/u/.config/lupa/");
    assert_eq!(default_config_dir("/a/conf.toml/conf.toml"), "/a//");
    assert_eq!(default_config_dir("/no/file"), "/no/file");
}

#[test]
fn behavior_defaults() {
    let b = Behavior::default();
    assert!(b.close_when_unfocused);
    assert_eq!(b.max_file_entries, 25);
    assert_eq!(b.fallback_providers, "system, app, file, emoji, calc");
}

#[test]
fn config_file_names() {
    assert!(names_config_file("conf.toml"));
    assert!(names_config_file("old-conf.toml.bak"));
    assert!(!names_config_file("config.toml"));
    assert!(!names_config_file(""));
}
