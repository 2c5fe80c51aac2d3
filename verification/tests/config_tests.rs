use cmdx::config::{
    config_dir_in, config_path_in, default_action, default_clipboard_tool, default_shell,
    default_store_path, default_tree_style, default_true, expand_home, join_path, ClipboardConfig,
    Config, CoreConfig, DisplayConfig,
};

#[test]
fn defaults() {
    let config = Config::default();
    assert_eq!(config.core.store_path, "~/.config/cmdx/store");
    assert_eq!(config.core.default_action, "copy");
    assert_eq!(config.core.shell, "bash");
    assert!(config.display.color);
    assert_eq!(config.display.tree_style, "unicode");
    assert_eq!(config.clipboard.tool, "auto");
    assert_eq!(config.core, CoreConfig::default());
    assert_eq!(config.display, DisplayConfig::default());
    assert_eq!(config.clipboard, ClipboardConfig::default());
    assert_eq!(default_store_path(), "~/.config/cmdx/store");
    assert_eq!(default_action(), "copy");
    assert_eq!(default_shell(), "bash");
    assert!(default_true());
    assert_eq!(default_tree_style(), "unicode");
    assert_eq!(default_clipboard_tool(), "auto");
}

#[test]
fn tilde_stands_for_the_home_directory() {
    assert_eq!(expand_home("~/.config/cmdx/store", Some("/home/alice")), "/home/alice/.config/cmdx/store");
    assert_eq!(expand_home("~", Some("/home/alice")), "/home/alice");
    assert_eq!(expand_home("~/x", None), "~/x");
    assert_eq!(expand_home("~bob/x", Some("/home/alice")), "~bob/x");
    assert_eq!(expand_home("/abs/~/x", Some("/home/alice")), "/abs/~/x");
    assert_eq!(expand_home("", Some("/home/alice")), "");
    assert_eq!(expand_home("rel/path", Some("/home/alice")), "rel/path");
}

#[test]
fn store_path_without_tilde_is_the_configured_one() {
    let mut config = Config::default();
    config.core.store_path = "/var/lib/cmdx".to_string();
    assert_eq!(config.store_path(), "/var/lib/cmdx");
    config.core.store_path = "relative/store".to_string();
    assert_eq!(config.store_path(), "relative/store");
}

#[test]
fn store_path_with_tilde_ends_as_configured() {
    let config = Config::default();
    let path = config.store_path();
    assert!(path.ends_with("/.config/cmdx/store"));
}

#[test]
fn joining_paths() {
    assert_eq!(join_path("/home/a/.config", "cmdx"), "/home/a/.config/cmdx");
    assert_eq!(join_path("/home/a/.config/", "cmdx"), "/home/a/.config/cmdx");
    assert_eq!(join_path("", "cmdx"), "cmdx");
    assert_eq!(join_path("/", "cmdx"), "/cmdx");
}

#[test]
fn the_configuration_lies_below_the_directory_for_configurations() {
    assert_eq!(config_dir_in(Some("/home/a/.config")), "/home/a/.config/cmdx");
    assert_eq!(config_dir_in(None), "~/.config/cmdx");
    assert_eq!(config_path_in(Some("/home/a/.config")), "/home/a/.config/cmdx/config.toml");
    assert_eq!(config_path_in(None), "~/.config/cmdx/config.toml");
    assert!(Config::config_dir().ends_with("cmdx"));
    assert!(Config::config_path().ends_with("cmdx/config.toml"));
    assert!(Config::config_path().starts_with(&Config::config_dir()));
}
