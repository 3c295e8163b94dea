use yoinker::config::{test_config, Config};

#[test]
fn config_default_values() {
    let config = Config::default();
    assert_eq!(config.max_history, 50);
    assert_eq!(config.poll_interval_ms, 500);
    assert_eq!(config.max_entry_bytes, 10 * 1024 * 1024);
    assert!(config.history_path.contains("yoinker"));
    assert!(config.socket_path.contains("yoinker"));
}

#[test]
fn test_config_helper() {
    let tmp = std::path::Path::new("/tmp/yoinker-unit-test");
    let config = test_config("/tmp/yoinker-unit-test");
    assert_eq!(config.max_history, 5);
    assert_eq!(
        config.socket_path,
        tmp.join("yoinker-test.sock").to_string_lossy().into_owned()
    );
}

#[test]
fn config_from_dirs_uses_fallbacks() {
    let c = Config::from_dirs(None, None);
    assert_eq!(c.history_path, "~/.local/share/yoinker/history.json");
    assert_eq!(c.socket_path, "/tmp/yoinker.sock");
    let d = Config::from_dirs(Some("/data/".into()), Some("/run/user/7".into()));
    assert_eq!(d.history_path, "/data/yoinker/history.json");
    assert_eq!(d.socket_path, "/run/user/7/yoinker.sock");
}

#[test]
fn paths_join_as_std_does() {
    for dir in ["/tmp/x", "/tmp/x/", "", "rel", "rel/", "/", "/tmp/ñ"] {
        let config = test_config(dir);
        let expected = std::path::Path::new(dir).join("history.json");
        assert_eq!(config.history_path, expected.to_string_lossy());
        let expected = std::path::Path::new(dir).join("yoinker-test.sock");
        assert_eq!(config.socket_path, expected.to_string_lossy());
    }
}
