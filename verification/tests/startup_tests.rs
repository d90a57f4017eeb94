use v_connect_im::startup::{join_under, launch_socket};
use v_connect_im::startup::{auth_config_from, expand_home, parse_dev_plugin, plugin_socket_path, socket_dir_of};

#[test]
fn dev_plugins_split_at_the_first_colon() {
    assert_eq!(parse_dev_plugin("storage:/src/storage"), Some(("storage".to_string(), "/src/storage".to_string())));
    assert_eq!(parse_dev_plugin("a:b:c"), Some(("a".to_string(), "b:c".to_string())));
    assert_eq!(parse_dev_plugin(":x"), Some(("".to_string(), "x".to_string())));
    assert_eq!(parse_dev_plugin("nocolon"), None);
}

#[test]
fn home_is_expanded_like_a_path_join() {
    assert_eq!(expand_home("~/sock", Some("/home/u".to_string())), "/home/u/sock");
    assert_eq!(expand_home("~/sock", Some("/home/u/".to_string())), "/home/u/sock");
    assert_eq!(expand_home("~//abs", Some("/home/u".to_string())), "/abs");
    assert_eq!(expand_home("~/sock", None), "~/sock");
    assert_eq!(expand_home("/tmp/s", Some("/home/u".to_string())), "/tmp/s");
    assert_eq!(expand_home("~/sock", Some("".to_string())), "sock");
    let joined = std::path::Path::new("/home/u").join("sock");
    assert_eq!(joined.to_string_lossy(), expand_home("~/sock", Some("/home/u".to_string())));
}

#[test]
fn socket_path_defaults_under_the_plugin_dir() {
    assert_eq!(plugin_socket_path(None, "./plugins"), "./plugins/sockets/runtime.sock");
    assert_eq!(plugin_socket_path(Some("  ".to_string()), "./plugins"), "./plugins/sockets/runtime.sock");
    assert_eq!(plugin_socket_path(Some("/run/x.sock".to_string()), "./plugins"), "/run/x.sock");
    assert_eq!(socket_dir_of("./plugins"), "./plugins/sockets");
}

#[test]
fn auth_settings_exist_only_when_enabled() {
    assert!(auth_config_from(false, "u".to_string(), 1).is_none());
    let c = auth_config_from(true, "http://a".to_string(), 9).unwrap();
    assert!(c.enabled);
    assert_eq!(c.center_url, "http://a");
    assert_eq!(c.timeout_ms, 9);
}

#[test]
fn plugins_get_their_own_socket_unless_one_is_shared() {
    assert_eq!(launch_socket(&None, "/run/sockets", "p"), ("/run/sockets/p.sock".to_string(), true));
    assert_eq!(launch_socket(&None, "/run/sockets/", "p"), ("/run/sockets/p.sock".to_string(), true));
    assert_eq!(launch_socket(&Some("/tmp/all.sock".into()), "/run/sockets", "p"), ("/tmp/all.sock".to_string(), false));
    assert_eq!(join_under("", "a"), "a");
    assert_eq!(join_under("/x", "/abs"), "/abs");
}
