use wayland_2_gnome::cli::{apply_args, parse_count_arg, ArgError};
use wayland_2_gnome::config::BridgeConfig;
use wayland_2_gnome::config_file::{apply_config_text, ConfigFileError};
use wayland_2_gnome::service::{pid_path, service_path, service_unit};

fn args(a: &[&str]) -> Vec<String> {
    a.iter().map(|s| s.to_string()).collect()
}

#[test]
fn options_override_the_environment() {
    let base = BridgeConfig::from_wayland_display(Some("wayland-0".to_string()));
    let cl = apply_args(
        base,
        &args(&["--socket", "wb-1", "--compositor", "wayland-1", "--max-clients", "4", "--log-level", "debug"]),
    )
    .unwrap();
    assert_eq!(cl.config.bridge_display, "wb-1");
    assert_eq!(cl.config.compositor_display, "wayland-1");
    assert_eq!(cl.config.max_clients, 4);
    assert_eq!(cl.config.log_level, Some("debug".to_string()));
    assert!(!cl.daemon && !cl.install);
}

#[test]
fn switches_and_files() {
    let cl = apply_args(
        BridgeConfig::from_wayland_display(None),
        &args(&["--daemon", "--config", "/tmp/b.toml", "--pid-file", "/tmp/b.pid", "--install"]),
    )
    .unwrap();
    assert!(cl.daemon);
    assert!(cl.install);
    assert_eq!(cl.config_file, Some("/tmp/b.toml".to_string()));
    assert_eq!(cl.pid_file, Some("/tmp/b.pid".to_string()));
}

#[test]
fn no_options_keep_the_configuration() {
    let cl = apply_args(BridgeConfig::from_wayland_display(None), &Vec::new()).unwrap();
    assert_eq!(cl.config.bridge_display, "wayland-bridge-0");
    assert_eq!(cl.config.compositor_display, "wayland-0");
    assert_eq!(cl.config_file, None);
}

#[test]
fn later_option_wins() {
    let cl = apply_args(BridgeConfig::from_wayland_display(None), &args(&["--socket", "a", "--socket", "b"])).unwrap();
    assert_eq!(cl.config.bridge_display, "b");
}

#[test]
fn bad_command_lines() {
    let base = || BridgeConfig::from_wayland_display(None);
    assert_eq!(apply_args(base(), &args(&["--verbose"])).err(), Some(ArgError::Unknown));
    assert_eq!(apply_args(base(), &args(&["--socket"])).err(), Some(ArgError::MissingValue));
    assert_eq!(apply_args(base(), &args(&["--pid-file"])).err(), Some(ArgError::MissingValue));
    assert_eq!(apply_args(base(), &args(&["--max-clients", "x1"])).err(), Some(ArgError::BadNumber));
    assert_eq!(apply_args(base(), &args(&["--max-clients", "4294967296"])).err(), Some(ArgError::BadNumber));
}

#[test]
fn count_parsing() {
    assert_eq!(parse_count_arg("0"), Some(0));
    assert_eq!(parse_count_arg("42"), Some(42));
    assert_eq!(parse_count_arg("4294967295"), Some(u32::MAX));
    assert_eq!(parse_count_arg("4294967296"), None);
    assert_eq!(parse_count_arg(""), None);
    assert_eq!(parse_count_arg("-1"), None);
}

#[test]
fn config_file_values() {
    let text = "# bridge\n\nsocket = \"wb-7\"\n  compositor = \"wayland-1\"  \nmax_clients = 3\r\nlog_level = \"warn\"";
    let c = apply_config_text(BridgeConfig::from_wayland_display(None), text).unwrap();
    assert_eq!(c.bridge_display, "wb-7");
    assert_eq!(c.compositor_display, "wayland-1");
    assert_eq!(c.max_clients, 3);
    assert_eq!(c.log_level, Some("warn".to_string()));
}

#[test]
fn config_file_then_command_line() {
    let file = apply_config_text(BridgeConfig::from_wayland_display(None), "socket = \"from-file\"\nmax_clients = 2\n").unwrap();
    let cl = apply_args(file, &args(&["--socket", "from-cli"])).unwrap();
    assert_eq!(cl.config.bridge_display, "from-cli");
    assert_eq!(cl.config.max_clients, 2);
}

#[test]
fn config_file_errors() {
    let base = || BridgeConfig::from_wayland_display(None);
    assert_eq!(apply_config_text(base(), "socket wb").err(), Some(ConfigFileError::Malformed));
    assert_eq!(apply_config_text(base(), "socket = wb").err(), Some(ConfigFileError::Malformed));
    assert_eq!(apply_config_text(base(), "colour = \"red\"").err(), Some(ConfigFileError::UnknownKey));
    assert_eq!(apply_config_text(base(), "max_clients = many").err(), Some(ConfigFileError::BadNumber));
    assert!(apply_config_text(base(), "").is_ok());
}

#[test]
fn pid_and_service_files() {
    let dir = "/run/user/1000".to_string();
    assert_eq!(pid_path(&None, &dir), "/run/user/1000/wayland-2-gnome.pid");
    assert_eq!(pid_path(&Some("/tmp/x.pid".to_string()), &dir), "/tmp/x.pid");
    assert_eq!(
        service_path(&"/home/u".to_string()),
        "/home/u/.config/systemd/user/wayland-2-gnome.service"
    );
    let cfg = BridgeConfig::from_wayland_display(Some("wayland-1".to_string()));
    let unit = service_unit(&"/usr/bin/wayland-2-gnome".to_string(), &cfg);
    assert!(unit.contains("ExecStart=/usr/bin/wayland-2-gnome --socket wayland-bridge-0 --compositor wayland-1\n"));
    assert!(unit.starts_with("[Unit]\n"));
    assert!(unit.ends_with("WantedBy=default.target\n"));
}
