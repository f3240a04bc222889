use wayland_2_gnome::config::{lock_path, runtime_dir, BridgeConfig, ConfigError};

#[test]
fn default_config_uses_wayland_display_when_set() {
    let cfg = BridgeConfig::from_wayland_display(Some("wayland-1".to_string()));
    assert_eq!(cfg.bridge_display, "wayland-bridge-0");
    assert_eq!(cfg.compositor_display, "wayland-1");
    assert_eq!(cfg.max_clients, 0);
    assert_eq!(cfg.log_level, None);
}

#[test]
fn default_config_falls_back_to_wayland_0() {
    let cfg = BridgeConfig::from_wayland_display(None);
    assert_eq!(cfg.compositor_display, "wayland-0");
}

#[test]
fn socket_paths() {
    let cfg = BridgeConfig::from_wayland_display(None);
    let dir = "/run/user/1000".to_string();
    let path = cfg.socket_path(&dir);
    assert_eq!(path, "/run/user/1000/wayland-bridge-0");
    assert_eq!(lock_path(&path), "/run/user/1000/wayland-bridge-0.lock");
    assert_eq!(cfg.compositor_path(&dir), "/run/user/1000/wayland-0");
    let abs = BridgeConfig::from_wayland_display(Some("/tmp/comp-0".to_string()));
    assert_eq!(abs.compositor_path(&dir), "/tmp/comp-0");
}

#[test]
fn runtime_dir_is_required() {
    assert_eq!(runtime_dir(None), Err(ConfigError::RuntimeDirUnset));
    assert_eq!(runtime_dir(Some("/tmp/xdg".to_string())), Ok("/tmp/xdg".to_string()));
}
