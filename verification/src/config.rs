//! Bridge configuration and the filesystem paths derived from it.

use vstd::prelude::*;

verus! {

/// The name of the socket the bridge listens on, below the runtime directory.
pub open spec fn default_socket_name() -> Seq<char> {
    "wayland-bridge-0"@
}

/// The compositor display used when `WAYLAND_DISPLAY` is not set.
pub open spec fn fallback_compositor_display() -> Seq<char> {
    "wayland-0"@
}

/// Configuration of the bridge.
pub struct BridgeConfig {
    /// Socket name the bridge serves applications on.
    pub bridge_display: String,
    /// Display name of the compositor the bridge stands in front of.
    pub compositor_display: String,
    /// Most applications served at once; 0 for no limit.
    pub max_clients: u32,
    /// Log filter, when one was given.
    pub log_level: Option<String>,
}

/// Why the bridge cannot start.
#[derive(Debug, Clone, Copy, PartialEq, Eq, Structural)]
pub enum ConfigError {
    /// `XDG_RUNTIME_DIR` is not set (or not valid Unicode).
    RuntimeDirUnset,
}

impl BridgeConfig {
    /// The default configuration, given the value of `WAYLAND_DISPLAY`
    /// (`None` when the variable is unset or unreadable).
    pub fn from_wayland_display(wayland_display: Option<String>) -> (cfg: BridgeConfig)
        ensures
            cfg.bridge_display@ == default_socket_name(),
            cfg.max_clients == 0,
            cfg.log_level is None,
            cfg.compositor_display@ == match wayland_display {
                Some(d) => d@,
                None => fallback_compositor_display(),
            },
    {
        proof {
            reveal_strlit("wayland-bridge-0");
            reveal_strlit("wayland-0");
        }
        let compositor_display = match wayland_display {
            Some(d) => d,
            None => "wayland-0".to_string(),
        };
        BridgeConfig {
            bridge_display: "wayland-bridge-0".to_string(),
            compositor_display,
            max_clients: 0,
            log_level: None,
        }
    }

    /// Path of the listening socket inside the runtime directory:
    /// `<runtime_dir>/<bridge_display>`.
    pub fn socket_path(&self, runtime_dir: &String) -> (path: String)
        ensures
            path@ == runtime_dir@ + "/"@ + self.bridge_display@,
    {
        join_path(runtime_dir, &self.bridge_display)
    }

    /// Path of the compositor's socket: `compositor_display` when it is
    /// absolute, else inside the runtime directory.
    pub fn compositor_path(&self, runtime_dir: &String) -> (path: String)
        ensures
            path@ == if self.compositor_display@.len() > 0 && self.compositor_display@[0] == '/' {
                self.compositor_display@
            } else {
                runtime_dir@ + "/"@ + self.compositor_display@
            },
    {
        let d = self.compositor_display.as_str();
        if d.unicode_len() > 0 && d.get_char(0) == '/' {
            self.compositor_display.clone()
        } else {
            join_path(runtime_dir, &self.compositor_display)
        }
    }
}

fn join_path(dir: &String, name: &String) -> (path: String)
    ensures
        path@ == dir@ + "/"@ + name@,
{
    let mut path = dir.clone();
    path.append("/");
    path.append(name.as_str());
    path
}

/// Path of the lock file that accompanies a socket: `<socket_path>.lock`.
pub fn lock_path(socket_path: &String) -> (path: String)
    ensures
        path@ == socket_path@ + ".lock"@,
{
    let mut path = socket_path.clone();
    path.append(".lock");
    path
}

/// The runtime directory, given the value of `XDG_RUNTIME_DIR`; the bridge
/// refuses to start without it.
pub fn runtime_dir(xdg_runtime_dir: Option<String>) -> (res: Result<String, ConfigError>)
    ensures
        match xdg_runtime_dir {
            Some(d) => res matches Ok(r) && r@ == d@,
            None => res == Err::<String, ConfigError>(ConfigError::RuntimeDirUnset),
        },
{
    match xdg_runtime_dir {
        Some(d) => Ok(d),
        None => Err(ConfigError::RuntimeDirUnset),
    }
}

} // verus!
