//! Files the bridge writes for itself: the process-id file of a daemon and
//! the systemd user service that `--install` sets up.

use vstd::prelude::*;
use vstd::string::*;
use crate::config::BridgeConfig;

verus! {

/// Name of the process-id file inside the runtime directory.
pub open spec fn default_pid_name() -> Seq<char> {
    "wayland-2-gnome.pid"@
}

/// Where a daemon writes its process id: the `--pid-file` given, else
/// `<runtime_dir>/wayland-2-gnome.pid`.
pub fn pid_path(pid_file: &Option<String>, runtime_dir: &String) -> (p: String)
    ensures
        p@ == match pid_file {
            Some(f) => f@,
            None => runtime_dir@ + "/"@ + default_pid_name(),
        },
{
    match pid_file {
        Some(f) => f.clone(),
        None => {
            proof {
                reveal_strlit("wayland-2-gnome.pid");
            }
            let mut p = runtime_dir.clone();
            p.append("/");
            p.append("wayland-2-gnome.pid");
            p
        },
    }
}

/// Where `--install` writes the user service, below the home directory.
pub fn service_path(home: &String) -> (p: String)
    ensures
        p@ == home@ + "/.config/systemd/user/wayland-2-gnome.service"@,
{
    let mut p = home.clone();
    p.append("/.config/systemd/user/wayland-2-gnome.service");
    p
}

/// The text of the user service: it runs `exe` with the bridge's socket and
/// compositor.
pub open spec fn service_text(exe: Seq<char>, bridge: Seq<char>, compositor: Seq<char>) -> Seq<char> {
    "[Unit]\nDescription=Wayland 2 GNOME layer-shell bridge\n\n[Service]\nExecStart="@ + exe
        + " --socket "@ + bridge + " --compositor "@ + compositor
        + "\nRestart=on-failure\n\n[Install]\nWantedBy=default.target\n"@
}

/// The user service for the configuration `cfg`, run from `exe`.
pub fn service_unit(exe: &String, cfg: &BridgeConfig) -> (t: String)
    ensures
        t@ == service_text(exe@, cfg.bridge_display@, cfg.compositor_display@),
{
    let mut t = String::from_str("[Unit]\nDescription=Wayland 2 GNOME layer-shell bridge\n\n[Service]\nExecStart=");
    t.append(exe.as_str());
    t.append(" --socket ");
    t.append(cfg.bridge_display.as_str());
    t.append(" --compositor ");
    t.append(cfg.compositor_display.as_str());
    t.append("\nRestart=on-failure\n\n[Install]\nWantedBy=default.target\n");
    t
}

} // verus!
