# wayland_2_gnome

A sniff-and-forward Wayland proxy that offers `zwlr_layer_shell_v1` to
applications under a compositor that lacks it (GNOME Mutter).

The bridge stands between each application and the compositor and forwards
their messages. It passes the compositor's globals on, adds a layer shell of
its own (name 1000) when the compositor has none, keeps binds and requests of
that layer shell to itself, and turns each layer surface into an
`xdg_surface` with an `xdg_toplevel` on the compositor, whose events come back
as layer-surface events. A layer outside the four of the protocol is refused
with `invalid_layer`; every new layer surface is configured at once.

The compositor takes new object ids only at free slots, so the bridge never
invents one. Each id the application spends on an object the compositor does
not see (a binding of the bridge's layer shell, a layer surface without
compositor objects) is taken on the compositor by a `wl_display.sync`, whose
callback the compositor answers and releases at once; those released ids are
the spare ids the bridge gives each `xdg_toplevel`, while the `xdg_surface`
takes the layer surface's own id.

- `src/` is the verified library (Verus):
  - `config.rs`: configuration and socket paths;
  - `cli.rs`: the command-line options (`--socket`, `--compositor`,
    `--max-clients`, `--log-level`, `--config`, `--pid-file`, `--daemon`,
    `--install`);
  - `config_file.rs`: the configuration file (`key = value` lines), merged
    as defaults, then file, then command line;
  - `service.rs`: the pid file path and the systemd user service;
  - `proxy/wire.rs`: message framing and word and string arguments;
  - `proxy/protocol.rs`: opcodes, interface names, the messages the bridge
    writes;
  - `proxy/args.rs`: reading the arguments the bridge looks into;
  - `proxy/session.rs`: the per-connection state and the routing in both
    directions, with the announcement and translation laws;
  - `proxy/event_loop.rs`: the accept loop, with client limit and shutdown;
  - `proxy/globals.rs`: marker types for the globals.
- `app/main.rs` reads the options and the configuration file, installs the
  service or detaches as a daemon, and moves the bytes and file descriptors.
- `tests/` exercises the library on concrete values.
