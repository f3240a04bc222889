//! The protocol objects, opcodes and interface names the bridge acts on, and
//! the messages it writes itself.

use vstd::prelude::*;
use vstd::string::*;
use crate::proxy::wire::{le_bytes, mview, push_u32, push_string, string_arg, Message, MessageView};

verus! {

/// Object id of `wl_display`.
pub const DISPLAY_ID: u32 = 1;
/// `wl_display.sync` (request) and `wl_display.error` (event).
pub const DISPLAY_SYNC: u16 = 0;
pub const DISPLAY_ERROR: u16 = 0;
/// `wl_callback.done` (event).
pub const CALLBACK_DONE: u16 = 0;
/// `zwlr_layer_shell_v1` error `invalid_layer`.
pub const LAYER_SHELL_ERROR_INVALID_LAYER: u32 = 1;
/// The highest layer, `overlay`; layers run from 0 (`background`).
pub const LAYER_OVERLAY: u32 = 3;
/// `wl_display.get_registry` (request).
pub const DISPLAY_GET_REGISTRY: u16 = 1;
/// `wl_display.delete_id` (event).
pub const DISPLAY_DELETE_ID: u16 = 1;
/// `wl_registry.bind` (request) and `wl_registry.global` (event).
pub const REGISTRY_BIND: u16 = 0;
pub const REGISTRY_GLOBAL: u16 = 0;
/// `zwlr_layer_shell_v1.get_layer_surface` (request).
pub const LAYER_SHELL_GET_LAYER_SURFACE: u16 = 0;
/// `zwlr_layer_shell_v1.destroy` (request).
pub const LAYER_SHELL_DESTROY: u16 = 1;
/// `zwlr_layer_surface_v1` requests.
pub const LAYER_SURFACE_SET_SIZE: u16 = 0;
pub const LAYER_SURFACE_ACK_CONFIGURE: u16 = 6;
pub const LAYER_SURFACE_DESTROY: u16 = 7;
/// `zwlr_layer_surface_v1` events.
pub const LAYER_SURFACE_CONFIGURE: u16 = 0;
pub const LAYER_SURFACE_CLOSED: u16 = 1;
/// `xdg_wm_base.get_xdg_surface` (request).
pub const WM_BASE_GET_XDG_SURFACE: u16 = 2;
/// `xdg_surface` requests and event.
pub const XDG_SURFACE_DESTROY: u16 = 0;
pub const XDG_SURFACE_GET_TOPLEVEL: u16 = 1;
pub const XDG_SURFACE_ACK_CONFIGURE: u16 = 4;
pub const XDG_SURFACE_CONFIGURE: u16 = 0;
/// `xdg_toplevel` requests and events.
pub const TOPLEVEL_DESTROY: u16 = 0;
pub const TOPLEVEL_SET_MAX_SIZE: u16 = 7;
/// The largest size `xdg_toplevel` takes (its sizes are signed).
pub const MAX_TOPLEVEL_SIZE: u32 = 0x7fff_ffff;
pub const TOPLEVEL_SET_MIN_SIZE: u16 = 8;
pub const TOPLEVEL_SET_FULLSCREEN: u16 = 11;
pub const TOPLEVEL_CONFIGURE: u16 = 0;
pub const TOPLEVEL_CLOSE: u16 = 1;

/// Registry name under which the bridge announces its own layer shell.
pub const INJECTED_LAYER_SHELL_NAME: u32 = 1000;
/// Version of the layer shell the bridge announces.
pub const INJECTED_LAYER_SHELL_VERSION: u32 = 5;
/// The background layer of `zwlr_layer_shell_v1`.
pub const LAYER_BACKGROUND: u32 = 0;

/// The bytes of an ASCII text.
pub open spec fn ascii(s: Seq<char>) -> Seq<u8> {
    Seq::new(s.len(), |i: int| s[i] as u8)
}

pub open spec fn layer_shell_interface() -> Seq<u8> {
    ascii("zwlr_layer_shell_v1"@)
}

pub open spec fn invalid_layer_text() -> Seq<u8> {
    ascii("invalid layer"@)
}

pub open spec fn wm_base_interface() -> Seq<u8> {
    ascii("xdg_wm_base"@)
}

fn ascii_vec(s: &str) -> (v: Vec<u8>)
    requires
        s.is_ascii(),
    ensures
        v@ == ascii(s@),
{
    broadcast use vstd::string::is_ascii_spec_bytes;
    let b = s.as_bytes();
    let mut v: Vec<u8> = Vec::new();
    let mut i: usize = 0;
    while i < b.len()
        invariant
            b@ == s.spec_bytes(),
            b@ =~= Seq::new(s@.len(), |j: int| s@.index(j) as u8),
            i <= b@.len(),
            v@ == b@.subrange(0, i as int),
        decreases b@.len() - i,
    {
        v.push(b[i]);
        i = i + 1;
        assert(v@ =~= b@.subrange(0, i as int));
    }
    assert(v@ =~= ascii(s@));
    v
}

/// The interface name `zwlr_layer_shell_v1`.
pub fn layer_shell_interface_bytes() -> (v: Vec<u8>)
    ensures
        v@ == layer_shell_interface(),
{
    proof {
        reveal_strlit("zwlr_layer_shell_v1");
    }
    ascii_vec("zwlr_layer_shell_v1")
}

/// The interface name `xdg_wm_base`.
pub fn wm_base_interface_bytes() -> (v: Vec<u8>)
    ensures
        v@ == wm_base_interface(),
{
    proof {
        reveal_strlit("xdg_wm_base");
    }
    ascii_vec("xdg_wm_base")
}

/// `wl_registry.global(name, interface, version)` on registry `registry`.
pub open spec fn global_event(registry: u32, name: u32, interface: Seq<u8>, version: u32) -> MessageView {
    mview(registry, REGISTRY_GLOBAL, le_bytes(name) + string_arg(interface) + le_bytes(version))
}

/// The global the bridge announces for its own layer shell.
pub open spec fn injected_global_event(registry: u32) -> MessageView {
    global_event(
        registry,
        INJECTED_LAYER_SHELL_NAME,
        layer_shell_interface(),
        INJECTED_LAYER_SHELL_VERSION,
    )
}

/// `xdg_wm_base.get_xdg_surface(id, surface)`.
pub open spec fn get_xdg_surface_request(wm_base: u32, id: u32, surface: u32) -> MessageView {
    mview(wm_base, WM_BASE_GET_XDG_SURFACE, le_bytes(id) + le_bytes(surface))
}

/// `xdg_surface.get_toplevel(id)`.
pub open spec fn get_toplevel_request(xdg_surface: u32, id: u32) -> MessageView {
    mview(xdg_surface, XDG_SURFACE_GET_TOPLEVEL, le_bytes(id))
}

/// `xdg_toplevel.set_fullscreen(output)`; output 0 leaves the choice to the
/// compositor.
pub open spec fn set_fullscreen_request(toplevel: u32, output: u32) -> MessageView {
    mview(toplevel, TOPLEVEL_SET_FULLSCREEN, le_bytes(output))
}

/// `xdg_toplevel.set_max_size(width, height)`; 0 leaves a side unlimited.
pub open spec fn set_max_size_request(toplevel: u32, width: u32, height: u32) -> MessageView {
    mview(toplevel, TOPLEVEL_SET_MAX_SIZE, le_bytes(width) + le_bytes(height))
}

/// `xdg_toplevel.set_min_size(width, height)`; 0 leaves a side unlimited.
pub open spec fn set_min_size_request(toplevel: u32, width: u32, height: u32) -> MessageView {
    mview(toplevel, TOPLEVEL_SET_MIN_SIZE, le_bytes(width) + le_bytes(height))
}

/// `xdg_surface.ack_configure(serial)`.
pub open spec fn xdg_ack_configure_request(xdg_surface: u32, serial: u32) -> MessageView {
    mview(xdg_surface, XDG_SURFACE_ACK_CONFIGURE, le_bytes(serial))
}

/// A `destroy` request (opcode 0, no argument) on `object`.
pub open spec fn destroy_request(object: u32) -> MessageView {
    mview(object, 0, Seq::empty())
}

/// `zwlr_layer_surface_v1.configure(serial, width, height)`.
pub open spec fn layer_configure_event(layer_surface: u32, serial: u32, width: u32, height: u32) -> MessageView {
    mview(
        layer_surface,
        LAYER_SURFACE_CONFIGURE,
        le_bytes(serial) + le_bytes(width) + le_bytes(height),
    )
}

/// `zwlr_layer_surface_v1.closed`.
pub open spec fn layer_closed_event(layer_surface: u32) -> MessageView {
    mview(layer_surface, LAYER_SURFACE_CLOSED, Seq::empty())
}

/// Builds `wl_registry.global`.
pub fn make_global_event(registry: u32, name: u32, interface: &Vec<u8>, version: u32) -> (m: Message)
    requires
        interface@.len() + 4 <= u32::MAX,
    ensures
        m@ == global_event(registry, name, interface@, version),
{
    let mut p: Vec<u8> = Vec::new();
    push_u32(&mut p, name);
    push_string(&mut p, interface);
    push_u32(&mut p, version);
    assert(p@ =~= le_bytes(name) + string_arg(interface@) + le_bytes(version));
    Message::new(registry, REGISTRY_GLOBAL, p)
}

/// Builds the announcement of the bridge's own layer shell.
pub fn make_injected_global_event(registry: u32) -> (m: Message)
    ensures
        m@ == injected_global_event(registry),
{
    let iface = layer_shell_interface_bytes();
    proof {
        reveal_strlit("zwlr_layer_shell_v1");
    }
    make_global_event(registry, INJECTED_LAYER_SHELL_NAME, &iface, INJECTED_LAYER_SHELL_VERSION)
}

fn one_word(x: u32) -> (p: Vec<u8>)
    ensures
        p@ == le_bytes(x),
{
    let mut p: Vec<u8> = Vec::new();
    push_u32(&mut p, x);
    assert(p@ =~= le_bytes(x));
    p
}

/// Builds `xdg_wm_base.get_xdg_surface`.
pub fn make_get_xdg_surface(wm_base: u32, id: u32, surface: u32) -> (m: Message)
    ensures
        m@ == get_xdg_surface_request(wm_base, id, surface),
{
    let mut p = one_word(id);
    push_u32(&mut p, surface);
    Message::new(wm_base, WM_BASE_GET_XDG_SURFACE, p)
}

/// Builds `xdg_surface.get_toplevel`.
pub fn make_get_toplevel(xdg_surface: u32, id: u32) -> (m: Message)
    ensures
        m@ == get_toplevel_request(xdg_surface, id),
{
    Message::new(xdg_surface, XDG_SURFACE_GET_TOPLEVEL, one_word(id))
}

/// Builds `xdg_toplevel.set_fullscreen`.
pub fn make_set_fullscreen(toplevel: u32, output: u32) -> (m: Message)
    ensures
        m@ == set_fullscreen_request(toplevel, output),
{
    Message::new(toplevel, TOPLEVEL_SET_FULLSCREEN, one_word(output))
}

/// Builds `xdg_toplevel.set_max_size`.
pub fn make_set_max_size(toplevel: u32, width: u32, height: u32) -> (m: Message)
    ensures
        m@ == set_max_size_request(toplevel, width, height),
{
    let mut p = one_word(width);
    push_u32(&mut p, height);
    assert(p@ =~= le_bytes(width) + le_bytes(height));
    Message::new(toplevel, TOPLEVEL_SET_MAX_SIZE, p)
}

/// Builds `xdg_toplevel.set_min_size`.
pub fn make_set_min_size(toplevel: u32, width: u32, height: u32) -> (m: Message)
    ensures
        m@ == set_min_size_request(toplevel, width, height),
{
    let mut p = one_word(width);
    push_u32(&mut p, height);
    assert(p@ =~= le_bytes(width) + le_bytes(height));
    Message::new(toplevel, TOPLEVEL_SET_MIN_SIZE, p)
}

/// Builds `xdg_surface.ack_configure`.
pub fn make_xdg_ack_configure(xdg_surface: u32, serial: u32) -> (m: Message)
    ensures
        m@ == xdg_ack_configure_request(xdg_surface, serial),
{
    Message::new(xdg_surface, XDG_SURFACE_ACK_CONFIGURE, one_word(serial))
}

/// Builds a `destroy` request.
pub fn make_destroy(object: u32) -> (m: Message)
    ensures
        m@ == destroy_request(object),
{
    let p: Vec<u8> = Vec::new();
    assert(p@ =~= Seq::<u8>::empty());
    Message::new(object, 0, p)
}

/// Builds `zwlr_layer_surface_v1.configure`.
pub fn make_layer_configure(layer_surface: u32, serial: u32, width: u32, height: u32) -> (m: Message)
    ensures
        m@ == layer_configure_event(layer_surface, serial, width, height),
{
    let mut p = one_word(serial);
    push_u32(&mut p, width);
    push_u32(&mut p, height);
    assert(p@ =~= le_bytes(serial) + le_bytes(width) + le_bytes(height));
    Message::new(layer_surface, LAYER_SURFACE_CONFIGURE, p)
}

/// Builds `zwlr_layer_surface_v1.closed`.
pub fn make_layer_closed(layer_surface: u32) -> (m: Message)
    ensures
        m@ == layer_closed_event(layer_surface),
{
    let p: Vec<u8> = Vec::new();
    assert(p@ =~= Seq::<u8>::empty());
    Message::new(layer_surface, LAYER_SURFACE_CLOSED, p)
}

/// `wl_display.delete_id(id)`: the id is free for the application again.
pub open spec fn delete_id_event(id: u32) -> MessageView {
    mview(DISPLAY_ID, DISPLAY_DELETE_ID, le_bytes(id))
}

/// Builds `wl_display.delete_id`.
pub fn make_delete_id(id: u32) -> (m: Message)
    ensures
        m@ == delete_id_event(id),
{
    Message::new(DISPLAY_ID, DISPLAY_DELETE_ID, one_word(id))
}

/// `wl_display.sync(callback)`: creates a callback object the compositor
/// answers and releases at once.
pub open spec fn sync_request(callback: u32) -> MessageView {
    mview(DISPLAY_ID, DISPLAY_SYNC, le_bytes(callback))
}

/// `wl_display.error(object, code, message)`.
pub open spec fn display_error_event(object: u32, code: u32, message: Seq<u8>) -> MessageView {
    mview(DISPLAY_ID, DISPLAY_ERROR, le_bytes(object) + le_bytes(code) + string_arg(message))
}

/// The `invalid_layer` error on layer-shell object `shell`.
pub open spec fn invalid_layer_error(shell: u32) -> MessageView {
    display_error_event(shell, LAYER_SHELL_ERROR_INVALID_LAYER, invalid_layer_text())
}

/// Builds `wl_display.sync`.
pub fn make_sync(callback: u32) -> (m: Message)
    ensures
        m@ == sync_request(callback),
{
    Message::new(DISPLAY_ID, DISPLAY_SYNC, one_word(callback))
}

/// Builds the `invalid_layer` error.
pub fn make_invalid_layer_error(shell: u32) -> (m: Message)
    ensures
        m@ == invalid_layer_error(shell),
{
    proof {
        reveal_strlit("invalid layer");
    }
    let text = ascii_vec("invalid layer");
    let mut p = one_word(shell);
    push_u32(&mut p, LAYER_SHELL_ERROR_INVALID_LAYER);
    push_string(&mut p, &text);
    assert(p@ =~= le_bytes(shell) + le_bytes(LAYER_SHELL_ERROR_INVALID_LAYER) + string_arg(text@));
    Message::new(DISPLAY_ID, DISPLAY_ERROR, p)
}

} // verus!
