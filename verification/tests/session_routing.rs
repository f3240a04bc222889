use wayland_2_gnome::proxy::session::Routed;
use wayland_2_gnome::proxy::wire::Message;
use wayland_2_gnome::proxy::BridgeState;

// ─── Wire helpers ───────────────────────────────────────────────────────────

fn make_raw(oid: u32, op: u16, pay: &[u8]) -> Vec<u8> {
    let total = 8u32 + pay.len() as u32;
    let mut m = Vec::with_capacity(total as usize);
    m.extend_from_slice(&oid.to_ne_bytes());
    m.extend_from_slice(&((total << 16) | op as u32).to_ne_bytes());
    m.extend_from_slice(pay);
    m
}

fn msg_oid(msg: &[u8]) -> u32 {
    u32::from_ne_bytes([msg[0], msg[1], msg[2], msg[3]])
}

fn msg_op(msg: &[u8]) -> u16 {
    let os = u32::from_ne_bytes([msg[4], msg[5], msg[6], msg[7]]);
    (os & 0xffff) as u16
}

fn msg_string(msg: &[u8], offset: usize) -> String {
    if offset + 4 > msg.len() {
        return String::new();
    }
    let slen = u32::from_ne_bytes([msg[offset], msg[offset + 1], msg[offset + 2], msg[offset + 3]]) as usize;
    if slen == 0 || offset + 4 + slen > msg.len() {
        return String::new();
    }
    let bytes = &msg[offset + 4..offset + 4 + slen];
    let trimmed = if bytes.last() == Some(&0) { &bytes[..bytes.len() - 1] } else { bytes };
    String::from_utf8_lossy(trimmed).to_string()
}

fn make_global_event(reg_oid: u32, name: u32, iface: &str, version: u32) -> Vec<u8> {
    let mut iface_b = iface.as_bytes().to_vec();
    iface_b.push(0);
    let slen = iface_b.len() as u32;
    let padded = ((slen as usize) + 3) & !3;
    let mut pay = Vec::new();
    pay.extend_from_slice(&name.to_ne_bytes());
    pay.extend_from_slice(&slen.to_ne_bytes());
    pay.extend_from_slice(&iface_b);
    while pay.len() < (8 + padded) {
        pay.push(0);
    }
    pay.extend_from_slice(&version.to_ne_bytes());
    make_raw(reg_oid, 0, &pay)
}

fn make_bind(reg_oid: u32, name: u32, iface: &str, version: u32, new_id: u32) -> Vec<u8> {
    let mut iface_b = iface.as_bytes().to_vec();
    iface_b.push(0);
    let slen = iface_b.len() as u32;
    let padded = ((slen as usize) + 3) & !3;
    let mut pay = Vec::new();
    pay.extend_from_slice(&name.to_ne_bytes());
    pay.extend_from_slice(&slen.to_ne_bytes());
    pay.extend_from_slice(&iface_b);
    while pay.len() < (8 + padded) {
        pay.push(0);
    }
    pay.extend_from_slice(&version.to_ne_bytes());
    pay.extend_from_slice(&new_id.to_ne_bytes());
    make_raw(reg_oid, 0, &pay)
}

fn msg(bytes: &[u8]) -> Message {
    Message::parse(&bytes.to_vec()).expect("well-formed message")
}

fn bytes_of(r: &[Message]) -> Vec<Vec<u8>> {
    r.iter().map(|m| m.encode()).collect()
}

fn from_client(s: &mut BridgeState, raw: &[u8]) -> (Vec<Vec<u8>>, Vec<Vec<u8>>) {
    let Routed { to_compositor, to_client } = s.on_client_message(&msg(raw));
    (bytes_of(&to_compositor), bytes_of(&to_client))
}

fn from_compositor(s: &mut BridgeState, raw: &[u8]) -> (Vec<Vec<u8>>, Vec<Vec<u8>>) {
    let Routed { to_compositor, to_client } = s.on_compositor_message(&msg(raw));
    (bytes_of(&to_compositor), bytes_of(&to_client))
}

/// Registry setup: get_registry, then the compositor's wl_compositor and
/// xdg_wm_base globals and a delete_id.
fn registry_setup(s: &mut BridgeState) -> Vec<Vec<u8>> {
    let get_reg = make_raw(1, 1, &2u32.to_ne_bytes());
    let (to_comp, to_cli) = from_client(s, &get_reg);
    assert_eq!(to_comp, vec![get_reg.clone()]);
    assert!(to_cli.is_empty());
    let mut client_reads = Vec::new();
    for raw in [
        make_global_event(2, 1, "wl_compositor", 4),
        make_global_event(2, 2, "xdg_wm_base", 6),
        make_raw(1, 1, &999u32.to_ne_bytes()),
    ] {
        let (to_comp, to_cli) = from_compositor(s, &raw);
        assert!(to_comp.is_empty());
        client_reads.extend(to_cli);
    }
    client_reads
}

#[test]
fn test_registry_forwarding_and_layer_shell_injection() {
    let mut s = BridgeState::new();
    let comp_reg_id = 2u32;
    let msgs = registry_setup(&mut s);
    assert_eq!(msgs.len(), 4);
    let client_msg1 = &msgs[0];
    assert_eq!(msg_oid(client_msg1), comp_reg_id, "client receives global on registry");
    assert_eq!(msg_op(client_msg1), 0, "op 0 = global event");
    let client_msg2 = &msgs[1];
    assert_eq!(msg_oid(client_msg2), comp_reg_id);
    let client_msg3 = &msgs[2];
    if msg_op(client_msg3) == 0 && msg_oid(client_msg3) == comp_reg_id {
        let iface = msg_string(client_msg3, 12);
        assert_eq!(iface, "zwlr_layer_shell_v1", "injected layer shell global");
    }
    let injected = msgs.iter().any(|m| {
        msg_op(m) == 0 && msg_oid(m) == comp_reg_id && msg_string(m, 12) == "zwlr_layer_shell_v1"
    });
    assert!(injected, "bridge injected zwlr_layer_shell_v1 global");
    // exact bytes: the compositor's globals unchanged, then the injected one, then delete_id
    assert_eq!(msgs[0], make_global_event(2, 1, "wl_compositor", 4));
    assert_eq!(msgs[1], make_global_event(2, 2, "xdg_wm_base", 6));
    assert_eq!(msgs[2], make_global_event(2, 1000, "zwlr_layer_shell_v1", 5));
    assert_eq!(msgs[3], make_raw(1, 1, &999u32.to_ne_bytes()));
    assert!(s.injected);
}

#[test]
fn no_injection_when_compositor_has_layer_shell() {
    let mut s = BridgeState::new();
    from_client(&mut s, &make_raw(1, 1, &2u32.to_ne_bytes()));
    let g = make_global_event(2, 7, "zwlr_layer_shell_v1", 4);
    let (_, out) = from_compositor(&mut s, &g);
    assert_eq!(out, vec![g]);
    let done = make_raw(1, 1, &999u32.to_ne_bytes());
    let (_, out) = from_compositor(&mut s, &done);
    assert_eq!(out, vec![done]);
    assert!(!s.injected);
    // a bind of name 1000 is then the compositor's business
    let bind = make_bind(2, 1000, "zwlr_layer_shell_v1", 4, 20);
    let (to_comp, _) = from_client(&mut s, &bind);
    assert_eq!(to_comp, vec![bind]);
}

#[test]
fn empty_registry_gets_the_layer_shell_only() {
    let mut s = BridgeState::new();
    from_client(&mut s, &make_raw(1, 1, &5u32.to_ne_bytes()));
    let done = make_raw(1, 1, &999u32.to_ne_bytes());
    let (_, out) = from_compositor(&mut s, &done);
    assert_eq!(out, vec![make_global_event(5, 1000, "zwlr_layer_shell_v1", 5), done]);
}

fn sync(id: u32) -> Vec<u8> {
    make_raw(1, 0, &id.to_ne_bytes())
}

fn delete_id(id: u32) -> Vec<u8> {
    make_raw(1, 1, &id.to_ne_bytes())
}

fn layer_configure(id: u32, serial: u32, w: u32, h: u32) -> Vec<u8> {
    let mut c = serial.to_ne_bytes().to_vec();
    c.extend_from_slice(&w.to_ne_bytes());
    c.extend_from_slice(&h.to_ne_bytes());
    make_raw(id, 0, &c)
}

fn layer_surface_payload(new_id: u32, surface: u32, output: u32, layer: u32, ns: &str) -> Vec<u8> {
    let mut p = Vec::new();
    for w in [new_id, surface, output, layer] {
        p.extend_from_slice(&w.to_ne_bytes());
    }
    let mut b = ns.as_bytes().to_vec();
    b.push(0);
    p.extend_from_slice(&(b.len() as u32).to_ne_bytes());
    p.extend_from_slice(&b);
    while p.len() % 4 != 0 {
        p.push(0);
    }
    p
}

#[test]
fn test_get_layer_surface_translation() {
    let mut s = BridgeState::new();
    let _ = registry_setup(&mut s);

    // Client binds xdg_wm_base: forwarded
    let bind_xdg = make_bind(2, 2, "xdg_wm_base", 6, 10);
    let (to_comp, _) = from_client(&mut s, &bind_xdg);
    assert_eq!(to_comp, vec![bind_xdg]);
    assert_eq!(s.wm_base_id, Some(10));

    // Client binds the injected layer shell (name 1000): the compositor sees
    // no bind, only a sync that takes id 20 in its id space
    let bind_layer = make_bind(2, 1000, "zwlr_layer_shell_v1", 5, 20);
    let (to_comp, to_cli) = from_client(&mut s, &bind_layer);
    assert_eq!(to_comp, vec![sync(20)]);
    assert!(to_cli.is_empty());

    // get_layer_surface(new_id=40, surface=30, output=0, layer=2, ns="test")
    let ns = "test\0";
    let mut gs_pay = Vec::new();
    gs_pay.extend_from_slice(&40u32.to_ne_bytes());
    gs_pay.extend_from_slice(&30u32.to_ne_bytes());
    gs_pay.extend_from_slice(&0u32.to_ne_bytes());
    gs_pay.extend_from_slice(&2u32.to_ne_bytes());
    gs_pay.extend_from_slice(&(ns.len() as u32).to_ne_bytes());
    gs_pay.extend_from_slice(ns.as_bytes());
    while gs_pay.len() % 4 != 0 {
        gs_pay.push(0);
    }
    let (to_comp, to_cli) = from_client(&mut s, &make_raw(20, 0, &gs_pay));
    // the application is configured at once, with serial 1 and size 0x0
    assert_eq!(to_cli, vec![layer_configure(40, 1, 0, 0)]);
    assert_eq!(to_comp.len(), 2);
    let comp_msg1 = &to_comp[0];
    let comp_msg2 = &to_comp[1];
    const XDG_SURFACE_PAYLOAD: usize = 8;
    let msg1_has_xdg = comp_msg1.len() == 8 + XDG_SURFACE_PAYLOAD;
    let msg2_has_xdg = comp_msg2.len() == 8 + XDG_SURFACE_PAYLOAD;
    assert!(
        msg1_has_xdg || msg2_has_xdg,
        "expected xdg_surface creation (8 byte payload), got msg1:{} msg2:{}",
        comp_msg1.len(),
        comp_msg2.len()
    );
    // exact: get_xdg_surface(40, surface 30) on xdg_wm_base 10, then the
    // toplevel on the spare id 20
    let mut p = 40u32.to_ne_bytes().to_vec();
    p.extend_from_slice(&30u32.to_ne_bytes());
    assert_eq!(comp_msg1, &make_raw(10, 2, &p));
    assert_eq!(comp_msg2, &make_raw(40, 1, &20u32.to_ne_bytes()));
    assert_eq!(s.layer_surface_count, 1);
    assert_eq!(s.surfaces.len(), 1);
    assert_eq!(s.surfaces[0].namespace, b"test".to_vec());
    assert_eq!(s.surfaces[0].output, None);
    assert!(s.spare_ids.is_empty());

    // the compositor answers and releases the sync callback: not shown
    let (_, out) = from_compositor(&mut s, &make_raw(20, 0, &5u32.to_ne_bytes()));
    assert!(out.is_empty());
    let (_, out) = from_compositor(&mut s, &delete_id(20));
    assert!(out.is_empty());
    assert!(s.pending_syncs.is_empty());

    // the application acks the bridge's configure: kept from the compositor
    let (to_comp, _) = from_client(&mut s, &make_raw(40, 6, &1u32.to_ne_bytes()));
    assert!(to_comp.is_empty());

    // compositor configures: toplevel size, then xdg_surface serial
    let mut tc = 1920u32.to_ne_bytes().to_vec();
    tc.extend_from_slice(&40u32.to_ne_bytes());
    tc.extend_from_slice(&0u32.to_ne_bytes());
    let (_, out) = from_compositor(&mut s, &make_raw(20, 0, &tc));
    assert!(out.is_empty());
    let (_, out) = from_compositor(&mut s, &make_raw(40, 0, &77u32.to_ne_bytes()));
    assert_eq!(out, vec![layer_configure(40, 77, 1920, 40)]);

    // client acks: goes to the xdg_surface
    let (to_comp, _) = from_client(&mut s, &make_raw(40, 6, &77u32.to_ne_bytes()));
    assert_eq!(to_comp, vec![make_raw(40, 4, &77u32.to_ne_bytes())]);

    // Cleanup: destroy layer surface (op 7)
    let (to_comp, to_cli) = from_client(&mut s, &make_raw(40, 7, &[]));
    assert_eq!(to_comp, vec![make_raw(20, 0, &[]), make_raw(40, 0, &[])]);
    assert!(to_cli.is_empty());
    assert!(s.surfaces.is_empty());

    // the release of the toplevel's id stays with the bridge (id 20 is still
    // the application's layer shell) and makes it spare again; the release
    // of the xdg_surface's id is the application's own delete_id
    let (_, out) = from_compositor(&mut s, &delete_id(20));
    assert!(out.is_empty());
    assert_eq!(s.spare_ids, vec![20]);
    let (_, out) = from_compositor(&mut s, &delete_id(40));
    assert_eq!(out, vec![delete_id(40)]);
}

fn linked_setup() -> BridgeState {
    let mut s = BridgeState::new();
    let _ = registry_setup(&mut s);
    from_client(&mut s, &make_bind(2, 2, "xdg_wm_base", 6, 10));
    from_client(&mut s, &make_bind(2, 1000, "zwlr_layer_shell_v1", 5, 20));
    s
}

#[test]
fn invalid_layer_is_a_protocol_error() {
    let mut s = linked_setup();
    let (to_comp, to_cli) = from_client(&mut s, &make_raw(20, 0, &layer_surface_payload(40, 30, 0, 4, "x")));
    assert!(to_comp.is_empty());
    let mut e = 20u32.to_ne_bytes().to_vec();
    e.extend_from_slice(&1u32.to_ne_bytes());
    let text = b"invalid layer\0";
    e.extend_from_slice(&(text.len() as u32).to_ne_bytes());
    e.extend_from_slice(text);
    while e.len() % 4 != 0 {
        e.push(0);
    }
    assert_eq!(to_cli, vec![make_raw(1, 0, &e)]);
    assert!(s.surfaces.is_empty());
    assert_eq!(s.layer_surface_count, 0);
    assert_eq!(s.spare_ids, vec![20]);
}

#[test]
fn background_surface_targets_chosen_output() {
    let mut s = linked_setup();
    let (to_comp, to_cli) = from_client(&mut s, &make_raw(20, 0, &layer_surface_payload(41, 31, 12, 0, "bg")));
    assert_eq!(to_cli, vec![layer_configure(41, 1, 0, 0)]);
    assert_eq!(to_comp.len(), 3);
    assert_eq!(to_comp[2], make_raw(20, 11, &12u32.to_ne_bytes()));
    assert_eq!(s.surfaces[0].output, Some(12));
}

#[test]
fn background_surface_without_output_leaves_choice_to_compositor() {
    let mut s = linked_setup();
    let (to_comp, _) = from_client(&mut s, &make_raw(20, 0, &layer_surface_payload(41, 31, 0, 0, "bg")));
    assert_eq!(to_comp[2], make_raw(20, 11, &0u32.to_ne_bytes()));
    assert_eq!(s.surfaces[0].output, None);
}

#[test]
fn surface_without_spare_id_stays_unlinked() {
    let mut s = linked_setup();
    from_client(&mut s, &make_raw(20, 0, &layer_surface_payload(40, 30, 0, 2, "a")));
    // the only spare id is in use: the next surface is kept by the bridge,
    // its id taken on the compositor by a sync
    let (to_comp, to_cli) = from_client(&mut s, &make_raw(20, 0, &layer_surface_payload(42, 32, 0, 2, "b")));
    assert_eq!(to_comp, vec![sync(42)]);
    assert_eq!(to_cli, vec![layer_configure(42, 1, 0, 0)]);
    assert_eq!(s.surfaces[1].xdg, None);
    assert_eq!(s.spare_ids, vec![42]);
    // its destroy frees its id at once
    let (to_comp, to_cli) = from_client(&mut s, &make_raw(42, 7, &[]));
    assert!(to_comp.is_empty());
    assert_eq!(to_cli, vec![delete_id(42)]);
    assert!(s.spare_ids.is_empty());
}

#[test]
fn unlinked_without_wm_base() {
    let mut s = BridgeState::new();
    let _ = registry_setup(&mut s);
    from_client(&mut s, &make_bind(2, 1000, "zwlr_layer_shell_v1", 5, 20));
    let (to_comp, to_cli) = from_client(&mut s, &make_raw(20, 0, &layer_surface_payload(40, 30, 0, 2, "x")));
    assert_eq!(to_comp, vec![sync(40)]);
    assert_eq!(to_cli, vec![layer_configure(40, 1, 0, 0)]);
}

fn two_words(a: u32, b: u32) -> Vec<u8> {
    let mut p = a.to_ne_bytes().to_vec();
    p.extend_from_slice(&b.to_ne_bytes());
    p
}

#[test]
fn set_size_becomes_toplevel_size_limits() {
    let mut s = linked_setup();
    from_client(&mut s, &make_raw(20, 0, &layer_surface_payload(40, 30, 0, 2, "bar")));
    // the toplevel is 20, the layer surface 40
    let (to_comp, to_cli) = from_client(&mut s, &make_raw(40, 0, &two_words(1920, 32)));
    assert_eq!(to_comp, vec![make_raw(20, 8, &two_words(1920, 32)), make_raw(20, 7, &two_words(1920, 32))]);
    assert!(to_cli.is_empty());
    // a side left to the compositor stays unlimited
    let (to_comp, _) = from_client(&mut s, &make_raw(40, 0, &two_words(0, 32)));
    assert_eq!(to_comp, vec![make_raw(20, 8, &two_words(0, 32)), make_raw(20, 7, &two_words(0, 32))]);
    // a size xdg_toplevel cannot express stays with the bridge
    let (to_comp, _) = from_client(&mut s, &make_raw(40, 0, &two_words(0x8000_0000, 32)));
    assert!(to_comp.is_empty());
    // anchors, margins and the like stay with the bridge
    let (to_comp, to_cli) = from_client(&mut s, &make_raw(40, 1, &15u32.to_ne_bytes()));
    assert!(to_comp.is_empty() && to_cli.is_empty());
}

#[test]
fn set_size_of_unlinked_surface_stays_with_bridge() {
    let mut s = BridgeState::new();
    let _ = registry_setup(&mut s);
    from_client(&mut s, &make_bind(2, 1000, "zwlr_layer_shell_v1", 5, 20));
    from_client(&mut s, &make_raw(20, 0, &layer_surface_payload(40, 30, 0, 2, "x")));
    let (to_comp, to_cli) = from_client(&mut s, &make_raw(40, 0, &two_words(100, 100)));
    assert!(to_comp.is_empty() && to_cli.is_empty());
}

#[test]
fn toplevel_close_becomes_layer_closed() {
    let mut s = linked_setup();
    from_client(&mut s, &make_raw(20, 0, &layer_surface_payload(40, 30, 0, 3, "o")));
    from_compositor(&mut s, &make_raw(20, 0, &0u32.to_ne_bytes()));
    from_compositor(&mut s, &delete_id(20));
    let (_, out) = from_compositor(&mut s, &make_raw(20, 1, &[]));
    assert_eq!(out, vec![make_raw(40, 1, &[])]);
}

#[test]
fn layer_shell_destroy_frees_its_spare_id() {
    let mut s = BridgeState::new();
    let _ = registry_setup(&mut s);
    from_client(&mut s, &make_bind(2, 1000, "zwlr_layer_shell_v1", 5, 20));
    assert_eq!(s.layer_shell_ids, vec![20]);
    let (to_comp, to_cli) = from_client(&mut s, &make_raw(20, 1, &[]));
    assert!(to_comp.is_empty());
    assert_eq!(to_cli, vec![delete_id(20)]);
    assert!(s.layer_shell_ids.is_empty());
    assert!(s.spare_ids.is_empty());
    // id 20 now names some other object of the application: passed through
    let req = make_raw(20, 0, &[0; 4]);
    let (to_comp, _) = from_client(&mut s, &req);
    assert_eq!(to_comp, vec![req]);
}

#[test]
fn layer_shell_destroy_while_its_id_is_a_toplevel() {
    let mut s = linked_setup();
    from_client(&mut s, &make_raw(20, 0, &layer_surface_payload(40, 30, 0, 2, "a")));
    // id 20 is in use as the toplevel: no delete_id yet
    let (_, to_cli) = from_client(&mut s, &make_raw(20, 1, &[]));
    assert!(to_cli.is_empty());
    from_compositor(&mut s, &make_raw(20, 0, &0u32.to_ne_bytes()));
    from_compositor(&mut s, &delete_id(20));
    from_client(&mut s, &make_raw(40, 7, &[]));
    // the compositor's release of the toplevel now reaches the application
    let (_, out) = from_compositor(&mut s, &delete_id(20));
    assert_eq!(out, vec![delete_id(20)]);
}

#[test]
fn binds_leave_the_count() {
    let mut s = linked_setup();
    s.layer_surface_count = 7;
    from_client(&mut s, &make_bind(2, 1, "wl_compositor", 4, 11));
    from_client(&mut s, &make_bind(2, 1000, "zwlr_layer_shell_v1", 5, 21));
    assert_eq!(s.layer_surface_count, 7);
}

#[test]
fn other_messages_pass_through() {
    let mut s = BridgeState::new();
    let _ = registry_setup(&mut s);
    let req = make_raw(7, 3, &[1, 2, 3, 4]);
    let (to_comp, to_cli) = from_client(&mut s, &req);
    assert_eq!(to_comp, vec![req]);
    assert!(to_cli.is_empty());
    let ev = make_raw(9, 0, &5u32.to_ne_bytes());
    let (to_comp, to_cli) = from_compositor(&mut s, &ev);
    assert!(to_comp.is_empty());
    assert_eq!(to_cli, vec![ev]);
}
