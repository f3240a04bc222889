//! One proxied connection: the state the bridge keeps between an application
//! and the compositor, and the routing of every message in both directions.
//!
//! Messages pass through unchanged, with these exceptions. The compositor's
//! registry is forwarded global by global; when it has announced its
//! globals, the bridge adds a `zwlr_layer_shell_v1` of its own if the
//! compositor has none. Binds of that global, and requests on the layer-shell
//! objects and layer surfaces that come from it, stay with the bridge: each
//! layer surface becomes an `xdg_surface` with an `xdg_toplevel` on the
//! compositor, whose events come back to the application as layer-surface
//! events.

use vstd::prelude::*;
use crate::proxy::args::{
    bind_args, bytes_eq, copy_bytes, global_args, layer_surface_args, read_bind, read_global,
    read_layer_surface, read_word, word_at,
};
use crate::proxy::protocol::{
    invalid_layer_error, make_invalid_layer_error, make_sync, sync_request, CALLBACK_DONE,
    LAYER_OVERLAY, LAYER_SURFACE_SET_SIZE, MAX_TOPLEVEL_SIZE, make_set_max_size, make_set_min_size,
    set_max_size_request, set_min_size_request,
    delete_id_event, make_delete_id, LAYER_SHELL_DESTROY, destroy_request, get_toplevel_request, get_xdg_surface_request, injected_global_event,
    layer_closed_event, layer_configure_event, layer_shell_interface, layer_shell_interface_bytes,
    make_destroy, make_get_toplevel, make_get_xdg_surface, make_injected_global_event,
    make_layer_closed, make_layer_configure, make_set_fullscreen, make_xdg_ack_configure,
    set_fullscreen_request, wm_base_interface, wm_base_interface_bytes, xdg_ack_configure_request,
    DISPLAY_DELETE_ID, DISPLAY_GET_REGISTRY, DISPLAY_ID, INJECTED_LAYER_SHELL_NAME,
    INJECTED_LAYER_SHELL_VERSION, LAYER_BACKGROUND, LAYER_SHELL_GET_LAYER_SURFACE,
    LAYER_SURFACE_ACK_CONFIGURE, LAYER_SURFACE_DESTROY, REGISTRY_BIND, REGISTRY_GLOBAL,
    TOPLEVEL_CLOSE, TOPLEVEL_CONFIGURE, XDG_SURFACE_CONFIGURE,
};
use crate::proxy::wire::{le_bytes, le_value, lemma_le_roundtrip, mview, views, Message, MessageView};

verus! {

/// A global the compositor advertises.
pub struct AdvertisedGlobal {
    pub name: u32,
    pub interface: Vec<u8>,
    pub version: u32,
}

/// A global as values.
pub struct GlobalView {
    pub name: u32,
    pub interface: Seq<u8>,
    pub version: u32,
}

impl View for AdvertisedGlobal {
    type V = GlobalView;

    open spec fn view(&self) -> GlobalView {
        GlobalView { name: self.name, interface: self.interface@, version: self.version }
    }
}

pub open spec fn global_views(gs: Seq<AdvertisedGlobal>) -> Seq<GlobalView> {
    gs.map_values(|g: AdvertisedGlobal| g@)
}

/// Whether a list of globals offers the layer shell.
pub open spec fn has_layer_shell(gs: Seq<GlobalView>) -> bool {
    exists|i: int| 0 <= i < gs.len() && #[trigger] gs[i].interface == layer_shell_interface()
}

/// The layer shell the bridge announces itself.
pub open spec fn injected_global() -> GlobalView {
    GlobalView {
        name: INJECTED_LAYER_SHELL_NAME,
        interface: layer_shell_interface(),
        version: INJECTED_LAYER_SHELL_VERSION,
    }
}

/// What applications see of a compositor that advertises `gs`: its globals,
/// in order, then the bridge's layer shell when the compositor has none.
pub open spec fn announced(gs: Seq<GlobalView>) -> Seq<GlobalView> {
    if has_layer_shell(gs) {
        gs
    } else {
        gs.push(injected_global())
    }
}

fn contains_layer_shell(gs: &Vec<AdvertisedGlobal>) -> (r: bool)
    ensures
        r == has_layer_shell(global_views(gs@)),
{
    let iface = layer_shell_interface_bytes();
    let mut i: usize = 0;
    while i < gs.len()
        invariant
            iface@ == layer_shell_interface(),
            i <= gs@.len(),
            forall|j: int| 0 <= j < i ==> gs@[j].interface@ != layer_shell_interface(),
        decreases gs@.len() - i,
    {
        if bytes_eq(&gs[i].interface, &iface) {
            assert(global_views(gs@)[i as int].interface == layer_shell_interface());
            return true;
        }
        i = i + 1;
    }
    assert forall|j: int|
        0 <= j < global_views(gs@).len() implies #[trigger] global_views(gs@)[j].interface
        != layer_shell_interface() by {
        assert(global_views(gs@)[j] == gs@[j]@);
    }
    false
}

/// The compositor objects of a linked layer surface: its `xdg_surface` takes
/// the application's own id for the layer surface, and its `xdg_toplevel` a
/// spare id.
#[derive(Debug, Clone, Copy, PartialEq, Eq, Structural)]
pub struct XdgObjects {
    pub xdg_surface_id: u32,
    pub toplevel_id: u32,
}

/// What the bridge keeps for each layer surface.
pub struct LayerSurfaceData {
    /// The application's `zwlr_layer_surface_v1`.
    pub layer_surface_id: u32,
    /// The `wl_surface` it was created for.
    pub surface_id: u32,
    /// The namespace the application gave.
    pub namespace: Vec<u8>,
    /// The layer: 0 background, 1 bottom, 2 top, 3 overlay.
    pub layer: u32,
    /// The output the application asked for; `None` for the compositor's
    /// choice.
    pub output: Option<u32>,
    /// Its objects on the compositor, when it has them.
    pub xdg: Option<XdgObjects>,
    /// The size of the latest `xdg_toplevel.configure`.
    pub width: u32,
    pub height: u32,
    /// Whether the compositor has configured its `xdg_surface` yet.
    pub configured: bool,
}

/// What a message turns into.
pub struct Routed {
    /// Messages to send to the compositor, in order.
    pub to_compositor: Vec<Message>,
    /// Messages to send to the application, in order.
    pub to_client: Vec<Message>,
}

/// The state of one proxied connection.
///
/// The compositor accepts a new object id from the application only at a
/// free slot of its id space, and the application numbers its objects one
/// after the other. So every id of an object the bridge keeps from the
/// compositor (a binding of the bridge's layer shell, an unlinked layer
/// surface) is taken on the compositor too, by a `wl_display.sync` callback
/// that the compositor answers and releases at once. Those freed slots are
/// the bridge's spare ids: each linked layer surface's `xdg_toplevel` takes
/// one, while its `xdg_surface` takes the layer surface's own id.
pub struct BridgeState {
    /// The application's `wl_registry`, once it has asked for one.
    pub registry_id: Option<u32>,
    /// Whether the compositor is still announcing its initial globals.
    pub collecting: bool,
    /// The globals the compositor announced so far.
    pub advertised: Vec<AdvertisedGlobal>,
    /// Whether the bridge announced its own layer shell.
    pub injected: bool,
    /// The application's binding of the compositor's `xdg_wm_base`.
    pub wm_base_id: Option<u32>,
    /// The application's bindings of the bridge's layer shell.
    pub layer_shell_ids: Vec<u32>,
    /// The live layer surfaces.
    pub surfaces: Vec<LayerSurfaceData>,
    /// Ids free on the compositor that the application holds for objects
    /// the bridge keeps to itself.
    pub spare_ids: Vec<u32>,
    /// Ids of `wl_display.sync` callbacks the compositor has not released yet.
    pub pending_syncs: Vec<u32>,
    /// Number of layer surfaces created so far.
    pub layer_surface_count: u64,
}

/// `i` is the first layer surface whose application object is `id`.
pub open spec fn first_layer_surface(s: Seq<LayerSurfaceData>, id: u32, i: int) -> bool {
    &&& 0 <= i < s.len()
    &&& s[i].layer_surface_id == id
    &&& forall|j: int| 0 <= j < i ==> s[j].layer_surface_id != id
}

pub open spec fn has_layer_surface(s: Seq<LayerSurfaceData>, id: u32) -> bool {
    exists|i: int| 0 <= i < s.len() && #[trigger] s[i].layer_surface_id == id
}

/// Whether `id` names an unlinked layer surface.
pub open spec fn has_unlinked_surface(s: Seq<LayerSurfaceData>, id: u32) -> bool {
    exists|i: int|
        0 <= i < s.len() && #[trigger] s[i].layer_surface_id == id && s[i].xdg is None
}

/// `i` is the first layer surface whose `xdg_toplevel` is `id`.
pub open spec fn first_toplevel(s: Seq<LayerSurfaceData>, id: u32, i: int) -> bool {
    &&& 0 <= i < s.len()
    &&& s[i].xdg matches Some(x) && x.toplevel_id == id
    &&& forall|j: int| 0 <= j < i ==> !(#[trigger] s[j].xdg matches Some(x) && x.toplevel_id == id)
}

pub open spec fn has_toplevel(s: Seq<LayerSurfaceData>, id: u32) -> bool {
    exists|i: int| 0 <= i < s.len() && (#[trigger] s[i].xdg matches Some(x) && x.toplevel_id == id)
}

/// `i` is the first layer surface whose `xdg_surface` is `id`.
pub open spec fn first_xdg_surface(s: Seq<LayerSurfaceData>, id: u32, i: int) -> bool {
    &&& 0 <= i < s.len()
    &&& s[i].xdg matches Some(x) && x.xdg_surface_id == id
    &&& forall|j: int| 0 <= j < i ==> !(#[trigger] s[j].xdg matches Some(x) && x.xdg_surface_id == id)
}

pub open spec fn has_xdg_surface(s: Seq<LayerSurfaceData>, id: u32) -> bool {
    exists|i: int|
        0 <= i < s.len() && (#[trigger] s[i].xdg matches Some(x) && x.xdg_surface_id == id)
}

/// The messages the compositor receives for a new layer surface linked to
/// `xdg` on `wm_base`: an `xdg_surface` for its `wl_surface`, the
/// `xdg_toplevel` of that, and, for the background layer, a fullscreen
/// request on the output the application chose (0: the compositor's
/// choice).
pub open spec fn translation(
    wm_base: u32,
    xdg: XdgObjects,
    surface: u32,
    output: u32,
    layer: u32,
) -> Seq<MessageView> {
    seq![
        get_xdg_surface_request(wm_base, xdg.xdg_surface_id, surface),
        get_toplevel_request(xdg.xdg_surface_id, xdg.toplevel_id),
    ] + if layer == LAYER_BACKGROUND {
        seq![set_fullscreen_request(xdg.toplevel_id, output)]
    } else {
        Seq::empty()
    }
}

/// The output an application's `output` argument names.
pub open spec fn chosen_output(output: u32) -> Option<u32> {
    if output == 0 {
        None
    } else {
        Some(output)
    }
}

pub open spec fn is_get_registry(m: MessageView) -> bool {
    m.object_id == DISPLAY_ID && m.opcode == DISPLAY_GET_REGISTRY && word_at(m.payload, 0) is Some
}

/// Whether a bind is one of the bridge's own layer shell, which the
/// compositor never sees.
pub open spec fn is_intercepted_bind(injected: bool, p: Seq<u8>) -> bool {
    injected && word_at(p, 0) == Some(INJECTED_LAYER_SHELL_NAME)
}

/// Whether a message is a request on the registry of the application.
pub open spec fn is_registry_bind(s: BridgeState, m: MessageView) -> bool {
    s.registry_id == Some(m.object_id) && m.opcode == REGISTRY_BIND
}

/// The application's `wm_base` binding after a forwarded bind.
pub open spec fn wm_base_after_bind(old_id: Option<u32>, p: Seq<u8>) -> Option<u32> {
    match bind_args(p) {
        Some((_, iface, _, id)) => if iface == wm_base_interface() {
            Some(id)
        } else {
            old_id
        },
        None => old_id,
    }
}

/// Whether a new layer surface gets its objects on the compositor: the
/// application has bound `xdg_wm_base` and the bridge holds a spare id.
pub open spec fn can_link(s: BridgeState) -> bool {
    s.wm_base_id is Some && s.spare_ids@.len() > 0
}

pub open spec fn saturating_inc(c: u64) -> u64 {
    if c < u64::MAX {
        (c + 1) as u64
    } else {
        c
    }
}

/// Keeps the ids other than `id`.
pub open spec fn other_than(id: u32) -> spec_fn(u32) -> bool {
    |x: u32| x != id
}

/// The registry-following fields are unchanged.
pub open spec fn same_registry(a: BridgeState, b: BridgeState) -> bool {
    &&& a.registry_id == b.registry_id
    &&& a.collecting == b.collecting
    &&& a.advertised@ == b.advertised@
    &&& a.injected == b.injected
}

/// The object-tracking fields are unchanged.
pub open spec fn same_objects(a: BridgeState, b: BridgeState) -> bool {
    &&& a.wm_base_id == b.wm_base_id
    &&& a.layer_shell_ids@ == b.layer_shell_ids@
    &&& a.surfaces@ == b.surfaces@
    &&& a.spare_ids@ == b.spare_ids@
    &&& a.pending_syncs@ == b.pending_syncs@
    &&& a.layer_surface_count == b.layer_surface_count
}

/// `last` records a new layer surface with these arguments.
pub open spec fn records(
    last: LayerSurfaceData,
    id: u32,
    surface: u32,
    output: u32,
    layer: u32,
    ns: Seq<u8>,
    xdg: Option<XdgObjects>,
) -> bool {
    &&& last.layer_surface_id == id
    &&& last.surface_id == surface
    &&& last.namespace@ == ns
    &&& last.layer == layer
    &&& last.output == chosen_output(output)
    &&& last.xdg == xdg
    &&& last.width == 0
    &&& last.height == 0
    &&& !last.configured
}

/// Whether `set_size` arguments fit the signed sizes of `xdg_toplevel`.
pub open spec fn is_toplevel_size(p: Seq<u8>) -> bool {
    &&& word_at(p, 0) matches Some(w) && w <= MAX_TOPLEVEL_SIZE
    &&& word_at(p, 4) matches Some(h) && h <= MAX_TOPLEVEL_SIZE
}

/// The size limits of `xdg_toplevel` `t` for a layer surface's
/// `set_size(width, height)`: the toplevel keeps exactly that size, and a
/// side of 0, which the layer surface leaves to the compositor, stays
/// unlimited.
pub open spec fn size_limits(t: u32, p: Seq<u8>) -> Seq<MessageView> {
    let w = word_at(p, 0).unwrap();
    let h = word_at(p, 4).unwrap();
    seq![set_min_size_request(t, w, h), set_max_size_request(t, w, h)]
}

/// What the compositor receives for a request on layer surface `d`:
/// `ack_configure` goes to its `xdg_surface` once the compositor has
/// configured that (acks of the bridge's first `configure` stay with the
/// bridge); `set_size` becomes the size limits of its `xdg_toplevel`;
/// `destroy` destroys the `xdg_toplevel` and then the `xdg_surface`; other
/// requests stay with the bridge.
pub open spec fn layer_surface_translation(d: LayerSurfaceData, m: MessageView) -> Seq<MessageView> {
    match d.xdg {
        Some(x) => if m.opcode == LAYER_SURFACE_ACK_CONFIGURE && word_at(m.payload, 0) is Some
            && d.configured {
            seq![xdg_ack_configure_request(x.xdg_surface_id, word_at(m.payload, 0).unwrap())]
        } else if m.opcode == LAYER_SURFACE_SET_SIZE && is_toplevel_size(m.payload) {
            size_limits(x.toplevel_id, m.payload)
        } else if m.opcode == LAYER_SURFACE_DESTROY {
            seq![destroy_request(x.toplevel_id), destroy_request(x.xdg_surface_id)]
        } else {
            Seq::empty()
        },
        None => Seq::empty(),
    }
}

/// Which kind of message the application sent, as the bridge sees it.
pub open spec fn client_case(s: BridgeState, m: MessageView) -> int {
    if is_get_registry(m) {
        1
    } else if is_registry_bind(s, m) {
        2
    } else if s.layer_shell_ids@.contains(m.object_id) {
        3
    } else if has_layer_surface(s.surfaces@, m.object_id) {
        4
    } else {
        5
    }
}

/// The release of an id the bridge kept from the compositor: when the
/// compositor's slot is spare, the id goes back to the application at once
/// with `delete_id`; when it is in use as an `xdg_toplevel`, the
/// compositor's own `delete_id` for it is passed on later.
pub open spec fn release_output(spare: Seq<u32>, id: u32) -> Seq<MessageView> {
    if spare.contains(id) {
        seq![delete_id_event(id)]
    } else {
        Seq::empty()
    }
}

pub open spec fn spare_after_release(spare: Seq<u32>, id: u32) -> Seq<u32> {
    if spare.contains(id) {
        spare.filter(other_than(id))
    } else {
        spare
    }
}

fn new_empty() -> (v: Vec<Message>)
    ensures
        v@.len() == 0,
{
    Vec::new()
}

fn copy_message(m: &Message) -> (r: Message)
    ensures
        r@ == m@,
{
    Message { object_id: m.object_id, opcode: m.opcode, payload: copy_bytes(&m.payload) }
}

fn single(m: Message) -> (v: Vec<Message>)
    ensures
        views(v@) == seq![m@],
{
    let mut v = Vec::new();
    v.push(m);
    assert(views(v@) =~= seq![m@]);
    v
}

fn contains_id(ids: &Vec<u32>, id: u32) -> (r: bool)
    ensures
        r == ids@.contains(id),
{
    let mut i: usize = 0;
    while i < ids.len()
        invariant
            i <= ids@.len(),
            forall|j: int| 0 <= j < i ==> ids@[j] != id,
        decreases ids@.len() - i,
    {
        if ids[i] == id {
            assert(ids@[i as int] == id);
            return true;
        }
        i = i + 1;
    }
    false
}

fn without(ids: &Vec<u32>, id: u32) -> (r: Vec<u32>)
    ensures
        r@ == ids@.filter(other_than(id)),
{
    let mut r: Vec<u32> = Vec::new();
    let mut i: usize = 0;
    while i < ids.len()
        invariant
            i <= ids@.len(),
            r@ == ids@.take(i as int).filter(other_than(id)),
        decreases ids@.len() - i,
    {
        proof {
            assert(ids@.take(i as int + 1) =~= ids@.take(i as int) + seq![ids@[i as int]]);
            Seq::filter_distributes_over_add(ids@.take(i as int), seq![ids@[i as int]], other_than(id));
            reveal_with_fuel(Seq::<_>::filter, 2);
        }
        if ids[i] != id {
            r.push(ids[i]);
        }
        i = i + 1;
    }
    assert(ids@.take(ids@.len() as int) =~= ids@);
    r
}

impl BridgeState {
    /// Well-formedness: a registry is known while its globals are followed,
    /// every layer surface is on one of the four layers, and every spare id is one the application holds for an object the
    /// bridge keeps from the compositor.
    pub open spec fn wf(&self) -> bool {
        &&& self.collecting ==> self.registry_id is Some
        &&& forall|k: int| 0 <= k < self.surfaces@.len() ==> #[trigger] self.surfaces@[k].layer <= LAYER_OVERLAY
        &&& forall|k: int|
            0 <= k < self.spare_ids@.len() ==> is_reserved(*self, #[trigger] self.spare_ids@[k])
    }

    /// A connection before any message.
    pub fn new() -> (s: BridgeState)
        ensures
            s.wf(),
            s.registry_id is None,
            !s.collecting,
            s.advertised@.len() == 0,
            !s.injected,
            s.wm_base_id is None,
            s.layer_shell_ids@.len() == 0,
            s.surfaces@.len() == 0,
            s.spare_ids@.len() == 0,
            s.pending_syncs@.len() == 0,
            s.layer_surface_count == 0,
    {
        BridgeState {
            registry_id: None,
            collecting: false,
            advertised: Vec::new(),
            injected: false,
            wm_base_id: None,
            layer_shell_ids: Vec::new(),
            surfaces: Vec::new(),
            spare_ids: Vec::new(),
            pending_syncs: Vec::new(),
            layer_surface_count: 0,
        }
    }

    fn find_layer_surface(&self, id: u32) -> (r: Option<usize>)
        ensures
            match r {
                Some(i) => first_layer_surface(self.surfaces@, id, i as int),
                None => !has_layer_surface(self.surfaces@, id),
            },
    {
        let mut i: usize = 0;
        while i < self.surfaces.len()
            invariant
                i <= self.surfaces@.len(),
                forall|j: int| 0 <= j < i ==> self.surfaces@[j].layer_surface_id != id,
            decreases self.surfaces@.len() - i,
        {
            if self.surfaces[i].layer_surface_id == id {
                return Some(i);
            }
            i = i + 1;
        }
        None
    }

    fn is_unlinked_surface(&self, id: u32) -> (r: bool)
        ensures
            r == has_unlinked_surface(self.surfaces@, id),
    {
        let mut i: usize = 0;
        while i < self.surfaces.len()
            invariant
                i <= self.surfaces@.len(),
                forall|j: int|
                    0 <= j < i ==> !(#[trigger] self.surfaces@[j].layer_surface_id == id
                        && self.surfaces@[j].xdg is None),
            decreases self.surfaces@.len() - i,
        {
            if self.surfaces[i].layer_surface_id == id && self.surfaces[i].xdg.is_none() {
                return true;
            }
            i = i + 1;
        }
        false
    }

    fn find_toplevel(&self, id: u32) -> (r: Option<usize>)
        ensures
            match r {
                Some(i) => first_toplevel(self.surfaces@, id, i as int),
                None => !has_toplevel(self.surfaces@, id),
            },
    {
        let mut i: usize = 0;
        while i < self.surfaces.len()
            invariant
                i <= self.surfaces@.len(),
                forall|j: int|
                    0 <= j < i ==> !(#[trigger] self.surfaces@[j].xdg matches Some(x) && x.toplevel_id
                        == id),
            decreases self.surfaces@.len() - i,
        {
            match self.surfaces[i].xdg {
                Some(x) => {
                    if x.toplevel_id == id {
                        return Some(i);
                    }
                },
                None => {},
            }
            i = i + 1;
        }
        None
    }

    fn find_xdg_surface(&self, id: u32) -> (r: Option<usize>)
        ensures
            match r {
                Some(i) => first_xdg_surface(self.surfaces@, id, i as int),
                None => !has_xdg_surface(self.surfaces@, id),
            },
    {
        let mut i: usize = 0;
        while i < self.surfaces.len()
            invariant
                i <= self.surfaces@.len(),
                forall|j: int|
                    0 <= j < i ==> !(#[trigger] self.surfaces@[j].xdg matches Some(x) && x.xdg_surface_id
                        == id),
            decreases self.surfaces@.len() - i,
        {
            match self.surfaces[i].xdg {
                Some(x) => {
                    if x.xdg_surface_id == id {
                        return Some(i);
                    }
                },
                None => {},
            }
            i = i + 1;
        }
        None
    }
}

proof fn lemma_filtered_member(s: Seq<u32>, id: u32, k: int)
    requires
        0 <= k < s.filter(other_than(id)).len(),
    ensures
        s.contains(s.filter(other_than(id))[k]),
        s.filter(other_than(id))[k] != id,
{
    s.lemma_filter_pred(other_than(id), k);
    assert(s.filter(other_than(id)).contains(s.filter(other_than(id))[k]));
    s.lemma_filter_contains_rev(other_than(id), s.filter(other_than(id))[k]);
}

proof fn lemma_filter_keeps(s: Seq<u32>, id: u32, x: u32)
    requires
        s.contains(x),
        x != id,
    ensures
        s.filter(other_than(id)).contains(x),
{
    let i = choose|i: int| 0 <= i < s.len() && s[i] == x;
    s.lemma_filter_contains(other_than(id), i);
}

proof fn lemma_unlinked_after_push(a: Seq<LayerSurfaceData>, b: Seq<LayerSurfaceData>, x: u32)
    requires
        b.len() == a.len() + 1,
        b.drop_last() == a,
        has_unlinked_surface(a, x),
    ensures
        has_unlinked_surface(b, x),
{
    let j = choose|j: int| 0 <= j < a.len() && #[trigger] a[j].layer_surface_id == x && a[j].xdg is None;
    assert(b[j] == b.drop_last()[j]);
}

proof fn lemma_unlinked_after_remove(a: Seq<LayerSurfaceData>, i: int, x: u32)
    requires
        0 <= i < a.len(),
        has_unlinked_surface(a, x),
        !(a[i].layer_surface_id == x && a[i].xdg is None),
    ensures
        has_unlinked_surface(a.remove(i), x),
{
    let j = choose|j: int| 0 <= j < a.len() && #[trigger] a[j].layer_surface_id == x && a[j].xdg is None;
    if j < i {
        assert(a.remove(i)[j] == a[j]);
    } else {
        assert(a.remove(i)[j - 1] == a[j]);
    }
}

proof fn lemma_unlinked_after_update(a: Seq<LayerSurfaceData>, i: int, d: LayerSurfaceData, x: u32)
    requires
        0 <= i < a.len(),
        d.layer_surface_id == a[i].layer_surface_id,
        d.xdg == a[i].xdg,
        has_unlinked_surface(a, x),
    ensures
        has_unlinked_surface(a.update(i, d), x),
{
    let j = choose|j: int| 0 <= j < a.len() && #[trigger] a[j].layer_surface_id == x && a[j].xdg is None;
    assert(a.update(i, d)[j].layer_surface_id == x);
}

proof fn lemma_contains_push(s: Seq<u32>, y: u32, x: u32)
    requires
        s.contains(x),
    ensures
        s.push(y).contains(x),
{
    let j = choose|j: int| 0 <= j < s.len() && s[j] == x;
    assert(s.push(y)[j] == x);
}

impl BridgeState {
    fn handle_bind(&mut self, m: &Message) -> (r: Routed)
        requires
            old(self).wf(),
        ensures
            final(self).wf(),
            same_registry(*old(self), *final(self)),
            final(self).surfaces@ == old(self).surfaces@,
            final(self).layer_surface_count == old(self).layer_surface_count,
            r.to_client@.len() == 0,
            is_intercepted_bind(old(self).injected, m.payload@) ==> {
                &&& final(self).wm_base_id == old(self).wm_base_id
                &&& match bind_args(m.payload@) {
                    Some((_, _, _, id)) => {
                        &&& views(r.to_compositor@) == seq![sync_request(id)]
                        &&& final(self).layer_shell_ids@ == old(self).layer_shell_ids@.push(id)
                        &&& final(self).spare_ids@ == old(self).spare_ids@.push(id)
                        &&& final(self).pending_syncs@ == old(self).pending_syncs@.push(id)
                    },
                    None => {
                        &&& r.to_compositor@.len() == 0
                        &&& same_objects(*old(self), *final(self))
                    },
                }
            },
            !is_intercepted_bind(old(self).injected, m.payload@) ==> {
                &&& views(r.to_compositor@) == seq![m@]
                &&& final(self).wm_base_id == wm_base_after_bind(old(self).wm_base_id, m.payload@)
                &&& final(self).layer_shell_ids@ == old(self).layer_shell_ids@
                &&& final(self).spare_ids@ == old(self).spare_ids@
                &&& final(self).pending_syncs@ == old(self).pending_syncs@
            },
    {
        let args = read_bind(&m.payload);
        let name = read_word(&m.payload, 0);
        if self.injected && name == Some(INJECTED_LAYER_SHELL_NAME) {
            match args {
                Some(a) => {
                    self.layer_shell_ids.push(a.new_id);
                    self.spare_ids.push(a.new_id);
                    self.pending_syncs.push(a.new_id);
                    proof {
                        let o = *old(self);
                        assert forall|k: int| 0 <= k < self.spare_ids@.len() implies is_reserved(
                            *self,
                            #[trigger] self.spare_ids@[k],
                        ) by {
                            let x = self.spare_ids@[k];
                            if k < o.spare_ids@.len() {
                                assert(o.spare_ids@[k] == x);
                                assert(is_reserved(o, x));
                                if o.layer_shell_ids@.contains(x) {
                                    lemma_contains_push(o.layer_shell_ids@, a.new_id, x);
                                }
                            } else {
                                assert(self.layer_shell_ids@[o.layer_shell_ids@.len() as int] == x);
                            }
                        }
                    }
                    return Routed { to_compositor: single(make_sync(a.new_id)), to_client: new_empty() };
                },
                None => {
                    return Routed { to_compositor: new_empty(), to_client: new_empty() };
                },
            }
        }
        match args {
            Some(a) => {
                let wm = wm_base_interface_bytes();
                if bytes_eq(&a.interface, &wm) {
                    self.wm_base_id = Some(a.new_id);
                }
            },
            None => {},
        }
        Routed { to_compositor: single(copy_message(m)), to_client: new_empty() }
    }

    #[verifier::rlimit(40)]
    fn handle_layer_shell(&mut self, m: &Message) -> (r: Routed)
        requires
            old(self).wf(),
        ensures
            final(self).wf(),
            same_registry(*old(self), *final(self)),
            final(self).wm_base_id == old(self).wm_base_id,
            match (m.opcode == LAYER_SHELL_GET_LAYER_SURFACE, layer_surface_args(m.payload@)) {
                (true, Some((id, surface, output, layer, ns))) => if layer > LAYER_OVERLAY {
                    &&& r.to_compositor@.len() == 0
                    &&& views(r.to_client@) == seq![invalid_layer_error(m.object_id)]
                    &&& same_objects(*old(self), *final(self))
                } else {
                    &&& final(self).layer_shell_ids@ == old(self).layer_shell_ids@
                    &&& final(self).layer_surface_count == saturating_inc(old(self).layer_surface_count)
                    &&& final(self).surfaces@.len() == old(self).surfaces@.len() + 1
                    &&& final(self).surfaces@.drop_last() == old(self).surfaces@
                    &&& views(r.to_client@) == seq![layer_configure_event(id, 1, 0, 0)]
                    &&& if can_link(*old(self)) {
                        let xdg = XdgObjects { xdg_surface_id: id, toplevel_id: old(self).spare_ids@.last() };
                        &&& views(r.to_compositor@) == translation(
                            old(self).wm_base_id.unwrap(),
                            xdg,
                            surface,
                            output,
                            layer,
                        )
                        &&& final(self).spare_ids@ == old(self).spare_ids@.drop_last()
                        &&& final(self).pending_syncs@ == old(self).pending_syncs@
                        &&& records(final(self).surfaces@.last(), id, surface, output, layer, ns, Some(xdg))
                    } else {
                        &&& views(r.to_compositor@) == seq![sync_request(id)]
                        &&& final(self).spare_ids@ == old(self).spare_ids@.push(id)
                        &&& final(self).pending_syncs@ == old(self).pending_syncs@.push(id)
                        &&& records(final(self).surfaces@.last(), id, surface, output, layer, ns, None)
                    }
                },
                _ => if m.opcode == LAYER_SHELL_DESTROY {
                    &&& r.to_compositor@.len() == 0
                    &&& views(r.to_client@) == release_output(old(self).spare_ids@, m.object_id)
                    &&& final(self).layer_shell_ids@ == old(self).layer_shell_ids@.filter(
                        other_than(m.object_id),
                    )
                    &&& final(self).spare_ids@ == spare_after_release(old(self).spare_ids@, m.object_id)
                    &&& final(self).surfaces@ == old(self).surfaces@
                    &&& final(self).pending_syncs@ == old(self).pending_syncs@
                    &&& final(self).layer_surface_count == old(self).layer_surface_count
                } else {
                    &&& r.to_compositor@.len() == 0
                    &&& r.to_client@.len() == 0
                    &&& same_objects(*old(self), *final(self))
                },
            },
    {
        if m.opcode == LAYER_SHELL_DESTROY {
            let sid = m.object_id;
            self.layer_shell_ids = without(&self.layer_shell_ids, sid);
            let had = contains_id(&self.spare_ids, sid);
            if had {
                self.spare_ids = without(&self.spare_ids, sid);
            }
            proof {
                let o = *old(self);
                assert forall|k: int| 0 <= k < self.spare_ids@.len() implies is_reserved(
                    *self,
                    #[trigger] self.spare_ids@[k],
                ) by {
                    let x = self.spare_ids@[k];
                    if had {
                        lemma_filtered_member(o.spare_ids@, sid, k);
                    } else {
                        assert(o.spare_ids@[k] == x);
                        assert(o.spare_ids@.contains(x));
                    }
                    assert(x != sid);
                    let j = choose|j: int| 0 <= j < o.spare_ids@.len() && o.spare_ids@[j] == x;
                    assert(is_reserved(o, o.spare_ids@[j]));
                    if o.layer_shell_ids@.contains(x) {
                        lemma_filter_keeps(o.layer_shell_ids@, sid, x);
                    }
                }
            }
            if had {
                return Routed { to_compositor: new_empty(), to_client: single(make_delete_id(sid)) };
            }
            let r = Routed { to_compositor: new_empty(), to_client: new_empty() };
            assert(views(r.to_client@) =~= release_output(old(self).spare_ids@, m.object_id));
            return r;
        }
        if m.opcode != LAYER_SHELL_GET_LAYER_SURFACE {
            return Routed { to_compositor: new_empty(), to_client: new_empty() };
        }
        let a = match read_layer_surface(&m.payload) {
            Some(a) => a,
            None => return Routed { to_compositor: new_empty(), to_client: new_empty() },
        };
        if a.layer > LAYER_OVERLAY {
            return Routed { to_compositor: new_empty(), to_client: single(make_invalid_layer_error(m.object_id)) };
        }
        if self.layer_surface_count < u64::MAX {
            self.layer_surface_count = self.layer_surface_count + 1;
        }
        let output = if a.output == 0 {
            None
        } else {
            Some(a.output)
        };
        let to_client = single(make_layer_configure(a.new_id, 1, 0, 0));
        let ghost old_surfaces = self.surfaces@;
        let ghost old_spare = self.spare_ids@;
        match self.wm_base_id {
            Some(wm) => {
                if self.spare_ids.len() > 0 {
                    let t = self.spare_ids.pop().unwrap();
                    assert(self.spare_ids@ =~= old_spare.drop_last());
                    let xdg = XdgObjects { xdg_surface_id: a.new_id, toplevel_id: t };
                    let mut to_compositor: Vec<Message> = Vec::new();
                    to_compositor.push(make_get_xdg_surface(wm, a.new_id, a.surface));
                    to_compositor.push(make_get_toplevel(a.new_id, t));
                    if a.layer == LAYER_BACKGROUND {
                        to_compositor.push(make_set_fullscreen(t, a.output));
                    }
                    assert(views(to_compositor@) =~= translation(wm, xdg, a.surface, a.output, a.layer));
                    self.surfaces.push(
                        LayerSurfaceData {
                            layer_surface_id: a.new_id,
                            surface_id: a.surface,
                            namespace: a.namespace,
                            layer: a.layer,
                            output,
                            xdg: Some(xdg),
                            width: 0,
                            height: 0,
                            configured: false,
                        },
                    );
                    assert(self.surfaces@.drop_last() =~= old_surfaces);
                    proof {
                        let o = *old(self);
                        assert forall|k: int| 0 <= k < self.spare_ids@.len() implies is_reserved(
                            *self,
                            #[trigger] self.spare_ids@[k],
                        ) by {
                            let x = self.spare_ids@[k];
                            assert(o.spare_ids@[k] == x);
                            assert(is_reserved(o, o.spare_ids@[k]));
                            if has_unlinked_surface(o.surfaces@, x) {
                                lemma_unlinked_after_push(o.surfaces@, self.surfaces@, x);
                            }
                        }
                    }
                    return Routed { to_compositor, to_client };
                }
            },
            None => {},
        }
        self.spare_ids.push(a.new_id);
        self.pending_syncs.push(a.new_id);
        self.surfaces.push(
            LayerSurfaceData {
                layer_surface_id: a.new_id,
                surface_id: a.surface,
                namespace: a.namespace,
                layer: a.layer,
                output,
                xdg: None,
                width: 0,
                height: 0,
                configured: false,
            },
        );
        assert(self.surfaces@.drop_last() =~= old_surfaces);
        proof {
            let o = *old(self);
            assert forall|k: int| 0 <= k < self.spare_ids@.len() implies is_reserved(
                *self,
                #[trigger] self.spare_ids@[k],
            ) by {
                let x = self.spare_ids@[k];
                if k < o.spare_ids@.len() {
                    assert(o.spare_ids@[k] == x);
                    assert(is_reserved(o, o.spare_ids@[k]));
                    if has_unlinked_surface(o.surfaces@, x) {
                        lemma_unlinked_after_push(o.surfaces@, self.surfaces@, x);
                    }
                } else {
                    let last = self.surfaces@.len() - 1;
                    assert(self.surfaces@[last].layer_surface_id == x && self.surfaces@[last].xdg is None);
                }
            }
        }
        Routed { to_compositor: single(make_sync(a.new_id)), to_client }
    }

    fn handle_layer_surface(&mut self, m: &Message, i: usize) -> (r: Routed)
        requires
            old(self).wf(),
            first_layer_surface(old(self).surfaces@, m.object_id, i as int),
        ensures
            final(self).wf(),
            same_registry(*old(self), *final(self)),
            final(self).wm_base_id == old(self).wm_base_id,
            final(self).layer_shell_ids@ == old(self).layer_shell_ids@,
            final(self).pending_syncs@ == old(self).pending_syncs@,
            final(self).layer_surface_count == old(self).layer_surface_count,
            views(r.to_compositor@) == layer_surface_translation(old(self).surfaces@[i as int], m@),
            m.opcode == LAYER_SURFACE_DESTROY ==> {
                &&& final(self).surfaces@ == old(self).surfaces@.remove(i as int)
                &&& if old(self).surfaces@[i as int].xdg is Some {
                    &&& r.to_client@.len() == 0
                    &&& final(self).spare_ids@ == old(self).spare_ids@
                } else {
                    &&& views(r.to_client@) == release_output(old(self).spare_ids@, m.object_id)
                    &&& final(self).spare_ids@ == spare_after_release(old(self).spare_ids@, m.object_id)
                }
            },
            m.opcode != LAYER_SURFACE_DESTROY ==> {
                &&& final(self).surfaces@ == old(self).surfaces@
                &&& final(self).spare_ids@ == old(self).spare_ids@
                &&& r.to_client@.len() == 0
            },
    {
        let xdg = self.surfaces[i].xdg;
        let configured = self.surfaces[i].configured;
        let ghost d = old(self).surfaces@[i as int];
        let mut to_compositor: Vec<Message> = Vec::new();
        let mut to_client: Vec<Message> = Vec::new();
        if m.opcode == LAYER_SURFACE_DESTROY {
            let lid = m.object_id;
            self.surfaces.remove(i);
            let mut had = false;
            match xdg {
                Some(x) => {
                    to_compositor.push(make_destroy(x.toplevel_id));
                    to_compositor.push(make_destroy(x.xdg_surface_id));
                },
                None => {
                    had = contains_id(&self.spare_ids, lid);
                    if had {
                        self.spare_ids = without(&self.spare_ids, lid);
                        to_client.push(make_delete_id(lid));
                    }
                    assert(views(to_client@) =~= release_output(old(self).spare_ids@, lid));
                },
            }
            proof {
                let o = *old(self);
                assert forall|k: int| 0 <= k < self.spare_ids@.len() implies is_reserved(
                    *self,
                    #[trigger] self.spare_ids@[k],
                ) by {
                    let x = self.spare_ids@[k];
                    if had {
                        lemma_filtered_member(o.spare_ids@, lid, k);
                    } else {
                        assert(o.spare_ids@[k] == x);
                        assert(o.spare_ids@.contains(x));
                    }
                    let j = choose|j: int| 0 <= j < o.spare_ids@.len() && o.spare_ids@[j] == x;
                    assert(is_reserved(o, o.spare_ids@[j]));
                    if has_unlinked_surface(o.surfaces@, x) && !o.layer_shell_ids@.contains(x) {
                        if xdg is None {
                            assert(x != lid);
                        }
                        lemma_unlinked_after_remove(o.surfaces@, i as int, x);
                    }
                }
            }
        } else if m.opcode == LAYER_SURFACE_ACK_CONFIGURE && configured {
            match (xdg, read_word(&m.payload, 0)) {
                (Some(x), Some(serial)) => {
                    to_compositor.push(make_xdg_ack_configure(x.xdg_surface_id, serial));
                },
                _ => {},
            }
        } else if m.opcode == LAYER_SURFACE_SET_SIZE {
            match (xdg, read_word(&m.payload, 0), read_word(&m.payload, 4)) {
                (Some(x), Some(w), Some(h)) => {
                    if w <= MAX_TOPLEVEL_SIZE && h <= MAX_TOPLEVEL_SIZE {
                        to_compositor.push(make_set_min_size(x.toplevel_id, w, h));
                        to_compositor.push(make_set_max_size(x.toplevel_id, w, h));
                    }
                },
                _ => {},
            }
        }
        assert(views(to_compositor@) =~= layer_surface_translation(d, m@));
        Routed { to_compositor, to_client }
    }

    /// Routes a message from the application.
    ///
    /// - `wl_display.get_registry` is forwarded, and the bridge starts
    ///   following the new registry's globals.
    /// - A bind of the bridge's own layer shell is kept from the compositor,
    ///   which gets a `wl_display.sync` on the same id instead; any other
    ///   bind is forwarded, and a bind of `xdg_wm_base` is remembered.
    /// - `get_layer_surface` with a layer outside 0..=3 gets the protocol
    ///   error `invalid_layer`. Otherwise it creates a layer surface and the
    ///   application gets a `configure` with serial 1 and size 0x0 at once.
    ///   With `xdg_wm_base` bound and a spare id at hand, the layer surface
    ///   is translated into an `xdg_surface` (on its own id) and an
    ///   `xdg_toplevel` (on the spare id), fullscreen on the chosen output
    ///   for the background layer; else its id is taken on the compositor by
    ///   a `wl_display.sync`.
    /// - Requests on layer surfaces become requests on their compositor
    ///   objects (`ack_configure` once the compositor has configured,
    ///   `set_size` as the toplevel's size limits, `destroy`) or stay with
    ///   the bridge.
    /// - Everything else is forwarded unchanged.
    pub fn on_client_message(&mut self, m: &Message) -> (r: Routed)
        requires
            old(self).wf(),
        ensures
            final(self).wf(),
            client_case(*old(self), m@) == 1 ==> {
                &&& views(r.to_compositor@) == seq![m@]
                &&& r.to_client@.len() == 0
                &&& final(self).registry_id == word_at(m.payload@, 0)
                &&& final(self).collecting
                &&& final(self).advertised@.len() == 0
                &&& !final(self).injected
                &&& same_objects(*old(self), *final(self))
            },
            client_case(*old(self), m@) == 2 ==> {
                &&& same_registry(*old(self), *final(self))
                &&& final(self).surfaces@ == old(self).surfaces@
                &&& final(self).layer_surface_count == old(self).layer_surface_count
                &&& r.to_client@.len() == 0
                &&& is_intercepted_bind(old(self).injected, m.payload@) ==> {
                    &&& final(self).wm_base_id == old(self).wm_base_id
                    &&& match bind_args(m.payload@) {
                        Some((_, _, _, id)) => {
                            &&& views(r.to_compositor@) == seq![sync_request(id)]
                            &&& final(self).layer_shell_ids@ == old(self).layer_shell_ids@.push(id)
                            &&& final(self).spare_ids@ == old(self).spare_ids@.push(id)
                            &&& final(self).pending_syncs@ == old(self).pending_syncs@.push(id)
                        },
                        None => {
                            &&& r.to_compositor@.len() == 0
                            &&& same_objects(*old(self), *final(self))
                        },
                    }
                }
                &&& !is_intercepted_bind(old(self).injected, m.payload@) ==> {
                    &&& views(r.to_compositor@) == seq![m@]
                    &&& final(self).wm_base_id == wm_base_after_bind(old(self).wm_base_id, m.payload@)
                    &&& final(self).layer_shell_ids@ == old(self).layer_shell_ids@
                    &&& final(self).spare_ids@ == old(self).spare_ids@
                    &&& final(self).pending_syncs@ == old(self).pending_syncs@
                }
            },
            client_case(*old(self), m@) == 3 ==> {
                &&& same_registry(*old(self), *final(self))
                &&& final(self).wm_base_id == old(self).wm_base_id
                &&& match (m.opcode == LAYER_SHELL_GET_LAYER_SURFACE, layer_surface_args(m.payload@)) {
                    (true, Some((id, surface, output, layer, ns))) => if layer > LAYER_OVERLAY {
                        &&& r.to_compositor@.len() == 0
                        &&& views(r.to_client@) == seq![invalid_layer_error(m.object_id)]
                        &&& same_objects(*old(self), *final(self))
                    } else {
                        &&& final(self).layer_shell_ids@ == old(self).layer_shell_ids@
                        &&& final(self).layer_surface_count == saturating_inc(old(self).layer_surface_count)
                        &&& final(self).surfaces@.len() == old(self).surfaces@.len() + 1
                        &&& final(self).surfaces@.drop_last() == old(self).surfaces@
                        &&& views(r.to_client@) == seq![layer_configure_event(id, 1, 0, 0)]
                        &&& if can_link(*old(self)) {
                            let xdg = XdgObjects { xdg_surface_id: id, toplevel_id: old(self).spare_ids@.last() };
                            &&& views(r.to_compositor@) == translation(
                                old(self).wm_base_id.unwrap(),
                                xdg,
                                surface,
                                output,
                                layer,
                            )
                            &&& final(self).spare_ids@ == old(self).spare_ids@.drop_last()
                            &&& final(self).pending_syncs@ == old(self).pending_syncs@
                            &&& records(final(self).surfaces@.last(), id, surface, output, layer, ns, Some(xdg))
                        } else {
                            &&& views(r.to_compositor@) == seq![sync_request(id)]
                            &&& final(self).spare_ids@ == old(self).spare_ids@.push(id)
                            &&& final(self).pending_syncs@ == old(self).pending_syncs@.push(id)
                            &&& records(final(self).surfaces@.last(), id, surface, output, layer, ns, None)
                        }
                    },
                    _ => if m.opcode == LAYER_SHELL_DESTROY {
                        &&& r.to_compositor@.len() == 0
                        &&& views(r.to_client@) == release_output(old(self).spare_ids@, m.object_id)
                        &&& final(self).layer_shell_ids@ == old(self).layer_shell_ids@.filter(
                            other_than(m.object_id),
                        )
                        &&& final(self).spare_ids@ == spare_after_release(old(self).spare_ids@, m.object_id)
                        &&& final(self).surfaces@ == old(self).surfaces@
                        &&& final(self).pending_syncs@ == old(self).pending_syncs@
                        &&& final(self).layer_surface_count == old(self).layer_surface_count
                    } else {
                        &&& r.to_compositor@.len() == 0
                        &&& r.to_client@.len() == 0
                        &&& same_objects(*old(self), *final(self))
                    },
                }
            },
            client_case(*old(self), m@) == 4 ==> forall|i: int|
                first_layer_surface(old(self).surfaces@, m.object_id, i) ==> {
                    &&& same_registry(*old(self), *final(self))
                    &&& final(self).wm_base_id == old(self).wm_base_id
                    &&& final(self).layer_shell_ids@ == old(self).layer_shell_ids@
                    &&& final(self).pending_syncs@ == old(self).pending_syncs@
                    &&& final(self).layer_surface_count == old(self).layer_surface_count
                    &&& views(r.to_compositor@) == layer_surface_translation(old(self).surfaces@[i], m@)
                    &&& m.opcode == LAYER_SURFACE_DESTROY ==> {
                        &&& final(self).surfaces@ == old(self).surfaces@.remove(i)
                        &&& if old(self).surfaces@[i].xdg is Some {
                            &&& r.to_client@.len() == 0
                            &&& final(self).spare_ids@ == old(self).spare_ids@
                        } else {
                            &&& views(r.to_client@) == release_output(old(self).spare_ids@, m.object_id)
                            &&& final(self).spare_ids@ == spare_after_release(old(self).spare_ids@, m.object_id)
                        }
                    }
                    &&& m.opcode != LAYER_SURFACE_DESTROY ==> {
                        &&& final(self).surfaces@ == old(self).surfaces@
                        &&& final(self).spare_ids@ == old(self).spare_ids@
                        &&& r.to_client@.len() == 0
                    }
                },
            client_case(*old(self), m@) == 5 ==> {
                &&& views(r.to_compositor@) == seq![m@]
                &&& r.to_client@.len() == 0
                &&& same_registry(*old(self), *final(self))
                &&& same_objects(*old(self), *final(self))
            },
    {
        if m.object_id == DISPLAY_ID && m.opcode == DISPLAY_GET_REGISTRY {
            match read_word(&m.payload, 0) {
                Some(id) => {
                    self.registry_id = Some(id);
                    self.collecting = true;
                    self.advertised = Vec::new();
                    self.injected = false;
                    return Routed { to_compositor: single(copy_message(m)), to_client: new_empty() };
                },
                None => {},
            }
        }
        let on_registry = match self.registry_id {
            Some(reg) => reg == m.object_id,
            None => false,
        };
        if on_registry && m.opcode == REGISTRY_BIND {
            return self.handle_bind(m);
        }
        if contains_id(&self.layer_shell_ids, m.object_id) {
            return self.handle_layer_shell(m);
        }
        match self.find_layer_surface(m.object_id) {
            Some(i) => {
                let r = self.handle_layer_surface(m, i);
                proof {
                    assert forall|j: int| first_layer_surface(old(self).surfaces@, m.object_id, j) implies j == i by {
                        if j < i {
                            assert(old(self).surfaces@[j].layer_surface_id != m.object_id);
                        } else if j > i {
                            assert(old(self).surfaces@[i as int].layer_surface_id != m.object_id);
                        }
                    }
                }
                r
            },
            None => Routed { to_compositor: single(copy_message(m)), to_client: new_empty() },
        }
    }
}

/// The index of the first layer surface whose `xdg_toplevel` is `id`.
pub open spec fn toplevel_index(s: Seq<LayerSurfaceData>, id: u32) -> int {
    choose|i: int| first_toplevel(s, id, i)
}

/// The index of the first layer surface whose `xdg_surface` is `id`.
pub open spec fn xdg_surface_index(s: Seq<LayerSurfaceData>, id: u32) -> int {
    choose|i: int| first_xdg_surface(s, id, i)
}

pub open spec fn is_delete_id(m: MessageView) -> bool {
    m.object_id == DISPLAY_ID && m.opcode == DISPLAY_DELETE_ID && word_at(m.payload, 0) is Some
}

pub open spec fn deleted_id(m: MessageView) -> u32 {
    word_at(m.payload, 0).unwrap()
}

/// Whether the application holds `id` for an object the bridge keeps from
/// the compositor: a binding of the bridge's layer shell or an unlinked
/// layer surface.
pub open spec fn is_reserved(s: BridgeState, id: u32) -> bool {
    s.layer_shell_ids@.contains(id) || has_unlinked_surface(s.surfaces@, id)
}

/// How the bridge treats a compositor event outside the registry:
/// 1 the `done` of one of its sync callbacks, 2 the release of such a
/// callback, 3 an event on one of its `xdg_toplevel`s, 4 an event on one of
/// its `xdg_surface`s, 5 the release of a spare id, 6 anything else.
pub open spec fn event_kind(s: BridgeState, m: MessageView) -> int {
    if s.pending_syncs@.contains(m.object_id) && m.opcode == CALLBACK_DONE {
        1
    } else if is_delete_id(m) && s.pending_syncs@.contains(deleted_id(m)) {
        2
    } else if has_toplevel(s.surfaces@, m.object_id) {
        3
    } else if has_xdg_surface(s.surfaces@, m.object_id) {
        4
    } else if is_delete_id(m) && is_reserved(s, deleted_id(m)) {
        5
    } else {
        6
    }
}

/// What the application receives for a compositor event outside the
/// registry: the bridge's sync callbacks and the release of its ids stay
/// with the bridge; `xdg_toplevel.close` becomes `closed` and
/// `xdg_surface.configure` becomes `configure` with the size of the latest
/// `xdg_toplevel.configure`, both on the layer surface; other events on the
/// bridge's objects stay with it; everything else is forwarded unchanged.
pub open spec fn event_route(s: BridgeState, m: MessageView) -> Seq<MessageView> {
    let k = event_kind(s, m);
    if k == 3 {
        let d = s.surfaces@[toplevel_index(s.surfaces@, m.object_id)];
        if m.opcode == TOPLEVEL_CLOSE {
            seq![layer_closed_event(d.layer_surface_id)]
        } else {
            Seq::empty()
        }
    } else if k == 4 {
        let d = s.surfaces@[xdg_surface_index(s.surfaces@, m.object_id)];
        if m.opcode == XDG_SURFACE_CONFIGURE && word_at(m.payload, 0) is Some {
            seq![layer_configure_event(d.layer_surface_id, word_at(m.payload, 0).unwrap(), d.width, d.height)]
        } else {
            Seq::empty()
        }
    } else if k == 6 {
        seq![m]
    } else {
        Seq::empty()
    }
}

/// The layer surfaces after a compositor event: a toplevel `configure`
/// records its size, and an `xdg_surface.configure` marks the layer surface
/// configured by the compositor.
pub open spec fn surfaces_after_event(s: BridgeState, m: MessageView) -> Seq<LayerSurfaceData> {
    let k = event_kind(s, m);
    if k == 3 && m.opcode == TOPLEVEL_CONFIGURE && word_at(m.payload, 0) is Some && word_at(
        m.payload,
        4,
    ) is Some {
        let i = toplevel_index(s.surfaces@, m.object_id);
        s.surfaces@.update(
            i,
            LayerSurfaceData {
                width: word_at(m.payload, 0).unwrap(),
                height: word_at(m.payload, 4).unwrap(),
                ..s.surfaces@[i]
            },
        )
    } else if k == 4 && m.opcode == XDG_SURFACE_CONFIGURE && word_at(m.payload, 0) is Some {
        let i = xdg_surface_index(s.surfaces@, m.object_id);
        s.surfaces@.update(i, LayerSurfaceData { configured: true, ..s.surfaces@[i] })
    } else {
        s.surfaces@
    }
}

pub open spec fn pending_after_event(s: BridgeState, m: MessageView) -> Seq<u32> {
    if event_kind(s, m) == 2 {
        s.pending_syncs@.filter(other_than(deleted_id(m)))
    } else {
        s.pending_syncs@
    }
}

pub open spec fn spare_after_event(s: BridgeState, m: MessageView) -> Seq<u32> {
    if event_kind(s, m) == 5 {
        s.spare_ids@.push(deleted_id(m))
    } else {
        s.spare_ids@
    }
}

/// What the bridge follows of the application's registry.
pub struct RegistryView {
    pub registry: Option<u32>,
    pub collecting: bool,
    pub advertised: Seq<GlobalView>,
    pub injected: bool,
}

pub open spec fn registry_view(s: BridgeState) -> RegistryView {
    RegistryView {
        registry: s.registry_id,
        collecting: s.collecting,
        advertised: global_views(s.advertised@),
        injected: s.injected,
    }
}

pub open spec fn global_of(p: Seq<u8>) -> Option<GlobalView> {
    match global_args(p) {
        Some((n, i, v)) => Some(GlobalView { name: n, interface: i, version: v }),
        None => None,
    }
}

/// Whether the compositor's message announces a global on the
/// application's registry.
pub open spec fn is_registry_global(r: RegistryView, m: MessageView) -> bool {
    r.registry == Some(m.object_id) && m.opcode == REGISTRY_GLOBAL
}

/// The registry as followed after one compositor message: while
/// collecting, a global is remembered; any other message ends the
/// collection, and the bridge's layer shell counts as announced exactly when
/// the compositor announced none.
pub open spec fn registry_step(r: RegistryView, m: MessageView) -> RegistryView {
    if r.collecting && is_registry_global(r, m) {
        RegistryView {
            advertised: match global_of(m.payload) {
                Some(g) => r.advertised.push(g),
                None => r.advertised,
            },
            ..r
        }
    } else if r.collecting {
        RegistryView { collecting: false, injected: !has_layer_shell(r.advertised), ..r }
    } else {
        r
    }
}

/// The announcement of the bridge's layer shell at the end of the
/// collection, when the compositor announced none.
pub open spec fn injection_of(r: RegistryView) -> Seq<MessageView> {
    if has_layer_shell(r.advertised) {
        Seq::empty()
    } else {
        seq![injected_global_event(r.registry.unwrap())]
    }
}

/// What the application receives of the registry for one compositor
/// message: each global while collecting, then the injection.
pub open spec fn announcement_out(r: RegistryView, m: MessageView) -> Seq<MessageView> {
    if r.collecting && is_registry_global(r, m) {
        seq![m]
    } else if r.collecting {
        injection_of(r)
    } else {
        Seq::empty()
    }
}

impl BridgeState {
    fn route_event(&mut self, m: &Message) -> (out: Vec<Message>)
        requires
            old(self).wf(),
        ensures
            final(self).wf(),
            same_registry(*old(self), *final(self)),
            final(self).wm_base_id == old(self).wm_base_id,
            final(self).layer_shell_ids@ == old(self).layer_shell_ids@,
            final(self).layer_surface_count == old(self).layer_surface_count,
            views(out@) == event_route(*old(self), m@),
            final(self).surfaces@ == surfaces_after_event(*old(self), m@),
            final(self).pending_syncs@ == pending_after_event(*old(self), m@),
            final(self).spare_ids@ == spare_after_event(*old(self), m@),
    {
        let ghost s0 = *self;
        let deleted = if m.object_id == DISPLAY_ID && m.opcode == DISPLAY_DELETE_ID {
            read_word(&m.payload, 0)
        } else {
            None
        };
        if m.opcode == CALLBACK_DONE && contains_id(&self.pending_syncs, m.object_id) {
            return new_empty();
        }
        match deleted {
            Some(id) => {
                if contains_id(&self.pending_syncs, id) {
                    self.pending_syncs = without(&self.pending_syncs, id);
                    return new_empty();
                }
            },
            None => {},
        }
        match self.find_toplevel(m.object_id) {
            Some(i) => {
                proof {
                    let ss = s0.surfaces@;
                    assert(first_toplevel(ss, m.object_id, toplevel_index(ss, m.object_id)));
                    let j = toplevel_index(ss, m.object_id);
                    if j < i {
                        assert(!(ss[j].xdg matches Some(x) && x.toplevel_id == m.object_id));
                    } else if j > i {
                        assert(!(ss[i as int].xdg matches Some(x) && x.toplevel_id == m.object_id));
                    }
                    assert(j == i);
                }
                let mut out: Vec<Message> = Vec::new();
                if m.opcode == TOPLEVEL_CLOSE {
                    out.push(make_layer_closed(self.surfaces[i].layer_surface_id));
                } else if m.opcode == TOPLEVEL_CONFIGURE {
                    match (read_word(&m.payload, 0), read_word(&m.payload, 4)) {
                        (Some(w), Some(h)) => {
                            let mut d = self.surfaces.remove(i);
                            d.width = w;
                            d.height = h;
                            self.surfaces.insert(i, d);
                            assert(self.surfaces@ =~= surfaces_after_event(s0, m@));
                            proof {
                                let o = s0;
                                assert forall|k: int| 0 <= k < self.spare_ids@.len() implies is_reserved(
                                    *self,
                                    #[trigger] self.spare_ids@[k],
                                ) by {
                                    let x = self.spare_ids@[k];
                                    assert(o.spare_ids@[k] == x);
                                    assert(is_reserved(o, o.spare_ids@[k]));
                                    if has_unlinked_surface(o.surfaces@, x) {
                                        lemma_unlinked_after_update(o.surfaces@, i as int, self.surfaces@[i as int], x);
                                        assert(self.surfaces@ == o.surfaces@.update(i as int, self.surfaces@[i as int]));
                                    }
                                }
                            }
                        },
                        _ => {},
                    }
                }
                assert(views(out@) =~= event_route(s0, m@));
                return out;
            },
            None => {},
        }
        match self.find_xdg_surface(m.object_id) {
            Some(i) => {
                proof {
                    let ss = s0.surfaces@;
                    assert(first_xdg_surface(ss, m.object_id, xdg_surface_index(ss, m.object_id)));
                    let j = xdg_surface_index(ss, m.object_id);
                    if j < i {
                        assert(!(ss[j].xdg matches Some(x) && x.xdg_surface_id == m.object_id));
                    } else if j > i {
                        assert(!(ss[i as int].xdg matches Some(x) && x.xdg_surface_id == m.object_id));
                    }
                    assert(j == i);
                }
                let mut out: Vec<Message> = Vec::new();
                if m.opcode == XDG_SURFACE_CONFIGURE {
                    match read_word(&m.payload, 0) {
                        Some(serial) => {
                            let ls = self.surfaces[i].layer_surface_id;
                            let w = self.surfaces[i].width;
                            let h = self.surfaces[i].height;
                            out.push(make_layer_configure(ls, serial, w, h));
                            let mut d = self.surfaces.remove(i);
                            d.configured = true;
                            self.surfaces.insert(i, d);
                            assert(self.surfaces@ =~= surfaces_after_event(s0, m@));
                            proof {
                                let o = s0;
                                assert forall|k: int| 0 <= k < self.spare_ids@.len() implies is_reserved(
                                    *self,
                                    #[trigger] self.spare_ids@[k],
                                ) by {
                                    let x = self.spare_ids@[k];
                                    assert(o.spare_ids@[k] == x);
                                    assert(is_reserved(o, o.spare_ids@[k]));
                                    if has_unlinked_surface(o.surfaces@, x) {
                                        lemma_unlinked_after_update(o.surfaces@, i as int, self.surfaces@[i as int], x);
                                        assert(self.surfaces@ == o.surfaces@.update(i as int, self.surfaces@[i as int]));
                                    }
                                }
                            }
                        },
                        None => {},
                    }
                }
                assert(views(out@) =~= event_route(s0, m@));
                return out;
            },
            None => {},
        }
        match deleted {
            Some(id) => {
                if contains_id(&self.layer_shell_ids, id) || self.is_unlinked_surface(id) {
                    self.spare_ids.push(id);
                    proof {
                        let o = s0;
                        assert forall|k: int| 0 <= k < self.spare_ids@.len() implies is_reserved(
                            *self,
                            #[trigger] self.spare_ids@[k],
                        ) by {
                            if k < o.spare_ids@.len() {
                                assert(o.spare_ids@[k] == self.spare_ids@[k]);
                                assert(is_reserved(o, o.spare_ids@[k]));
                            }
                        }
                    }
                    return new_empty();
                }
            },
            None => {},
        }
        single(copy_message(m))
    }

    /// Routes a message from the compositor.
    ///
    /// While the compositor announces its initial globals, each one is
    /// forwarded and remembered. Its first other message ends the
    /// announcement: the application then gets the bridge's own
    /// `zwlr_layer_shell_v1` if the compositor announced none, before that
    /// message. The answers to the bridge's sync callbacks and the release of
    /// its ids stay with the bridge; events on its `xdg_surface`s and
    /// `xdg_toplevel`s come back as layer-surface events; the rest is
    /// forwarded unchanged.
    pub fn on_compositor_message(&mut self, m: &Message) -> (r: Routed)
        requires
            old(self).wf(),
        ensures
            final(self).wf(),
            r.to_compositor@.len() == 0,
            registry_view(*final(self)) == registry_step(registry_view(*old(self)), m@),
            final(self).wm_base_id == old(self).wm_base_id,
            final(self).layer_shell_ids@ == old(self).layer_shell_ids@,
            final(self).layer_surface_count == old(self).layer_surface_count,
            old(self).collecting && is_registry_global(registry_view(*old(self)), m@) ==> {
                &&& views(r.to_client@) == seq![m@]
                &&& final(self).surfaces@ == old(self).surfaces@
                &&& final(self).spare_ids@ == old(self).spare_ids@
                &&& final(self).pending_syncs@ == old(self).pending_syncs@
            },
            !(old(self).collecting && is_registry_global(registry_view(*old(self)), m@)) ==> {
                &&& views(r.to_client@) == announcement_out(registry_view(*old(self)), m@)
                    + event_route(*old(self), m@)
                &&& final(self).surfaces@ == surfaces_after_event(*old(self), m@)
                &&& final(self).spare_ids@ == spare_after_event(*old(self), m@)
                &&& final(self).pending_syncs@ == pending_after_event(*old(self), m@)
            },
    {
        let ghost r0 = registry_view(*self);
        if self.collecting {
            let reg = match self.registry_id {
                Some(r) => r,
                None => 0,
            };
            if reg == m.object_id && m.opcode == REGISTRY_GLOBAL {
                match read_global(&m.payload) {
                    Some((name, interface, version)) => {
                        let ghost before = self.advertised@;
                        self.advertised.push(AdvertisedGlobal { name, interface, version });
                        assert(global_views(self.advertised@) =~= global_views(before).push(
                            global_of(m.payload@).unwrap(),
                        ));
                    },
                    None => {},
                }
                assert(registry_view(*self) == registry_step(r0, m@));
                return Routed { to_compositor: new_empty(), to_client: single(copy_message(m)) };
            }
            self.collecting = false;
            let mut to_client: Vec<Message> = Vec::new();
            if !contains_layer_shell(&self.advertised) {
                self.injected = true;
                to_client.push(make_injected_global_event(reg));
            } else {
                self.injected = false;
            }
            let ghost prefix = views(to_client@);
            assert(prefix =~= announcement_out(r0, m@));
            assert(registry_view(*self) == registry_step(r0, m@));
            let mut rest = self.route_event(m);
            let ghost rest_v = views(rest@);
            to_client.append(&mut rest);
            assert(views(to_client@) =~= prefix + rest_v);
            return Routed { to_compositor: new_empty(), to_client };
        }
        let to_client = self.route_event(m);
        assert(views(to_client@) =~= announcement_out(r0, m@) + event_route(*old(self), m@));
        Routed { to_compositor: new_empty(), to_client }
    }
}

/// The registry as followed after a stream of compositor messages.
pub open spec fn registry_run(r: RegistryView, ms: Seq<MessageView>) -> RegistryView
    decreases ms.len(),
{
    if ms.len() == 0 {
        r
    } else {
        registry_run(registry_step(r, ms[0]), ms.drop_first())
    }
}

/// What the application receives of the registry over a stream of
/// compositor messages.
pub open spec fn announcements(r: RegistryView, ms: Seq<MessageView>) -> Seq<MessageView>
    decreases ms.len(),
{
    if ms.len() == 0 {
        Seq::empty()
    } else {
        announcement_out(r, ms[0]) + announcements(registry_step(r, ms[0]), ms.drop_first())
    }
}

/// The globals a stream of `wl_registry.global` events announces.
pub open spec fn globals_of(gs: Seq<MessageView>) -> Seq<GlobalView> {
    gs.map_values(|m: MessageView| global_of(m.payload).unwrap())
}

/// Over the compositor's announcement — globals `gs` on the application's
/// registry, then any other message `e` — the application receives exactly
/// those globals, unchanged and in order, and then the bridge's layer shell
/// if and only if none of the compositor's globals (these and any announced
/// before) is one; the bridge then follows `announced` of the compositor's
/// globals, so the application sees exactly one layer shell.
pub proof fn lemma_stream_announcement(r: RegistryView, gs: Seq<MessageView>, e: MessageView)
    requires
        r.collecting,
        r.registry is Some,
        forall|i: int| 0 <= i < gs.len() ==> is_registry_global(r, #[trigger] gs[i]),
        forall|i: int| 0 <= i < gs.len() ==> (#[trigger] global_of(gs[i].payload)) is Some,
        !is_registry_global(r, e),
    ensures
        ({
            let all = r.advertised + globals_of(gs);
            let end = registry_run(r, gs.push(e));
            &&& announcements(r, gs.push(e)) == gs + (if has_layer_shell(all) {
                Seq::<MessageView>::empty()
            } else {
                seq![injected_global_event(r.registry.unwrap())]
            })
            &&& end.advertised == all
            &&& !end.collecting
            &&& end.injected == !has_layer_shell(all)
            &&& end.registry == r.registry
        }),
    decreases gs.len(),
{
    if gs.len() == 0 {
        assert(gs.push(e) =~= seq![e]);
        assert(r.advertised + globals_of(gs) =~= r.advertised);
        assert(seq![e].drop_first() =~= Seq::<MessageView>::empty());
        let r1 = registry_step(r, e);
        assert(registry_run(r1, Seq::<MessageView>::empty()) == r1);
        assert(announcements(r1, Seq::<MessageView>::empty()) =~= Seq::<MessageView>::empty());
        assert(announcements(r, seq![e]) =~= injection_of(r));
    } else {
        let g = gs[0];
        let r1 = registry_step(r, g);
        assert(r1.advertised == r.advertised.push(global_of(g.payload).unwrap()));
        let rest = gs.drop_first();
        assert forall|i: int| 0 <= i < rest.len() implies is_registry_global(r1, #[trigger] rest[i]) by {
            assert(rest[i] == gs[i + 1]);
        }
        assert forall|i: int| 0 <= i < rest.len() implies (#[trigger] global_of(rest[i].payload)) is Some by {
            assert(rest[i] == gs[i + 1]);
        }
        lemma_stream_announcement(r1, rest, e);
        assert(gs.push(e).drop_first() =~= rest.push(e));
        assert(gs.push(e)[0] == g);
        assert(r1.advertised + globals_of(rest) =~= r.advertised + globals_of(gs));
        assert(gs =~= seq![g] + rest);
    }
}

/// The globals the application sees of a compositor that advertises `gs`,
/// when the bridge injects exactly when `gs` has no layer shell, are
/// `announced(gs)`: with the injection they differ from `gs` by the bridge's
/// layer shell, which is then the only one.
pub proof fn lemma_injection_completes_announcement(gs: Seq<GlobalView>)
    ensures
        !has_layer_shell(gs) ==> announced(gs) == gs.push(injected_global()),
        has_layer_shell(gs) ==> announced(gs) == gs,
{
}

/// Applications see every global the compositor advertises, unchanged and
/// in order, and exactly one layer shell when the compositor has none: the
/// bridge's own, announced last under name 1000.
pub proof fn lemma_announcement(gs: Seq<GlobalView>)
    ensures
        announced(gs).subrange(0, gs.len() as int) == gs,
        has_layer_shell(announced(gs)),
        has_layer_shell(gs) ==> announced(gs) == gs,
        !has_layer_shell(gs) ==> {
            &&& announced(gs).len() == gs.len() + 1
            &&& announced(gs).last() == injected_global()
            &&& announced(gs).last().name == 1000
            &&& forall|i: int|
                0 <= i < announced(gs).len() && #[trigger] announced(gs)[i].interface
                    == layer_shell_interface() ==> i == gs.len()
        },
{
    if has_layer_shell(gs) {
        assert(announced(gs).subrange(0, gs.len() as int) =~= gs);
    } else {
        let a = announced(gs);
        assert(a.subrange(0, gs.len() as int) =~= gs);
        assert(a[gs.len() as int].interface == layer_shell_interface());
        assert forall|i: int|
            0 <= i < a.len() && #[trigger] a[i].interface == layer_shell_interface() implies i
            == gs.len() by {
            if i < gs.len() {
                assert(gs[i].interface == layer_shell_interface());
            }
        }
    }
}

/// Once the bridge has announced its own layer shell, binds of name 1000
/// never reach the compositor as binds; binds of other names always do.
pub proof fn lemma_bind_interception(p: Seq<u8>)
    ensures
        word_at(p, 0) == Some(INJECTED_LAYER_SHELL_NAME) ==> is_intercepted_bind(true, p),
        word_at(p, 0) != Some(INJECTED_LAYER_SHELL_NAME) ==> !is_intercepted_bind(true, p),
        !is_intercepted_bind(false, p),
{
}

/// A translated layer surface starts with `get_xdg_surface` (a 16-byte
/// message: header, new id, surface) on the application's `xdg_wm_base` and
/// `get_toplevel` (12 bytes) on that new `xdg_surface`; only a background
/// surface adds a fullscreen request, on the output the application named,
/// or with no output (the compositor's choice) when it named none.
pub proof fn lemma_translation_shape(wm_base: u32, xdg: XdgObjects, surface: u32, output: u32, layer: u32)
    ensures
        ({
            let t = translation(wm_base, xdg, surface, output, layer);
            &&& t[0] == get_xdg_surface_request(wm_base, xdg.xdg_surface_id, surface)
            &&& crate::proxy::wire::encoding(t[0]).len() == 16
            &&& t[1] == get_toplevel_request(xdg.xdg_surface_id, xdg.toplevel_id)
            &&& crate::proxy::wire::encoding(t[1]).len() == 12
            &&& layer == LAYER_BACKGROUND ==> t.len() == 3 && t[2] == set_fullscreen_request(
                xdg.toplevel_id,
                output,
            )
            &&& layer != LAYER_BACKGROUND ==> t.len() == 2
        }),
        chosen_output(output) == if output == 0 {
            None
        } else {
            Some(output)
        },
{
}

/// The objects a linked layer surface gets on the compositor use only ids
/// the application has handed out: its `xdg_surface` the layer surface's
/// own new id, its `xdg_toplevel` an id the application holds for a binding
/// of the bridge's layer shell or an unlinked layer surface, objects the
/// compositor never sees.
pub proof fn lemma_toplevel_id_reserved(s: BridgeState)
    requires
        s.wf(),
        can_link(s),
    ensures
        is_reserved(s, s.spare_ids@.last()),
{
    assert(s.spare_ids@.last() == s.spare_ids@[s.spare_ids@.len() - 1]);
}

/// Every layer surface the bridge keeps is on one of the four layers.
pub proof fn lemma_layers_valid(s: BridgeState, i: int)
    requires
        s.wf(),
        0 <= i < s.surfaces@.len(),
    ensures
        s.surfaces@[i].layer <= LAYER_OVERLAY,
{
}

/// Whether a new layer surface gets its `xdg_surface` and `xdg_toplevel` on
/// the compositor depends on nothing but the application's `xdg_wm_base`
/// binding and a spare id at hand: two states that agree on those agree on
/// it, whatever sync callbacks are still outstanding. The compositor's
/// answers to those callbacks (`done`, then the release of the id) keep every
/// spare id, so a state that could link still can afterwards.
pub proof fn lemma_link_condition(s: BridgeState, t: BridgeState, m: MessageView)
    ensures
        can_link(s) <==> (s.wm_base_id is Some && s.spare_ids@.len() > 0),
        s.wm_base_id == t.wm_base_id && s.spare_ids@ == t.spare_ids@ ==> can_link(s) == can_link(t),
        (event_kind(s, m) == 1 || event_kind(s, m) == 2) ==> spare_after_event(s, m) == s.spare_ids@,
        can_link(s) && (event_kind(s, m) == 1 || event_kind(s, m) == 2) && t.wm_base_id
            == s.wm_base_id && t.spare_ids@ == spare_after_event(s, m) ==> can_link(t),
{
}

/// A `set_size(width, height)` on a layer surface with compositor objects
/// becomes exactly the size limits `set_min_size(width, height)` and then
/// `set_max_size(width, height)` on its `xdg_toplevel`, for every size that
/// `xdg_toplevel` can express: a side of 0, which the layer surface leaves to
/// the compositor, stays unlimited on the toplevel.
pub proof fn lemma_set_size_limits(d: LayerSurfaceData, x: XdgObjects, w: u32, h: u32)
    requires
        d.xdg == Some(x),
        w <= MAX_TOPLEVEL_SIZE,
        h <= MAX_TOPLEVEL_SIZE,
    ensures
        layer_surface_translation(
            d,
            mview(d.layer_surface_id, LAYER_SURFACE_SET_SIZE, le_bytes(w) + le_bytes(h)),
        ) == seq![set_min_size_request(x.toplevel_id, w, h), set_max_size_request(x.toplevel_id, w, h)],
{
    let p = le_bytes(w) + le_bytes(h);
    lemma_le_roundtrip(w);
    lemma_le_roundtrip(h);
    assert(le_value(p, 0) == le_value(le_bytes(w), 0));
    assert(le_value(p, 4) == le_value(le_bytes(h), 0));
    assert(word_at(p, 0) == Some(w));
    assert(word_at(p, 4) == Some(h));
}

/// The other requests on a layer surface with compositor objects: its
/// `destroy` destroys the `xdg_toplevel` and then the `xdg_surface`; its
/// `ack_configure(serial)` acknowledges that serial on the `xdg_surface` once
/// the compositor has configured it, and stays with the bridge before.
pub proof fn lemma_layer_surface_requests(d: LayerSurfaceData, x: XdgObjects, serial: u32)
    requires
        d.xdg == Some(x),
    ensures
        layer_surface_translation(d, mview(d.layer_surface_id, LAYER_SURFACE_DESTROY, Seq::empty()))
            == seq![destroy_request(x.toplevel_id), destroy_request(x.xdg_surface_id)],
        d.configured ==> layer_surface_translation(
            d,
            mview(d.layer_surface_id, LAYER_SURFACE_ACK_CONFIGURE, le_bytes(serial)),
        ) == seq![xdg_ack_configure_request(x.xdg_surface_id, serial)],
        !d.configured ==> layer_surface_translation(
            d,
            mview(d.layer_surface_id, LAYER_SURFACE_ACK_CONFIGURE, le_bytes(serial)),
        ).len() == 0,
{
    lemma_le_roundtrip(serial);
    assert(word_at(le_bytes(serial), 0) == Some(serial));
}

/// An event on an object the bridge made on the compositor never reaches the
/// application as it is: of an `xdg_toplevel`'s events only `close` comes
/// through, as `closed` on its layer surface, and of an `xdg_surface`'s only
/// `configure`, as `configure` on its layer surface (with the size of the
/// toplevel's latest `configure`); everything else on them stays with the
/// bridge. The answer to one of the bridge's sync callbacks, and the release
/// of an id the bridge holds, never reach the application either.
pub proof fn lemma_bridge_objects_hidden(s: BridgeState, m: MessageView)
    ensures
        s.pending_syncs@.contains(m.object_id) && m.opcode == CALLBACK_DONE ==> event_route(s, m).len() == 0,
        is_delete_id(m) && (s.pending_syncs@.contains(deleted_id(m)) || is_reserved(s, deleted_id(m)))
            && !has_toplevel(s.surfaces@, m.object_id) && !has_xdg_surface(s.surfaces@, m.object_id)
            ==> event_route(s, m).len() == 0,
        has_toplevel(s.surfaces@, m.object_id) ==> {
            let d = s.surfaces@[toplevel_index(s.surfaces@, m.object_id)];
            ||| event_route(s, m).len() == 0
            ||| m.opcode == TOPLEVEL_CLOSE && event_route(s, m) == seq![layer_closed_event(d.layer_surface_id)]
        },
        has_xdg_surface(s.surfaces@, m.object_id) && !has_toplevel(s.surfaces@, m.object_id) ==> {
            let d = s.surfaces@[xdg_surface_index(s.surfaces@, m.object_id)];
            ||| event_route(s, m).len() == 0
            ||| m.opcode == XDG_SURFACE_CONFIGURE && event_route(s, m) == seq![
                layer_configure_event(d.layer_surface_id, word_at(m.payload, 0).unwrap(), d.width, d.height),
            ]
        },
{
}

} // verus!
