//! Reading the arguments of the requests and events the bridge looks into.

use vstd::prelude::*;
use crate::proxy::wire::{le_value, read_string, read_u32, string_at};

verus! {

/// The word argument at `off`, when the payload holds one there.
pub open spec fn word_at(p: Seq<u8>, off: int) -> Option<u32> {
    if 0 <= off && off + 4 <= p.len() {
        Some(le_value(p, off) as u32)
    } else {
        None
    }
}

/// Reads the word argument at `off`.
pub fn read_word(p: &Vec<u8>, off: usize) -> (r: Option<u32>)
    ensures
        r == word_at(p@, off as int),
{
    if off <= p.len() && p.len() - off >= 4 {
        Some(read_u32(p, off))
    } else {
        None
    }
}

/// Arguments of `wl_registry.bind`: name, interface, version, new id.
pub struct BindArgs {
    pub name: u32,
    pub interface: Vec<u8>,
    pub version: u32,
    pub new_id: u32,
}

/// The arguments of a `wl_registry.bind` payload, if well formed.
pub open spec fn bind_args(p: Seq<u8>) -> Option<(u32, Seq<u8>, u32, u32)> {
    match (word_at(p, 0), string_at(p, 4)) {
        (Some(name), Some((iface, next))) => match (word_at(p, next), word_at(p, next + 4)) {
            (Some(v), Some(id)) => Some((name, iface, v, id)),
            _ => None,
        },
        _ => None,
    }
}

/// Reads the arguments of a `wl_registry.bind`.
pub fn read_bind(p: &Vec<u8>) -> (r: Option<BindArgs>)
    ensures
        match bind_args(p@) {
            Some((n, i, v, id)) => r matches Some(a) && a.name == n && a.interface@ == i
                && a.version == v && a.new_id == id,
            None => r is None,
        },
{
    let name = match read_word(p, 0) {
        Some(n) => n,
        None => return None,
    };
    let (interface, next) = match read_string(p, 4) {
        Some(x) => x,
        None => return None,
    };
    let len = p.len();
    if next > usize::MAX - 4 {
        assert(len <= usize::MAX);
        return None;
    }
    let version = match read_word(p, next) {
        Some(v) => v,
        None => return None,
    };
    let new_id = match read_word(p, next + 4) {
        Some(v) => v,
        None => return None,
    };
    Some(BindArgs { name, interface, version, new_id })
}

/// Arguments of `wl_registry.global`: name, interface, version.
pub open spec fn global_args(p: Seq<u8>) -> Option<(u32, Seq<u8>, u32)> {
    match (word_at(p, 0), string_at(p, 4)) {
        (Some(name), Some((iface, next))) => match word_at(p, next) {
            Some(v) => Some((name, iface, v)),
            None => None,
        },
        _ => None,
    }
}

/// Arguments of `zwlr_layer_shell_v1.get_layer_surface`: new id, surface,
/// output (0 for none), layer, namespace.
pub open spec fn layer_surface_args(p: Seq<u8>) -> Option<(u32, u32, u32, u32, Seq<u8>)> {
    match (word_at(p, 0), word_at(p, 4), word_at(p, 8), word_at(p, 12), string_at(p, 16)) {
        (Some(id), Some(surface), Some(output), Some(layer), Some((ns, _))) => Some(
            (id, surface, output, layer, ns),
        ),
        _ => None,
    }
}

/// Arguments of `zwlr_layer_shell_v1.get_layer_surface`.
pub struct LayerSurfaceArgs {
    pub new_id: u32,
    pub surface: u32,
    pub output: u32,
    pub layer: u32,
    pub namespace: Vec<u8>,
}

/// Reads the arguments of a `wl_registry.global`.
pub fn read_global(p: &Vec<u8>) -> (r: Option<(u32, Vec<u8>, u32)>)
    ensures
        match global_args(p@) {
            Some((n, i, v)) => r matches Some((rn, ri, rv)) && rn == n && ri@ == i && rv == v,
            None => r is None,
        },
{
    let name = match read_word(p, 0) {
        Some(n) => n,
        None => return None,
    };
    let (interface, next) = match read_string(p, 4) {
        Some(x) => x,
        None => return None,
    };
    let version = match read_word(p, next) {
        Some(v) => v,
        None => return None,
    };
    Some((name, interface, version))
}

/// Reads the arguments of a `get_layer_surface`.
pub fn read_layer_surface(p: &Vec<u8>) -> (r: Option<LayerSurfaceArgs>)
    ensures
        match layer_surface_args(p@) {
            Some((id, s, o, l, ns)) => r matches Some(a) && a.new_id == id && a.surface == s
                && a.output == o && a.layer == l && a.namespace@ == ns,
            None => r is None,
        },
{
    let new_id = match read_word(p, 0) {
        Some(v) => v,
        None => return None,
    };
    let surface = match read_word(p, 4) {
        Some(v) => v,
        None => return None,
    };
    let output = match read_word(p, 8) {
        Some(v) => v,
        None => return None,
    };
    let layer = match read_word(p, 12) {
        Some(v) => v,
        None => return None,
    };
    let namespace = match read_string(p, 16) {
        Some((ns, _)) => ns,
        None => return None,
    };
    Some(LayerSurfaceArgs { new_id, surface, output, layer, namespace })
}

/// Compares two byte strings.
pub fn bytes_eq(a: &Vec<u8>, b: &Vec<u8>) -> (r: bool)
    ensures
        r == (a@ == b@),
{
    if a.len() != b.len() {
        return false;
    }
    let mut i: usize = 0;
    while i < a.len()
        invariant
            a@.len() == b@.len(),
            i <= a@.len(),
            forall|j: int| 0 <= j < i ==> a@[j] == b@[j],
        decreases a@.len() - i,
    {
        if a[i] != b[i] {
            return false;
        }
        i = i + 1;
    }
    assert(a@ =~= b@);
    true
}

/// Copies a byte string.
pub fn copy_bytes(a: &Vec<u8>) -> (r: Vec<u8>)
    ensures
        r@ == a@,
{
    let mut r: Vec<u8> = Vec::new();
    let mut i: usize = 0;
    while i < a.len()
        invariant
            i <= a@.len(),
            r@ == a@.subrange(0, i as int),
        decreases a@.len() - i,
    {
        r.push(a[i]);
        i = i + 1;
        assert(r@ =~= a@.subrange(0, i as int));
    }
    assert(r@ =~= a@);
    r
}

} // verus!
