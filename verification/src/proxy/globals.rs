//! Marker types for the globals an application meets through the bridge:
//! the standard ones, which the compositor provides and the bridge passes
//! through unchanged, and the layer shell, which the bridge provides itself
//! when the compositor lacks it.

use vstd::prelude::*;

verus! {

/// `wl_compositor`, passed through from the compositor.
pub struct CompositorGlobal;

/// `wl_subcompositor`, passed through from the compositor.
pub struct SubcompositorGlobal;

/// `wl_shm`, passed through from the compositor.
pub struct ShmGlobal;

/// `wl_data_device_manager`, passed through from the compositor.
pub struct DataDeviceManagerGlobal;

/// `wl_seat`, passed through from the compositor.
pub struct SeatGlobal;

/// `wl_output`, passed through from the compositor.
pub struct OutputGlobal;

/// `zwlr_layer_shell_v1`, provided by the bridge under name 1000 when the
/// compositor has none.
pub struct LayerShellGlobal;

} // verus!
