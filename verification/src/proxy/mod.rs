//! The layer-shell bridge: the wire format, the messages it reads and
//! writes, the state of each proxied connection, and the accept loop.

pub mod args;
pub mod event_loop;
pub mod globals;
pub mod protocol;
pub mod session;
pub mod wire;

pub use globals::{
    CompositorGlobal, DataDeviceManagerGlobal, LayerShellGlobal, OutputGlobal, SeatGlobal,
    ShmGlobal, SubcompositorGlobal,
};
pub use session::{BridgeState, LayerSurfaceData};
