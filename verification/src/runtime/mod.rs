//! What happens around a frame: which images stay, which are loaded, and when to draw.

pub mod effects;
pub mod frame_laws;
pub mod image_layer;
pub mod klipy;
pub mod media_runtime;
pub mod placement;
pub mod redraw;
pub mod redraw_gate;
pub mod request_laws;
pub mod scheduler;
pub mod slices;
