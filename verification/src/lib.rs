//! Verified core of a display-streaming server: layers composited onto a canvas, the
//! encoder and capture command lines, the display registry and the control decisions.

pub mod api;
pub mod canvas;
pub mod compositor;
pub mod config;
pub mod display;
pub mod encoder;
pub mod frame;
pub mod process;
pub mod scene;
pub mod source;
pub mod text;
