//! Compositing core of a character-grid renderer: draws a scene's nodes, in
//! depth order, into one frame of styled text as a camera sees it.

pub mod compose;
pub mod frame;
pub mod geometry;
pub mod laws;
pub mod model;
pub mod pipeline;
pub mod raster;
pub mod zorder;

pub use geometry::{SUBCELLS, floor_to_cell};
pub use model::{Camera, Cell, Node, Screen};
pub use pipeline::{camera_origin, render_all, screen_anchor};
pub use raster::FrameBuffer;
pub use zorder::z_order;
