//! Merges many raster images into one large canvas laid out as a grid.
//!
//! Images are flat buffers of 8-bit channels. A merger owns a canvas whose
//! size is derived from the grid geometry, places images slot by slot, and
//! writes every row of the canvas from exactly one task, so that parallel
//! writers never share a byte.
pub mod cell;
pub mod fixed;
pub mod functions;
pub mod geometry;
pub mod image;
pub mod merger;
pub mod raster;
pub mod resize;
mod rows;

pub use crate::cell::Handout;
pub use crate::cell::ImageCell;
pub use crate::fixed::FixedSizeMerger;
pub use crate::functions::paste;
pub use crate::functions::resize_nearest_neighbor;
pub use crate::geometry::GridLayout;
pub use crate::geometry::Padding;
pub use crate::geometry::Point;
pub use crate::image::Image;
pub use crate::merger::GridModel;
pub use crate::merger::KnownSizeMerger;
pub use crate::merger::Merger;
pub use crate::merger::PushError;
pub use crate::raster::Raster;
pub use crate::resize::resize_bulk_push;
pub use crate::resize::resize_push;
