//! A streaming decoder for the GDSII binary layout format.
//!
//! The stream is a sequence of length-prefixed records.  Three independent
//! passes over the raw bytes extract, respectively, the structure (cell)
//! names, a per-cell summary (bounding box and per-layer shape counts), and
//! the full per-cell polygon geometry.

pub mod records;
pub mod text;
pub mod bbox;
pub mod geometry;
pub mod layout;
pub mod names;
pub mod polygons;
pub mod summary;

pub use bbox::BBox;
pub use layout::{GoasperError, Layout};
pub use names::read_gds_cell_names;
pub use polygons::{CellPolygons, Polygon, read_gds_polygons};
pub use records::IoError;
pub use summary::{CellSummary, GdsSummary, LayerCount, read_gds_summary};
pub use text::trim_gds_ascii;
