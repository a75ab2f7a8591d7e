//! Population, selection, highlighting and layout bookkeeping for a graph of
//! identifier nodes joined by connection edges.
//!
//! Every quantity is an integer: positions are in thousandths of a world
//! unit, visual scales are in thousandths, and importance scores are in
//! millionths. Floating-point work (sampling angles, force-directed
//! relaxation, page rank) happens outside this crate and crosses the boundary
//! as these integers.

mod draw;
pub mod highlight;
pub mod layout;
pub mod mapping;
pub mod point;
pub mod ranking;
pub mod reconcile;
pub mod selection;
pub mod store;

pub use highlight::HighlightProjector;
pub use mapping::{sorted_unique, IndexMapping};
pub use point::Point;
pub use ranking::{normalize, rank_scale, SCORE_ONE};
pub use selection::{SelectedIdentifier, SelectionEvent};
pub use store::{
    Configuration, Connection, GraphStore, Highlight, Identifier, SCALE_HALF, SCALE_ONE,
    SPAWN_SCALE,
};
