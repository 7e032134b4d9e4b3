//! Layout of arbitrary-arity trees as scene graphs of positioned rectangles
//! and connector lines.
//!
//! The library turns an abstract tree (`Node`) into a scene graph of
//! drawables (`Drawable`): one rectangle per tree node, placed by a pair of
//! geometric combinators (`beside_align_top`, `above`), plus one line per
//! parent/child edge (`draw_lines`). All positions are absolute canvas
//! coordinates; every contract is stated over the mathematical view of the
//! scene graph (`DrawView`), whose coordinates are unbounded integers.

pub mod bounds;
pub mod combine;
pub mod connect;
pub mod layout;
pub mod model;
pub mod translate;

pub use bounds::get_bounds;
pub use combine::above;
pub use combine::beside;
pub use combine::beside_align_top;
pub use connect::draw_line;
pub use connect::draw_lines;
pub use layout::draw_nodes;
pub use layout::square;
pub use model::Bounds;
pub use model::Drawable;
pub use model::Node;
pub use model::Shape;
pub use model::Style;
pub use translate::center;
pub use translate::get_center;
pub use translate::move_with_subs;
