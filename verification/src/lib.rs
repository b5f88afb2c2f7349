//! Lays out a tree of text cells as a block of fixed-width lines.
//!
//! A [`Cell`] is text aligned in its column, text anchored on a point that
//! stacked cells line up on, a row of cells or a stack of cells. Rendering
//! sizes the tree once into a [`Graticule`], then puts it out line by line
//! from a [`Remaining`] mirror of the tree, so that the columns of a row may
//! differ in height.
//!
//! Every function is verified with Verus against the mathematical model of
//! its types. Three things are taken on trust: the display width of text,
//! which comes from `unicode-width`; the side-by-side walk of two column
//! lists, which comes from `itertools`; and that `String::push` appends its
//! character.

pub mod borrowed;
pub mod cell;
pub mod conversions;
pub mod cover;
pub mod graticule;
pub mod laws;
pub mod output;
pub mod psv;
pub mod remaining;
pub mod render;
pub mod shape;
pub mod sizing;
pub mod spacing;
pub mod step;
pub mod text;
pub mod width;
pub mod zip;

pub use borrowed::BorrowedCell;
pub use cell::{Align, Cell};
pub use conversions::Scaled;
pub use graticule::Graticule;
pub use psv::{PsvfError, PsvfErrorKind};
pub use remaining::Remaining;
pub use spacing::{Gap, Spacing, Style};
