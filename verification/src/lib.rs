//! A small query language over in-memory JSON documents.
//!
//! A query is an ordered sequence of selectors; each selector narrows the
//! current value (a key lookup, an array index set, a contiguous range, or an
//! object projection) or fails with a precise diagnostic naming the step that
//! could not be resolved.

pub mod display;
pub mod laws;
pub mod messages;
pub mod range;
pub mod selection;
pub mod types;
pub mod walker;

pub use range::range_selector;
pub use selection::{apply_selector, get_selection, object_projection, selection_defined};
pub use types::{clone_value, InnerInstruction, Selection, Selections, Selector, Value};
pub use walker::array_walker;
