//! Splits a markdown document into byte-exact sections, one per heading.
//!
//! The document is cut at the start offset of every heading that the
//! markdown parser reports, and at offset zero when content precedes the
//! first heading. Concatenating the sections gives the document back.
pub mod document;
pub mod error;
pub mod laws;
pub mod outline;
pub mod sections;

pub use document::{split, split_outline};
pub use error::SplitError;
pub use outline::{find_split_points, Element};
pub use sections::slice_sections;
