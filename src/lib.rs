//! Prints the memory layout of class types described by DWARF debug
//! information: field types, names, sizes and byte ranges.
//!
//! The debugging information entries (DIEs) of each compilation unit are
//! held as plain values, in the depth-first order in which DWARF serialises
//! them. Navigation over that tree (children, siblings, type references
//! within a unit and across units) is done here, as are the class filters
//! and the rendering of each class.

pub mod model;
pub mod tree;
pub mod entry;
pub mod filter;
pub mod text;
pub mod layout;
pub mod laws;

pub use model::{AttrValue, ContextEntry, DwarfUnits, Entry, LayoutError, Tag, Unit};
pub use tree::EntryChildrenIterator;
pub use filter::SearchFilter;
pub use layout::{dump_file, render_class};
pub use text::decimal;
