//! A state list: an ordered collection of items that is mirrored to a text
//! file, one item per line.
//!
//! * [`list::StateList`] is the list as its owner sees it. Its operations
//!   state exactly what they return and how they change the list.
//! * [`shared::SharedStateList`] puts one list behind a reader-writer lock
//!   for many callers. No caller waits: an operation that finds the lock
//!   taken does nothing and answers as an empty list would.
//! * [`access`] states, for each operation, what it does for a caller who
//!   reached the list and for one who was turned away.
//! * [`item`] says what a type must offer to be kept in a list, [`order`]
//!   what an ordering must offer to sort one; [`domain`] holds the ordering
//!   of dotted names by their reversed segments.
//! * [`decimal`] and [`numbers`] give the integers their decimal text.
//! * [`text`] and [`codec`] define the file format, [`sequence`] the
//!   operations on sequences, and [`laws`] what holds between them.
//!
//! The library reads and writes no file. `load` takes what was read, and the
//! save operations return what is to be written.

pub mod access;
pub mod codec;
pub mod decimal;
pub mod domain;
pub mod item;
pub mod laws;
pub mod list;
pub mod numbers;
pub mod order;
pub mod sequence;
pub mod shared;
pub mod text;

pub use domain::ReverseSegments;
pub use item::Item;
pub use item::TextItem;
pub use list::FileWrite;
pub use list::StateList;
pub use order::ItemOrder;
pub use shared::SharedStateList;
