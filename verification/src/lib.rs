//! A small store of named bookmarks, each a name paired with an offset.
//!
//! The store is an ordered list of records, kept ascending by offset and with
//! at most one record per name. It lives in a backing file, which this
//! library never touches: every operation is a function from the records
//! that were loaded and the operation's arguments to the records to write
//! back and the record to report.
//!
//! - [`offset`] orders the offsets, which are 64-bit binary floating-point
//!   numbers held as their bit patterns.
//! - [`bookmark`] and [`error`] hold the record and the failure.
//! - [`model`] says what each operation makes of a sequence of entries;
//!   [`store`] does it on a list of bookmarks.
//! - [`dispatch`] maps a command line onto one operation.
//! - [`lemmas`], [`stability`] and [`laws`] hold what is proved of the
//!   model.

pub mod bookmark;
pub mod dispatch;
pub mod error;
pub mod laws;
pub mod lemmas;
pub mod model;
pub mod offset;
pub mod stability;
pub mod store;

pub use bookmark::Bookmark;
pub use dispatch::control;
pub use dispatch::Operation;
pub use dispatch::Plan;
pub use dispatch::Request;
pub use error::ErrorKind;
pub use error::ManagerError;
pub use store::add_bookmark;
pub use store::query_bookmark;
pub use store::remove_bookmark;
pub use store::Outcome;
