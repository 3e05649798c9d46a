//! The verified core of a to-do list.
//!
//! - [`watcher`]: a value that tells its callbacks of every write.
//! - [`record`], [`wire`], [`encode`], [`decode`], [`round_trip`]: the
//!   records that are stored, their JSON text, and the proof that what is
//!   written is read back. [`literal`] holds the string literals, which
//!   `serde_json` writes and reads. [`error`] says why a text is refused.
//! - [`ids`], [`model`], [`workspace`]: the collections and tasks of a run
//!   with their identifiers, and what the user can do to them.
//! - [`filter`], [`present`], [`text`]: which tasks are shown, and the texts
//!   that the window shows.

pub mod decode;
pub mod encode;
pub mod error;
pub mod filter;
pub mod ids;
pub mod literal;
pub mod model;
pub mod present;
pub mod record;
pub mod round_trip;
pub mod text;
pub mod watcher;
pub mod wire;
pub mod workspace;
