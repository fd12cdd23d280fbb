//! A persistent key-value store kept as an append-only log of commands.
//!
//! The engine holds the bytes of the log and an index from each live key to
//! the offset of the record that last set it. Every mutation appends one
//! record; the index is rebuilt by replaying the log from its first byte.
//!
//! A record is one line of text, ended by a newline. The record of a command
//! that gives a key a value reads `Set(key:"k",value:"v")`, that of a removal
//! `Remove(key:"k")`; the two strings are written and read by `ron`, which
//! escapes what would break the line. The engine appends a record only after
//! it has read it back as the command it stands for.
//!
//! The engine holds the log in memory and touches no file: whoever owns the
//! file hands its bytes over at `open` and writes out what each `set` and
//! `remove` appended.

pub mod codec;
pub mod command;
pub mod error;
pub mod laws;
pub mod log;
pub mod store;

pub use command::Command;
pub use error::KvError;
pub use store::KvStore;

