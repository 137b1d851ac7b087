//! A key-value database on a write-ahead log.
//!
//! A server holds databases by name. Each keeps all its keys in memory and logs every
//! change before it makes it, so that the index can be read back from the log. Clients
//! talk to the server over a small binary protocol.
pub mod bench;
pub mod bench_laws;
pub mod checksum;
pub mod client;
pub mod client_laws;
pub mod codec;
pub mod format;
pub mod format_laws;
pub mod index;
pub mod log_laws;
pub mod manager;
pub mod manager_laws;
pub mod protocol;
pub mod protocol_laws;
pub mod request_laws;
pub mod server_laws;
pub mod session;
pub mod session_laws;
pub mod text;
pub mod text_laws;
pub mod wal;
pub mod wal_laws;
pub mod worker;
pub mod worker_laws;

use vstd::prelude::*;

pub use crate::format::fmt_bytes;

verus! {

/// A bound on the size of keys, in bytes. A server goes by the limits that it is given.
pub const MAX_KEY_SIZE: usize = 2 << 20;

/// A bound on the size of values, in bytes. A server goes by the limits that it is given.
pub const MAX_VALUE_SIZE: usize = 24 << 20;

/// The longest name that a database can have, in bytes.
pub const MAX_DB_NAME_LEN: usize = 64;

/// The name of the database that is always there.
pub const DEFAULT_DB_NAME: &'static str = "default";

} // verus!
