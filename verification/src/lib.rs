//! A resilient line-protocol client core for the Open Glider Network:
//! a bounded CR LF frame codec and the supervision rules of one
//! long-lived connection.

pub mod actor;
pub mod backoff;
pub mod buffer;
pub mod codec;
pub mod framing;
pub mod stream;
pub mod text;

pub use actor::{OGNActor, OGNMessage};
pub use codec::{OGNCodec, OGNCodecError};
