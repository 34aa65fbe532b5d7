//! A codec between an application's values and the Redis Serialization
//! Protocol (RESP2 and RESP3).
//!
//! The encode engine ([`Serializer`]) is push-driven: the owner of a value
//! walks it and calls one method per node. The decode engine
//! ([`Deserializer`]) is pull-driven: the consumer declares what it expects
//! next and receives either a scalar or a bounded accessor for compound data.
//! Every method states in its contract the exact bytes it writes or accepts,
//! over the wire grammar of the `wire` module.

mod de;
mod error;
mod resp;
mod ser;
mod text;
pub mod walk;
pub mod wire;

pub use de::{Deserializer, EnumDeserializer, LengthSeqVisitor};
pub use error::{Error, Fault};
pub use resp::{Reading, RespDataKind};
pub use ser::Serializer;

