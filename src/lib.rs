//! Typed multicall queries over rtorrent downloads: a builder accumulates
//! columns, one batched request is issued, and each untyped response row is
//! decoded positionally into values of the columns' declared types.

pub mod builder;
pub mod column;
pub mod decode;
pub mod download;
pub mod text;
pub mod wire;

pub use builder::{InvokeError, MultiBuilder, Request, Server, TransportError};
pub use column::{ColumnDescriptor, TypeTag};
pub use decode::DecodeError;
pub use text::Decimal;
pub use wire::{Value, WireValue};
