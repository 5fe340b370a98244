//! The columns that can be queried across downloads (`d.*` operations).
use vstd::prelude::*;
use crate::column::{ColumnDescriptor, TypeTag};

verus! {

/// Infohash of the torrent.
pub fn hash() -> (r: ColumnDescriptor)
    ensures
        r.name@ == "d.hash"@,
        r.tag == TypeTag::Text,
{
    ColumnDescriptor::new("d.hash", TypeTag::Text)
}

/// Whether the torrent is active.
pub fn is_active() -> (r: ColumnDescriptor)
    ensures
        r.name@ == "d.is_active"@,
        r.tag == TypeTag::Bool,
{
    ColumnDescriptor::new("d.is_active", TypeTag::Bool)
}

/// Unstructured error messages, from rtorrent or forwarded from the tracker.
pub fn message() -> (r: ColumnDescriptor)
    ensures
        r.name@ == "d.message"@,
        r.tag == TypeTag::Text,
{
    ColumnDescriptor::new("d.message", TypeTag::Text)
}

/// Name of the torrent.
pub fn name() -> (r: ColumnDescriptor)
    ensures
        r.name@ == "d.name"@,
        r.tag == TypeTag::Text,
{
    ColumnDescriptor::new("d.name", TypeTag::Text)
}

/// Upload/download ratio of the download.
pub fn ratio() -> (r: ColumnDescriptor)
    ensures
        r.name@ == "d.ratio"@,
        r.tag == TypeTag::Float,
{
    ColumnDescriptor::new("d.ratio", TypeTag::Float)
}

/// Size in bytes of the torrent's contents.
pub fn size_bytes() -> (r: ColumnDescriptor)
    ensures
        r.name@ == "d.size_bytes"@,
        r.tag == TypeTag::Int,
{
    ColumnDescriptor::new("d.size_bytes", TypeTag::Int)
}

} // verus!
