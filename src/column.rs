use vstd::prelude::*;

verus! {

/// The static type that a column's wire values are decoded into.
#[derive(Clone, Copy, Debug, PartialEq, Eq, Structural)]
pub enum TypeTag {
    Text,
    Int,
    Float,
    Bool,
}

/// One queryable attribute: the remote operation's name and the type of its values.
#[derive(Clone, Debug, PartialEq)]
pub struct ColumnDescriptor {
    pub name: String,
    pub tag: TypeTag,
}

impl ColumnDescriptor {
    pub fn new(name: &str, tag: TypeTag) -> (r: ColumnDescriptor)
        ensures
            r.name@ == name@,
            r.tag == tag,
    {
        ColumnDescriptor { name: String::from_str(name), tag }
    }
}

} // verus!
