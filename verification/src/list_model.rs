//! What a list tells its observers when its items change.
use vstd::prelude::*;

verus! {

/// At `position`, `removed` items were taken out and `added` items put in.
#[derive(PartialEq, Eq, Structural, Clone, Copy, Debug)]
pub struct ItemsChanged {
    pub position: u32,
    pub removed: u32,
    pub added: u32,
}

/// The change that one item removed at `position` makes.
pub open spec fn one_removed(position: u32) -> ItemsChanged {
    ItemsChanged { position, removed: 1, added: 0 }
}

/// The change that one item added at `position` makes.
pub open spec fn one_added(position: u32) -> ItemsChanged {
    ItemsChanged { position, removed: 0, added: 1 }
}

/// The value of a property of a list.
#[derive(PartialEq, Eq, Structural, Clone, Copy, Debug)]
pub enum PropertyValue {
    UInt(u32),
    Boolean(bool),
}

} // verus!
