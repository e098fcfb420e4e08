use crate::ipc::Node;
use vstd::prelude::*;

verus! {

/// Tells that a container of the layout tree has changed.
#[derive(Debug)]
pub struct NodeChangeMsg {
    pub node: Node,
}

} // verus!
