//! The cell of the linked chain, shared by every queue variant.

use vstd::prelude::*;

verus! {

/// One cell of the chain: an optional payload and the link to the cell
/// behind it.
///
/// A link is the successor's identifier in the memory that holds the chain;
/// `None` is the null link.
pub struct Node<T> {
    pub item: Option<T>,
    pub next: Option<usize>,
}

impl<T> Node<T> {
    /// A cell that carries `item` and is linked to nothing.
    pub fn new(item: T) -> (n: Self)
        ensures
            n.item == Some(item),
            n.next.is_none(),
    {
        Node { item: Some(item), next: None }
    }

    /// A cell without payload, linked to nothing: a sentinel.
    pub fn new_empty() -> (n: Self)
        ensures
            n.item.is_none(),
            n.next.is_none(),
    {
        Node { item: None, next: None }
    }
}

/// Where a cell stands in its life.
///
/// A cell is `Fresh` from its allocation until the link that attaches it,
/// `Linked` while it is the sentinel or waits behind it, `Detached` from the
/// head advance that moves the sentinel past it, `Retired` once it was handed
/// to a deferring reclamation policy, and `Freed` when it was released.
#[derive(Clone, Copy, PartialEq, Eq, Debug, Structural)]
pub enum Life {
    Fresh,
    Linked,
    Detached,
    Retired,
    Freed,
}

} // verus!
