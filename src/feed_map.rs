use vstd::prelude::*;
use std::collections::HashMap;
use crate::types::{Node, ParseError};

verus! {

/// The map from the file's wire ids to the handles of the circuit being
/// built. A later definition of an id replaces an earlier one.
pub struct FeedMap {
    map: HashMap<usize, Node>,
}

impl View for FeedMap {
    type V = Map<usize, Node>;

    closed spec fn view(&self) -> Map<usize, Node> {
        self.map@
    }
}

impl FeedMap {
    pub fn new() -> (r: FeedMap)
        ensures
            r@ == Map::<usize, Node>::empty(),
    {
        FeedMap { map: HashMap::new() }
    }

    /// Binds `id` to `node`, replacing any earlier binding of `id`.
    pub fn define(&mut self, id: usize, node: Node)
        ensures
            final(self)@ == old(self)@.insert(id, node),
    {
        self.map.insert(id, node);
    }

    /// The handle bound to `id`; an uninitialized-feed error carrying `id`
    /// when there is none.
    pub fn resolve(&self, id: usize) -> (r: Result<Node, ParseError>)
        ensures
            self@.contains_key(id) ==> r == Ok::<Node, ParseError>(self@[id]),
            !self@.contains_key(id) ==> (r matches Err(ParseError::UninitializedFeed(e)) && e == id),
    {
        match self.map.get(&id) {
            Some(n) => Ok(*n),
            None => Err(ParseError::UninitializedFeed(id)),
        }
    }
}

} // verus!
