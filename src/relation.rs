use vstd::prelude::*;

use crate::edge_key::{EdgeKey, EdgeKeyView};

verus! {

/// The edge key of an optional identity, as a mathematical value.
pub open spec fn key_view(key: Option<EdgeKey>) -> Option<EdgeKeyView> {
    match key {
        Some(k) => Some(k@),
        None => None,
    }
}

/// A live relation instance: an edge of the graph with its type name. Its key
/// is absent while the instance is not yet committed to the graph.
pub struct ReactiveRelationInstance {
    relation_type: String,
    key: Option<EdgeKey>,
}

/// The mathematical value of a relation instance.
pub ghost struct RelationInstanceView {
    pub relation_type: Seq<char>,
    pub key: Option<EdgeKeyView>,
}

impl View for ReactiveRelationInstance {
    type V = RelationInstanceView;

    closed spec fn view(&self) -> RelationInstanceView {
        RelationInstanceView { relation_type: self.relation_type@, key: key_view(self.key) }
    }
}

impl ReactiveRelationInstance {
    pub fn new(relation_type: String, key: Option<EdgeKey>) -> (r: Self)
        ensures
            r@ == (RelationInstanceView { relation_type: relation_type@, key: key_view(key) }),
    {
        ReactiveRelationInstance { relation_type, key }
    }

    /// The instance's type name.
    pub fn relation_type(&self) -> (r: &String)
        ensures
            r@ == self@.relation_type,
    {
        &self.relation_type
    }

    /// The instance's edge key, if it has been assigned one.
    pub fn get_key(&self) -> (r: Option<EdgeKey>)
        ensures
            key_view(r) == self@.key,
    {
        proof {
            assert(self@.key == key_view(self.key));
        }
        match &self.key {
            Some(k) => Some(k.clone()),
            None => None,
        }
    }
}

} // verus!
