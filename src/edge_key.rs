use vstd::prelude::*;

verus! {

/// Identity of a directed, typed edge: the source node, the relation type and
/// the target node. Node ids are 128-bit UUIDs held as integers.
pub struct EdgeKey {
    pub outbound_id: u128,
    pub t: String,
    pub inbound_id: u128,
}

/// The mathematical value of an edge key.
pub ghost struct EdgeKeyView {
    pub outbound_id: u128,
    pub t: Seq<char>,
    pub inbound_id: u128,
}

impl View for EdgeKey {
    type V = EdgeKeyView;

    open spec fn view(&self) -> EdgeKeyView {
        EdgeKeyView { outbound_id: self.outbound_id, t: self.t@, inbound_id: self.inbound_id }
    }
}

impl EdgeKey {
    pub fn new(outbound_id: u128, t: String, inbound_id: u128) -> (r: EdgeKey)
        ensures
            r.outbound_id == outbound_id,
            r.t@ == t@,
            r.inbound_id == inbound_id,
    {
        EdgeKey { outbound_id, t, inbound_id }
    }

    /// Exact, total equality of two edge identities.
    pub fn same_as(&self, other: &EdgeKey) -> (r: bool)
        ensures
            r == (self@ == other@),
    {
        self.outbound_id == other.outbound_id && self.inbound_id == other.inbound_id
            && self.t == other.t
    }
}

impl Clone for EdgeKey {
    fn clone(&self) -> (r: Self)
        ensures
            r@ == self@,
    {
        EdgeKey { outbound_id: self.outbound_id, t: self.t.clone(), inbound_id: self.inbound_id }
    }
}

} // verus!
