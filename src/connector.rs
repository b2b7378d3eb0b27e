use vstd::prelude::*;

use std::sync::Arc;

use crate::relation::{ReactiveRelationInstance, RelationInstanceView};

verus! {

/// A behaviour attached to one relation instance, built by a construction
/// function taken from the registry.
pub struct Connector<F> {
    pub relation_instance: Arc<ReactiveRelationInstance>,
    pub function: F,
}

/// The mathematical value of a connector: the instance it is bound to and the
/// function that built it.
pub ghost struct ConnectorView<F> {
    pub relation: RelationInstanceView,
    pub function: F,
}

impl<F> View for Connector<F> {
    type V = ConnectorView<F>;

    open spec fn view(&self) -> ConnectorView<F> {
        ConnectorView { relation: self.relation_instance@, function: self.function }
    }
}

impl<F> Connector<F> {
    /// Binds a connector to `relation_instance` through `function`.
    pub fn from_relation(relation_instance: Arc<ReactiveRelationInstance>, function: F) -> (r: Self)
        ensures
            r@ == (ConnectorView { relation: relation_instance@, function }),
    {
        Connector { relation_instance, function }
    }
}

} // verus!
