use vstd::prelude::*;

use std::sync::Arc;

use crate::connector::{Connector, ConnectorView};
use crate::edge_key::{EdgeKey, EdgeKeyView};
use crate::registry::{
    applies, is_best_match, lemma_resolve_best, lemma_resolve_some, resolve_function, resolve_key,
    ConnectorRegistry,
};
use crate::relation::{ReactiveRelationInstance, RelationInstanceView};
use crate::storage::{create_connector_storage, ConnectorStorage};

verus! {

/// The connectors after attaching behaviours to `relation`: where the instance
/// has a key and its type name resolves in `registry`, a connector built by
/// the resolved function is stored under that key, replacing any earlier one;
/// otherwise nothing changes.
pub open spec fn attached<F>(
    connectors: Map<EdgeKeyView, ConnectorView<F>>,
    registry: Map<Seq<char>, F>,
    relation: RelationInstanceView,
) -> Map<EdgeKeyView, ConnectorView<F>> {
    match relation.key {
        Some(k) => match resolve_function(registry, relation.relation_type) {
            Some(f) => connectors.insert(k, ConnectorView { relation, function: f }),
            None => connectors,
        },
        None => connectors,
    }
}

/// The connectors after detaching behaviours from `relation`: the entry under
/// its key goes, if it has a key.
pub open spec fn detached<F>(
    connectors: Map<EdgeKeyView, ConnectorView<F>>,
    relation: RelationInstanceView,
) -> Map<EdgeKeyView, ConnectorView<F>> {
    match relation.key {
        Some(k) => connectors.remove(k),
        None => connectors,
    }
}

/// Attaches connector behaviours to relation instances and detaches them.
pub trait ConnectorRelationBehaviourProvider<F>: Sized {
    /// The provider's internal invariant.
    spec fn wf(&self) -> bool;

    /// The registry of construction functions it resolves type names in.
    spec fn registry_view(&self) -> Map<Seq<char>, F>;

    /// The connectors it has attached, by edge key.
    spec fn connectors_view(&self) -> Map<EdgeKeyView, ConnectorView<F>>;

    /// Attaches a connector to `relation_instance` where its type name resolves.
    fn create_connector(&mut self, relation_instance: Arc<ReactiveRelationInstance>)
        requires
            old(self).wf(),
        ensures
            final(self).wf(),
            final(self).registry_view() == old(self).registry_view(),
            final(self).connectors_view() == attached(
                old(self).connectors_view(),
                old(self).registry_view(),
                relation_instance@,
            ),
    ;

    /// Detaches the connector of `relation_instance`, if it has one.
    fn remove_connector(&mut self, relation_instance: Arc<ReactiveRelationInstance>)
        requires
            old(self).wf(),
        ensures
            final(self).wf(),
            final(self).registry_view() == old(self).registry_view(),
            final(self).connectors_view() == detached(
                old(self).connectors_view(),
                relation_instance@,
            ),
    ;

    /// Detaches the connector stored under `edge_key`, if there is one.
    fn remove_by_key(&mut self, edge_key: EdgeKey)
        requires
            old(self).wf(),
        ensures
            final(self).wf(),
            final(self).registry_view() == old(self).registry_view(),
            final(self).connectors_view() == old(self).connectors_view().remove(edge_key@),
    ;
}

/// The behaviour provider: a registry of construction functions and the
/// connectors attached so far.
pub struct ConnectorRelationBehaviourProviderImpl<F> {
    registry: ConnectorRegistry<F>,
    connectors: ConnectorStorage<F>,
}

impl<F: Copy> ConnectorRelationBehaviourProvider<F> for ConnectorRelationBehaviourProviderImpl<F> {
    closed spec fn wf(&self) -> bool {
        self.registry.wf() && self.connectors.wf()
    }

    closed spec fn registry_view(&self) -> Map<Seq<char>, F> {
        self.registry.view()
    }

    closed spec fn connectors_view(&self) -> Map<EdgeKeyView, ConnectorView<F>> {
        self.connectors.view()
    }

    fn create_connector(&mut self, relation_instance: Arc<ReactiveRelationInstance>) {
        let edge_key = match relation_instance.get_key() {
            Some(k) => k,
            None => {
                return;
            },
        };
        match self.registry.resolve(relation_instance.relation_type().as_str()) {
            Some(function) => {
                let connector = Connector::from_relation(relation_instance, function);
                self.connectors.insert(edge_key, Arc::new(connector));
            },
            None => {},
        }
    }

    fn remove_connector(&mut self, relation_instance: Arc<ReactiveRelationInstance>) {
        match relation_instance.get_key() {
            Some(edge_key) => self.connectors.remove(&edge_key),
            None => {},
        }
    }

    fn remove_by_key(&mut self, edge_key: EdgeKey) {
        if self.connectors.contains_key(&edge_key) {
            self.connectors.remove(&edge_key);
        }
    }
}

impl<F: Copy> ConnectorRelationBehaviourProviderImpl<F> {
    /// A provider that resolves type names in `registry` and has attached no
    /// connector yet.
    pub fn new(registry: ConnectorRegistry<F>) -> (r: Self)
        requires
            registry.wf(),
        ensures
            r.wf(),
            r.registry_view() == registry.view(),
            r.connectors_view() == Map::<EdgeKeyView, ConnectorView<F>>::empty(),
    {
        ConnectorRelationBehaviourProviderImpl { registry, connectors: create_connector_storage() }
    }

    /// The connectors attached so far.
    pub fn connectors(&self) -> (r: &ConnectorStorage<F>)
        requires
            self.wf(),
        ensures
            r.wf(),
            r.view() == self.connectors_view(),
    {
        &self.connectors
    }

    /// Called when a relation instance is added to the graph.
    pub fn add_behaviours(&mut self, relation_instance: Arc<ReactiveRelationInstance>)
        requires
            old(self).wf(),
        ensures
            final(self).wf(),
            final(self).registry_view() == old(self).registry_view(),
            final(self).connectors_view() == attached(
                old(self).connectors_view(),
                old(self).registry_view(),
                relation_instance@,
            ),
    {
        self.create_connector(relation_instance);
    }

    /// Called when a relation instance is removed from the graph.
    pub fn remove_behaviours(&mut self, relation_instance: Arc<ReactiveRelationInstance>)
        requires
            old(self).wf(),
        ensures
            final(self).wf(),
            final(self).registry_view() == old(self).registry_view(),
            final(self).connectors_view() == detached(
                old(self).connectors_view(),
                relation_instance@,
            ),
    {
        self.remove_connector(relation_instance);
    }

    /// Called when an edge is removed from the graph by its key alone.
    pub fn remove_behaviours_by_key(&mut self, edge_key: EdgeKey)
        requires
            old(self).wf(),
        ensures
            final(self).wf(),
            final(self).registry_view() == old(self).registry_view(),
            final(self).connectors_view() == old(self).connectors_view().remove(edge_key@),
    {
        self.remove_by_key(edge_key);
    }
}

/// Attaching behaviours to the same instance twice leaves what attaching
/// once leaves: one connector under its key, built by the latest attach.
pub proof fn lemma_attach_twice<F>(
    connectors: Map<EdgeKeyView, ConnectorView<F>>,
    registry: Map<Seq<char>, F>,
    relation: RelationInstanceView,
)
    ensures
        attached(attached(connectors, registry, relation), registry, relation) == attached(
            connectors,
            registry,
            relation,
        ),
{
    if relation.key is Some && resolve_function(registry, relation.relation_type) is Some {
        let k = relation.key->Some_0;
        let c = ConnectorView {
            relation,
            function: resolve_function(registry, relation.relation_type)->Some_0,
        };
        assert(connectors.insert(k, c).insert(k, c) =~= connectors.insert(k, c));
    }
}

/// An instance without a key is neither attached nor detached.
pub proof fn lemma_no_key_no_effect<F>(
    connectors: Map<EdgeKeyView, ConnectorView<F>>,
    registry: Map<Seq<char>, F>,
    relation: RelationInstanceView,
)
    requires
        relation.key is None,
    ensures
        attached(connectors, registry, relation) == connectors,
        detached(connectors, relation) == connectors,
{
}

/// A type name that is registered exactly resolves to its own function, even
/// where shorter registered names are prefixes of it.
pub proof fn lemma_exact_match_precedence<F>(registry: Map<Seq<char>, F>, name: Seq<char>)
    requires
        registry.contains_key(name),
    ensures
        resolve_function(registry, name) == Some(registry[name]),
{
    assert(name =~= name.subrange(0, name.len() as int));
    assert(applies(registry, name, name));
    assert(is_best_match(registry, name, name));
    lemma_resolve_best(registry, name, name);
}

/// Where a registered name is a prefix of an instance's type name and the
/// instance has a key, attaching stores a connector under that key; where that
/// name is the only one that applies, the connector is built by its function.
pub proof fn lemma_prefix_fallback<F>(
    connectors: Map<EdgeKeyView, ConnectorView<F>>,
    registry: Map<Seq<char>, F>,
    relation: RelationInstanceView,
    prefix: Seq<char>,
)
    requires
        registry.contains_key(prefix),
        prefix.is_prefix_of(relation.relation_type),
        relation.key is Some,
    ensures
        attached(connectors, registry, relation).contains_key(relation.key->Some_0),
        (forall|k: Seq<char>| #[trigger] applies(registry, relation.relation_type, k) ==> k == prefix)
            ==> attached(connectors, registry, relation)[relation.key->Some_0] == (ConnectorView {
            relation,
            function: registry[prefix],
        }),
{
    let t = relation.relation_type;
    assert(applies(registry, t, prefix));
    lemma_resolve_some(registry, t, prefix);
    let best = resolve_key(registry, t)->Some_0;
    if forall|k: Seq<char>| #[trigger] applies(registry, t, k) ==> k == prefix {
        assert(applies(registry, t, best));
        assert(best == prefix);
    }
}

/// Removing by key twice leaves what removing once leaves, and no entry under
/// that key; removing a key that was never attached changes nothing.
pub proof fn lemma_remove_by_key_idempotent<F>(
    connectors: Map<EdgeKeyView, ConnectorView<F>>,
    key: EdgeKeyView,
)
    ensures
        connectors.remove(key).remove(key) == connectors.remove(key),
        !connectors.remove(key).contains_key(key),
        !connectors.contains_key(key) ==> connectors.remove(key) == connectors,
{
    assert(connectors.remove(key).remove(key) =~= connectors.remove(key));
    if !connectors.contains_key(key) {
        assert(connectors.remove(key) =~= connectors);
    }
}

/// Detaching an instance and removing its key have the same effect.
pub proof fn lemma_removals_agree<F>(
    connectors: Map<EdgeKeyView, ConnectorView<F>>,
    relation: RelationInstanceView,
    key: EdgeKeyView,
)
    requires
        relation.key == Some(key),
    ensures
        detached(connectors, relation) == connectors.remove(key),
{
}

} // verus!
