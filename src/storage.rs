use vstd::prelude::*;

use std::sync::Arc;

use crate::connector::{Connector, ConnectorView};
use crate::edge_key::{EdgeKey, EdgeKeyView};
use crate::keyed::{
    keys_unique, lemma_to_map_absent, lemma_to_map_index, lemma_to_map_len, lemma_to_map_push,
    lemma_to_map_remove, to_map,
};

verus! {

/// The index of attached connectors, keyed by edge identity. It holds at most
/// one connector per key.
pub struct ConnectorStorage<F> {
    entries: Vec<(EdgeKey, Arc<Connector<F>>)>,
}

impl<F> ConnectorStorage<F> {
    spec fn entry_views(&self) -> Seq<(EdgeKeyView, ConnectorView<F>)> {
        self.entries@.map_values(|e: (EdgeKey, Arc<Connector<F>>)| (e.0@, e.1@))
    }

    /// No key is stored twice.
    pub closed spec fn wf(&self) -> bool {
        keys_unique(self.entry_views())
    }

    /// The storage as a map from edge key to connector.
    pub closed spec fn view(&self) -> Map<EdgeKeyView, ConnectorView<F>> {
        to_map(self.entry_views())
    }

    /// An empty storage.
    pub fn new() -> (r: Self)
        ensures
            r.wf(),
            r.view() == Map::<EdgeKeyView, ConnectorView<F>>::empty(),
    {
        let r = ConnectorStorage { entries: Vec::new() };
        assert(r.view() =~= Map::<EdgeKeyView, ConnectorView<F>>::empty());
        r
    }

    /// Where `key` is stored, the position of its entry.
    fn position(&self, key: &EdgeKey) -> (r: Option<usize>)
        requires
            self.wf(),
        ensures
            match r {
                Some(i) => i < self.entries@.len() && self.entry_views()[i as int].0 == key@,
                None => !self.view().contains_key(key@),
            },
    {
        let mut i: usize = 0;
        while i < self.entries.len()
            invariant
                i <= self.entries@.len(),
                forall|j: int| 0 <= j < i ==> #[trigger] self.entry_views()[j].0 != key@,
            decreases self.entries@.len() - i,
        {
            assert(self.entry_views()[i as int].0 == self.entries@[i as int].0@);
            if self.entries[i].0.same_as(key) {
                return Some(i);
            }
            i = i + 1;
        }
        proof {
            lemma_to_map_absent(self.entry_views(), key@);
        }
        None
    }

    /// Whether a connector is stored under `key`.
    pub fn contains_key(&self, key: &EdgeKey) -> (r: bool)
        requires
            self.wf(),
        ensures
            r == self.view().contains_key(key@),
    {
        match self.position(key) {
            Some(i) => {
                proof {
                    lemma_to_map_index(self.entry_views(), i as int);
                }
                true
            },
            None => false,
        }
    }

    /// The connector stored under `key`, if any.
    pub fn get(&self, key: &EdgeKey) -> (r: Option<&Arc<Connector<F>>>)
        requires
            self.wf(),
        ensures
            match r {
                Some(c) => self.view().contains_key(key@) && self.view()[key@] == c@,
                None => !self.view().contains_key(key@),
            },
    {
        match self.position(key) {
            Some(i) => {
                proof {
                    lemma_to_map_index(self.entry_views(), i as int);
                }
                Some(&self.entries[i].1)
            },
            None => None,
        }
    }

    /// The number of stored connectors.
    pub fn len(&self) -> (r: usize)
        requires
            self.wf(),
        ensures
            r == self.view().len(),
    {
        proof {
            lemma_to_map_len(self.entry_views());
        }
        self.entries.len()
    }

    /// Removes the connector stored under `key`; nothing happens where there
    /// is none.
    pub fn remove(&mut self, key: &EdgeKey)
        requires
            old(self).wf(),
        ensures
            final(self).wf(),
            final(self).view() == old(self).view().remove(key@),
    {
        match self.position(key) {
            Some(i) => {
                let ghost before = self.entry_views();
                self.entries.remove(i);
                proof {
                    assert(self.entry_views() =~= before.remove(i as int));
                    lemma_to_map_remove(before, i as int);
                }
            },
            None => {
                assert(self.view() =~= self.view().remove(key@));
            },
        }
    }

    /// Stores `connector` under `key`, replacing the one stored there before.
    pub fn insert(&mut self, key: EdgeKey, connector: Arc<Connector<F>>)
        requires
            old(self).wf(),
        ensures
            final(self).wf(),
            final(self).view() == old(self).view().insert(key@, connector@),
    {
        self.remove(&key);
        let ghost before = self.entry_views();
        let ghost k = key@;
        let ghost c = connector@;
        self.entries.push((key, connector));
        proof {
            assert(self.entry_views() =~= before.push((k, c)));
            lemma_to_map_push(before, k, c);
        }
    }
}

/// A fresh, empty connector storage.
pub fn create_connector_storage<F>() -> (r: ConnectorStorage<F>)
    ensures
        r.wf(),
        r.view() == Map::<EdgeKeyView, ConnectorView<F>>::empty(),
{
    ConnectorStorage::new()
}

} // verus!
