use vstd::prelude::*;

use crate::keyed::{
    keys_unique, lemma_to_map_absent, lemma_to_map_index, lemma_to_map_push,
    lemma_to_map_remove, to_map,
};

verus! {

/// Registry key `k` applies to a relation of type `relation_type`: it is
/// registered and `relation_type` starts with it (an exact name is a prefix too).
pub open spec fn applies<F>(registry: Map<Seq<char>, F>, relation_type: Seq<char>, k: Seq<char>) -> bool {
    registry.contains_key(k) && k.is_prefix_of(relation_type)
}

/// `k` is the longest registry key that applies to `relation_type`.
pub open spec fn is_best_match<F>(
    registry: Map<Seq<char>, F>,
    relation_type: Seq<char>,
    k: Seq<char>,
) -> bool {
    &&& applies(registry, relation_type, k)
    &&& forall|k2: Seq<char>| #[trigger]
        applies(registry, relation_type, k2) ==> k2.len() <= k.len()
}

/// The registry key that a type name resolves to: the longest key that is a
/// prefix of the name, so an exact match always wins; none where no key applies.
pub open spec fn resolve_key<F>(registry: Map<Seq<char>, F>, relation_type: Seq<char>) -> Option<
    Seq<char>,
> {
    if exists|k: Seq<char>| is_best_match(registry, relation_type, k) {
        Some(choose|k: Seq<char>| is_best_match(registry, relation_type, k))
    } else {
        None
    }
}

/// The construction function that a type name resolves to.
pub open spec fn resolve_function<F>(registry: Map<Seq<char>, F>, relation_type: Seq<char>) -> Option<F> {
    match resolve_key(registry, relation_type) {
        Some(k) => Some(registry[k]),
        None => None,
    }
}

/// Two keys that are both prefixes of one name are ordered by length.
pub proof fn lemma_prefixes_ordered(a: Seq<char>, b: Seq<char>, t: Seq<char>)
    requires
        a.is_prefix_of(t),
        b.is_prefix_of(t),
        a.len() <= b.len(),
    ensures
        a.is_prefix_of(b),
        a.len() == b.len() ==> a == b,
{
    assert(a =~= b.subrange(0, a.len() as int));
    if a.len() == b.len() {
        assert(a =~= b);
    }
}

/// At most one key is the best match of a name.
pub proof fn lemma_best_match_unique<F>(
    registry: Map<Seq<char>, F>,
    relation_type: Seq<char>,
    a: Seq<char>,
    b: Seq<char>,
)
    requires
        is_best_match(registry, relation_type, a),
        is_best_match(registry, relation_type, b),
    ensures
        a == b,
{
    assert(applies(registry, relation_type, a));
    assert(applies(registry, relation_type, b));
    lemma_prefixes_ordered(a, b, relation_type);
}

/// A best match, once found, is what `resolve` gives.
pub proof fn lemma_resolve_best<F>(registry: Map<Seq<char>, F>, relation_type: Seq<char>, k: Seq<char>)
    requires
        is_best_match(registry, relation_type, k),
    ensures
        resolve_key(registry, relation_type) == Some(k),
        resolve_function(registry, relation_type) == Some(registry[k]),
{
    let c = choose|c: Seq<char>| is_best_match(registry, relation_type, c);
    lemma_best_match_unique(registry, relation_type, c, k);
}

/// Where no key is longer than `n` and some key of at most that length
/// applies, a best match exists.
proof fn lemma_best_match_below<F>(registry: Map<Seq<char>, F>, relation_type: Seq<char>, n: nat)
    requires
        n <= relation_type.len(),
        forall|k: Seq<char>| #[trigger] applies(registry, relation_type, k) ==> k.len() <= n,
        exists|k: Seq<char>| #[trigger] applies(registry, relation_type, k),
    ensures
        exists|k: Seq<char>| is_best_match(registry, relation_type, k),
    decreases n,
{
    let p = relation_type.subrange(0, n as int);
    if registry.contains_key(p) {
        assert(p.is_prefix_of(relation_type));
        assert(applies(registry, relation_type, p));
        assert(is_best_match(registry, relation_type, p));
    } else {
        let w = choose|k: Seq<char>| #[trigger] applies(registry, relation_type, k);
        if w.len() == n {
            assert(w =~= p);
        }
        assert forall|k: Seq<char>| #[trigger] applies(registry, relation_type, k) implies k.len() <= (
        n - 1) as nat by {
            if k.len() == n {
                assert(k =~= p);
            }
        }
        lemma_best_match_below(registry, relation_type, (n - 1) as nat);
    }
}

/// Where some key applies, a name resolves.
pub proof fn lemma_resolve_some<F>(registry: Map<Seq<char>, F>, relation_type: Seq<char>, k: Seq<char>)
    requires
        applies(registry, relation_type, k),
    ensures
        resolve_key(registry, relation_type) is Some,
        is_best_match(registry, relation_type, resolve_key(registry, relation_type)->Some_0),
{
    assert(applies(registry, relation_type, k));
    lemma_best_match_below(registry, relation_type, relation_type.len());
}

/// Relies on `str::starts_with`, documented to return true exactly when the
/// pattern matches a prefix of the string slice.
#[verifier::external_body]
fn starts_with(s: &str, prefix: &str) -> (r: bool)
    ensures
        r == prefix@.is_prefix_of(s@),
{
    s.starts_with(prefix)
}

/// The catalog of connector construction functions, keyed by relation type name.
pub struct ConnectorRegistry<F> {
    entries: Vec<(String, F)>,
}

impl<F: Copy> ConnectorRegistry<F> {
    spec fn entry_views(&self) -> Seq<(Seq<char>, F)> {
        self.entries@.map_values(|e: (String, F)| (e.0@, e.1))
    }

    /// Type names are registered at most once.
    pub closed spec fn wf(&self) -> bool {
        keys_unique(self.entry_views())
    }

    /// The registry as a map from type name to construction function.
    pub closed spec fn view(&self) -> Map<Seq<char>, F> {
        to_map(self.entry_views())
    }

    /// An empty registry.
    pub fn new() -> (r: Self)
        ensures
            r.wf(),
            r.view() == Map::<Seq<char>, F>::empty(),
    {
        let r = ConnectorRegistry { entries: Vec::new() };
        assert(r.view() =~= Map::<Seq<char>, F>::empty());
        r
    }

    /// Where `relation_type` is registered, the position of its entry.
    fn position(&self, relation_type: &String) -> (r: Option<usize>)
        requires
            self.wf(),
        ensures
            match r {
                Some(i) => i < self.entries@.len() && self.entry_views()[i as int].0 == relation_type@,
                None => !self.view().contains_key(relation_type@),
            },
    {
        let mut i: usize = 0;
        while i < self.entries.len()
            invariant
                i <= self.entries@.len(),
                forall|j: int| 0 <= j < i ==> #[trigger] self.entry_views()[j].0 != relation_type@,
            decreases self.entries@.len() - i,
        {
            assert(self.entry_views()[i as int].0 == self.entries@[i as int].0@);
            if self.entries[i].0 == *relation_type {
                return Some(i);
            }
            i = i + 1;
        }
        proof {
            lemma_to_map_absent(self.entry_views(), relation_type@);
        }
        None
    }

    /// Registers `function` under `relation_type`, replacing an earlier registration
    /// of that name.
    pub fn register(&mut self, relation_type: String, function: F)
        requires
            old(self).wf(),
        ensures
            final(self).wf(),
            final(self).view() == old(self).view().insert(relation_type@, function),
    {
        if let Some(i) = self.position(&relation_type) {
            let ghost before = self.entry_views();
            self.entries.remove(i);
            proof {
                assert(self.entry_views() =~= before.remove(i as int));
                lemma_to_map_remove(before, i as int);
            }
        }
        let ghost before = self.entry_views();
        let ghost k = relation_type@;
        self.entries.push((relation_type, function));
        proof {
            assert(self.entry_views() =~= before.push((k, function)));
            lemma_to_map_push(before, k, function);
        }
    }

    /// The construction function for a relation type: that of the longest
    /// registered name that the type name starts with, so an exact
    /// registration wins over a shorter prefix; none where no name applies.
    pub fn resolve(&self, relation_type: &str) -> (r: Option<F>)
        requires
            self.wf(),
        ensures
            r == resolve_function(self.view(), relation_type@),
    {
        let ghost ev = self.entry_views();
        let ghost t = relation_type@;
        let mut best: Option<usize> = None;
        let mut i: usize = 0;
        while i < self.entries.len()
            invariant
                ev == self.entry_views(),
                t == relation_type@,
                i <= self.entries@.len(),
                match best {
                    Some(b) => {
                        &&& b < i
                        &&& ev[b as int].0.is_prefix_of(t)
                        &&& forall|j: int|
                            0 <= j < i && (#[trigger] ev[j]).0.is_prefix_of(t) ==> ev[j].0.len()
                                <= ev[b as int].0.len()
                    },
                    None => forall|j: int| 0 <= j < i ==> !(#[trigger] ev[j]).0.is_prefix_of(t),
                },
            decreases self.entries@.len() - i,
        {
            assert(ev[i as int].0 == self.entries@[i as int].0@);
            if starts_with(relation_type, self.entries[i].0.as_str()) {
                match best {
                    None => {
                        best = Some(i);
                    },
                    Some(b) => {
                        assert(ev[b as int].0 == self.entries@[b as int].0@);
                        if starts_with(self.entries[i].0.as_str(), self.entries[b].0.as_str()) {
                            best = Some(i);
                        } else {
                            proof {
                                if ev[b as int].0.len() <= ev[i as int].0.len() {
                                    lemma_prefixes_ordered(ev[b as int].0, ev[i as int].0, t);
                                }
                            }
                        }
                    },
                }
            }
            i = i + 1;
        }
        match best {
            Some(b) => {
                proof {
                    let k = ev[b as int].0;
                    lemma_to_map_index(ev, b as int);
                    assert forall|k2: Seq<char>| #[trigger]
                        applies(self.view(), t, k2) implies k2.len() <= k.len() by {
                        let j = choose|j: int| 0 <= j < ev.len() && #[trigger] ev[j].0 == k2;
                        assert(ev[j].0.is_prefix_of(t));
                    }
                    assert(is_best_match(self.view(), t, k));
                    lemma_resolve_best(self.view(), t, k);
                }
                Some(self.entries[b].1)
            },
            None => {
                proof {
                    assert forall|k: Seq<char>| !is_best_match(self.view(), t, k) by {
                        if applies(self.view(), t, k) {
                            let j = choose|j: int| 0 <= j < ev.len() && #[trigger] ev[j].0 == k;
                            assert(!ev[j].0.is_prefix_of(t));
                        }
                    }
                }
                None
            },
        }
    }
}

} // verus!
