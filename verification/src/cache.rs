//! The cache: whole snapshots kept by name.

use crate::assoc::{
    distinct_names, find, has_name, index_of, lemma_map_of_entry, lemma_map_of_len,
    lemma_map_of_names, map_of, named, put, put_entry,
};
use crate::env::Env;
use vstd::prelude::*;

verus! {

/// Snapshots by name, in the order in which the names were first saved. No
/// name occurs twice.
#[derive(Debug)]
pub struct EnvCache {
    pub(crate) envs: Vec<(String, Env)>,
}

impl View for EnvCache {
    type V = Map<Seq<char>, Map<Seq<char>, Seq<char>>>;

    /// The cache as a map from names to snapshots, each snapshot a map from
    /// variable names to values.
    open spec fn view(&self) -> Map<Seq<char>, Map<Seq<char>, Seq<char>>> {
        map_of(self.entries()).map_values(|env: Env| env@)
    }
}

impl EnvCache {
    /// The snapshots in their order, each under its name.
    pub open(crate) spec fn entries(&self) -> Seq<(Seq<char>, Env)> {
        named(self.envs@)
    }

    /// What holds of every cache: no name occurs twice, and each snapshot
    /// is a snapshot.
    #[verifier::type_invariant]
    pub open spec fn well_formed(&self) -> bool {
        &&& distinct_names(self.entries())
        &&& forall|i: int|
            0 <= i < self.entries().len() ==> (#[trigger] self.entries()[i]).1.well_formed()
    }

    /// The cache without snapshots.
    pub fn new() -> (cache: EnvCache)
        ensures
            cache.entries() == Seq::<(Seq<char>, Env)>::empty(),
            cache@ == Map::<Seq<char>, Map<Seq<char>, Seq<char>>>::empty(),
    {
        let cache = EnvCache { envs: Vec::new() };
        assert(cache.entries() =~= Seq::empty());
        assert(cache@ =~= Map::empty());
        cache
    }

    /// The number of snapshots.
    pub fn len(&self) -> (n: usize)
        ensures
            n == self.entries().len(),
            n == self@.len(),
    {
        proof {
            use_type_invariant(self);
            lemma_map_of_len(self.entries());
            assert(self@.dom() =~= map_of(self.entries()).dom());
        }
        self.envs.len()
    }

    /// Keeps `env` under `name`, in place of the snapshot that was kept
    /// under that name if there was one. A name that is already there keeps
    /// its place.
    pub fn insert(&mut self, name: String, env: Env)
        ensures
            final(self).entries() == put(old(self).entries(), name@, env),
            final(self)@ == old(self)@.insert(name@, env@),
    {
        proof {
            use_type_invariant(&*self);
            use_type_invariant(&env);
        }
        let ghost before = self.entries();
        let mut envs: Vec<(String, Env)> = Vec::new();
        std::mem::swap(&mut envs, &mut self.envs);
        put_entry(&mut envs, name, env);
        proof {
            let after = named(envs@);
            assert forall|i: int| 0 <= i < after.len() implies (#[trigger] after[i]).1.well_formed() by {
                if has_name(before, name@) {
                    if i != index_of(before, name@) {
                        assert(after[i] == before[i]);
                    }
                } else if i < before.len() {
                    assert(after[i] == before[i]);
                }
            }
            assert(map_of(after).map_values(|env: Env| env@) =~= map_of(before).map_values(
                |env: Env| env@,
            ).insert(name@, env@));
        }
        self.envs = envs;
    }

    /// The snapshot kept under `name`, `None` where there is none.
    pub fn get(&self, name: &str) -> (r: Option<&Env>)
        ensures
            match r {
                Some(env) => self@.contains_key(name@) && env@ == self@[name@] && *env == map_of(
                    self.entries(),
                )[name@],
                None => !self@.contains_key(name@),
            },
    {
        proof {
            use_type_invariant(self);
            lemma_map_of_names(self.entries());
        }
        find(&self.envs, name)
    }

    /// Whether the cache keeps no snapshot.
    pub fn is_empty(&self) -> (empty: bool)
        ensures
            empty == (self.entries().len() == 0),
            empty == (self@ == Map::<Seq<char>, Map<Seq<char>, Seq<char>>>::empty()),
    {
        let n = self.len();
        proof {
            if self@ == Map::<Seq<char>, Map<Seq<char>, Seq<char>>>::empty() {
                assert(self@.len() == 0);
            }
            if n == 0 {
                assert(self@ =~= Map::<Seq<char>, Map<Seq<char>, Seq<char>>>::empty());
            }
        }
        n == 0
    }

    /// Whether a snapshot is kept under `name`.
    pub fn contains(&self, name: &str) -> (r: bool)
        ensures
            r == self@.contains_key(name@),
    {
        self.get(name).is_some()
    }

    /// The names under which snapshots are kept, in their order.
    pub fn names(&self) -> (r: Vec<String>)
        ensures
            r.len() == self.entries().len(),
            forall|i: int| 0 <= i < r.len() ==> (#[trigger] r[i])@ == self.entries()[i].0,
    {
        let mut out: Vec<String> = Vec::new();
        let mut i: usize = 0;
        while i < self.envs.len()
            invariant
                i <= self.envs.len(),
                out.len() == i,
                forall|j: int| 0 <= j < i ==> (#[trigger] out[j])@ == self.entries()[j].0,
            decreases self.envs.len() - i,
        {
            out.push(self.envs[i].0.clone());
            i += 1;
        }
        out
    }
}

/// Saving under one name twice keeps the second snapshot: the cache is as
/// if only the second had been saved.
pub proof fn lemma_save_overwrites(
    cache: Map<Seq<char>, Map<Seq<char>, Seq<char>>>,
    name: Seq<char>,
    first: Map<Seq<char>, Seq<char>>,
    second: Map<Seq<char>, Seq<char>>,
)
    ensures
        cache.insert(name, first).insert(name, second).contains_key(name),
        cache.insert(name, first).insert(name, second)[name] == second,
        cache.insert(name, first).insert(name, second) == cache.insert(name, second),
{
    assert(cache.insert(name, first).insert(name, second) =~= cache.insert(name, second));
}

impl EnvCache {
    /// Whether `self` and `other` keep the same snapshots under the same
    /// names, in whatever order.
    pub fn same_as(&self, other: &EnvCache) -> (r: bool)
        ensures
            r == (self@ == other@),
    {
        proof {
            use_type_invariant(self);
            use_type_invariant(other);
            lemma_map_of_len(self.entries());
            lemma_map_of_len(other.entries());
            lemma_map_of_names(self.entries());
            assert(self@.dom() =~= map_of(self.entries()).dom());
            assert(other@.dom() =~= map_of(other.entries()).dom());
        }
        if self.envs.len() != other.envs.len() {
            return false;
        }
        let mut i: usize = 0;
        while i < self.envs.len()
            invariant
                i <= self.envs.len(),
                distinct_names(self.entries()),
                forall|j: int|
                    0 <= j < i ==> other@.contains_pair(
                        (#[trigger] self.entries()[j]).0,
                        self.entries()[j].1@,
                    ),
            decreases self.envs.len() - i,
        {
            proof {
                lemma_map_of_entry(self.entries(), i as int);
            }
            match other.get(self.envs[i].0.as_str()) {
                Some(env) => {
                    if !self.envs[i].1.same_as(env) {
                        return false;
                    }
                },
                None => {
                    return false;
                },
            }
            i += 1;
        }
        proof {
            assert forall|name: Seq<char>| #[trigger] self@.contains_key(name) implies other@.contains_pair(
                name,
                self@[name],
            ) by {
                let at = index_of(self.entries(), name);
                lemma_map_of_entry(self.entries(), at);
            }
            assert(self@.dom().subset_of(other@.dom()));
            vstd::set_lib::lemma_subset_equality(self@.dom(), other@.dom());
            assert(self@ =~= other@);
        }
        true
    }
}

} // verus!
