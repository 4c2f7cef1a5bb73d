//! The onion: a base snapshot and, over it, named layers that are active or
//! not.

use crate::assoc::{
    distinct_names, find, has_name, index_of, lemma_map_of_entry, lemma_map_of_len,
    lemma_map_of_names, map_of, named, put, put_entry,
};
use crate::env::{assignment, Env};
use vstd::prelude::*;

verus! {

/// One layer: its name and whether it is active.
#[derive(Debug, PartialEq, Eq)]
pub struct Layer {
    pub name: String,
    pub is_active: bool,
}

/// An onion as a mathematical value: the base as a map from variable names
/// to values, and for each layer's name whether the layer is active.
pub struct OnionModel {
    pub base: Map<Seq<char>, Seq<char>>,
    pub layers: Map<Seq<char>, bool>,
}

/// The onion that `init` makes of a snapshot: that base and no layer.
pub open spec fn initial(base: Map<Seq<char>, Seq<char>>) -> OnionModel {
    OnionModel { base, layers: Map::empty() }
}

/// The onion after `save`: the layer `name` is there and active.
pub open spec fn saved(onion: OnionModel, name: Seq<char>) -> OnionModel {
    OnionModel { base: onion.base, layers: onion.layers.insert(name, true) }
}

/// The onion after the layer `name` was set active or inactive: a layer that
/// is there takes the new state, and no layer is made.
pub open spec fn toggled(onion: OnionModel, name: Seq<char>, active: bool) -> OnionModel {
    if onion.layers.contains_key(name) {
        OnionModel { base: onion.base, layers: onion.layers.insert(name, active) }
    } else {
        onion
    }
}

/// A base snapshot and the layers over it, in the order in which their
/// names were first saved. No layer's name occurs twice.
#[derive(Debug)]
pub struct EnvOnion {
    pub(crate) base: Env,
    pub(crate) layers: Vec<(String, bool)>,
}

impl View for EnvOnion {
    type V = OnionModel;

    /// The onion as a mathematical value, the order of its variables and
    /// layers left out.
    open spec fn view(&self) -> OnionModel {
        OnionModel { base: self.base_env()@, layers: map_of(self.layers()) }
    }
}

impl EnvOnion {
    /// The base snapshot.
    pub open(crate) spec fn base_env(&self) -> Env {
        self.base
    }

    /// The layers in their order, each name with the layer's state.
    pub open(crate) spec fn layers(&self) -> Seq<(Seq<char>, bool)> {
        named(self.layers@)
    }

    /// What holds of every onion: no layer's name occurs twice, and the
    /// base is a snapshot.
    #[verifier::type_invariant]
    pub open spec fn well_formed(&self) -> bool {
        distinct_names(self.layers()) && self.base_env().well_formed()
    }

    /// The onion with `base` as its base and no layer.
    pub fn init(base: Env) -> (onion: EnvOnion)
        ensures
            onion.base_env() == base,
            onion.layers() == Seq::<(Seq<char>, bool)>::empty(),
            onion@ == initial(base@),
    {
        proof {
            use_type_invariant(&base);
        }
        let onion = EnvOnion { base, layers: Vec::new() };
        assert(onion.layers() =~= Seq::empty());
        onion
    }

    /// The base snapshot.
    pub fn base(&self) -> (env: &Env)
        ensures
            *env == self.base_env(),
    {
        &self.base
    }

    /// The number of layers.
    pub fn len(&self) -> (n: usize)
        ensures
            n == self.layers().len(),
            n == self@.layers.len(),
    {
        proof {
            use_type_invariant(self);
            lemma_map_of_len(self.layers());
        }
        self.layers.len()
    }

    /// Whether the layer `name` is active, `None` where there is no such
    /// layer.
    pub fn is_active(&self, name: &str) -> (r: Option<bool>)
        ensures
            match r {
                Some(active) => self@.layers.contains_key(name@) && active == self@.layers[name@],
                None => !self@.layers.contains_key(name@),
            },
    {
        proof {
            use_type_invariant(self);
            lemma_map_of_names(self.layers());
        }
        match find(&self.layers, name) {
            Some(active) => Some(*active),
            None => None,
        }
    }

    /// The layers, in their order.
    pub fn layer_list(&self) -> (r: Vec<Layer>)
        ensures
            r.len() == self.layers().len(),
            forall|i: int|
                0 <= i < r.len() ==> (#[trigger] r[i]).name@ == self.layers()[i].0 && r[i].is_active
                    == self.layers()[i].1,
    {
        let mut out: Vec<Layer> = Vec::new();
        let mut i: usize = 0;
        while i < self.layers.len()
            invariant
                i <= self.layers.len(),
                out.len() == i,
                forall|j: int|
                    0 <= j < i ==> (#[trigger] out[j]).name@ == self.layers()[j].0
                        && out[j].is_active == self.layers()[j].1,
            decreases self.layers.len() - i,
        {
            out.push(Layer { name: self.layers[i].0.clone(), is_active: self.layers[i].1 });
            i += 1;
        }
        out
    }

    /// One line for each variable of the base, in their order: the name,
    /// `=`, the value.
    pub fn export(&self) -> (r: Vec<String>)
        ensures
            r.len() == self.base_env().entries().len(),
            forall|i: int|
                0 <= i < r.len() ==> (#[trigger] r[i])@ == assignment(
                    self.base_env().entries()[i].0,
                    self.base_env().entries()[i].1,
                ),
    {
        self.base.assignments()
    }
}

impl EnvOnion {
    /// Saves the layer `name`: it is there and active afterwards, whatever
    /// it was before. A layer that was there keeps its place.
    pub fn save(&mut self, name: String)
        ensures
            final(self).base_env() == old(self).base_env(),
            final(self).layers() == put(old(self).layers(), name@, true),
            final(self)@ == saved(old(self)@, name@),
    {
        proof {
            use_type_invariant(&*self);
        }
        let mut layers: Vec<(String, bool)> = Vec::new();
        std::mem::swap(&mut layers, &mut self.layers);
        put_entry(&mut layers, name, true);
        self.layers = layers;
    }

    /// Sets the layer `name` active or inactive. Where there is no such
    /// layer nothing changes, and none is made.
    pub fn set_active(&mut self, name: &str, active: bool)
        ensures
            final(self).base_env() == old(self).base_env(),
            final(self).layers() == if has_name(old(self).layers(), name@) {
                put(old(self).layers(), name@, active)
            } else {
                old(self).layers()
            },
            final(self)@ == toggled(old(self)@, name@, active),
    {
        proof {
            use_type_invariant(&*self);
            lemma_map_of_names(self.layers());
        }
        let mut layers: Vec<(String, bool)> = Vec::new();
        std::mem::swap(&mut layers, &mut self.layers);
        if find(&layers, name).is_some() {
            put_entry(&mut layers, name.to_owned(), active);
        }
        self.layers = layers;
    }

    /// Sets the layer `name` inactive; nothing changes where there is no
    /// such layer.
    pub fn deactivate(&mut self, name: &str)
        ensures
            final(self).base_env() == old(self).base_env(),
            final(self).layers() == if has_name(old(self).layers(), name@) {
                put(old(self).layers(), name@, false)
            } else {
                old(self).layers()
            },
            final(self)@ == toggled(old(self)@, name@, false),
    {
        self.set_active(name, false)
    }

    /// Sets the layer `name` active; nothing changes where there is no such
    /// layer.
    pub fn reactivate(&mut self, name: &str)
        ensures
            final(self).base_env() == old(self).base_env(),
            final(self).layers() == if has_name(old(self).layers(), name@) {
                put(old(self).layers(), name@, true)
            } else {
                old(self).layers()
            },
            final(self)@ == toggled(old(self)@, name@, true),
    {
        self.set_active(name, true)
    }
}

/// Setting a layer's state twice is setting it once: a second `deactivate`
/// of one name changes nothing, nor does a second `reactivate`.
pub proof fn lemma_toggle_idempotent(onion: OnionModel, name: Seq<char>, active: bool)
    ensures
        toggled(toggled(onion, name, active), name, active) == toggled(onion, name, active),
{
    if onion.layers.contains_key(name) {
        assert(onion.layers.insert(name, active).insert(name, active) =~= onion.layers.insert(
            name,
            active,
        ));
    }
}

/// Setting the state of a layer that is not there leaves the onion as it
/// was.
pub proof fn lemma_toggle_unknown(onion: OnionModel, name: Seq<char>, active: bool)
    requires
        !onion.layers.contains_key(name),
    ensures
        toggled(onion, name, active) == onion,
{
}

/// Setting a layer's state touches neither the base nor any other layer,
/// and makes no layer.
pub proof fn lemma_toggle_frame(onion: OnionModel, name: Seq<char>, active: bool)
    ensures
        toggled(onion, name, active).base == onion.base,
        toggled(onion, name, active).layers.dom() == onion.layers.dom(),
        forall|other: Seq<char>|
            other != name && onion.layers.contains_key(other) ==> #[trigger] toggled(
                onion,
                name,
                active,
            ).layers[other] == onion.layers[other],
{
    if onion.layers.contains_key(name) {
        assert(onion.layers.insert(name, active).dom() =~= onion.layers.dom());
    }
}

/// A saved layer is active, whatever its state was before, and saving it
/// again changes nothing.
pub proof fn lemma_save_overwrites(onion: OnionModel, name: Seq<char>, active: bool)
    ensures
        saved(onion, name).layers.contains_key(name),
        saved(onion, name).layers[name],
        saved(toggled(onion, name, active), name) == saved(onion, name),
        saved(saved(onion, name), name) == saved(onion, name),
{
    assert(onion.layers.insert(name, true).insert(name, true) =~= onion.layers.insert(name, true));
    if onion.layers.contains_key(name) {
        assert(onion.layers.insert(name, active).insert(name, true) =~= onion.layers.insert(
            name,
            true,
        ));
    }
}

impl EnvOnion {
    /// Whether `self` and `other` have the same base and the same layers in
    /// the same states, in whatever order.
    pub fn same_as(&self, other: &EnvOnion) -> (r: bool)
        ensures
            r == (self@ == other@),
    {
        proof {
            use_type_invariant(self);
            use_type_invariant(other);
            lemma_map_of_len(self.layers());
            lemma_map_of_len(other.layers());
            lemma_map_of_names(self.layers());
        }
        if !self.base.same_as(&other.base) {
            return false;
        }
        if self.layers.len() != other.layers.len() {
            return false;
        }
        let mut i: usize = 0;
        while i < self.layers.len()
            invariant
                i <= self.layers.len(),
                distinct_names(self.layers()),
                forall|j: int|
                    0 <= j < i ==> other@.layers.contains_pair(
                        (#[trigger] self.layers()[j]).0,
                        self.layers()[j].1,
                    ),
            decreases self.layers.len() - i,
        {
            proof {
                lemma_map_of_entry(self.layers(), i as int);
            }
            match other.is_active(self.layers[i].0.as_str()) {
                Some(active) => {
                    if active != self.layers[i].1 {
                        return false;
                    }
                },
                None => {
                    return false;
                },
            }
            i += 1;
        }
        proof {
            assert forall|name: Seq<char>| #[trigger]
                self@.layers.contains_key(name) implies other@.layers.contains_pair(
                name,
                self@.layers[name],
            ) by {
                let at = index_of(self.layers(), name);
                lemma_map_of_entry(self.layers(), at);
            }
            assert(self@.layers.dom().subset_of(other@.layers.dom()));
            vstd::set_lib::lemma_subset_equality(self@.layers.dom(), other@.layers.dom());
            assert(self@.layers =~= other@.layers);
        }
        true
    }
}

} // verus!
