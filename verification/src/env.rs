//! Environment snapshots: the variables of a process environment, each name
//! with its value.

use crate::assoc::{
    distinct_names, find, index_of, lemma_map_of_entry, lemma_map_of_len, lemma_map_of_names,
    lemma_mapped, lemma_mapped_put, lemma_put, lemma_put_all, lemma_put_nonempty, map_of, mapped,
    named, names_nonempty, put, put_all, put_entry,
};
use vstd::prelude::*;
use vstd::string::*;

verus! {

/// What a vector of variables lists: each name with its value, as plain
/// sequences.
pub open spec fn var_entries(vars: Seq<(String, String)>) -> Seq<(Seq<char>, Seq<char>)> {
    vars.map_values(|var: (String, String)| (var.0@, var.1@))
}

/// The map from a string to its characters.
pub open spec fn text_view() -> spec_fn(String) -> Seq<char> {
    |value: String| value@
}

/// A vector of variables lists its names with the characters of its values:
/// the names are distinct in one listing where they are in the other, and
/// the maps they list agree value by value.
pub proof fn lemma_var_entries(vars: Seq<(String, String)>)
    ensures
        var_entries(vars) == mapped(named(vars), text_view()),
        distinct_names(var_entries(vars)) == distinct_names(named(vars)),
        map_of(var_entries(vars)) == map_of(named(vars)).map_values(text_view()),
{
    let plain = named(vars);
    assert(var_entries(vars) =~= mapped(plain, text_view()));
    lemma_mapped(plain, text_view());
    if distinct_names(var_entries(vars)) {
        assert forall|i: int, j: int| 0 <= i < j < plain.len() implies (#[trigger] plain[i]).0 != (
        #[trigger] plain[j]).0 by {
            assert(var_entries(vars)[i].0 != var_entries(vars)[j].0);
        }
    }
}

/// The line that assigns `value` to `name`: the name, `=`, the value.
pub open spec fn assignment(name: Seq<char>, value: Seq<char>) -> Seq<char> {
    name + "="@ + value
}

/// The shell line that exports `name` with `value`: `export`, a blank, the
/// name, `=`, and the value between double quotes.
pub open spec fn export_line(name: Seq<char>, value: Seq<char>) -> Seq<char> {
    "export "@ + name + "=\""@ + value + "\""@
}

/// Whether `lines` holds one export line for each variable of `vars`, and
/// nothing else, in some order.
pub open spec fn lists_exports(lines: Seq<String>, vars: Map<Seq<char>, Seq<char>>) -> bool {
    exists|entries: Seq<(Seq<char>, Seq<char>)>|
        {
            &&& distinct_names(entries)
            &&& #[trigger] map_of(entries) == vars
            &&& lines.len() == entries.len()
            &&& forall|i: int|
                0 <= i < lines.len() ==> (#[trigger] lines[i])@ == export_line(
                    entries[i].0,
                    entries[i].1,
                )
        }
}

/// Whether `lines` holds one assignment for each variable of `vars`, and
/// nothing else, in some order.
pub open spec fn lists_assignments(lines: Seq<String>, vars: Map<Seq<char>, Seq<char>>) -> bool {
    exists|entries: Seq<(Seq<char>, Seq<char>)>|
        {
            &&& distinct_names(entries)
            &&& #[trigger] map_of(entries) == vars
            &&& lines.len() == entries.len()
            &&& forall|i: int|
                0 <= i < lines.len() ==> (#[trigger] lines[i])@ == assignment(
                    entries[i].0,
                    entries[i].1,
                )
        }
}

/// No name of `vars` is empty.
pub open spec fn valid_vars(vars: Map<Seq<char>, Seq<char>>) -> bool {
    forall|name: Seq<char>| vars.contains_key(name) ==> name.len() > 0
}

/// The variables of one environment, in the order in which their names were
/// first set. No name is empty and none occurs twice.
#[derive(Debug)]
pub struct Env {
    pub(crate) vars: Vec<(String, String)>,
}

impl View for Env {
    type V = Map<Seq<char>, Seq<char>>;

    /// The snapshot as a map from names to values.
    open spec fn view(&self) -> Map<Seq<char>, Seq<char>> {
        map_of(self.entries())
    }
}

impl Env {
    /// The variables in their order, each name with its value.
    pub open(crate) spec fn entries(&self) -> Seq<(Seq<char>, Seq<char>)> {
        var_entries(self.vars@)
    }

    /// What holds of every snapshot: no name occurs twice and none is
    /// empty.
    #[verifier::type_invariant]
    pub open spec fn well_formed(&self) -> bool {
        distinct_names(self.entries()) && names_nonempty(self.entries())
    }

    /// The snapshot without variables.
    pub fn new() -> (env: Env)
        ensures
            env.entries() == Seq::<(Seq<char>, Seq<char>)>::empty(),
            env@ == Map::<Seq<char>, Seq<char>>::empty(),
    {
        let env = Env { vars: Vec::new() };
        assert(env.entries() =~= Seq::empty());
        env
    }

    /// Sets the variable `name` to `value`, unless `name` is empty: an empty
    /// name is not stored. A name that is already set keeps its place.
    pub fn insert(&mut self, name: String, value: String) -> (stored: bool)
        ensures
            stored == (name@.len() > 0),
            final(self).entries() == if stored {
                put(old(self).entries(), name@, value@)
            } else {
                old(self).entries()
            },
            final(self)@ == if stored {
                old(self)@.insert(name@, value@)
            } else {
                old(self)@
            },
    {
        proof {
            use_type_invariant(&*self);
            lemma_put(self.entries(), name@, value@);
        }
        if name.as_str().is_empty() {
            return false;
        }
        let ghost before = self.entries();
        let mut vars: Vec<(String, String)> = Vec::new();
        std::mem::swap(&mut vars, &mut self.vars);
        proof {
            lemma_var_entries(vars@);
            lemma_mapped_put(named(vars@), name@, value, text_view());
        }
        put_entry(&mut vars, name, value);
        proof {
            lemma_var_entries(vars@);
            lemma_put_nonempty(before, name@, value@);
        }
        self.vars = vars;
        true
    }
}


impl Env {
    /// The number of variables.
    pub fn len(&self) -> (n: usize)
        ensures
            n == self.entries().len(),
            n == self@.len(),
    {
        proof {
            use_type_invariant(self);
            lemma_map_of_len(self.entries());
        }
        self.vars.len()
    }

    /// Whether the snapshot holds no variable.
    pub fn is_empty(&self) -> (empty: bool)
        ensures
            empty == (self.entries().len() == 0),
            empty == (self@ == Map::<Seq<char>, Seq<char>>::empty()),
    {
        proof {
            use_type_invariant(self);
            lemma_map_of_len(self.entries());
            if self@ == Map::<Seq<char>, Seq<char>>::empty() {
                assert(self@.len() == 0);
            }
        }
        self.vars.len() == 0
    }

    /// The value of the variable `name`, `None` where it is not set.
    pub fn get(&self, name: &str) -> (r: Option<&String>)
        ensures
            match r {
                Some(value) => self@.contains_key(name@) && value@ == self@[name@],
                None => !self@.contains_key(name@),
            },
    {
        proof {
            use_type_invariant(self);
            lemma_map_of_names(self.entries());
        }
        proof {
            lemma_var_entries(self.vars@);
        }
        find(&self.vars, name)
    }

    /// Whether the variable `name` is set.
    pub fn contains(&self, name: &str) -> (r: bool)
        ensures
            r == self@.contains_key(name@),
    {
        self.get(name).is_some()
    }

    /// The names of the variables, in their order.
    pub fn names(&self) -> (r: Vec<String>)
        ensures
            r.len() == self.entries().len(),
            forall|i: int| 0 <= i < r.len() ==> (#[trigger] r[i])@ == self.entries()[i].0,
    {
        let mut out: Vec<String> = Vec::new();
        let mut i: usize = 0;
        while i < self.vars.len()
            invariant
                i <= self.vars.len(),
                out.len() == i,
                forall|j: int| 0 <= j < i ==> (#[trigger] out[j])@ == self.entries()[j].0,
            decreases self.vars.len() - i,
        {
            out.push(self.vars[i].0.clone());
            i += 1;
        }
        out
    }

    /// One line for each variable, in their order: the name, `=`, the value.
    pub fn assignments(&self) -> (r: Vec<String>)
        ensures
            r.len() == self.entries().len(),
            forall|i: int|
                0 <= i < r.len() ==> (#[trigger] r[i])@ == assignment(
                    self.entries()[i].0,
                    self.entries()[i].1,
                ),
    {
        let mut out: Vec<String> = Vec::new();
        let mut i: usize = 0;
        while i < self.vars.len()
            invariant
                i <= self.vars.len(),
                out.len() == i,
                forall|j: int|
                    0 <= j < i ==> (#[trigger] out[j])@ == assignment(
                        self.entries()[j].0,
                        self.entries()[j].1,
                    ),
            decreases self.vars.len() - i,
        {
            let mut line = self.vars[i].0.clone();
            line.append("=");
            line.append(self.vars[i].1.as_str());
            out.push(line);
            i += 1;
        }
        out
    }

    /// One shell line for each variable, in their order: `export`, a blank,
    /// the name, `=`, and the value between double quotes.
    pub fn exports(&self) -> (r: Vec<String>)
        ensures
            r.len() == self.entries().len(),
            forall|i: int|
                0 <= i < r.len() ==> (#[trigger] r[i])@ == export_line(
                    self.entries()[i].0,
                    self.entries()[i].1,
                ),
    {
        let mut out: Vec<String> = Vec::new();
        let mut i: usize = 0;
        while i < self.vars.len()
            invariant
                i <= self.vars.len(),
                out.len() == i,
                forall|j: int|
                    0 <= j < i ==> (#[trigger] out[j])@ == export_line(
                        self.entries()[j].0,
                        self.entries()[j].1,
                    ),
            decreases self.vars.len() - i,
        {
            let mut line = String::from_str("export ");
            line.append(self.vars[i].0.as_str());
            line.append("=\"");
            line.append(self.vars[i].1.as_str());
            line.append("\"");
            out.push(line);
            i += 1;
        }
        out
    }

    /// The snapshot of the variables that `pairs` gives, taken whole or not
    /// at all: `None` where a pair has the empty name. Of two pairs with one
    /// name the later gives the value, the earlier the place.
    pub fn from_pairs(pairs: &Vec<(String, String)>) -> (r: Option<Env>)
        ensures
            match r {
                Some(env) => names_nonempty(var_entries(pairs@)) && env.entries() == put_all(
                    Seq::empty(),
                    var_entries(pairs@),
                ) && env@ == map_of(var_entries(pairs@)),
                None => !names_nonempty(var_entries(pairs@)),
            },
    {
        let ghost given = var_entries(pairs@);
        let mut env = Env::new();
        let mut i: usize = 0;
        while i < pairs.len()
            invariant
                i <= pairs.len(),
                given == var_entries(pairs@),
                env.entries() == put_all(Seq::empty(), given.take(i as int)),
                names_nonempty(given.take(i as int)),
            decreases pairs.len() - i,
        {
            let stored = env.insert(pairs[i].0.clone(), pairs[i].1.clone());
            proof {
                assert(given.take(i + 1).drop_last() == given.take(i as int));
                assert(given.take(i + 1).last() == given[i as int]);
            }
            if !stored {
                assert(given[i as int].0.len() == 0);
                return None;
            }
            proof {
                assert forall|j: int| 0 <= j < i + 1 implies (#[trigger] given.take(i + 1)[j]).0.len()
                    > 0 by {
                    if j < i {
                        assert(given.take(i as int)[j] == given.take(i + 1)[j]);
                    }
                }
            }
            i += 1;
        }
        proof {
            assert(given.take(i as int) == given);
            lemma_put_all(given);
        }
        Some(env)
    }
}

impl Env {
    /// Whether `self` and `other` hold the same variables with the same
    /// values, in whatever order.
    pub fn same_as(&self, other: &Env) -> (r: bool)
        ensures
            r == (self@ == other@),
    {
        proof {
            use_type_invariant(self);
            use_type_invariant(other);
            lemma_map_of_len(self.entries());
            lemma_map_of_len(other.entries());
            lemma_map_of_names(self.entries());
        }
        if self.len() != other.len() {
            return false;
        }
        let mut i: usize = 0;
        while i < self.vars.len()
            invariant
                i <= self.vars.len(),
                distinct_names(self.entries()),
                forall|j: int|
                    0 <= j < i ==> other@.contains_pair(
                        (#[trigger] self.entries()[j]).0,
                        self.entries()[j].1,
                    ),
            decreases self.vars.len() - i,
        {
            proof {
                lemma_map_of_entry(self.entries(), i as int);
            }
            match other.get(self.vars[i].0.as_str()) {
                Some(value) => {
                    if *value != self.vars[i].1 {
                        return false;
                    }
                },
                None => {
                    return false;
                },
            }
            i += 1;
        }
        proof {
            assert forall|name: Seq<char>| #[trigger] self@.contains_key(name) implies other@.contains_pair(
                name,
                self@[name],
            ) by {
                let at = index_of(self.entries(), name);
                lemma_map_of_entry(self.entries(), at);
            }
            assert(self@.dom().subset_of(other@.dom()));
            vstd::set_lib::lemma_subset_equality(self@.dom(), other@.dom());
            assert(self@ =~= other@);
        }
        true
    }
}

} // verus!
