//! Association lists: sequences of named entries in which no name occurs
//! twice, and the maps they stand for.

use vstd::prelude::*;

verus! {

/// No name occurs twice in `entries`.
pub open spec fn distinct_names<V>(entries: Seq<(Seq<char>, V)>) -> bool {
    forall|i: int, j: int|
        0 <= i < j < entries.len() ==> (#[trigger] entries[i]).0 != (#[trigger] entries[j]).0
}

/// Some entry of `entries` is named `name`.
pub open spec fn has_name<V>(entries: Seq<(Seq<char>, V)>, name: Seq<char>) -> bool {
    exists|i: int| 0 <= i < entries.len() && (#[trigger] entries[i]).0 == name
}

/// The place of an entry named `name`, where there is one.
pub open spec fn index_of<V>(entries: Seq<(Seq<char>, V)>, name: Seq<char>) -> int {
    choose|i: int| 0 <= i < entries.len() && (#[trigger] entries[i]).0 == name
}

/// The map that `entries` lists. Of two entries with one name the later
/// counts.
pub open spec fn map_of<V>(entries: Seq<(Seq<char>, V)>) -> Map<Seq<char>, V>
    decreases entries.len(),
{
    if entries.len() == 0 {
        Map::empty()
    } else {
        map_of(entries.drop_last()).insert(entries.last().0, entries.last().1)
    }
}

/// `entries` after `name` was given `value`: the entry of that name keeps
/// its place, a new name goes to the end.
pub open spec fn put<V>(entries: Seq<(Seq<char>, V)>, name: Seq<char>, value: V) -> Seq<
    (Seq<char>, V),
> {
    if has_name(entries, name) {
        entries.update(index_of(entries, name), (name, value))
    } else {
        entries.push((name, value))
    }
}

/// What a vector of named values lists: each name, as a plain sequence,
/// with its value.
pub open spec fn named<V>(entries: Seq<(String, V)>) -> Seq<(Seq<char>, V)> {
    entries.map_values(|entry: (String, V)| (entry.0@, entry.1))
}

/// No entry of `entries` has the empty name.
pub open spec fn names_nonempty<V>(entries: Seq<(Seq<char>, V)>) -> bool {
    forall|i: int| 0 <= i < entries.len() ==> (#[trigger] entries[i]).0.len() > 0
}

/// `entries` after each entry of `more` was put into it, in order.
pub open spec fn put_all<V>(entries: Seq<(Seq<char>, V)>, more: Seq<(Seq<char>, V)>) -> Seq<
    (Seq<char>, V),
>
    decreases more.len(),
{
    if more.len() == 0 {
        entries
    } else {
        put(put_all(entries, more.drop_last()), more.last().0, more.last().1)
    }
}

/// `entries` with `f` applied to each value.
pub open spec fn mapped<V, W>(entries: Seq<(Seq<char>, V)>, f: spec_fn(V) -> W) -> Seq<
    (Seq<char>, W),
> {
    entries.map_values(|entry: (Seq<char>, V)| (entry.0, f(entry.1)))
}

/// Applying `f` to each value of the entries applies it to each value of the
/// map.
pub proof fn lemma_mapped<V, W>(entries: Seq<(Seq<char>, V)>, f: spec_fn(V) -> W)
    ensures
        map_of(mapped(entries, f)) == map_of(entries).map_values(f),
        distinct_names(entries) ==> distinct_names(mapped(entries, f)),
    decreases entries.len(),
{
    let after = mapped(entries, f);
    if entries.len() == 0 {
        assert(map_of(after) =~= map_of(entries).map_values(f));
    } else {
        lemma_mapped(entries.drop_last(), f);
        assert(after.drop_last() =~= mapped(entries.drop_last(), f));
        assert(map_of(after) =~= map_of(entries).map_values(f));
    }
    if distinct_names(entries) {
        assert forall|i: int, j: int| 0 <= i < j < after.len() implies (#[trigger] after[i]).0 != (
        #[trigger] after[j]).0 by {
            assert(entries[i].0 != entries[j].0);
        }
    }
}

/// The names of `map_of(entries)` are the names of the entries, and they are
/// finitely many.
pub proof fn lemma_map_of_names<V>(entries: Seq<(Seq<char>, V)>)
    ensures
        map_of(entries).dom().finite(),
        forall|name: Seq<char>| #[trigger]
            map_of(entries).contains_key(name) <==> has_name(entries, name),
    decreases entries.len(),
{
    if entries.len() > 0 {
        let front = entries.drop_last();
        lemma_map_of_names(front);
        assert forall|name: Seq<char>| #[trigger]
            map_of(entries).contains_key(name) <==> has_name(entries, name) by {
            if has_name(front, name) {
                let i = index_of(front, name);
                assert(entries[i] == front[i]);
            }
            if name == entries.last().0 {
                assert(entries[entries.len() - 1].0 == name);
            }
            if has_name(entries, name) && name != entries.last().0 {
                let i = index_of(entries, name);
                assert(front[i] == entries[i]);
            }
        }
    }
}

/// Where no name occurs twice, each entry's name maps to that entry's value.
pub proof fn lemma_map_of_entry<V>(entries: Seq<(Seq<char>, V)>, i: int)
    requires
        distinct_names(entries),
        0 <= i < entries.len(),
    ensures
        map_of(entries).contains_key(entries[i].0),
        map_of(entries)[entries[i].0] == entries[i].1,
    decreases entries.len(),
{
    let front = entries.drop_last();
    if i < entries.len() - 1 {
        assert(distinct_names(front)) by {
            assert forall|a: int, b: int| 0 <= a < b < front.len() implies (#[trigger] front[a]).0
                != (#[trigger] front[b]).0 by {
                assert(front[a] == entries[a] && front[b] == entries[b]);
            }
        }
        lemma_map_of_entry(front, i);
        assert(front[i] == entries[i]);
        assert(entries[i].0 != entries[entries.len() - 1].0);
    }
}

/// Where no name occurs twice, the map has as many names as there are
/// entries.
pub proof fn lemma_map_of_len<V>(entries: Seq<(Seq<char>, V)>)
    requires
        distinct_names(entries),
    ensures
        map_of(entries).dom().finite(),
        map_of(entries).len() == entries.len(),
    decreases entries.len(),
{
    lemma_map_of_names(entries);
    if entries.len() > 0 {
        let front = entries.drop_last();
        lemma_drop_last_distinct(entries);
        lemma_map_of_len(front);
        lemma_map_of_names(front);
        let last = entries.last().0;
        if has_name(front, last) {
            let i = index_of(front, last);
            assert(front[i] == entries[i]);
            assert(entries[i].0 != entries[entries.len() - 1].0);
        }
        assert(!map_of(front).contains_key(last));
    }
}

/// Dropping the last entry keeps the names distinct.
pub proof fn lemma_drop_last_distinct<V>(entries: Seq<(Seq<char>, V)>)
    requires
        distinct_names(entries),
        entries.len() > 0,
    ensures
        distinct_names(entries.drop_last()),
{
    let front = entries.drop_last();
    assert forall|a: int, b: int| 0 <= a < b < front.len() implies (#[trigger] front[a]).0 != (
    #[trigger] front[b]).0 by {
        assert(front[a] == entries[a] && front[b] == entries[b]);
    }
}

/// Two lists of distinct names whose entries agree name by name list one
/// map.
pub proof fn lemma_map_of_ext<V>(entries: Seq<(Seq<char>, V)>, map: Map<Seq<char>, V>)
    requires
        distinct_names(entries),
        forall|i: int|
            0 <= i < entries.len() ==> map.contains_pair(
                (#[trigger] entries[i]).0,
                entries[i].1,
            ),
        forall|name: Seq<char>| #[trigger] map.contains_key(name) ==> has_name(entries, name),
    ensures
        map_of(entries) == map,
{
    lemma_map_of_names(entries);
    assert forall|name: Seq<char>| #[trigger] map_of(entries).contains_key(name) implies map_of(
        entries,
    )[name] == map[name] && map.contains_key(name) by {
        let i = index_of(entries, name);
        lemma_map_of_entry(entries, i);
    }
    assert(map_of(entries) =~= map);
}

/// Giving `name` a value keeps the names distinct and inserts into the map.
pub proof fn lemma_put<V>(entries: Seq<(Seq<char>, V)>, name: Seq<char>, value: V)
    requires
        distinct_names(entries),
    ensures
        distinct_names(put(entries, name, value)),
        map_of(put(entries, name, value)) == map_of(entries).insert(name, value),
        put(entries, name, value).len() == if has_name(entries, name) {
            entries.len()
        } else {
            entries.len() + 1
        },
{
    let after = put(entries, name, value);
    lemma_map_of_names(entries);
    if has_name(entries, name) {
        let at = index_of(entries, name);
        assert forall|i: int, j: int| 0 <= i < j < after.len() implies (#[trigger] after[i]).0 != (
        #[trigger] after[j]).0 by {
            assert(after[i].0 == entries[i].0 && after[j].0 == entries[j].0);
        }
        assert forall|i: int| 0 <= i < after.len() implies map_of(entries).insert(
            name,
            value,
        ).contains_pair((#[trigger] after[i]).0, after[i].1) by {
            lemma_map_of_entry(entries, i);
            if i != at {
                assert(after[i] == entries[i]);
                if i < at {
                    assert(entries[i].0 != entries[at].0);
                } else {
                    assert(entries[at].0 != entries[i].0);
                }
            }
        }
        assert forall|other: Seq<char>| #[trigger]
            map_of(entries).insert(name, value).contains_key(other) implies has_name(
            after,
            other,
        ) by {
            if other == name {
                assert(after[at].0 == other);
            } else {
                let i = index_of(entries, other);
                assert(after[i].0 == other);
            }
        }
        lemma_map_of_ext(after, map_of(entries).insert(name, value));
    } else {
        assert forall|i: int, j: int| 0 <= i < j < after.len() implies (#[trigger] after[i]).0 != (
        #[trigger] after[j]).0 by {
            if j < entries.len() {
                assert(after[i] == entries[i] && after[j] == entries[j]);
            } else {
                assert(after[i] == entries[i]);
            }
        }
        assert(after.drop_last() == entries);
    }
}

/// Putting entries one by one into the empty list keeps names distinct and
/// lists the same map as the entries themselves.
pub proof fn lemma_put_all<V>(more: Seq<(Seq<char>, V)>)
    ensures
        distinct_names(put_all(Seq::empty(), more)),
        map_of(put_all(Seq::empty(), more)) == map_of(more),
        names_nonempty(more) ==> names_nonempty(put_all(Seq::empty(), more)),
    decreases more.len(),
{
    if more.len() > 0 {
        let front = more.drop_last();
        lemma_put_all(front);
        let sofar = put_all(Seq::<(Seq<char>, V)>::empty(), front);
        lemma_put(sofar, more.last().0, more.last().1);
        if names_nonempty(more) {
            assert forall|i: int| 0 <= i < front.len() implies (#[trigger] front[i]).0.len()
                > 0 by {
                assert(front[i] == more[i]);
            }
            assert(more[more.len() - 1].0.len() > 0);
            lemma_put_nonempty(sofar, more.last().0, more.last().1);
        }
    }
}

/// Putting a non-empty name among non-empty names leaves no empty name.
pub proof fn lemma_put_nonempty<V>(entries: Seq<(Seq<char>, V)>, name: Seq<char>, value: V)
    requires
        names_nonempty(entries),
        name.len() > 0,
    ensures
        names_nonempty(put(entries, name, value)),
{
    let after = put(entries, name, value);
    assert forall|i: int| 0 <= i < after.len() implies (#[trigger] after[i]).0.len() > 0 by {
        if has_name(entries, name) {
            if i != index_of(entries, name) {
                assert(after[i] == entries[i]);
            }
        } else {
            if i < entries.len() {
                assert(after[i] == entries[i]);
            }
        }
    }
}

/// Where no name occurs twice, an entry named `name` stands where
/// `index_of` says.
pub proof fn lemma_found<V>(entries: Seq<(Seq<char>, V)>, name: Seq<char>, at: int)
    requires
        distinct_names(entries),
        0 <= at < entries.len(),
        entries[at].0 == name,
    ensures
        has_name(entries, name),
        index_of(entries, name) == at,
{
    let chosen = index_of(entries, name);
    if chosen < at {
        assert(entries[chosen].0 != entries[at].0);
    } else if at < chosen {
        assert(entries[at].0 != entries[chosen].0);
    }
}

/// The place of the first entry of `entries` named `name`.
pub fn position<V>(entries: &Vec<(String, V)>, name: &String) -> (r: Option<usize>)
    ensures
        match r {
            Some(at) => at < entries.len() && entries[at as int].0@ == name@ && forall|j: int|
                0 <= j < at ==> (#[trigger] entries[j]).0@ != name@,
            None => forall|j: int| 0 <= j < entries.len() ==> (#[trigger] entries[j]).0@ != name@,
        },
{
    let mut at: usize = 0;
    while at < entries.len()
        invariant
            at <= entries.len(),
            forall|j: int| 0 <= j < at ==> (#[trigger] entries[j]).0@ != name@,
        decreases entries.len() - at,
    {
        if entries[at].0 == *name {
            return Some(at);
        }
        at += 1;
    }
    None
}

/// Applying `f` to each value commutes with giving a name a value.
pub proof fn lemma_mapped_put<V, W>(
    entries: Seq<(Seq<char>, V)>,
    name: Seq<char>,
    value: V,
    f: spec_fn(V) -> W,
)
    requires
        distinct_names(entries),
    ensures
        mapped(put(entries, name, value), f) == put(mapped(entries, f), name, f(value)),
        has_name(mapped(entries, f), name) == has_name(entries, name),
{
    let after = mapped(entries, f);
    lemma_mapped(entries, f);
    if has_name(entries, name) {
        let at = index_of(entries, name);
        assert(after[at].0 == name);
        lemma_found(after, name, at);
    } else if has_name(after, name) {
        let at = index_of(after, name);
        assert(entries[at].0 == name);
    }
    assert(mapped(put(entries, name, value), f) =~= put(after, name, f(value)));
}

/// The value that stands under `name`, `None` where there is none.
pub(crate) fn find<'a, V>(entries: &'a Vec<(String, V)>, name: &str) -> (r: Option<&'a V>)
    requires
        distinct_names(named(entries@)),
    ensures
        match r {
            Some(value) => map_of(named(entries@)).contains_key(name@) && *value == map_of(
                named(entries@),
            )[name@],
            None => !map_of(named(entries@)).contains_key(name@),
        },
{
    let ghost listed = named(entries@);
    proof {
        lemma_map_of_names(listed);
    }
    let key = name.to_owned();
    match position(entries, &key) {
        Some(at) => {
            proof {
                lemma_map_of_entry(listed, at as int);
            }
            Some(&entries[at].1)
        },
        None => {
            proof {
                if has_name(listed, name@) {
                    let chosen = index_of(listed, name@);
                    assert(entries[chosen].0@ == listed[chosen].0);
                }
            }
            None
        },
    }
}

/// Gives `name` the value `value`: in place where the name is there, at
/// the end where it is new.
pub(crate) fn put_entry<V>(entries: &mut Vec<(String, V)>, name: String, value: V)
    requires
        distinct_names(named(old(entries)@)),
    ensures
        named(final(entries)@) == put(named(old(entries)@), name@, value),
        distinct_names(named(final(entries)@)),
        map_of(named(final(entries)@)) == map_of(named(old(entries)@)).insert(name@, value),
{
    let ghost before = named(entries@);
    proof {
        lemma_put(before, name@, value);
    }
    match position(entries, &name) {
        Some(at) => {
            proof {
                lemma_found(before, name@, at as int);
            }
            entries.set(at, (name, value));
        },
        None => {
            proof {
                if has_name(before, name@) {
                    let chosen = index_of(before, name@);
                    assert(entries[chosen].0@ == before[chosen].0);
                }
            }
            entries.push((name, value));
        },
    }
    assert(named(entries@) =~= put(before, name@, value));
}

} // verus!
