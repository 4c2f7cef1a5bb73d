//! How snapshots and stores are written as JSON documents and read back.

use crate::assoc::{
    distinct_names, find, has_name, index_of, lemma_map_of_entry, lemma_map_of_names,
    lemma_mapped, map_of, mapped, named,
};
use crate::cache::EnvCache;
use crate::env::{valid_vars, Env};
use crate::onion::{EnvOnion, OnionModel};
use crate::json::{
    flag_value, json_of, member_entries, object_value, text_value, value_flag, value_members,
    value_text, Json,
};
use vstd::prelude::*;
use vstd::string::*;

verus! {

/// The document of a snapshot: an object with one string member for each
/// variable.
pub open spec fn vars_doc(vars: Map<Seq<char>, Seq<char>>) -> Json {
    Json::Object(vars.map_values(|value: Seq<char>| Json::Text(value)))
}

/// Whether `doc` is the document of a snapshot: an object whose members are
/// strings, none under the empty name.
pub open spec fn is_vars_doc(doc: Json) -> bool {
    &&& doc is Object
    &&& forall|name: Seq<char>| #[trigger]
        doc->Object_0.contains_key(name) ==> name.len() > 0 && doc->Object_0[name] is Text
}

/// The snapshot that `doc` is the document of, `None` where it is none.
pub open spec fn doc_vars(doc: Json) -> Option<Map<Seq<char>, Seq<char>>> {
    if is_vars_doc(doc) {
        Some(doc->Object_0.map_values(|member: Json| member->Text_0))
    } else {
        None
    }
}

/// Reading the document of a snapshot gives the snapshot back.
pub proof fn lemma_vars_round_trip(vars: Map<Seq<char>, Seq<char>>)
    requires
        valid_vars(vars),
    ensures
        doc_vars(vars_doc(vars)) == Some(vars),
{
    let members = vars.map_values(|value: Seq<char>| Json::Text(value));
    assert(members.map_values(|member: Json| member->Text_0) =~= vars);
}

/// The JSON value of a snapshot.
pub fn env_to_value(env: &Env) -> (value: serde_json::Value)
    ensures
        json_of(value) == vars_doc(env@),
{
    let ghost wrap = |value: Seq<char>| Json::Text(value);
    let mut members: Vec<(String, serde_json::Value)> = Vec::new();
    let mut i: usize = 0;
    while i < env.vars.len()
        invariant
            i <= env.vars.len(),
            members.len() == i,
            wrap == |value: Seq<char>| Json::Text(value),
            member_entries(members@) == mapped(env.entries(), wrap).take(i as int),
        decreases env.vars.len() - i,
    {
        let name = env.vars[i].0.clone();
        let value = text_value(env.vars[i].1.clone());
        members.push((name, value));
        proof {
            assert(member_entries(members@) =~= mapped(env.entries(), wrap).take(i + 1));
        }
        i += 1;
    }
    proof {
        use_type_invariant(env);
        assert(mapped(env.entries(), wrap).take(i as int) == mapped(env.entries(), wrap));
        lemma_mapped(env.entries(), wrap);
    }
    object_value(members)
}

/// The snapshot that a JSON value holds, `None` where the value is not the
/// document of a snapshot.
pub fn env_from_value(value: &serde_json::Value) -> (r: Option<Env>)
    ensures
        match r {
            Some(env) => doc_vars(json_of(*value)) == Some(env@),
            None => doc_vars(json_of(*value)) is None,
        },
{
    let members = match value_members(value) {
        Some(members) => members,
        None => {
            return None;
        },
    };
    let ghost listed = member_entries(members@);
    let ghost unwrap = |member: Json| member->Text_0;
    proof {
        lemma_map_of_names(listed);
    }
    let mut env = Env::new();
    let mut i: usize = 0;
    while i < members.len()
        invariant
            i <= members.len(),
            listed == member_entries(members@),
            distinct_names(listed),
            json_of(*value) == Json::Object(map_of(listed)),
            unwrap == |member: Json| member->Text_0,
            env.entries() == mapped(listed, unwrap).take(i as int),
            forall|j: int| 0 <= j < i ==> (#[trigger] listed[j]).1 is Text && listed[j].0.len() > 0,
        decreases members.len() - i,
    {
        proof {
            lemma_map_of_entry(listed, i as int);
        }
        let text = match value_text(&members[i].1) {
            Some(text) => text,
            None => {
                return None;
            },
        };
        let ghost before = env.entries();
        let stored = env.insert(members[i].0.clone(), text);
        if !stored {
            return None;
        }
        proof {
            if has_name(before, listed[i as int].0) {
                let at = index_of(before, listed[i as int].0);
                assert(before[at].0 == listed[at].0);
                assert(listed[at].0 != listed[i as int].0);
            }
            assert(env.entries() =~= mapped(listed, unwrap).take(i + 1));
        }
        i += 1;
    }
    proof {
        assert(mapped(listed, unwrap).take(i as int) == mapped(listed, unwrap));
        lemma_mapped(listed, unwrap);
        assert forall|name: Seq<char>| #[trigger]
            map_of(listed).contains_key(name) implies name.len() > 0 && map_of(listed)[name] is Text by {
            let at = index_of(listed, name);
            lemma_map_of_entry(listed, at);
        }
    }
    Some(env)
}

/// No snapshot of `cache` has a variable with the empty name.
pub open spec fn valid_cache(cache: Map<Seq<char>, Map<Seq<char>, Seq<char>>>) -> bool {
    forall|name: Seq<char>| #[trigger] cache.contains_key(name) ==> valid_vars(cache[name])
}

/// The document of a snapshot kept in the cache: an object whose member
/// `vars` is the document of the snapshot.
pub open spec fn entry_doc(vars: Map<Seq<char>, Seq<char>>) -> Json {
    Json::Object(Map::<Seq<char>, Json>::empty().insert("vars"@, vars_doc(vars)))
}

/// The snapshot that `doc` keeps: that of its member `vars`, whatever other
/// members it has; `None` where `doc` is no object, has no such member, or
/// the member is not the document of a snapshot.
pub open spec fn doc_entry(doc: Json) -> Option<Map<Seq<char>, Seq<char>>> {
    if doc is Object && doc->Object_0.contains_key("vars"@) {
        doc_vars(doc->Object_0["vars"@])
    } else {
        None
    }
}

/// The document of a cache: an object with one member for each name.
pub open spec fn cache_doc(cache: Map<Seq<char>, Map<Seq<char>, Seq<char>>>) -> Json {
    Json::Object(cache.map_values(|vars: Map<Seq<char>, Seq<char>>| entry_doc(vars)))
}

/// Whether `doc` is the document of a cache: an object each of whose
/// members keeps a snapshot.
pub open spec fn is_cache_doc(doc: Json) -> bool {
    &&& doc is Object
    &&& forall|name: Seq<char>| #[trigger]
        doc->Object_0.contains_key(name) ==> doc_entry(doc->Object_0[name]) is Some
}

/// The cache that `doc` is the document of, `None` where it is none.
pub open spec fn doc_cache(doc: Json) -> Option<Map<Seq<char>, Map<Seq<char>, Seq<char>>>> {
    if is_cache_doc(doc) {
        Some(doc->Object_0.map_values(|member: Json| doc_entry(member)->Some_0))
    } else {
        None
    }
}

/// Reading the document of a cache gives the cache back.
pub proof fn lemma_cache_round_trip(cache: Map<Seq<char>, Map<Seq<char>, Seq<char>>>)
    requires
        valid_cache(cache),
    ensures
        doc_cache(cache_doc(cache)) == Some(cache),
{
    let members = cache.map_values(|vars: Map<Seq<char>, Seq<char>>| entry_doc(vars));
    assert forall|name: Seq<char>| #[trigger] members.contains_key(name) implies doc_entry(
        members[name],
    ) == Some(cache[name]) by {
        assert(cache.contains_key(name));
        lemma_vars_round_trip(cache[name]);
    }
    assert(members.map_values(|member: Json| doc_entry(member)->Some_0) =~= cache);
}

/// The JSON value under which the cache keeps a snapshot.
pub fn entry_to_value(env: &Env) -> (value: serde_json::Value)
    ensures
        json_of(value) == entry_doc(env@),
{
    let mut members: Vec<(String, serde_json::Value)> = Vec::new();
    members.push((String::from_str("vars"), env_to_value(env)));
    proof {
        let listed = member_entries(members@);
        assert(listed.drop_last() =~= Seq::empty());
        assert(map_of(listed.drop_last()) == Map::<Seq<char>, Json>::empty());
        assert(listed.last() == ("vars"@, vars_doc(env@)));
    }
    object_value(members)
}

/// The snapshot that a JSON value keeps, `None` where it keeps none.
pub fn entry_from_value(value: &serde_json::Value) -> (r: Option<Env>)
    ensures
        match r {
            Some(env) => doc_entry(json_of(*value)) == Some(env@),
            None => doc_entry(json_of(*value)) is None,
        },
{
    let members = match value_members(value) {
        Some(members) => members,
        None => {
            return None;
        },
    };
    match member(&members, "vars") {
        Some(held) => env_from_value(held),
        None => None,
    }
}

/// The JSON value of a cache.
pub fn cache_to_value(cache: &EnvCache) -> (value: serde_json::Value)
    ensures
        json_of(value) == cache_doc(cache@),
{
    let ghost wrap = |env: Env| entry_doc(env@);
    let mut members: Vec<(String, serde_json::Value)> = Vec::new();
    let mut i: usize = 0;
    while i < cache.envs.len()
        invariant
            i <= cache.envs.len(),
            members.len() == i,
            wrap == |env: Env| entry_doc(env@),
            member_entries(members@) == mapped(cache.entries(), wrap).take(i as int),
        decreases cache.envs.len() - i,
    {
        let name = cache.envs[i].0.clone();
        let value = entry_to_value(&cache.envs[i].1);
        members.push((name, value));
        proof {
            assert(member_entries(members@) =~= mapped(cache.entries(), wrap).take(i + 1));
        }
        i += 1;
    }
    proof {
        use_type_invariant(cache);
        assert(mapped(cache.entries(), wrap).take(i as int) == mapped(cache.entries(), wrap));
        lemma_mapped(cache.entries(), wrap);
        assert(map_of(cache.entries()).map_values(wrap) =~= cache@.map_values(
            |vars: Map<Seq<char>, Seq<char>>| entry_doc(vars),
        ));
    }
    object_value(members)
}

/// The cache that a JSON value holds, `None` where the value is not the
/// document of a cache.
pub fn cache_from_value(value: &serde_json::Value) -> (r: Option<EnvCache>)
    ensures
        match r {
            Some(cache) => doc_cache(json_of(*value)) == Some(cache@),
            None => doc_cache(json_of(*value)) is None,
        },
{
    let members = match value_members(value) {
        Some(members) => members,
        None => {
            return None;
        },
    };
    let ghost listed = member_entries(members@);
    let ghost read = |member: Json| doc_entry(member)->Some_0;
    let ghost view = |env: Env| env@;
    proof {
        lemma_map_of_names(listed);
    }
    let mut cache = EnvCache::new();
    let mut i: usize = 0;
    while i < members.len()
        invariant
            i <= members.len(),
            listed == member_entries(members@),
            distinct_names(listed),
            json_of(*value) == Json::Object(map_of(listed)),
            read == |member: Json| doc_entry(member)->Some_0,
            view == |env: Env| env@,
            mapped(cache.entries(), view) == mapped(listed, read).take(i as int),
            forall|j: int| 0 <= j < i ==> doc_entry((#[trigger] listed[j]).1) is Some,
        decreases members.len() - i,
    {
        proof {
            lemma_map_of_entry(listed, i as int);
        }
        let env = match entry_from_value(&members[i].1) {
            Some(env) => env,
            None => {
                return None;
            },
        };
        let ghost before = cache.entries();
        cache.insert(members[i].0.clone(), env);
        proof {
            assert(mapped(before, view).len() == i);
            if has_name(before, listed[i as int].0) {
                let at = index_of(before, listed[i as int].0);
                assert(mapped(before, view)[at].0 == before[at].0);
                assert(mapped(listed, read).take(i as int)[at].0 == listed[at].0);
                assert(listed[at].0 != listed[i as int].0);
            }
            assert(mapped(cache.entries(), view) =~= mapped(listed, read).take(i + 1));
        }
        i += 1;
    }
    proof {
        assert(mapped(listed, read).take(i as int) == mapped(listed, read));
        lemma_mapped(listed, read);
        lemma_mapped(cache.entries(), view);
        assert forall|name: Seq<char>| #[trigger]
            map_of(listed).contains_key(name) implies doc_entry(map_of(listed)[name]) is Some by {
            let at = index_of(listed, name);
            lemma_map_of_entry(listed, at);
        }
    }
    Some(cache)
}

/// The document of a layer: an object with the layer's name under `name`
/// and its state under `isActive`.
pub open spec fn layer_doc(name: Seq<char>, active: bool) -> Json {
    Json::Object(
        Map::<Seq<char>, Json>::empty().insert("name"@, Json::Text(name)).insert(
            "isActive"@,
            Json::Bool(active),
        ),
    )
}

/// The state of the layer `name` that `doc` is a document of: `doc` is an
/// object that has that name as a string under `name` and a truth value
/// under `isActive`, whatever other members it has. `None` for any other
/// document.
pub open spec fn doc_layer(name: Seq<char>, doc: Json) -> Option<bool> {
    if doc is Object && doc->Object_0.contains_key("name"@) && doc->Object_0["name"@]
        == Json::Text(name) && doc->Object_0.contains_key("isActive"@)
        && doc->Object_0["isActive"@] is Bool {
        Some(doc->Object_0["isActive"@]->Bool_0)
    } else {
        None
    }
}

/// The document of the layers of an onion: an object with one member for
/// each layer, under the layer's name.
pub open spec fn layers_doc(layers: Map<Seq<char>, bool>) -> Json {
    Json::Object(
        Map::new(
            |name: Seq<char>| layers.contains_key(name),
            |name: Seq<char>| layer_doc(name, layers[name]),
        ),
    )
}

/// The layers that `doc` is the document of, `None` where it is none: `doc`
/// is an object, each of whose members is a document of the layer it is
/// named for.
pub open spec fn doc_layers(doc: Json) -> Option<Map<Seq<char>, bool>> {
    if doc is Object && forall|name: Seq<char>| #[trigger]
        doc->Object_0.contains_key(name) ==> doc_layer(name, doc->Object_0[name]) is Some {
        Some(
            Map::new(
                |name: Seq<char>| doc->Object_0.contains_key(name),
                |name: Seq<char>| doc_layer(name, doc->Object_0[name])->Some_0,
            ),
        )
    } else {
        None
    }
}

/// The document of an onion: an object with the base's document under
/// `base` and the layers' under `layers`.
pub open spec fn onion_doc(onion: OnionModel) -> Json {
    Json::Object(
        Map::<Seq<char>, Json>::empty().insert("base"@, vars_doc(onion.base)).insert(
            "layers"@,
            layers_doc(onion.layers),
        ),
    )
}

/// The onion that `doc` is the document of, `None` where it is none: `doc`
/// is an object with a snapshot's document under `base` and a document of
/// layers under `layers`, whatever other members it has.
pub open spec fn doc_onion(doc: Json) -> Option<OnionModel> {
    if doc is Object && doc->Object_0.contains_key("base"@) && doc->Object_0.contains_key(
        "layers"@,
    ) && doc_vars(doc->Object_0["base"@]) is Some && doc_layers(doc->Object_0["layers"@])
        is Some {
        Some(
            OnionModel {
                base: doc_vars(doc->Object_0["base"@])->Some_0,
                layers: doc_layers(doc->Object_0["layers"@])->Some_0,
            },
        )
    } else {
        None
    }
}

/// The member names of a layer's document differ, and so do those of an
/// onion's.
pub proof fn lemma_member_names()
    ensures
        "name"@ != "isActive"@,
        "base"@ != "layers"@,
{
    reveal_strlit("name");
    reveal_strlit("isActive");
    reveal_strlit("base");
    reveal_strlit("layers");
    assert("name"@.len() == 4 && "isActive"@.len() == 8);
    assert("base"@.len() == 4 && "layers"@.len() == 6);
}

/// Reading the document of a layer under the layer's name gives its state
/// back.
pub proof fn lemma_layer_round_trip(name: Seq<char>, active: bool)
    ensures
        doc_layer(name, layer_doc(name, active)) == Some(active),
{
    lemma_member_names();
}

/// Reading the document of an onion gives the onion back.
pub proof fn lemma_onion_round_trip(onion: OnionModel)
    requires
        valid_vars(onion.base),
    ensures
        doc_onion(onion_doc(onion)) == Some(onion),
{
    lemma_member_names();
    lemma_vars_round_trip(onion.base);
    let members = layers_doc(onion.layers)->Object_0;
    assert forall|name: Seq<char>| #[trigger] members.contains_key(name) implies doc_layer(
        name,
        members[name],
    ) == Some(onion.layers[name]) by {
        lemma_layer_round_trip(name, onion.layers[name]);
    }
    assert(doc_layers(layers_doc(onion.layers))->Some_0 =~= onion.layers);
}

/// The member `name` among the members of an object, `None` where the
/// object has none of that name.
pub(crate) fn member<'a>(members: &'a Vec<(String, serde_json::Value)>, name: &str) -> (r: Option<
    &'a serde_json::Value,
>)
    requires
        distinct_names(member_entries(members@)),
    ensures
        match r {
            Some(value) => map_of(member_entries(members@)).contains_key(name@) && json_of(*value)
                == map_of(member_entries(members@))[name@],
            None => !map_of(member_entries(members@)).contains_key(name@),
        },
{
    proof {
        let plain = named(members@);
        let held = |value: serde_json::Value| json_of(value);
        assert(member_entries(members@) =~= mapped(plain, held));
        lemma_mapped(plain, held);
        assert forall|i: int, j: int| 0 <= i < j < plain.len() implies (#[trigger] plain[i]).0 != (
        #[trigger] plain[j]).0 by {
            assert(member_entries(members@)[i].0 != member_entries(members@)[j].0);
        }
    }
    find(members, name)
}

/// The object with the two members given, whose names differ.
pub(crate) fn pair_value(
    first_name: &str,
    first: serde_json::Value,
    second_name: &str,
    second: serde_json::Value,
) -> (value: serde_json::Value)
    requires
        first_name@ != second_name@,
    ensures
        json_of(value) == Json::Object(
            Map::<Seq<char>, Json>::empty().insert(first_name@, json_of(first)).insert(
                second_name@,
                json_of(second),
            ),
        ),
{
    let mut members: Vec<(String, serde_json::Value)> = Vec::new();
    members.push((first_name.to_owned(), first));
    members.push((second_name.to_owned(), second));
    proof {
        let listed = member_entries(members@);
        let front = listed.drop_last();
        assert(front.drop_last() =~= Seq::empty());
        assert(map_of(front.drop_last()) == Map::<Seq<char>, Json>::empty());
        assert(front.last() == (first_name@, json_of(first)));
        assert(listed.last() == (second_name@, json_of(second)));
        assert(map_of(front) == Map::<Seq<char>, Json>::empty().insert(
            first_name@,
            json_of(first),
        ));
        assert(map_of(listed) == map_of(front).insert(second_name@, json_of(second)));
    }
    object_value(members)
}

/// The JSON value of a layer.
pub fn layer_to_value(name: &String, active: bool) -> (value: serde_json::Value)
    ensures
        json_of(value) == layer_doc(name@, active),
{
    proof {
        lemma_member_names();
    }
    pair_value("name", text_value(name.clone()), "isActive", flag_value(active))
}

/// The state of the layer `name` that a JSON value holds, `None` where the
/// value is no document of that layer.
pub fn layer_from_value(name: &String, value: &serde_json::Value) -> (r: Option<bool>)
    ensures
        r == doc_layer(name@, json_of(*value)),
{
    let members = match value_members(value) {
        Some(members) => members,
        None => {
            return None;
        },
    };
    let named = match member(&members, "name") {
        Some(named) => named,
        None => {
            return None;
        },
    };
    match value_text(named) {
        Some(text) => {
            if text != *name {
                return None;
            }
        },
        None => {
            return None;
        },
    }
    match member(&members, "isActive") {
        Some(state) => value_flag(state),
        None => None,
    }
}

/// The JSON value of the layers of an onion.
pub fn layers_to_value(onion: &EnvOnion) -> (value: serde_json::Value)
    ensures
        json_of(value) == layers_doc(onion@.layers),
{
    let ghost layers = onion.layers();
    let mut members: Vec<(String, serde_json::Value)> = Vec::new();
    let mut i: usize = 0;
    while i < onion.layers.len()
        invariant
            i <= onion.layers.len(),
            layers == onion.layers(),
            members.len() == i,
            member_entries(members@) == Seq::new(
                i as nat,
                |j: int| (layers[j].0, layer_doc(layers[j].0, layers[j].1)),
            ),
        decreases onion.layers.len() - i,
    {
        let ghost before = member_entries(members@);
        let value = layer_to_value(&onion.layers[i].0, onion.layers[i].1);
        members.push((onion.layers[i].0.clone(), value));
        proof {
            assert(layers[i as int] == (onion.layers[i as int].0@, onion.layers[i as int].1));
            assert(member_entries(members@) =~= before.push(
                (layers[i as int].0, layer_doc(layers[i as int].0, layers[i as int].1)),
            ));
            assert(member_entries(members@) =~= Seq::new(
                (i + 1) as nat,
                |j: int| (layers[j].0, layer_doc(layers[j].0, layers[j].1)),
            ));
        }
        i += 1;
    }
    proof {
        use_type_invariant(onion);
        let listed = member_entries(members@);
        assert forall|a: int, b: int| 0 <= a < b < listed.len() implies (#[trigger] listed[a]).0 != (
        #[trigger] listed[b]).0 by {
            assert(layers[a].0 != layers[b].0);
        }
        lemma_map_of_names(listed);
        lemma_map_of_names(layers);
        let want = layers_doc(onion@.layers)->Object_0;
        assert forall|name: Seq<char>| #[trigger] map_of(listed).contains_key(name) implies want.contains_key(
            name,
        ) && map_of(listed)[name] == want[name] by {
            let at = index_of(listed, name);
            lemma_map_of_entry(listed, at);
            lemma_map_of_entry(layers, at);
        }
        assert forall|name: Seq<char>| #[trigger] want.contains_key(name) implies map_of(
            listed,
        ).contains_key(name) by {
            let at = index_of(layers, name);
            assert(listed[at].0 == name);
        }
        assert(map_of(listed) =~= want);
    }
    object_value(members)
}

/// The JSON value of an onion.
pub fn onion_to_value(onion: &EnvOnion) -> (value: serde_json::Value)
    ensures
        json_of(value) == onion_doc(onion@),
{
    proof {
        lemma_member_names();
    }
    pair_value("base", env_to_value(&onion.base), "layers", layers_to_value(onion))
}

/// The layers that a JSON value holds, in the order in which the object
/// hands out its members; `None` where the value is no document of layers.
fn layers_from_value(value: &serde_json::Value) -> (r: Option<Vec<(String, bool)>>)
    ensures
        match r {
            Some(layers) => distinct_names(named(layers@)) && doc_layers(json_of(*value))
                == Some(map_of(named(layers@))),
            None => doc_layers(json_of(*value)) is None,
        },
{
    let members = match value_members(value) {
        Some(members) => members,
        None => {
            return None;
        },
    };
    let ghost listed = member_entries(members@);
    proof {
        lemma_map_of_names(listed);
    }
    let mut layers: Vec<(String, bool)> = Vec::new();
    let mut i: usize = 0;
    while i < members.len()
        invariant
            i <= members.len(),
            listed == member_entries(members@),
            distinct_names(listed),
            json_of(*value) == Json::Object(map_of(listed)),
            named(layers@) == Seq::new(
                i as nat,
                |j: int| (listed[j].0, doc_layer(listed[j].0, listed[j].1)->Some_0),
            ),
            forall|j: int|
                0 <= j < i ==> doc_layer((#[trigger] listed[j]).0, listed[j].1) is Some,
        decreases members.len() - i,
    {
        proof {
            lemma_map_of_entry(listed, i as int);
        }
        let ghost before = named(layers@);
        let active = match layer_from_value(&members[i].0, &members[i].1) {
            Some(active) => active,
            None => {
                return None;
            },
        };
        layers.push((members[i].0.clone(), active));
        proof {
            assert(named(layers@) =~= before.push((listed[i as int].0, active)));
            assert(named(layers@) =~= Seq::new(
                (i + 1) as nat,
                |j: int| (listed[j].0, doc_layer(listed[j].0, listed[j].1)->Some_0),
            ));
        }
        i += 1;
    }
    proof {
        let found = named(layers@);
        assert forall|a: int, b: int| 0 <= a < b < found.len() implies (#[trigger] found[a]).0 != (
        #[trigger] found[b]).0 by {
            assert(listed[a].0 != listed[b].0);
        }
        assert forall|name: Seq<char>| #[trigger]
            map_of(listed).contains_key(name) implies doc_layer(name, map_of(listed)[name])
            is Some by {
            let at = index_of(listed, name);
            lemma_map_of_entry(listed, at);
        }
        let want = doc_layers(json_of(*value))->Some_0;
        lemma_map_of_names(found);
        assert forall|name: Seq<char>| #[trigger] map_of(found).contains_key(name) implies want.contains_key(
            name,
        ) && map_of(found)[name] == want[name] by {
            let at = index_of(found, name);
            lemma_map_of_entry(found, at);
            lemma_map_of_entry(listed, at);
        }
        assert forall|name: Seq<char>| #[trigger] want.contains_key(name) implies map_of(
            found,
        ).contains_key(name) by {
            let at = index_of(listed, name);
            assert(found[at].0 == name);
        }
        assert(map_of(found) =~= want);
    }
    Some(layers)
}

/// The onion that a JSON value holds, `None` where the value is not the
/// document of an onion.
pub fn onion_from_value(value: &serde_json::Value) -> (r: Option<EnvOnion>)
    ensures
        match r {
            Some(onion) => doc_onion(json_of(*value)) == Some(onion@),
            None => doc_onion(json_of(*value)) is None,
        },
{
    let members = match value_members(value) {
        Some(members) => members,
        None => {
            return None;
        },
    };
    let base = match member(&members, "base") {
        Some(held) => match env_from_value(held) {
            Some(base) => base,
            None => {
                return None;
            },
        },
        None => {
            return None;
        },
    };
    let layers = match member(&members, "layers") {
        Some(held) => match layers_from_value(held) {
            Some(layers) => layers,
            None => {
                return None;
            },
        },
        None => {
            return None;
        },
    };
    proof {
        use_type_invariant(&base);
    }
    Some(EnvOnion { base, layers })
}

/// The variables of a snapshot have no empty name.
pub proof fn lemma_env_valid(env: Env)
    requires
        env.well_formed(),
    ensures
        valid_vars(env@),
{
    lemma_map_of_names(env.entries());
    assert forall|name: Seq<char>| env@.contains_key(name) implies name.len() > 0 by {
        let at = index_of(env.entries(), name);
        assert(env.entries()[at].0.len() > 0);
    }
}

/// Reading the document of any snapshot gives the snapshot back.
pub proof fn lemma_env_round_trip(env: Env)
    requires
        env.well_formed(),
    ensures
        doc_vars(vars_doc(env@)) == Some(env@),
{
    lemma_env_valid(env);
    lemma_vars_round_trip(env@);
}

/// Reading the document of any cache gives the cache back.
pub proof fn lemma_cache_store_round_trip(cache: EnvCache)
    requires
        cache.well_formed(),
    ensures
        doc_cache(cache_doc(cache@)) == Some(cache@),
{
    lemma_map_of_names(cache.entries());
    assert forall|name: Seq<char>| #[trigger] cache@.contains_key(name) implies valid_vars(
        cache@[name],
    ) by {
        let at = index_of(cache.entries(), name);
        lemma_map_of_entry(cache.entries(), at);
        lemma_env_valid(cache.entries()[at].1);
    }
    lemma_cache_round_trip(cache@);
}

/// Reading the document of any onion gives the onion back.
pub proof fn lemma_onion_store_round_trip(onion: EnvOnion)
    requires
        onion.well_formed(),
    ensures
        doc_onion(onion_doc(onion@)) == Some(onion@),
{
    lemma_env_valid(onion.base_env());
    lemma_onion_round_trip(onion@);
}

} // verus!
