//! The cache's commands, from what reading the store's file gave to the
//! file's new text or the lines to print.

use crate::assoc::{map_of, names_nonempty, put_all};
use crate::cache::EnvCache;
use crate::codec::{cache_doc, cache_from_value, cache_to_value, doc_cache};
use crate::env::{lists_exports, var_entries, Env};
use crate::json::{parse_text, parsed, render_pretty};
use crate::store::{finish_text, store_text, OnCorrupt, StoreError, StoreFile};
use vstd::prelude::*;

verus! {

/// The cache that `text` holds, `None` where `text` is no JSON or not the
/// document of a cache.
pub open spec fn text_cache(text: Seq<char>) -> Option<Map<Seq<char>, Map<Seq<char>, Seq<char>>>> {
    match parsed(text) {
        Some(doc) => doc_cache(doc),
        None => None,
    }
}

/// What a file that holds no cache gives under `on_corrupt`.
pub open spec fn corrupt_cache(on_corrupt: OnCorrupt) -> Result<
    Map<Seq<char>, Map<Seq<char>, Seq<char>>>,
    StoreError,
> {
    match on_corrupt {
        OnCorrupt::StartEmpty => Ok(Map::empty()),
        OnCorrupt::Fail => Err(StoreError::Parse),
    }
}

/// The cache that reading the file gave, `on_corrupt` saying what a file
/// that holds no cache gives: one that is no text, or whose text is no
/// cache's. No file is the empty cache, and a file that could not be opened
/// or read is an `Io` error.
pub open spec fn loaded_cache_under(file: StoreFile, on_corrupt: OnCorrupt) -> Result<
    Map<Seq<char>, Map<Seq<char>, Seq<char>>>,
    StoreError,
> {
    match file {
        StoreFile::Missing => Ok(Map::empty()),
        StoreFile::Unreadable => Err(StoreError::Io),
        StoreFile::NotText => corrupt_cache(on_corrupt),
        StoreFile::Text(text) => match text_cache(text@) {
            Some(cache) => Ok(cache),
            None => corrupt_cache(on_corrupt),
        },
    }
}

/// The cache that a command works on, given what reading the file gave: the
/// empty cache where there is no file or the file holds no cache, and no
/// cache at all where the file could not be opened or read.
pub open spec fn loaded_cache(file: StoreFile) -> Result<
    Map<Seq<char>, Map<Seq<char>, Seq<char>>>,
    StoreError,
> {
    loaded_cache_under(file, OnCorrupt::StartEmpty)
}

/// The cache that `text` holds, read strictly: a text that holds no cache is
/// an error.
pub fn parse_env_cache(text: &str) -> (r: Result<EnvCache, StoreError>)
    ensures
        match r {
            Ok(cache) => text_cache(text@) == Some(cache@),
            Err(e) => e == StoreError::Parse && text_cache(text@) is None,
        },
{
    match parse_text(text) {
        Ok(value) => match cache_from_value(&value) {
            Some(cache) => Ok(cache),
            None => Err(StoreError::Parse),
        },
        Err(_) => Err(StoreError::Parse),
    }
}

/// What a file that holds no cache gives under `on_corrupt`.
fn corrupt(on_corrupt: OnCorrupt) -> (r: Result<EnvCache, StoreError>)
    ensures
        match r {
            Ok(cache) => corrupt_cache(on_corrupt) == Ok::<_, StoreError>(cache@),
            Err(e) => corrupt_cache(on_corrupt) == Err::<
                Map<Seq<char>, Map<Seq<char>, Seq<char>>>,
                _,
            >(e),
        },
{
    match on_corrupt {
        OnCorrupt::StartEmpty => Ok(EnvCache::new()),
        OnCorrupt::Fail => Err(StoreError::Parse),
    }
}

/// The cache that reading the file gave, `on_corrupt` saying what a file
/// that holds no cache gives.
pub fn read_env_cache_under(file: &StoreFile, on_corrupt: OnCorrupt) -> (r: Result<
    EnvCache,
    StoreError,
>)
    ensures
        match r {
            Ok(cache) => loaded_cache_under(*file, on_corrupt) == Ok::<_, StoreError>(cache@),
            Err(e) => loaded_cache_under(*file, on_corrupt) == Err::<
                Map<Seq<char>, Map<Seq<char>, Seq<char>>>,
                _,
            >(e),
        },
{
    match file {
        StoreFile::Missing => Ok(EnvCache::new()),
        StoreFile::Unreadable => Err(StoreError::Io),
        StoreFile::NotText => corrupt(on_corrupt),
        StoreFile::Text(text) => match parse_env_cache(text.as_str()) {
            Ok(cache) => Ok(cache),
            Err(_) => corrupt(on_corrupt),
        },
    }
}

/// The cache that a command works on. No file, a file that is no text and a
/// text that holds no cache all give the empty cache. A file that could not
/// be opened or read is the caller's to deal with.
pub fn read_env_cache(file: &StoreFile) -> (cache: EnvCache)
    requires
        !(*file is Unreadable),
    ensures
        loaded_cache(*file) == Ok::<_, StoreError>(cache@),
{
    match read_env_cache_under(file, OnCorrupt::StartEmpty) {
        Ok(cache) => cache,
        Err(_) => EnvCache::new(),
    }
}

/// The text of the file that keeps `cache`. It is handed out where it reads
/// back as the cache, and only there: a text that does not is an `Io`
/// error.
pub fn write_env_cache(cache: &EnvCache) -> (r: Result<String, StoreError>)
    ensures
        r is Ok <==> text_cache(store_text(cache_doc(cache@))) == Some(cache@),
        match r {
            Ok(text) => text@ == store_text(cache_doc(cache@)),
            Err(e) => e == StoreError::Io,
        },
{
    let value = cache_to_value(cache);
    let text = match finish_text(render_pretty(&value)) {
        Ok(text) => text,
        Err(e) => {
            return Err(e);
        },
    };
    match parse_env_cache(text.as_str()) {
        Ok(back) => {
            if back.same_as(cache) {
                Ok(text)
            } else {
                Err(StoreError::Io)
            }
        },
        Err(_) => Err(StoreError::Io),
    }
}

/// The snapshot of the environment whose variables are `pairs`, taken whole
/// or not at all: `None` where a pair has the empty name. Of two pairs with
/// one name the later gives the value.
pub fn get_current_env(pairs: &Vec<(String, String)>) -> (r: Option<Env>)
    ensures
        match r {
            Some(env) => names_nonempty(var_entries(pairs@)) && env.entries() == put_all(
                Seq::empty(),
                var_entries(pairs@),
            ) && env@ == map_of(var_entries(pairs@)),
            None => !names_nonempty(var_entries(pairs@)),
        },
{
    Env::from_pairs(pairs)
}

/// The cache after `env` was saved under `name` in the cache that reading
/// the file gave.
pub open spec fn saved_cache(
    file: StoreFile,
    name: Seq<char>,
    vars: Map<Seq<char>, Seq<char>>,
) -> Map<Seq<char>, Map<Seq<char>, Seq<char>>> {
    loaded_cache(file)->Ok_0.insert(name, vars)
}

/// Saves `env` under `name`: the new text of the file, which keeps the cache
/// that was read with `env` under `name`, in place of what that name had.
/// The text is handed out where it reads back as that cache, and only
/// there: a text that does not is an `Io` error. A file that could not be
/// opened or read is the caller's to deal with.
pub fn save(file: &StoreFile, name: &str, env: Env) -> (r: Result<String, StoreError>)
    requires
        !(*file is Unreadable),
    ensures
        r is Ok <==> text_cache(store_text(cache_doc(saved_cache(*file, name@, env@)))) == Some(
            saved_cache(*file, name@, env@),
        ),
        match r {
            Ok(text) => text@ == store_text(cache_doc(saved_cache(*file, name@, env@))),
            Err(e) => e == StoreError::Io,
        },
{
    let mut cache = read_env_cache(file);
    cache.insert(name.to_owned(), env);
    write_env_cache(&cache)
}

/// Whether the cache that reading the file gave keeps a snapshot under
/// `name`.
pub fn holds(file: &StoreFile, name: &str) -> (b: bool)
    ensures
        b == (loaded_cache(*file) is Ok && loaded_cache(*file)->Ok_0.contains_key(name@)),
{
    match read_env_cache_under(file, OnCorrupt::StartEmpty) {
        Ok(cache) => cache.contains(name),
        Err(_) => false,
    }
}

/// The lines that print the snapshot kept under `name`, one export line for
/// each of its variables. A name under which nothing is kept is the
/// caller's to deal with: `holds` tells.
pub fn print(file: &StoreFile, name: &str) -> (lines: Vec<String>)
    requires
        loaded_cache(*file) is Ok,
        loaded_cache(*file)->Ok_0.contains_key(name@),
    ensures
        lists_exports(lines@, loaded_cache(*file)->Ok_0[name@]),
{
    let cache = read_env_cache(file);
    match cache.get(name) {
        Some(env) => {
            let lines = env.exports();
            proof {
                use_type_invariant(env);
                assert(map_of(env.entries()) == cache@[name@]);
            }
            lines
        },
        None => Vec::new(),
    }
}

/// The lines that print the snapshot kept under `name`, where there is one:
/// `UnknownLayer` where the cache keeps nothing under `name`, and `Io` where
/// the file could not be opened or read.
pub fn try_print(file: &StoreFile, name: &str) -> (r: Result<Vec<String>, StoreError>)
    ensures
        match loaded_cache(*file) {
            Ok(cache) => if cache.contains_key(name@) {
                r is Ok && lists_exports(r->Ok_0@, cache[name@])
            } else {
                r == Err::<Vec<String>, _>(StoreError::UnknownLayer)
            },
            Err(e) => r == Err::<Vec<String>, _>(e),
        },
{
    match file {
        StoreFile::Unreadable => Err(StoreError::Io),
        _ => {
            if holds(file, name) {
                Ok(print(file, name))
            } else {
                Err(StoreError::UnknownLayer)
            }
        },
    }
}

} // verus!
