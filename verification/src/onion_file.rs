//! The onion's commands, from what reading the store's file gave to the
//! file's new text or the lines to print.

use crate::assoc::map_of;
use crate::codec::{doc_onion, onion_doc, onion_from_value, onion_to_value};
use crate::env::{lists_assignments, Env};
use crate::json::{parse_text, parsed, render_pretty};
use crate::onion::{
    initial, lemma_toggle_idempotent, lemma_toggle_unknown, saved, toggled, EnvOnion, OnionModel,
};
use crate::store::{finish_text, store_text, StoreError, StoreFile};
use vstd::prelude::*;

verus! {

/// The onion that `text` holds, `None` where `text` is no JSON or not the
/// document of an onion.
pub open spec fn text_onion(text: Seq<char>) -> Option<OnionModel> {
    match parsed(text) {
        Some(doc) => doc_onion(doc),
        None => None,
    }
}

/// The onion that a command works on, given what reading the file gave.
/// There is none where there is no file or it could not be opened or read,
/// which is an `Io` error, and none where the file is no text or its text
/// holds no onion, a `Parse` error.
pub open spec fn loaded_onion(file: StoreFile) -> Result<OnionModel, StoreError> {
    match file {
        StoreFile::Missing => Err(StoreError::Io),
        StoreFile::Unreadable => Err(StoreError::Io),
        StoreFile::NotText => Err(StoreError::Parse),
        StoreFile::Text(text) => match text_onion(text@) {
            Some(onion) => Ok(onion),
            None => Err(StoreError::Parse),
        },
    }
}

/// Whether the text of the file that keeps `onion` reads back as `onion`.
pub open spec fn reads_back(onion: OnionModel) -> bool {
    text_onion(store_text(onion_doc(onion))) == Some(onion)
}

/// What a command hands back that leaves the store at `onion`: the text of
/// the file that keeps it, where that text reads back as `onion`, and an
/// `Io` error where it does not.
pub open spec fn writes(r: Result<String, StoreError>, onion: OnionModel) -> bool {
    &&& r is Ok <==> reads_back(onion)
    &&& match r {
        Ok(text) => text@ == store_text(onion_doc(onion)),
        Err(e) => e == StoreError::Io,
    }
}

/// The onion that `text` holds; a text that holds none is a `Parse` error.
pub fn parse_onion(text: &str) -> (r: Result<EnvOnion, StoreError>)
    ensures
        match r {
            Ok(onion) => text_onion(text@) == Some(onion@),
            Err(e) => e == StoreError::Parse && text_onion(text@) is None,
        },
{
    match parse_text(text) {
        Ok(value) => match onion_from_value(&value) {
            Some(onion) => Ok(onion),
            None => Err(StoreError::Parse),
        },
        Err(_) => Err(StoreError::Parse),
    }
}

/// The onion that a command works on.
pub fn load(file: &StoreFile) -> (r: Result<EnvOnion, StoreError>)
    ensures
        match r {
            Ok(onion) => loaded_onion(*file) == Ok::<_, StoreError>(onion@),
            Err(e) => loaded_onion(*file) == Err::<OnionModel, _>(e),
        },
{
    match file {
        StoreFile::Missing => Err(StoreError::Io),
        StoreFile::Unreadable => Err(StoreError::Io),
        StoreFile::NotText => Err(StoreError::Parse),
        StoreFile::Text(text) => parse_onion(text.as_str()),
    }
}

/// The text of the file that keeps `onion`. It is handed out where it reads
/// back as the onion, and only there: a text that does not is an `Io`
/// error.
pub fn store(onion: &EnvOnion) -> (r: Result<String, StoreError>)
    ensures
        writes(r, onion@),
{
    let value = onion_to_value(onion);
    let text = match finish_text(render_pretty(&value)) {
        Ok(text) => text,
        Err(e) => {
            return Err(e);
        },
    };
    match parse_onion(text.as_str()) {
        Ok(back) => {
            if back.same_as(onion) {
                Ok(text)
            } else {
                Err(StoreError::Io)
            }
        },
        Err(_) => Err(StoreError::Io),
    }
}

/// Makes a new store: the text of the file that keeps `base` and no layer.
pub fn init(base: Env) -> (r: Result<String, StoreError>)
    ensures
        writes(r, initial(base@)),
{
    let onion = EnvOnion::init(base);
    store(&onion)
}

/// Saves the layer `name`: the new text of the file, which keeps the onion
/// that was read with that layer there and active. Fails as `load` does,
/// and as `store` does.
pub fn save(file: &StoreFile, name: &str) -> (r: Result<String, StoreError>)
    ensures
        match loaded_onion(*file) {
            Ok(onion) => writes(r, saved(onion, name@)),
            Err(e) => r == Err::<String, _>(e),
        },
{
    let mut onion = match load(file) {
        Ok(onion) => onion,
        Err(e) => {
            return Err(e);
        },
    };
    onion.save(name.to_owned());
    store(&onion)
}

/// Sets the layer `name` active or inactive: the new text of the file,
/// which keeps the onion that was read with that layer in the new state,
/// and unchanged where it has no such layer. Fails as `load` does, and as
/// `store` does.
pub fn set_active(file: &StoreFile, name: &str, active: bool) -> (r: Result<String, StoreError>)
    ensures
        match loaded_onion(*file) {
            Ok(onion) => writes(r, toggled(onion, name@, active)),
            Err(e) => r == Err::<String, _>(e),
        },
{
    let mut onion = match load(file) {
        Ok(onion) => onion,
        Err(e) => {
            return Err(e);
        },
    };
    onion.set_active(name, active);
    store(&onion)
}

/// Sets the layer `name` inactive; see `set_active`.
pub fn deactivate(file: &StoreFile, name: &str) -> (r: Result<String, StoreError>)
    ensures
        match loaded_onion(*file) {
            Ok(onion) => writes(r, toggled(onion, name@, false)),
            Err(e) => r == Err::<String, _>(e),
        },
{
    set_active(file, name, false)
}

/// Sets the layer `name` active; see `set_active`.
pub fn reactivate(file: &StoreFile, name: &str) -> (r: Result<String, StoreError>)
    ensures
        match loaded_onion(*file) {
            Ok(onion) => writes(r, toggled(onion, name@, true)),
            Err(e) => r == Err::<String, _>(e),
        },
{
    set_active(file, name, true)
}

/// The lines that print the base, one assignment for each of its variables.
/// Fails as `load` does.
pub fn export(file: &StoreFile) -> (r: Result<Vec<String>, StoreError>)
    ensures
        match loaded_onion(*file) {
            Ok(onion) => r is Ok && lists_assignments(r->Ok_0@, onion.base),
            Err(e) => r == Err::<Vec<String>, _>(e),
        },
{
    let onion = match load(file) {
        Ok(onion) => onion,
        Err(e) => {
            return Err(e);
        },
    };
    let lines = onion.export();
    proof {
        use_type_invariant(&onion);
        assert(map_of(onion.base_env().entries()) == onion@.base);
    }
    Ok(lines)
}

/// The file that a toggle wrote holds the toggled onion, and the same
/// toggle run on that file leaves the very same onion: a second
/// `deactivate` or `reactivate` of one name changes nothing.
pub proof fn lemma_toggle_twice(
    file: StoreFile,
    name: Seq<char>,
    active: bool,
    first: Result<String, StoreError>,
)
    requires
        loaded_onion(file) is Ok,
        writes(first, toggled(loaded_onion(file)->Ok_0, name, active)),
        first is Ok,
    ensures
        loaded_onion(StoreFile::Text(first->Ok_0)) == Ok::<_, StoreError>(
            toggled(loaded_onion(file)->Ok_0, name, active),
        ),
        toggled(loaded_onion(StoreFile::Text(first->Ok_0))->Ok_0, name, active) == toggled(
            loaded_onion(file)->Ok_0,
            name,
            active,
        ),
{
    lemma_toggle_idempotent(loaded_onion(file)->Ok_0, name, active);
}

/// The file that a toggle of a name without a layer wrote holds the onion
/// as it was: no layer is made and none changes.
pub proof fn lemma_toggle_unknown_name(
    file: StoreFile,
    name: Seq<char>,
    active: bool,
    written: Result<String, StoreError>,
)
    requires
        loaded_onion(file) is Ok,
        !loaded_onion(file)->Ok_0.layers.contains_key(name),
        writes(written, toggled(loaded_onion(file)->Ok_0, name, active)),
        written is Ok,
    ensures
        loaded_onion(StoreFile::Text(written->Ok_0)) == loaded_onion(file),
{
    lemma_toggle_unknown(loaded_onion(file)->Ok_0, name, active);
}

} // verus!
