//! What the two kinds of store share: the ways a command fails, and what
//! reading the store's file gave.

use crate::json::{rendered, Json};
use vstd::prelude::*;
use vstd::string::*;

verus! {

/// Why a command failed.
#[derive(Debug, Clone, Copy, PartialEq, Eq, Structural)]
pub enum StoreError {
    /// The store's file could not be read, or its new text could not be
    /// produced or written.
    Io,
    /// The store's file does not hold a well-formed store.
    Parse,
    /// The store has no entry of the name asked for.
    UnknownLayer,
}

/// What reading the store's file gave.
#[derive(Debug)]
pub enum StoreFile {
    /// There is no file.
    Missing,
    /// There is a file, and it could not be opened or read.
    Unreadable,
    /// The file was read and holds no text.
    NotText,
    /// The file's text.
    Text(String),
}

/// What a reader does with a file whose text holds no store.
#[derive(Debug, Clone, Copy, PartialEq, Eq, Structural)]
pub enum OnCorrupt {
    /// It goes on with the empty store.
    StartEmpty,
    /// It fails with a `Parse` error.
    Fail,
}

/// The text of the file that keeps `doc`: the document as printed, and a
/// line end.
pub open spec fn store_text(doc: Json) -> Seq<char> {
    rendered(doc) + "\n"@
}

/// The file's text for what `serde_json` printed: that text and a line end.
/// Where it printed nothing the store cannot be written.
pub fn finish_text(printed: Result<String, serde_json::Error>) -> (r: Result<String, StoreError>)
    ensures
        match printed {
            Ok(text) => r is Ok && r->Ok_0@ == text@ + "\n"@,
            Err(_) => r == Err::<String, _>(StoreError::Io),
        },
{
    match printed {
        Ok(text) => {
            let mut out = text;
            out.append("\n");
            Ok(out)
        },
        Err(_) => Err(StoreError::Io),
    }
}

} // verus!
