//! The error taxonomy of the library.
//!
//! Batch operations collect these per item instead of aborting; enumeration
//! of foreign attribute keys swallows decode failures; lock contention is
//! retryable while a poisoned lock is fatal.

use vstd::prelude::*;

verus! {

/// Every failure the core distinguishes.
#[derive(Clone, Debug)]
pub enum Error {
    /// The tag is already attached to the file.
    TagExists,
    /// No tag of this name is attached to the file.
    TagNotFound(String),
    /// An attribute key under the namespace that does not parse back to a
    /// tag name.
    InvalidTagKey(String),
    /// The per-file attribute capacity is exhausted; further tags on this
    /// file are futile.
    TagListFull,
    /// The attribute set changed between the size query and the fetch.
    AttrsChanged,
    /// The string is not a six-digit hex color.
    InvalidColor(String),
    /// A wire payload or a persisted snapshot that does not decode.
    DecodeError,
    /// A connection or framing failure; aborts only the exchange in
    /// progress.
    Transport(String),
    /// The registry lock stayed contended through the bounded retries; the
    /// operation is skipped.
    LockContended,
    /// A previous holder of the registry lock failed; fatal.
    LockPoisoned,
    /// Any other failure, carried as a message.
    Other(String),
}

/// What [`Error::message`] renders, variant by variant.
pub open spec fn spec_message(e: Error) -> Seq<char> {
    match e {
        Error::TagExists => "tag already exists"@,
        Error::TagNotFound(name) => "tag `"@ + name@ + "` doesn't exist"@,
        Error::InvalidTagKey(key) => "tag key was invalid - "@ + key@,
        Error::TagListFull => "xattributes limit reached on the file"@,
        Error::AttrsChanged => "xattrs changed while getting their size"@,
        Error::InvalidColor(c) => "provided color `"@ + c@ + "` is not a valid hex color"@,
        Error::DecodeError => "failed to decode payload"@,
        Error::Transport(msg) => "transport failure - "@ + msg@,
        Error::LockContended => "failed to acquire lock for registry"@,
        Error::LockPoisoned => "failed to acquire poisoned lock"@,
        Error::Other(msg) => "error: "@ + msg@,
    }
}

impl Error {
    /// A plain-text rendering of the error, one line.
    pub fn message(&self) -> (r: String)
        ensures
            r@ == spec_message(*self),
    {
        match self {
            Error::TagExists => "tag already exists".to_owned(),
            Error::TagNotFound(name) => {
                let mut m = "tag `".to_owned();
                m.append(name.as_str());
                m.append("` doesn't exist");
                m
            },
            Error::InvalidTagKey(key) => {
                let mut m = "tag key was invalid - ".to_owned();
                m.append(key.as_str());
                m
            },
            Error::TagListFull => "xattributes limit reached on the file".to_owned(),
            Error::AttrsChanged => "xattrs changed while getting their size".to_owned(),
            Error::InvalidColor(c) => {
                let mut m = "provided color `".to_owned();
                m.append(c.as_str());
                m.append("` is not a valid hex color");
                m
            },
            Error::DecodeError => "failed to decode payload".to_owned(),
            Error::Transport(msg) => {
                let mut m = "transport failure - ".to_owned();
                m.append(msg.as_str());
                m
            },
            Error::LockContended => "failed to acquire lock for registry".to_owned(),
            Error::LockPoisoned => "failed to acquire poisoned lock".to_owned(),
            Error::Other(msg) => {
                let mut m = "error: ".to_owned();
                m.append(msg.as_str());
                m
            },
        }
    }
}

/// Classifies a failed OS attribute call, from the two facts the caller
/// reads off the OS error: whether its kind is "already exists", and its raw
/// errno. `ENOATTR` (61) means the attribute is absent, `ENOSPC` (28) means
/// the file's attribute capacity is exhausted; anything else is carried as a
/// plain message.
pub fn error_from_os(already_exists: bool, raw_code: i32, msg: String) -> (r: Error)
    ensures
        already_exists ==> r is TagExists,
        !already_exists && raw_code == 61 ==> r is TagNotFound && r->TagNotFound_0@ == Seq::<char>::empty(),
        !already_exists && raw_code == 28 ==> r is TagListFull,
        !already_exists && raw_code != 61 && raw_code != 28 ==> r is Other && r->Other_0@ == msg@,
{
    if already_exists {
        Error::TagExists
    } else if raw_code == 61 {
        Error::TagNotFound(String::new())
    } else if raw_code == 28 {
        Error::TagListFull
    } else {
        Error::Other(msg)
    }
}

} // verus!
