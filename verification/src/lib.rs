//! Core of a file-tagging tool: an in-memory, persisted registry of
//! tag-to-file associations, a codec that stores a tag's presence as an
//! extended-attribute key, a length-framed binary wire protocol between a
//! short-lived client and a long-lived daemon, and the decision logic of the
//! daemon's request handler and reconciliation loop.
//!
//! Everything here computes on plain values; the surrounding binary performs
//! the socket, filesystem and extended-attribute calls and hands their
//! results to the functions of this crate.

use vstd::prelude::*;

pub mod client;
pub mod codec;
pub mod color;
pub mod config;
pub mod daemon;
pub mod error;
pub mod glob;
pub mod ipc;
pub mod opt;
pub mod registry;
pub mod snapshot;
pub mod store;
pub mod tag;
pub mod tags;
pub mod util;
pub mod wire;

verus! {

/// The reserved extended-attribute namespace: every marker key this tool
/// writes starts with this prefix followed by a dot.
pub open spec fn spec_namespace() -> Seq<char> {
    "user.wutag"@
}

/// Executable counterpart of [`spec_namespace`].
pub fn wutag_namespace() -> (r: &'static str)
    ensures
        r@ == spec_namespace(),
{
    "user.wutag"
}

/// Relies on std's `String::push`: appends the character to the end of the
/// string.
pub assume_specification[ String::push ](s: &mut String, c: char)
    ensures
        final(s)@ == old(s)@.push(c),
;

} // verus!
