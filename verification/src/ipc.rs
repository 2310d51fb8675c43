//! The IPC message layer: the closed request/response unions, their wire
//! encodings, and the length framing.
//!
//! Every message travels as an eight-byte big-endian length followed by
//! exactly that many payload bytes; the payload is the self-describing
//! binary encoding of one request or response. One connection carries one
//! request and one response.

use vstd::prelude::*;
use crate::color::Color;
use crate::glob::Glob;
use crate::registry::EntryData;
use crate::tag::Tag;
use crate::wire::Wire;
use crate::wire::enc_u64;
use crate::wire::dec_u64;
use crate::wire::encode_u64;
use crate::wire::decode_u64;
use crate::wire::lemma_subrange_split;

verus! {

/// Reading one byte at `pos`.
pub open spec fn dec_u8(b: Seq<u8>, pos: int) -> Option<(u8, int)> {
    if 0 <= pos < b.len() {
        Some((b[pos], pos + 1))
    } else {
        None
    }
}

/// A window holding a tag byte and a payload splits into the two.
pub proof fn lemma_tag_byte(b: Seq<u8>, pos: int, t: u8, rest: Seq<u8>)
    requires
        0 <= pos,
        pos + 1 + rest.len() <= b.len(),
        b.subrange(pos, pos + 1 + rest.len()) == seq![t] + rest,
    ensures
        b[pos] == t,
        b.subrange(pos + 1, pos + 1 + rest.len()) == rest,
{
    lemma_subrange_split(b, pos, seq![t], rest);
    assert(b.subrange(pos, pos + 1)[0] == b[pos]);
}

/// One request from a client to the daemon. Every mutating request has an
/// explicit-path variant and a glob variant; the handler resolves the glob
/// and delegates to the same implementation.
#[derive(Debug)]
pub enum Request {
    TagFiles { files: Vec<String>, tags: Vec<Tag> },
    TagFilesPattern { glob: Glob, tags: Vec<Tag> },
    UntagFiles { files: Vec<String>, tags: Vec<Tag> },
    UntagFilesPattern { glob: Glob, tags: Vec<Tag> },
    EditTag { tag: String, color: Color },
    ClearFiles { files: Vec<String> },
    ClearFilesPattern { glob: Glob },
    ClearTags { tags: Vec<String> },
    CopyTags { source: String, target: Vec<String> },
    CopyTagsPattern { source: String, glob: Glob },
    ListTags { with_files: bool },
    ListFiles { with_tags: bool },
    InspectFiles { files: Vec<String> },
    InspectFilesPattern { glob: Glob },
    Search { tags: Vec<String>, any: bool },
    Ping,
    ClearCache,
}

/// The abstract form of a request: the same variants over plain
/// mathematical values.
pub enum ReqV {
    TagFiles { files: Seq<Seq<char>>, tags: Seq<(Seq<char>, Color)> },
    TagFilesPattern { glob: (Seq<char>, Seq<char>, u64), tags: Seq<(Seq<char>, Color)> },
    UntagFiles { files: Seq<Seq<char>>, tags: Seq<(Seq<char>, Color)> },
    UntagFilesPattern { glob: (Seq<char>, Seq<char>, u64), tags: Seq<(Seq<char>, Color)> },
    EditTag { tag: Seq<char>, color: Color },
    ClearFiles { files: Seq<Seq<char>> },
    ClearFilesPattern { glob: (Seq<char>, Seq<char>, u64) },
    ClearTags { tags: Seq<Seq<char>> },
    CopyTags { source: Seq<char>, target: Seq<Seq<char>> },
    CopyTagsPattern { source: Seq<char>, glob: (Seq<char>, Seq<char>, u64) },
    ListTags { with_files: bool },
    ListFiles { with_tags: bool },
    InspectFiles { files: Seq<Seq<char>> },
    InspectFilesPattern { glob: (Seq<char>, Seq<char>, u64) },
    Search { tags: Seq<Seq<char>>, any: bool },
    Ping,
    ClearCache,
}

impl Wire for Request {
    type V = ReqV;

    open spec fn wire_view(&self) -> ReqV {
        match self {
            Request::TagFiles { files, tags } => ReqV::TagFiles {
                files: files.wire_view(),
                tags: tags.wire_view(),
            },
            Request::TagFilesPattern { glob, tags } => ReqV::TagFilesPattern {
                glob: glob.wire_view(),
                tags: tags.wire_view(),
            },
            Request::UntagFiles { files, tags } => ReqV::UntagFiles {
                files: files.wire_view(),
                tags: tags.wire_view(),
            },
            Request::UntagFilesPattern { glob, tags } => ReqV::UntagFilesPattern {
                glob: glob.wire_view(),
                tags: tags.wire_view(),
            },
            Request::EditTag { tag, color } => ReqV::EditTag { tag: tag@, color: *color },
            Request::ClearFiles { files } => ReqV::ClearFiles { files: files.wire_view() },
            Request::ClearFilesPattern { glob } => ReqV::ClearFilesPattern {
                glob: glob.wire_view(),
            },
            Request::ClearTags { tags } => ReqV::ClearTags { tags: tags.wire_view() },
            Request::CopyTags { source, target } => ReqV::CopyTags {
                source: source@,
                target: target.wire_view(),
            },
            Request::CopyTagsPattern { source, glob } => ReqV::CopyTagsPattern {
                source: source@,
                glob: glob.wire_view(),
            },
            Request::ListTags { with_files } => ReqV::ListTags { with_files: *with_files },
            Request::ListFiles { with_tags } => ReqV::ListFiles { with_tags: *with_tags },
            Request::InspectFiles { files } => ReqV::InspectFiles { files: files.wire_view() },
            Request::InspectFilesPattern { glob } => ReqV::InspectFilesPattern {
                glob: glob.wire_view(),
            },
            Request::Search { tags, any } => ReqV::Search { tags: tags.wire_view(), any: *any },
            Request::Ping => ReqV::Ping,
            Request::ClearCache => ReqV::ClearCache,
        }
    }

    open spec fn wf_v(v: ReqV) -> bool {
        match v {
            ReqV::TagFiles { files, tags } => <Vec<String> as Wire>::wf_v(files) && <Vec<
                Tag,
            > as Wire>::wf_v(tags),
            ReqV::TagFilesPattern { glob, tags } => <Glob as Wire>::wf_v(glob) && <Vec<
                Tag,
            > as Wire>::wf_v(tags),
            ReqV::UntagFiles { files, tags } => <Vec<String> as Wire>::wf_v(files) && <Vec<
                Tag,
            > as Wire>::wf_v(tags),
            ReqV::UntagFilesPattern { glob, tags } => <Glob as Wire>::wf_v(glob) && <Vec<
                Tag,
            > as Wire>::wf_v(tags),
            ReqV::EditTag { tag, color } => <String as Wire>::wf_v(tag),
            ReqV::ClearFiles { files } => <Vec<String> as Wire>::wf_v(files),
            ReqV::ClearFilesPattern { glob } => <Glob as Wire>::wf_v(glob),
            ReqV::ClearTags { tags } => <Vec<String> as Wire>::wf_v(tags),
            ReqV::CopyTags { source, target } => <String as Wire>::wf_v(source) && <Vec<
                String,
            > as Wire>::wf_v(target),
            ReqV::CopyTagsPattern { source, glob } => <String as Wire>::wf_v(source) && <Glob as Wire>::wf_v(glob),
            ReqV::ListTags { with_files } => true,
            ReqV::ListFiles { with_tags } => true,
            ReqV::InspectFiles { files } => <Vec<String> as Wire>::wf_v(files),
            ReqV::InspectFilesPattern { glob } => <Glob as Wire>::wf_v(glob),
            ReqV::Search { tags, any } => <Vec<String> as Wire>::wf_v(tags),
            ReqV::Ping => true,
            ReqV::ClearCache => true,
        }
    }

    open spec fn enc(v: ReqV) -> Seq<u8> {
        match v {
            ReqV::TagFiles { files, tags } => seq![0u8] + (<Vec<String> as Wire>::enc(files)
                + <Vec<Tag> as Wire>::enc(tags)),
            ReqV::TagFilesPattern { glob, tags } => seq![1u8] + (<Glob as Wire>::enc(glob) + <Vec<
                Tag,
            > as Wire>::enc(tags)),
            ReqV::UntagFiles { files, tags } => seq![2u8] + (<Vec<String> as Wire>::enc(files)
                + <Vec<Tag> as Wire>::enc(tags)),
            ReqV::UntagFilesPattern { glob, tags } => seq![3u8] + (<Glob as Wire>::enc(glob) + <Vec<
                Tag,
            > as Wire>::enc(tags)),
            ReqV::EditTag { tag, color } => seq![4u8] + (<String as Wire>::enc(tag)
                + <Color as Wire>::enc(color)),
            ReqV::ClearFiles { files } => seq![5u8] + <Vec<String> as Wire>::enc(files),
            ReqV::ClearFilesPattern { glob } => seq![6u8] + <Glob as Wire>::enc(glob),
            ReqV::ClearTags { tags } => seq![7u8] + <Vec<String> as Wire>::enc(tags),
            ReqV::CopyTags { source, target } => seq![8u8] + (<String as Wire>::enc(source) + <Vec<
                String,
            > as Wire>::enc(target)),
            ReqV::CopyTagsPattern { source, glob } => seq![9u8] + (<String as Wire>::enc(source)
                + <Glob as Wire>::enc(glob)),
            ReqV::ListTags { with_files } => seq![10u8] + <bool as Wire>::enc(with_files),
            ReqV::ListFiles { with_tags } => seq![11u8] + <bool as Wire>::enc(with_tags),
            ReqV::InspectFiles { files } => seq![12u8] + <Vec<String> as Wire>::enc(files),
            ReqV::InspectFilesPattern { glob } => seq![13u8] + <Glob as Wire>::enc(glob),
            ReqV::Search { tags, any } => seq![14u8] + (<Vec<String> as Wire>::enc(tags)
                + <bool as Wire>::enc(any)),
            ReqV::Ping => seq![15u8],
            ReqV::ClearCache => seq![16u8],
        }
    }

    open spec fn dec(b: Seq<u8>, pos: int) -> Option<(ReqV, int)> {
        match dec_u8(b, pos) {
            Some((t, p)) => {
                if t == 0 {
                    match <Vec<String> as Wire>::dec(b, p) {
                        Some((files, p1)) => match <Vec<Tag> as Wire>::dec(b, p1) {
                            Some((tags, e)) => Some((ReqV::TagFiles { files, tags }, e)),
                            None => None,
                        },
                        None => None,
                    }
                } else if t == 1 {
                    match <Glob as Wire>::dec(b, p) {
                        Some((glob, p1)) => match <Vec<Tag> as Wire>::dec(b, p1) {
                            Some((tags, e)) => Some((ReqV::TagFilesPattern { glob, tags }, e)),
                            None => None,
                        },
                        None => None,
                    }
                } else if t == 2 {
                    match <Vec<String> as Wire>::dec(b, p) {
                        Some((files, p1)) => match <Vec<Tag> as Wire>::dec(b, p1) {
                            Some((tags, e)) => Some((ReqV::UntagFiles { files, tags }, e)),
                            None => None,
                        },
                        None => None,
                    }
                } else if t == 3 {
                    match <Glob as Wire>::dec(b, p) {
                        Some((glob, p1)) => match <Vec<Tag> as Wire>::dec(b, p1) {
                            Some((tags, e)) => Some((ReqV::UntagFilesPattern { glob, tags }, e)),
                            None => None,
                        },
                        None => None,
                    }
                } else if t == 4 {
                    match <String as Wire>::dec(b, p) {
                        Some((tag, p1)) => match <Color as Wire>::dec(b, p1) {
                            Some((color, e)) => Some((ReqV::EditTag { tag, color }, e)),
                            None => None,
                        },
                        None => None,
                    }
                } else if t == 5 {
                    match <Vec<String> as Wire>::dec(b, p) {
                        Some((files, e)) => Some((ReqV::ClearFiles { files }, e)),
                        None => None,
                    }
                } else if t == 6 {
                    match <Glob as Wire>::dec(b, p) {
                        Some((glob, e)) => Some((ReqV::ClearFilesPattern { glob }, e)),
                        None => None,
                    }
                } else if t == 7 {
                    match <Vec<String> as Wire>::dec(b, p) {
                        Some((tags, e)) => Some((ReqV::ClearTags { tags }, e)),
                        None => None,
                    }
                } else if t == 8 {
                    match <String as Wire>::dec(b, p) {
                        Some((source, p1)) => match <Vec<String> as Wire>::dec(b, p1) {
                            Some((target, e)) => Some((ReqV::CopyTags { source, target }, e)),
                            None => None,
                        },
                        None => None,
                    }
                } else if t == 9 {
                    match <String as Wire>::dec(b, p) {
                        Some((source, p1)) => match <Glob as Wire>::dec(b, p1) {
                            Some((glob, e)) => Some((ReqV::CopyTagsPattern { source, glob }, e)),
                            None => None,
                        },
                        None => None,
                    }
                } else if t == 10 {
                    match <bool as Wire>::dec(b, p) {
                        Some((with_files, e)) => Some((ReqV::ListTags { with_files }, e)),
                        None => None,
                    }
                } else if t == 11 {
                    match <bool as Wire>::dec(b, p) {
                        Some((with_tags, e)) => Some((ReqV::ListFiles { with_tags }, e)),
                        None => None,
                    }
                } else if t == 12 {
                    match <Vec<String> as Wire>::dec(b, p) {
                        Some((files, e)) => Some((ReqV::InspectFiles { files }, e)),
                        None => None,
                    }
                } else if t == 13 {
                    match <Glob as Wire>::dec(b, p) {
                        Some((glob, e)) => Some((ReqV::InspectFilesPattern { glob }, e)),
                        None => None,
                    }
                } else if t == 14 {
                    match <Vec<String> as Wire>::dec(b, p) {
                        Some((tags, p1)) => match <bool as Wire>::dec(b, p1) {
                            Some((any, e)) => Some((ReqV::Search { tags, any }, e)),
                            None => None,
                        },
                        None => None,
                    }
                } else if t == 15 {
                    Some((ReqV::Ping, p))
                } else if t == 16 {
                    Some((ReqV::ClearCache, p))
                } else {
                    None
                }
            },
            None => None,
        }
    }

    #[verifier::rlimit(100)]
    #[verifier::spinoff_prover]
    proof fn lemma_dec_enc(b: Seq<u8>, pos: int, v: ReqV) {
        match v {
            ReqV::TagFiles { files, tags } => {
                let e0 = <Vec<String> as Wire>::enc(files);
                let e1 = <Vec<Tag> as Wire>::enc(tags);
                lemma_tag_byte(b, pos, 0u8, e0 + e1);
                lemma_subrange_split(b, pos + 1, e0, e1);
                <Vec<String> as Wire>::lemma_dec_enc(b, pos + 1, files);
                <Vec<Tag> as Wire>::lemma_dec_enc(b, pos + 1 + e0.len(), tags);
            },
            ReqV::TagFilesPattern { glob, tags } => {
                let e0 = <Glob as Wire>::enc(glob);
                let e1 = <Vec<Tag> as Wire>::enc(tags);
                lemma_tag_byte(b, pos, 1u8, e0 + e1);
                lemma_subrange_split(b, pos + 1, e0, e1);
                <Glob as Wire>::lemma_dec_enc(b, pos + 1, glob);
                <Vec<Tag> as Wire>::lemma_dec_enc(b, pos + 1 + e0.len(), tags);
            },
            ReqV::UntagFiles { files, tags } => {
                let e0 = <Vec<String> as Wire>::enc(files);
                let e1 = <Vec<Tag> as Wire>::enc(tags);
                lemma_tag_byte(b, pos, 2u8, e0 + e1);
                lemma_subrange_split(b, pos + 1, e0, e1);
                <Vec<String> as Wire>::lemma_dec_enc(b, pos + 1, files);
                <Vec<Tag> as Wire>::lemma_dec_enc(b, pos + 1 + e0.len(), tags);
            },
            ReqV::UntagFilesPattern { glob, tags } => {
                let e0 = <Glob as Wire>::enc(glob);
                let e1 = <Vec<Tag> as Wire>::enc(tags);
                lemma_tag_byte(b, pos, 3u8, e0 + e1);
                lemma_subrange_split(b, pos + 1, e0, e1);
                <Glob as Wire>::lemma_dec_enc(b, pos + 1, glob);
                <Vec<Tag> as Wire>::lemma_dec_enc(b, pos + 1 + e0.len(), tags);
            },
            ReqV::EditTag { tag, color } => {
                let e0 = <String as Wire>::enc(tag);
                let e1 = <Color as Wire>::enc(color);
                lemma_tag_byte(b, pos, 4u8, e0 + e1);
                lemma_subrange_split(b, pos + 1, e0, e1);
                <String as Wire>::lemma_dec_enc(b, pos + 1, tag);
                <Color as Wire>::lemma_dec_enc(b, pos + 1 + e0.len(), color);
            },
            ReqV::ClearFiles { files } => {
                let e0 = <Vec<String> as Wire>::enc(files);
                lemma_tag_byte(b, pos, 5u8, e0);
                <Vec<String> as Wire>::lemma_dec_enc(b, pos + 1, files);
            },
            ReqV::ClearFilesPattern { glob } => {
                let e0 = <Glob as Wire>::enc(glob);
                lemma_tag_byte(b, pos, 6u8, e0);
                <Glob as Wire>::lemma_dec_enc(b, pos + 1, glob);
            },
            ReqV::ClearTags { tags } => {
                let e0 = <Vec<String> as Wire>::enc(tags);
                lemma_tag_byte(b, pos, 7u8, e0);
                <Vec<String> as Wire>::lemma_dec_enc(b, pos + 1, tags);
            },
            ReqV::CopyTags { source, target } => {
                let e0 = <String as Wire>::enc(source);
                let e1 = <Vec<String> as Wire>::enc(target);
                lemma_tag_byte(b, pos, 8u8, e0 + e1);
                lemma_subrange_split(b, pos + 1, e0, e1);
                <String as Wire>::lemma_dec_enc(b, pos + 1, source);
                <Vec<String> as Wire>::lemma_dec_enc(b, pos + 1 + e0.len(), target);
            },
            ReqV::CopyTagsPattern { source, glob } => {
                let e0 = <String as Wire>::enc(source);
                let e1 = <Glob as Wire>::enc(glob);
                lemma_tag_byte(b, pos, 9u8, e0 + e1);
                lemma_subrange_split(b, pos + 1, e0, e1);
                <String as Wire>::lemma_dec_enc(b, pos + 1, source);
                <Glob as Wire>::lemma_dec_enc(b, pos + 1 + e0.len(), glob);
            },
            ReqV::ListTags { with_files } => {
                let e0 = <bool as Wire>::enc(with_files);
                lemma_tag_byte(b, pos, 10u8, e0);
                <bool as Wire>::lemma_dec_enc(b, pos + 1, with_files);
            },
            ReqV::ListFiles { with_tags } => {
                let e0 = <bool as Wire>::enc(with_tags);
                lemma_tag_byte(b, pos, 11u8, e0);
                <bool as Wire>::lemma_dec_enc(b, pos + 1, with_tags);
            },
            ReqV::InspectFiles { files } => {
                let e0 = <Vec<String> as Wire>::enc(files);
                lemma_tag_byte(b, pos, 12u8, e0);
                <Vec<String> as Wire>::lemma_dec_enc(b, pos + 1, files);
            },
            ReqV::InspectFilesPattern { glob } => {
                let e0 = <Glob as Wire>::enc(glob);
                lemma_tag_byte(b, pos, 13u8, e0);
                <Glob as Wire>::lemma_dec_enc(b, pos + 1, glob);
            },
            ReqV::Search { tags, any } => {
                let e0 = <Vec<String> as Wire>::enc(tags);
                let e1 = <bool as Wire>::enc(any);
                lemma_tag_byte(b, pos, 14u8, e0 + e1);
                lemma_subrange_split(b, pos + 1, e0, e1);
                <Vec<String> as Wire>::lemma_dec_enc(b, pos + 1, tags);
                <bool as Wire>::lemma_dec_enc(b, pos + 1 + e0.len(), any);
            },
            ReqV::Ping => {
                assert(b.subrange(pos, pos + 1) =~= seq![15u8] + Seq::<u8>::empty());
                lemma_tag_byte(b, pos, 15u8, Seq::empty());
            },
            ReqV::ClearCache => {
                assert(b.subrange(pos, pos + 1) =~= seq![16u8] + Seq::<u8>::empty());
                lemma_tag_byte(b, pos, 16u8, Seq::empty());
            },
        }
    }

    proof fn lemma_dec_ok(b: Seq<u8>, pos: int) {
        match dec_u8(b, pos) {
            Some((t, p)) => {
                <Vec<String> as Wire>::lemma_dec_ok(b, p);
                <Vec<Tag> as Wire>::lemma_dec_ok(b, p);
                <Glob as Wire>::lemma_dec_ok(b, p);
                <String as Wire>::lemma_dec_ok(b, p);
                <bool as Wire>::lemma_dec_ok(b, p);
                match <Vec<String> as Wire>::dec(b, p) {
                    Some((x, p1)) => {
                        <Vec<Tag> as Wire>::lemma_dec_ok(b, p1);
                        <bool as Wire>::lemma_dec_ok(b, p1);
                    },
                    None => {},
                }
                match <Glob as Wire>::dec(b, p) {
                    Some((x, p1)) => {
                        <Vec<Tag> as Wire>::lemma_dec_ok(b, p1);
                    },
                    None => {},
                }
                match <String as Wire>::dec(b, p) {
                    Some((x, p1)) => {
                        <Color as Wire>::lemma_dec_ok(b, p1);
                        <Vec<String> as Wire>::lemma_dec_ok(b, p1);
                        <Glob as Wire>::lemma_dec_ok(b, p1);
                    },
                    None => {},
                }
            },
            None => {},
        }
    }

    fn encode(&self, buf: &mut Vec<u8>) {
        match self {
            Request::TagFiles { files, tags } => {
                buf.push(0u8);
                files.encode(buf);
                tags.encode(buf);
            },
            Request::TagFilesPattern { glob, tags } => {
                buf.push(1u8);
                glob.encode(buf);
                tags.encode(buf);
            },
            Request::UntagFiles { files, tags } => {
                buf.push(2u8);
                files.encode(buf);
                tags.encode(buf);
            },
            Request::UntagFilesPattern { glob, tags } => {
                buf.push(3u8);
                glob.encode(buf);
                tags.encode(buf);
            },
            Request::EditTag { tag, color } => {
                buf.push(4u8);
                tag.encode(buf);
                color.encode(buf);
            },
            Request::ClearFiles { files } => {
                buf.push(5u8);
                files.encode(buf);
            },
            Request::ClearFilesPattern { glob } => {
                buf.push(6u8);
                glob.encode(buf);
            },
            Request::ClearTags { tags } => {
                buf.push(7u8);
                tags.encode(buf);
            },
            Request::CopyTags { source, target } => {
                buf.push(8u8);
                source.encode(buf);
                target.encode(buf);
            },
            Request::CopyTagsPattern { source, glob } => {
                buf.push(9u8);
                source.encode(buf);
                glob.encode(buf);
            },
            Request::ListTags { with_files } => {
                buf.push(10u8);
                with_files.encode(buf);
            },
            Request::ListFiles { with_tags } => {
                buf.push(11u8);
                with_tags.encode(buf);
            },
            Request::InspectFiles { files } => {
                buf.push(12u8);
                files.encode(buf);
            },
            Request::InspectFilesPattern { glob } => {
                buf.push(13u8);
                glob.encode(buf);
            },
            Request::Search { tags, any } => {
                buf.push(14u8);
                tags.encode(buf);
                any.encode(buf);
            },
            Request::Ping => {
                buf.push(15u8);
            },
            Request::ClearCache => {
                buf.push(16u8);
            },
        }
        proof {
            assert(buf@ =~= old(buf)@ + Self::enc(self.wire_view()));
        }
    }

    fn decode(b: &Vec<u8>, pos: usize) -> (r: Option<(Request, usize)>) {
        if pos >= b.len() {
            return None;
        }
        let t = b[pos];
        let p = pos + 1;
        if t == 0 {
            match <Vec<String> as Wire>::decode(b, p) {
                Some((files, p1)) => match <Vec<Tag> as Wire>::decode(b, p1) {
                    Some((tags, e)) => Some((Request::TagFiles { files, tags }, e)),
                    None => None,
                },
                None => None,
            }
        } else if t == 1 {
            match <Glob as Wire>::decode(b, p) {
                Some((glob, p1)) => match <Vec<Tag> as Wire>::decode(b, p1) {
                    Some((tags, e)) => Some((Request::TagFilesPattern { glob, tags }, e)),
                    None => None,
                },
                None => None,
            }
        } else if t == 2 {
            match <Vec<String> as Wire>::decode(b, p) {
                Some((files, p1)) => match <Vec<Tag> as Wire>::decode(b, p1) {
                    Some((tags, e)) => Some((Request::UntagFiles { files, tags }, e)),
                    None => None,
                },
                None => None,
            }
        } else if t == 3 {
            match <Glob as Wire>::decode(b, p) {
                Some((glob, p1)) => match <Vec<Tag> as Wire>::decode(b, p1) {
                    Some((tags, e)) => Some((Request::UntagFilesPattern { glob, tags }, e)),
                    None => None,
                },
                None => None,
            }
        } else if t == 4 {
            match <String as Wire>::decode(b, p) {
                Some((tag, p1)) => match <Color as Wire>::decode(b, p1) {
                    Some((color, e)) => Some((Request::EditTag { tag, color }, e)),
                    None => None,
                },
                None => None,
            }
        } else if t == 5 {
            match <Vec<String> as Wire>::decode(b, p) {
                Some((files, e)) => Some((Request::ClearFiles { files }, e)),
                None => None,
            }
        } else if t == 6 {
            match <Glob as Wire>::decode(b, p) {
                Some((glob, e)) => Some((Request::ClearFilesPattern { glob }, e)),
                None => None,
            }
        } else if t == 7 {
            match <Vec<String> as Wire>::decode(b, p) {
                Some((tags, e)) => Some((Request::ClearTags { tags }, e)),
                None => None,
            }
        } else if t == 8 {
            match <String as Wire>::decode(b, p) {
                Some((source, p1)) => match <Vec<String> as Wire>::decode(b, p1) {
                    Some((target, e)) => Some((Request::CopyTags { source, target }, e)),
                    None => None,
                },
                None => None,
            }
        } else if t == 9 {
            match <String as Wire>::decode(b, p) {
                Some((source, p1)) => match <Glob as Wire>::decode(b, p1) {
                    Some((glob, e)) => Some((Request::CopyTagsPattern { source, glob }, e)),
                    None => None,
                },
                None => None,
            }
        } else if t == 10 {
            match <bool as Wire>::decode(b, p) {
                Some((with_files, e)) => Some((Request::ListTags { with_files }, e)),
                None => None,
            }
        } else if t == 11 {
            match <bool as Wire>::decode(b, p) {
                Some((with_tags, e)) => Some((Request::ListFiles { with_tags }, e)),
                None => None,
            }
        } else if t == 12 {
            match <Vec<String> as Wire>::decode(b, p) {
                Some((files, e)) => Some((Request::InspectFiles { files }, e)),
                None => None,
            }
        } else if t == 13 {
            match <Glob as Wire>::decode(b, p) {
                Some((glob, e)) => Some((Request::InspectFilesPattern { glob }, e)),
                None => None,
            }
        } else if t == 14 {
            match <Vec<String> as Wire>::decode(b, p) {
                Some((tags, p1)) => match <bool as Wire>::decode(b, p1) {
                    Some((any, e)) => Some((Request::Search { tags, any }, e)),
                    None => None,
                },
                None => None,
            }
        } else if t == 15 {
            Some((Request::Ping, p))
        } else if t == 16 {
            Some((Request::ClearCache, p))
        } else {
            None
        }
    }
}

/// Decoding an encoded request yields back exactly the request: the wire
/// round trip, for every variant at once.
pub proof fn lemma_request_round_trip(v: ReqV)
    requires
        <Request as Wire>::wf_v(v),
    ensures
        <Request as Wire>::dec(<Request as Wire>::enc(v), 0) == Some(
            (v, <Request as Wire>::enc(v).len() as int),
        ),
{
    let b = <Request as Wire>::enc(v);
    assert(b.subrange(0, b.len() as int) =~= b);
    <Request as Wire>::lemma_dec_enc(b, 0, v);
}

impl Wire for () {
    type V = ();

    open spec fn wire_view(&self) -> () {
        ()
    }

    open spec fn wf_v(v: ()) -> bool {
        true
    }

    open spec fn enc(v: ()) -> Seq<u8> {
        seq![0u8]
    }

    open spec fn dec(b: Seq<u8>, pos: int) -> Option<((), int)> {
        if 0 <= pos < b.len() && b[pos] == 0u8 {
            Some(((), pos + 1))
        } else {
            None
        }
    }

    proof fn lemma_dec_enc(b: Seq<u8>, pos: int, v: ()) {
        assert(b.subrange(pos, pos + 1)[0] == b[pos]);
    }

    proof fn lemma_dec_ok(b: Seq<u8>, pos: int) {
    }

    fn encode(&self, buf: &mut Vec<u8>) {
        buf.push(0u8);
        proof {
            assert(buf@ =~= old(buf)@ + Self::enc(()));
        }
    }

    fn decode(b: &Vec<u8>, pos: usize) -> (r: Option<((), usize)>) {
        if pos < b.len() && b[pos] == 0 {
            Some(((), pos + 1))
        } else {
            None
        }
    }
}

/// A success payload or a per-operation error payload; batched operations
/// carry one error string per failed item.
#[derive(Debug)]
pub enum PayloadResult<T, E> {
    Value(T),
    Error(E),
}

impl<T, E> PayloadResult<T, E> {
    /// This payload as a plain `Result`.
    pub fn to_result(self) -> (r: Result<T, E>)
        ensures
            self is Value <==> r is Ok,
            forall|t: T| self == PayloadResult::<T, E>::Value(t) ==> r == Result::<T, E>::Ok(t),
            forall|e: E| self == PayloadResult::<T, E>::Error(e) ==> r == Result::<T, E>::Err(e),
    {
        match self {
            PayloadResult::Value(t) => Ok(t),
            PayloadResult::Error(e) => Err(e),
        }
    }
}

impl<T: Wire, E: Wire> Wire for PayloadResult<T, E> {
    type V = Result<T::V, E::V>;

    open spec fn wire_view(&self) -> Result<T::V, E::V> {
        match self {
            PayloadResult::Value(t) => Ok(t.wire_view()),
            PayloadResult::Error(e) => Err(e.wire_view()),
        }
    }

    open spec fn wf_v(v: Result<T::V, E::V>) -> bool {
        match v {
            Ok(t) => T::wf_v(t),
            Err(e) => E::wf_v(e),
        }
    }

    open spec fn enc(v: Result<T::V, E::V>) -> Seq<u8> {
        match v {
            Ok(t) => seq![0u8] + T::enc(t),
            Err(e) => seq![1u8] + E::enc(e),
        }
    }

    open spec fn dec(b: Seq<u8>, pos: int) -> Option<(Result<T::V, E::V>, int)> {
        match dec_u8(b, pos) {
            Some((t, p)) => {
                if t == 0 {
                    match T::dec(b, p) {
                        Some((x, e)) => Some((Ok(x), e)),
                        None => None,
                    }
                } else if t == 1 {
                    match E::dec(b, p) {
                        Some((x, e)) => Some((Err(x), e)),
                        None => None,
                    }
                } else {
                    None
                }
            },
            None => None,
        }
    }

    proof fn lemma_dec_enc(b: Seq<u8>, pos: int, v: Result<T::V, E::V>) {
        match v {
            Ok(t) => {
                lemma_tag_byte(b, pos, 0u8, T::enc(t));
                T::lemma_dec_enc(b, pos + 1, t);
            },
            Err(e) => {
                lemma_tag_byte(b, pos, 1u8, E::enc(e));
                E::lemma_dec_enc(b, pos + 1, e);
            },
        }
    }

    proof fn lemma_dec_ok(b: Seq<u8>, pos: int) {
        match dec_u8(b, pos) {
            Some((t, p)) => {
                T::lemma_dec_ok(b, p);
                E::lemma_dec_ok(b, p);
            },
            None => {},
        }
    }

    fn encode(&self, buf: &mut Vec<u8>) {
        match self {
            PayloadResult::Value(t) => {
                buf.push(0u8);
                t.encode(buf);
            },
            PayloadResult::Error(e) => {
                buf.push(1u8);
                e.encode(buf);
            },
        }
        proof {
            assert(buf@ =~= old(buf)@ + Self::enc(self.wire_view()));
        }
    }

    fn decode(b: &Vec<u8>, pos: usize) -> (r: Option<(PayloadResult<T, E>, usize)>) {
        if pos >= b.len() {
            return None;
        }
        let t = b[pos];
        let p = pos + 1;
        if t == 0 {
            match T::decode(b, p) {
                Some((x, e)) => Some((PayloadResult::Value(x), e)),
                None => None,
            }
        } else if t == 1 {
            match E::decode(b, p) {
                Some((x, e)) => Some((PayloadResult::Error(x), e)),
                None => None,
            }
        } else {
            None
        }
    }
}

/// One response from the daemon, mirroring the request that prompted it.
#[derive(Debug)]
pub enum Response {
    TagFiles(PayloadResult<(), Vec<String>>),
    UntagFiles(PayloadResult<(), Vec<String>>),
    EditTag(PayloadResult<(), String>),
    CopyTags(PayloadResult<(), Vec<String>>),
    ClearFiles(PayloadResult<(), Vec<String>>),
    ClearTags(PayloadResult<(), Vec<String>>),
    ListTags(PayloadResult<Vec<(Tag, Vec<EntryData>)>, String>),
    ListFiles(PayloadResult<Vec<(EntryData, Vec<Tag>)>, String>),
    InspectFiles(PayloadResult<Vec<(EntryData, Vec<Tag>)>, String>),
    Search(PayloadResult<Vec<EntryData>, String>),
    Ping(PayloadResult<(), String>),
    ClearCache(PayloadResult<(), String>),
}

/// The abstract form of a response.
pub enum RespV {
    TagFiles(Result<(), Seq<Seq<char>>>),
    UntagFiles(Result<(), Seq<Seq<char>>>),
    EditTag(Result<(), Seq<char>>),
    CopyTags(Result<(), Seq<Seq<char>>>),
    ClearFiles(Result<(), Seq<Seq<char>>>),
    ClearTags(Result<(), Seq<Seq<char>>>),
    ListTags(Result<Seq<((Seq<char>, Color), Seq<Seq<char>>)>, Seq<char>>),
    ListFiles(Result<Seq<(Seq<char>, Seq<(Seq<char>, Color)>)>, Seq<char>>),
    InspectFiles(Result<Seq<(Seq<char>, Seq<(Seq<char>, Color)>)>, Seq<char>>),
    Search(Result<Seq<Seq<char>>, Seq<char>>),
    Ping(Result<(), Seq<char>>),
    ClearCache(Result<(), Seq<char>>),
}

impl Wire for Response {
    type V = RespV;

    open spec fn wire_view(&self) -> RespV {
        match self {
            Response::TagFiles(p) => RespV::TagFiles(p.wire_view()),
            Response::UntagFiles(p) => RespV::UntagFiles(p.wire_view()),
            Response::EditTag(p) => RespV::EditTag(p.wire_view()),
            Response::CopyTags(p) => RespV::CopyTags(p.wire_view()),
            Response::ClearFiles(p) => RespV::ClearFiles(p.wire_view()),
            Response::ClearTags(p) => RespV::ClearTags(p.wire_view()),
            Response::ListTags(p) => RespV::ListTags(p.wire_view()),
            Response::ListFiles(p) => RespV::ListFiles(p.wire_view()),
            Response::InspectFiles(p) => RespV::InspectFiles(p.wire_view()),
            Response::Search(p) => RespV::Search(p.wire_view()),
            Response::Ping(p) => RespV::Ping(p.wire_view()),
            Response::ClearCache(p) => RespV::ClearCache(p.wire_view()),
        }
    }

    open spec fn wf_v(v: RespV) -> bool {
        match v {
            RespV::TagFiles(p) => <PayloadResult<(), Vec<String>> as Wire>::wf_v(p),
            RespV::UntagFiles(p) => <PayloadResult<(), Vec<String>> as Wire>::wf_v(p),
            RespV::EditTag(p) => <PayloadResult<(), String> as Wire>::wf_v(p),
            RespV::CopyTags(p) => <PayloadResult<(), Vec<String>> as Wire>::wf_v(p),
            RespV::ClearFiles(p) => <PayloadResult<(), Vec<String>> as Wire>::wf_v(p),
            RespV::ClearTags(p) => <PayloadResult<(), Vec<String>> as Wire>::wf_v(p),
            RespV::ListTags(p) => <PayloadResult<
                Vec<(Tag, Vec<EntryData>)>,
                String,
            > as Wire>::wf_v(p),
            RespV::ListFiles(p) => <PayloadResult<
                Vec<(EntryData, Vec<Tag>)>,
                String,
            > as Wire>::wf_v(p),
            RespV::InspectFiles(p) => <PayloadResult<
                Vec<(EntryData, Vec<Tag>)>,
                String,
            > as Wire>::wf_v(p),
            RespV::Search(p) => <PayloadResult<Vec<EntryData>, String> as Wire>::wf_v(p),
            RespV::Ping(p) => <PayloadResult<(), String> as Wire>::wf_v(p),
            RespV::ClearCache(p) => <PayloadResult<(), String> as Wire>::wf_v(p),
        }
    }

    open spec fn enc(v: RespV) -> Seq<u8> {
        match v {
            RespV::TagFiles(p) => seq![0u8] + <PayloadResult<(), Vec<String>> as Wire>::enc(p),
            RespV::UntagFiles(p) => seq![1u8] + <PayloadResult<(), Vec<String>> as Wire>::enc(p),
            RespV::EditTag(p) => seq![2u8] + <PayloadResult<(), String> as Wire>::enc(p),
            RespV::CopyTags(p) => seq![3u8] + <PayloadResult<(), Vec<String>> as Wire>::enc(p),
            RespV::ClearFiles(p) => seq![4u8] + <PayloadResult<(), Vec<String>> as Wire>::enc(p),
            RespV::ClearTags(p) => seq![5u8] + <PayloadResult<(), Vec<String>> as Wire>::enc(p),
            RespV::ListTags(p) => seq![6u8] + <PayloadResult<
                Vec<(Tag, Vec<EntryData>)>,
                String,
            > as Wire>::enc(p),
            RespV::ListFiles(p) => seq![7u8] + <PayloadResult<
                Vec<(EntryData, Vec<Tag>)>,
                String,
            > as Wire>::enc(p),
            RespV::InspectFiles(p) => seq![8u8] + <PayloadResult<
                Vec<(EntryData, Vec<Tag>)>,
                String,
            > as Wire>::enc(p),
            RespV::Search(p) => seq![9u8] + <PayloadResult<Vec<EntryData>, String> as Wire>::enc(
                p,
            ),
            RespV::Ping(p) => seq![10u8] + <PayloadResult<(), String> as Wire>::enc(p),
            RespV::ClearCache(p) => seq![11u8] + <PayloadResult<(), String> as Wire>::enc(p),
        }
    }

    open spec fn dec(b: Seq<u8>, pos: int) -> Option<(RespV, int)> {
        match dec_u8(b, pos) {
            Some((t, p)) => {
                if t == 0 {
                    match <PayloadResult<(), Vec<String>> as Wire>::dec(b, p) {
                        Some((x, e)) => Some((RespV::TagFiles(x), e)),
                        None => None,
                    }
                } else if t == 1 {
                    match <PayloadResult<(), Vec<String>> as Wire>::dec(b, p) {
                        Some((x, e)) => Some((RespV::UntagFiles(x), e)),
                        None => None,
                    }
                } else if t == 2 {
                    match <PayloadResult<(), String> as Wire>::dec(b, p) {
                        Some((x, e)) => Some((RespV::EditTag(x), e)),
                        None => None,
                    }
                } else if t == 3 {
                    match <PayloadResult<(), Vec<String>> as Wire>::dec(b, p) {
                        Some((x, e)) => Some((RespV::CopyTags(x), e)),
                        None => None,
                    }
                } else if t == 4 {
                    match <PayloadResult<(), Vec<String>> as Wire>::dec(b, p) {
                        Some((x, e)) => Some((RespV::ClearFiles(x), e)),
                        None => None,
                    }
                } else if t == 5 {
                    match <PayloadResult<(), Vec<String>> as Wire>::dec(b, p) {
                        Some((x, e)) => Some((RespV::ClearTags(x), e)),
                        None => None,
                    }
                } else if t == 6 {
                    match <PayloadResult<Vec<(Tag, Vec<EntryData>)>, String> as Wire>::dec(b, p) {
                        Some((x, e)) => Some((RespV::ListTags(x), e)),
                        None => None,
                    }
                } else if t == 7 {
                    match <PayloadResult<Vec<(EntryData, Vec<Tag>)>, String> as Wire>::dec(b, p) {
                        Some((x, e)) => Some((RespV::ListFiles(x), e)),
                        None => None,
                    }
                } else if t == 8 {
                    match <PayloadResult<Vec<(EntryData, Vec<Tag>)>, String> as Wire>::dec(b, p) {
                        Some((x, e)) => Some((RespV::InspectFiles(x), e)),
                        None => None,
                    }
                } else if t == 9 {
                    match <PayloadResult<Vec<EntryData>, String> as Wire>::dec(b, p) {
                        Some((x, e)) => Some((RespV::Search(x), e)),
                        None => None,
                    }
                } else if t == 10 {
                    match <PayloadResult<(), String> as Wire>::dec(b, p) {
                        Some((x, e)) => Some((RespV::Ping(x), e)),
                        None => None,
                    }
                } else if t == 11 {
                    match <PayloadResult<(), String> as Wire>::dec(b, p) {
                        Some((x, e)) => Some((RespV::ClearCache(x), e)),
                        None => None,
                    }
                } else {
                    None
                }
            },
            None => None,
        }
    }

    #[verifier::rlimit(100)]
    #[verifier::spinoff_prover]
    proof fn lemma_dec_enc(b: Seq<u8>, pos: int, v: RespV) {
        match v {
            RespV::TagFiles(p) => {
                lemma_tag_byte(b, pos, 0u8, <PayloadResult<(), Vec<String>> as Wire>::enc(p));
                <PayloadResult<(), Vec<String>> as Wire>::lemma_dec_enc(b, pos + 1, p);
            },
            RespV::UntagFiles(p) => {
                lemma_tag_byte(b, pos, 1u8, <PayloadResult<(), Vec<String>> as Wire>::enc(p));
                <PayloadResult<(), Vec<String>> as Wire>::lemma_dec_enc(b, pos + 1, p);
            },
            RespV::EditTag(p) => {
                lemma_tag_byte(b, pos, 2u8, <PayloadResult<(), String> as Wire>::enc(p));
                <PayloadResult<(), String> as Wire>::lemma_dec_enc(b, pos + 1, p);
            },
            RespV::CopyTags(p) => {
                lemma_tag_byte(b, pos, 3u8, <PayloadResult<(), Vec<String>> as Wire>::enc(p));
                <PayloadResult<(), Vec<String>> as Wire>::lemma_dec_enc(b, pos + 1, p);
            },
            RespV::ClearFiles(p) => {
                lemma_tag_byte(b, pos, 4u8, <PayloadResult<(), Vec<String>> as Wire>::enc(p));
                <PayloadResult<(), Vec<String>> as Wire>::lemma_dec_enc(b, pos + 1, p);
            },
            RespV::ClearTags(p) => {
                lemma_tag_byte(b, pos, 5u8, <PayloadResult<(), Vec<String>> as Wire>::enc(p));
                <PayloadResult<(), Vec<String>> as Wire>::lemma_dec_enc(b, pos + 1, p);
            },
            RespV::ListTags(p) => {
                lemma_tag_byte(
                    b,
                    pos,
                    6u8,
                    <PayloadResult<Vec<(Tag, Vec<EntryData>)>, String> as Wire>::enc(p),
                );
                <PayloadResult<Vec<(Tag, Vec<EntryData>)>, String> as Wire>::lemma_dec_enc(
                    b,
                    pos + 1,
                    p,
                );
            },
            RespV::ListFiles(p) => {
                lemma_tag_byte(
                    b,
                    pos,
                    7u8,
                    <PayloadResult<Vec<(EntryData, Vec<Tag>)>, String> as Wire>::enc(p),
                );
                <PayloadResult<Vec<(EntryData, Vec<Tag>)>, String> as Wire>::lemma_dec_enc(
                    b,
                    pos + 1,
                    p,
                );
            },
            RespV::InspectFiles(p) => {
                lemma_tag_byte(
                    b,
                    pos,
                    8u8,
                    <PayloadResult<Vec<(EntryData, Vec<Tag>)>, String> as Wire>::enc(p),
                );
                <PayloadResult<Vec<(EntryData, Vec<Tag>)>, String> as Wire>::lemma_dec_enc(
                    b,
                    pos + 1,
                    p,
                );
            },
            RespV::Search(p) => {
                lemma_tag_byte(
                    b,
                    pos,
                    9u8,
                    <PayloadResult<Vec<EntryData>, String> as Wire>::enc(p),
                );
                <PayloadResult<Vec<EntryData>, String> as Wire>::lemma_dec_enc(b, pos + 1, p);
            },
            RespV::Ping(p) => {
                lemma_tag_byte(b, pos, 10u8, <PayloadResult<(), String> as Wire>::enc(p));
                <PayloadResult<(), String> as Wire>::lemma_dec_enc(b, pos + 1, p);
            },
            RespV::ClearCache(p) => {
                lemma_tag_byte(b, pos, 11u8, <PayloadResult<(), String> as Wire>::enc(p));
                <PayloadResult<(), String> as Wire>::lemma_dec_enc(b, pos + 1, p);
            },
        }
    }

    proof fn lemma_dec_ok(b: Seq<u8>, pos: int) {
        match dec_u8(b, pos) {
            Some((t, p)) => {
                <PayloadResult<(), Vec<String>> as Wire>::lemma_dec_ok(b, p);
                <PayloadResult<(), String> as Wire>::lemma_dec_ok(b, p);
                <PayloadResult<Vec<(Tag, Vec<EntryData>)>, String> as Wire>::lemma_dec_ok(b, p);
                <PayloadResult<Vec<(EntryData, Vec<Tag>)>, String> as Wire>::lemma_dec_ok(b, p);
                <PayloadResult<Vec<EntryData>, String> as Wire>::lemma_dec_ok(b, p);
            },
            None => {},
        }
    }

    fn encode(&self, buf: &mut Vec<u8>) {
        match self {
            Response::TagFiles(p) => {
                buf.push(0u8);
                p.encode(buf);
            },
            Response::UntagFiles(p) => {
                buf.push(1u8);
                p.encode(buf);
            },
            Response::EditTag(p) => {
                buf.push(2u8);
                p.encode(buf);
            },
            Response::CopyTags(p) => {
                buf.push(3u8);
                p.encode(buf);
            },
            Response::ClearFiles(p) => {
                buf.push(4u8);
                p.encode(buf);
            },
            Response::ClearTags(p) => {
                buf.push(5u8);
                p.encode(buf);
            },
            Response::ListTags(p) => {
                buf.push(6u8);
                p.encode(buf);
            },
            Response::ListFiles(p) => {
                buf.push(7u8);
                p.encode(buf);
            },
            Response::InspectFiles(p) => {
                buf.push(8u8);
                p.encode(buf);
            },
            Response::Search(p) => {
                buf.push(9u8);
                p.encode(buf);
            },
            Response::Ping(p) => {
                buf.push(10u8);
                p.encode(buf);
            },
            Response::ClearCache(p) => {
                buf.push(11u8);
                p.encode(buf);
            },
        }
        proof {
            assert(buf@ =~= old(buf)@ + Self::enc(self.wire_view()));
        }
    }

    fn decode(b: &Vec<u8>, pos: usize) -> (r: Option<(Response, usize)>) {
        if pos >= b.len() {
            return None;
        }
        let t = b[pos];
        let p = pos + 1;
        if t == 0 {
            match <PayloadResult<(), Vec<String>> as Wire>::decode(b, p) {
                Some((x, e)) => Some((Response::TagFiles(x), e)),
                None => None,
            }
        } else if t == 1 {
            match <PayloadResult<(), Vec<String>> as Wire>::decode(b, p) {
                Some((x, e)) => Some((Response::UntagFiles(x), e)),
                None => None,
            }
        } else if t == 2 {
            match <PayloadResult<(), String> as Wire>::decode(b, p) {
                Some((x, e)) => Some((Response::EditTag(x), e)),
                None => None,
            }
        } else if t == 3 {
            match <PayloadResult<(), Vec<String>> as Wire>::decode(b, p) {
                Some((x, e)) => Some((Response::CopyTags(x), e)),
                None => None,
            }
        } else if t == 4 {
            match <PayloadResult<(), Vec<String>> as Wire>::decode(b, p) {
                Some((x, e)) => Some((Response::ClearFiles(x), e)),
                None => None,
            }
        } else if t == 5 {
            match <PayloadResult<(), Vec<String>> as Wire>::decode(b, p) {
                Some((x, e)) => Some((Response::ClearTags(x), e)),
                None => None,
            }
        } else if t == 6 {
            match <PayloadResult<Vec<(Tag, Vec<EntryData>)>, String> as Wire>::decode(b, p) {
                Some((x, e)) => Some((Response::ListTags(x), e)),
                None => None,
            }
        } else if t == 7 {
            match <PayloadResult<Vec<(EntryData, Vec<Tag>)>, String> as Wire>::decode(b, p) {
                Some((x, e)) => Some((Response::ListFiles(x), e)),
                None => None,
            }
        } else if t == 8 {
            match <PayloadResult<Vec<(EntryData, Vec<Tag>)>, String> as Wire>::decode(b, p) {
                Some((x, e)) => Some((Response::InspectFiles(x), e)),
                None => None,
            }
        } else if t == 9 {
            match <PayloadResult<Vec<EntryData>, String> as Wire>::decode(b, p) {
                Some((x, e)) => Some((Response::Search(x), e)),
                None => None,
            }
        } else if t == 10 {
            match <PayloadResult<(), String> as Wire>::decode(b, p) {
                Some((x, e)) => Some((Response::Ping(x), e)),
                None => None,
            }
        } else if t == 11 {
            match <PayloadResult<(), String> as Wire>::decode(b, p) {
                Some((x, e)) => Some((Response::ClearCache(x), e)),
                None => None,
            }
        } else {
            None
        }
    }
}

/// Decoding an encoded response yields back exactly the response: the
/// wire round trip, for every variant at once.
pub proof fn lemma_response_round_trip(v: RespV)
    requires
        <Response as Wire>::wf_v(v),
    ensures
        <Response as Wire>::dec(<Response as Wire>::enc(v), 0) == Some(
            (v, <Response as Wire>::enc(v).len() as int),
        ),
{
    let b = <Response as Wire>::enc(v);
    assert(b.subrange(0, b.len() as int) =~= b);
    <Response as Wire>::lemma_dec_enc(b, 0, v);
}

impl Request {
    /// This request as one payload byte string.
    pub fn to_payload(&self) -> (r: Vec<u8>)
        ensures
            r@ == <Request as Wire>::enc(self.wire_view()),
    {
        let mut b: Vec<u8> = Vec::new();
        self.encode(&mut b);
        b
    }

    /// The request a payload byte string holds; `None` unless the bytes
    /// are exactly one request.
    pub fn from_payload(bytes: &Vec<u8>) -> (r: Option<Request>)
        ensures
            match r {
                Some(req) => <Request as Wire>::dec(bytes@, 0) == Some(
                    (req.wire_view(), bytes@.len() as int),
                ),
                None => <Request as Wire>::dec(bytes@, 0) is None || (<Request as Wire>::dec(
                    bytes@,
                    0,
                ) matches Some((v, end)) && end != bytes@.len()),
            },
    {
        match <Request as Wire>::decode(bytes, 0) {
            Some((req, end)) => {
                if end == bytes.len() {
                    Some(req)
                } else {
                    None
                }
            },
            None => None,
        }
    }
}

impl Response {
    /// This response as one payload byte string.
    pub fn to_payload(&self) -> (r: Vec<u8>)
        ensures
            r@ == <Response as Wire>::enc(self.wire_view()),
    {
        let mut b: Vec<u8> = Vec::new();
        self.encode(&mut b);
        b
    }

    /// The response a payload byte string holds; `None` unless the bytes
    /// are exactly one response.
    pub fn from_payload(bytes: &Vec<u8>) -> (r: Option<Response>)
        ensures
            match r {
                Some(resp) => <Response as Wire>::dec(bytes@, 0) == Some(
                    (resp.wire_view(), bytes@.len() as int),
                ),
                None => <Response as Wire>::dec(bytes@, 0) is None || (<Response as Wire>::dec(
                    bytes@,
                    0,
                ) matches Some((v, end)) && end != bytes@.len()),
            },
    {
        match <Response as Wire>::decode(bytes, 0) {
            Some((resp, end)) => {
                if end == bytes.len() {
                    Some(resp)
                } else {
                    None
                }
            },
            None => None,
        }
    }
}

/// Wraps a payload in a frame: its length as eight big-endian bytes, then
/// the payload itself, byte for byte.
pub fn frame_payload(payload: &Vec<u8>) -> (f: Vec<u8>)
    ensures
        f@ == enc_u64(payload@.len() as u64) + payload@,
{
    let mut f: Vec<u8> = Vec::new();
    encode_u64(&mut f, payload.len() as u64);
    let n = payload.len();
    let mut i: usize = 0;
    while i < n
        invariant
            n == payload@.len(),
            i <= n,
            f@ == enc_u64(payload@.len() as u64) + payload@.take(i as int),
        decreases n - i,
    {
        f.push(payload[i]);
        proof {
            assert(f@ =~= enc_u64(payload@.len() as u64) + payload@.take(i as int + 1));
        }
        i = i + 1;
    }
    proof {
        assert(payload@.take(n as int) =~= payload@);
    }
    f
}

/// The payload length an eight-byte frame header declares; `None` when
/// fewer than eight bytes are given.
pub fn frame_length(header: &Vec<u8>) -> (r: Option<u64>)
    ensures
        match r {
            Some(n) => dec_u64(header@, 0) matches Some((m, e)) && m == n,
            None => dec_u64(header@, 0) is None,
        },
{
    match decode_u64(header, 0) {
        Some((n, _)) => Some(n),
        None => None,
    }
}

/// The socket file name serving one operating-system user.
pub fn socket_file_name(username: &str) -> (r: String)
    ensures
        r@ == "wutag-"@ + username@ + ".sock"@,
{
    let mut s = "wutag-".to_owned();
    s.append(username);
    s.append(".sock");
    proof {
        assert(s@ =~= "wutag-"@ + username@ + ".sock"@);
    }
    s
}

/// The payload result under its older name, kept beside the current one
/// for callers that still speak of request results.
#[derive(Debug)]
pub enum RequestResult<T, E> {
    Value(T),
    Error(E),
}

impl<T, E> RequestResult<T, E> {
    /// This payload as a plain `Result`.
    pub fn to_result(self) -> (r: Result<T, E>)
        ensures
            self is Value <==> r is Ok,
            forall|t: T| self == RequestResult::<T, E>::Value(t) ==> r == Result::<T, E>::Ok(t),
            forall|e: E| self == RequestResult::<T, E>::Error(e) ==> r == Result::<T, E>::Err(e),
    {
        match self {
            RequestResult::Value(t) => Ok(t),
            RequestResult::Error(e) => Err(e),
        }
    }
}

/// What can go wrong on the server side of the transport, as messages.
#[derive(Clone, Debug)]
pub enum ServerError {
    ConnectionAccept(String),
    ConnectionRead(String),
    ConnectionWrite(String),
    NoActiveConnection,
    Bind(String),
}

} // verus!
