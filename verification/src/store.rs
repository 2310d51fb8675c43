//! The decision layer of the attribute store.
//!
//! The OS calls themselves — set, get, list and remove an extended
//! attribute, each in a follow or no-follow flavor so that tagging a
//! symlink never mutates its target — live outside this crate. This
//! module holds everything around them that computes: splitting the raw
//! key list an OS call returns, choosing the key to write or to remove,
//! and reading tag names out of key lists, skipping foreign keys.

use vstd::prelude::*;
use vstd::utf8::valid_utf8;
use vstd::utf8::decode_utf8;
use crate::codec::spec_tag_key;
use crate::codec::spec_decode_key;
use crate::codec::encode_tag_name;
use crate::codec::decode_tag_name;
use crate::error::Error;

verus! {

/// The NUL-terminated segments of a raw attribute list, in order; bytes
/// after the last NUL belong to no segment.
pub open spec fn spec_split_nuls(s: Seq<u8>) -> Seq<Seq<u8>>
    decreases s.len(),
{
    if s.len() == 0 {
        Seq::empty()
    } else if s[0] == 0 {
        seq![Seq::<u8>::empty()] + spec_split_nuls(s.drop_first())
    } else {
        let r = spec_split_nuls(s.drop_first());
        if r.len() == 0 {
            Seq::empty()
        } else {
            seq![seq![s[0]] + r[0]] + r.drop_first()
        }
    }
}

/// A byte string without NUL splits to nothing.
proof fn lemma_split_none(s: Seq<u8>)
    requires
        forall|q: int| 0 <= q < s.len() ==> s[q] != 0,
    ensures
        spec_split_nuls(s).len() == 0,
    decreases s.len(),
{
    if s.len() > 0 {
        assert forall|q: int| 0 <= q < s.drop_first().len() implies s.drop_first()[q] != 0 by {
            assert(s.drop_first()[q] == s[q + 1]);
        }
        lemma_split_none(s.drop_first());
    }
}

/// The first segment ends at the first NUL; the rest splits on its own.
proof fn lemma_split_head(s: Seq<u8>, m: int)
    requires
        0 <= m < s.len(),
        s[m] == 0,
        forall|q: int| 0 <= q < m ==> s[q] != 0,
    ensures
        spec_split_nuls(s) == seq![s.take(m)] + spec_split_nuls(s.skip(m + 1)),
    decreases m,
{
    if m == 0 {
        assert(s.take(0) =~= Seq::<u8>::empty());
        assert(s.skip(1) =~= s.drop_first());
        assert(spec_split_nuls(s) == seq![Seq::<u8>::empty()] + spec_split_nuls(s.drop_first()));
    } else {
        let t = s.drop_first();
        assert(t[m - 1] == s[m]);
        assert forall|q: int| 0 <= q < m - 1 implies t[q] != 0 by {
            assert(t[q] == s[q + 1]);
        }
        lemma_split_head(t, m - 1);
        let r = spec_split_nuls(t);
        assert(r == seq![t.take(m - 1)] + spec_split_nuls(t.skip(m)));
        assert(r.len() > 0);
        assert(r[0] == t.take(m - 1));
        assert(r.drop_first() =~= spec_split_nuls(t.skip(m)));
        assert(seq![s[0]] + t.take(m - 1) =~= s.take(m));
        assert(t.skip(m) =~= s.skip(m + 1));
        assert(spec_split_nuls(s) == seq![seq![s[0]] + r[0]] + r.drop_first());
        assert(seq![seq![s[0]] + r[0]] + r.drop_first() =~= seq![s.take(m)] + spec_split_nuls(
            s.skip(m + 1),
        ));
    }
}

/// What a byte string reads as when decoded leniently; invalid sequences
/// are replaced, so the result depends on the bytes alone.
pub uninterp spec fn lossy_of(bytes: Seq<u8>) -> Seq<char>;

/// Relies on std's `String::from_utf8_lossy`: the result is a function
/// of the bytes alone, and valid UTF-8 decodes to exactly its characters.
#[verifier::external_body]
fn lossy_string(bytes: &Vec<u8>) -> (r: String)
    ensures
        r@ == lossy_of(bytes@),
        valid_utf8(bytes@) ==> r@ == decode_utf8(bytes@),
{
    String::from_utf8_lossy(bytes.as_slice()).into_owned()
}

/// The attribute keys in a raw, NUL-separated OS key list.
pub fn parse_xattrs(input: &Vec<u8>) -> (r: Vec<String>)
    ensures
        r@.len() == spec_split_nuls(input@).len(),
        forall|k: int|
            0 <= k < r@.len() ==> (#[trigger] r@[k])@ == lossy_of(spec_split_nuls(input@)[k]),
{
    let n = input.len();
    let mut r: Vec<String> = Vec::new();
    let mut start: usize = 0;
    let ghost whole = spec_split_nuls(input@);
    proof {
        assert(input@.skip(0) =~= input@);
        assert(whole.skip(0) =~= whole);
    }
    while start < n
        invariant
            n == input@.len(),
            start <= n,
            whole == spec_split_nuls(input@),
            r@.len() <= whole.len(),
            forall|k: int| 0 <= k < r@.len() ==> (#[trigger] r@[k])@ == lossy_of(whole[k]),
            spec_split_nuls(input@.skip(start as int)) == whole.skip(r@.len() as int),
        decreases n - start,
    {
        // find the next NUL
        let mut i: usize = start;
        while i < n
            invariant
                n == input@.len(),
                start <= i <= n,
                forall|q: int| start <= q < i ==> input@[q] != 0,
            ensures
                start <= i <= n,
                forall|q: int| start <= q < i ==> input@[q] != 0,
                i < n ==> input@[i as int] == 0,
            decreases n - i,
        {
            if input[i] == 0 {
                break ;
            }
            i = i + 1;
        }
        if i == n {
            proof {
                assert forall|q: int|
                    0 <= q < input@.skip(start as int).len() implies input@.skip(start as int)[q]
                    != 0 by {
                    assert(input@.skip(start as int)[q] == input@[q + start]);
                }
                lemma_split_none(input@.skip(start as int));
                assert(whole.skip(r@.len() as int).len() == 0);
                assert(whole.len() == r@.len());
            }
            return r;
        }
        let mut seg: Vec<u8> = Vec::new();
        let mut j: usize = start;
        while j < i
            invariant
                n == input@.len(),
                start <= j <= i <= n,
                seg@ =~= input@.subrange(start as int, j as int),
            decreases i - j,
        {
            seg.push(input[j]);
            j = j + 1;
        }
        let key = lossy_string(&seg);
        let ghost before = r@;
        proof {
            let tail = input@.skip(start as int);
            assert(input@[i as int] == 0);
            assert(tail[i - start] == 0);
            assert forall|q: int| 0 <= q < i - start implies tail[q] != 0 by {
                assert(tail[q] == input@[q + start]);
            }
            lemma_split_head(tail, i as int - start as int);
            assert(tail.take(i - start) =~= input@.subrange(start as int, i as int));
            assert(seg@ =~= tail.take(i - start));
            assert(tail.skip(i - start + 1) =~= input@.skip(i as int + 1));
            assert(spec_split_nuls(tail) == seq![seg@] + spec_split_nuls(input@.skip(i + 1)));
            assert(whole.skip(before.len() as int) =~= seq![seg@] + spec_split_nuls(
                input@.skip(i + 1),
            ));
            assert(whole.skip(before.len() as int).len() > 0);
            assert(whole.skip(before.len() as int)[0] == seg@);
            assert(whole[before.len() as int] == seg@);
            assert(whole.skip(before.len() as int).drop_first() =~= whole.skip(
                before.len() as int + 1,
            ));
            assert((seq![seg@] + spec_split_nuls(input@.skip(i + 1))).drop_first()
                =~= spec_split_nuls(input@.skip(i + 1)));
            assert(spec_split_nuls(input@.skip(i + 1)) =~= whole.skip(before.len() as int + 1));
        }
        r.push(key);
        start = i + 1;
        proof {
            assert forall|k: int|
                0 <= k < r@.len() implies (#[trigger] r@[k])@ == lossy_of(whole[k]) by {
                if k < before.len() {
                    assert(r@[k] == before[k]);
                } else {
                    assert(r@[k] == key);
                    assert(key@ == lossy_of(seg@));
                }
            }
            assert(spec_split_nuls(input@.skip(start as int)) == whole.skip(r@.len() as int));
        }
    }
    proof {
        assert(input@.skip(start as int).len() == 0);
        assert(spec_split_nuls(input@.skip(start as int)).len() == 0);
        assert(whole.skip(r@.len() as int).len() == 0);
        assert(whole.len() == r@.len());
    }
    r
}

/// A key among `keys` stores the tag named `name`.
pub open spec fn some_key_holds(keys: Seq<String>, name: Seq<char>) -> bool {
    exists|k: int| 0 <= k < keys.len() && spec_decode_key((#[trigger] keys[k])@) == Some(name)
}

/// Decides a tag write against the file's existing keys: Already-Exists
/// when one of them stores an equal-named tag, otherwise the key to
/// write, with an empty value, create-only.
pub fn decide_save(keys: &Vec<String>, name: &str) -> (r: Result<String, Error>)
    ensures
        r is Err <==> some_key_holds(keys@, name@),
        r matches Err(e) ==> e is TagExists,
        r matches Ok(key) ==> key@ == spec_tag_key(name@),
{
    match find_tag_key(keys, name) {
        Some(_) => Err(Error::TagExists),
        None => Ok(encode_tag_name(name)),
    }
}

/// The key among `keys` whose decoded name matches, if any: what a
/// remove operation deletes, with Not-Found when none matches. This is
/// also all that looking a single tag up on a file can decide: a marker
/// key encodes the name alone, so presence is the only per-file fact,
/// and the color lives solely in the registry.
pub fn find_tag_key(keys: &Vec<String>, name: &str) -> (r: Option<String>)
    ensures
        r is Some <==> some_key_holds(keys@, name@),
        r matches Some(key) ==> spec_decode_key(key@) == Some(name@),
{
    let n = keys.len();
    let mut k: usize = 0;
    while k < n
        invariant
            n == keys@.len(),
            k <= n,
            forall|q: int|
                0 <= q < k ==> spec_decode_key((#[trigger] keys@[q])@) != Some(name@),
        decreases n - k,
    {
        match decode_tag_name(keys[k].as_str()) {
            Some(decoded) => {
                if crate::registry::str_eq(decoded.as_str(), name) {
                    let key = keys[k].clone();
                    proof {
                        assert(key@ == keys@[k as int]@);
                        assert(spec_decode_key(keys@[k as int]@) == Some(name@));
                    }
                    return Some(key);
                }
            },
            None => {},
        }
        k = k + 1;
    }
    None
}

/// The tag names stored in a list of keys, foreign and undecodable keys
/// silently skipped.
pub fn tag_names_in(keys: &Vec<String>) -> (r: Vec<String>)
    ensures
        forall|k: int|
            0 <= k < r@.len() ==> some_key_holds(keys@, (#[trigger] r@[k])@),
        forall|q: int|
            0 <= q < keys@.len() ==> ((#[trigger] spec_decode_key(keys@[q]@)) matches Some(nm)
                ==> exists|k: int| 0 <= k < r@.len() && r@[k]@ == nm),
{
    let n = keys.len();
    let mut r: Vec<String> = Vec::new();
    let mut k: usize = 0;
    while k < n
        invariant
            n == keys@.len(),
            k <= n,
            forall|w: int|
                0 <= w < r@.len() ==> some_key_holds(keys@, (#[trigger] r@[w])@),
            forall|q: int|
                0 <= q < k ==> ((#[trigger] spec_decode_key(keys@[q]@)) matches Some(nm)
                    ==> exists|w: int| 0 <= w < r@.len() && r@[w]@ == nm),
        decreases n - k,
    {
        let ghost before = r@;
        match decode_tag_name(keys[k].as_str()) {
            Some(decoded) => {
                proof {
                    assert(spec_decode_key(keys@[k as int]@) == Some(decoded@));
                }
                r.push(decoded);
                proof {
                    assert forall|w: int|
                        0 <= w < r@.len() implies some_key_holds(
                        keys@,
                        (#[trigger] r@[w])@,
                    ) by {
                        if w < before.len() {
                            assert(r@[w] == before[w]);
                        } else {
                            assert(spec_decode_key(keys@[k as int]@) == Some(r@[w]@));
                        }
                    }
                    assert forall|q: int|
                        0 <= q < k + 1 implies ((#[trigger] spec_decode_key(keys@[q]@))
                        matches Some(nm) ==> exists|w: int|
                        0 <= w < r@.len() && r@[w]@ == nm) by {
                        if q < k {
                            if spec_decode_key(keys@[q]@) is Some {
                                let nm = spec_decode_key(keys@[q]@)->0;
                                let w = choose|w: int|
                                    0 <= w < before.len() && (#[trigger] before[w])@ == nm;
                                assert(r@[w]@ == nm);
                            }
                        } else {
                            assert(r@[r@.len() - 1]@ == decoded@);
                        }
                    }
                }
            },
            None => {
                proof {
                    assert forall|q: int|
                        0 <= q < k + 1 implies ((#[trigger] spec_decode_key(keys@[q]@))
                        matches Some(nm) ==> exists|w: int|
                        0 <= w < r@.len() && r@[w]@ == nm) by {
                        if q == k {
                            assert(spec_decode_key(keys@[q]@) is None);
                        }
                    }
                }
            },
        }
        k = k + 1;
    }
    r
}

/// Whether the keys hold any tag of ours at all.
pub fn keys_hold_tags(keys: &Vec<String>) -> (r: bool)
    ensures
        r == exists|q: int| 0 <= q < keys@.len() && spec_decode_key((#[trigger] keys@[q])@) is Some,
{
    let n = keys.len();
    let mut k: usize = 0;
    while k < n
        invariant
            n == keys@.len(),
            k <= n,
            forall|q: int| 0 <= q < k ==> spec_decode_key((#[trigger] keys@[q])@) is None,
        decreases n - k,
    {
        if decode_tag_name(keys[k].as_str()).is_some() {
            return true;
        }
        k = k + 1;
    }
    false
}

/// Classifies a size-query race: the attribute bytes an OS call handed
/// back must be exactly as many as the size query promised, else
/// something mutated the attributes concurrently.
pub fn check_size_consistent(expected: usize, got: usize) -> (r: Result<(), Error>)
    ensures
        r is Ok <==> expected == got,
        r matches Err(e) ==> e is AttrsChanged,
{
    if expected == got {
        Ok(())
    } else {
        Err(Error::AttrsChanged)
    }
}

/// One extended attribute: its key and its value. Marker attributes
/// carry empty values; foreign attributes may carry anything.
#[derive(Clone, Debug)]
pub struct Xattr {
    pub key: String,
    pub val: String,
}

impl Xattr {
    /// An attribute from its key and value.
    pub fn new(key: String, val: String) -> (r: Xattr)
        ensures
            r.key@ == key@,
            r.val@ == val@,
    {
        Xattr { key, val }
    }

    /// The attribute's key.
    pub fn key(&self) -> (r: &str)
        ensures
            r@ == self.key@,
    {
        self.key.as_str()
    }

    /// The attribute's value.
    pub fn val(&self) -> (r: &str)
        ensures
            r@ == self.val@,
    {
        self.val.as_str()
    }
}

} // verus!
