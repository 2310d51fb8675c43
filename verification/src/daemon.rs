//! The daemon's decision logic: pure request handlers over the registry,
//! the structural deltas handed to the watcher, the reconciliation of
//! externally deleted paths, and the bounded-retry lock discipline.
//!
//! The connection loop around these functions accepts a socket, reads one
//! request, dispatches, writes one response; the reconciliation loop
//! drains two queues. Both live outside this crate and hand these
//! functions plain values.

use vstd::prelude::*;
use crate::color::Color;
use crate::error::Error;
use crate::error::spec_message;
use crate::registry::EntryData;
use crate::registry::TagRegistry;
use crate::registry::names_view;
use crate::ipc::PayloadResult;
use crate::ipc::Request;
use crate::ipc::Response;
use crate::tag::Tag;

verus! {

/// A structural delta the handler queues for the watcher: paths newly
/// tracked, or paths no longer tracked.
#[derive(Debug)]
pub enum EntryEvent {
    Add(Vec<String>),
    Remove(Vec<String>),
}

/// What one attempt to take the registry lock came back with.
#[derive(Clone, Copy, Debug, PartialEq, Eq, Structural)]
pub enum LockAttempt {
    Acquired,
    Contended,
    Poisoned,
}

/// What to do after an attempt: run the operation, try again, skip the
/// operation, or terminate the process.
#[derive(Clone, Copy, Debug, PartialEq, Eq, Structural)]
pub enum LockStep {
    Proceed,
    Retry,
    GiveUp,
    Fatal,
}

/// How many immediate attempts the registry lock gets before the
/// operation is skipped.
pub const MAX_LOCK_ATTEMPTS: u32 = 4;

/// The bounded-retry lock discipline: retry only on contention and only
/// while attempts remain; a poisoned lock is fatal at once, never
/// retried, so a corrupted snapshot is never written.
pub fn lock_retry_step(outcome: &LockAttempt, attempt: u32) -> (r: LockStep)
    ensures
        outcome is Acquired ==> r is Proceed,
        outcome is Poisoned ==> r is Fatal,
        outcome is Contended && attempt + 1 < MAX_LOCK_ATTEMPTS ==> r is Retry,
        outcome is Contended && attempt + 1 >= MAX_LOCK_ATTEMPTS ==> r is GiveUp,
{
    match outcome {
        LockAttempt::Acquired => LockStep::Proceed,
        LockAttempt::Poisoned => LockStep::Fatal,
        LockAttempt::Contended => {
            if attempt < MAX_LOCK_ATTEMPTS - 1 {
                LockStep::Retry
            } else {
                LockStep::GiveUp
            }
        },
    }
}

/// Answers a ping.
pub fn handle_ping() -> (r: Response)
    ensures
        r matches Response::Ping(p) && p is Value,
{
    Response::Ping(PayloadResult::Value(()))
}

/// Empties the registry.
pub fn handle_clear_cache(reg: &mut TagRegistry) -> (r: Response)
    ensures
        final(reg).wf(),
        final(reg).tidy(),
        final(reg).tags@.len() == 0,
        final(reg).entries@.len() == 0,
        final(reg).path@ == old(reg).path@,
        r matches Response::ClearCache(p) && p is Value,
{
    reg.clear();
    Response::ClearCache(PayloadResult::Value(()))
}

/// What repainting a tag leaves behind and answers: the associations are
/// untouched; a known name gets the new color and a value reply, an
/// unknown one leaves the registry as it was and is rejected by name.
pub open spec fn edit_tag_response_ok(
    pre: TagRegistry,
    post: TagRegistry,
    name: Seq<char>,
    color: Color,
    r: Response,
) -> bool {
    &&& post.wf()
    &&& (pre.tidy() ==> post.tidy())
    &&& post.path@ == pre.path@
    &&& forall|n: Seq<char>, i: u64| post.tag_has(n, i) <==> pre.tag_has(n, i)
    &&& forall|n: Seq<char>| post.has_tag(n) <==> pre.has_tag(n)
    &&& pre.has_tag(name) ==> {
        &&& post.tag_color(name) == color
        &&& forall|n: Seq<char>|
            n != name && pre.has_tag(n) ==> post.tag_color(n) == pre.tag_color(n)
        &&& r matches Response::EditTag(p) && p is Value
    }
    &&& !pre.has_tag(name) ==> {
        &&& post == pre
        &&& r matches Response::EditTag(p) && (p matches PayloadResult::Error(m) && m@ == "tag "@
            + name + " doesn't exist"@)
    }
}

/// Repaints a tag. Because a tag's identity excludes its color, the
/// entry set is untouched; a name no tag bears is rejected.
pub fn handle_edit_tag(reg: &mut TagRegistry, name: &str, color: Color) -> (r: Response)
    requires
        old(reg).wf(),
    ensures
        edit_tag_response_ok(*old(reg), *final(reg), name@, color, r),
{
    if reg.get_tag(name).is_none() {
        let mut m = "tag ".to_owned();
        m.append(name);
        m.append(" doesn't exist");
        proof {
            assert(m@ =~= "tag "@ + name@ + " doesn't exist"@);
        }
        return Response::EditTag(PayloadResult::Error(m));
    }
    reg.update_tag_color(name, color);
    Response::EditTag(PayloadResult::Value(()))
}

/// A path in the result stands for an id of the queried set.
pub open spec fn path_in_set(reg: TagRegistry, s: Set<u64>, p: Seq<char>) -> bool {
    exists|id: u64| s.contains(id) && reg.has_entry(id) && reg.entry_path(id) == p
}

/// The result names an entry for this id.
pub open spec fn result_covers(reg: TagRegistry, v: Seq<EntryData>, id: u64) -> bool {
    exists|k: int| 0 <= k < v.len() && (#[trigger] v[k]).path@ == reg.entry_path(id)
}

/// What a search answers: an empty name list is invalid input, never a
/// match of everything; otherwise the result lists exactly the paths of
/// the queried id set — the union for "any", the intersection for "all"
/// — each path once.
pub open spec fn search_response_ok(
    reg: TagRegistry,
    tags: Seq<String>,
    any: bool,
    r: Response,
) -> bool {
    &&& tags.len() == 0 ==> (r matches Response::Search(p) && (p matches PayloadResult::Error(m)
        && m@ == "no tags to search for"@))
    &&& tags.len() > 0 ==> (r matches Response::Search(p) && p matches PayloadResult::Value(v) && {
        let s = if any {
            reg.any_set(names_view(tags))
        } else {
            reg.all_set(names_view(tags))
        };
        &&& forall|k: int| 0 <= k < v@.len() ==> path_in_set(reg, s, (#[trigger] v@[k]).path@)
        &&& forall|id: u64| s.contains(id) ==> result_covers(reg, v@, id)
        &&& forall|k1: int, k2: int| 0 <= k1 < k2 < v@.len() ==> v@[k1].path@ != v@[k2].path@
    })
}

/// Answers a search: "any" is the union query, "all" the intersection
/// query, and an empty tag-name list is invalid input, never a match of
/// everything.
#[verifier::loop_isolation(false)]
pub fn handle_search(reg: &TagRegistry, tags: &Vec<String>, any: bool) -> (r: Response)
    requires
        reg.wf(),
    ensures
        search_response_ok(*reg, tags@, any, r),
{
    if tags.len() == 0 {
        return Response::Search(PayloadResult::Error("no tags to search for".to_owned()));
    }
    let ids = if any {
        reg.list_entries_with_any_tags(tags)
    } else {
        reg.list_entries_with_all_tags(tags)
    };
    let ghost s = if any {
        reg.any_set(names_view(tags@))
    } else {
        reg.all_set(names_view(tags@))
    };
    let mut found: Vec<EntryData> = Vec::new();
    let n = ids.len();
    let mut k: usize = 0;
    while k < n
        invariant
            reg.wf(),
            tags@.len() > 0,
            s == (if any {
                reg.any_set(names_view(tags@))
            } else {
                reg.all_set(names_view(tags@))
            }),
            n == ids@.len(),
            k <= n,
            forall|x: u64| ids@.contains(x) <==> s.contains(x),
            forall|a: int, b: int| 0 <= a < b < n ==> ids@[a] != ids@[b],
            found@.len() == k,
            forall|q: int| 0 <= q < k ==> reg.has_entry(#[trigger] ids@[q]),
            forall|q: int|
                0 <= q < k ==> (#[trigger] found@[q]).path@ == reg.entry_path(ids@[q]),
        decreases n - k,
    {
        let id = ids[k];
        proof {
            assert(ids@.contains(id));
            assert(s.contains(id));
            if any {
                let w = choose|w: int|
                    0 <= w < names_view(tags@).len() && reg.tag_has(names_view(tags@)[w], id);
                let t = choose|t: int|
                    0 <= t < reg.tags@.len() && reg.tags@[t].tag.name@ == names_view(tags@)[w]
                        && reg.tags@[t].ids@.contains(id);
                let q = choose|q: int|
                    0 <= q < reg.tags@[t].ids@.len() && reg.tags@[t].ids@[q] == id;
                assert(reg.has_entry(reg.tags@[t].ids@[q]));
                assert(reg.has_entry(id));
            } else {
                assert(names_view(tags@).len() > 0);
                assert(reg.tag_has(names_view(tags@)[0], id));
                let t = choose|t: int|
                    0 <= t < reg.tags@.len() && reg.tags@[t].tag.name@ == names_view(tags@)[0]
                        && reg.tags@[t].ids@.contains(id);
                let q = choose|q: int|
                    0 <= q < reg.tags@[t].ids@.len() && reg.tags@[t].ids@[q] == id;
                assert(reg.has_entry(reg.tags@[t].ids@[q]));
                assert(reg.has_entry(id));
            }
        }
        let ghost before = found@;
        match reg.get_entry(id) {
            Some(d) => {
                let copy = d.duplicate();
                proof {
                    assert(copy.path@ == reg.entry_path(id));
                }
                found.push(copy);
                k = k + 1;
                proof {
                    assert forall|q: int| 0 <= q < k implies reg.has_entry(
                        #[trigger] ids@[q],
                    ) by {
                        if q == k - 1 {
                            assert(ids@[q] == id);
                        }
                    }
                    assert forall|q: int|
                        0 <= q < k implies (#[trigger] found@[q]).path@ == reg.entry_path(
                        ids@[q],
                    ) by {
                        if q < k - 1 {
                            assert(found@[q] == before[q]);
                        } else {
                            assert(found@[q].path@ == reg.entry_path(id));
                        }
                    }
                }
                continue;
            },
            None => {
                proof {
                    assert(false);
                }
                k = k + 1;
                continue;
            },
        }
    }
    proof {
        assert forall|q: int|
            0 <= q < found@.len() implies path_in_set(*reg, s, (#[trigger] found@[q]).path@) by {
            assert(s.contains(ids@[q]));
        }
        assert forall|id: u64| s.contains(id) implies result_covers(*reg, found@, id) by {
            assert(ids@.contains(id));
            let q = choose|q: int| 0 <= q < ids@.len() && ids@[q] == id;
            assert(found@[q].path@ == reg.entry_path(id));
        }
        assert forall|k1: int, k2: int|
            0 <= k1 < k2 < found@.len() implies found@[k1].path@ != found@[k2].path@ by {
            if found@[k1].path@ == found@[k2].path@ {
                reg.lemma_entry_path_injective(ids@[k1], ids@[k2]);
            }
        }
    }
    Response::Search(PayloadResult::Value(found))
}

/// The path stands among the first `k` of the list.
pub open spec fn in_paths_upto(paths: Seq<String>, k: int, p: Seq<char>) -> bool {
    exists|q: int| 0 <= q < k && q < paths.len() && (#[trigger] paths[q])@ == p
}

/// The path stands in the list.
pub open spec fn in_paths(paths: Seq<String>, p: Seq<char>) -> bool {
    in_paths_upto(paths, paths.len() as int, p)
}

/// One more path admits exactly it.
proof fn lemma_in_paths_succ(paths: Seq<String>, k: int)
    requires
        0 <= k < paths.len(),
    ensures
        forall|p: Seq<char>|
            #[trigger] in_paths_upto(paths, k + 1, p) <==> in_paths_upto(paths, k, p) || p
                == paths[k]@,
{
    assert forall|p: Seq<char>|
        #[trigger] in_paths_upto(paths, k + 1, p) <==> in_paths_upto(paths, k, p) || p
            == paths[k]@ by {
        if in_paths_upto(paths, k + 1, p) {
            let q = choose|q: int| 0 <= q < k + 1 && q < paths.len() && (#[trigger] paths[q])@ == p;
            if q < k {
                assert(in_paths_upto(paths, k, p));
            } else {
                assert(paths[k]@ == p);
            }
        }
        if in_paths_upto(paths, k, p) {
            let q = choose|q: int| 0 <= q < k && q < paths.len() && (#[trigger] paths[q])@ == p;
            assert(in_paths_upto(paths, k + 1, p));
        }
        if p == paths[k]@ {
            assert(0 <= k < k + 1 && k < paths.len() && paths[k]@ == p);
            assert(in_paths_upto(paths, k + 1, p));
        }
    }
}

/// Removes from the registry every entry whose path stands in `paths`:
/// the repair the reconciliation loop applies for deletion events, and
/// the purge applied at startup for paths that no longer exist.
pub fn remove_paths(reg: &mut TagRegistry, paths: &Vec<String>)
    requires
        old(reg).wf(),
    ensures
        final(reg).wf(),
        old(reg).tidy() ==> final(reg).tidy(),
        final(reg).path@ == old(reg).path@,
        forall|p: Seq<char>| #[trigger] in_paths(paths@, p) ==> !final(reg).has_path(p),
        forall|i: u64| #[trigger] final(reg).has_entry(i) ==> old(reg).has_entry(i),
        forall|i: u64|
            #[trigger] final(reg).has_entry(i) ==> !in_paths(paths@, old(reg).entry_path(i)),
        forall|i: u64|
            old(reg).has_entry(i) && !in_paths(paths@, #[trigger] old(reg).entry_path(i))
                ==> final(reg).has_entry(i),
        forall|i: u64|
            #[trigger] final(reg).has_entry(i) ==> final(reg).entry_path(i) == old(
                reg,
            ).entry_path(i),
        forall|n: Seq<char>, i: u64| #[trigger] final(reg).tag_has(n, i) ==> old(reg).tag_has(n, i),
{
    let ghost pre = *reg;
    let n = paths.len();
    let mut k: usize = 0;
    while k < n
        invariant
            pre.wf(),
            n == paths@.len(),
            k <= n,
            reg.wf(),
            pre.tidy() ==> reg.tidy(),
            reg.path@ == pre.path@,
            forall|i: u64| #[trigger] reg.has_entry(i) ==> pre.has_entry(i),
            forall|i: u64|
                #[trigger] reg.has_entry(i) ==> !in_paths_upto(
                    paths@,
                    k as int,
                    pre.entry_path(i),
                ),
            forall|i: u64|
                pre.has_entry(i) && !in_paths_upto(paths@, k as int, #[trigger] pre.entry_path(i))
                    ==> reg.has_entry(i),
            forall|i: u64|
                #[trigger] reg.has_entry(i) ==> reg.entry_path(i) == pre.entry_path(i),
            forall|nm: Seq<char>, i: u64| #[trigger] reg.tag_has(nm, i) ==> pre.tag_has(nm, i),
        decreases n - k,
    {
        let ghost mid = *reg;
        match reg.find_entry(paths[k].as_str()) {
            Some(id) => {
                reg.clear_entry(id);
                k = k + 1;
                proof {
                    lemma_in_paths_succ(paths@, k as int - 1);
                    assert forall|i: u64| #[trigger] reg.has_entry(i) implies pre.has_entry(
                        i,
                    ) by {
                        assert(mid.has_entry(i));
                    }
                    assert forall|i: u64| #[trigger] reg.has_entry(i) implies !in_paths_upto(
                        paths@,
                        k as int,
                        pre.entry_path(i),
                    ) by {
                        assert(mid.has_entry(i) && i != id);
                        assert(!in_paths_upto(paths@, k as int - 1, pre.entry_path(i)));
                        if pre.entry_path(i) == paths@[k as int - 1]@ {
                            assert(mid.entry_path(i) == paths@[k as int - 1]@);
                            mid.lemma_entry_path_injective(i, id);
                        }
                    }
                    assert forall|i: u64|
                        pre.has_entry(i) && !in_paths_upto(
                            paths@,
                            k as int,
                            #[trigger] pre.entry_path(i),
                        ) implies reg.has_entry(i) by {
                        assert(!in_paths_upto(paths@, k as int - 1, pre.entry_path(i)));
                        assert(mid.has_entry(i));
                        assert(i != id) by {
                            if i == id {
                                assert(mid.entry_path(id) == paths@[k as int - 1]@);
                                assert(pre.entry_path(i) == paths@[k as int - 1]@);
                            }
                        }
                    }
                    assert forall|i: u64| #[trigger] reg.has_entry(i) implies reg.entry_path(i)
                        == pre.entry_path(i) by {
                        assert(mid.has_entry(i));
                    }
                    assert forall|nm: Seq<char>, i: u64|
                        #[trigger] reg.tag_has(nm, i) implies pre.tag_has(nm, i) by {
                        assert(mid.tag_has(nm, i));
                    }
                }
                continue;
            },
            None => {
                k = k + 1;
                proof {
                    lemma_in_paths_succ(paths@, k as int - 1);
                    assert forall|i: u64| #[trigger] reg.has_entry(i) implies !in_paths_upto(
                        paths@,
                        k as int,
                        pre.entry_path(i),
                    ) by {
                        assert(!in_paths_upto(paths@, k as int - 1, pre.entry_path(i)));
                        if pre.entry_path(i) == paths@[k as int - 1]@ {
                            assert(reg.entry_path(i) == paths@[k as int - 1]@);
                            let j = choose|j: int|
                                0 <= j < reg.entries@.len() && reg.entries@[j].id == i;
                            assert(reg.entries@[j].data.path@ == reg.entry_path(i));
                            assert(reg.has_path(paths@[k as int - 1]@));
                            assert(false);
                        }
                    }
                    assert forall|i: u64|
                        pre.has_entry(i) && !in_paths_upto(
                            paths@,
                            k as int,
                            #[trigger] pre.entry_path(i),
                        ) implies reg.has_entry(i) by {
                        assert(!in_paths_upto(paths@, k as int - 1, pre.entry_path(i)));
                    }
                }
                continue;
            },
        }
    }
    proof {
        assert forall|i: u64| #[trigger] reg.has_entry(i) implies !in_paths(
            paths@,
            pre.entry_path(i),
        ) by {
            assert(!in_paths_upto(paths@, n as int, pre.entry_path(i)));
        }
        assert forall|i: u64|
            pre.has_entry(i) && !in_paths(paths@, #[trigger] pre.entry_path(i))
                implies reg.has_entry(i) by {
            assert(!in_paths_upto(paths@, n as int, pre.entry_path(i)));
        }
        assert forall|p: Seq<char>| #[trigger] in_paths(paths@, p) implies !reg.has_path(p) by {
            if reg.has_path(p) {
                let j = choose|j: int|
                    0 <= j < reg.entries@.len() && reg.entries@[j].data.path@ == p;
                let i = reg.entries@[j].id;
                assert(reg.has_entry(i));
                assert(reg.entry_path(i) == p) by {
                    let jj = choose|jj: int|
                        0 <= jj < reg.entries@.len() && reg.entries@[jj].id == i;
                    reg.lemma_entry_idx_unique(jj, j);
                }
                assert(pre.entry_path(i) == p);
                assert(!in_paths_upto(paths@, n as int, pre.entry_path(i)));
            }
        }
    }
}

/// Removes the entry if it ended a batch with zero tags: the speculative
/// cleanup after tagging a file failed for every requested tag.
pub fn drop_if_untagged(reg: &mut TagRegistry, id: u64) -> (r: Option<EntryData>)
    requires
        old(reg).wf(),
    ensures
        final(reg).wf(),
        old(reg).tidy() ==> final(reg).tidy(),
        final(reg).path@ == old(reg).path@,
        final(reg).tags@ == old(reg).tags@,
        old(reg).entry_has_some_tag(id) ==> *final(reg) == *old(reg) && r is None,
        !old(reg).entry_has_some_tag(id) ==> {
            &&& r is Some <==> old(reg).has_entry(id)
            &&& forall|i: u64| final(reg).has_entry(i) <==> old(reg).has_entry(i) && i != id
        },
{
    if reg.some_tag_contains(id) {
        None
    } else {
        reg.remove_entry(id)
    }
}

/// Some tag in the listing bears this name.
pub open spec fn tag_named_in(v: Seq<Tag>, n: Seq<char>) -> bool {
    exists|k: int| 0 <= k < v.len() && (#[trigger] v[k]).name@ == n
}

/// The listing holds exactly the entry's tags, with the registry's
/// colors.
pub open spec fn tags_listing_ok(reg: TagRegistry, id: u64, v: Seq<Tag>) -> bool {
    &&& forall|k: int|
        0 <= k < v.len() ==> reg.tag_has((#[trigger] v[k]).name@, id) && v[k].color
            == reg.tag_color(v[k].name@)
    &&& forall|n: Seq<char>| reg.tag_has(n, id) ==> tag_named_in(v, n)
}

/// What a whole-registry file listing answers: every tracked entry in
/// record order, each with exactly its tags when asked, bare otherwise.
pub open spec fn list_files_response_ok(reg: TagRegistry, with_tags: bool, r: Response) -> bool {
    r matches Response::ListFiles(p) && (p matches PayloadResult::Value(v) && {
        &&& v@.len() == reg.entries@.len()
        &&& forall|j: int|
            0 <= j < v@.len() ==> (#[trigger] v@[j]).0.path@ == reg.entries@[j].data.path@
        &&& with_tags ==> forall|j: int|
            0 <= j < v@.len() ==> tags_listing_ok(reg, reg.entries@[j].id, (#[trigger] v@[j]).1@)
        &&& !with_tags ==> forall|j: int| 0 <= j < v@.len() ==> (#[trigger] v@[j]).1@.len() == 0
    })
}

/// Answers a whole-registry file listing: every tracked entry in record
/// order, each with its tags when asked, bare otherwise.
pub fn handle_list_files(reg: &TagRegistry, with_tags: bool) -> (r: Response)
    requires
        reg.wf(),
    ensures
        list_files_response_ok(*reg, with_tags, r),
{
    let n = reg.entries.len();
    let mut v: Vec<(EntryData, Vec<Tag>)> = Vec::new();
    let mut j: usize = 0;
    while j < n
        invariant
            reg.wf(),
            n == reg.entries@.len(),
            j <= n,
            v@.len() == j,
            forall|q: int|
                0 <= q < j ==> (#[trigger] v@[q]).0.path@ == reg.entries@[q].data.path@,
            with_tags ==> forall|q: int|
                0 <= q < j ==> tags_listing_ok(*reg, reg.entries@[q].id, (#[trigger] v@[q]).1@),
            !with_tags ==> forall|q: int| 0 <= q < j ==> (#[trigger] v@[q]).1@.len() == 0,
        decreases n - j,
    {
        let entry = reg.entries[j].data.duplicate();
        let id = reg.entries[j].id;
        let tags: Vec<Tag> = if with_tags {
            match reg.list_entry_tags(id) {
                Some(ts) => ts,
                None => Vec::new(),
            }
        } else {
            Vec::new()
        };
        proof {
            if with_tags {
                if !reg.entry_has_some_tag(id) {
                    assert forall|nm: Seq<char>| !reg.tag_has(nm, id) by {
                        if reg.tag_has(nm, id) {
                            let t = choose|t: int|
                                0 <= t < reg.tags@.len() && reg.tags@[t].tag.name@ == nm
                                    && reg.tags@[t].ids@.contains(id);
                        }
                    }
                }
                assert forall|nm: Seq<char>| reg.tag_has(nm, id) implies tag_named_in(
                    tags@,
                    nm,
                ) by {
                    let k = choose|k: int| 0 <= k < tags@.len() && (#[trigger] tags@[k]).name@
                        == nm;
                    assert(tags@[k].name@ == nm);
                }
                assert(tags_listing_ok(*reg, id, tags@));
            }
        }
        v.push((entry, tags));
        j = j + 1;
    }
    Response::ListFiles(PayloadResult::Value(v))
}

/// What a whole-registry tag listing answers: every tag in record order,
/// each with the entries carrying it when asked, bare otherwise.
pub open spec fn list_tags_response_ok(reg: TagRegistry, with_files: bool, r: Response) -> bool {
    r matches Response::ListTags(p) && (p matches PayloadResult::Value(v) && {
        &&& v@.len() == reg.tags@.len()
        &&& forall|i: int|
            0 <= i < v@.len() ==> (#[trigger] v@[i]).0.name@ == reg.tags@[i].tag.name@
                && v@[i].0.color == reg.tags@[i].tag.color
        &&& with_files ==> forall|i: int|
            0 <= i < v@.len() ==> ((#[trigger] v@[i]).1@.len() == reg.tags@[i].ids@.len()
                && forall|x: int|
                0 <= x < v@[i].1@.len() ==> (#[trigger] v@[i].1@[x]).path@ == reg.entry_path(
                    reg.tags@[i].ids@[x],
                ))
        &&& !with_files ==> forall|i: int| 0 <= i < v@.len() ==> (#[trigger] v@[i]).1@.len() == 0
    })
}

/// Answers a whole-registry tag listing: every tag in record order, each
/// with the entries carrying it when asked, bare otherwise.
pub fn handle_list_tags(reg: &TagRegistry, with_files: bool) -> (r: Response)
    requires
        reg.wf(),
    ensures
        list_tags_response_ok(*reg, with_files, r),
{
    let n = reg.tags.len();
    let mut v: Vec<(Tag, Vec<EntryData>)> = Vec::new();
    let mut i: usize = 0;
    while i < n
        invariant
            reg.wf(),
            n == reg.tags@.len(),
            i <= n,
            v@.len() == i,
            forall|q: int|
                0 <= q < i ==> (#[trigger] v@[q]).0.name@ == reg.tags@[q].tag.name@ && v@[q].0.color
                    == reg.tags@[q].tag.color,
            with_files ==> forall|q: int|
                0 <= q < i ==> ((#[trigger] v@[q]).1@.len() == reg.tags@[q].ids@.len() && forall|
                    x: int,
                |
                    0 <= x < v@[q].1@.len() ==> (#[trigger] v@[q].1@[x]).path@ == reg.entry_path(
                        reg.tags@[q].ids@[x],
                    )),
            !with_files ==> forall|q: int| 0 <= q < i ==> (#[trigger] v@[q]).1@.len() == 0,
        decreases n - i,
    {
        let tag = reg.tags[i].tag.duplicate();
        let mut entries: Vec<EntryData> = Vec::new();
        if with_files {
            let m = reg.tags[i].ids.len();
            let mut x: usize = 0;
            while x < m
                invariant
                    reg.wf(),
                    i < reg.tags@.len(),
                    m == reg.tags@[i as int].ids@.len(),
                    x <= m,
                    entries@.len() == x,
                    forall|q: int|
                        0 <= q < x ==> (#[trigger] entries@[q]).path@ == reg.entry_path(
                            reg.tags@[i as int].ids@[q],
                        ),
                decreases m - x,
            {
                let id = reg.tags[i].ids[x];
                proof {
                    assert(reg.has_entry(reg.tags@[i as int].ids@[x as int]));
                }
                match reg.get_entry(id) {
                    Some(d) => entries.push(d.duplicate()),
                    None => {
                        proof {
                            assert(false);
                        }
                    },
                }
                x = x + 1;
            }
        }
        v.push((tag, entries));
        i = i + 1;
    }
    Response::ListTags(PayloadResult::Value(v))
}

/// A pair of the inspection result describes a tracked file and its
/// tags.
pub open spec fn inspect_item_ok(reg: TagRegistry, pair: (EntryData, Vec<Tag>)) -> bool {
    exists|id: u64|
        #![trigger reg.entry_path(id)]
        reg.has_entry(id) && reg.entry_path(id) == pair.0.path@ && tags_listing_ok(
            reg,
            id,
            pair.1@,
        )
}

/// The inspection result names an entry with this path.
pub open spec fn inspect_lists_path(v: Seq<(EntryData, Vec<Tag>)>, p: Seq<char>) -> bool {
    exists|k: int| 0 <= k < v.len() && (#[trigger] v[k]).0.path@ == p
}

/// What an inspection answers: an empty file list is invalid input;
/// otherwise every listed pair describes a tracked file with its tags,
/// and every given path that is tracked is listed.
pub open spec fn inspect_response_ok(reg: TagRegistry, files: Seq<String>, r: Response) -> bool {
    &&& files.len() == 0 ==> (r matches Response::InspectFiles(p) && (p
        matches PayloadResult::Error(m) && m@ == "no files to inspect"@))
    &&& files.len() > 0 ==> (r matches Response::InspectFiles(p) && (p
        matches PayloadResult::Value(v) && {
        &&& forall|k: int| 0 <= k < v@.len() ==> inspect_item_ok(reg, #[trigger] v@[k])
        &&& forall|q: int|
            0 <= q < files.len() && reg.has_path((#[trigger] files[q])@) ==> inspect_lists_path(
                v@,
                files[q]@,
            )
    }))
}

/// Answers an inspection: of the given files, the tracked ones with
/// their tags; an empty file list is invalid input.
pub fn handle_inspect_files(reg: &TagRegistry, files: &Vec<String>) -> (r: Response)
    requires
        reg.wf(),
    ensures
        inspect_response_ok(*reg, files@, r),
{
    if files.len() == 0 {
        return Response::InspectFiles(PayloadResult::Error("no files to inspect".to_owned()));
    }
    let n = files.len();
    let mut v: Vec<(EntryData, Vec<Tag>)> = Vec::new();
    let mut q: usize = 0;
    while q < n
        invariant
            reg.wf(),
            n == files@.len(),
            q <= n,
            forall|k: int| 0 <= k < v@.len() ==> inspect_item_ok(*reg, #[trigger] v@[k]),
            forall|w: int|
                0 <= w < q && reg.has_path((#[trigger] files@[w])@) ==> inspect_lists_path(
                    v@,
                    files@[w]@,
                ),
        decreases n - q,
    {
        let ghost before = v@;
        match reg.find_entry(files[q].as_str()) {
            Some(id) => {
                let tags: Vec<Tag> = match reg.list_entry_tags(id) {
                    Some(ts) => ts,
                    None => Vec::new(),
                };
                proof {
                    if !reg.entry_has_some_tag(id) {
                        assert forall|nm: Seq<char>| !reg.tag_has(nm, id) by {
                            if reg.tag_has(nm, id) {
                                let t = choose|t: int|
                                    0 <= t < reg.tags@.len() && reg.tags@[t].tag.name@ == nm
                                        && reg.tags@[t].ids@.contains(id);
                            }
                        }
                    }
                    assert forall|nm: Seq<char>| reg.tag_has(nm, id) implies tag_named_in(
                        tags@,
                        nm,
                    ) by {
                        let k = choose|k: int|
                            0 <= k < tags@.len() && (#[trigger] tags@[k]).name@ == nm;
                        assert(tags@[k].name@ == nm);
                    }
                    assert(tags_listing_ok(*reg, id, tags@));
                }
                let data = match reg.get_entry(id) {
                    Some(d) => d.duplicate(),
                    None => {
                        proof {
                            assert(false);
                        }
                        EntryData::new(String::new())
                    },
                };
                v.push((data, tags));
                proof {
                    assert(v@[v@.len() - 1].0.path@ == reg.entry_path(id));
                    assert(inspect_item_ok(*reg, v@[v@.len() - 1]));
                    assert forall|k: int|
                        0 <= k < v@.len() implies inspect_item_ok(*reg, #[trigger] v@[k]) by {
                        if k < before.len() {
                            assert(v@[k] == before[k]);
                        }
                    }
                    assert forall|w: int|
                        0 <= w < q + 1 && reg.has_path(
                            (#[trigger] files@[w])@,
                        ) implies inspect_lists_path(v@, files@[w]@) by {
                        if w < q {
                            assert(inspect_lists_path(before, files@[w]@));
                            let k = choose|k: int|
                                0 <= k < before.len() && (#[trigger] before[k]).0.path@
                                    == files@[w]@;
                            assert(v@[k].0.path@ == files@[w]@);
                        } else {
                            assert(v@[v@.len() - 1].0.path@ == files@[q as int]@);
                        }
                    }
                }
                q = q + 1;
                continue ;
            },
            None => {
                proof {
                    assert forall|w: int|
                        0 <= w < q + 1 && reg.has_path(
                            (#[trigger] files@[w])@,
                        ) implies inspect_lists_path(v@, files@[w]@) by {
                        if w == q {
                            assert(false);
                        }
                    }
                }
                q = q + 1;
                continue ;
            },
        }
    }
    Response::InspectFiles(PayloadResult::Value(v))
}

/// Rejects an invalid tag batch before any work: no files, then no tags.
pub fn tag_files_validate(files: &Vec<String>, tags: &Vec<Tag>) -> (r: Option<Response>)
    ensures
        files@.len() == 0 ==> (r matches Some(resp) && (resp matches Response::TagFiles(p) && (p
            matches PayloadResult::Error(v) && v@.len() == 1 && v@[0]@ == "no files to tag"@))),
        files@.len() > 0 && tags@.len() == 0 ==> (r matches Some(resp) && (resp
            matches Response::TagFiles(p) && (p matches PayloadResult::Error(v) && v@.len() == 1
            && v@[0]@ == "no tags provided"@))),
        files@.len() > 0 && tags@.len() > 0 ==> r is None,
{
    if files.len() == 0 {
        let mut v: Vec<String> = Vec::new();
        v.push("no files to tag".to_owned());
        Some(Response::TagFiles(PayloadResult::Error(v)))
    } else if tags.len() == 0 {
        let mut v: Vec<String> = Vec::new();
        v.push("no tags provided".to_owned());
        Some(Response::TagFiles(PayloadResult::Error(v)))
    } else {
        None
    }
}

/// Rejects an invalid untag batch before any work: no files, then no
/// tags.
pub fn untag_files_validate(files: &Vec<String>, tags: &Vec<Tag>) -> (r: Option<Response>)
    ensures
        files@.len() == 0 ==> (r matches Some(resp) && (resp matches Response::UntagFiles(p) && (p
            matches PayloadResult::Error(v) && v@.len() == 1 && v@[0]@ == "no files to untag"@))),
        files@.len() > 0 && tags@.len() == 0 ==> (r matches Some(resp) && (resp
            matches Response::UntagFiles(p) && (p matches PayloadResult::Error(v) && v@.len() == 1
            && v@[0]@ == "no tags provided"@))),
        files@.len() > 0 && tags@.len() > 0 ==> r is None,
{
    if files.len() == 0 {
        let mut v: Vec<String> = Vec::new();
        v.push("no files to untag".to_owned());
        Some(Response::UntagFiles(PayloadResult::Error(v)))
    } else if tags.len() == 0 {
        let mut v: Vec<String> = Vec::new();
        v.push("no tags provided".to_owned());
        Some(Response::UntagFiles(PayloadResult::Error(v)))
    } else {
        None
    }
}

/// Rejects an empty clear-files batch before any work.
pub fn clear_files_validate(files: &Vec<String>) -> (r: Option<Response>)
    ensures
        files@.len() == 0 ==> (r matches Some(resp) && (resp matches Response::ClearFiles(p) && (p
            matches PayloadResult::Error(v) && v@.len() == 1 && v@[0]@ == "no files to clear"@))),
        files@.len() > 0 ==> r is None,
{
    if files.len() == 0 {
        let mut v: Vec<String> = Vec::new();
        v.push("no files to clear".to_owned());
        Some(Response::ClearFiles(PayloadResult::Error(v)))
    } else {
        None
    }
}

/// Rejects an empty clear-tags batch before any work.
pub fn clear_tags_validate(tags: &Vec<String>) -> (r: Option<Response>)
    ensures
        tags@.len() == 0 ==> (r matches Some(resp) && (resp matches Response::ClearTags(p) && (p
            matches PayloadResult::Error(v) && v@.len() == 1 && v@[0]@ == "no tags to clear"@))),
        tags@.len() > 0 ==> r is None,
{
    if tags.len() == 0 {
        let mut v: Vec<String> = Vec::new();
        v.push("no tags to clear".to_owned());
        Some(Response::ClearTags(PayloadResult::Error(v)))
    } else {
        None
    }
}

/// Registers one path of a tag batch: registers-or-updates the entry
/// and, when the path is newly tracked, records it for the
/// newly-tracked-paths event. The caller must wipe the file's
/// pre-existing on-disk markers exactly when `r.1` holds, establishing a
/// known-empty baseline.
pub fn tag_file_begin(reg: &mut TagRegistry, file: &str, new_paths: &mut Vec<String>) -> (r: (
    u64,
    bool,
))
    requires
        old(reg).wf(),
    ensures
        final(reg).wf(),
        final(reg).path@ == old(reg).path@,
        final(reg).tags_view() == old(reg).tags_view(),
        r.1 == !old(reg).has_path(file@),
        final(reg).has_entry(r.0),
        final(reg).entry_path(r.0) == file@,
        forall|i: u64| final(reg).has_entry(i) <==> old(reg).has_entry(i) || i == r.0,
        forall|i: u64|
            old(reg).has_entry(i) ==> final(reg).entry_path(i) == old(reg).entry_path(i),
        old(reg).tidy() && !r.1 ==> final(reg).tidy(),
        r.1 ==> {
            &&& final(new_paths)@.len() == old(new_paths)@.len() + 1
            &&& final(new_paths)@.last()@ == file@
            &&& forall|j: int|
                0 <= j < old(new_paths)@.len() ==> final(new_paths)@[j] == old(new_paths)@[j]
        },
        !r.1 ==> final(new_paths)@ == old(new_paths)@,
{
    let (id, created) = reg.add_or_update_entry(EntryData::new(file.to_owned()));
    if created {
        new_paths.push(file.to_owned());
    }
    (id, created)
}

/// The per-path-per-tag line a failed tag write contributes to the batch
/// report.
pub open spec fn tag_error_line(file: Seq<char>, tag: Seq<char>, e: Error) -> Seq<char> {
    "Error for `"@ + file + "` tag: `"@ + tag + "`, reason: "@ + spec_message(e)
}

/// Folds one tag-save outcome into the batch: records the tag on the
/// entry when the marker was written; on failure leaves the registry
/// untouched and yields the per-path-per-tag error line, together with
/// whether further tags on this file are futile because its attribute
/// capacity is exhausted.
pub fn tag_save_step(
    reg: &mut TagRegistry,
    id: u64,
    tag: &Tag,
    file: &str,
    save_err: Option<Error>,
) -> (r: (Option<String>, bool))
    requires
        old(reg).wf(),
        old(reg).has_entry(id),
    ensures
        final(reg).wf(),
        old(reg).tidy() ==> final(reg).tidy(),
        final(reg).path@ == old(reg).path@,
        final(reg).entries_view() == old(reg).entries_view(),
        forall|i: u64| final(reg).has_entry(i) <==> old(reg).has_entry(i),
        forall|i: u64|
            old(reg).has_entry(i) ==> final(reg).entry_path(i) == old(reg).entry_path(i),
        save_err is None ==> {
            &&& forall|n: Seq<char>, i: u64|
                final(reg).tag_has(n, i) <==> old(reg).tag_has(n, i) || (n == tag.name@ && i
                    == id)
            &&& forall|n: Seq<char>|
                final(reg).has_tag(n) <==> old(reg).has_tag(n) || n == tag.name@
            &&& forall|n: Seq<char>|
                old(reg).has_tag(n) ==> final(reg).tag_color(n) == old(reg).tag_color(n)
            &&& !old(reg).has_tag(tag.name@) ==> final(reg).tag_color(tag.name@) == tag.color
            &&& r.0 is None && !r.1
        },
        save_err matches Some(e) ==> {
            &&& *final(reg) == *old(reg)
            &&& r.0 matches Some(m) && m@ == tag_error_line(file@, tag.name@, e)
            &&& (r.1 <==> e is TagListFull)
        },
{
    match save_err {
        None => {
            let ghost pre = *reg;
            reg.tag_entry(tag, id);
            proof {
                assert(reg.entries_view() == pre.entries_view());
                assert(reg.entries_view().len() == reg.entries@.len());
                assert(pre.entries_view().len() == pre.entries@.len());
                assert(reg.entries@.len() == pre.entries@.len());
                assert forall|k: int|
                    0 <= k < reg.entries@.len() implies reg.entries@[k].id == pre.entries@[k].id
                        && reg.entries@[k].data.path@ == pre.entries@[k].data.path@ by {
                    assert(reg.entries_view()[k] == pre.entries_view()[k]);
                    assert(reg.entries_view()[k].0 == reg.entries@[k].id);
                    assert(pre.entries_view()[k].0 == pre.entries@[k].id);
                    assert(reg.entries_view()[k].1 == reg.entries@[k].data.path@);
                    assert(pre.entries_view()[k].1 == pre.entries@[k].data.path@);
                }
                assert forall|i: u64| reg.has_entry(i) <==> pre.has_entry(i) by {
                    if reg.has_entry(i) {
                        let k = choose|k: int|
                            0 <= k < reg.entries@.len() && reg.entries@[k].id == i;
                        assert(pre.entries@[k].id == i);
                    }
                    if pre.has_entry(i) {
                        let k = choose|k: int|
                            0 <= k < pre.entries@.len() && pre.entries@[k].id == i;
                        assert(reg.entries@[k].id == i);
                    }
                }
                assert forall|i: u64| pre.has_entry(i) implies reg.entry_path(i) == pre.entry_path(
                    i,
                ) by {
                    let a = choose|a: int|
                        0 <= a < reg.entries@.len() && reg.entries@[a].id == i;
                    let b = choose|b: int|
                        0 <= b < pre.entries@.len() && pre.entries@[b].id == i;
                    assert(pre.entries@[a].id == i);
                    pre.lemma_entry_idx_unique(a, b);
                }
            }
            (None, false)
        },
        Some(e) => {
            let futile = match e {
                Error::TagListFull => true,
                _ => false,
            };
            let mut m = "Error for `".to_owned();
            m.append(file);
            m.append("` tag: `");
            m.append(tag.name());
            m.append("`, reason: ");
            let msg = e.message();
            m.append(msg.as_str());
            (Some(m), futile)
        },
    }
}

/// The per-path-per-tag line a failed marker removal contributes to the
/// batch report.
pub open spec fn untag_error_line(file: Seq<char>, tag: Seq<char>, e: Error) -> Seq<char> {
    file + " tag: "@ + tag + ", error: "@ + spec_message(e)
}

/// Folds one tag-removal outcome into the batch: when the marker came
/// off, drops the tag from the entry — removing the entry outright when
/// it was its last tag, and yielding its path for the untracked-paths
/// event; on failure leaves the registry untouched and yields the
/// per-path-per-tag error line.
pub fn untag_step(
    reg: &mut TagRegistry,
    id: u64,
    tag: &Tag,
    file: &str,
    remove_err: Option<Error>,
) -> (r: (Option<String>, Option<String>))
    requires
        old(reg).wf(),
    ensures
        final(reg).wf(),
        old(reg).tidy() ==> final(reg).tidy(),
        final(reg).path@ == old(reg).path@,
        remove_err is None ==> {
            &&& r.0 is None
            &&& forall|n: Seq<char>, i: u64|
                final(reg).tag_has(n, i) <==> old(reg).tag_has(n, i) && !(n == tag.name@ && i
                    == id)
            &&& (r.1 is Some <==> (old(reg).has_entry(id) && forall|n: Seq<char>|
                old(reg).tag_has(n, id) ==> n == tag.name@))
            &&& r.1 matches Some(p) ==> p@ == old(reg).entry_path(id)
            &&& forall|i: u64|
                final(reg).has_entry(i) <==> (old(reg).has_entry(i) && !(i == id && r.1 is Some))
            &&& forall|i: u64|
                final(reg).has_entry(i) ==> final(reg).entry_path(i) == old(reg).entry_path(i)
        },
        remove_err matches Some(e) ==> {
            &&& *final(reg) == *old(reg)
            &&& r.0 matches Some(m) && m@ == untag_error_line(file@, tag.name@, e)
            &&& r.1 is None
        },
{
    match remove_err {
        None => {
            match reg.untag_entry(tag, id) {
                Some(d) => (None, Some(d.into_path_buf())),
                None => (None, None),
            }
        },
        Some(e) => {
            let mut m = file.to_owned();
            m.append(" tag: ");
            m.append(tag.name());
            m.append(", error: ");
            let msg = e.message();
            m.append(msg.as_str());
            (Some(m), None)
        },
    }
}

/// The per-path line a failed attribute wipe contributes to the batch
/// report.
pub open spec fn clear_error_line(file: Seq<char>, e: Error) -> Seq<char> {
    "failed to clear tags from `"@ + file + "` - "@ + spec_message(e)
}

/// Folds one attribute-wipe outcome into a clear-files batch: when the
/// file's markers were wiped, unhooks the entry from every tag and
/// removes it; on failure leaves the registry untouched and yields the
/// per-path error line.
pub fn clear_file_step(reg: &mut TagRegistry, id: u64, file: &str, clear_err: Option<Error>) -> (r:
    Option<String>)
    requires
        old(reg).wf(),
    ensures
        final(reg).wf(),
        old(reg).tidy() ==> final(reg).tidy(),
        final(reg).path@ == old(reg).path@,
        clear_err is None ==> {
            &&& r is None
            &&& forall|n: Seq<char>, i: u64|
                final(reg).tag_has(n, i) <==> old(reg).tag_has(n, i) && i != id
            &&& forall|i: u64| final(reg).has_entry(i) <==> old(reg).has_entry(i) && i != id
            &&& forall|i: u64|
                final(reg).has_entry(i) ==> final(reg).entry_path(i) == old(reg).entry_path(i)
        },
        clear_err matches Some(e) ==> *final(reg) == *old(reg) && (r matches Some(m) && m@
            == clear_error_line(file@, e)),
{
    match clear_err {
        None => {
            reg.clear_entry(id);
            None
        },
        Some(e) => {
            let mut m = "failed to clear tags from `".to_owned();
            m.append(file);
            m.append("` - ");
            let msg = e.message();
            m.append(msg.as_str());
            Some(m)
        },
    }
}

/// One named tag of a clear-tags batch: a name no tag bears is skipped
/// with the registry untouched; a known one is deleted outright,
/// yielding exactly the entries that thereby lost their last tag — whose
/// on-disk markers the caller still has to remove, and whose paths feed
/// the untracked-paths event.
pub fn clear_tag_step(reg: &mut TagRegistry, name: &str) -> (r: Option<Vec<EntryData>>)
    requires
        old(reg).wf(),
    ensures
        final(reg).wf(),
        old(reg).tidy() ==> final(reg).tidy(),
        final(reg).path@ == old(reg).path@,
        !old(reg).has_tag(name@) ==> *final(reg) == *old(reg) && r is None,
        old(reg).has_tag(name@) ==> {
            &&& forall|n: Seq<char>, i: u64|
                final(reg).tag_has(n, i) <==> old(reg).tag_has(n, i) && n != name@
            &&& forall|n: Seq<char>|
                n != name@ ==> (final(reg).has_tag(n) <==> old(reg).has_tag(n))
            &&& !final(reg).has_tag(name@)
            &&& forall|n: Seq<char>|
                final(reg).has_tag(n) ==> final(reg).tag_color(n) == old(reg).tag_color(n)
            &&& forall|i: u64|
                final(reg).has_entry(i) <==> old(reg).has_entry(i) && !old(reg).loses_last_tag(
                    name@,
                    i,
                )
            &&& forall|i: u64|
                final(reg).has_entry(i) ==> final(reg).entry_path(i) == old(reg).entry_path(i)
            &&& r matches Some(v) && TagRegistry::cleared_entries_ok(*old(reg), name@, v@)
        },
{
    let tag = match reg.get_tag(name) {
        Some(t) => t.duplicate(),
        None => {
            return None;
        },
    };
    reg.clear_tag(&tag)
}

/// The tag batch's outcome: success exactly when no error line was
/// gathered, else the gathered lines, one per failed path and tag.
pub fn tag_files_response(errors: Vec<String>) -> (r: Response)
    ensures
        errors@.len() == 0 ==> (r matches Response::TagFiles(p) && p is Value),
        errors@.len() > 0 ==> (r matches Response::TagFiles(p) && (p matches PayloadResult::Error(v)
            && v@ == errors@)),
{
    if errors.len() == 0 {
        Response::TagFiles(PayloadResult::Value(()))
    } else {
        Response::TagFiles(PayloadResult::Error(errors))
    }
}

/// The untag batch's outcome: success exactly when no error line was
/// gathered, else the gathered lines, one per failed path and tag.
pub fn untag_files_response(errors: Vec<String>) -> (r: Response)
    ensures
        errors@.len() == 0 ==> (r matches Response::UntagFiles(p) && p is Value),
        errors@.len() > 0 ==> (r matches Response::UntagFiles(p) && (p
            matches PayloadResult::Error(v) && v@ == errors@)),
{
    if errors.len() == 0 {
        Response::UntagFiles(PayloadResult::Value(()))
    } else {
        Response::UntagFiles(PayloadResult::Error(errors))
    }
}

/// The clear-files batch's outcome: success exactly when no error line
/// was gathered, else the gathered lines, one per failed path.
pub fn clear_files_response(errors: Vec<String>) -> (r: Response)
    ensures
        errors@.len() == 0 ==> (r matches Response::ClearFiles(p) && p is Value),
        errors@.len() > 0 ==> (r matches Response::ClearFiles(p) && (p
            matches PayloadResult::Error(v) && v@ == errors@)),
{
    if errors.len() == 0 {
        Response::ClearFiles(PayloadResult::Value(()))
    } else {
        Response::ClearFiles(PayloadResult::Error(errors))
    }
}

/// The clear-tags batch's outcome: the registry deletions always
/// succeed, and marker-removal failures are only logged, so a validated
/// batch always answers success.
pub fn clear_tags_response() -> (r: Response)
    ensures
        r matches Response::ClearTags(p) && p is Value,
{
    Response::ClearTags(PayloadResult::Value(()))
}

/// Queues the newly-tracked-paths delta only when the batch actually
/// tracked a path: an empty list yields no event.
pub fn added_event(paths: Vec<String>) -> (r: Option<EntryEvent>)
    ensures
        paths@.len() == 0 ==> r is None,
        paths@.len() > 0 ==> (r matches Some(ev) && (ev matches EntryEvent::Add(v) && v@ == paths@)),
{
    if paths.len() == 0 {
        None
    } else {
        Some(EntryEvent::Add(paths))
    }
}

/// Queues the untracked-paths delta only when the batch actually removed
/// an entry: an empty list yields no event.
pub fn removed_event(paths: Vec<String>) -> (r: Option<EntryEvent>)
    ensures
        paths@.len() == 0 ==> r is None,
        paths@.len() > 0 ==> (r matches Some(ev) && (ev matches EntryEvent::Remove(v) && v@
            == paths@)),
{
    if paths.len() == 0 {
        None
    } else {
        Some(EntryEvent::Remove(paths))
    }
}

/// The copy handler's preamble, deciding on the source's listed tag
/// names: a failed listing answers with one error line, a source
/// carrying no tags succeeds at once with nothing to copy, and only a
/// non-empty listing goes on to the tag batch.
pub fn copy_tags_precheck(listing: Result<Vec<String>, Error>) -> (r: Result<
    Vec<String>,
    Response,
>)
    ensures
        listing matches Err(e) ==> (r matches Err(resp) && (resp matches Response::CopyTags(p) && (p
            matches PayloadResult::Error(v) && v@.len() == 1 && v@[0]@ == "failed to copy tags - "@
            + spec_message(e)))),
        listing matches Ok(names) && names@.len() == 0 ==> (r matches Err(resp) && (resp
            matches Response::CopyTags(p) && p is Value)),
        listing matches Ok(names) ==> (names@.len() > 0 ==> (r matches Ok(w) && w == names)),
{
    match listing {
        Err(e) => {
            let mut m = "failed to copy tags - ".to_owned();
            let msg = e.message();
            m.append(msg.as_str());
            let mut v: Vec<String> = Vec::new();
            v.push(m);
            Err(Response::CopyTags(PayloadResult::Error(v)))
        },
        Ok(names) => {
            if names.len() == 0 {
                Err(Response::CopyTags(PayloadResult::Value(())))
            } else {
                Ok(names)
            }
        },
    }
}

/// The tags a copy carries over: each source tag name resolved against
/// the registry, reusing the registered color where the name is known
/// and drawing a fresh one from the palette otherwise.
pub fn copy_tags_resolve(reg: &TagRegistry, names: &Vec<String>, palette: &Vec<Color>) -> (r: Vec<
    Tag,
>)
    requires
        reg.wf(),
    ensures
        r@.len() == names@.len(),
        forall|k: int| 0 <= k < r@.len() ==> (#[trigger] r@[k]).name@ == names@[k]@,
        forall|k: int|
            0 <= k < r@.len() && reg.has_tag(names@[k]@) ==> (#[trigger] r@[k]).color
                == reg.tag_color(names@[k]@),
        forall|k: int|
            0 <= k < r@.len() && !reg.has_tag(names@[k]@) && palette@.len() > 0
                ==> palette@.contains((#[trigger] r@[k]).color),
{
    let mut out: Vec<Tag> = Vec::new();
    let n = names.len();
    let mut k: usize = 0;
    while k < n
        invariant
            reg.wf(),
            n == names@.len(),
            k <= n,
            out@.len() == k,
            forall|q: int| 0 <= q < k ==> (#[trigger] out@[q]).name@ == names@[q]@,
            forall|q: int|
                0 <= q < k && reg.has_tag(names@[q]@) ==> (#[trigger] out@[q]).color
                    == reg.tag_color(names@[q]@),
            forall|q: int|
                0 <= q < k && !reg.has_tag(names@[q]@) && palette@.len() > 0 ==> palette@.contains(
                    (#[trigger] out@[q]).color,
                ),
        decreases n - k,
    {
        let t = match reg.get_tag(names[k].as_str()) {
            Some(t) => t.duplicate(),
            None => Tag::random(names[k].clone(), palette),
        };
        out.push(t);
        k = k + 1;
    }
    out
}

/// A copy delegates to the tag batch; its answer is re-labelled as the
/// copy's own, any other reply handed through unchanged.
pub fn copy_tags_relabel(resp: Response) -> (r: Response)
    ensures
        resp matches Response::TagFiles(p) ==> (r matches Response::CopyTags(q) && q == p),
        !(resp is TagFiles) ==> r == resp,
{
    match resp {
        Response::TagFiles(p) => Response::CopyTags(p),
        other => other,
    }
}

/// Dispatches a read-only query against the registry: the requests
/// whose whole answer is a read, safe under a shared lock concurrently
/// with other readers. Any other request is handed back for its own
/// lock discipline.
pub fn dispatch_query(reg: &TagRegistry, request: Request) -> (r: Result<Response, Request>)
    requires
        reg.wf(),
    ensures
        request matches Request::Search { tags, any } ==> (r matches Ok(resp)
            && search_response_ok(*reg, tags@, any, resp)),
        request matches Request::ListTags { with_files } ==> (r matches Ok(resp)
            && list_tags_response_ok(*reg, with_files, resp)),
        request matches Request::ListFiles { with_tags } ==> (r matches Ok(resp)
            && list_files_response_ok(*reg, with_tags, resp)),
        request matches Request::InspectFiles { files } ==> (r matches Ok(resp)
            && inspect_response_ok(*reg, files@, resp)),
        !(request is Search) && !(request is ListTags) && !(request is ListFiles) && !(request
            is InspectFiles) ==> (r matches Err(q) && q == request),
{
    match request {
        Request::Search { tags, any } => Ok(handle_search(reg, &tags, any)),
        Request::ListTags { with_files } => Ok(handle_list_tags(reg, with_files)),
        Request::ListFiles { with_tags } => Ok(handle_list_files(reg, with_tags)),
        Request::InspectFiles { files } => Ok(handle_inspect_files(reg, &files)),
        other => Err(other),
    }
}

/// Dispatches a request that the registry alone can answer and that
/// mutates it — repainting a tag and emptying the cache — under the
/// exclusive lock. The ping, the read-only queries, and the batch and
/// pattern requests, whose handling interleaves attribute writes or
/// glob resolution, are handed back for the caller to orchestrate
/// through the step functions above.
pub fn dispatch_registry(reg: &mut TagRegistry, request: Request) -> (r: Result<Response, Request>)
    requires
        old(reg).wf(),
    ensures
        final(reg).wf(),
        old(reg).tidy() ==> final(reg).tidy(),
        final(reg).path@ == old(reg).path@,
        request matches Request::EditTag { tag, color } ==> (r matches Ok(resp)
            && edit_tag_response_ok(*old(reg), *final(reg), tag@, color, resp)),
        request is ClearCache ==> {
            &&& final(reg).tidy()
            &&& final(reg).tags@.len() == 0
            &&& final(reg).entries@.len() == 0
            &&& r matches Ok(resp) && (resp matches Response::ClearCache(p) && p is Value)
        },
        !(request is EditTag) && !(request is ClearCache) ==> *final(reg) == *old(reg) && (r
            matches Err(q) && q == request),
{
    match request {
        Request::EditTag { tag, color } => Ok(handle_edit_tag(reg, tag.as_str(), color)),
        Request::ClearCache => Ok(handle_clear_cache(reg)),
        other => Err(other),
    }
}

/// An error payload of one given line, in list shape.
pub open spec fn one_line_err<T>(p: PayloadResult<T, Vec<String>>, line: Seq<char>) -> bool {
    p matches PayloadResult::Error(v) && v@.len() == 1 && v@[0]@ == line
}

/// An error payload of one given line, in string shape.
pub open spec fn str_err<T>(p: PayloadResult<T, String>, line: Seq<char>) -> bool {
    p matches PayloadResult::Error(m) && m@ == line
}

/// The reply when the registry lock stayed contended through the bounded
/// retries: the operation is skipped and reported busy, under its own
/// response variant — a pattern request under the variant of the
/// explicit operation it sugars.
pub fn busy_response(request: &Request) -> (r: Response)
    ensures
        request is TagFiles || request is TagFilesPattern ==> (r matches Response::TagFiles(p)
            && one_line_err(p, "registry busy"@)),
        request is UntagFiles || request is UntagFilesPattern ==> (r matches Response::UntagFiles(p)
            && one_line_err(p, "registry busy"@)),
        request is ClearFiles || request is ClearFilesPattern ==> (r matches Response::ClearFiles(p)
            && one_line_err(p, "registry busy"@)),
        request is ClearTags ==> (r matches Response::ClearTags(p) && one_line_err(
            p,
            "registry busy"@,
        )),
        request is CopyTags || request is CopyTagsPattern ==> (r matches Response::CopyTags(p)
            && one_line_err(p, "registry busy"@)),
        request is EditTag ==> (r matches Response::EditTag(p) && str_err(p, "registry busy"@)),
        request is ListTags ==> (r matches Response::ListTags(p) && str_err(p, "registry busy"@)),
        request is ListFiles ==> (r matches Response::ListFiles(p) && str_err(p, "registry busy"@)),
        request is InspectFiles || request is InspectFilesPattern ==> (r
            matches Response::InspectFiles(p) && str_err(p, "registry busy"@)),
        request is Search ==> (r matches Response::Search(p) && str_err(p, "registry busy"@)),
        request is Ping ==> (r matches Response::Ping(p) && str_err(p, "registry busy"@)),
        request is ClearCache ==> (r matches Response::ClearCache(p) && str_err(
            p,
            "registry busy"@,
        )),
{
    match request {
        Request::TagFiles { .. } | Request::TagFilesPattern { .. } => {
            let mut v: Vec<String> = Vec::new();
            v.push("registry busy".to_owned());
            Response::TagFiles(PayloadResult::Error(v))
        },
        Request::UntagFiles { .. } | Request::UntagFilesPattern { .. } => {
            let mut v: Vec<String> = Vec::new();
            v.push("registry busy".to_owned());
            Response::UntagFiles(PayloadResult::Error(v))
        },
        Request::ClearFiles { .. } | Request::ClearFilesPattern { .. } => {
            let mut v: Vec<String> = Vec::new();
            v.push("registry busy".to_owned());
            Response::ClearFiles(PayloadResult::Error(v))
        },
        Request::ClearTags { .. } => {
            let mut v: Vec<String> = Vec::new();
            v.push("registry busy".to_owned());
            Response::ClearTags(PayloadResult::Error(v))
        },
        Request::CopyTags { .. } | Request::CopyTagsPattern { .. } => {
            let mut v: Vec<String> = Vec::new();
            v.push("registry busy".to_owned());
            Response::CopyTags(PayloadResult::Error(v))
        },
        Request::EditTag { .. } => Response::EditTag(
            PayloadResult::Error("registry busy".to_owned()),
        ),
        Request::ListTags { .. } => Response::ListTags(
            PayloadResult::Error("registry busy".to_owned()),
        ),
        Request::ListFiles { .. } => Response::ListFiles(
            PayloadResult::Error("registry busy".to_owned()),
        ),
        Request::InspectFiles { .. } | Request::InspectFilesPattern { .. } => {
            Response::InspectFiles(PayloadResult::Error("registry busy".to_owned()))
        },
        Request::Search { .. } => Response::Search(
            PayloadResult::Error("registry busy".to_owned()),
        ),
        Request::Ping => Response::Ping(PayloadResult::Error("registry busy".to_owned())),
        Request::ClearCache => Response::ClearCache(
            PayloadResult::Error("registry busy".to_owned()),
        ),
    }
}

/// The reply when a pattern request's glob fails to resolve: the
/// resolver's message, under the variant of the operation the pattern
/// sugars.
pub fn resolve_failed_response(request: &Request, msg: String) -> (r: Response)
    requires
        request is TagFilesPattern || request is UntagFilesPattern || request
            is ClearFilesPattern || request is CopyTagsPattern || request is InspectFilesPattern,
    ensures
        request is TagFilesPattern ==> (r matches Response::TagFiles(p) && one_line_err(p, msg@)),
        request is UntagFilesPattern ==> (r matches Response::UntagFiles(p) && one_line_err(
            p,
            msg@,
        )),
        request is ClearFilesPattern ==> (r matches Response::ClearFiles(p) && one_line_err(
            p,
            msg@,
        )),
        request is CopyTagsPattern ==> (r matches Response::CopyTags(p) && one_line_err(p, msg@)),
        request is InspectFilesPattern ==> (r matches Response::InspectFiles(p) && str_err(
            p,
            msg@,
        )),
{
    match request {
        Request::TagFilesPattern { .. } => {
            let mut v: Vec<String> = Vec::new();
            v.push(msg);
            Response::TagFiles(PayloadResult::Error(v))
        },
        Request::UntagFilesPattern { .. } => {
            let mut v: Vec<String> = Vec::new();
            v.push(msg);
            Response::UntagFiles(PayloadResult::Error(v))
        },
        Request::ClearFilesPattern { .. } => {
            let mut v: Vec<String> = Vec::new();
            v.push(msg);
            Response::ClearFiles(PayloadResult::Error(v))
        },
        Request::CopyTagsPattern { .. } => {
            let mut v: Vec<String> = Vec::new();
            v.push(msg);
            Response::CopyTags(PayloadResult::Error(v))
        },
        _ => Response::InspectFiles(PayloadResult::Error(msg)),
    }
}

} // verus!
