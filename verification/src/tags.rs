//! Searching files by the tags they carry on disk.
//!
//! The filesystem walk — enumerating candidate files under a base path
//! and reading each one's tag names — happens outside this crate; the
//! selection over what the walk found is checked here.

use vstd::prelude::*;

verus! {

/// The name stands in the list.
pub open spec fn name_in(list: Seq<String>, nm: Seq<char>) -> bool {
    exists|k: int| 0 <= k < list.len() && (#[trigger] list[k])@ == nm
}

/// Whether a list of names holds this one.
pub fn contains_name(list: &Vec<String>, name: &str) -> (r: bool)
    ensures
        r == name_in(list@, name@),
{
    let n = list.len();
    let mut k: usize = 0;
    while k < n
        invariant
            n == list@.len(),
            k <= n,
            forall|q: int| 0 <= q < k ==> (#[trigger] list@[q])@ != name@,
        decreases n - k,
    {
        if crate::registry::str_eq(list[k].as_str(), name) {
            proof {
                assert(list@[k as int]@ == name@);
            }
            return true;
        }
        k = k + 1;
    }
    false
}

/// A file whose on-disk tags are `file_tags` answers the search: with
/// `any`, it carries at least one wanted tag; without, it carries every
/// wanted tag (an empty wanted list then matches every file).
pub open spec fn candidate_matches(file_tags: Seq<String>, wanted: Seq<String>, any: bool) -> bool {
    if any {
        exists|w: int| 0 <= w < wanted.len() && name_in(file_tags, (#[trigger] wanted[w])@)
    } else {
        forall|w: int| 0 <= w < wanted.len() ==> name_in(file_tags, (#[trigger] wanted[w])@)
    }
}

fn matches_wanted(file_tags: &Vec<String>, wanted: &Vec<String>, any: bool) -> (r: bool)
    ensures
        r == candidate_matches(file_tags@, wanted@, any),
{
    let n = wanted.len();
    let mut k: usize = 0;
    if any {
        while k < n
            invariant
                any,
                n == wanted@.len(),
                k <= n,
                forall|q: int| 0 <= q < k ==> !name_in(file_tags@, (#[trigger] wanted@[q])@),
            decreases n - k,
        {
            if contains_name(file_tags, wanted[k].as_str()) {
                proof {
                    assert(name_in(file_tags@, wanted@[k as int]@));
                }
                return true;
            }
            k = k + 1;
        }
        false
    } else {
        while k < n
            invariant
                !any,
                n == wanted@.len(),
                k <= n,
                forall|q: int| 0 <= q < k ==> name_in(file_tags@, (#[trigger] wanted@[q])@),
            decreases n - k,
        {
            if !contains_name(file_tags, wanted[k].as_str()) {
                proof {
                    assert(!name_in(file_tags@, wanted@[k as int]@));
                }
                return false;
            }
            k = k + 1;
        }
        true
    }
}

/// The path belongs to some matching candidate.
pub open spec fn path_of_match(
    candidates: Seq<(String, Vec<String>)>,
    tags: Seq<String>,
    any: bool,
    p: Seq<char>,
) -> bool {
    exists|j: int|
        0 <= j < candidates.len() && p == (#[trigger] candidates[j]).0@ && candidate_matches(
            candidates[j].1@,
            tags,
            any,
        )
}

/// Selects, among candidate files paired with their on-disk tag names,
/// the paths of those carrying the wanted tags: any one of them when
/// `any` is set, all of them otherwise.
pub fn search_files_with_tags(
    candidates: &Vec<(String, Vec<String>)>,
    tags: &Vec<String>,
    any: bool,
) -> (r: Vec<String>)
    ensures
        forall|k: int|
            0 <= k < r@.len() ==> path_of_match(candidates@, tags@, any, (#[trigger] r@[k])@),
        forall|j: int|
            0 <= j < candidates@.len() && candidate_matches(
                (#[trigger] candidates@[j]).1@,
                tags@,
                any,
            ) ==> name_in(r@, candidates@[j].0@),
{
    let n = candidates.len();
    let mut r: Vec<String> = Vec::new();
    let mut j: usize = 0;
    while j < n
        invariant
            n == candidates@.len(),
            j <= n,
            forall|k: int|
                0 <= k < r@.len() ==> path_of_match(candidates@, tags@, any, (#[trigger] r@[k])@),
            forall|q: int|
                0 <= q < j && candidate_matches((#[trigger] candidates@[q]).1@, tags@, any)
                    ==> name_in(r@, candidates@[q].0@),
        decreases n - j,
    {
        let ghost before = r@;
        if matches_wanted(&candidates[j].1, tags, any) {
            r.push(candidates[j].0.clone());
            proof {
                assert(r@[r@.len() - 1]@ == candidates@[j as int].0@);
                assert forall|k: int|
                    0 <= k < r@.len() implies path_of_match(
                    candidates@,
                    tags@,
                    any,
                    (#[trigger] r@[k])@,
                ) by {
                    if k < before.len() {
                        assert(r@[k] == before[k]);
                    } else {
                        assert(r@[k]@ == candidates@[j as int].0@);
                    }
                }
                assert forall|q: int|
                    0 <= q < j + 1 && candidate_matches(
                        (#[trigger] candidates@[q]).1@,
                        tags@,
                        any,
                    ) implies name_in(r@, candidates@[q].0@) by {
                    if q < j {
                        assert(name_in(before, candidates@[q].0@));
                        let k = choose|k: int|
                            0 <= k < before.len() && (#[trigger] before[k])@ == candidates@[q].0@;
                        assert(r@[k]@ == candidates@[q].0@);
                    } else {
                        assert(r@[r@.len() - 1]@ == candidates@[q].0@);
                    }
                }
            }
            j = j + 1;
            continue ;
        } else {
            proof {
                assert forall|q: int|
                    0 <= q < j + 1 && candidate_matches(
                        (#[trigger] candidates@[q]).1@,
                        tags@,
                        any,
                    ) implies name_in(r@, candidates@[q].0@) by {
                    if q == j {
                        assert(false);
                    }
                }
            }
            j = j + 1;
            continue ;
        }
    }
    r
}

} // verus!
