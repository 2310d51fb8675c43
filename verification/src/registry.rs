//! The tag registry: an in-memory index of tag-to-entry associations.
//!
//! The registry is two maps: tag name to a set of entry ids, and entry id
//! to entry data. Between operations it is well formed ([`Self::wf`]): tag
//! names are unique, no tag holds an empty id set, every id held by a tag
//! has an entry record, and entry ids and paths are unique. Operations
//! that garbage-collect also keep every entry tagged ([`Self::tidy`]): a
//! tag whose id set empties is deleted at once, and an entry whose last
//! tag goes is deleted at once and handed back to the caller.

use vstd::prelude::*;
use vstd::set_lib::lemma_len_subset;
use vstd::set_lib::lemma_int_range;
use crate::color::Color;
use crate::tag::Tag;

verus! {

/// A tracked filesystem entry: its absolute path.
#[derive(Clone, Debug)]
pub struct EntryData {
    pub path: String,
}

impl EntryData {
    /// Entry data for the given path.
    pub fn new(path: String) -> (r: EntryData)
        ensures
            r.path@ == path@,
    {
        EntryData { path }
    }

    /// The entry's path.
    pub fn path(&self) -> (r: &str)
        ensures
            r@ == self.path@,
    {
        self.path.as_str()
    }

    /// Consumes the entry data, returning its path.
    pub fn into_path_buf(self) -> (r: String)
        ensures
            r@ == self.path@,
    {
        self.path
    }

    /// A copy with the same path.
    pub fn duplicate(&self) -> (r: EntryData)
        ensures
            r.path@ == self.path@,
    {
        EntryData { path: self.path.clone() }
    }
}

/// In executable code `==` on entry data compares the paths.
impl PartialEq for EntryData {
    fn eq(&self, other: &EntryData) -> (r: bool) {
        self.path == other.path
    }
}

impl Eq for EntryData {

}

impl vstd::std_specs::cmp::PartialEqSpecImpl for EntryData {
    open spec fn obeys_eq_spec() -> bool {
        true
    }

    open spec fn eq_spec(&self, other: &EntryData) -> bool {
        self.path@ == other.path@
    }
}

/// One tag and the ids of the entries that carry it.
#[derive(Clone, Debug)]
pub struct TagRecord {
    pub tag: Tag,
    pub ids: Vec<u64>,
}

/// One entry id and its data.
#[derive(Clone, Debug)]
pub struct EntryRecord {
    pub id: u64,
    pub data: EntryData,
}

/// The registry itself, with the path its snapshot is persisted at.
#[derive(Debug)]
pub struct TagRegistry {
    pub tags: Vec<TagRecord>,
    pub entries: Vec<EntryRecord>,
    pub path: String,
}

impl TagRegistry {
    /// Entry ids are unique in a well-formed registry.
    pub proof fn lemma_entry_idx_unique(self, a: int, b: int)
        requires
            self.wf(),
            0 <= a < self.entries@.len(),
            0 <= b < self.entries@.len(),
            self.entries@[a].id == self.entries@[b].id,
        ensures
            a == b,
    {
        if a < b {
            assert(self.entries@[a].id != self.entries@[b].id);
        } else if b < a {
            assert(self.entries@[b].id != self.entries@[a].id);
        }
    }

    /// Tag names are unique in a well-formed registry.
    pub proof fn lemma_tag_idx_unique(self, a: int, b: int)
        requires
            self.wf(),
            0 <= a < self.tags@.len(),
            0 <= b < self.tags@.len(),
            self.tags@[a].tag.name@ == self.tags@[b].tag.name@,
        ensures
            a == b,
    {
        if a < b {
            assert(self.tags@[a].tag.name@ != self.tags@[b].tag.name@);
        } else if b < a {
            assert(self.tags@[b].tag.name@ != self.tags@[a].tag.name@);
        }
    }

    /// A tag of this name exists.
    pub open spec fn has_tag(self, name: Seq<char>) -> bool {
        exists|i: int| 0 <= i < self.tags@.len() && self.tags@[i].tag.name@ == name
    }

    /// The entry with id `id` carries the tag named `name`.
    pub open spec fn tag_has(self, name: Seq<char>, id: u64) -> bool {
        exists|i: int|
            0 <= i < self.tags@.len() && self.tags@[i].tag.name@ == name
                && self.tags@[i].ids@.contains(id)
    }

    /// An entry with this id is tracked.
    pub open spec fn has_entry(self, id: u64) -> bool {
        exists|j: int| 0 <= j < self.entries@.len() && self.entries@[j].id == id
    }

    /// An entry with this path is tracked.
    pub open spec fn has_path(self, path: Seq<char>) -> bool {
        exists|j: int| 0 <= j < self.entries@.len() && self.entries@[j].data.path@ == path
    }

    /// The path of the entry with id `id` (meaningful when it exists and
    /// ids are unique).
    pub open spec fn entry_path(self, id: u64) -> Seq<char> {
        let j = choose|j: int| 0 <= j < self.entries@.len() && self.entries@[j].id == id;
        self.entries@[j].data.path@
    }

    /// The color of the tag named `name` (meaningful when it exists and
    /// names are unique).
    pub open spec fn tag_color(self, name: Seq<char>) -> Color {
        let i = choose|i: int| 0 <= i < self.tags@.len() && self.tags@[i].tag.name@ == name;
        self.tags@[i].tag.color
    }

    /// The set of ids carrying the tag named `name`.
    pub open spec fn tag_set(self, name: Seq<char>) -> Set<u64> {
        Set::new(|id: u64| self.tag_has(name, id))
    }

    /// The set of tag names on the entry with id `id`.
    pub open spec fn entry_tag_names(self, id: u64) -> Set<Seq<char>> {
        Set::new(|name: Seq<char>| self.tag_has(name, id))
    }

    /// The entry carries at least one tag.
    pub open spec fn entry_has_some_tag(self, id: u64) -> bool {
        exists|i: int| 0 <= i < self.tags@.len() && self.tags@[i].ids@.contains(id)
    }

    /// Structural well-formedness, true between all operations.
    pub open spec fn wf(self) -> bool {
        &&& forall|i: int, j: int|
            0 <= i < j < self.tags@.len() ==> self.tags@[i].tag.name@ != self.tags@[j].tag.name@
        &&& forall|i: int| 0 <= i < self.tags@.len() ==> self.tags@[i].ids@.len() > 0
        &&& forall|i: int, a: int, b: int|
            0 <= i < self.tags@.len() && 0 <= a < b < self.tags@[i].ids@.len()
                ==> self.tags@[i].ids@[a] != self.tags@[i].ids@[b]
        &&& forall|i: int, a: int|
            0 <= i < self.tags@.len() && 0 <= a < self.tags@[i].ids@.len() ==> self.has_entry(
                self.tags@[i].ids@[a],
            )
        &&& forall|j: int, k: int|
            0 <= j < k < self.entries@.len() ==> self.entries@[j].id != self.entries@[k].id
        &&& forall|j: int, k: int|
            0 <= j < k < self.entries@.len() ==> self.entries@[j].data.path@
                != self.entries@[k].data.path@
    }

    /// Garbage-collection cleanliness: no entry maps to zero tags. Not
    /// true right after `add_or_update_entry` mints a fresh entry; every
    /// tagging and untagging operation preserves it.
    pub open spec fn tidy(self) -> bool {
        forall|j: int|
            0 <= j < self.entries@.len() ==> self.entry_has_some_tag(#[trigger] self.entries@[j].id)
    }

    /// An empty registry that will persist to `path`.
    pub fn new(path: String) -> (r: TagRegistry)
        ensures
            r.wf(),
            r.tidy(),
            r.tags@.len() == 0,
            r.entries@.len() == 0,
            r.path@ == path@,
    {
        TagRegistry { tags: Vec::new(), entries: Vec::new(), path }
    }

    /// Removes all entries and tags.
    pub fn clear(&mut self)
        ensures
            final(self).wf(),
            final(self).tidy(),
            final(self).tags@.len() == 0,
            final(self).entries@.len() == 0,
            final(self).path@ == old(self).path@,
    {
        self.tags.clear();
        self.entries.clear();
    }

    /// The index of the tag record named `name`, if any.
    fn find_tag_idx(&self, name: &str) -> (r: Option<usize>)
        ensures
            match r {
                Some(i) => i < self.tags@.len() && self.tags@[i as int].tag.name@ == name@,
                None => !self.has_tag(name@),
            },
    {
        let n = self.tags.len();
        let mut i: usize = 0;
        while i < n
            invariant
                n == self.tags@.len(),
                i <= n,
                forall|k: int| 0 <= k < i ==> self.tags@[k].tag.name@ != name@,
            decreases n - i,
        {
            if str_eq(self.tags[i].tag.name.as_str(), name) {
                return Some(i);
            }
            i = i + 1;
        }
        None
    }

    /// The index of the entry record with id `id`, if any.
    fn find_entry_idx(&self, id: u64) -> (r: Option<usize>)
        ensures
            match r {
                Some(j) => j < self.entries@.len() && self.entries@[j as int].id == id,
                None => !self.has_entry(id),
            },
    {
        let n = self.entries.len();
        let mut j: usize = 0;
        while j < n
            invariant
                n == self.entries@.len(),
                j <= n,
                forall|k: int| 0 <= k < j ==> self.entries@[k].id != id,
            decreases n - j,
        {
            if self.entries[j].id == id {
                return Some(j);
            }
            j = j + 1;
        }
        None
    }

    /// Whether any tag's id set contains `id`.
    pub fn some_tag_contains(&self, id: u64) -> (r: bool)
        ensures
            r == self.entry_has_some_tag(id),
    {
        let n = self.tags.len();
        let mut i: usize = 0;
        while i < n
            invariant
                n == self.tags@.len(),
                i <= n,
                forall|k: int| 0 <= k < i ==> !self.tags@[k].ids@.contains(id),
            decreases n - i,
        {
            if contains_u64(&self.tags[i].ids, id) {
                return true;
            }
            i = i + 1;
        }
        false
    }

    /// Finds the entry with the given path, returning its id.
    pub fn find_entry(&self, path: &str) -> (r: Option<u64>)
        requires
            self.wf(),
        ensures
            match r {
                Some(id) => self.has_entry(id) && self.entry_path(id) == path@ && self.has_path(
                    path@,
                ),
                None => !self.has_path(path@),
            },
    {
        let n = self.entries.len();
        let mut j: usize = 0;
        while j < n
            invariant
                self.wf(),
                n == self.entries@.len(),
                j <= n,
                forall|k: int| 0 <= k < j ==> self.entries@[k].data.path@ != path@,
            decreases n - j,
        {
            if str_eq(self.entries[j].data.path.as_str(), path) {
                let id = self.entries[j].id;
                proof {
                    let jj = choose|jj: int|
                        0 <= jj < self.entries@.len() && self.entries@[jj].id == id;
                    assert(self.entries@[j as int].id == id);
                    self.lemma_entry_idx_unique(jj, j as int);
                }
                return Some(id);
            }
            j = j + 1;
        }
        None
    }

    /// Returns the data of the entry with this id, if tracked.
    pub fn get_entry(&self, id: u64) -> (r: Option<&EntryData>)
        requires
            self.wf(),
        ensures
            match r {
                Some(d) => self.has_entry(id) && d.path@ == self.entry_path(id),
                None => !self.has_entry(id),
            },
    {
        match self.find_entry_idx(id) {
            Some(j) => {
                proof {
                    let jj = choose|jj: int|
                        0 <= jj < self.entries@.len() && self.entries@[jj].id == id;
                    assert(self.entries@[j as int].id == id);
                    self.lemma_entry_idx_unique(jj, j as int);
                }
                Some(&self.entries[j].data)
            },
            None => None,
        }
    }

    /// Returns the tag with this name, if any.
    pub fn get_tag(&self, name: &str) -> (r: Option<&Tag>)
        requires
            self.wf(),
        ensures
            match r {
                Some(t) => self.has_tag(name@) && t.name@ == name@ && t.color == self.tag_color(
                    name@,
                ),
                None => !self.has_tag(name@),
            },
    {
        match self.find_tag_idx(name) {
            Some(i) => {
                proof {
                    let ii = choose|ii: int|
                        0 <= ii < self.tags@.len() && self.tags@[ii].tag.name@ == name@;
                    assert(self.tags@[i as int].tag.name@ == name@);
                    self.lemma_tag_idx_unique(ii, i as int);
                }
                Some(&self.tags[i].tag)
            },
            None => None,
        }
    }

    /// An id not currently in use: the caller's candidate when it is free,
    /// otherwise the smallest free id.
    fn fresh_id(&self, candidate: u64) -> (r: u64)
        requires
            self.wf(),
        ensures
            !self.has_entry(r),
    {
        if self.find_entry_idx(candidate).is_none() {
            return candidate;
        }
        let n = self.entries.len();
        let mut k: usize = 0;
        while k < n
            invariant
                n == self.entries@.len(),
                k <= n,
                forall|v: u64| v < k ==> self.has_entry(v),
                self.wf(),
            decreases n - k,
        {
            if self.find_entry_idx(k as u64).is_none() {
                return k as u64;
            }
            k = k + 1;
        }
        if self.find_entry_idx(n as u64).is_none() {
            return n as u64;
        }
        proof {
            self.lemma_free_id_below(n as int);
            assert(false);
        }
        0
    }

    /// Some id in `0..=n` is free: the entries hold only `n` distinct ids,
    /// and that range has `n + 1` values.
    proof fn lemma_free_id_below(self, n: int)
        requires
            self.wf(),
            n == self.entries@.len(),
            n <= u64::MAX,
        ensures
            exists|v: u64| v <= n && !self.has_entry(v),
    {
        if !(exists|v: u64| v <= n && !self.has_entry(v)) {
            let ids = Seq::new(self.entries@.len(), |j: int| self.entries@[j].id as int);
            let range = vstd::set_lib::set_int_range(0, n + 1);
            lemma_int_range(0, n + 1);
            assert(range.len() == n + 1);
            ids.lemma_cardinality_of_set();
            assert(ids.to_set().len() <= n);
            assert forall|v: int| range.contains(v) implies ids.to_set().contains(v) by {
                assert(0 <= v <= n);
                assert(!(v as u64 <= n && !self.has_entry(v as u64)));
                assert(self.has_entry(v as u64));
                let j = choose|j: int|
                    0 <= j < self.entries@.len() && self.entries@[j].id == (v as u64);
                assert((v as u64) as int == v);
                assert(ids[j] == self.entries@[j].id as int);
                assert(ids[j] == v);
                assert(ids.contains(v));
            }
            lemma_len_subset(range, ids.to_set());
            assert(n + 1 <= n);
        }
    }
}

impl TagRegistry {
    /// The entries as plain values: id and path per record.
    pub open spec fn entries_view(self) -> Seq<(u64, Seq<char>)> {
        Seq::new(
            self.entries@.len(),
            |j: int| (self.entries@[j].id, self.entries@[j].data.path@),
        )
    }

    /// The tags as plain values: name, color and id sequence per record.
    pub open spec fn tags_view(self) -> Seq<(Seq<char>, Color, Seq<u64>)> {
        Seq::new(
            self.tags@.len(),
            |i: int| (self.tags@[i].tag.name@, self.tags@[i].tag.color, self.tags@[i].ids@),
        )
    }

    /// Updates the entry with this path in place, or adds it under a fresh
    /// id. The second component reports whether the entry is new; callers
    /// use it to wipe stale on-disk attributes before the first tag.
    pub fn add_or_update_entry(&mut self, entry: EntryData) -> (r: (u64, bool))
        requires
            old(self).wf(),
        ensures
            final(self).wf(),
            final(self).path@ == old(self).path@,
            final(self).tags_view() == old(self).tags_view(),
            r.1 == !old(self).has_path(entry.path@),
            final(self).has_entry(r.0),
            final(self).entry_path(r.0) == entry.path@,
            forall|i: u64| final(self).has_entry(i) <==> old(self).has_entry(i) || i == r.0,
            forall|i: u64|
                old(self).has_entry(i) ==> final(self).entry_path(i) == old(self).entry_path(i),
            !r.1 ==> old(self).has_entry(r.0) && final(self).entries_view() == old(
                self,
            ).entries_view(),
            r.1 ==> !old(self).has_entry(r.0) && final(self).entries_view() == old(
                self,
            ).entries_view().push((r.0, entry.path@)),
            old(self).tidy() && !r.1 ==> final(self).tidy(),
    {
        let ghost pre = *self;
        match self.find_path_idx(entry.path.as_str()) {
            Some(j) => {
                let mut rec = self.entries.remove(j);
                let id = rec.id;
                proof {
                    let jj = choose|jj: int|
                        0 <= jj < pre.entries@.len() && pre.entries@[jj].id == id;
                    pre.lemma_entry_idx_unique(jj, j as int);
                }
                rec.data = entry;
                self.entries.insert(j, rec);
                proof {
                    assert(self.entries@ =~= pre.entries@.remove(j as int).insert(
                        j as int,
                        self.entries@[j as int],
                    ));
                    assert forall|k: int| 0 <= k < self.entries@.len() implies self.entries@[k].id
                        == pre.entries@[k].id && self.entries@[k].data.path@
                        == pre.entries@[k].data.path@ by {}
                    assert(self.entries_view() =~= pre.entries_view());
                    assert(self.tags_view() =~= pre.tags_view());
                    assert forall|i: u64| self.has_entry(i) <==> pre.has_entry(i) by {
                        if self.has_entry(i) {
                            let k = choose|k: int|
                                0 <= k < self.entries@.len() && self.entries@[k].id == i;
                            assert(pre.entries@[k].id == i);
                        }
                        if pre.has_entry(i) {
                            let k = choose|k: int|
                                0 <= k < pre.entries@.len() && pre.entries@[k].id == i;
                            assert(self.entries@[k].id == i);
                        }
                    }
                    assert forall|i: u64| pre.has_entry(i) implies self.entry_path(i)
                        == pre.entry_path(i) by {
                        let a = choose|a: int|
                            0 <= a < self.entries@.len() && self.entries@[a].id == i;
                        let b = choose|b: int|
                            0 <= b < pre.entries@.len() && pre.entries@[b].id == i;
                        assert(pre.entries@[a].id == i);
                        pre.lemma_entry_idx_unique(a, b);
                    }
                    assert forall|i: int, a: int|
                        0 <= i < self.tags@.len() && 0 <= a < self.tags@[i].ids@.len()
                            implies self.has_entry(self.tags@[i].ids@[a]) by {
                        assert(pre.has_entry(pre.tags@[i].ids@[a]));
                    }
                    assert(self.wf());
                    assert(pre.tidy() ==> self.tidy()) by {
                        if pre.tidy() {
                            assert forall|k: int|
                                0 <= k < self.entries@.len() implies self.entry_has_some_tag(
                                self.entries@[k].id,
                            ) by {
                                assert(pre.entry_has_some_tag(pre.entries@[k].id));
                            }
                        }
                    }
                }
                (id, false)
            },
            None => {
                let t = clock_nanos();
                let candidate: u64 = if t >= 0 {
                    t as u64
                } else {
                    (-(t + 1)) as u64 + 1
                };
                let id = self.fresh_id(candidate);
                self.entries.push(EntryRecord { id, data: entry });
                proof {
                    assert(self.entries@ =~= pre.entries@.push(self.entries@.last()));
                    assert(self.entries_view() =~= pre.entries_view().push(
                        (id, self.entries@.last().data.path@),
                    ));
                    assert(self.tags_view() =~= pre.tags_view());
                    let last = self.entries@.len() - 1;
                    assert(self.entries@[last].id == id);
                    assert forall|i: u64| self.has_entry(i) <==> pre.has_entry(i) || i == id by {
                        if self.has_entry(i) && i != id {
                            let k = choose|k: int|
                                0 <= k < self.entries@.len() && self.entries@[k].id == i;
                            assert(k < last);
                            assert(pre.entries@[k].id == i);
                        }
                        if pre.has_entry(i) {
                            let k = choose|k: int|
                                0 <= k < pre.entries@.len() && pre.entries@[k].id == i;
                            assert(self.entries@[k].id == i);
                        }
                    }
                    assert forall|i: u64| pre.has_entry(i) implies self.entry_path(i)
                        == pre.entry_path(i) by {
                        let a = choose|a: int|
                            0 <= a < self.entries@.len() && self.entries@[a].id == i;
                        let b = choose|b: int|
                            0 <= b < pre.entries@.len() && pre.entries@[b].id == i;
                        assert(pre.entries@[b].id == i);
                        assert(self.entries@[b].id == i);
                        assert(a < last || i == id);
                        assert(a < last);
                        assert(pre.entries@[a].id == i);
                        pre.lemma_entry_idx_unique(a, b);
                    }
                    assert(self.entry_path(id) == entry.path@) by {
                        let a = choose|a: int|
                            0 <= a < self.entries@.len() && self.entries@[a].id == id;
                        if a < last {
                            assert(pre.entries@[a].id == id);
                            assert(pre.has_entry(id));
                        }
                    }
                    assert forall|i: int, a: int|
                        0 <= i < self.tags@.len() && 0 <= a < self.tags@[i].ids@.len()
                            implies self.has_entry(self.tags@[i].ids@[a]) by {
                        assert(pre.has_entry(pre.tags@[i].ids@[a]));
                    }
                    assert(self.wf());
                }
                (id, true)
            },
        }
    }

    /// The index of the entry record with this path, if any.
    fn find_path_idx(&self, path: &str) -> (r: Option<usize>)
        ensures
            match r {
                Some(j) => j < self.entries@.len() && self.entries@[j as int].data.path@ == path@,
                None => !self.has_path(path@),
            },
    {
        let n = self.entries.len();
        let mut j: usize = 0;
        while j < n
            invariant
                n == self.entries@.len(),
                j <= n,
                forall|k: int| 0 <= k < j ==> self.entries@[k].data.path@ != path@,
            decreases n - j,
        {
            if str_eq(self.entries[j].data.path.as_str(), path) {
                return Some(j);
            }
            j = j + 1;
        }
        None
    }
}

/// Relies on chrono's `Utc::now` and `timestamp_nanos_opt`: a clock
/// reading, used only as a candidate for a fresh entry id; nothing is
/// assumed of its value.
#[verifier::external_body]
fn clock_nanos() -> i64 {
    chrono::Utc::now().timestamp_nanos_opt().unwrap_or(0)
}

/// Whether a vector of ids contains the given id.
pub fn contains_u64(v: &Vec<u64>, x: u64) -> (r: bool)
    ensures
        r == v@.contains(x),
{
    let n = v.len();
    let mut i: usize = 0;
    while i < n
        invariant
            n == v@.len(),
            i <= n,
            forall|k: int| 0 <= k < i ==> v@[k] != x,
        decreases n - i,
    {
        if v[i] == x {
            return true;
        }
        i = i + 1;
    }
    false
}

/// String equality over the characters.
pub fn str_eq(a: &str, b: &str) -> (r: bool)
    ensures
        r == (a@ == b@),
{
    let sa = a.to_owned();
    let sb = b.to_owned();
    sa == sb
}

/// The position of an id in a vector of ids, if present.
pub fn index_of_u64(v: &Vec<u64>, x: u64) -> (r: Option<usize>)
    ensures
        match r {
            Some(p) => p < v@.len() && v@[p as int] == x,
            None => !v@.contains(x),
        },
{
    let n = v.len();
    let mut i: usize = 0;
    while i < n
        invariant
            n == v@.len(),
            i <= n,
            forall|k: int| 0 <= k < i ==> v@[k] != x,
        decreases n - i,
    {
        if v[i] == x {
            return Some(i);
        }
        i = i + 1;
    }
    None
}

impl TagRegistry {
    /// Attaches the tag to the entry with this id; idempotent. Returns the
    /// id when the entry was already tagged, `None` when the tag was
    /// added. A tag of this name that already exists keeps its color; a
    /// new one takes the given tag's color.
    pub fn tag_entry(&mut self, tag: &Tag, entry: u64) -> (r: Option<u64>)
        requires
            old(self).wf(),
            old(self).has_entry(entry),
        ensures
            final(self).wf(),
            final(self).path@ == old(self).path@,
            final(self).entries_view() == old(self).entries_view(),
            forall|n: Seq<char>, i: u64|
                final(self).tag_has(n, i) <==> old(self).tag_has(n, i) || (n == tag.name@ && i
                    == entry),
            forall|n: Seq<char>| final(self).has_tag(n) <==> old(self).has_tag(n) || n == tag.name@,
            forall|n: Seq<char>|
                old(self).has_tag(n) ==> final(self).tag_color(n) == old(self).tag_color(n),
            !old(self).has_tag(tag.name@) ==> final(self).tag_color(tag.name@) == tag.color,
            r == if old(self).tag_has(tag.name@, entry) {
                Some(entry)
            } else {
                None::<u64>
            },
            old(self).tidy() ==> final(self).tidy(),
    {
        let ghost pre = *self;
        match self.find_tag_idx(tag.name()) {
            None => {
                let mut ids: Vec<u64> = Vec::new();
                ids.push(entry);
                self.tags.push(TagRecord { tag: tag.duplicate(), ids });
                proof {
                    let last = self.tags@.len() - 1;
                    assert(self.tags@ =~= pre.tags@.push(self.tags@[last]));
                    assert(self.tags@[last].ids@ =~= seq![entry]);
                    assert(!pre.tag_has(tag.name@, entry));
                    self.lemma_tags_extended_by_one(pre, tag.name@, tag.color, entry);
                }
                None
            },
            Some(ti) => {
                proof {
                    let ii = choose|ii: int|
                        0 <= ii < pre.tags@.len() && pre.tags@[ii].tag.name@ == tag.name@;
                    pre.lemma_tag_idx_unique(ii, ti as int);
                }
                if contains_u64(&self.tags[ti].ids, entry) {
                    proof {
                        assert(pre.tag_has(tag.name@, entry));
                        assert forall|n: Seq<char>, i: u64|
                            self.tag_has(n, i) <==> pre.tag_has(n, i) || (n == tag.name@ && i
                                == entry) by {}
                    }
                    Some(entry)
                } else {
                    proof {
                        assert forall|ii: int|
                            0 <= ii < pre.tags@.len() && pre.tags@[ii].tag.name@
                                == tag.name@ implies !pre.tags@[ii].ids@.contains(entry) by {
                            pre.lemma_tag_idx_unique(ii, ti as int);
                        }
                        assert(!pre.tag_has(tag.name@, entry));
                    }
                    let mut rec = self.tags.remove(ti);
                    rec.ids.push(entry);
                    self.tags.insert(ti, rec);
                    proof {
                        assert(self.tags@ =~= pre.tags@.update(ti as int, self.tags@[ti as int]));
                        assert(self.tags@[ti as int].ids@ =~= pre.tags@[ti as int].ids@.push(
                            entry,
                        ));
                        self.lemma_tags_grown_at(pre, ti as int, tag.name@, entry);
                    }
                    None
                }
            },
        }
    }

    /// After pushing a brand-new record for `name` holding exactly
    /// `entry`, the tag relation grew by that one pair.
    proof fn lemma_tags_extended_by_one(
        self,
        pre: TagRegistry,
        name: Seq<char>,
        color: Color,
        entry: u64,
    )
        requires
            pre.wf(),
            pre.has_entry(entry),
            !pre.has_tag(name),
            self.entries@ == pre.entries@,
            self.path@ == pre.path@,
            self.tags@.len() == pre.tags@.len() + 1,
            self.tags@ == pre.tags@.push(self.tags@[self.tags@.len() - 1]),
            self.tags@[self.tags@.len() - 1].tag.name@ == name,
            self.tags@[self.tags@.len() - 1].tag.color == color,
            self.tags@[self.tags@.len() - 1].ids@ == seq![entry],
        ensures
            self.wf(),
            forall|n: Seq<char>, i: u64|
                self.tag_has(n, i) <==> pre.tag_has(n, i) || (n == name && i == entry),
            forall|n: Seq<char>| self.has_tag(n) <==> pre.has_tag(n) || n == name,
            forall|n: Seq<char>| pre.has_tag(n) ==> self.tag_color(n) == pre.tag_color(n),
            self.tag_color(name) == color,
            pre.tidy() ==> self.tidy(),
            self.entries_view() == pre.entries_view(),
    {
        let last = self.tags@.len() - 1;
        assert forall|n: Seq<char>, i: u64|
            self.tag_has(n, i) <==> pre.tag_has(n, i) || (n == name && i == entry) by {
            if self.tag_has(n, i) {
                let k = choose|k: int|
                    0 <= k < self.tags@.len() && self.tags@[k].tag.name@ == n
                        && self.tags@[k].ids@.contains(i);
                if k < last {
                    assert(pre.tags@[k].tag.name@ == n && pre.tags@[k].ids@.contains(i));
                } else {
                    assert(n == name);
                    assert(seq![entry].contains(i));
                    assert(i == entry);
                }
            }
            if pre.tag_has(n, i) {
                let k = choose|k: int|
                    0 <= k < pre.tags@.len() && pre.tags@[k].tag.name@ == n
                        && pre.tags@[k].ids@.contains(i);
                assert(self.tags@[k].tag.name@ == n && self.tags@[k].ids@.contains(i));
            }
            if n == name && i == entry {
                assert(self.tags@[last].ids@[0] == entry);
                assert(self.tags@[last].ids@.contains(entry));
            }
        }
        assert forall|n: Seq<char>| self.has_tag(n) <==> pre.has_tag(n) || n == name by {
            if self.has_tag(n) {
                let k = choose|k: int|
                    0 <= k < self.tags@.len() && self.tags@[k].tag.name@ == n;
                if k < last {
                    assert(pre.tags@[k].tag.name@ == n);
                }
            }
            if pre.has_tag(n) {
                let k = choose|k: int| 0 <= k < pre.tags@.len() && pre.tags@[k].tag.name@ == n;
                assert(self.tags@[k].tag.name@ == n);
            }
            assert(self.tags@[last].tag.name@ == name);
        }
        assert forall|n: Seq<char>| pre.has_tag(n) implies self.tag_color(n) == pre.tag_color(
            n,
        ) by {
            let a = choose|a: int| 0 <= a < self.tags@.len() && self.tags@[a].tag.name@ == n;
            let b = choose|b: int| 0 <= b < pre.tags@.len() && pre.tags@[b].tag.name@ == n;
            assert(self.tags@[b].tag.name@ == n);
            assert(a < last) by {
                if a == last {
                    assert(n == name);
                    assert(!pre.has_tag(name));
                }
            }
            assert(pre.tags@[a].tag.name@ == n);
            pre.lemma_tag_idx_unique(a, b);
        }
        assert(self.tag_color(name) == color) by {
            let a = choose|a: int| 0 <= a < self.tags@.len() && self.tags@[a].tag.name@ == name;
            assert(self.tags@[last].tag.name@ == name);
            if a < last {
                assert(pre.tags@[a].tag.name@ == name);
                assert(pre.has_tag(name));
            }
        }
        assert forall|i: int, j: int|
            0 <= i < j < self.tags@.len() implies self.tags@[i].tag.name@
            != self.tags@[j].tag.name@ by {
            if j < last {
                assert(pre.tags@[i].tag.name@ != pre.tags@[j].tag.name@);
            } else {
                assert(pre.tags@[i].tag.name@ == self.tags@[i].tag.name@);
                if self.tags@[i].tag.name@ == name {
                    assert(pre.has_tag(name));
                }
            }
        }
        assert(self.wf()) by {
            assert forall|i: int, a: int|
                0 <= i < self.tags@.len() && 0 <= a < self.tags@[i].ids@.len()
                    implies self.has_entry(self.tags@[i].ids@[a]) by {
                if i < last {
                    assert(pre.has_entry(pre.tags@[i].ids@[a]));
                } else {
                    assert(self.tags@[i].ids@[a] == entry);
                }
                assert forall|x: u64| pre.has_entry(x) implies self.has_entry(x) by {}
            }
        }
        assert(pre.tidy() ==> self.tidy()) by {
            if pre.tidy() {
                assert forall|j: int|
                    0 <= j < self.entries@.len() implies self.entry_has_some_tag(
                    self.entries@[j].id,
                ) by {
                    assert(pre.entry_has_some_tag(pre.entries@[j].id));
                    let k = choose|k: int|
                        0 <= k < pre.tags@.len() && pre.tags@[k].ids@.contains(pre.entries@[j].id);
                    assert(self.tags@[k].ids@.contains(self.entries@[j].id));
                }
            }
        }
        assert(self.entries_view() =~= pre.entries_view());
    }

    /// After appending `entry` to the id set of the record at `ti`, the
    /// tag relation grew by that one pair.
    proof fn lemma_tags_grown_at(self, pre: TagRegistry, ti: int, name: Seq<char>, entry: u64)
        requires
            pre.wf(),
            pre.has_entry(entry),
            0 <= ti < pre.tags@.len(),
            pre.tags@[ti].tag.name@ == name,
            !pre.tags@[ti].ids@.contains(entry),
            self.entries@ == pre.entries@,
            self.path@ == pre.path@,
            self.tags@ == pre.tags@.update(ti, self.tags@[ti]),
            self.tags@[ti].tag == pre.tags@[ti].tag,
            self.tags@[ti].ids@ == pre.tags@[ti].ids@.push(entry),
        ensures
            self.wf(),
            forall|n: Seq<char>, i: u64|
                self.tag_has(n, i) <==> pre.tag_has(n, i) || (n == name && i == entry),
            forall|n: Seq<char>| self.has_tag(n) <==> pre.has_tag(n) || n == name,
            forall|n: Seq<char>| pre.has_tag(n) ==> self.tag_color(n) == pre.tag_color(n),
            pre.tidy() ==> self.tidy(),
            self.entries_view() == pre.entries_view(),
    {
        let old_ids = pre.tags@[ti].ids@;
        assert forall|n: Seq<char>, i: u64|
            self.tag_has(n, i) <==> pre.tag_has(n, i) || (n == name && i == entry) by {
            if self.tag_has(n, i) {
                let k = choose|k: int|
                    0 <= k < self.tags@.len() && self.tags@[k].tag.name@ == n
                        && self.tags@[k].ids@.contains(i);
                if k != ti {
                    assert(pre.tags@[k].tag.name@ == n && pre.tags@[k].ids@.contains(i));
                } else {
                    assert(n == name);
                    let p = choose|p: int|
                        0 <= p < self.tags@[ti].ids@.len() && self.tags@[ti].ids@[p] == i;
                    if p < old_ids.len() {
                        assert(old_ids[p] == i);
                        assert(old_ids.contains(i));
                        assert(pre.tag_has(n, i));
                    } else {
                        assert(i == entry);
                    }
                }
            }
            if pre.tag_has(n, i) {
                let k = choose|k: int|
                    0 <= k < pre.tags@.len() && pre.tags@[k].tag.name@ == n
                        && pre.tags@[k].ids@.contains(i);
                if k != ti {
                    assert(self.tags@[k].tag.name@ == n && self.tags@[k].ids@.contains(i));
                } else {
                    let p = choose|p: int| 0 <= p < old_ids.len() && old_ids[p] == i;
                    assert(self.tags@[ti].ids@[p] == i);
                    assert(self.tags@[ti].ids@.contains(i));
                }
            }
            if n == name && i == entry {
                assert(self.tags@[ti].ids@[old_ids.len() as int] == entry);
                assert(self.tags@[ti].ids@.contains(entry));
            }
        }
        assert forall|n: Seq<char>| self.has_tag(n) <==> pre.has_tag(n) || n == name by {
            if self.has_tag(n) {
                let k = choose|k: int|
                    0 <= k < self.tags@.len() && self.tags@[k].tag.name@ == n;
                assert(pre.tags@[k].tag.name@ == n);
            }
            if pre.has_tag(n) {
                let k = choose|k: int| 0 <= k < pre.tags@.len() && pre.tags@[k].tag.name@ == n;
                assert(self.tags@[k].tag.name@ == n);
            }
            assert(pre.tags@[ti].tag.name@ == name);
        }
        assert forall|n: Seq<char>| pre.has_tag(n) implies self.tag_color(n) == pre.tag_color(
            n,
        ) by {
            let a = choose|a: int| 0 <= a < self.tags@.len() && self.tags@[a].tag.name@ == n;
            let b = choose|b: int| 0 <= b < pre.tags@.len() && pre.tags@[b].tag.name@ == n;
            assert(self.tags@[b].tag.name@ == n);
            assert(pre.tags@[a].tag.name@ == n);
            pre.lemma_tag_idx_unique(a, b);
        }
        assert(self.wf()) by {
            assert forall|i: int, a: int, b: int|
                0 <= i < self.tags@.len() && 0 <= a < b < self.tags@[i].ids@.len()
                    implies self.tags@[i].ids@[a] != self.tags@[i].ids@[b] by {
                if i != ti {
                    assert(pre.tags@[i].ids@[a] != pre.tags@[i].ids@[b]);
                } else {
                    if b < old_ids.len() {
                        assert(old_ids[a] != old_ids[b]);
                    } else {
                        assert(self.tags@[ti].ids@[b] == entry);
                        assert(old_ids[a] == self.tags@[ti].ids@[a]);
                        assert(old_ids.contains(old_ids[a]));
                    }
                }
            }
            assert forall|i: int, a: int|
                0 <= i < self.tags@.len() && 0 <= a < self.tags@[i].ids@.len()
                    implies self.has_entry(self.tags@[i].ids@[a]) by {
                if i != ti {
                    assert(pre.has_entry(pre.tags@[i].ids@[a]));
                } else if a < old_ids.len() {
                    assert(pre.has_entry(old_ids[a]));
                } else {
                    assert(self.tags@[i].ids@[a] == entry);
                }
                assert forall|x: u64| pre.has_entry(x) implies self.has_entry(x) by {}
            }
        }
        assert(pre.tidy() ==> self.tidy()) by {
            if pre.tidy() {
                assert forall|j: int|
                    0 <= j < self.entries@.len() implies self.entry_has_some_tag(
                    self.entries@[j].id,
                ) by {
                    assert(pre.entry_has_some_tag(pre.entries@[j].id));
                    let k = choose|k: int|
                        0 <= k < pre.tags@.len() && pre.tags@[k].ids@.contains(pre.entries@[j].id);
                    if k != ti {
                        assert(self.tags@[k].ids@.contains(self.entries@[j].id));
                    } else {
                        let p = choose|p: int|
                            0 <= p < old_ids.len() && old_ids[p] == pre.entries@[j].id;
                        assert(self.tags@[ti].ids@[p] == pre.entries@[j].id);
                        assert(self.tags@[ti].ids@.contains(self.entries@[j].id));
                    }
                }
            }
        }
        assert(self.entries_view() =~= pre.entries_view());
    }

    /// After deleting `entry` from the id set of the record at `ti` (which
    /// keeps other ids), the tag relation lost exactly that one pair.
    proof fn lemma_tags_shrunk_at(self, pre: TagRegistry, ti: int, p: int, name: Seq<char>, entry: u64)
        requires
            pre.wf(),
            0 <= ti < pre.tags@.len(),
            pre.tags@[ti].tag.name@ == name,
            0 <= p < pre.tags@[ti].ids@.len(),
            pre.tags@[ti].ids@[p] == entry,
            self.entries@ == pre.entries@,
            self.path@ == pre.path@,
            self.tags@ == pre.tags@.update(ti, self.tags@[ti]),
            self.tags@[ti].tag == pre.tags@[ti].tag,
            self.tags@[ti].ids@ == pre.tags@[ti].ids@.remove(p),
            self.tags@[ti].ids@.len() > 0,
        ensures
            self.wf(),
            forall|n: Seq<char>, i: u64|
                self.tag_has(n, i) <==> pre.tag_has(n, i) && !(n == name && i == entry),
            forall|n: Seq<char>| self.has_tag(n) <==> pre.has_tag(n),
            forall|n: Seq<char>| pre.has_tag(n) ==> self.tag_color(n) == pre.tag_color(n),
            self.entries_view() == pre.entries_view(),
    {
        let old_ids = pre.tags@[ti].ids@;
        let new_ids = self.tags@[ti].ids@;
        assert forall|i: u64| new_ids.contains(i) <==> old_ids.contains(i) && i != entry by {
            if new_ids.contains(i) {
                let q = choose|q: int| 0 <= q < new_ids.len() && new_ids[q] == i;
                if q < p {
                    assert(old_ids[q] == i);
                    assert(old_ids.contains(i));
                    assert(old_ids[q] != old_ids[p]);
                } else {
                    assert(old_ids[q + 1] == i);
                    assert(old_ids.contains(i));
                    assert(old_ids[q + 1] != old_ids[p]);
                }
            }
            if old_ids.contains(i) && i != entry {
                let q = choose|q: int| 0 <= q < old_ids.len() && old_ids[q] == i;
                if q < p {
                    assert(new_ids[q] == i);
                    assert(new_ids.contains(i));
                } else {
                    assert(q != p);
                    assert(new_ids[q - 1] == i);
                    assert(new_ids.contains(i));
                }
            }
        }
        assert forall|n: Seq<char>, i: u64|
            self.tag_has(n, i) <==> pre.tag_has(n, i) && !(n == name && i == entry) by {
            if self.tag_has(n, i) {
                let k = choose|k: int|
                    0 <= k < self.tags@.len() && self.tags@[k].tag.name@ == n
                        && self.tags@[k].ids@.contains(i);
                if k != ti {
                    assert(pre.tags@[k].tag.name@ == n && pre.tags@[k].ids@.contains(i));
                    if n == name {
                        pre.lemma_tag_idx_unique(k, ti);
                    }
                } else {
                    assert(old_ids.contains(i) && i != entry);
                }
            }
            if pre.tag_has(n, i) && !(n == name && i == entry) {
                let k = choose|k: int|
                    0 <= k < pre.tags@.len() && pre.tags@[k].tag.name@ == n
                        && pre.tags@[k].ids@.contains(i);
                if k != ti {
                    assert(self.tags@[k].tag.name@ == n && self.tags@[k].ids@.contains(i));
                } else {
                    assert(n == name);
                    assert(new_ids.contains(i));
                }
            }
        }
        assert forall|n: Seq<char>| self.has_tag(n) <==> pre.has_tag(n) by {
            if self.has_tag(n) {
                let k = choose|k: int| 0 <= k < self.tags@.len() && self.tags@[k].tag.name@ == n;
                assert(pre.tags@[k].tag.name@ == n);
            }
            if pre.has_tag(n) {
                let k = choose|k: int| 0 <= k < pre.tags@.len() && pre.tags@[k].tag.name@ == n;
                assert(self.tags@[k].tag.name@ == n);
            }
        }
        assert forall|n: Seq<char>| pre.has_tag(n) implies self.tag_color(n) == pre.tag_color(
            n,
        ) by {
            let a = choose|a: int| 0 <= a < self.tags@.len() && self.tags@[a].tag.name@ == n;
            let b = choose|b: int| 0 <= b < pre.tags@.len() && pre.tags@[b].tag.name@ == n;
            assert(self.tags@[b].tag.name@ == n);
            assert(pre.tags@[a].tag.name@ == n);
            pre.lemma_tag_idx_unique(a, b);
        }
        assert(self.wf()) by {
            assert forall|i: int, a: int, b: int|
                0 <= i < self.tags@.len() && 0 <= a < b < self.tags@[i].ids@.len()
                    implies self.tags@[i].ids@[a] != self.tags@[i].ids@[b] by {
                if i != ti {
                    assert(pre.tags@[i].ids@[a] != pre.tags@[i].ids@[b]);
                } else {
                    let a2 = if a < p { a } else { a + 1 };
                    let b2 = if b < p { b } else { b + 1 };
                    assert(new_ids[a] == old_ids[a2]);
                    assert(new_ids[b] == old_ids[b2]);
                    assert(old_ids[a2] != old_ids[b2]);
                }
            }
            assert forall|i: int, a: int|
                0 <= i < self.tags@.len() && 0 <= a < self.tags@[i].ids@.len()
                    implies self.has_entry(self.tags@[i].ids@[a]) by {
                if i != ti {
                    assert(pre.has_entry(pre.tags@[i].ids@[a]));
                } else {
                    assert(new_ids.contains(new_ids[a]));
                    let q = choose|q: int| 0 <= q < old_ids.len() && old_ids[q] == new_ids[a];
                    assert(pre.has_entry(old_ids[q]));
                }
                assert forall|x: u64| pre.has_entry(x) implies self.has_entry(x) by {}
            }
        }
        assert(self.entries_view() =~= pre.entries_view());
    }

    /// After dropping the record at `ti`, whose only id was `entry`, the
    /// tag relation lost exactly that one pair and the tag is gone.
    proof fn lemma_tags_dropped_at(self, pre: TagRegistry, ti: int, name: Seq<char>, entry: u64)
        requires
            pre.wf(),
            0 <= ti < pre.tags@.len(),
            pre.tags@[ti].tag.name@ == name,
            pre.tags@[ti].ids@ == seq![entry],
            self.entries@ == pre.entries@,
            self.path@ == pre.path@,
            self.tags@ == pre.tags@.remove(ti),
        ensures
            self.wf(),
            forall|n: Seq<char>, i: u64|
                self.tag_has(n, i) <==> pre.tag_has(n, i) && !(n == name && i == entry),
            forall|n: Seq<char>| n != name ==> (self.has_tag(n) <==> pre.has_tag(n)),
            !self.has_tag(name),
            forall|n: Seq<char>| self.has_tag(n) ==> self.tag_color(n) == pre.tag_color(n),
            self.entries_view() == pre.entries_view(),
    {
        assert(pre.tags@[ti].ids@[0] == entry);
        assert forall|i: u64| pre.tags@[ti].ids@.contains(i) implies i == entry by {}
        assert forall|n: Seq<char>, i: u64|
            self.tag_has(n, i) <==> pre.tag_has(n, i) && !(n == name && i == entry) by {
            if self.tag_has(n, i) {
                let k = choose|k: int|
                    0 <= k < self.tags@.len() && self.tags@[k].tag.name@ == n
                        && self.tags@[k].ids@.contains(i);
                let k2 = if k < ti { k } else { k + 1 };
                assert(self.tags@[k] == pre.tags@[k2]);
                assert(pre.tags@[k2].tag.name@ == n && pre.tags@[k2].ids@.contains(i));
                if n == name {
                    pre.lemma_tag_idx_unique(k2, ti);
                }
            }
            if pre.tag_has(n, i) && !(n == name && i == entry) {
                let k = choose|k: int|
                    0 <= k < pre.tags@.len() && pre.tags@[k].tag.name@ == n
                        && pre.tags@[k].ids@.contains(i);
                if n == name {
                    pre.lemma_tag_idx_unique(k, ti);
                    assert(false);
                } else {
                    assert(k != ti);
                    let k2 = if k < ti { k } else { k - 1 };
                    assert(self.tags@[k2] == pre.tags@[k]);
                    assert(self.tags@[k2].tag.name@ == n && self.tags@[k2].ids@.contains(i));
                }
            }
        }
        assert forall|n: Seq<char>| n != name implies (self.has_tag(n) <==> pre.has_tag(n)) by {
            if self.has_tag(n) {
                let k = choose|k: int| 0 <= k < self.tags@.len() && self.tags@[k].tag.name@ == n;
                let k2 = if k < ti { k } else { k + 1 };
                assert(pre.tags@[k2].tag.name@ == n);
            }
            if pre.has_tag(n) {
                let k = choose|k: int| 0 <= k < pre.tags@.len() && pre.tags@[k].tag.name@ == n;
                assert(k != ti);
                let k2 = if k < ti { k } else { k - 1 };
                assert(self.tags@[k2].tag.name@ == n);
            }
        }
        assert(!self.has_tag(name)) by {
            if self.has_tag(name) {
                let k = choose|k: int|
                    0 <= k < self.tags@.len() && self.tags@[k].tag.name@ == name;
                let k2 = if k < ti { k } else { k + 1 };
                assert(pre.tags@[k2].tag.name@ == name);
                pre.lemma_tag_idx_unique(k2, ti);
            }
        }
        assert forall|n: Seq<char>| self.has_tag(n) implies self.tag_color(n) == pre.tag_color(
            n,
        ) by {
            let a = choose|a: int| 0 <= a < self.tags@.len() && self.tags@[a].tag.name@ == n;
            let a2 = if a < ti { a } else { a + 1 };
            assert(pre.tags@[a2].tag.name@ == n);
            let b = choose|b: int| 0 <= b < pre.tags@.len() && pre.tags@[b].tag.name@ == n;
            pre.lemma_tag_idx_unique(a2, b);
        }
        assert(self.wf()) by {
            assert forall|i: int, j: int|
                0 <= i < j < self.tags@.len() implies self.tags@[i].tag.name@
                != self.tags@[j].tag.name@ by {
                let i2 = if i < ti { i } else { i + 1 };
                let j2 = if j < ti { j } else { j + 1 };
                assert(self.tags@[i] == pre.tags@[i2]);
                assert(self.tags@[j] == pre.tags@[j2]);
                assert(pre.tags@[i2].tag.name@ != pre.tags@[j2].tag.name@);
            }
            assert forall|i: int, a: int, b: int|
                0 <= i < self.tags@.len() && 0 <= a < b < self.tags@[i].ids@.len()
                    implies self.tags@[i].ids@[a] != self.tags@[i].ids@[b] by {
                let i2 = if i < ti { i } else { i + 1 };
                assert(self.tags@[i] == pre.tags@[i2]);
                assert(pre.tags@[i2].ids@[a] != pre.tags@[i2].ids@[b]);
            }
            assert forall|i: int, a: int|
                0 <= i < self.tags@.len() && 0 <= a < self.tags@[i].ids@.len()
                    implies self.has_entry(self.tags@[i].ids@[a]) by {
                let i2 = if i < ti { i } else { i + 1 };
                assert(self.tags@[i] == pre.tags@[i2]);
                assert(pre.has_entry(pre.tags@[i2].ids@[a]));
                assert forall|x: u64| pre.has_entry(x) implies self.has_entry(x) by {}
            }
            assert forall|i: int| 0 <= i < self.tags@.len() implies self.tags@[i].ids@.len()
                > 0 by {
                let i2 = if i < ti { i } else { i + 1 };
                assert(self.tags@[i] == pre.tags@[i2]);
            }
        }
        assert(self.entries_view() =~= pre.entries_view());
    }

    /// After removing the entry record at `j`, exactly that entry is gone.
    proof fn lemma_entry_removed(self, pre: TagRegistry, j: int, entry: u64)
        requires
            pre.wf(),
            0 <= j < pre.entries@.len(),
            pre.entries@[j].id == entry,
            !pre.entry_has_some_tag(entry),
            self.tags@ == pre.tags@,
            self.path@ == pre.path@,
            self.entries@ == pre.entries@.remove(j),
        ensures
            self.wf(),
            pre.tidy() ==> self.tidy(),
            forall|i: u64| self.has_entry(i) <==> pre.has_entry(i) && i != entry,
            forall|i: u64| self.has_entry(i) ==> self.entry_path(i) == pre.entry_path(i),
            forall|n: Seq<char>, i: u64| self.tag_has(n, i) <==> pre.tag_has(n, i),
            forall|n: Seq<char>| self.has_tag(n) <==> pre.has_tag(n),
            forall|n: Seq<char>| self.tag_color(n) == pre.tag_color(n),
    {
        assert forall|i: u64| self.has_entry(i) <==> pre.has_entry(i) && i != entry by {
            if self.has_entry(i) {
                let k = choose|k: int|
                    0 <= k < self.entries@.len() && self.entries@[k].id == i;
                let k2 = if k < j { k } else { k + 1 };
                assert(self.entries@[k] == pre.entries@[k2]);
                assert(pre.entries@[k2].id == i);
                if i == entry {
                    pre.lemma_entry_idx_unique(k2, j);
                }
            }
            if pre.has_entry(i) && i != entry {
                let k = choose|k: int|
                    0 <= k < pre.entries@.len() && pre.entries@[k].id == i;
                assert(k != j);
                let k2 = if k < j { k } else { k - 1 };
                assert(self.entries@[k2] == pre.entries@[k]);
                assert(self.entries@[k2].id == i);
            }
        }
        assert forall|i: u64| self.has_entry(i) implies self.entry_path(i) == pre.entry_path(
            i,
        ) by {
            let a = choose|a: int| 0 <= a < self.entries@.len() && self.entries@[a].id == i;
            let a2 = if a < j { a } else { a + 1 };
            assert(self.entries@[a] == pre.entries@[a2]);
            assert(pre.entries@[a2].id == i);
            let b = choose|b: int| 0 <= b < pre.entries@.len() && pre.entries@[b].id == i;
            pre.lemma_entry_idx_unique(a2, b);
        }
        assert(self.wf()) by {
            assert forall|a: int, b: int|
                0 <= a < b < self.entries@.len() implies self.entries@[a].id
                != self.entries@[b].id by {
                let a2 = if a < j { a } else { a + 1 };
                let b2 = if b < j { b } else { b + 1 };
                assert(self.entries@[a] == pre.entries@[a2]);
                assert(self.entries@[b] == pre.entries@[b2]);
                assert(pre.entries@[a2].id != pre.entries@[b2].id);
            }
            assert forall|a: int, b: int|
                0 <= a < b < self.entries@.len() implies self.entries@[a].data.path@
                != self.entries@[b].data.path@ by {
                let a2 = if a < j { a } else { a + 1 };
                let b2 = if b < j { b } else { b + 1 };
                assert(self.entries@[a] == pre.entries@[a2]);
                assert(self.entries@[b] == pre.entries@[b2]);
                assert(pre.entries@[a2].data.path@ != pre.entries@[b2].data.path@);
            }
            assert forall|i: int, a: int|
                0 <= i < self.tags@.len() && 0 <= a < self.tags@[i].ids@.len()
                    implies self.has_entry(self.tags@[i].ids@[a]) by {
                assert(pre.has_entry(pre.tags@[i].ids@[a]));
                assert(pre.tags@[i].ids@.contains(pre.tags@[i].ids@[a]));
                assert(pre.tags@[i].ids@[a] != entry) by {
                    if pre.tags@[i].ids@[a] == entry {
                        assert(pre.entry_has_some_tag(entry));
                    }
                }
            }
        }
        assert(pre.tidy() ==> self.tidy()) by {
            if pre.tidy() {
                assert forall|k: int|
                    0 <= k < self.entries@.len() implies self.entry_has_some_tag(
                    self.entries@[k].id,
                ) by {
                    let k2 = if k < j { k } else { k + 1 };
                    assert(self.entries@[k] == pre.entries@[k2]);
                    assert(pre.entry_has_some_tag(pre.entries@[k2].id));
                }
            }
        }
    }

    /// A state whose tag relation lost only pairs of `entry` stays clean,
    /// provided `entry` itself is still tagged or no longer tracked.
    proof fn lemma_mid_tidy(mid: TagRegistry, pre: TagRegistry, name: Seq<char>, entry: u64)
        requires
            pre.wf(),
            pre.tidy(),
            mid.entries@ == pre.entries@,
            forall|n: Seq<char>, i: u64|
                mid.tag_has(n, i) <==> pre.tag_has(n, i) && !(n == name && i == entry),
            mid.entry_has_some_tag(entry) || !mid.has_entry(entry),
        ensures
            mid.tidy(),
    {
        assert forall|k: int|
            0 <= k < mid.entries@.len() implies mid.entry_has_some_tag(mid.entries@[k].id) by {
            let id = mid.entries@[k].id;
            if id == entry {
                assert(mid.has_entry(id));
            } else {
                assert(pre.entry_has_some_tag(pre.entries@[k].id));
                let t = choose|t: int| 0 <= t < pre.tags@.len() && pre.tags@[t].ids@.contains(id);
                assert(pre.tag_has(pre.tags@[t].tag.name@, id));
                assert(mid.tag_has(pre.tags@[t].tag.name@, id));
                let m = choose|m: int|
                    0 <= m < mid.tags@.len() && mid.tags@[m].tag.name@ == pre.tags@[t].tag.name@
                        && mid.tags@[m].ids@.contains(id);
                assert(mid.entry_has_some_tag(id));
            }
        }
    }

    /// Detaches the tag from the entry with this id. When the tag's id set
    /// empties, the tag is deleted; when the entry is left with zero tags,
    /// the entry is deleted and its data returned.
    #[verifier::rlimit(50)]
    pub fn untag_entry(&mut self, tag: &Tag, entry: u64) -> (r: Option<EntryData>)
        requires
            old(self).wf(),
        ensures
            final(self).wf(),
            final(self).path@ == old(self).path@,
            old(self).tidy() ==> final(self).tidy(),
            forall|n: Seq<char>, i: u64|
                final(self).tag_has(n, i) <==> old(self).tag_has(n, i) && !(n == tag.name@ && i
                    == entry),
            forall|n: Seq<char>|
                n != tag.name@ ==> (final(self).has_tag(n) <==> old(self).has_tag(n)),
            final(self).has_tag(tag.name@) <==> exists|i: u64|
                old(self).tag_has(tag.name@, i) && i != entry,
            forall|n: Seq<char>|
                final(self).has_tag(n) ==> final(self).tag_color(n) == old(self).tag_color(n),
            r is Some <==> (old(self).has_entry(entry) && forall|n: Seq<char>|
                old(self).tag_has(n, entry) ==> n == tag.name@),
            r matches Some(d) ==> d.path@ == old(self).entry_path(entry),
            forall|i: u64|
                final(self).has_entry(i) <==> (old(self).has_entry(i) && !(i == entry
                    && r is Some)),
            forall|i: u64|
                final(self).has_entry(i) ==> final(self).entry_path(i) == old(self).entry_path(i),
    {
        let ghost pre = *self;
        match self.find_tag_idx(tag.name()) {
            Some(ti) => {
                proof {
                    let ii = choose|ii: int|
                        0 <= ii < pre.tags@.len() && pre.tags@[ii].tag.name@ == tag.name@;
                    pre.lemma_tag_idx_unique(ii, ti as int);
                }
                let mut rec = self.tags.remove(ti);
                match index_of_u64(&rec.ids, entry) {
                    Some(p) => {
                        let ghost old_ids = rec.ids@;
                        rec.ids.remove(p);
                        if rec.ids.len() > 0 {
                            self.tags.insert(ti, rec);
                            proof {
                                assert(self.tags@ =~= pre.tags@.update(
                                    ti as int,
                                    self.tags@[ti as int],
                                ));
                                self.lemma_tags_shrunk_at(pre, ti as int, p as int, tag.name@, entry);
                                assert(self.has_tag(tag.name@)) by {
                                    assert(self.tags@[ti as int].tag.name@ == tag.name@);
                                }
                                assert(exists|i: u64| pre.tag_has(tag.name@, i) && i != entry) by {
                                    let w = self.tags@[ti as int].ids@[0];
                                    assert(self.tags@[ti as int].ids@.contains(w));
                                    assert(self.tag_has(tag.name@, w));
                                }
                            }
                        } else {
                            proof {
                                assert(old_ids.len() == 1 && p == 0);
                                assert(old_ids =~= seq![entry]);
                                assert(self.tags@ =~= pre.tags@.remove(ti as int));
                                self.lemma_tags_dropped_at(pre, ti as int, tag.name@, entry);
                                assert forall|i: u64|
                                    !(pre.tag_has(tag.name@, i) && i != entry) by {
                                    if pre.tag_has(tag.name@, i) {
                                        let k = choose|k: int|
                                            0 <= k < pre.tags@.len() && pre.tags@[k].tag.name@
                                                == tag.name@ && pre.tags@[k].ids@.contains(i);
                                        pre.lemma_tag_idx_unique(k, ti as int);
                                        assert(i == entry);
                                    }
                                }
                            }
                        }
                    },
                    None => {
                        self.tags.insert(ti, rec);
                        proof {
                            assert(self.tags@ =~= pre.tags@);
                            assert(!pre.tag_has(tag.name@, entry)) by {
                                if pre.tag_has(tag.name@, entry) {
                                    let k = choose|k: int|
                                        0 <= k < pre.tags@.len() && pre.tags@[k].tag.name@
                                            == tag.name@ && pre.tags@[k].ids@.contains(entry);
                                    pre.lemma_tag_idx_unique(k, ti as int);
                                }
                            }
                            assert(self.has_tag(tag.name@)) by {
                                assert(self.tags@[ti as int].tag.name@ == tag.name@);
                            }
                            assert(exists|i: u64| pre.tag_has(tag.name@, i) && i != entry) by {
                                assert(pre.tags@[ti as int].ids@.len() > 0);
                                let w = pre.tags@[ti as int].ids@[0];
                                assert(pre.tags@[ti as int].ids@.contains(w));
                                assert(pre.tag_has(tag.name@, w));
                                assert(w != entry);
                            }
                        }
                    },
                }
            },
            None => {
                proof {
                    assert forall|i: u64| !pre.tag_has(tag.name@, i) by {
                        if pre.tag_has(tag.name@, i) {
                            let k = choose|k: int|
                                0 <= k < pre.tags@.len() && pre.tags@[k].tag.name@ == tag.name@
                                    && pre.tags@[k].ids@.contains(i);
                            assert(pre.has_tag(tag.name@));
                        }
                    }
                }
            },
        }
        let ghost mid = *self;
        proof {
            assert(mid.wf());
            assert(mid.entries@ == pre.entries@);
            assert forall|n: Seq<char>, i: u64|
                mid.tag_has(n, i) <==> pre.tag_has(n, i) && !(n == tag.name@ && i == entry) by {}
        }
        if !self.some_tag_contains(entry) {
            proof {
                assert forall|n: Seq<char>| pre.tag_has(n, entry) implies n == tag.name@ by {
                    if n != tag.name@ {
                        assert(mid.tag_has(n, entry));
                        let k = choose|k: int|
                            0 <= k < mid.tags@.len() && mid.tags@[k].tag.name@ == n
                                && mid.tags@[k].ids@.contains(entry);
                        assert(mid.entry_has_some_tag(entry));
                    }
                }
            }
            match self.find_entry_idx(entry) {
                Some(j) => {
                    proof {
                        let jj = choose|jj: int|
                            0 <= jj < mid.entries@.len() && mid.entries@[jj].id == entry;
                        mid.lemma_entry_idx_unique(jj, j as int);
                    }
                    let removed = self.entries.remove(j);
                    proof {
                        self.lemma_entry_removed(mid, j as int, entry);
                        assert(pre.has_entry(entry));
                        assert(pre.tidy() ==> self.tidy()) by {
                            if pre.tidy() {
                                assert forall|k: int|
                                    0 <= k < self.entries@.len() implies self.entry_has_some_tag(
                                    self.entries@[k].id,
                                ) by {
                                    let id = self.entries@[k].id;
                                    assert(self.has_entry(id));
                                    assert(mid.has_entry(id) && id != entry);
                                    let b = choose|b: int|
                                        0 <= b < pre.entries@.len() && pre.entries@[b].id == id;
                                    assert(pre.entry_has_some_tag(pre.entries@[b].id));
                                    let t = choose|t: int|
                                        0 <= t < pre.tags@.len() && pre.tags@[t].ids@.contains(id);
                                    assert(pre.tag_has(pre.tags@[t].tag.name@, id));
                                    assert(mid.tag_has(pre.tags@[t].tag.name@, id));
                                    let m = choose|m: int|
                                        0 <= m < mid.tags@.len() && mid.tags@[m].tag.name@
                                            == pre.tags@[t].tag.name@ && mid.tags@[m].ids@.contains(
                                            id,
                                        );
                                    assert(self.tags@[m].ids@.contains(id));
                                    assert(self.entry_has_some_tag(id));
                                }
                            }
                        }
                        assert(pre.entry_path(entry) == removed.data.path@) by {
                            let b = choose|b: int|
                                0 <= b < pre.entries@.len() && pre.entries@[b].id == entry;
                            pre.lemma_entry_idx_unique(b, j as int);
                        }
                    }
                    Some(removed.data)
                },
                None => {
                    proof {
                        assert(!pre.has_entry(entry));
                        if pre.tidy() {
                            Self::lemma_mid_tidy(mid, pre, tag.name@, entry);
                        }
                    }
                    None
                },
            }
        } else {
            proof {
                let k = choose|k: int|
                    0 <= k < mid.tags@.len() && mid.tags@[k].ids@.contains(entry);
                assert(mid.tag_has(mid.tags@[k].tag.name@, entry));
                assert(pre.tag_has(mid.tags@[k].tag.name@, entry) && mid.tags@[k].tag.name@
                    != tag.name@);
                if pre.tidy() {
                    Self::lemma_mid_tidy(mid, pre, tag.name@, entry);
                }
            }
            None
        }
    }

    /// Detaches the tag with this name, if it exists, from the entry.
    pub fn untag_by_name(&mut self, tag_name: &str, entry: u64) -> (r: Option<EntryData>)
        requires
            old(self).wf(),
        ensures
            final(self).wf(),
            final(self).path@ == old(self).path@,
            old(self).tidy() ==> final(self).tidy(),
            forall|n: Seq<char>, i: u64|
                final(self).tag_has(n, i) <==> old(self).tag_has(n, i) && !(n == tag_name@ && i
                    == entry),
            forall|i: u64|
                final(self).has_entry(i) <==> (old(self).has_entry(i) && !(i == entry
                    && r is Some)),
            forall|i: u64|
                final(self).has_entry(i) ==> final(self).entry_path(i) == old(self).entry_path(i),
            r is Some <==> (old(self).has_tag(tag_name@) && old(self).has_entry(entry) && forall|
                n: Seq<char>,
            |
                old(self).tag_has(n, entry) ==> n == tag_name@),
            r matches Some(d) ==> d.path@ == old(self).entry_path(entry),
    {
        let dup: Option<Tag> = match self.get_tag(tag_name) {
            Some(t) => Some(t.duplicate()),
            None => None,
        };
        match dup {
            Some(t) => {
                let r = self.untag_entry(&t, entry);
                proof {
                    if r is None && old(self).has_entry(entry) {
                    }
                }
                r
            },
            None => {
                proof {
                    assert forall|n: Seq<char>, i: u64|
                        self.tag_has(n, i) <==> old(self).tag_has(n, i) && !(n == tag_name@ && i
                            == entry) by {
                        if old(self).tag_has(tag_name@, i) {
                            assert(old(self).has_tag(tag_name@));
                        }
                    }
                }
                None
            },
        }
    }

    /// Whether one record's id set is the other's without `entry`, the
    /// names and colors equal.
    pub open spec fn record_filtered(rec: TagRecord, orig: TagRecord, entry: u64) -> bool {
        &&& rec.tag.name@ == orig.tag.name@
        &&& rec.tag.color == orig.tag.color
        &&& forall|y: u64| rec.ids@.contains(y) <==> (orig.ids@.contains(y) && y != entry)
    }

    /// Removes the entry from every tag's id set, garbage-collecting any
    /// tag left empty, and removes the entry itself.
    #[verifier::rlimit(50)]
    pub fn clear_entry(&mut self, entry: u64)
        requires
            old(self).wf(),
        ensures
            final(self).wf(),
            old(self).tidy() ==> final(self).tidy(),
            final(self).path@ == old(self).path@,
            forall|n: Seq<char>, i: u64|
                final(self).tag_has(n, i) <==> old(self).tag_has(n, i) && i != entry,
            forall|n: Seq<char>|
                final(self).has_tag(n) <==> (exists|i: u64| old(self).tag_has(n, i) && i != entry),
            forall|n: Seq<char>|
                final(self).has_tag(n) ==> final(self).tag_color(n) == old(self).tag_color(n),
            forall|i: u64| final(self).has_entry(i) <==> old(self).has_entry(i) && i != entry,
            forall|i: u64|
                final(self).has_entry(i) ==> final(self).entry_path(i) == old(self).entry_path(i),
    {
        let ghost pre = *self;
        let mut new_tags: Vec<TagRecord> = Vec::new();
        let n = self.tags.len();
        let mut i: usize = 0;
        while i < n
            invariant
                pre.wf(),
                *self == pre,
                n == pre.tags@.len(),
                i <= n,
                forall|k: int|
                    0 <= k < new_tags@.len() ==> exists|o: int|
                        0 <= o < i && Self::record_filtered(
                            #[trigger] new_tags@[k],
                            pre.tags@[o],
                            entry,
                        ),
                forall|o: int|
                    0 <= o < i && (exists|y: u64| pre.tags@[o].ids@.contains(y) && y != entry)
                        ==> exists|k: int|
                        0 <= k < new_tags@.len() && Self::record_filtered(
                            new_tags@[k],
                            #[trigger] pre.tags@[o],
                            entry,
                        ),
                forall|k: int| 0 <= k < new_tags@.len() ==> (#[trigger] new_tags@[k]).ids@.len()
                    > 0,
                forall|k: int, a: int, b: int|
                    0 <= k < new_tags@.len() && 0 <= a < b < new_tags@[k].ids@.len()
                        ==> new_tags@[k].ids@[a] != new_tags@[k].ids@[b],
                forall|k1: int, k2: int|
                    0 <= k1 < k2 < new_tags@.len() ==> new_tags@[k1].tag.name@
                        != new_tags@[k2].tag.name@,
            decreases n - i,
        {
            let ids2 = ids_without(&self.tags[i].ids, entry);
            if ids2.len() > 0 {
                let ghost before = new_tags@;
                new_tags.push(TagRecord { tag: self.tags[i].tag.duplicate(), ids: ids2 });
                proof {
                    let last = new_tags@.len() - 1;
                    assert(new_tags@[last].ids@ == ids2@);
                    assert(Self::record_filtered(new_tags@[last], pre.tags@[i as int], entry));
                    assert forall|k: int|
                        0 <= k < new_tags@.len() implies exists|o: int|
                        0 <= o < i + 1 && Self::record_filtered(
                            #[trigger] new_tags@[k],
                            pre.tags@[o],
                            entry,
                        ) by {
                        if k < last {
                            assert(new_tags@[k] == before[k]);
                            let o = choose|o: int|
                                0 <= o < i && Self::record_filtered(before[k], pre.tags@[o], entry);
                            assert(Self::record_filtered(new_tags@[k], pre.tags@[o], entry));
                        } else {
                            assert(Self::record_filtered(
                                new_tags@[k],
                                pre.tags@[i as int],
                                entry,
                            ));
                        }
                    }
                    assert forall|o: int|
                        0 <= o < i + 1 && (exists|y: u64| pre.tags@[o].ids@.contains(y) && y
                            != entry) implies exists|k: int|
                        0 <= k < new_tags@.len() && Self::record_filtered(
                            new_tags@[k],
                            #[trigger] pre.tags@[o],
                            entry,
                        ) by {
                        if o < i {
                            let k = choose|k: int|
                                0 <= k < before.len() && Self::record_filtered(
                                    before[k],
                                    pre.tags@[o],
                                    entry,
                                );
                            assert(new_tags@[k] == before[k]);
                            assert(Self::record_filtered(new_tags@[k], pre.tags@[o], entry));
                        } else {
                            assert(Self::record_filtered(
                                new_tags@[last],
                                pre.tags@[o],
                                entry,
                            ));
                        }
                    }
                    assert forall|k1: int, k2: int|
                        0 <= k1 < k2 < new_tags@.len() implies new_tags@[k1].tag.name@
                        != new_tags@[k2].tag.name@ by {
                        if k2 == last {
                            assert(new_tags@[k1] == before[k1]);
                            let o = choose|o: int|
                                0 <= o < i && Self::record_filtered(
                                    before[k1],
                                    pre.tags@[o],
                                    entry,
                                );
                            assert(new_tags@[k1].tag.name@ == pre.tags@[o].tag.name@);
                            assert(new_tags@[k2].tag.name@ == pre.tags@[i as int].tag.name@);
                            if pre.tags@[o].tag.name@ == pre.tags@[i as int].tag.name@ {
                                pre.lemma_tag_idx_unique(o, i as int);
                            }
                        } else {
                            assert(new_tags@[k1] == before[k1]);
                            assert(new_tags@[k2] == before[k2]);
                        }
                    }
                }
            } else {
                proof {
                    assert forall|y: u64|
                        !(pre.tags@[i as int].ids@.contains(y) && y != entry) by {
                        if pre.tags@[i as int].ids@.contains(y) && y != entry {
                            assert(ids2@.contains(y));
                        }
                    }
                }
            }
            i = i + 1;
        }
        self.tags = new_tags;
        let ghost mid = *self;
        proof {
            assert(mid.entries@ == pre.entries@);
            assert forall|nm: Seq<char>, x: u64|
                mid.tag_has(nm, x) <==> pre.tag_has(nm, x) && x != entry by {
                if mid.tag_has(nm, x) {
                    let k = choose|k: int|
                        0 <= k < mid.tags@.len() && mid.tags@[k].tag.name@ == nm
                            && mid.tags@[k].ids@.contains(x);
                    let o = choose|o: int|
                        0 <= o < n && Self::record_filtered(mid.tags@[k], pre.tags@[o], entry);
                    assert(pre.tags@[o].ids@.contains(x) && x != entry);
                    assert(pre.tags@[o].tag.name@ == nm);
                }
                if pre.tag_has(nm, x) && x != entry {
                    let o = choose|o: int|
                        0 <= o < pre.tags@.len() && pre.tags@[o].tag.name@ == nm
                            && pre.tags@[o].ids@.contains(x);
                    assert(exists|y: u64| pre.tags@[o].ids@.contains(y) && y != entry);
                    let k = choose|k: int|
                        0 <= k < mid.tags@.len() && Self::record_filtered(
                            mid.tags@[k],
                            pre.tags@[o],
                            entry,
                        );
                    assert(mid.tags@[k].ids@.contains(x));
                    assert(mid.tags@[k].tag.name@ == nm);
                }
            }
            assert forall|nm: Seq<char>|
                mid.has_tag(nm) <==> (exists|x: u64| pre.tag_has(nm, x) && x != entry) by {
                if mid.has_tag(nm) {
                    let k = choose|k: int|
                        0 <= k < mid.tags@.len() && mid.tags@[k].tag.name@ == nm;
                    assert(mid.tags@[k].ids@.len() > 0);
                    let w = mid.tags@[k].ids@[0];
                    assert(mid.tags@[k].ids@.contains(w));
                    assert(mid.tag_has(nm, w));
                }
                if exists|x: u64| pre.tag_has(nm, x) && x != entry {
                    let x = choose|x: u64| pre.tag_has(nm, x) && x != entry;
                    assert(mid.tag_has(nm, x));
                    let k = choose|k: int|
                        0 <= k < mid.tags@.len() && mid.tags@[k].tag.name@ == nm
                            && mid.tags@[k].ids@.contains(x);
                }
            }
            assert forall|nm: Seq<char>|
                mid.has_tag(nm) implies mid.tag_color(nm) == pre.tag_color(nm) by {
                let a = choose|a: int| 0 <= a < mid.tags@.len() && mid.tags@[a].tag.name@ == nm;
                let o = choose|o: int|
                    0 <= o < n && Self::record_filtered(mid.tags@[a], pre.tags@[o], entry);
                let b = choose|b: int| 0 <= b < pre.tags@.len() && pre.tags@[b].tag.name@ == nm;
                pre.lemma_tag_idx_unique(o, b);
                assert(mid.tags@[a].tag.color == pre.tags@[b].tag.color);
            }
            assert(mid.wf()) by {
                assert forall|k: int, a: int|
                    0 <= k < mid.tags@.len() && 0 <= a < mid.tags@[k].ids@.len()
                        implies mid.has_entry(mid.tags@[k].ids@[a]) by {
                    let o = choose|o: int|
                        0 <= o < n && Self::record_filtered(mid.tags@[k], pre.tags@[o], entry);
                    assert(mid.tags@[k].ids@.contains(mid.tags@[k].ids@[a]));
                    assert(pre.tags@[o].ids@.contains(mid.tags@[k].ids@[a]));
                    let q = choose|q: int|
                        0 <= q < pre.tags@[o].ids@.len() && pre.tags@[o].ids@[q]
                            == mid.tags@[k].ids@[a];
                    assert(pre.has_entry(pre.tags@[o].ids@[q]));
                }
            }
        }
        match self.find_entry_idx(entry) {
            Some(j) => {
                proof {
                    let jj = choose|jj: int|
                        0 <= jj < mid.entries@.len() && mid.entries@[jj].id == entry;
                    mid.lemma_entry_idx_unique(jj, j as int);
                    assert(!mid.entry_has_some_tag(entry)) by {
                        if mid.entry_has_some_tag(entry) {
                            let k = choose|k: int|
                                0 <= k < mid.tags@.len() && mid.tags@[k].ids@.contains(entry);
                            assert(mid.tag_has(mid.tags@[k].tag.name@, entry));
                        }
                    }
                }
                let _removed = self.entries.remove(j);
                proof {
                    self.lemma_entry_removed(mid, j as int, entry);
                    assert(pre.tidy() ==> self.tidy()) by {
                        if pre.tidy() {
                            assert forall|k: int|
                                0 <= k < self.entries@.len() implies self.entry_has_some_tag(
                                self.entries@[k].id,
                            ) by {
                                let id = self.entries@[k].id;
                                assert(self.has_entry(id));
                                assert(mid.has_entry(id) && id != entry);
                                let b = choose|b: int|
                                    0 <= b < pre.entries@.len() && pre.entries@[b].id == id;
                                assert(pre.entry_has_some_tag(pre.entries@[b].id));
                                let t = choose|t: int|
                                    0 <= t < pre.tags@.len() && pre.tags@[t].ids@.contains(id);
                                assert(pre.tag_has(pre.tags@[t].tag.name@, id));
                                assert(mid.tag_has(pre.tags@[t].tag.name@, id));
                                let m = choose|m: int|
                                    0 <= m < mid.tags@.len() && mid.tags@[m].tag.name@
                                        == pre.tags@[t].tag.name@ && mid.tags@[m].ids@.contains(id);
                                assert(self.tags@[m].ids@.contains(id));
                                assert(self.entry_has_some_tag(id));
                            }
                        }
                    }
                }
            },
            None => {
                proof {
                    assert(!mid.has_entry(entry));
                    if pre.tidy() {
                        Self::lemma_clear_mid_tidy(mid, pre, entry);
                    }
                }
            },
        }
    }

    /// Like [`Self::lemma_mid_tidy`], for the relation left by clearing an
    /// entry from every tag, when the entry is not tracked.
    proof fn lemma_clear_mid_tidy(mid: TagRegistry, pre: TagRegistry, entry: u64)
        requires
            pre.wf(),
            pre.tidy(),
            mid.entries@ == pre.entries@,
            !mid.has_entry(entry),
            forall|n: Seq<char>, i: u64| mid.tag_has(n, i) <==> pre.tag_has(n, i) && i != entry,
        ensures
            mid.tidy(),
    {
        assert forall|k: int|
            0 <= k < mid.entries@.len() implies mid.entry_has_some_tag(mid.entries@[k].id) by {
            let id = mid.entries@[k].id;
            assert(mid.has_entry(id));
            assert(id != entry);
            assert(pre.entry_has_some_tag(pre.entries@[k].id));
            let t = choose|t: int| 0 <= t < pre.tags@.len() && pre.tags@[t].ids@.contains(id);
            assert(pre.tag_has(pre.tags@[t].tag.name@, id));
            assert(mid.tag_has(pre.tags@[t].tag.name@, id));
            let m = choose|m: int|
                0 <= m < mid.tags@.len() && mid.tags@[m].tag.name@ == pre.tags@[t].tag.name@
                    && mid.tags@[m].ids@.contains(id);
            assert(mid.entry_has_some_tag(id));
        }
    }

    /// Removes the entry record alone; the caller has already detached
    /// every tag from it.
    pub fn remove_entry(&mut self, entry: u64) -> (r: Option<EntryData>)
        requires
            old(self).wf(),
            !old(self).entry_has_some_tag(entry),
        ensures
            final(self).wf(),
            old(self).tidy() ==> final(self).tidy(),
            final(self).path@ == old(self).path@,
            final(self).tags@ == old(self).tags@,
            r is Some <==> old(self).has_entry(entry),
            r matches Some(d) ==> d.path@ == old(self).entry_path(entry),
            forall|i: u64| final(self).has_entry(i) <==> old(self).has_entry(i) && i != entry,
            forall|i: u64|
                final(self).has_entry(i) ==> final(self).entry_path(i) == old(self).entry_path(i),
    {
        let ghost pre = *self;
        match self.find_entry_idx(entry) {
            Some(j) => {
                proof {
                    let jj = choose|jj: int|
                        0 <= jj < pre.entries@.len() && pre.entries@[jj].id == entry;
                    pre.lemma_entry_idx_unique(jj, j as int);
                }
                let removed = self.entries.remove(j);
                proof {
                    self.lemma_entry_removed(pre, j as int, entry);
                    assert(pre.entry_path(entry) == removed.data.path@) by {
                        let b = choose|b: int|
                            0 <= b < pre.entries@.len() && pre.entries@[b].id == entry;
                        pre.lemma_entry_idx_unique(b, j as int);
                    }
                }
                Some(removed.data)
            },
            None => None,
        }
    }

    /// Repaints the tag with this name, preserving its entry set; reports
    /// whether the tag was found.
    pub fn update_tag_color(&mut self, tag: &str, color: Color) -> (r: bool)
        requires
            old(self).wf(),
        ensures
            final(self).wf(),
            old(self).tidy() ==> final(self).tidy(),
            final(self).path@ == old(self).path@,
            final(self).entries_view() == old(self).entries_view(),
            r == old(self).has_tag(tag@),
            forall|n: Seq<char>, i: u64|
                final(self).tag_has(n, i) <==> old(self).tag_has(n, i),
            forall|n: Seq<char>| final(self).has_tag(n) <==> old(self).has_tag(n),
            forall|n: Seq<char>|
                n != tag@ && old(self).has_tag(n) ==> final(self).tag_color(n) == old(
                    self,
                ).tag_color(n),
            old(self).has_tag(tag@) ==> final(self).tag_color(tag@) == color,
    {
        let ghost pre = *self;
        match self.find_tag_idx(tag) {
            Some(ti) => {
                let mut rec = self.tags.remove(ti);
                rec.tag.set_color(&color);
                self.tags.insert(ti, rec);
                proof {
                    assert(self.tags@ =~= pre.tags@.update(ti as int, self.tags@[ti as int]));
                    assert(self.tags@[ti as int].tag.name@ == pre.tags@[ti as int].tag.name@);
                    assert(self.tags@[ti as int].tag.color == color);
                    assert(self.tags@[ti as int].ids@ == pre.tags@[ti as int].ids@);
                    let ii = choose|ii: int|
                        0 <= ii < pre.tags@.len() && pre.tags@[ii].tag.name@ == tag@;
                    pre.lemma_tag_idx_unique(ii, ti as int);
                    assert forall|n: Seq<char>, i: u64|
                        self.tag_has(n, i) <==> pre.tag_has(n, i) by {
                        if self.tag_has(n, i) {
                            let k = choose|k: int|
                                0 <= k < self.tags@.len() && self.tags@[k].tag.name@ == n
                                    && self.tags@[k].ids@.contains(i);
                            assert(pre.tags@[k].tag.name@ == n && pre.tags@[k].ids@.contains(i));
                        }
                        if pre.tag_has(n, i) {
                            let k = choose|k: int|
                                0 <= k < pre.tags@.len() && pre.tags@[k].tag.name@ == n
                                    && pre.tags@[k].ids@.contains(i);
                            assert(self.tags@[k].tag.name@ == n && self.tags@[k].ids@.contains(i));
                        }
                    }
                    assert forall|n: Seq<char>| self.has_tag(n) <==> pre.has_tag(n) by {
                        if self.has_tag(n) {
                            let k = choose|k: int|
                                0 <= k < self.tags@.len() && self.tags@[k].tag.name@ == n;
                            assert(pre.tags@[k].tag.name@ == n);
                        }
                        if pre.has_tag(n) {
                            let k = choose|k: int|
                                0 <= k < pre.tags@.len() && pre.tags@[k].tag.name@ == n;
                            assert(self.tags@[k].tag.name@ == n);
                        }
                    }
                    assert forall|n: Seq<char>|
                        n != tag@ && pre.has_tag(n) implies self.tag_color(n) == pre.tag_color(
                        n,
                    ) by {
                        let a = choose|a: int|
                            0 <= a < self.tags@.len() && self.tags@[a].tag.name@ == n;
                        let b = choose|b: int|
                            0 <= b < pre.tags@.len() && pre.tags@[b].tag.name@ == n;
                        assert(pre.tags@[a].tag.name@ == n);
                        pre.lemma_tag_idx_unique(a, b);
                        assert(b != ti);
                    }
                    assert(self.tag_color(tag@) == color) by {
                        let a = choose|a: int|
                            0 <= a < self.tags@.len() && self.tags@[a].tag.name@ == tag@;
                        assert(self.tags@[ti as int].tag.name@ == tag@);
                        assert(pre.tags@[a].tag.name@ == tag@);
                        pre.lemma_tag_idx_unique(a, ti as int);
                    }
                    assert(self.wf()) by {
                        assert forall|a: int, b: int|
                            0 <= a < b < self.tags@.len() implies self.tags@[a].tag.name@
                            != self.tags@[b].tag.name@ by {
                            assert(self.tags@[a].tag.name@ == pre.tags@[a].tag.name@);
                            assert(self.tags@[b].tag.name@ == pre.tags@[b].tag.name@);
                        }
                        assert forall|k: int, a: int|
                            0 <= k < self.tags@.len() && 0 <= a < self.tags@[k].ids@.len()
                                implies self.has_entry(self.tags@[k].ids@[a]) by {
                            assert(self.tags@[k].ids@ == pre.tags@[k].ids@);
                            assert(pre.has_entry(pre.tags@[k].ids@[a]));
                        }
                    }
                    assert(pre.tidy() ==> self.tidy()) by {
                        if pre.tidy() {
                            assert forall|k: int|
                                0 <= k < self.entries@.len() implies self.entry_has_some_tag(
                                self.entries@[k].id,
                            ) by {
                                assert(pre.entry_has_some_tag(pre.entries@[k].id));
                                let t = choose|t: int|
                                    0 <= t < pre.tags@.len() && pre.tags@[t].ids@.contains(
                                        pre.entries@[k].id,
                                    );
                                assert(self.tags@[t].ids@.contains(self.entries@[k].id));
                            }
                        }
                    }
                    assert(self.entries_view() =~= pre.entries_view());
                }
                true
            },
            None => false,
        }
    }
}

impl TagRegistry {
    /// The entry with id `i` would lose its last tag if the tag named
    /// `name` were deleted.
    pub open spec fn loses_last_tag(self, name: Seq<char>, i: u64) -> bool {
        self.tag_has(name, i) && forall|n: Seq<char>| self.tag_has(n, i) ==> n == name
    }

    /// Distinct tracked entries have distinct paths.
    pub proof fn lemma_entry_path_injective(self, i1: u64, i2: u64)
        requires
            self.wf(),
            self.has_entry(i1),
            self.has_entry(i2),
            self.entry_path(i1) == self.entry_path(i2),
        ensures
            i1 == i2,
    {
        let j1 = choose|j: int| 0 <= j < self.entries@.len() && self.entries@[j].id == i1;
        let j2 = choose|j: int| 0 <= j < self.entries@.len() && self.entries@[j].id == i2;
        if j1 != j2 {
            if j1 < j2 {
                assert(self.entries@[j1].data.path@ != self.entries@[j2].data.path@);
            } else {
                assert(self.entries@[j2].data.path@ != self.entries@[j1].data.path@);
            }
        }
    }

    /// After removing the whole record at `ti`, the tag relation lost
    /// every pair of that tag's name and nothing else.
    proof fn lemma_tag_record_removed(self, pre: TagRegistry, ti: int, name: Seq<char>)
        requires
            pre.wf(),
            0 <= ti < pre.tags@.len(),
            pre.tags@[ti].tag.name@ == name,
            self.entries@ == pre.entries@,
            self.path@ == pre.path@,
            self.tags@ == pre.tags@.remove(ti),
        ensures
            self.wf(),
            forall|n: Seq<char>, i: u64|
                self.tag_has(n, i) <==> pre.tag_has(n, i) && n != name,
            forall|n: Seq<char>| n != name ==> (self.has_tag(n) <==> pre.has_tag(n)),
            !self.has_tag(name),
            forall|n: Seq<char>| self.has_tag(n) ==> self.tag_color(n) == pre.tag_color(n),
            self.entries_view() == pre.entries_view(),
    {
        assert forall|n: Seq<char>, i: u64|
            self.tag_has(n, i) <==> pre.tag_has(n, i) && n != name by {
            if self.tag_has(n, i) {
                let k = choose|k: int|
                    0 <= k < self.tags@.len() && self.tags@[k].tag.name@ == n
                        && self.tags@[k].ids@.contains(i);
                let k2 = if k < ti { k } else { k + 1 };
                assert(self.tags@[k] == pre.tags@[k2]);
                assert(pre.tags@[k2].tag.name@ == n && pre.tags@[k2].ids@.contains(i));
                if n == name {
                    pre.lemma_tag_idx_unique(k2, ti);
                }
            }
            if pre.tag_has(n, i) && n != name {
                let k = choose|k: int|
                    0 <= k < pre.tags@.len() && pre.tags@[k].tag.name@ == n
                        && pre.tags@[k].ids@.contains(i);
                assert(k != ti);
                let k2 = if k < ti { k } else { k - 1 };
                assert(self.tags@[k2] == pre.tags@[k]);
                assert(self.tags@[k2].tag.name@ == n && self.tags@[k2].ids@.contains(i));
            }
        }
        assert forall|n: Seq<char>| n != name implies (self.has_tag(n) <==> pre.has_tag(n)) by {
            if self.has_tag(n) {
                let k = choose|k: int| 0 <= k < self.tags@.len() && self.tags@[k].tag.name@ == n;
                let k2 = if k < ti { k } else { k + 1 };
                assert(pre.tags@[k2].tag.name@ == n);
            }
            if pre.has_tag(n) {
                let k = choose|k: int| 0 <= k < pre.tags@.len() && pre.tags@[k].tag.name@ == n;
                assert(k != ti);
                let k2 = if k < ti { k } else { k - 1 };
                assert(self.tags@[k2].tag.name@ == n);
            }
        }
        assert(!self.has_tag(name)) by {
            if self.has_tag(name) {
                let k = choose|k: int|
                    0 <= k < self.tags@.len() && self.tags@[k].tag.name@ == name;
                let k2 = if k < ti { k } else { k + 1 };
                assert(pre.tags@[k2].tag.name@ == name);
                pre.lemma_tag_idx_unique(k2, ti);
            }
        }
        assert forall|n: Seq<char>| self.has_tag(n) implies self.tag_color(n) == pre.tag_color(
            n,
        ) by {
            let a = choose|a: int| 0 <= a < self.tags@.len() && self.tags@[a].tag.name@ == n;
            let a2 = if a < ti { a } else { a + 1 };
            assert(pre.tags@[a2].tag.name@ == n);
            let b = choose|b: int| 0 <= b < pre.tags@.len() && pre.tags@[b].tag.name@ == n;
            pre.lemma_tag_idx_unique(a2, b);
        }
        assert(self.wf()) by {
            assert forall|i: int, j: int|
                0 <= i < j < self.tags@.len() implies self.tags@[i].tag.name@
                != self.tags@[j].tag.name@ by {
                let i2 = if i < ti { i } else { i + 1 };
                let j2 = if j < ti { j } else { j + 1 };
                assert(self.tags@[i] == pre.tags@[i2]);
                assert(self.tags@[j] == pre.tags@[j2]);
                assert(pre.tags@[i2].tag.name@ != pre.tags@[j2].tag.name@);
            }
            assert forall|i: int, a: int, b: int|
                0 <= i < self.tags@.len() && 0 <= a < b < self.tags@[i].ids@.len()
                    implies self.tags@[i].ids@[a] != self.tags@[i].ids@[b] by {
                let i2 = if i < ti { i } else { i + 1 };
                assert(self.tags@[i] == pre.tags@[i2]);
                assert(pre.tags@[i2].ids@[a] != pre.tags@[i2].ids@[b]);
            }
            assert forall|i: int, a: int|
                0 <= i < self.tags@.len() && 0 <= a < self.tags@[i].ids@.len()
                    implies self.has_entry(self.tags@[i].ids@[a]) by {
                let i2 = if i < ti { i } else { i + 1 };
                assert(self.tags@[i] == pre.tags@[i2]);
                assert(pre.has_entry(pre.tags@[i2].ids@[a]));
                assert forall|x: u64| pre.has_entry(x) implies self.has_entry(x) by {}
            }
            assert forall|i: int| 0 <= i < self.tags@.len() implies self.tags@[i].ids@.len()
                > 0 by {
                let i2 = if i < ti { i } else { i + 1 };
                assert(self.tags@[i] == pre.tags@[i2]);
            }
        }
        assert(self.entries_view() =~= pre.entries_view());
    }

    /// Among the first `p + 1` ids stand exactly the first `p` and the
    /// one at `p`.
    proof fn lemma_take_succ(ids: Seq<u64>, p: int)
        requires
            0 <= p < ids.len(),
        ensures
            forall|i: u64|
                #[trigger] ids.take(p + 1).contains(i) <==> ids.take(p).contains(i) || i == ids[p],
    {
        assert forall|i: u64|
            #[trigger] ids.take(p + 1).contains(i) <==> ids.take(p).contains(i) || i
                == ids[p] by {
            let t1 = ids.take(p + 1);
            let t0 = ids.take(p);
            if t1.contains(i) {
                let q = choose|q: int| 0 <= q < t1.len() && t1[q] == i;
                if q < p {
                    assert(t0[q] == i);
                    assert(t0.contains(i));
                } else {
                    assert(t1[q] == ids[p]);
                }
            }
            if t0.contains(i) {
                let q = choose|q: int| 0 <= q < t0.len() && t0[q] == i;
                assert(t1[q] == i);
            }
            if i == ids[p] {
                assert(t1[p] == i);
            }
        }
    }

    /// The path belongs to an entry that loses its last tag when the tag
    /// named `name` is deleted.
    pub open spec fn gc_victim_path(pre: TagRegistry, name: Seq<char>, p: Seq<char>) -> bool {
        exists|i: u64| pre.loses_last_tag(name, i) && pre.entry_path(i) == p
    }

    /// What `clear_tag` returns: one datum per entry that lost its last
    /// tag, each exactly once, none for entries that kept other tags.
    pub open spec fn cleared_entries_ok(pre: TagRegistry, name: Seq<char>, v: Seq<EntryData>) -> bool {
        &&& forall|k: int|
            0 <= k < v.len() ==> Self::gc_victim_path(pre, name, (#[trigger] v[k]).path@)
        &&& forall|i: u64|
            pre.loses_last_tag(name, i) ==> exists|k: int|
                0 <= k < v.len() && v[k].path@ == pre.entry_path(i)
        &&& forall|k1: int, k2: int| 0 <= k1 < k2 < v.len() ==> v[k1].path@ != v[k2].path@
    }

    /// Joins the facts gathered while garbage-collecting a deleted tag's
    /// entries into the operation's contract.
    #[verifier::rlimit(100)]
    #[verifier::spinoff_prover]
    proof fn lemma_clear_tag_finish(
        self,
        pre: TagRegistry,
        mid: TagRegistry,
        ids: Seq<u64>,
        removed: Seq<EntryData>,
        removed_ids: Seq<u64>,
        name: Seq<char>,
        ti: int,
    )
        requires
            pre.wf(),
            0 <= ti < pre.tags@.len(),
            pre.tags@[ti].tag.name@ == name,
            forall|i: u64| ids.contains(i) <==> pre.tag_has(name, i),
            forall|i: u64| #[trigger] ids.contains(i) ==> pre.has_entry(i),
            self.tags@ == mid.tags@,
            mid.entries@ == pre.entries@,
            forall|n: Seq<char>, i: u64| mid.tag_has(n, i) <==> pre.tag_has(n, i) && n != name,
            self.wf(),
            forall|i: u64|
                self.has_entry(i) <==> pre.has_entry(i) && !(ids.contains(i)
                    && pre.loses_last_tag(name, i)),
            removed_ids.len() == removed.len(),
            forall|k: int|
                0 <= k < removed_ids.len() ==> ids.contains(#[trigger] removed_ids[k])
                    && pre.loses_last_tag(name, removed_ids[k]) && removed[k].path@
                    == pre.entry_path(removed_ids[k]),
            forall|k1: int, k2: int|
                0 <= k1 < k2 < removed_ids.len() ==> removed_ids[k1] != removed_ids[k2],
            forall|i: u64|
                ids.contains(i) && pre.loses_last_tag(name, i) ==> removed_ids.contains(i),
        ensures
            pre.tidy() ==> self.tidy(),
            forall|i: u64|
                self.has_entry(i) <==> pre.has_entry(i) && !pre.loses_last_tag(name, i),
            TagRegistry::cleared_entries_ok(pre, name, removed),
    {
        assert forall|i: u64|
            self.has_entry(i) <==> pre.has_entry(i) && !pre.loses_last_tag(name, i) by {
            if pre.loses_last_tag(name, i) {
                assert(ids.contains(i));
            }
        }
        if pre.tidy() {
            assert forall|k: int|
                0 <= k < self.entries@.len() implies self.entry_has_some_tag(
                self.entries@[k].id,
            ) by {
                let id = self.entries@[k].id;
                assert(self.has_entry(id));
                assert(pre.has_entry(id) && !pre.loses_last_tag(name, id));
                let b = choose|b: int| 0 <= b < pre.entries@.len() && pre.entries@[b].id == id;
                assert(pre.entry_has_some_tag(pre.entries@[b].id));
                let t = choose|t: int| 0 <= t < pre.tags@.len() && pre.tags@[t].ids@.contains(id);
                assert(pre.tag_has(pre.tags@[t].tag.name@, id));
                if pre.tags@[t].tag.name@ == name {
                    assert(!pre.loses_last_tag(name, id));
                    let n2 = choose|n2: Seq<char>| pre.tag_has(n2, id) && n2 != name;
                    assert(mid.tag_has(n2, id));
                    let k2 = choose|k2: int|
                        0 <= k2 < mid.tags@.len() && mid.tags@[k2].tag.name@ == n2
                            && mid.tags@[k2].ids@.contains(id);
                    assert(self.entry_has_some_tag(id));
                } else {
                    assert(mid.tag_has(pre.tags@[t].tag.name@, id));
                    let k2 = choose|k2: int|
                        0 <= k2 < mid.tags@.len() && mid.tags@[k2].tag.name@
                            == pre.tags@[t].tag.name@ && mid.tags@[k2].ids@.contains(id);
                    assert(self.entry_has_some_tag(id));
                }
            }
        }
        assert forall|k1: int, k2: int|
            0 <= k1 < k2 < removed.len() implies removed[k1].path@ != removed[k2].path@ by {
            let i1 = removed_ids[k1];
            let i2 = removed_ids[k2];
            assert(ids.contains(i1) && ids.contains(i2));
            assert(pre.has_entry(i1) && pre.has_entry(i2));
            if pre.entry_path(i1) == pre.entry_path(i2) {
                pre.lemma_entry_path_injective(i1, i2);
            }
        }
        assert forall|i: u64|
            pre.loses_last_tag(name, i) implies exists|k: int|
            0 <= k < removed.len() && removed[k].path@ == pre.entry_path(i) by {
            assert(pre.tag_has(name, i));
            assert(ids.contains(i));
            assert(removed_ids.contains(i));
            let k = choose|k: int| 0 <= k < removed_ids.len() && removed_ids[k] == i;
            assert(removed[k].path@ == pre.entry_path(i));
        }
        assert forall|k: int|
            0 <= k < removed.len() implies Self::gc_victim_path(
            pre,
            name,
            (#[trigger] removed[k]).path@,
        ) by {
            let i = removed_ids[k];
            assert(pre.loses_last_tag(name, i) && pre.entry_path(i) == removed[k].path@);
        }
        assert(TagRegistry::cleared_entries_ok(pre, name, removed));
    }

    /// Deletes the tag outright, garbage-collecting every entry that
    /// thereby reaches zero tags, and returns exactly those entries'
    /// data; `None` when no tag of this name exists.
    #[verifier::rlimit(100)]
    #[verifier::spinoff_prover]
    pub fn clear_tag(&mut self, tag: &Tag) -> (r: Option<Vec<EntryData>>)
        requires
            old(self).wf(),
        ensures
            final(self).wf(),
            old(self).tidy() ==> final(self).tidy(),
            final(self).path@ == old(self).path@,
            r is Some <==> old(self).has_tag(tag.name@),
            forall|n: Seq<char>, i: u64|
                final(self).tag_has(n, i) <==> old(self).tag_has(n, i) && n != tag.name@,
            forall|n: Seq<char>|
                n != tag.name@ ==> (final(self).has_tag(n) <==> old(self).has_tag(n)),
            !final(self).has_tag(tag.name@),
            forall|n: Seq<char>|
                final(self).has_tag(n) ==> final(self).tag_color(n) == old(self).tag_color(n),
            forall|i: u64|
                final(self).has_entry(i) <==> old(self).has_entry(i) && !old(self).loses_last_tag(
                    tag.name@,
                    i,
                ),
            forall|i: u64|
                final(self).has_entry(i) ==> final(self).entry_path(i) == old(self).entry_path(i),
            r matches Some(v) ==> TagRegistry::cleared_entries_ok(*old(self), tag.name@, v@),
    {
        let ghost pre = *self;
        match self.find_tag_idx(tag.name()) {
            None => {
                proof {
                    assert forall|n: Seq<char>, i: u64|
                        self.tag_has(n, i) <==> pre.tag_has(n, i) && n != tag.name@ by {
                        if pre.tag_has(tag.name@, i) {
                            assert(pre.has_tag(tag.name@));
                        }
                    }
                }
                None
            },
            Some(ti) => {
                proof {
                    let ii = choose|ii: int|
                        0 <= ii < pre.tags@.len() && pre.tags@[ii].tag.name@ == tag.name@;
                    pre.lemma_tag_idx_unique(ii, ti as int);
                }
                let rec = self.tags.remove(ti);
                let ghost mid = *self;
                proof {
                    assert(mid.tags@ =~= pre.tags@.remove(ti as int));
                    mid.lemma_tag_record_removed(pre, ti as int, tag.name@);
                    assert forall|i: u64|
                        rec.ids@.contains(i) <==> pre.tag_has(tag.name@, i) by {
                        if pre.tag_has(tag.name@, i) {
                            let k = choose|k: int|
                                0 <= k < pre.tags@.len() && pre.tags@[k].tag.name@ == tag.name@
                                    && pre.tags@[k].ids@.contains(i);
                            pre.lemma_tag_idx_unique(k, ti as int);
                        }
                    }
                    assert forall|i: u64| rec.ids@.contains(i) implies pre.has_entry(i) by {
                        let q = choose|q: int| 0 <= q < rec.ids@.len() && rec.ids@[q] == i;
                        assert(pre.tags@[ti as int].ids@[q] == i);
                        assert(pre.has_entry(pre.tags@[ti as int].ids@[q]));
                    }
                }
                let mut removed: Vec<EntryData> = Vec::new();
                let ghost mut removed_ids: Seq<u64> = Seq::empty();
                let m = rec.ids.len();
                let mut p: usize = 0;
                while p < m
                    invariant
                        pre.wf(),
                        0 <= (ti as int) < pre.tags@.len(),
                        pre.tags@[ti as int].tag.name@ == tag.name@,
                        m == rec.ids@.len(),
                        p <= m,
                        forall|a: int, b: int| 0 <= a < b < m ==> rec.ids@[a] != rec.ids@[b],
                        forall|i: u64| rec.ids@.contains(i) <==> pre.tag_has(tag.name@, i),
                        forall|i: u64| #[trigger] rec.ids@.contains(i) ==> pre.has_entry(i),
                        self.tags@ == mid.tags@,
                        self.path@ == pre.path@,
                        mid.entries@ == pre.entries@,
                        forall|n: Seq<char>, i: u64|
                            mid.tag_has(n, i) <==> pre.tag_has(n, i) && n != tag.name@,
                        self.wf(),
                        forall|i: u64|
                            self.has_entry(i) <==> pre.has_entry(i) && !(rec.ids@.take(
                                p as int,
                            ).contains(i) && pre.loses_last_tag(tag.name@, i)),
                        forall|i: u64|
                            self.has_entry(i) ==> self.entry_path(i) == pre.entry_path(i),
                        removed_ids.len() == removed@.len(),
                        forall|k: int|
                            0 <= k < removed_ids.len() ==> rec.ids@.take(p as int).contains(
                                #[trigger] removed_ids[k],
                            ) && pre.loses_last_tag(tag.name@, removed_ids[k]) && removed@[k].path@
                                == pre.entry_path(removed_ids[k]),
                        forall|k1: int, k2: int|
                            0 <= k1 < k2 < removed_ids.len() ==> removed_ids[k1]
                                != removed_ids[k2],
                        forall|i: u64|
                            rec.ids@.take(p as int).contains(i) && pre.loses_last_tag(
                                tag.name@,
                                i,
                            ) ==> removed_ids.contains(i),
                    decreases m - p,
                {
                    let id = rec.ids[p];
                    proof {
                        Self::lemma_take_succ(rec.ids@, p as int);
                        assert(rec.ids@.contains(id));
                        assert(!rec.ids@.take(p as int).contains(id)) by {
                            if rec.ids@.take(p as int).contains(id) {
                                let t0 = rec.ids@.take(p as int);
                                let q = choose|q: int| 0 <= q < t0.len() && t0[q] == id;
                                assert(rec.ids@[q] == rec.ids@[p as int]);
                            }
                        }
                    }
                    if !self.some_tag_contains(id) {
                        proof {
                            assert(pre.loses_last_tag(tag.name@, id)) by {
                                assert forall|n: Seq<char>|
                                    pre.tag_has(n, id) implies n == tag.name@ by {
                                    if n != tag.name@ {
                                        assert(mid.tag_has(n, id));
                                        let k = choose|k: int|
                                            0 <= k < mid.tags@.len() && mid.tags@[k].tag.name@ == n
                                                && mid.tags@[k].ids@.contains(id);
                                        assert(mid.entry_has_some_tag(id));
                                    }
                                }
                            }
                            assert(self.has_entry(id));
                        }
                        let j = match self.find_entry_idx(id) {
                            Some(j) => j,
                            None => {
                                proof {
                                    assert(false);
                                }
                                0
                            },
                        };
                        let ghost st = *self;
                        let ghost prev = removed_ids;
                        proof {
                            let jj = choose|jj: int|
                                0 <= jj < st.entries@.len() && st.entries@[jj].id == id;
                            st.lemma_entry_idx_unique(jj, j as int);
                            assert(!st.entry_has_some_tag(id)) by {
                                if st.entry_has_some_tag(id) {
                                    let k = choose|k: int|
                                        0 <= k < st.tags@.len() && st.tags@[k].ids@.contains(id);
                                    assert(st.tag_has(st.tags@[k].tag.name@, id));
                                }
                            }
                        }
                        let data = self.entries.remove(j);
                        proof {
                            self.lemma_entry_removed(st, j as int, id);
                            assert(st.entry_path(id) == pre.entry_path(id));
                        }
                        removed.push(data.data);
                        proof {
                            removed_ids = prev.push(id);
                            assert(removed_ids.len() == prev.len() + 1);
                            assert(removed_ids[removed_ids.len() - 1] == id);
                            assert forall|k: int|
                                0 <= k < prev.len() implies removed_ids[k] == prev[k] by {}
                            assert forall|i: u64|
                                self.has_entry(i) <==> pre.has_entry(i) && !(rec.ids@.take(
                                    p as int + 1,
                                ).contains(i) && pre.loses_last_tag(tag.name@, i)) by {
                                if self.has_entry(i) {
                                    assert(st.has_entry(i) && i != id);
                                }
                            }
                            assert forall|k: int|
                                0 <= k < removed_ids.len() implies rec.ids@.take(
                                p as int + 1,
                            ).contains(#[trigger] removed_ids[k]) && pre.loses_last_tag(
                                tag.name@,
                                removed_ids[k],
                            ) && removed@[k].path@ == pre.entry_path(removed_ids[k]) by {
                                if k < prev.len() {
                                    assert(removed_ids[k] == prev[k]);
                                    assert(rec.ids@.take(p as int).contains(prev[k]));
                                } else {
                                    assert(removed_ids[k] == id);
                                    assert(removed@[k].path@ == pre.entry_path(id));
                                }
                            }
                            assert forall|i: u64|
                                rec.ids@.take(p as int + 1).contains(i) && pre.loses_last_tag(
                                    tag.name@,
                                    i,
                                ) implies removed_ids.contains(i) by {
                                if i == id {
                                    assert(removed_ids[removed_ids.len() - 1] == id);
                                } else {
                                    assert(rec.ids@.take(p as int).contains(i));
                                    assert(prev.contains(i));
                                    let k = choose|k: int| 0 <= k < prev.len() && prev[k] == i;
                                    assert(removed_ids[k] == i);
                                }
                            }
                            assert forall|k1: int, k2: int|
                                0 <= k1 < k2 < removed_ids.len() implies removed_ids[k1]
                                != removed_ids[k2] by {
                                if k2 == removed_ids.len() - 1 {
                                    assert(removed_ids[k1] == prev[k1]);
                                    assert(rec.ids@.take(p as int).contains(prev[k1]));
                                } else {
                                    assert(removed_ids[k1] == prev[k1] && removed_ids[k2]
                                        == prev[k2]);
                                }
                            }
                        }
                    } else {
                        proof {
                            assert(!pre.loses_last_tag(tag.name@, id)) by {
                                let k = choose|k: int|
                                    0 <= k < self.tags@.len() && self.tags@[k].ids@.contains(id);
                                assert(mid.tag_has(mid.tags@[k].tag.name@, id));
                                assert(pre.tag_has(mid.tags@[k].tag.name@, id)
                                    && mid.tags@[k].tag.name@ != tag.name@);
                            }
                            assert forall|i: u64|
                                self.has_entry(i) <==> pre.has_entry(i) && !(rec.ids@.take(
                                    p as int + 1,
                                ).contains(i) && pre.loses_last_tag(tag.name@, i)) by {
                                if rec.ids@.take(p as int + 1).contains(i) && pre.loses_last_tag(
                                    tag.name@,
                                    i,
                                ) {
                                    assert(i != id);
                                    assert(rec.ids@.take(p as int).contains(i));
                                }
                            }
                            assert forall|k: int|
                                0 <= k < removed_ids.len() implies rec.ids@.take(
                                p as int + 1,
                            ).contains(#[trigger] removed_ids[k]) by {
                                assert(rec.ids@.take(p as int).contains(removed_ids[k]));
                            }
                            assert forall|i: u64|
                                rec.ids@.take(p as int + 1).contains(i) && pre.loses_last_tag(
                                    tag.name@,
                                    i,
                                ) implies removed_ids.contains(i) by {
                                assert(i != id);
                                assert(rec.ids@.take(p as int).contains(i));
                            }
                        }
                    }
                    p = p + 1;
                }
                proof {
                    assert(rec.ids@.take(m as int) =~= rec.ids@);
                    self.lemma_clear_tag_finish(
                        pre,
                        mid,
                        rec.ids@,
                        removed@,
                        removed_ids,
                        tag.name@,
                        ti as int,
                    );
                }
                Some(removed)
            },
        }
    }
}

/// The ids of a vector except `x`, order kept.
fn ids_without(v: &Vec<u64>, x: u64) -> (r: Vec<u64>)
    ensures
        forall|y: u64| r@.contains(y) <==> (v@.contains(y) && y != x),
        (forall|a: int, b: int| 0 <= a < b < v@.len() ==> v@[a] != v@[b]) ==> (forall|
            a: int,
            b: int,
        |
            0 <= a < b < r@.len() ==> r@[a] != r@[b]),
{
    let n = v.len();
    let mut r: Vec<u64> = Vec::new();
    let mut i: usize = 0;
    while i < n
        invariant
            n == v@.len(),
            i <= n,
            forall|y: u64| r@.contains(y) <==> (v@.take(i as int).contains(y) && y != x),
            (forall|a: int, b: int| 0 <= a < b < v@.len() ==> v@[a] != v@[b]) ==> (forall|
                a: int,
                b: int,
            |
                0 <= a < b < r@.len() ==> r@[a] != r@[b]),
        decreases n - i,
    {
        if v[i] != x {
            let ghost before = r@;
            r.push(v[i]);
            proof {
                assert forall|y: u64|
                    r@.contains(y) <==> (v@.take(i as int + 1).contains(y) && y != x) by {
                    if r@.contains(y) {
                        let p = choose|p: int| 0 <= p < r@.len() && r@[p] == y;
                        if p < before.len() {
                            assert(before[p] == y);
                            assert(before.contains(y));
                            let q = choose|q: int|
                                0 <= q < v@.take(i as int).len() && v@.take(i as int)[q] == y;
                            assert(v@.take(i as int + 1)[q] == y);
                            assert(v@.take(i as int + 1).contains(y));
                        } else {
                            assert(y == v@[i as int]);
                            assert(v@.take(i as int + 1)[i as int] == y);
                            assert(v@.take(i as int + 1).contains(y));
                        }
                    }
                    if v@.take(i as int + 1).contains(y) && y != x {
                        let t1 = v@.take(i as int + 1);
                        let q = choose|q: int| 0 <= q < t1.len() && t1[q] == y;
                        if q < i {
                            assert(v@.take(i as int)[q] == y);
                            assert(v@.take(i as int).contains(y));
                            assert(before.contains(y));
                            let p = choose|p: int| 0 <= p < before.len() && before[p] == y;
                            assert(r@[p] == y);
                            assert(r@.contains(y));
                        } else {
                            assert(t1[q] == v@[i as int]);
                            assert(y == v@[i as int]);
                            assert(r@[r@.len() - 1] == y);
                            assert(r@.contains(y));
                        }
                    }
                }
                if forall|a: int, b: int| 0 <= a < b < v@.len() ==> v@[a] != v@[b] {
                    assert forall|a: int, b: int|
                        0 <= a < b < r@.len() implies r@[a] != r@[b] by {
                        if b == r@.len() - 1 {
                            assert(r@[a] == before[a]);
                            assert(before.contains(before[a]));
                            assert(v@.take(i as int).contains(r@[a]));
                            let q = choose|q: int|
                                0 <= q < v@.take(i as int).len() && v@.take(i as int)[q] == r@[a];
                            assert(v@[q] == r@[a]);
                            assert(v@[q] != v@[i as int]);
                        } else {
                            assert(r@[a] == before[a] && r@[b] == before[b]);
                        }
                    }
                }
            }
        } else {
            proof {
                assert forall|y: u64|
                    r@.contains(y) <==> (v@.take(i as int + 1).contains(y) && y != x) by {
                    if r@.contains(y) {
                        assert(v@.take(i as int).contains(y));
                        let q = choose|q: int|
                            0 <= q < v@.take(i as int).len() && v@.take(i as int)[q] == y;
                        assert(v@.take(i as int + 1)[q] == y);
                        assert(v@.take(i as int + 1).contains(y));
                    }
                    if v@.take(i as int + 1).contains(y) && y != x {
                        let t1 = v@.take(i as int + 1);
                        let q = choose|q: int| 0 <= q < t1.len() && t1[q] == y;
                        if q < i {
                            assert(v@.take(i as int)[q] == y);
                            assert(v@.take(i as int).contains(y));
                        } else {
                            assert(t1[q] == v@[i as int]);
                            assert(y == v@[i as int]);
                            assert(y == x);
                        }
                    }
                }
            }
        }
        i = i + 1;
    }
    proof {
        assert(v@.take(n as int) =~= v@);
    }
    r
}

/// The character sequences of a sequence of strings.
pub open spec fn names_view(v: Seq<String>) -> Seq<Seq<char>> {
    Seq::new(v.len(), |k: int| v[k]@)
}

impl TagRegistry {
    /// The ids carrying at least one of the named tags; names that no tag
    /// bears contribute nothing.
    pub open spec fn any_set(self, names: Seq<Seq<char>>) -> Set<u64> {
        Set::new(
            |id: u64| exists|k: int| 0 <= k < names.len() && self.tag_has(names[k], id),
        )
    }

    /// The ids carrying every one of the named tags; an empty name list
    /// yields the empty set, never everything.
    pub open spec fn all_set(self, names: Seq<Seq<char>>) -> Set<u64> {
        if names.len() == 0 {
            Set::empty()
        } else {
            Set::new(
                |id: u64| forall|k: int| 0 <= k < names.len() ==> self.tag_has(names[k], id),
            )
        }
    }

    /// Whether the entry with this id carries the named tag.
    pub fn tag_name_has(&self, name: &str, id: u64) -> (r: bool)
        requires
            self.wf(),
        ensures
            r == self.tag_has(name@, id),
    {
        match self.find_tag_idx(name) {
            Some(i) => {
                let held = contains_u64(&self.tags[i].ids, id);
                proof {
                    if !held && self.tag_has(name@, id) {
                        let k = choose|k: int|
                            0 <= k < self.tags@.len() && self.tags@[k].tag.name@ == name@
                                && self.tags@[k].ids@.contains(id);
                        self.lemma_tag_idx_unique(k, i as int);
                    }
                    if held {
                        assert(self.tags@[i as int].tag.name@ == name@
                            && self.tags@[i as int].ids@.contains(id));
                    }
                }
                held
            },
            None => {
                proof {
                    if self.tag_has(name@, id) {
                        let k = choose|k: int|
                            0 <= k < self.tags@.len() && self.tags@[k].tag.name@ == name@
                                && self.tags@[k].ids@.contains(id);
                        assert(self.has_tag(name@));
                    }
                }
                false
            },
        }
    }

    /// Whether the entry carries at least one of the named tags.
    fn matches_any(&self, names: &Vec<String>, id: u64) -> (r: bool)
        requires
            self.wf(),
        ensures
            r == exists|k: int|
                0 <= k < names@.len() && self.tag_has(names_view(names@)[k], id),
    {
        let n = names.len();
        let mut k: usize = 0;
        while k < n
            invariant
                self.wf(),
                n == names@.len(),
                k <= n,
                forall|q: int| 0 <= q < k ==> !self.tag_has(names_view(names@)[q], id),
            decreases n - k,
        {
            if self.tag_name_has(names[k].as_str(), id) {
                proof {
                    assert(names_view(names@)[k as int] == names@[k as int]@);
                }
                return true;
            }
            k = k + 1;
        }
        false
    }

    /// Whether the entry carries every one of the named tags.
    fn matches_all(&self, names: &Vec<String>, id: u64) -> (r: bool)
        requires
            self.wf(),
        ensures
            r == forall|k: int|
                0 <= k < names@.len() ==> self.tag_has(names_view(names@)[k], id),
    {
        let n = names.len();
        let mut k: usize = 0;
        while k < n
            invariant
                self.wf(),
                n == names@.len(),
                k <= n,
                forall|q: int| 0 <= q < k ==> self.tag_has(names_view(names@)[q], id),
            decreases n - k,
        {
            if !self.tag_name_has(names[k].as_str(), id) {
                proof {
                    assert(names_view(names@)[k as int] == names@[k as int]@);
                }
                return false;
            }
            k = k + 1;
        }
        true
    }

    /// The entries that carry any of the named tags: the union of the
    /// named sets, missing names contributing nothing.
    pub fn list_entries_with_any_tags(&self, names: &Vec<String>) -> (r: Vec<u64>)
        requires
            self.wf(),
        ensures
            forall|id: u64| r@.contains(id) <==> self.any_set(names_view(names@)).contains(id),
            forall|a: int, b: int| 0 <= a < b < r@.len() ==> r@[a] != r@[b],
    {
        let n = self.entries.len();
        let mut r: Vec<u64> = Vec::new();
        let mut j: usize = 0;
        while j < n
            invariant
                self.wf(),
                n == self.entries@.len(),
                j <= n,
                forall|id: u64|
                    r@.contains(id) <==> (exists|q: int|
                        0 <= q < j && self.entries@[q].id == id) && self.any_set(
                        names_view(names@),
                    ).contains(id),
                forall|a: int, b: int| 0 <= a < b < r@.len() ==> r@[a] != r@[b],
            decreases n - j,
        {
            let id = self.entries[j].id;
            if self.matches_any(names, id) {
                let ghost before = r@;
                proof {
                    assert(!before.contains(id)) by {
                        if before.contains(id) {
                            let q = choose|q: int|
                                0 <= q < j && self.entries@[q].id == id;
                            self.lemma_entry_idx_unique(q, j as int);
                        }
                    }
                }
                r.push(id);
                proof {
                    assert forall|x: u64|
                        r@.contains(x) <==> (exists|q: int|
                            0 <= q < j + 1 && self.entries@[q].id == x) && self.any_set(
                            names_view(names@),
                        ).contains(x) by {
                        if r@.contains(x) {
                            let p = choose|p: int| 0 <= p < r@.len() && r@[p] == x;
                            if p < before.len() {
                                assert(before[p] == x);
                                assert(before.contains(x));
                            } else {
                                assert(x == id);
                                assert(self.entries@[j as int].id == x);
                            }
                        }
                        if (exists|q: int| 0 <= q < j + 1 && self.entries@[q].id == x)
                            && self.any_set(names_view(names@)).contains(x) {
                            let q = choose|q: int| 0 <= q < j + 1 && self.entries@[q].id == x;
                            if q < j {
                                assert(before.contains(x));
                                let p = choose|p: int| 0 <= p < before.len() && before[p] == x;
                                assert(r@[p] == x);
                            } else {
                                assert(x == id);
                                assert(r@[r@.len() - 1] == x);
                            }
                        }
                    }
                }
            } else {
                proof {
                    assert forall|x: u64|
                        r@.contains(x) <==> (exists|q: int|
                            0 <= q < j + 1 && self.entries@[q].id == x) && self.any_set(
                            names_view(names@),
                        ).contains(x) by {
                        if (exists|q: int| 0 <= q < j + 1 && self.entries@[q].id == x)
                            && self.any_set(names_view(names@)).contains(x) {
                            let q = choose|q: int| 0 <= q < j + 1 && self.entries@[q].id == x;
                            if q == j {
                                assert(x == id);
                                assert(false);
                            }
                        }
                    }
                }
            }
            j = j + 1;
        }
        proof {
            assert forall|id: u64|
                r@.contains(id) <==> self.any_set(names_view(names@)).contains(id) by {
                if self.any_set(names_view(names@)).contains(id) {
                    let k = choose|k: int|
                        0 <= k < names_view(names@).len() && self.tag_has(
                            names_view(names@)[k],
                            id,
                        );
                    let t = choose|t: int|
                        0 <= t < self.tags@.len() && self.tags@[t].tag.name@ == names_view(
                            names@,
                        )[k] && self.tags@[t].ids@.contains(id);
                    assert(self.has_entry(id));
                    let q = choose|q: int|
                        0 <= q < self.entries@.len() && self.entries@[q].id == id;
                }
            }
        }
        r
    }

    /// The entries that carry all of the named tags: the intersection of
    /// the named sets; an empty name list yields no entries.
    pub fn list_entries_with_all_tags(&self, names: &Vec<String>) -> (r: Vec<u64>)
        requires
            self.wf(),
        ensures
            forall|id: u64| r@.contains(id) <==> self.all_set(names_view(names@)).contains(id),
            forall|a: int, b: int| 0 <= a < b < r@.len() ==> r@[a] != r@[b],
            names@.len() == 0 ==> r@.len() == 0,
    {
        let n = self.entries.len();
        let mut r: Vec<u64> = Vec::new();
        if names.len() == 0 {
            return r;
        }
        let mut j: usize = 0;
        while j < n
            invariant
                self.wf(),
                names@.len() > 0,
                n == self.entries@.len(),
                j <= n,
                forall|id: u64|
                    r@.contains(id) <==> (exists|q: int|
                        0 <= q < j && self.entries@[q].id == id) && self.all_set(
                        names_view(names@),
                    ).contains(id),
                forall|a: int, b: int| 0 <= a < b < r@.len() ==> r@[a] != r@[b],
            decreases n - j,
        {
            let id = self.entries[j].id;
            if self.matches_all(names, id) {
                let ghost before = r@;
                proof {
                    assert(!before.contains(id)) by {
                        if before.contains(id) {
                            let q = choose|q: int|
                                0 <= q < j && self.entries@[q].id == id;
                            self.lemma_entry_idx_unique(q, j as int);
                        }
                    }
                }
                r.push(id);
                proof {
                    assert forall|x: u64|
                        r@.contains(x) <==> (exists|q: int|
                            0 <= q < j + 1 && self.entries@[q].id == x) && self.all_set(
                            names_view(names@),
                        ).contains(x) by {
                        if r@.contains(x) {
                            let p = choose|p: int| 0 <= p < r@.len() && r@[p] == x;
                            if p < before.len() {
                                assert(before[p] == x);
                                assert(before.contains(x));
                            } else {
                                assert(x == id);
                                assert(self.entries@[j as int].id == x);
                            }
                        }
                        if (exists|q: int| 0 <= q < j + 1 && self.entries@[q].id == x)
                            && self.all_set(names_view(names@)).contains(x) {
                            let q = choose|q: int| 0 <= q < j + 1 && self.entries@[q].id == x;
                            if q < j {
                                assert(before.contains(x));
                                let p = choose|p: int| 0 <= p < before.len() && before[p] == x;
                                assert(r@[p] == x);
                            } else {
                                assert(x == id);
                                assert(r@[r@.len() - 1] == x);
                            }
                        }
                    }
                }
            } else {
                proof {
                    assert forall|x: u64|
                        r@.contains(x) <==> (exists|q: int|
                            0 <= q < j + 1 && self.entries@[q].id == x) && self.all_set(
                            names_view(names@),
                        ).contains(x) by {
                        if (exists|q: int| 0 <= q < j + 1 && self.entries@[q].id == x)
                            && self.all_set(names_view(names@)).contains(x) {
                            let q = choose|q: int| 0 <= q < j + 1 && self.entries@[q].id == x;
                            if q == j {
                                assert(x == id);
                                assert(false);
                            }
                        }
                    }
                }
            }
            j = j + 1;
        }
        proof {
            assert forall|id: u64|
                r@.contains(id) <==> self.all_set(names_view(names@)).contains(id) by {
                if self.all_set(names_view(names@)).contains(id) {
                    assert(self.tag_has(names_view(names@)[0], id));
                    let t = choose|t: int|
                        0 <= t < self.tags@.len() && self.tags@[t].tag.name@ == names_view(
                            names@,
                        )[0] && self.tags@[t].ids@.contains(id);
                    assert(self.has_entry(id));
                    let q = choose|q: int|
                        0 <= q < self.entries@.len() && self.entries@[q].id == id;
                }
            }
        }
        r
    }

    /// The tags on the entry with this id, or `None` when it carries
    /// none (or is not tracked).
    pub fn list_entry_tags(&self, id: u64) -> (r: Option<Vec<Tag>>)
        requires
            self.wf(),
        ensures
            r is Some <==> self.entry_has_some_tag(id),
            r matches Some(v) ==> {
                &&& forall|k: int|
                    0 <= k < v@.len() ==> self.tag_has((#[trigger] v@[k]).name@, id) && v@[k].color
                        == self.tag_color(v@[k].name@)
                &&& forall|n: Seq<char>|
                    self.tag_has(n, id) ==> exists|k: int| 0 <= k < v@.len() && v@[k].name@ == n
                &&& forall|k1: int, k2: int|
                    0 <= k1 < k2 < v@.len() ==> v@[k1].name@ != v@[k2].name@
            },
    {
        let n = self.tags.len();
        let mut v: Vec<Tag> = Vec::new();
        let ghost mut picked: Seq<int> = Seq::empty();
        let mut i: usize = 0;
        while i < n
            invariant
                self.wf(),
                n == self.tags@.len(),
                i <= n,
                picked.len() == v@.len(),
                forall|k: int|
                    0 <= k < picked.len() ==> 0 <= #[trigger] picked[k] < i
                        && self.tags@[picked[k]].ids@.contains(id) && v@[k].name@
                        == self.tags@[picked[k]].tag.name@ && v@[k].color
                        == self.tags@[picked[k]].tag.color,
                forall|t: int|
                    0 <= t < i && self.tags@[t].ids@.contains(id) ==> exists|k: int|
                        0 <= k < picked.len() && picked[k] == t,
                forall|k1: int, k2: int|
                    0 <= k1 < k2 < picked.len() ==> picked[k1] != picked[k2],
            decreases n - i,
        {
            if contains_u64(&self.tags[i].ids, id) {
                let ghost pv = picked;
                v.push(self.tags[i].tag.duplicate());
                proof {
                    picked = pv.push(i as int);
                    assert forall|t: int|
                        0 <= t < i + 1 && self.tags@[t].ids@.contains(id) implies exists|k: int|
                        0 <= k < picked.len() && picked[k] == t by {
                        if t < i {
                            let k = choose|k: int| 0 <= k < pv.len() && pv[k] == t;
                            assert(picked[k] == t);
                        } else {
                            assert(picked[picked.len() - 1] == t);
                        }
                    }
                }
            } else {
                proof {
                    assert forall|t: int|
                        0 <= t < i + 1 && self.tags@[t].ids@.contains(id) implies exists|k: int|
                        0 <= k < picked.len() && picked[k] == t by {
                        if t == i {
                            assert(false);
                        }
                    }
                }
            }
            i = i + 1;
        }
        if v.len() == 0 {
            proof {
                if self.entry_has_some_tag(id) {
                    let t = choose|t: int|
                        0 <= t < self.tags@.len() && self.tags@[t].ids@.contains(id);
                    let k = choose|k: int| 0 <= k < picked.len() && picked[k] == t;
                    assert(false);
                }
            }
            None
        } else {
            proof {
                assert(self.tags@[picked[0]].ids@.contains(id));
                assert(self.entry_has_some_tag(id));
                assert forall|k: int|
                    0 <= k < v@.len() implies self.tag_has((#[trigger] v@[k]).name@, id)
                    && v@[k].color == self.tag_color(v@[k].name@) by {
                    let t = picked[k];
                    assert(self.tags@[t].tag.name@ == v@[k].name@
                        && self.tags@[t].ids@.contains(id));
                    let c = choose|c: int|
                        0 <= c < self.tags@.len() && self.tags@[c].tag.name@ == v@[k].name@;
                    self.lemma_tag_idx_unique(c, t);
                }
                assert forall|nm: Seq<char>|
                    self.tag_has(nm, id) implies exists|k: int|
                    0 <= k < v@.len() && v@[k].name@ == nm by {
                    let t = choose|t: int|
                        0 <= t < self.tags@.len() && self.tags@[t].tag.name@ == nm
                            && self.tags@[t].ids@.contains(id);
                    let k = choose|k: int| 0 <= k < picked.len() && picked[k] == t;
                    assert(v@[k].name@ == nm);
                }
                assert forall|k1: int, k2: int|
                    0 <= k1 < k2 < v@.len() implies v@[k1].name@ != v@[k2].name@ by {
                    let t1 = picked[k1];
                    let t2 = picked[k2];
                    if v@[k1].name@ == v@[k2].name@ {
                        self.lemma_tag_idx_unique(t1, t2);
                    }
                }
            }
            Some(v)
        }
    }

    /// All tags, in record order.
    pub fn list_tags(&self) -> (r: Vec<Tag>)
        ensures
            r@.len() == self.tags@.len(),
            forall|k: int|
                0 <= k < r@.len() ==> (#[trigger] r@[k]).name@ == self.tags@[k].tag.name@
                    && r@[k].color == self.tags@[k].tag.color,
    {
        let n = self.tags.len();
        let mut r: Vec<Tag> = Vec::new();
        let mut i: usize = 0;
        while i < n
            invariant
                n == self.tags@.len(),
                i <= n,
                r@.len() == i,
                forall|k: int|
                    0 <= k < i ==> (#[trigger] r@[k]).name@ == self.tags@[k].tag.name@ && r@[k].color
                        == self.tags@[k].tag.color,
            decreases n - i,
        {
            r.push(self.tags[i].tag.duplicate());
            i = i + 1;
        }
        r
    }

    /// The ids of all entries, in record order.
    pub fn list_entries_ids(&self) -> (r: Vec<u64>)
        ensures
            r@.len() == self.entries@.len(),
            forall|k: int| 0 <= k < r@.len() ==> r@[k] == self.entries@[k].id,
    {
        let n = self.entries.len();
        let mut r: Vec<u64> = Vec::new();
        let mut j: usize = 0;
        while j < n
            invariant
                n == self.entries@.len(),
                j <= n,
                r@.len() == j,
                forall|k: int| 0 <= k < j ==> r@[k] == self.entries@[k].id,
            decreases n - j,
        {
            r.push(self.entries[j].id);
            j = j + 1;
        }
        r
    }

    /// The data of all entries, in record order.
    pub fn list_entries(&self) -> (r: Vec<EntryData>)
        ensures
            r@.len() == self.entries@.len(),
            forall|k: int|
                0 <= k < r@.len() ==> (#[trigger] r@[k]).path@ == self.entries@[k].data.path@,
    {
        let n = self.entries.len();
        let mut r: Vec<EntryData> = Vec::new();
        let mut j: usize = 0;
        while j < n
            invariant
                n == self.entries@.len(),
                j <= n,
                r@.len() == j,
                forall|k: int|
                    0 <= k < j ==> (#[trigger] r@[k]).path@ == self.entries@[k].data.path@,
            decreases n - j,
        {
            r.push(self.entries[j].data.duplicate());
            j = j + 1;
        }
        r
    }

    /// Ids and data of all entries, in record order.
    pub fn list_entries_and_ids(&self) -> (r: Vec<(u64, EntryData)>)
        ensures
            r@.len() == self.entries@.len(),
            forall|k: int|
                0 <= k < r@.len() ==> (#[trigger] r@[k]).0 == self.entries@[k].id && r@[k].1.path@
                    == self.entries@[k].data.path@,
    {
        let n = self.entries.len();
        let mut r: Vec<(u64, EntryData)> = Vec::new();
        let mut j: usize = 0;
        while j < n
            invariant
                n == self.entries@.len(),
                j <= n,
                r@.len() == j,
                forall|k: int|
                    0 <= k < j ==> (#[trigger] r@[k]).0 == self.entries@[k].id && r@[k].1.path@
                        == self.entries@[k].data.path@,
            decreases n - j,
        {
            r.push((self.entries[j].id, self.entries[j].data.duplicate()));
            j = j + 1;
        }
        r
    }
}

/// After any sequence of tagging and untagging operations a well-formed,
/// clean registry maps no tag to an empty entry set and no entry to zero
/// tags: the garbage-collection invariant.
pub proof fn lemma_gc_invariant(r: TagRegistry)
    requires
        r.wf(),
        r.tidy(),
    ensures
        forall|n: Seq<char>| #[trigger] r.has_tag(n) ==> r.tag_set(n) != Set::<u64>::empty(),
        forall|j: int|
            0 <= j < r.entries@.len() ==> r.entry_tag_names(#[trigger] r.entries@[j].id)
                != Set::<Seq<char>>::empty(),
{
    assert forall|n: Seq<char>| #[trigger] r.has_tag(n) implies r.tag_set(n)
        != Set::<u64>::empty() by {
        let i = choose|i: int| 0 <= i < r.tags@.len() && r.tags@[i].tag.name@ == n;
        assert(r.tags@[i].ids@.len() > 0);
        let w = r.tags@[i].ids@[0];
        assert(r.tags@[i].ids@.contains(w));
        assert(r.tag_has(n, w));
        assert(r.tag_set(n).contains(w));
        assert(!Set::<u64>::empty().contains(w));
    }
    assert forall|j: int|
        0 <= j < r.entries@.len() implies r.entry_tag_names(#[trigger] r.entries@[j].id)
        != Set::<Seq<char>>::empty() by {
        let id = r.entries@[j].id;
        assert(r.entry_has_some_tag(id));
        let t = choose|t: int| 0 <= t < r.tags@.len() && r.tags@[t].ids@.contains(id);
        assert(r.tag_has(r.tags@[t].tag.name@, id));
        assert(r.entry_tag_names(id).contains(r.tags@[t].tag.name@));
        assert(!Set::<Seq<char>>::empty().contains(r.tags@[t].tag.name@));
    }
}

/// Tagging is idempotent: a second `tag_entry` of the same tag and entry
/// leaves every tag's entry set, in particular its size, unchanged.
pub proof fn lemma_tag_entry_idempotent(
    r0: TagRegistry,
    r1: TagRegistry,
    r2: TagRegistry,
    name: Seq<char>,
    e: u64,
)
    requires
        forall|n: Seq<char>, i: u64| r1.tag_has(n, i) <==> r0.tag_has(n, i) || (n == name && i == e),
        forall|n: Seq<char>, i: u64| r2.tag_has(n, i) <==> r1.tag_has(n, i) || (n == name && i == e),
    ensures
        forall|n: Seq<char>| #[trigger] r2.tag_set(n) == r1.tag_set(n),
{
    assert forall|n: Seq<char>| #[trigger] r2.tag_set(n) == r1.tag_set(n) by {
        assert(r2.tag_set(n) =~= r1.tag_set(n));
    }
}

/// Intersection query as set intersection: the entries carrying all of
/// two tags are exactly those carrying the one and the other.
pub proof fn lemma_all_is_intersection(r: TagRegistry, a: Seq<char>, b: Seq<char>)
    ensures
        r.all_set(seq![a, b]) == r.any_set(seq![a]).intersect(r.any_set(seq![b])),
{
    let names = seq![a, b];
    assert(names[0] == a && names[1] == b);
    assert forall|id: u64|
        r.all_set(names).contains(id) <==> r.any_set(seq![a]).intersect(r.any_set(seq![b])).contains(
            id,
        ) by {
        if r.all_set(names).contains(id) {
            assert(r.tag_has(a, id) && r.tag_has(b, id));
            assert(seq![a][0] == a && seq![b][0] == b);
            assert(r.any_set(seq![a]).contains(id));
            assert(r.any_set(seq![b]).contains(id));
        }
        if r.any_set(seq![a]).contains(id) && r.any_set(seq![b]).contains(id) {
            let k1 = choose|k: int| 0 <= k < seq![a].len() && r.tag_has(seq![a][k], id);
            let k2 = choose|k: int| 0 <= k < seq![b].len() && r.tag_has(seq![b][k], id);
            assert(r.tag_has(a, id) && r.tag_has(b, id));
            assert forall|k: int| 0 <= k < names.len() implies r.tag_has(names[k], id) by {
                if k == 0 {
                    assert(names[k] == a);
                } else {
                    assert(names[k] == b);
                }
            }
        }
    }
    assert(r.all_set(names) =~= r.any_set(seq![a]).intersect(r.any_set(seq![b])));
}

/// The intersection query of no names selects nothing.
pub proof fn lemma_all_of_none_is_empty(r: TagRegistry)
    ensures
        r.all_set(Seq::empty()) == Set::<u64>::empty(),
{
}

} // verus!
