//! The persisted form of the registry: one byte string holding the tag
//! records, the entry records and the persistence path.
//!
//! The registry is fully rewritten after every mutating operation and
//! fully read at startup; a snapshot that does not decode, or whose
//! contents break the registry's invariants, is rejected whole and the
//! caller falls back to a fresh empty registry.

use vstd::prelude::*;
use crate::registry::EntryRecord;
use crate::registry::TagRecord;
use crate::registry::TagRegistry;
use crate::registry::str_eq;
use crate::color::Color;
use crate::wire::Wire;
use crate::wire::lemma_subrange_split;

verus! {

/// The plain values a snapshot holds.
pub type SnapView = (Seq<((Seq<char>, Color), Seq<u64>)>, Seq<(u64, Seq<char>)>, Seq<char>);

/// The bytes of a snapshot.
pub open spec fn snapshot_enc(v: SnapView) -> Seq<u8> {
    <Vec<TagRecord> as Wire>::enc(v.0) + (<Vec<EntryRecord> as Wire>::enc(v.1)
        + <String as Wire>::enc(v.2))
}

/// Reading a whole snapshot: all three parts, consuming every byte.
pub open spec fn snapshot_dec(b: Seq<u8>) -> Option<SnapView> {
    match <Vec<TagRecord> as Wire>::dec(b, 0) {
        Some((tv, p1)) => match <Vec<EntryRecord> as Wire>::dec(b, p1) {
            Some((ev, p2)) => match <String as Wire>::dec(b, p2) {
                Some((pv, e)) => if e == b.len() {
                    Some((tv, ev, pv))
                } else {
                    None
                },
                None => None,
            },
            None => None,
        },
        None => None,
    }
}

/// Some record in the plain-value entry list has this id.
pub open spec fn snap_id_tracked(ev: Seq<(u64, Seq<char>)>, id: u64) -> bool {
    exists|j: int| 0 <= j < ev.len() && (#[trigger] ev[j]).0 == id
}

/// Some entry record has this id.
pub open spec fn rec_id_tracked(es: Seq<EntryRecord>, id: u64) -> bool {
    exists|j: int| 0 <= j < es.len() && (#[trigger] es[j]).id == id
}

/// The registry invariants, read off a snapshot's plain values.
pub open spec fn snap_wf(
    tv: Seq<((Seq<char>, Color), Seq<u64>)>,
    ev: Seq<(u64, Seq<char>)>,
) -> bool {
    &&& forall|i: int, j: int| 0 <= i < j < tv.len() ==> (#[trigger] tv[i]).0.0 != (
    #[trigger] tv[j]).0.0
    &&& forall|i: int| 0 <= i < tv.len() ==> (#[trigger] tv[i]).1.len() > 0
    &&& forall|i: int, a: int, b: int|
        #![trigger tv[i].1[a], tv[i].1[b]]
        0 <= i < tv.len() && 0 <= a < b < tv[i].1.len() ==> tv[i].1[a] != tv[i].1[b]
    &&& forall|i: int, a: int|
        #![trigger tv[i].1[a]]
        0 <= i < tv.len() && 0 <= a < tv[i].1.len() ==> snap_id_tracked(ev, tv[i].1[a])
    &&& forall|j: int, k: int| 0 <= j < k < ev.len() ==> (#[trigger] ev[j]).0 != (
    #[trigger] ev[k]).0
    &&& forall|j: int, k: int| 0 <= j < k < ev.len() ==> (#[trigger] ev[j]).1 != (
    #[trigger] ev[k]).1
}

impl TagRegistry {
    /// The plain values this registry persists.
    pub open spec fn snapshot_view(self) -> SnapView {
        (self.tags.wire_view(), self.entries.wire_view(), self.path@)
    }

    /// A well-formed registry's snapshot satisfies the snapshot
    /// invariants, and the other way round.
    pub proof fn lemma_wf_snap_wf(self)
        ensures
            self.wf() <==> snap_wf(self.tags.wire_view(), self.entries.wire_view()),
    {
        lemma_records_snap(&self.tags, &self.entries);
        if self.wf() {
            assert forall|i: int, a: int|
                #![trigger self.tags@[i].ids@[a]]
                0 <= i < self.tags@.len() && 0 <= a < self.tags@[i].ids@.len()
                    implies rec_id_tracked(self.entries@, self.tags@[i].ids@[a]) by {
                assert(self.has_entry(self.tags@[i].ids@[a]));
                let j = choose|j: int|
                    0 <= j < self.entries@.len() && self.entries@[j].id == self.tags@[i].ids@[a];
                assert(self.entries@[j].id == self.tags@[i].ids@[a]);
            }
            assert(records_wf(self.tags@, self.entries@));
        }
        if records_wf(self.tags@, self.entries@) {
            assert forall|i: int, a: int|
                0 <= i < self.tags@.len() && 0 <= a < self.tags@[i].ids@.len()
                    implies self.has_entry(#[trigger] self.tags@[i].ids@[a]) by {
                assert(rec_id_tracked(self.entries@, self.tags@[i].ids@[a]));
                let j = choose|j: int|
                    0 <= j < self.entries@.len() && (#[trigger] self.entries@[j]).id
                        == self.tags@[i].ids@[a];
                assert(self.entries@[j].id == self.tags@[i].ids@[a]);
            }
            assert(self.wf());
        }
    }

    /// Serializes the whole registry into one byte string.
    pub fn to_bytes(&self) -> (r: Vec<u8>)
        ensures
            r@ == snapshot_enc(self.snapshot_view()),
            snapshot_dec(r@) == Some(self.snapshot_view()),
    {
        let mut b: Vec<u8> = Vec::new();
        self.tags.encode(&mut b);
        self.entries.encode(&mut b);
        self.path.encode(&mut b);
        proof {
            assert(b@ =~= snapshot_enc(self.snapshot_view()));
            lemma_snapshot_round_trip(
                self.tags.wire_view(),
                self.entries.wire_view(),
                self.path@,
            );
        }
        b
    }

    /// Deserializes a registry from one byte string: `None` when the
    /// bytes are not exactly one snapshot or the snapshot breaks the
    /// registry invariants.
    pub fn from_bytes(b: &Vec<u8>) -> (r: Option<TagRegistry>)
        ensures
            match r {
                Some(reg) => reg.wf() && snapshot_dec(b@) == Some(reg.snapshot_view()),
                None => match snapshot_dec(b@) {
                    Some(v) => !snap_wf(v.0, v.1),
                    None => true,
                },
            },
    {
        let (tags, p1) = match <Vec<TagRecord> as Wire>::decode(b, 0) {
            Some(x) => x,
            None => {
                return None;
            },
        };
        let (entries, p2) = match <Vec<EntryRecord> as Wire>::decode(b, p1) {
            Some(x) => x,
            None => {
                return None;
            },
        };
        let (path, e) = match <String as Wire>::decode(b, p2) {
            Some(x) => x,
            None => {
                return None;
            },
        };
        if e != b.len() {
            return None;
        }
        if !check_snap_wf(&tags, &entries) {
            return None;
        }
        let reg = TagRegistry { tags, entries, path };
        proof {
            reg.lemma_wf_snap_wf();
        }
        Some(reg)
    }
}

/// Decoding a snapshot's bytes yields back exactly its values: the
/// persistence round trip at the byte level.
pub proof fn lemma_snapshot_round_trip(
    tv: Seq<((Seq<char>, Color), Seq<u64>)>,
    ev: Seq<(u64, Seq<char>)>,
    pv: Seq<char>,
)
    requires
        <Vec<TagRecord> as Wire>::wf_v(tv),
        <Vec<EntryRecord> as Wire>::wf_v(ev),
        <String as Wire>::wf_v(pv),
    ensures
        snapshot_dec(snapshot_enc((tv, ev, pv))) == Some((tv, ev, pv)),
{
    let e0 = <Vec<TagRecord> as Wire>::enc(tv);
    let e1 = <Vec<EntryRecord> as Wire>::enc(ev);
    let e2 = <String as Wire>::enc(pv);
    let b = snapshot_enc((tv, ev, pv));
    assert(b =~= e0 + (e1 + e2));
    assert(b.subrange(0, b.len() as int) =~= b);
    lemma_subrange_split(b, 0, e0, e1 + e2);
    <Vec<TagRecord> as Wire>::lemma_dec_enc(b, 0, tv);
    lemma_subrange_split(b, e0.len() as int, e1, e2);
    <Vec<EntryRecord> as Wire>::lemma_dec_enc(b, e0.len() as int, ev);
    <String as Wire>::lemma_dec_enc(b, e0.len() + e1.len() as int, pv);
}

/// The registry invariants over loose record vectors.
pub open spec fn records_wf(ts: Seq<TagRecord>, es: Seq<EntryRecord>) -> bool {
    &&& forall|i: int, j: int|
        0 <= i < j < ts.len() ==> (#[trigger] ts[i]).tag.name@ != (#[trigger] ts[j]).tag.name@
    &&& forall|i: int| 0 <= i < ts.len() ==> (#[trigger] ts[i]).ids@.len() > 0
    &&& forall|i: int, a: int, b: int|
        #![trigger ts[i].ids@[a], ts[i].ids@[b]]
        0 <= i < ts.len() && 0 <= a < b < ts[i].ids@.len() ==> ts[i].ids@[a] != ts[i].ids@[b]
    &&& forall|i: int, a: int|
        #![trigger ts[i].ids@[a]]
        0 <= i < ts.len() && 0 <= a < ts[i].ids@.len() ==> rec_id_tracked(es, ts[i].ids@[a])
    &&& forall|j: int, k: int| 0 <= j < k < es.len() ==> (#[trigger] es[j]).id != (
    #[trigger] es[k]).id
    &&& forall|j: int, k: int|
        0 <= j < k < es.len() ==> (#[trigger] es[j]).data.path@ != (#[trigger] es[k]).data.path@
}

/// The invariants read the same off the records and off their plain
/// values.
pub proof fn lemma_records_snap(tags: &Vec<TagRecord>, entries: &Vec<EntryRecord>)
    ensures
        records_wf(tags@, entries@) <==> snap_wf(tags.wire_view(), entries.wire_view()),
{
    let tv = tags.wire_view();
    let ev = entries.wire_view();
    assert forall|i: int| 0 <= i < tv.len() implies (#[trigger] tv[i]).0.0 == tags@[i].tag.name@
        && tv[i].1 == tags@[i].ids@ by {
        assert(tv[i] == tags@[i].wire_view());
        assert(tags@[i].ids.wire_view() =~= tags@[i].ids@);
    }
    assert forall|j: int| 0 <= j < ev.len() implies (#[trigger] ev[j]).0 == entries@[j].id
        && ev[j].1 == entries@[j].data.path@ by {
        assert(ev[j] == entries@[j].wire_view());
    }
    if records_wf(tags@, entries@) {
        assert forall|i: int, j: int|
            0 <= i < j < tv.len() implies (#[trigger] tv[i]).0.0 != (#[trigger] tv[j]).0.0 by {
            assert(tags@[i].tag.name@ != tags@[j].tag.name@);
        }
        assert forall|i: int| 0 <= i < tv.len() implies (#[trigger] tv[i]).1.len() > 0 by {
            assert(tags@[i].ids@.len() > 0);
        }
        assert forall|i: int, a: int, b: int|
            #![trigger tv[i].1[a], tv[i].1[b]]
            0 <= i < tv.len() && 0 <= a < b < tv[i].1.len() implies tv[i].1[a] != tv[i].1[b] by {
            assert(tags@[i].ids@[a] != tags@[i].ids@[b]);
            assert(tv[i].1[a] == tags@[i].ids@[a]);
            assert(tv[i].1[b] == tags@[i].ids@[b]);
        }
        assert forall|i: int, a: int|
            #![trigger tv[i].1[a]]
            0 <= i < tv.len() && 0 <= a < tv[i].1.len() implies snap_id_tracked(
            ev,
            tv[i].1[a],
        ) by {
            assert(tv[i].1[a] == tags@[i].ids@[a]);
            assert(rec_id_tracked(entries@, tags@[i].ids@[a]));
            let j = choose|j: int|
                0 <= j < entries@.len() && (#[trigger] entries@[j]).id == tags@[i].ids@[a];
            assert(ev[j].0 == tv[i].1[a]);
        }
        assert forall|j: int, k: int|
            0 <= j < k < ev.len() implies (#[trigger] ev[j]).0 != (#[trigger] ev[k]).0 by {
            assert(entries@[j].id != entries@[k].id);
        }
        assert forall|j: int, k: int|
            0 <= j < k < ev.len() implies (#[trigger] ev[j]).1 != (#[trigger] ev[k]).1 by {
            assert(entries@[j].data.path@ != entries@[k].data.path@);
        }
        assert(snap_wf(tv, ev));
    }
    if snap_wf(tv, ev) {
        assert forall|i: int, j: int|
            0 <= i < j < tags@.len() implies (#[trigger] tags@[i]).tag.name@ != (
            #[trigger] tags@[j]).tag.name@ by {
            assert(tv[i].0.0 != tv[j].0.0);
        }
        assert forall|i: int| 0 <= i < tags@.len() implies (#[trigger] tags@[i]).ids@.len()
            > 0 by {
            assert(tv[i].1.len() > 0);
        }
        assert forall|i: int, a: int, b: int|
            #![trigger tags@[i].ids@[a], tags@[i].ids@[b]]
            0 <= i < tags@.len() && 0 <= a < b < tags@[i].ids@.len() implies tags@[i].ids@[a]
            != tags@[i].ids@[b] by {
            assert(tv[i].1[a] == tags@[i].ids@[a]);
            assert(tv[i].1[b] == tags@[i].ids@[b]);
            assert(tv[i].1[a] != tv[i].1[b]);
        }
        assert forall|i: int, a: int|
            #![trigger tags@[i].ids@[a]]
            0 <= i < tags@.len() && 0 <= a < tags@[i].ids@.len() implies rec_id_tracked(
            entries@,
            tags@[i].ids@[a],
        ) by {
            assert(tv[i].1[a] == tags@[i].ids@[a]);
            assert(snap_id_tracked(ev, tv[i].1[a]));
            let j = choose|j: int| 0 <= j < ev.len() && (#[trigger] ev[j]).0 == tv[i].1[a];
            assert(entries@[j].id == tags@[i].ids@[a]);
        }
        assert forall|j: int, k: int|
            0 <= j < k < entries@.len() implies (#[trigger] entries@[j]).id != (
            #[trigger] entries@[k]).id by {
            assert(ev[j].0 != ev[k].0);
        }
        assert forall|j: int, k: int|
            0 <= j < k < entries@.len() implies (#[trigger] entries@[j]).data.path@ != (
            #[trigger] entries@[k]).data.path@ by {
            assert(ev[j].1 != ev[k].1);
        }
        assert(records_wf(tags@, entries@));
    }
}

/// Checks the registry invariants over freshly decoded records.
fn check_snap_wf(tags: &Vec<TagRecord>, entries: &Vec<EntryRecord>) -> (r: bool)
    ensures
        r == snap_wf(tags.wire_view(), entries.wire_view()),
{
    proof {
        lemma_records_snap(tags, entries);
    }
    let nt = tags.len();
    let ne = entries.len();
    let mut i: usize = 0;
    while i < nt
        invariant
            nt == tags@.len(),
            ne == entries@.len(),
            i <= nt,
            forall|a: int, c: int|
                0 <= a < c < i ==> (#[trigger] tags@[a]).tag.name@ != (
                #[trigger] tags@[c]).tag.name@,
            forall|a: int| 0 <= a < i ==> (#[trigger] tags@[a]).ids@.len() > 0,
            forall|a: int, x: int, y: int|
                #![trigger tags@[a].ids@[x], tags@[a].ids@[y]]
                0 <= a < i && 0 <= x < y < tags@[a].ids@.len() ==> tags@[a].ids@[x]
                    != tags@[a].ids@[y],
            forall|a: int, x: int|
                #![trigger tags@[a].ids@[x]]
                0 <= a < i && 0 <= x < tags@[a].ids@.len() ==> rec_id_tracked(
                    entries@,
                    tags@[a].ids@[x],
                ),
        decreases nt - i,
    {
        if tags[i].ids.len() == 0 {
            proof {
                assert(tags@[i as int].ids@.len() == 0);
                lemma_records_snap(tags, entries);
                assert(!records_wf(tags@, entries@));
            }
            return false;
        }
        let mut c: usize = 0;
        while c < i
            invariant
                nt == tags@.len(),
                i < nt,
                c <= i,
                forall|a: int|
                    0 <= a < c ==> (#[trigger] tags@[a]).tag.name@ != tags@[i as int].tag.name@,
            decreases i - c,
        {
            if str_eq(tags[c].tag.name.as_str(), tags[i].tag.name.as_str()) {
                proof {
                    assert(tags@[c as int].tag.name@ == tags@[i as int].tag.name@);
                    lemma_records_snap(tags, entries);
                assert(!records_wf(tags@, entries@));
                }
                return false;
            }
            c = c + 1;
        }
        let ids_n = tags[i].ids.len();
        let mut x: usize = 0;
        while x < ids_n
            invariant
                nt == tags@.len(),
                ne == entries@.len(),
                i < nt,
                ids_n == tags@[i as int].ids@.len(),
                x <= ids_n,
                forall|p: int, q: int|
                    #![trigger tags@[i as int].ids@[p], tags@[i as int].ids@[q]]
                    0 <= p < q < x ==> tags@[i as int].ids@[p] != tags@[i as int].ids@[q],
                forall|p: int|
                    #![trigger tags@[i as int].ids@[p]]
                    0 <= p < x ==> rec_id_tracked(entries@, tags@[i as int].ids@[p]),
            decreases ids_n - x,
        {
            let id = tags[i].ids[x];
            let mut p: usize = 0;
            while p < x
                invariant
                    nt == tags@.len(),
                    i < nt,
                    x < ids_n,
                    ids_n == tags@[i as int].ids@.len(),
                    p <= x,
                    id == tags@[i as int].ids@[x as int],
                    forall|q: int| 0 <= q < p ==> tags@[i as int].ids@[q] != id,
                decreases x - p,
            {
                if tags[i].ids[p] == id {
                    proof {
                        assert(tags@[i as int].ids@[p as int] == tags@[i as int].ids@[x as int]);
                        lemma_records_snap(tags, entries);
                assert(!records_wf(tags@, entries@));
                    }
                    return false;
                }
                p = p + 1;
            }
            let mut found = false;
            let mut j: usize = 0;
            while j < ne
                invariant
                    ne == entries@.len(),
                    j <= ne,
                    found ==> rec_id_tracked(entries@, id),
                    !found ==> forall|a: int| 0 <= a < j ==> (#[trigger] entries@[a]).id != id,
                ensures
                    found ==> rec_id_tracked(entries@, id),
                    !found ==> forall|a: int|
                        0 <= a < entries@.len() ==> (#[trigger] entries@[a]).id != id,
                decreases ne - j,
            {
                if entries[j].id == id {
                    found = true;
                    proof {
                        assert(entries@[j as int].id == id);
                        assert(rec_id_tracked(entries@, id));
                    }
                    break ;
                }
                j = j + 1;
            }
            if !found {
                proof {
                    assert(id == tags@[i as int].ids@[x as int]);
                    lemma_records_snap(tags, entries);
                    if records_wf(tags@, entries@) {
                        assert(0 <= i < tags@.len() && 0 <= x < tags@[i as int].ids@.len());
                        assert(rec_id_tracked(entries@, tags@[i as int].ids@[x as int]));
                        assert(rec_id_tracked(entries@, id));
                        let w = choose|w: int|
                            0 <= w < entries@.len() && (#[trigger] entries@[w]).id == id;
                        assert(false);
                    }
                }
                return false;
            }
            x = x + 1;
        }
        i = i + 1;
    }
    let mut j: usize = 0;
    while j < ne
        invariant
            nt == tags@.len(),
            ne == entries@.len(),
            j <= ne,
            forall|a: int, c: int|
                0 <= a < c < j ==> (#[trigger] entries@[a]).id != (#[trigger] entries@[c]).id,
            forall|a: int, c: int|
                0 <= a < c < j ==> (#[trigger] entries@[a]).data.path@ != (
                #[trigger] entries@[c]).data.path@,
        decreases ne - j,
    {
        let mut c: usize = 0;
        while c < j
            invariant
                ne == entries@.len(),
                j < ne,
                c <= j,
                forall|a: int|
                    0 <= a < c ==> (#[trigger] entries@[a]).id != entries@[j as int].id && (
                    #[trigger] entries@[a]).data.path@ != entries@[j as int].data.path@,
            decreases j - c,
        {
            if entries[c].id == entries[j].id {
                proof {
                    lemma_records_snap(tags, entries);
                assert(!records_wf(tags@, entries@));
                }
                return false;
            }
            if str_eq(entries[c].data.path.as_str(), entries[j].data.path.as_str()) {
                proof {
                    assert(entries@[c as int].data.path@ == entries@[j as int].data.path@);
                    lemma_records_snap(tags, entries);
                assert(!records_wf(tags@, entries@));
                }
                return false;
            }
            c = c + 1;
        }
        j = j + 1;
    }
    proof {
        lemma_records_snap(tags, entries);
        assert(records_wf(tags@, entries@));
    }
    true
}

} // verus!
