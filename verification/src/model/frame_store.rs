//! The frame store: append-only authoritative storage of frames.
//!
//! Deleting a frame only removes it from the document order; its pixels stay
//! here for undo. After each edit the model collects frames that neither the
//! current order nor any history snapshot references.
use super::frame::{Frame, FrameId, FrameView};
use crate::platform::arc_clone;
use std::collections::HashSet;
use std::sync::Arc;
use vstd::prelude::*;

verus! {

broadcast use vstd::std_specs::hash::group_hash_axioms;

/// A frame view whose buffer matches its dimensions.
pub open spec fn view_wf(v: FrameView) -> bool {
    v.pixels.len() == v.width * v.height * 4
}

/// Sum of the buffer sizes of the frames with the given ids.
pub open spec fn bytes_of(ids: Seq<FrameId>, m: Map<FrameId, FrameView>) -> int
    decreases ids.len(),
{
    if ids.len() == 0 {
        0
    } else {
        bytes_of(ids.drop_last(), m) + m[ids.last()].pixels.len()
    }
}

/// The byte sum only looks at the frames of the listed ids.
proof fn lemma_bytes_of_agree(ids: Seq<FrameId>, m1: Map<FrameId, FrameView>, m2: Map<FrameId, FrameView>)
    requires
        forall|i: int| 0 <= i < ids.len() ==> m1[#[trigger] ids[i]] == m2[ids[i]],
    ensures
        bytes_of(ids, m1) == bytes_of(ids, m2),
    decreases ids.len(),
{
    if ids.len() > 0 {
        lemma_bytes_of_agree(ids.drop_last(), m1, m2);
        assert(m1[ids[ids.len() - 1]] == m2[ids[ids.len() - 1]]);
    }
}

/// Bytes of all frames of a well-formed store, saturated at `u64::MAX`
/// (what `FrameStore::total_memory` returns).
pub open spec fn store_memory(s: FrameStore) -> u64 {
    if bytes_of(s.ids(), s@) <= u64::MAX {
        bytes_of(s.ids(), s@) as u64
    } else {
        u64::MAX
    }
}

/// Frame store. Ids are handed out in increasing order, so the entries stay
/// sorted by id.
#[derive(Debug)]
pub struct FrameStore {
    entries: Vec<(FrameId, Arc<Frame>)>,
    next_id: u64,
}

spec fn entries_map(s: Seq<(FrameId, Arc<Frame>)>) -> Map<FrameId, FrameView>
    decreases s.len(),
{
    if s.len() == 0 {
        Map::empty()
    } else {
        entries_map(s.drop_last()).insert(s.last().0, s.last().1@)
    }
}

spec fn entries_ids(s: Seq<(FrameId, Arc<Frame>)>) -> Seq<FrameId> {
    s.map_values(|e: (FrameId, Arc<Frame>)| e.0)
}

spec fn ascending(s: Seq<(FrameId, Arc<Frame>)>) -> bool {
    forall|i: int, j: int| 0 <= i < j < s.len() ==> s[i].0.0 < s[j].0.0
}

proof fn lemma_entries_map(s: Seq<(FrameId, Arc<Frame>)>)
    requires
        ascending(s),
    ensures
        entries_map(s).dom().finite(),
        entries_map(s).dom().len() == s.len(),
        forall|k: FrameId| #[trigger]
            entries_map(s).dom().contains(k) <==> exists|i: int| 0 <= i < s.len() && s[i].0 == k,
        forall|i: int| 0 <= i < s.len() ==> #[trigger] entries_map(s)[s[i].0] == s[i].1@,
    decreases s.len(),
{
    if s.len() > 0 {
        let t = s.drop_last();
        lemma_entries_map(t);
        assert forall|k: FrameId| #[trigger]
            entries_map(s).dom().contains(k) <==> exists|i: int| 0 <= i < s.len() && s[i].0 == k by {
            if entries_map(s).dom().contains(k) && k != s.last().0 {
                let i = choose|i: int| 0 <= i < t.len() && t[i].0 == k;
                assert(s[i].0 == k);
            }
            if exists|i: int| 0 <= i < s.len() && s[i].0 == k {
                let i = choose|i: int| 0 <= i < s.len() && s[i].0 == k;
                if i < t.len() {
                    assert(t[i].0 == k);
                }
            }
        }
        assert(!entries_map(t).dom().contains(s.last().0)) by {
            if entries_map(t).dom().contains(s.last().0) {
                let i = choose|i: int| 0 <= i < t.len() && t[i].0 == s.last().0;
                assert(s[i].0.0 < s[s.len() - 1].0.0);
            }
        }
        assert forall|i: int| 0 <= i < s.len() implies #[trigger] entries_map(s)[s[i].0] == s[i].1@ by {
            if i < t.len() {
                assert(t[i] == s[i]);
                assert(s[i].0.0 < s[s.len() - 1].0.0);
            }
        }
    }
}

impl View for FrameStore {
    type V = Map<FrameId, FrameView>;

    closed spec fn view(&self) -> Map<FrameId, FrameView> {
        entries_map(self.entries@)
    }
}

impl FrameStore {
    /// Ids of the stored frames in increasing order.
    pub closed spec fn ids(&self) -> Seq<FrameId> {
        entries_ids(self.entries@)
    }

    /// The id that the next insertion hands out.
    pub closed spec fn next(&self) -> u64 {
        self.next_id
    }

    /// The id that the next insertion hands out.
    pub fn next_id(&self) -> (r: u64)
        ensures
            r == self.next(),
    {
        self.next_id
    }

    /// Internal consistency: ids increasing and below `next_id`, buffers
    /// matching their dimensions.
    pub closed spec fn wf(&self) -> bool {
        &&& ascending(self.entries@)
        &&& forall|i: int| 0 <= i < self.entries@.len() ==> self.entries@[i].0.0 < self.next_id
        &&& forall|i: int| 0 <= i < self.entries@.len() ==> view_wf(#[trigger] self.entries@[i].1@)
    }

    /// What a well-formed store guarantees about its view.
    pub proof fn lemma_wf(&self)
        requires
            self.wf(),
        ensures
            self@.dom().finite(),
            self@.dom().len() == self.ids().len(),
            forall|k: FrameId| #[trigger] self@.dom().contains(k) <==> self.ids().contains(k),
            forall|k: FrameId| #[trigger] self@.dom().contains(k) ==> k.0 < self.next(),
            forall|k: FrameId| #[trigger] self@.dom().contains(k) ==> view_wf(self@[k]),
            forall|i: int, j: int| 0 <= i < j < self.ids().len() ==> self.ids()[i].0 < self.ids()[j].0,
    {
        lemma_entries_map(self.entries@);
        assert forall|k: FrameId| #[trigger] self@.dom().contains(k) <==> self.ids().contains(k) by {
            if self@.dom().contains(k) {
                let i = choose|i: int| 0 <= i < self.entries@.len() && self.entries@[i].0 == k;
                assert(self.ids()[i] == k);
            }
            if self.ids().contains(k) {
                let i = choose|i: int| 0 <= i < self.ids().len() && self.ids()[i] == k;
                assert(self.entries@[i].0 == k);
            }
        }
        assert forall|k: FrameId| #[trigger] self@.dom().contains(k) implies k.0 < self.next()
            && view_wf(self@[k]) by {
            let i = choose|i: int| 0 <= i < self.entries@.len() && self.entries@[i].0 == k;
            assert(self@[self.entries@[i].0] == self.entries@[i].1@);
        }
    }

    /// An empty store whose first id is 0.
    pub fn new() -> (r: Self)
        ensures
            r.wf(),
            r@ == Map::<FrameId, FrameView>::empty(),
            r.next() == 0,
            store_memory(r) == 0,
    {
        let r = FrameStore { entries: Vec::new(), next_id: 0 };
        assert(r.ids() =~= Seq::<FrameId>::empty());
        r
    }

    /// An empty store whose first id is `first_id`.
    pub fn starting_at(first_id: u64) -> (r: Self)
        ensures
            r.wf(),
            r@ == Map::<FrameId, FrameView>::empty(),
            r.next() == first_id,
    {
        FrameStore { entries: Vec::new(), next_id: first_id }
    }

    /// Stores a frame under a fresh id, larger than every id handed out so far.
    pub fn insert(&mut self, frame: Frame) -> (id: FrameId)
        requires
            old(self).wf(),
            frame.wf(),
            old(self).next() < u64::MAX,
        ensures
            final(self).wf(),
            id == FrameId(old(self).next()),
            !old(self)@.dom().contains(id),
            final(self)@ == old(self)@.insert(id, frame@),
            final(self).next() == old(self).next() + 1,
            final(self).ids() == old(self).ids().push(id),
            bytes_of(final(self).ids(), final(self)@) == bytes_of(old(self).ids(), old(self)@)
                + frame@.pixels.len(),
    {
        let id = FrameId(self.next_id);
        proof {
            lemma_entries_map(self.entries@);
            if self@.dom().contains(id) {
                let i = choose|i: int| 0 <= i < self.entries@.len() && self.entries@[i].0 == id;
            }
        }
        let ghost old_entries = self.entries@;
        self.entries.push((id, Arc::new(frame)));
        self.next_id = self.next_id + 1;
        proof {
            assert(self.entries@.drop_last() =~= old_entries);
            assert(self.ids() =~= entries_ids(old_entries).push(id));
            let old_ids = entries_ids(old_entries);
            let old_map = entries_map(old_entries);
            assert forall|i: int| 0 <= i < old_ids.len() implies self@[#[trigger] old_ids[i]] == old_map[old_ids[i]] by {
                lemma_entries_map(old_entries);
                assert(old_map.dom().contains(old_ids[i]));
                assert(old_ids[i] != id);
            }
            lemma_bytes_of_agree(old_ids, self@, old_map);
            assert(self.ids().drop_last() =~= old_ids);
        }
        id
    }

    /// The frame stored under `id`.
    pub fn get(&self, id: FrameId) -> (r: Option<Arc<Frame>>)
        requires
            self.wf(),
        ensures
            r is Some <==> self@.dom().contains(id),
            r matches Some(f) ==> f@ == self@[id],
    {
        proof {
            lemma_entries_map(self.entries@);
        }
        let mut lo: usize = 0;
        let mut hi: usize = self.entries.len();
        while lo < hi
            invariant
                self.wf(),
                0 <= lo <= hi <= self.entries@.len(),
                forall|i: int| 0 <= i < lo ==> self.entries@[i].0.0 < id.0,
                forall|i: int| hi <= i < self.entries@.len() ==> self.entries@[i].0.0 > id.0,
            decreases hi - lo,
        {
            let mid = lo + (hi - lo) / 2;
            let k = self.entries[mid].0.0;
            if k == id.0 {
                proof {
                    lemma_entries_map(self.entries@);
                }
                return Some(arc_clone(&self.entries[mid].1));
            } else if k < id.0 {
                lo = mid + 1;
            } else {
                hi = mid;
            }
        }
        proof {
            if self@.dom().contains(id) {
                let i = choose|i: int| 0 <= i < self.entries@.len() && self.entries@[i].0 == id;
            }
        }
        None
    }

    /// Number of stored frames.
    pub fn len(&self) -> (r: usize)
        requires
            self.wf(),
        ensures
            r == self@.dom().len(),
    {
        proof {
            lemma_entries_map(self.entries@);
        }
        self.entries.len()
    }

    /// Whether the store holds no frame.
    pub fn is_empty(&self) -> (r: bool)
        requires
            self.wf(),
        ensures
            r == (self@.dom().len() == 0),
    {
        proof {
            lemma_entries_map(self.entries@);
        }
        self.entries.len() == 0
    }

    /// Bytes held by all stored frames (saturating at `u64::MAX`).
    pub fn total_memory(&self) -> (r: u64)
        requires
            self.wf(),
        ensures
            r == store_memory(*self),
    {
        proof {
            lemma_entries_map(self.entries@);
        }
        let mut total: u128 = 0;
        let mut i: usize = 0;
        let n = self.entries.len();
        while i < n
            invariant
                n == self.entries@.len(),
                0 <= i <= n,
                ascending(self.entries@),
                forall|j: int| 0 <= j < n ==> #[trigger] self@[self.entries@[j].0]
                    == self.entries@[j].1@,
                total == bytes_of(entries_ids(self.entries@).take(i as int), self@),
                total <= i * 0xffff_ffff_ffff_ffffu128,
            decreases n - i,
        {
            let len = self.entries[i].1.memory_size();
            proof {
                assert(entries_ids(self.entries@).take(i + 1).drop_last() =~= entries_ids(
                    self.entries@,
                ).take(i as int));
                assert(self@[self.entries@[i as int].0] == self.entries@[i as int].1@);
            }
            total = total + len as u128;
            i = i + 1;
        }
        proof {
            assert(entries_ids(self.entries@).take(n as int) =~= self.ids());
        }
        if total > u64::MAX as u128 {
            u64::MAX
        } else {
            total as u64
        }
    }

    /// Keeps only the frames whose raw id is in `keep`.
    pub fn retain(&mut self, keep: &HashSet<u64>)
        requires
            old(self).wf(),
        ensures
            final(self).wf(),
            final(self)@ == old(self)@.restrict(Set::new(|k: FrameId| keep@.contains(k.0))),
            final(self).next() == old(self).next(),
    {
        let ghost keep_ids = Set::new(|k: FrameId| keep@.contains(k.0));
        let mut kept: Vec<(FrameId, Arc<Frame>)> = Vec::new();
        let n = self.entries.len();
        let mut i: usize = 0;
        while i < n
            invariant
                n == self.entries@.len(),
                0 <= i <= n,
                self.wf(),
                keep_ids == Set::new(|k: FrameId| keep@.contains(k.0)),
                ascending(kept@),
                forall|j: int| #![trigger kept@[j]]
                    0 <= j < kept@.len() ==> exists|k: int| 0 <= k < i && kept@[j] == self.entries@[k],
                entries_map(kept@) =~= entries_map(self.entries@.take(i as int)).restrict(keep_ids),
            decreases n - i,
        {
            let id = self.entries[i].0;
            let ghost before = kept@;
            proof {
                assert(self.entries@.take(i + 1).drop_last() =~= self.entries@.take(i as int));
                assert(entries_map(self.entries@.take(i + 1)) == entries_map(
                    self.entries@.take(i as int),
                ).insert(id, self.entries@[i as int].1@));
            }
            let keep_it = keep.contains(&id.0);
            proof {
                assert(vstd::std_specs::hash::obeys_key_model::<u64>());
                assert(vstd::std_specs::hash::builds_valid_hashers::<std::hash::RandomState>());
                assert(keep_it == keep@.contains(id.0));
            }
            assert(keep_it == keep_ids.contains(id));
            if keep_it {
                kept.push((id, arc_clone(&self.entries[i].1)));
                proof {
                    assert(kept@.drop_last() =~= before);
                    assert(entries_map(kept@) == entries_map(before).insert(id, self.entries@[i as int].1@));
                    assert forall|j: int| 0 <= j < kept@.len() implies exists|k: int|
                        0 <= k < i + 1 && #[trigger] kept@[j] == self.entries@[k] by {
                        if j == kept@.len() - 1 {
                            assert(kept@[j] == self.entries@[i as int]);
                        } else {
                            assert(kept@[j] == before[j]);
                        }
                    }
                    assert forall|a: int, b: int| 0 <= a < b < kept@.len() implies kept@[a].0.0
                        < kept@[b].0.0 by {
                        if b == kept@.len() - 1 {
                            assert(kept@[a] == before[a]);
                        } else {
                            assert(kept@[a] == before[a]);
                            assert(kept@[b] == before[b]);
                        }
                    }
                }
            }
            proof {
                let m0 = entries_map(self.entries@.take(i as int));
                let v = self.entries@[i as int].1@;
                if keep_it {
                    assert(entries_map(kept@) =~= m0.insert(id, v).restrict(keep_ids));
                } else {
                    assert(kept@ == before);
                    assert(m0.restrict(keep_ids) =~= m0.insert(id, v).restrict(keep_ids));
                }
            }
            i = i + 1;
        }
        proof {
            assert(self.entries@.take(n as int) =~= self.entries@);
            assert forall|j: int| 0 <= j < kept@.len() implies kept@[j].0.0 < self.next_id
                && view_wf(#[trigger] kept@[j].1@) by {
                let k = choose|k: int| 0 <= k < n && kept@[j] == self.entries@[k];
            }
        }
        self.entries = kept;
    }
}

} // verus!
