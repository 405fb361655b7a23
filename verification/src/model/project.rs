//! The open document: frame order, selection, playhead, store and history.
use super::frame::{Frame, FrameId, FrameView};
use super::frame_store::FrameStore;
use super::history::{History, HistoryEntry, Snapshot, SnapshotView, MAX_HISTORY};
use super::order_ops::{
    ascending_ids, contains_id, copy_ids, filter_ids, first_pos, keep_if_in, sorted_unique,
};
use crate::codec::{decoded_bytes, DecodedAnimation, DecodedFrame};
use crate::errors::AppError;
use std::collections::HashSet;
use std::path::PathBuf;
use std::sync::Arc;
use vstd::prelude::*;
use vstd::string::StringExecFns;

verus! {

broadcast use vstd::std_specs::hash::group_hash_axioms;

/// Memory budget guard: loading is refused when the decoded RGBA total
/// exceeds this many bytes (1.5 GiB).
pub const MEMORY_BUDGET_BYTES: u64 = 1_610_612_736;

/// Every id of `order` is stored, with the dimensions of `canvas`.
pub open spec fn backed(store: Map<FrameId, FrameView>, order: Seq<FrameId>, canvas: (u32, u32)) -> bool {
    forall|i: int| #![trigger order[i]] 0 <= i < order.len() ==> {
        &&& store.dom().contains(order[i])
        &&& store[order[i]].width == canvas.0
        &&& store[order[i]].height == canvas.1
    }
}

/// Every snapshot of the stack has a duplicate-free order backed by the store.
pub open spec fn stack_backed(store: Map<FrameId, FrameView>, s: Seq<HistoryEntry>) -> bool {
    forall|i: int| #![trigger s[i]] 0 <= i < s.len() ==> {
        &&& s[i].state.order@.no_duplicates()
        &&& backed(store, s[i].state.order@, s[i].state.canvas)
    }
}

/// A playhead inside the order (0 when the order is empty).
pub open spec fn view_in_range(v: usize, n: nat) -> bool {
    if n == 0 {
        v == 0
    } else {
        v < n
    }
}

/// The playhead brought inside an order of length `n`.
pub open spec fn clamped_view(v: usize, n: nat) -> usize {
    if n == 0 {
        0
    } else if v < n {
        v
    } else {
        (n - 1) as usize
    }
}

/// `sel` is the increasing list of the elements of `s`.
pub open spec fn sorted_set_of(sel: Seq<FrameId>, s: Set<FrameId>) -> bool {
    ascending_ids(sel) && sel.to_set() == s
}

/// The anchor kept only when it still belongs to `order`.
pub open spec fn live_anchor(anchor: Option<FrameId>, order: Seq<FrameId>) -> Option<FrameId> {
    match anchor {
        Some(a) => if order.contains(a) {
            Some(a)
        } else {
            None
        },
        None => None,
    }
}

/// Where an id of `old_order` moved when the order was rebuilt position by
/// position into `new_order`; other ids stay.
pub open spec fn remap_id(old_order: Seq<FrameId>, new_order: Seq<FrameId>, id: FrameId) -> FrameId {
    if first_pos(old_order, id) < old_order.len() {
        new_order[first_pos(old_order, id)]
    } else {
        id
    }
}

/// The document.
pub struct Project {
    pub source: PathBuf,
    /// Size of the source file, read once at load time.
    pub file_size: u64,
    pub canvas: (u32, u32),
    /// GIF semantics: 0 = loop forever.
    pub loop_count: u16,
    /// Frame sequence (identities).
    pub order: Vec<FrameId>,
    /// Selected ids, ascending by id, without duplicates.
    pub selection: Vec<FrameId>,
    /// Anchor of shift range selection.
    pub anchor: Option<FrameId>,
    /// Playhead (index into `order`).
    pub view_index: usize,
    pub store: FrameStore,
    pub history: History,
}

impl Project {
    /// Consistency of the document: the store is sound, the order is
    /// duplicate-free and stored with the canvas dimensions, the selection
    /// is ascending by id, the selection and the anchor lie in the order, the playhead is in range, every
    /// history snapshot is backed by the store, and the undo stack is within
    /// its depth limit.
    pub open spec fn wf(&self) -> bool {
        &&& self.store.wf()
        &&& self.order@.no_duplicates()
        &&& backed(self.store@, self.order@, self.canvas)
        &&& self.selection@.no_duplicates()
        &&& ascending_ids(self.selection@)
        &&& forall|i: int| #![trigger self.selection@[i]]
            0 <= i < self.selection@.len() ==> self.order@.contains(self.selection@[i])
        &&& (self.anchor matches Some(a) ==> self.order@.contains(a))
        &&& view_in_range(self.view_index, self.order@.len())
        &&& stack_backed(self.store@, self.history.undo_stack())
        &&& stack_backed(self.store@, self.history.redo_stack())
        &&& self.history.undo_stack().len() <= MAX_HISTORY
    }

    /// The skeleton of the document as a snapshot.
    pub open spec fn snap(&self) -> SnapshotView {
        SnapshotView {
            canvas: self.canvas,
            loop_count: self.loop_count,
            order: self.order@,
            selection: self.selection@,
            view_index: self.view_index,
        }
    }

    /// Ids referenced by the order or by a history snapshot.
    pub open spec fn referenced(&self, id: FrameId) -> bool {
        self.history.references(self.order@, id)
    }

    /// Builds a document from a decoding result, numbering its frames from
    /// `first_id` (so documents numbered from disjoint ranges share no frame
    /// id). The memory budget is checked again here (WebP is only checked
    /// here). `file_size` is the length of the source file, as read by the
    /// caller (0 when it cannot be read).
    pub fn from_decoded(source: PathBuf, anim: DecodedAnimation, first_id: u64, file_size: u64) -> (r: Result<
        Self,
        AppError,
    >)
        requires
            first_id + anim.frames@.len() <= u64::MAX,
        ensures
            anim.frames@.len() == 0 ==> (r matches Err(AppError::Decode(m)) && m@ == "no frames decoded"@),
            anim.frames@.len() > 0 && decoded_bytes(anim.frames@) > MEMORY_BUDGET_BYTES ==> (r matches Err(
                AppError::TooLarge { needed, budget },
            ) && budget == MEMORY_BUDGET_BYTES && needed == (if decoded_bytes(anim.frames@)
                <= u64::MAX {
                decoded_bytes(anim.frames@)
            } else {
                u64::MAX as int
            })),
            anim.frames@.len() > 0 && decoded_bytes(anim.frames@) <= MEMORY_BUDGET_BYTES && (exists|i: int|
                0 <= i < anim.frames@.len() && (#[trigger] anim.frames@[i]).rgba@.len() != anim.width
                    * anim.height * 4) ==> (r matches Err(AppError::Decode(m)) && m@
                == "frame buffer size mismatch"@),
            r is Ok <==> anim.frames@.len() > 0 && decoded_bytes(anim.frames@) <= MEMORY_BUDGET_BYTES
                && forall|i: int|
                0 <= i < anim.frames@.len() ==> (#[trigger] anim.frames@[i]).rgba@.len() == anim.width
                    * anim.height * 4,
            r matches Ok(p) ==> {
                &&& p.wf()
                &&& p.source == source
                &&& p.file_size == file_size
                &&& p.canvas == (anim.width, anim.height)
                &&& p.loop_count == anim.loop_count
                &&& p.order@ == Seq::new(
                    anim.frames@.len(),
                    |i: int| FrameId((first_id + i) as u64),
                )
                &&& forall|i: int| #![trigger p.order@[i]]
                    0 <= i < p.order@.len() ==> p.store@[p.order@[i]] == (FrameView {
                        width: anim.width,
                        height: anim.height,
                        duration_ms: anim.frames@[i].duration_ms,
                        pixels: anim.frames@[i].rgba@,
                    })
                &&& p.store@.dom() == p.order@.to_set()
                &&& p.store.next() == first_id + anim.frames@.len()
                &&& p.selection@ == seq![p.order@[0]]
                &&& p.anchor == Some(p.order@[0])
                &&& p.view_index == 0
                &&& p.history.undo_stack().len() == 0
                &&& p.history.redo_stack().len() == 0
            },
    {
        let n = anim.frames.len();
        if n == 0 {
            return Err(AppError::Decode(String::from_str("no frames decoded")));
        }
        let mut total: u128 = 0;
        let mut i: usize = 0;
        while i < n
            invariant
                n == anim.frames@.len(),
                0 <= i <= n,
                total == decoded_bytes(anim.frames@.take(i as int)),
                total <= i * 0xffff_ffff_ffff_ffffu128,
            decreases n - i,
        {
            proof {
                assert(anim.frames@.take(i + 1).drop_last() =~= anim.frames@.take(i as int));
            }
            total = total + anim.frames[i].rgba.len() as u128;
            i = i + 1;
        }
        proof {
            assert(anim.frames@.take(n as int) =~= anim.frames@);
        }
        if total > MEMORY_BUDGET_BYTES as u128 {
            let needed: u64 = if total > u64::MAX as u128 {
                u64::MAX
            } else {
                total as u64
            };
            return Err(AppError::TooLarge { needed, budget: MEMORY_BUDGET_BYTES });
        }
        let width = anim.width;
        let height = anim.height;
        let ghost fs = anim.frames@;
        let mut store = FrameStore::starting_at(first_id);
        let mut order: Vec<FrameId> = Vec::new();
        let mut frames = anim.frames;
        let mut pending: Vec<DecodedFrame> = Vec::new();
        while frames.len() > 0
            invariant
                fs.len() == n,
                pending@.len() + frames@.len() == n,
                frames@ == fs.take(frames@.len() as int),
                forall|k: int| 0 <= k < pending@.len() ==> #[trigger] pending@[k] == fs[n - 1 - k],
            decreases frames@.len(),
        {
            let f = frames.pop().unwrap();
            pending.push(f);
            proof {
                assert(frames@ =~= fs.take(frames@.len() as int));
            }
        }
        proof {
            lemma_image_size(width, height);
        }
        let mut k: usize = 0;
        while k < n
            invariant
                fs.len() == n,
                0 <= k <= n,
                pending@.len() == n - k,
                forall|j: int| 0 <= j < pending@.len() ==> #[trigger] pending@[j] == fs[n - 1 - j],
                first_id + n <= u64::MAX,
                n > 0,
                fs == anim.frames@,
                width == anim.width,
                height == anim.height,
                decoded_bytes(fs) <= MEMORY_BUDGET_BYTES,
                store.wf(),
                store.next() == first_id + k,
                order@ == Seq::new(k as nat, |j: int| FrameId((first_id + j) as u64)),
                store@.dom() == order@.to_set(),
                forall|j: int| #![trigger order@[j]]
                    0 <= j < k ==> store@[order@[j]] == (FrameView {
                        width,
                        height,
                        duration_ms: fs[j].duration_ms,
                        pixels: fs[j].rgba@,
                    }),
                forall|j: int| 0 <= j < k ==> (#[trigger] fs[j]).rgba@.len() == width * height * 4,
                width * height * 4 >= 0,
            decreases n - k,
        {
            let f = pending.pop().unwrap();
            proof {
                assert(f == fs[k as int]);
            }
            match Frame::from_rgba(f.rgba, width, height, f.duration_ms) {
                None => {
                    assert(fs[k as int].rgba@.len() != width * height * 4);
                    return Err(AppError::Decode(String::from_str("frame buffer size mismatch")));
                },
                Some(frame) => {
                    let ghost old_order = order@;
                    let ghost old_store = store@;
                    let id = store.insert(frame);
                    order.push(id);
                    proof {
                        assert(order@ =~= Seq::new((k + 1) as nat, |j: int| FrameId((first_id + j) as u64)));
                        old_order.lemma_push_to_set_commute(id);
                        assert forall|j: int| #![trigger order@[j]] 0 <= j < k + 1 implies store@[order@[j]]
                            == (FrameView {
                            width,
                            height,
                            duration_ms: fs[j].duration_ms,
                            pixels: fs[j].rgba@,
                        }) by {
                            if j < k {
                                assert(order@[j] == old_order[j]);
                                assert(old_order[j] != id);
                            }
                        }
                    }
                },
            }
            k = k + 1;
        }
        let first = order[0];
        let mut selection: Vec<FrameId> = Vec::new();
        selection.push(first);
        let p = Project {
            source,
            file_size,
            canvas: (width, height),
            loop_count: anim.loop_count,
            order,
            selection,
            anchor: Some(first),
            view_index: 0,
            store,
            history: History::new(),
        };
        proof {
            p.store.lemma_wf();
            assert(p.selection@ =~= seq![first]);
            assert(p.order@.contains(first)) by {
                assert(p.order@[0] == first);
            }
            assert forall|a: int, b: int| 0 <= a < b < p.order@.len() implies p.order@[a] != p.order@[b] by {
            }
            assert(backed(p.store@, p.order@, p.canvas)) by {
                assert forall|j: int| 0 <= j < p.order@.len() implies p.store@.dom().contains(
                    #[trigger] p.order@[j],
                ) by {
                    assert(p.order@.to_set().contains(p.order@[j]));
                }
            }
        }
        Ok(p)
    }

    /// Number of frames in the order.
    pub fn frame_count(&self) -> (r: usize)
        ensures
            r == self.order@.len(),
    {
        self.order.len()
    }

    /// The frame at position `index` of the order.
    pub fn frame_at(&self, index: usize) -> (r: Option<Arc<Frame>>)
        requires
            self.store.wf(),
        ensures
            r is Some <==> index < self.order@.len() && self.store@.dom().contains(self.order@[index as int]),
            r matches Some(f) ==> f@ == self.store@[self.order@[index as int]],
    {
        if index < self.order.len() {
            self.store.get(self.order[index])
        } else {
            None
        }
    }

    /// The frame under the playhead.
    pub fn current_frame(&self) -> (r: Option<Arc<Frame>>)
        requires
            self.store.wf(),
        ensures
            self.order@.len() == 0 ==> r is None,
            self.order@.len() > 0 ==> {
                let i = clamped_view(self.view_index, self.order@.len());
                &&& (r is Some <==> self.store@.dom().contains(self.order@[i as int]))
                &&& (r matches Some(f) ==> f@ == self.store@[self.order@[i as int]])
            },
    {
        if self.order.len() == 0 {
            return None;
        }
        let last = self.order.len() - 1;
        let i = if self.view_index < last {
            self.view_index
        } else {
            last
        };
        self.frame_at(i)
    }

    /// Raw ids of the selection as a hash set.
    pub fn selection_set(&self) -> (r: HashSet<u64>)
        ensures
            forall|x: u64| #[trigger] r@.contains(x) <==> self.selection@.contains(FrameId(x)),
    {
        let mut r: HashSet<u64> = HashSet::new();
        let mut i: usize = 0;
        while i < self.selection.len()
            invariant
                0 <= i <= self.selection@.len(),
                forall|x: u64| #[trigger]
                    r@.contains(x) <==> exists|j: int| 0 <= j < i && self.selection@[j] == FrameId(x),
            decreases self.selection@.len() - i,
        {
            r.insert(self.selection[i].0);
            i = i + 1;
        }
        r
    }

    /// The selected ids in the order in which they appear in the document.
    pub fn selection_in_order(&self) -> (r: Vec<FrameId>)
        ensures
            r@ == keep_if_in(self.order@, self.selection@, true),
    {
        filter_ids(self.order.as_slice(), self.selection.as_slice(), true)
    }

    /// The skeleton of the document.
    pub fn snapshot(&self) -> (r: Snapshot)
        ensures
            r@ == self.snap(),
    {
        Snapshot {
            canvas: self.canvas,
            loop_count: self.loop_count,
            order: copy_ids(self.order.as_slice()),
            selection: copy_ids(self.selection.as_slice()),
            view_index: self.view_index,
        }
    }

    /// Repairs the playhead, the selection and the anchor after the order
    /// changed: the playhead is clamped, the selection keeps its ids that
    /// are still in the order (increasing, without duplicates), and the
    /// anchor is dropped when it left the order.
    pub fn clamp_indices(&mut self)
        ensures
            final(self).view_index == clamped_view(old(self).view_index, old(self).order@.len()),
            sorted_set_of(
                final(self).selection@,
                keep_if_in(old(self).selection@, old(self).order@, true).to_set(),
            ),
            final(self).anchor == live_anchor(old(self).anchor, old(self).order@),
            final(self).order == old(self).order,
            final(self).canvas == old(self).canvas,
            final(self).loop_count == old(self).loop_count,
            final(self).store == old(self).store,
            final(self).history == old(self).history,
            final(self).source == old(self).source,
            final(self).file_size == old(self).file_size,
    {
        let n = self.order.len();
        if n == 0 {
            self.view_index = 0;
        } else if self.view_index >= n {
            self.view_index = n - 1;
        }
        let live = filter_ids(self.selection.as_slice(), self.order.as_slice(), true);
        self.selection = sorted_unique(live.as_slice());
        self.anchor = match self.anchor {
            Some(a) => if contains_id(self.order.as_slice(), a) {
                Some(a)
            } else {
                None
            },
            None => None,
        };
    }

    /// Brings back the skeleton of a snapshot (then clamps the indices).
    pub fn restore(&mut self, s: Snapshot)
        ensures
            final(self).canvas == s.canvas,
            final(self).loop_count == s.loop_count,
            final(self).order@ == s.order@,
            final(self).view_index == clamped_view(s.view_index, s.order@.len()),
            sorted_set_of(final(self).selection@, keep_if_in(s.selection@, s.order@, true).to_set()),
            final(self).anchor == live_anchor(old(self).anchor, s.order@),
            final(self).store == old(self).store,
            final(self).history == old(self).history,
            final(self).source == old(self).source,
            final(self).file_size == old(self).file_size,
    {
        self.canvas = s.canvas;
        self.loop_count = s.loop_count;
        self.order = s.order;
        self.selection = s.selection;
        self.view_index = s.view_index;
        self.clamp_indices();
    }

    /// Drops from the store every frame that neither the order nor a history
    /// snapshot references.
    pub fn gc(&mut self)
        requires
            old(self).store.wf(),
        ensures
            final(self).store.wf(),
            final(self).store@ == old(self).store@.restrict(Set::new(|k: FrameId| old(self).referenced(k))),
            final(self).store.next() == old(self).store.next(),
            final(self).order == old(self).order,
            final(self).selection == old(self).selection,
            final(self).anchor == old(self).anchor,
            final(self).view_index == old(self).view_index,
            final(self).canvas == old(self).canvas,
            final(self).loop_count == old(self).loop_count,
            final(self).history == old(self).history,
            final(self).source == old(self).source,
            final(self).file_size == old(self).file_size,
    {
        let mut keep: HashSet<u64> = HashSet::new();
        self.history.referenced_ids(self.order.as_slice(), &mut keep);
        self.store.retain(&keep);
        proof {
            assert(Set::new(|k: FrameId| keep@.contains(k.0)) =~= Set::new(
                |k: FrameId| old(self).referenced(k),
            )) by {
                assert forall|k: FrameId| keep@.contains(k.0) == old(self).referenced(k) by {
                    assert(k == FrameId(k.0));
                }
            }
        }
    }
}

/// `w * h * 4` is a natural number.
pub proof fn lemma_image_size(w: u32, h: u32)
    ensures
        w * h * 4 >= 0,
{
    assert(w * h >= 0) by (nonlinear_arith);
}

} // verus!
