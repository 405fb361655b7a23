//! Undoable edits of a document: snapshot, change, clamp, record, collect.
use super::actions::Edit;
use super::frame::{rgba_len, Frame, FrameId, FrameView};
use super::history::{push_bounded, HistoryEntry, Snapshot, in_some_order};
use super::order_ops::{
    contains_id, filter_ids, keep_if_in, lemma_ascending_distinct, lemma_first_pos, lemma_keep_facts,
    lemma_reorder_perm, lemma_reverse_perm, position_of, rank_in, reorder, reorder_spec, reverse_selected,
    reverse_spec, into_reversed, first_pos, copy_ids,
};
use super::project::{
    backed, clamped_view, live_anchor, remap_id, sorted_set_of, stack_backed, view_in_range, Project,
    MEMORY_BUDGET_BYTES,
};
use super::transform::{
    clamp_crop, clamp_crop_spec, cropped, crop_all, exact_filter, resampled_locally, flip_all, flipped, resize_all, resized_pixels, rotate_all,
    rotated, FlipAxis, RotDir, all_wf,
};
use std::sync::Arc;
use vstd::prelude::*;

verus! {

/// What an edit did to the document.
#[derive(Debug, PartialEq, Eq, Structural)]
pub enum EditOutcome {
    /// Changed and recorded in the undo history.
    Recorded,
    /// Nothing to do (identity edit or empty target): no history entry.
    Unchanged,
    /// A resize whose frames would need this many bytes, over the budget.
    OverBudget(u64),
}

/// `n` fresh ids counted from `next`.
pub open spec fn fresh_ids(next: u64, n: nat) -> Seq<FrameId> {
    Seq::new(n, |i: int| FrameId((next + i) as u64))
}

/// The order after a duration change: every listed id is replaced, position
/// by position, by the next fresh id.
pub open spec fn duration_order(order: Seq<FrameId>, ids: Seq<FrameId>, next: u64) -> Seq<FrameId> {
    Seq::new(
        order.len(),
        |i: int|
            if ids.contains(order[i]) {
                FrameId((next + rank_in(order, ids, i)) as u64)
            } else {
                order[i]
            },
    )
}

/// Canvas and pixel transforms, which rebuild every frame.
pub open spec fn is_transform(e: Edit) -> bool {
    match e {
        Edit::Crop { .. } | Edit::Resize { .. } | Edit::RotateLeft | Edit::RotateRight | Edit::FlipH
        | Edit::FlipV => true,
        _ => false,
    }
}

/// The canvas after an edit.
pub open spec fn edited_canvas(canvas: (u32, u32), e: Edit) -> (u32, u32) {
    match e {
        Edit::Crop { x, y, w, h } => {
            let r = clamp_crop_spec(canvas, x, y, w, h);
            (r.2, r.3)
        },
        Edit::Resize { width, height, .. } => (width, height),
        Edit::RotateLeft | Edit::RotateRight => (canvas.1, canvas.0),
        _ => canvas,
    }
}

/// The loop count after an edit (0 = forever, 1 = once).
pub open spec fn edited_loop(loop_count: u16, e: Edit) -> u16 {
    match e {
        Edit::SetLoop { infinite } => if infinite {
            0
        } else {
            1
        },
        _ => loop_count,
    }
}

/// Number of frames an edit adds to the store.
pub open spec fn inserted(p: Project, e: Edit) -> int {
    match e {
        Edit::SetDuration { ids, .. } => keep_if_in(p.order@, ids@, true).len() as int,
        _ => if is_transform(e) {
            p.order@.len() as int
        } else {
            0
        },
    }
}

/// The frame order after an edit.
pub open spec fn edited_order(p: Project, e: Edit) -> Seq<FrameId> {
    match e {
        Edit::DeleteFrames { ids } => keep_if_in(p.order@, ids@, false),
        Edit::ReverseSelected => reverse_spec(p.order@, p.selection@),
        Edit::Reorder { moved, before } => reorder_spec(p.order@, moved@, before),
        Edit::SetDuration { ids, .. } => duration_order(p.order@, ids@, p.store.next()),
        Edit::SetLoop { .. } => p.order@,
        _ => fresh_ids(p.store.next(), p.order@.len()),
    }
}

/// The content of the frame that replaces `v` under an edit other than a
/// resize (see `transform_of`).
pub open spec fn transformed(e: Edit, canvas: (u32, u32), v: FrameView) -> FrameView {
    match e {
        Edit::SetDuration { ms, .. } => FrameView { duration_ms: ms, ..v },
        Edit::Crop { x, y, w, h } => {
            let r = clamp_crop_spec(canvas, x, y, w, h);
            FrameView {
                width: r.2,
                height: r.3,
                duration_ms: v.duration_ms,
                pixels: cropped(v.pixels, v.width as int, r.0 as int, r.1 as int, r.2 as int, r.3 as int),
            }
        },
        Edit::RotateLeft => FrameView {
            width: v.height,
            height: v.width,
            duration_ms: v.duration_ms,
            pixels: rotated(v, RotDir::Left),
        },
        Edit::RotateRight => FrameView {
            width: v.height,
            height: v.width,
            duration_ms: v.duration_ms,
            pixels: rotated(v, RotDir::Right),
        },
        Edit::FlipH => FrameView { pixels: flipped(v, FlipAxis::Horizontal), ..v },
        Edit::FlipV => FrameView { pixels: flipped(v, FlipAxis::Vertical), ..v },
        _ => v,
    }
}

/// `nv` is the frame that replaces `v` under an edit: exactly
/// `transformed` for all edits but a resize; a resize gives the requested
/// size, keeps the duration, resamples locally (`resampled_locally`), and
/// gives the resampled pixels where the filter computes them exactly
/// (`exact_filter`).
pub open spec fn transform_of(e: Edit, canvas: (u32, u32), v: FrameView, nv: FrameView) -> bool {
    match e {
        Edit::Resize { width, height, filter } => {
            &&& nv.width == width
            &&& nv.height == height
            &&& nv.duration_ms == v.duration_ms
            &&& nv.pixels.len() == rgba_len(width, height)
            &&& resampled_locally(v.pixels, v.width, v.height, nv.pixels, width, height, filter)
            &&& exact_filter(filter) ==> nv.pixels == resized_pixels(v.pixels, v.width, v.height, width, height, filter)
        },
        _ => nv == transformed(e, canvas, v),
    }
}

/// `q` is `p` with its frames moved to the fresh ids `start`, `start + 1`,
/// ... position by position: same frames in the same order, the selection
/// and the anchor following their frames, and only the new ids stored.
pub open spec fn renumbered(p: Project, start: u64, q: Project) -> bool {
    &&& q.order@ == fresh_ids(start, p.order@.len())
    &&& forall|i: int| #![trigger q.order@[i]] 0 <= i < q.order@.len() ==> q.store@[q.order@[i]] == p.store@[p.order@[i]]
    &&& q.store@.dom() == q.order@.to_set()
    &&& q.store.next() == start + p.order@.len()
    &&& sorted_set_of(q.selection@, p.selection@.map_values(|id: FrameId| remap_id(p.order@, q.order@, id)).to_set())
    &&& q.anchor == match p.anchor {
        Some(a) => Some(remap_id(p.order@, q.order@, a)),
        None => None,
    }
    &&& q.view_index == p.view_index
    &&& q.canvas == p.canvas
    &&& q.loop_count == p.loop_count
    &&& q.history == p.history
    &&& q.source == p.source
    &&& q.file_size == p.file_size
}

/// Bytes a resize to `w` x `h` would need for `n` frames.
pub open spec fn resize_projected(n: nat, w: u32, h: u32) -> int {
    n * w * h * 4
}

/// A resize refused by the memory budget.
pub open spec fn over_budget(p: Project, e: Edit) -> bool {
    match e {
        Edit::Resize { width, height, .. } => width != 0 && height != 0 && (width, height) != p.canvas
            && resize_projected(p.order@.len(), width, height) > MEMORY_BUDGET_BYTES,
        _ => false,
    }
}

/// Edits that leave the document unchanged and are not recorded: empty
/// targets, identity permutations and identity transforms (and edits whose
/// new frames would not fit in the id space).
pub open spec fn skipped(p: Project, e: Edit) -> bool {
    ||| match e {
        Edit::DeleteFrames { ids } => ids@.len() == 0,
        Edit::ReverseSelected => p.selection@.len() < 2,
        Edit::Reorder { moved, .. } => moved@.len() == 0,
        Edit::SetDuration { ids, .. } => ids@.len() == 0,
        Edit::Crop { x, y, w, h } => clamp_crop_spec(p.canvas, x, y, w, h) == (0u32, 0u32, p.canvas.0, p.canvas.1),
        Edit::Resize { width, height, .. } => width == 0 || height == 0 || (width, height) == p.canvas,
        _ => false,
    }
    ||| p.store.next() + inserted(p, e) > u64::MAX
}

/// Edits that rebuild frames under new ids (selection and anchor follow the
/// frames to their new ids).
pub open spec fn remaps(e: Edit) -> bool {
    is_transform(e) || e is SetDuration
}

/// The id an old id maps to when its frame is rebuilt.
pub open spec fn follow(p: Project, q: Project, id: FrameId) -> FrameId {
    remap_id(p.order@, q.order@, id)
}

/// The undo stack got the edit with the pre-edit snapshot; redo was cleared.
pub open spec fn undo_recorded(p: Project, e: Edit, q: Project) -> bool {
    let u = q.history.undo_stack();
    &&& u.len() > 0
    &&& u.last().edit == e
    &&& u.last().state@ == p.snap()
    &&& u == push_bounded(p.history.undo_stack(), u.last())
    &&& q.history.redo_stack().len() == 0
}

/// The document after a recorded edit.
pub open spec fn recorded_post(p: Project, e: Edit, q: Project) -> bool {
    &&& q.source == p.source
    &&& q.file_size == p.file_size
    &&& q.canvas == edited_canvas(p.canvas, e)
    &&& q.loop_count == edited_loop(p.loop_count, e)
    &&& q.order@ == edited_order(p, e)
    &&& q.view_index == clamped_view(p.view_index, q.order@.len())
    &&& if remaps(e) {
        &&& sorted_set_of(
            q.selection@,
            p.selection@.map_values(|id: FrameId| follow(p, q, id)).to_set(),
        )
        &&& q.anchor == match p.anchor {
            Some(a) => Some(follow(p, q, a)),
            None => None,
        }
    } else {
        &&& sorted_set_of(q.selection@, keep_if_in(p.selection@, q.order@, true).to_set())
        &&& q.anchor == live_anchor(p.anchor, q.order@)
    }
    &&& q.store.next() == p.store.next() + inserted(p, e)
    &&& q.store@.dom() == Set::new(|k: FrameId| q.referenced(k))
    &&& forall|k: FrameId| #[trigger]
        q.store@.dom().contains(k) && p.store@.dom().contains(k) ==> q.store@[k] == p.store@[k]
    &&& forall|i: int| #![trigger q.order@[i]]
        0 <= i < q.order@.len() && !p.store@.dom().contains(q.order@[i]) ==> transform_of(
            e,
            p.canvas,
            p.store@[p.order@[i]],
            q.store@[q.order@[i]],
        )
    &&& undo_recorded(p, e, q)
}

/// What `Project::edit` does.
pub open spec fn edit_post(p: Project, e: Edit, q: Project, r: EditOutcome) -> bool {
    if over_budget(p, e) {
        r == EditOutcome::OverBudget(saturate(resize_projected(p.order@.len(), e->Resize_width, e->Resize_height)))
            && q == p
    } else if skipped(p, e) {
        r == EditOutcome::Unchanged && q == p
    } else {
        r == EditOutcome::Recorded && recorded_post(p, e, q)
    }
}


/// An intermediate document after the change itself and before recording:
/// sound store extending the old one, duplicate-free order stored with the
/// canvas dimensions, history untouched.
pub open spec fn stage_ok(p: Project, s: Project) -> bool {
    &&& s.store.wf()
    &&& s.order@.no_duplicates()
    &&& backed(s.store@, s.order@, s.canvas)
    &&& p.store@.submap_of(s.store@)
    &&& s.store.next() >= p.store.next()
    &&& s.history == p.history
    &&& s.source == p.source
    &&& s.file_size == p.file_size
}

proof fn lemma_backed_grow(m: Map<FrameId, FrameView>, m2: Map<FrameId, FrameView>, o: Seq<FrameId>, c: (u32, u32))
    requires
        backed(m, o, c),
        m.submap_of(m2),
    ensures
        backed(m2, o, c),
{
    assert forall|i: int| 0 <= i < o.len() implies m2.dom().contains(#[trigger] o[i]) && m2[o[i]].width == c.0
        && m2[o[i]].height == c.1 by {
        assert(m.dom().contains(o[i]));
    }
}

proof fn lemma_stack_grow(m: Map<FrameId, FrameView>, m2: Map<FrameId, FrameView>, s: Seq<HistoryEntry>)
    requires
        stack_backed(m, s),
        m.submap_of(m2),
    ensures
        stack_backed(m2, s),
{
    assert forall|i: int| 0 <= i < s.len() implies backed(m2, (#[trigger] s[i]).state.order@, s[i].state.canvas) by {
        lemma_backed_grow(m, m2, s[i].state.order@, s[i].state.canvas);
    }
}

/// Renumbering the listed ids with fresh ids keeps the order duplicate-free.
proof fn lemma_duration_order_distinct(o: Seq<FrameId>, ids: Seq<FrameId>, next0: u64)
    requires
        o.no_duplicates(),
        forall|i: int| 0 <= i < o.len() ==> (#[trigger] o[i]).0 < next0,
        next0 + keep_if_in(o, ids, true).len() <= u64::MAX,
    ensures
        duration_order(o, ids, next0).no_duplicates(),
{
    let d = duration_order(o, ids, next0);
    assert forall|a: int, b: int| 0 <= a < b < d.len() implies d[a] != d[b] by {
        let ma = ids.contains(o[a]);
        let mb = ids.contains(o[b]);
        super::order_ops::lemma_filter_prefix_len(o, ids, true, a);
        super::order_ops::lemma_filter_prefix_len(o, ids, true, b);
        if ma && mb {
            super::order_ops::lemma_filter_prefix_len(o.take(b), ids, true, a + 1);
            assert(o.take(b).take(a + 1) =~= o.take(a + 1));
            assert(o.take(a + 1) =~= o.take(a).push(o[a]));
            o.take(a).lemma_filter_push(o[a], |x: FrameId| ids.contains(x) == true);
            assert(rank_in(o, ids, a) + 1 <= rank_in(o, ids, b));
            assert(d[a].0 == next0 + rank_in(o, ids, a));
            assert(d[b].0 == next0 + rank_in(o, ids, b));
        } else if ma && !mb {
            assert(d[b] == o[b]);
            assert(d[a].0 == next0 + rank_in(o, ids, a));
        } else if !ma && mb {
            assert(d[a] == o[a]);
            assert(d[b].0 == next0 + rank_in(o, ids, b));
        } else {
            assert(d[a] == o[a]);
            assert(d[b] == o[b]);
        }
    }
}

/// What the change itself did, before recording: the new canvas, loop, order
/// and store, with selection and anchor either untouched (the order was only
/// permuted or filtered) or following the frames to their new ids.
pub open spec fn staged(p: Project, e: Edit, s: Project) -> bool {
    &&& stage_ok(p, s)
    &&& s.canvas == edited_canvas(p.canvas, e)
    &&& s.loop_count == edited_loop(p.loop_count, e)
    &&& s.order@ == edited_order(p, e)
    &&& s.view_index == p.view_index
    &&& s.store.next() == p.store.next() + inserted(p, e)
    &&& if remaps(e) {
        &&& s.order@.len() == p.order@.len()
        &&& s.selection@ == p.selection@.map_values(|id: FrameId| remap_id(p.order@, s.order@, id))
        &&& s.anchor == match p.anchor {
            Some(a) => Some(remap_id(p.order@, s.order@, a)),
            None => None,
        }
        &&& forall|i: int| #![trigger s.order@[i]]
            0 <= i < s.order@.len() && !p.store@.dom().contains(s.order@[i]) ==> transform_of(
                e,
                p.canvas,
                p.store@[p.order@[i]],
                s.store@[s.order@[i]],
            )
    } else {
        &&& s.selection == p.selection
        &&& s.anchor == p.anchor
        &&& forall|x: FrameId| #[trigger] s.order@.contains(x) ==> p.order@.contains(x)
    }
}

/// What recording does to a staged document `s`, giving `q`.
pub open spec fn finished(p: Project, e: Edit, s: Project, q: Project) -> bool {
    &&& undo_recorded(p, e, q)
    &&& q.store@.dom() == Set::new(|k: FrameId| q.referenced(k))
    &&& forall|k: FrameId| #[trigger]
        q.store@.dom().contains(k) ==> s.store@.dom().contains(k) && q.store@[k] == s.store@[k]
    &&& q.store.next() == s.store.next()
    &&& q.order == s.order
    &&& q.canvas == s.canvas
    &&& q.loop_count == s.loop_count
    &&& q.source == s.source
    &&& q.file_size == s.file_size
    &&& q.view_index == clamped_view(s.view_index, s.order@.len())
    &&& sorted_set_of(q.selection@, keep_if_in(s.selection@, s.order@, true).to_set())
    &&& q.anchor == live_anchor(s.anchor, s.order@)
}

/// An order whose ids all occur in a backed order is backed too.
proof fn lemma_backed_sub(m: Map<FrameId, FrameView>, o: Seq<FrameId>, o2: Seq<FrameId>, c: (u32, u32))
    requires
        backed(m, o, c),
        forall|x: FrameId| #[trigger] o2.contains(x) ==> o.contains(x),
    ensures
        backed(m, o2, c),
{
    assert forall|i: int| 0 <= i < o2.len() implies m.dom().contains(#[trigger] o2[i]) && m[o2[i]].width == c.0
        && m[o2[i]].height == c.1 by {
        assert(o2.contains(o2[i]));
        let j = choose|j: int| 0 <= j < o.len() && o[j] == o2[i];
        assert(o[j] == o2[i]);
    }
}

/// Pushing a backed snapshot keeps the stack backed.
proof fn lemma_stack_push(m: Map<FrameId, FrameView>, u: Seq<HistoryEntry>, e: HistoryEntry)
    requires
        stack_backed(m, u),
        e.state.order@.no_duplicates(),
        backed(m, e.state.order@, e.state.canvas),
    ensures
        stack_backed(m, push_bounded(u, e)),
{
    let v = push_bounded(u, e);
    assert forall|i: int| 0 <= i < v.len() implies (#[trigger] v[i]).state.order@.no_duplicates() && backed(
        m,
        v[i].state.order@,
        v[i].state.canvas,
    ) by {
        if u.len() + 1 > super::history::MAX_HISTORY {
            if i + 1 < u.len() {
                assert(v[i] == u[i + 1]);
            } else {
                assert(v[i] == e);
            }
        } else {
            if i < u.len() {
                assert(v[i] == u[i]);
            } else {
                assert(v[i] == e);
            }
        }
    }
}

/// Collection keeps exactly the referenced frames when the order and all
/// snapshots are backed, and they stay backed.
proof fn lemma_gc_keeps(q: Project, m2: Map<FrameId, FrameView>)
    requires
        backed(q.store@, q.order@, q.canvas),
        stack_backed(q.store@, q.history.undo_stack()),
        stack_backed(q.store@, q.history.redo_stack()),
        m2 == q.store@.restrict(Set::new(|k: FrameId| q.referenced(k))),
    ensures
        m2.dom() == Set::new(|k: FrameId| q.referenced(k)),
        backed(m2, q.order@, q.canvas),
        stack_backed(m2, q.history.undo_stack()),
        stack_backed(m2, q.history.redo_stack()),
{
    let refs = Set::new(|k: FrameId| q.referenced(k));
    let u = q.history.undo_stack();
    let d = q.history.redo_stack();
    assert forall|k: FrameId| #[trigger] refs.contains(k) implies q.store@.dom().contains(k) by {
        if q.order@.contains(k) {
            let i = choose|i: int| 0 <= i < q.order@.len() && q.order@[i] == k;
            assert(q.order@[i] == k);
        } else if in_some_order(u, k) {
            let i = choose|i: int| 0 <= i < u.len() && (#[trigger] u[i]).state.order@.contains(k);
            let o = u[i].state.order@;
            let j = choose|j: int| 0 <= j < o.len() && o[j] == k;
            assert(o[j] == k);
        } else {
            assert(in_some_order(d, k));
            let i = choose|i: int| 0 <= i < d.len() && (#[trigger] d[i]).state.order@.contains(k);
            let o = d[i].state.order@;
            let j = choose|j: int| 0 <= j < o.len() && o[j] == k;
            assert(o[j] == k);
        }
    }
    assert(m2.dom() =~= refs);
    assert forall|i: int| 0 <= i < q.order@.len() implies m2.dom().contains(#[trigger] q.order@[i])
        && m2[q.order@[i]].width == q.canvas.0 && m2[q.order@[i]].height == q.canvas.1 by {
        assert(q.order@.contains(q.order@[i]));
        assert(refs.contains(q.order@[i]));
    }
    assert forall|i: int| 0 <= i < u.len() implies (#[trigger] u[i]).state.order@.no_duplicates() && backed(
        m2,
        u[i].state.order@,
        u[i].state.canvas,
    ) by {
        let o = u[i].state.order@;
        assert forall|j: int| 0 <= j < o.len() implies m2.dom().contains(#[trigger] o[j]) && m2[o[j]].width
            == u[i].state.canvas.0 && m2[o[j]].height == u[i].state.canvas.1 by {
            assert(o.contains(o[j]));
            assert(in_some_order(u, o[j]));
            assert(refs.contains(o[j]));
        }
    }
    assert forall|i: int| 0 <= i < d.len() implies (#[trigger] d[i]).state.order@.no_duplicates() && backed(
        m2,
        d[i].state.order@,
        d[i].state.canvas,
    ) by {
        let o = d[i].state.order@;
        assert forall|j: int| 0 <= j < o.len() implies m2.dom().contains(#[trigger] o[j]) && m2[o[j]].width
            == d[i].state.canvas.0 && m2[o[j]].height == d[i].state.canvas.1 by {
            assert(o.contains(o[j]));
            assert(in_some_order(d, o[j]));
            assert(refs.contains(o[j]));
        }
    }
}

/// A recorded edit: the staged change followed by recording gives the
/// documented result.
proof fn lemma_recorded(p: Project, e: Edit, s: Project, q: Project)
    requires
        p.wf(),
        staged(p, e, s),
        finished(p, e, s, q),
    ensures
        recorded_post(p, e, q),
{
    assert(q.order@ == s.order@);
    if remaps(e) {
        let f = |id: FrameId| remap_id(p.order@, s.order@, id);
        let g = |id: FrameId| follow(p, q, id);
        assert(f =~= g);
        assert forall|i: int| 0 <= i < s.selection@.len() implies s.order@.contains(#[trigger] s.selection@[i]) by {
            let id = p.selection@[i];
            assert(p.order@.contains(id));
            super::order_ops::lemma_first_pos(p.order@, id);
            assert(s.order@[first_pos(p.order@, id)] == s.selection@[i]);
        }
        lemma_keep_facts(s.selection@, s.order@, true);
        assert(keep_if_in(s.selection@, s.order@, true).to_set() =~= s.selection@.to_set()) by {
            assert forall|x: FrameId| s.selection@.contains(x) implies s.order@.contains(x) by {
                let i = choose|i: int| 0 <= i < s.selection@.len() && s.selection@[i] == x;
                assert(s.order@.contains(s.selection@[i]));
            }
        }
        if let Some(a) = p.anchor {
            assert(p.order@.contains(a));
            super::order_ops::lemma_first_pos(p.order@, a);
            assert(s.order@[first_pos(p.order@, a)] == remap_id(p.order@, s.order@, a));
            assert(s.order@.contains(remap_id(p.order@, s.order@, a)));
        }
    }
    assert forall|k: FrameId| #[trigger]
        q.store@.dom().contains(k) && p.store@.dom().contains(k) implies q.store@[k] == p.store@[k] by {
        assert(s.store@.dom().contains(k));
    }
    assert forall|i: int| #![trigger q.order@[i]]
        0 <= i < q.order@.len() && !p.store@.dom().contains(q.order@[i]) implies transform_of(
            e,
            p.canvas,
            p.store@[p.order@[i]],
            q.store@[q.order@[i]],
        ) by {
        assert(q.order@.contains(q.order@[i]));
        assert(q.referenced(q.order@[i]));
        assert(q.store@.dom().contains(q.order@[i]));
        if !remaps(e) {
            assert(s.order@.contains(s.order@[i]));
            let j = choose|j: int| 0 <= j < p.order@.len() && p.order@[j] == s.order@[i];
            assert(p.order@[j] == s.order@[i]);
        }
    }
}

/// A document whose order was only filtered or permuted (same store,
/// canvas and history) is a sound stage.
proof fn lemma_stage_permuted(p: Project, s: Project)
    requires
        p.wf(),
        s.store == p.store,
        s.canvas == p.canvas,
        s.history == p.history,
        s.source == p.source,
        s.file_size == p.file_size,
        s.order@.no_duplicates(),
        forall|x: FrameId| #[trigger] s.order@.contains(x) ==> p.order@.contains(x),
    ensures
        stage_ok(p, s),
{
    lemma_backed_sub(p.store@, p.order@, s.order@, p.canvas);
}

/// Bytes that `n` frames of `w` x `h` RGBA pixels need, saturated at
/// `u64::MAX`.
fn projected_bytes(n: usize, w: u32, h: u32) -> (r: u64)
    ensures
        r == saturate(resize_projected(n as nat, w, h)),
{
    let wide: u128 = w as u128;
    let high: u128 = h as u128;
    assert(wide * high <= 0xffff_ffff_ffff_ffffu128 && wide * high * 4 <= 0x3_ffff_ffff_ffff_fffcu128)
        by (nonlinear_arith)
        requires
            wide <= 0xffff_ffffu128,
            high <= 0xffff_ffffu128,
    ;
    let per: u128 = wide * high * 4;
    let count: u128 = n as u128;
    assert(resize_projected(n as nat, w, h) == count * per) by (nonlinear_arith)
        requires
            count == n,
            wide == w,
            high == h,
            per == wide * high * 4,
    ;
    if n == 0 {
        assert(count * per == 0) by (nonlinear_arith)
            requires
                count == 0,
        ;
        return 0;
    }
    if per > 0xffff_ffff_ffff_ffffu128 {
        assert(count * per >= per) by (nonlinear_arith)
            requires
                count >= 1,
                per >= 0,
        ;
        return u64::MAX;
    }
    assert(count * per <= 0xffff_ffff_ffff_ffffu128 * 0xffff_ffff_ffff_ffffu128) by (nonlinear_arith)
        requires
            count <= 0xffff_ffff_ffff_ffffu128,
            per <= 0xffff_ffff_ffff_ffffu128,
    ;
    let total: u128 = count * per;
    if total > 0xffff_ffff_ffff_ffffu128 {
        u64::MAX
    } else {
        total as u64
    }
}

/// The frames of a sound document are well formed.
proof fn lemma_frames_wf(p: Project, frames: Seq<Arc<Frame>>)
    requires
        p.wf(),
        super::frames_of(p, frames),
    ensures
        all_wf(frames),
        forall|i: int| #![trigger frames[i]] 0 <= i < frames.len() ==> frames[i]@.width == p.canvas.0
            && frames[i]@.height == p.canvas.1,
{
    p.store.lemma_wf();
    assert forall|i: int| #![trigger frames[i]] 0 <= i < frames.len() implies frames[i].wf()
        && frames[i]@.width == p.canvas.0 && frames[i]@.height == p.canvas.1 by {
        assert(p.store@.dom().contains(p.order@[i]));
    }
}

/// `n` saturated at `u64::MAX`.
pub open spec fn saturate(n: int) -> u64 {
    if n <= u64::MAX {
        n as u64
    } else {
        u64::MAX
    }
}

/// A history entry's skeleton brought back: the canvas, loop and order of
/// the entry, its selection kept to the order (sorted), the playhead
/// clamped, the anchor kept only when still in the order, and the store
/// collected down to what the new state references.
pub open spec fn restored(p: Project, e: HistoryEntry, q: Project) -> bool {
    &&& q.source == p.source
    &&& q.file_size == p.file_size
    &&& q.canvas == e.state.canvas
    &&& q.loop_count == e.state.loop_count
    &&& q.order@ == e.state.order@
    &&& q.view_index == clamped_view(e.state.view_index, e.state.order@.len())
    &&& sorted_set_of(q.selection@, keep_if_in(e.state.selection@, e.state.order@, true).to_set())
    &&& q.anchor == live_anchor(p.anchor, e.state.order@)
    &&& q.store.next() == p.store.next()
    &&& q.store@ == p.store@.restrict(Set::new(|k: FrameId| q.referenced(k)))
}

/// Undo: the newest undo entry is taken and restored; the current skeleton
/// goes onto the redo stack under the same edit. Without undo entries
/// nothing changes.
pub open spec fn undo_post(p: Project, q: Project) -> bool {
    let u = p.history.undo_stack();
    if u.len() == 0 {
        q == p
    } else {
        let d = q.history.redo_stack();
        &&& restored(p, u.last(), q)
        &&& q.history.undo_stack() == u.drop_last()
        &&& d.len() == p.history.redo_stack().len() + 1
        &&& d.drop_last() == p.history.redo_stack()
        &&& d.last().edit == u.last().edit
        &&& d.last().state@ == p.snap()
    }
}

/// Redo: the newest redo entry is taken and restored; the current skeleton
/// goes onto the undo stack under the same edit, and the rest of the redo
/// branch stays. Without redo entries nothing changes.
pub open spec fn redo_post(p: Project, q: Project) -> bool {
    let d = p.history.redo_stack();
    if d.len() == 0 {
        q == p
    } else {
        let u = q.history.undo_stack();
        &&& restored(p, d.last(), q)
        &&& q.history.redo_stack() == d.drop_last()
        &&& u.len() > 0
        &&& u == push_bounded(p.history.undo_stack(), u.last())
        &&& u.last().edit == d.last().edit
        &&& u.last().state@ == p.snap()
    }
}

/// Dropping the newest entry keeps a stack backed.
proof fn lemma_stack_drop_last(m: Map<FrameId, FrameView>, u: Seq<HistoryEntry>)
    requires
        stack_backed(m, u),
        u.len() > 0,
    ensures
        stack_backed(m, u.drop_last()),
{
    let v = u.drop_last();
    assert forall|i: int| 0 <= i < v.len() implies (#[trigger] v[i]).state.order@.no_duplicates() && backed(
        m,
        v[i].state.order@,
        v[i].state.canvas,
    ) by {
        assert(v[i] == u[i]);
    }
}

impl Project {
    /// Undoes the newest recorded edit (see `undo_post`); returns whether
    /// there was one.
    pub fn undo(&mut self) -> (r: bool)
        requires
            old(self).wf(),
        ensures
            final(self).wf(),
            undo_post(*old(self), *final(self)),
            r == (old(self).history.undo_stack().len() > 0),
    {
        let ghost p = *self;
        if !self.history.can_undo() {
            return false;
        }
        match self.history.pop_undo() {
            None => false,
            Some(entry) => {
                let ghost e = entry;
                let after = self.snapshot();
                let HistoryEntry { edit, state } = entry;
                self.history.push_redo(edit, after);
                self.restore(state);
                let ghost t = *self;
                proof {
                    let u = p.history.undo_stack();
                    assert(u[u.len() - 1] == e);
                    lemma_stack_drop_last(p.store@, u);
                    lemma_stack_push(p.store@, p.history.redo_stack(), HistoryEntry { edit: e.edit, state: after });
                }
                self.gc();
                proof {
                    lemma_gc_keeps(t, self.store@);
                    self.lemma_after_restore(t, p);
                    assert(Set::new(|k: FrameId| self.referenced(k)) =~= Set::new(|k: FrameId| t.referenced(k)));
                    assert(self.history.redo_stack().drop_last() =~= p.history.redo_stack());
                }
                true
            },
        }
    }

    /// Redoes the newest undone edit (see `redo_post`); returns whether
    /// there was one.
    pub fn redo(&mut self) -> (r: bool)
        requires
            old(self).wf(),
        ensures
            final(self).wf(),
            redo_post(*old(self), *final(self)),
            r == (old(self).history.redo_stack().len() > 0),
    {
        let ghost p = *self;
        if !self.history.can_redo() {
            return false;
        }
        match self.history.pop_redo() {
            None => false,
            Some(entry) => {
                let ghost e = entry;
                let before = self.snapshot();
                let HistoryEntry { edit, state } = entry;
                self.history.push_undo_keep_redo(edit, before);
                self.restore(state);
                let ghost t = *self;
                proof {
                    let d = p.history.redo_stack();
                    assert(d[d.len() - 1] == e);
                    lemma_stack_drop_last(p.store@, d);
                    lemma_stack_push(p.store@, p.history.undo_stack(), HistoryEntry { edit: e.edit, state: before });
                }
                self.gc();
                proof {
                    lemma_gc_keeps(t, self.store@);
                    self.lemma_after_restore(t, p);
                    assert(Set::new(|k: FrameId| self.referenced(k)) =~= Set::new(|k: FrameId| t.referenced(k)));
                }
                true
            },
        }
    }

    /// The rest of soundness after restoring a backed skeleton and
    /// collecting.
    proof fn lemma_after_restore(&self, t: Project, p: Project)
        requires
            p.wf(),
            self.store.wf(),
            self.order == t.order,
            self.selection == t.selection,
            self.anchor == t.anchor,
            self.view_index == t.view_index,
            self.history == t.history,
            self.canvas == t.canvas,
            t.order@.no_duplicates(),
            backed(self.store@, self.order@, self.canvas),
            stack_backed(self.store@, self.history.undo_stack()),
            stack_backed(self.store@, self.history.redo_stack()),
            self.history.undo_stack().len() <= super::history::MAX_HISTORY,
            exists|sel: Seq<FrameId>| sorted_set_of(t.selection@, #[trigger] keep_if_in(sel, t.order@, true).to_set()),
            t.anchor matches Some(a) ==> t.order@.contains(a),
            view_in_range(t.view_index, t.order@.len()),
        ensures
            self.wf(),
    {
        let sel = choose|sel: Seq<FrameId>| sorted_set_of(t.selection@, #[trigger] keep_if_in(sel, t.order@, true).to_set());
        lemma_keep_facts(sel, t.order@, true);
        lemma_ascending_distinct(t.selection@);
        assert forall|i: int| 0 <= i < self.selection@.len() implies self.order@.contains(
            #[trigger] self.selection@[i],
        ) by {
            assert(t.selection@.to_set().contains(t.selection@[i]));
            assert(keep_if_in(sel, t.order@, true).to_set().contains(t.selection@[i]));
        }
    }

    /// Applies an undoable edit: snapshot, change, record, clamp, collect.
    /// Identity edits and empty targets leave the document as it is and are
    /// not recorded; a resize beyond the memory budget is refused with the
    /// bytes it would need.
    pub fn edit(&mut self, edit: Edit) -> (r: EditOutcome)
        requires
            old(self).wf(),
            edit is Crop ==> old(self).canvas.0 > 0 && old(self).canvas.1 > 0,
        ensures
            final(self).wf(),
            edit_post(*old(self), edit, *final(self), r),
    {
        let ghost p = *self;
        proof {
            self.store.lemma_wf();
        }
        let next = self.store.next_id();
        let n = self.order.len();
        let before = self.snapshot();
        match &edit {
            Edit::DeleteFrames { ids } => {
                if ids.len() == 0 {
                    return EditOutcome::Unchanged;
                }
                self.order = filter_ids(self.order.as_slice(), ids.as_slice(), false);
                proof {
                    lemma_keep_facts(p.order@, ids@, false);
                    lemma_stage_permuted(p, *self);
                }
            },
            Edit::ReverseSelected => {
                if self.selection.len() < 2 {
                    return EditOutcome::Unchanged;
                }
                let sel = copy_ids(self.selection.as_slice());
                reverse_selected(&mut self.order, sel.as_slice());
                proof {
                    lemma_reverse_perm(p.order@, p.selection@);
                    lemma_stage_permuted(p, *self);
                }
            },
            Edit::Reorder { moved, before: target } => {
                if moved.len() == 0 {
                    return EditOutcome::Unchanged;
                }
                self.order = reorder(self.order.as_slice(), moved.as_slice(), *target);
                proof {
                    lemma_reorder_perm(p.order@, moved@, *target);
                    lemma_stage_permuted(p, *self);
                }
            },
            Edit::SetDuration { ids, ms } => {
                if ids.len() == 0 {
                    return EditOutcome::Unchanged;
                }
                let hit = filter_ids(self.order.as_slice(), ids.as_slice(), true);
                if hit.len() as u64 > u64::MAX - next {
                    return EditOutcome::Unchanged;
                }
                self.set_durations(ids.as_slice(), *ms);
            },
            Edit::SetLoop { infinite } => {
                self.loop_count = if *infinite {
                    0
                } else {
                    1
                };
                proof {
                    lemma_stage_permuted(p, *self);
                }
            },
            Edit::Crop { x, y, w, h } => {
                let (cx, cy, cw, ch) = clamp_crop(self.canvas, *x, *y, *w, *h);
                if cx == 0 && cy == 0 && cw == self.canvas.0 && ch == self.canvas.1 {
                    return EditOutcome::Unchanged;
                }
                if n as u64 > u64::MAX - next {
                    return EditOutcome::Unchanged;
                }
                let frames = super::collect_frames(self);
                proof {
                    assert forall|i: int| #![trigger frames@[i]] 0 <= i < frames@.len() implies frames@[i].wf()
                        && cx + cw <= frames@[i]@.width && cy + ch <= frames@[i]@.height by {
                        assert(p.store@.dom().contains(p.order@[i]));
                    }
                }
                let new_frames = crop_all(frames.as_slice(), cx, cy, cw, ch);
                self.canvas = (cw, ch);
                self.replace_all_frames(new_frames);
            },
            Edit::Resize { width, height, filter } => {
                let (width, height, filter) = (*width, *height, *filter);
                if width == 0 || height == 0 {
                    return EditOutcome::Unchanged;
                }
                if width == self.canvas.0 && height == self.canvas.1 {
                    return EditOutcome::Unchanged;
                }
                let projected = projected_bytes(n, width, height);
                if projected > MEMORY_BUDGET_BYTES {
                    return EditOutcome::OverBudget(projected);
                }
                if n as u64 > u64::MAX - next {
                    return EditOutcome::Unchanged;
                }
                let frames = super::collect_frames(self);
                proof {
                    lemma_frames_wf(p, frames@);
                }
                let new_frames = resize_all(frames.as_slice(), width, height, filter);
                self.canvas = (width, height);
                self.replace_all_frames(new_frames);
            },
            Edit::RotateLeft => {
                if n as u64 > u64::MAX - next {
                    return EditOutcome::Unchanged;
                }
                let frames = super::collect_frames(self);
                proof {
                    lemma_frames_wf(p, frames@);
                }
                let new_frames = rotate_all(frames.as_slice(), RotDir::Left);
                self.canvas = (self.canvas.1, self.canvas.0);
                self.replace_all_frames(new_frames);
            },
            Edit::RotateRight => {
                if n as u64 > u64::MAX - next {
                    return EditOutcome::Unchanged;
                }
                let frames = super::collect_frames(self);
                proof {
                    lemma_frames_wf(p, frames@);
                }
                let new_frames = rotate_all(frames.as_slice(), RotDir::Right);
                self.canvas = (self.canvas.1, self.canvas.0);
                self.replace_all_frames(new_frames);
            },
            Edit::FlipH => {
                if n as u64 > u64::MAX - next {
                    return EditOutcome::Unchanged;
                }
                let frames = super::collect_frames(self);
                proof {
                    lemma_frames_wf(p, frames@);
                }
                let new_frames = flip_all(frames.as_slice(), FlipAxis::Horizontal);
                self.replace_all_frames(new_frames);
            },
            Edit::FlipV => {
                if n as u64 > u64::MAX - next {
                    return EditOutcome::Unchanged;
                }
                let frames = super::collect_frames(self);
                proof {
                    lemma_frames_wf(p, frames@);
                }
                let new_frames = flip_all(frames.as_slice(), FlipAxis::Vertical);
                self.replace_all_frames(new_frames);
            },
        }
        let ghost s = *self;
        proof {
            assert(staged(p, edit, s));
        }
        self.finish_edit(edit, before, Ghost(p));
        proof {
            lemma_recorded(p, edit, s, *self);
        }
        EditOutcome::Recorded
    }

    /// Records `edit` with the pre-edit snapshot `before`, repairs the
    /// indices and collects the frames that nothing references any more.
    fn finish_edit(&mut self, edit: Edit, before: Snapshot, Ghost(p): Ghost<Project>)
        requires
            p.wf(),
            before@ == p.snap(),
            stage_ok(p, *old(self)),
        ensures
            final(self).wf(),
            finished(p, edit, *old(self), *final(self)),
    {
        let ghost s = *self;
        let ghost e = HistoryEntry { edit, state: before };
        self.history.push_undo(edit, before);
        self.clamp_indices();
        let ghost t = *self;
        proof {
            lemma_stack_grow(p.store@, s.store@, p.history.undo_stack());
            lemma_backed_grow(p.store@, s.store@, p.order@, p.canvas);
            lemma_stack_push(s.store@, p.history.undo_stack(), e);
            assert(t.history.redo_stack() =~= Seq::<HistoryEntry>::empty());
        }
        self.gc();
        proof {
            lemma_gc_keeps(t, self.store@);
            lemma_keep_facts(s.selection@, s.order@, true);
            lemma_ascending_distinct(self.selection@);
            let keep = keep_if_in(s.selection@, s.order@, true);
            assert forall|i: int| 0 <= i < self.selection@.len() implies self.order@.contains(
                #[trigger] self.selection@[i],
            ) by {
                assert(self.selection@.to_set().contains(self.selection@[i]));
                assert(keep.to_set().contains(self.selection@[i]));
            }
            assert(Set::new(|k: FrameId| self.referenced(k)) =~= Set::new(|k: FrameId| t.referenced(k)));
        }
    }

    /// Points selection and anchor at the ids that replaced theirs, position
    /// by position from `old_order` to the current order.
    fn follow_ids(&mut self, old_order: &[FrameId])
        requires
            old_order@.len() == old(self).order@.len(),
        ensures
            final(self).selection@ == old(self).selection@.map_values(
                |id: FrameId| remap_id(old_order@, old(self).order@, id),
            ),
            final(self).anchor == match old(self).anchor {
                Some(a) => Some(remap_id(old_order@, old(self).order@, a)),
                None => None,
            },
            final(self).order == old(self).order,
            final(self).canvas == old(self).canvas,
            final(self).loop_count == old(self).loop_count,
            final(self).view_index == old(self).view_index,
            final(self).store == old(self).store,
            final(self).history == old(self).history,
            final(self).source == old(self).source,
            final(self).file_size == old(self).file_size,
    {
        let mut sel: Vec<FrameId> = Vec::new();
        let mut i: usize = 0;
        while i < self.selection.len()
            invariant
                old_order@.len() == self.order@.len(),
                0 <= i <= self.selection@.len(),
                sel@ == self.selection@.take(i as int).map_values(
                    |id: FrameId| remap_id(old_order@, self.order@, id),
                ),
            decreases self.selection@.len() - i,
        {
            let s = self.selection[i];
            let pos = position_of(old_order, s);
            proof {
                lemma_first_pos(old_order@, s);
            }
            let t = if pos < old_order.len() {
                self.order[pos]
            } else {
                s
            };
            sel.push(t);
            i = i + 1;
            proof {
                assert(sel@ =~= self.selection@.take(i as int).map_values(
                    |id: FrameId| remap_id(old_order@, self.order@, id),
                ));
            }
        }
        proof {
            assert(self.selection@.take(self.selection@.len() as int) =~= self.selection@);
        }
        let anchor = match self.anchor {
            Some(a) => {
                let pos = position_of(old_order, a);
                proof {
                    lemma_first_pos(old_order@, a);
                }
                if pos < old_order.len() {
                    Some(self.order[pos])
                } else {
                    Some(a)
                }
            },
            None => None,
        };
        self.selection = sel;
        self.anchor = anchor;
    }

    /// Stores `new_frames` under fresh ids that replace the order position by
    /// position; selection and anchor follow.
    fn replace_all_frames(&mut self, new_frames: Vec<Frame>)
        requires
            old(self).store.wf(),
            new_frames@.len() == old(self).order@.len(),
            old(self).store.next() + new_frames@.len() <= u64::MAX,
            forall|i: int| #![trigger new_frames@[i]] 0 <= i < new_frames@.len() ==> {
                &&& new_frames@[i].wf()
                &&& new_frames@[i]@.width == old(self).canvas.0
                &&& new_frames@[i]@.height == old(self).canvas.1
            },
        ensures
            final(self).store.wf(),
            final(self).order@ == fresh_ids(old(self).store.next(), old(self).order@.len()),
            final(self).store.next() == old(self).store.next() + old(self).order@.len(),
            old(self).store@.submap_of(final(self).store@),
            stage_ok(*old(self), *final(self)),
            forall|i: int| #![trigger final(self).order@[i]]
                0 <= i < final(self).order@.len() ==> final(self).store@.dom().contains(final(self).order@[i])
                    && final(self).store@[final(self).order@[i]] == new_frames@[i]@,
            final(self).selection@ == old(self).selection@.map_values(
                |id: FrameId| remap_id(old(self).order@, final(self).order@, id),
            ),
            final(self).anchor == match old(self).anchor {
                Some(a) => Some(remap_id(old(self).order@, final(self).order@, a)),
                None => None,
            },
            final(self).canvas == old(self).canvas,
            final(self).loop_count == old(self).loop_count,
            final(self).view_index == old(self).view_index,
            final(self).history == old(self).history,
            final(self).source == old(self).source,
            final(self).file_size == old(self).file_size,
    {
        let ghost frames = new_frames@;
        let ghost store0 = self.store@;
        let next0 = self.store.next_id();
        let n = self.order.len();
        let old_order = super::order_ops::copy_ids(self.order.as_slice());
        let mut pending = into_reversed(new_frames);
        let mut new_order: Vec<FrameId> = Vec::new();
        let mut i: usize = 0;
        let ghost p0 = *self;
        proof {
            self.store.lemma_wf();
        }
        while i < n
            invariant
                n == frames.len(),
                self.order == p0.order,
                self.selection == p0.selection,
                self.anchor == p0.anchor,
                self.canvas == p0.canvas,
                self.loop_count == p0.loop_count,
                self.view_index == p0.view_index,
                self.history == p0.history,
                self.source == p0.source,
                self.file_size == p0.file_size,
                0 <= i <= n,
                pending@.len() == n - i,
                forall|k: int| 0 <= k < pending@.len() ==> #[trigger] pending@[k] == frames[n - 1 - k],
                next0 + n <= u64::MAX,
                self.store.wf(),
                self.store.next() == next0 + i,
                store0.submap_of(self.store@),
                forall|k: FrameId| #[trigger] store0.dom().contains(k) ==> k.0 < next0,
                new_order@ == fresh_ids(next0, i as nat),
                forall|j: int| #![trigger new_order@[j]]
                    0 <= j < i ==> self.store@.dom().contains(new_order@[j]) && self.store@[new_order@[j]]
                        == frames[j]@,
                forall|j: int| #![trigger frames[j]] 0 <= j < n ==> frames[j].wf(),
            decreases n - i,
        {
            let f = pending.pop().unwrap();
            proof {
                assert(f == frames[i as int]);
            }
            let ghost before = self.store@;
            let id = self.store.insert(f);
            new_order.push(id);
            i = i + 1;
            proof {
                assert(new_order@ =~= fresh_ids(next0, i as nat));
                assert forall|k: FrameId| #[trigger] store0.dom().contains(k) implies self.store@.dom().contains(k)
                    && store0[k] == self.store@[k] by {
                    assert(before.dom().contains(k));
                }
            }
        }
        self.order = new_order;
        self.follow_ids(old_order.as_slice());
        proof {
            let q = *self;
            assert(q.order@.no_duplicates()) by {
                assert forall|a: int, b: int| 0 <= a < b < q.order@.len() implies q.order@[a] != q.order@[b] by {
                    assert(q.order@[a].0 == next0 + a);
                    assert(q.order@[b].0 == next0 + b);
                }
            }
            assert(backed(q.store@, q.order@, q.canvas)) by {
                assert forall|j: int| 0 <= j < q.order@.len() implies q.store@.dom().contains(#[trigger] q.order@[j])
                    && q.store@[q.order@[j]].width == q.canvas.0 && q.store@[q.order@[j]].height == q.canvas.1 by {
                    assert(frames[j].wf());
                }
            }
            assert(self.selection@ =~= old(self).selection@.map_values(
                |id: FrameId| remap_id(old(self).order@, self.order@, id),
            ));
        }
    }

    /// Moves every frame of a document without undo history to fresh ids
    /// from `start` on, position by position (see `renumbered`); the old ids
    /// leave the store.
    pub fn renumber_from(&mut self, start: u64)
        requires
            old(self).wf(),
            old(self).history.undo_stack().len() == 0,
            old(self).history.redo_stack().len() == 0,
            start + old(self).order@.len() <= u64::MAX,
        ensures
            final(self).wf(),
            renumbered(*old(self), start, *final(self)),
    {
        let ghost p = *self;
        let frames = super::collect_frames(self);
        proof {
            lemma_frames_wf(p, frames@);
        }
        let mut copies: Vec<Frame> = Vec::new();
        let mut i: usize = 0;
        while i < frames.len()
            invariant
                super::frames_of(p, frames@),
                all_wf(frames@),
                forall|j: int| #![trigger frames@[j]] 0 <= j < frames@.len() ==> frames@[j]@.width == p.canvas.0
                    && frames@[j]@.height == p.canvas.1,
                0 <= i <= frames@.len(),
                copies@.len() == i,
                forall|j: int| #![trigger copies@[j]] 0 <= j < i ==> copies@[j]@ == frames@[j]@ && copies@[j].wf(),
            decreases frames@.len() - i,
        {
            let f = &frames[i];
            let c = f.with_duration(f.duration_ms());
            proof {
                assert(c@ == frames@[i as int]@);
            }
            copies.push(c);
            i = i + 1;
        }
        self.store = super::frame_store::FrameStore::starting_at(start);
        self.replace_all_frames(copies);
        let ghost s = *self;
        proof {
            assert forall|i: int| 0 <= i < s.selection@.len() implies s.order@.contains(#[trigger] s.selection@[i]) by {
                let id = p.selection@[i];
                assert(p.order@.contains(id));
                super::order_ops::lemma_first_pos(p.order@, id);
                assert(s.order@[first_pos(p.order@, id)] == s.selection@[i]);
            }
            lemma_keep_facts(s.selection@, s.order@, true);
            assert(keep_if_in(s.selection@, s.order@, true).to_set() =~= s.selection@.to_set()) by {
                assert forall|x: FrameId| s.selection@.contains(x) implies s.order@.contains(x) by {
                    let i = choose|i: int| 0 <= i < s.selection@.len() && s.selection@[i] == x;
                    assert(s.order@.contains(s.selection@[i]));
                }
            }
            if let Some(a) = p.anchor {
                assert(p.order@.contains(a));
                super::order_ops::lemma_first_pos(p.order@, a);
                assert(s.order@[first_pos(p.order@, a)] == remap_id(p.order@, s.order@, a));
            }
        }
        self.clamp_indices();
        self.gc();
        proof {
            let q = *self;
            super::order_ops::lemma_ascending_distinct(q.selection@);
            assert forall|k: FrameId| q.referenced(k) <==> q.order@.contains(k) by {
                assert(!in_some_order(q.history.undo_stack(), k));
                assert(!in_some_order(q.history.redo_stack(), k));
            }
            assert(q.store@.dom() =~= q.order@.to_set()) by {
                assert forall|k: FrameId| q.order@.contains(k) implies s.store@.dom().contains(k) by {
                    let j = choose|j: int| 0 <= j < q.order@.len() && q.order@[j] == k;
                    assert(s.store@.dom().contains(s.order@[j]));
                }
            }
            assert(backed(q.store@, q.order@, q.canvas)) by {
                assert forall|j: int| 0 <= j < q.order@.len() implies q.store@.dom().contains(#[trigger] q.order@[j])
                    && q.store@[q.order@[j]].width == q.canvas.0 && q.store@[q.order@[j]].height == q.canvas.1 by {
                    assert(s.store@.dom().contains(s.order@[j]));
                    assert(q.order@.contains(q.order@[j]));
                }
            }
            assert forall|j: int| #![trigger q.order@[j]] 0 <= j < q.order@.len() implies q.store@[q.order@[j]]
                == p.store@[p.order@[j]] by {
                assert(q.order@.contains(q.order@[j]));
                assert(frames@[j]@ == p.store@[p.order@[j]]);
            }
            assert forall|j: int| #![trigger q.selection@[j]] 0 <= j < q.selection@.len() implies q.order@.contains(
                q.selection@[j],
            ) by {
                assert(q.selection@.to_set().contains(q.selection@[j]));
            }
        }
    }

    /// Replaces every listed frame of the order by a copy with duration `ms`
    /// under a fresh id; selection and anchor follow.
    fn set_durations(&mut self, ids: &[FrameId], ms: u32)
        requires
            old(self).wf(),
            old(self).store.next() + keep_if_in(old(self).order@, ids@, true).len() <= u64::MAX,
        ensures
            stage_ok(*old(self), *final(self)),
            final(self).order@ == duration_order(old(self).order@, ids@, old(self).store.next()),
            final(self).store.next() == old(self).store.next() + keep_if_in(old(self).order@, ids@, true).len(),
            forall|i: int| #![trigger final(self).order@[i]]
                0 <= i < final(self).order@.len() && !old(self).store@.dom().contains(final(self).order@[i])
                    ==> final(self).store@[final(self).order@[i]] == (FrameView {
                    duration_ms: ms,
                    ..old(self).store@[old(self).order@[i]]
                }),
            final(self).selection@ == old(self).selection@.map_values(
                |id: FrameId| remap_id(old(self).order@, final(self).order@, id),
            ),
            final(self).anchor == match old(self).anchor {
                Some(a) => Some(remap_id(old(self).order@, final(self).order@, a)),
                None => None,
            },
            final(self).canvas == old(self).canvas,
            final(self).loop_count == old(self).loop_count,
            final(self).view_index == old(self).view_index,
    {
        let ghost p = *self;
        let ghost o = self.order@;
        let next0 = self.store.next_id();
        let n = self.order.len();
        proof {
            self.store.lemma_wf();
            lemma_keep_facts(o, ids@, true);
            super::order_ops::lemma_filter_prefix_len(o, ids@, true, n as int);
        }
        let old_order = super::order_ops::copy_ids(self.order.as_slice());
        let mut new_order: Vec<FrameId> = Vec::new();
        let mut i: usize = 0;
        while i < n
            invariant
                n == o.len(),
                self.order@ == o,
                self.canvas == p.canvas,
                self.selection == p.selection,
                self.anchor == p.anchor,
                self.loop_count == p.loop_count,
                self.view_index == p.view_index,
                self.history == p.history,
                self.source == p.source,
                self.file_size == p.file_size,
                0 <= i <= n,
                next0 == p.store.next(),
                next0 + keep_if_in(o, ids@, true).len() <= u64::MAX,
                rank_in(o, ids@, i as int) <= keep_if_in(o, ids@, true).len(),
                self.store.wf(),
                self.store.next() == next0 + rank_in(o, ids@, i as int),
                p.store@.submap_of(self.store@),
                backed(p.store@, o, p.canvas),
                forall|k: FrameId| #[trigger] p.store@.dom().contains(k) ==> k.0 < next0,
                new_order@ == duration_order(o, ids@, next0).take(i as int),
                forall|j: int| #![trigger new_order@[j]]
                    0 <= j < i && !p.store@.dom().contains(new_order@[j]) ==> self.store@.dom().contains(
                        new_order@[j],
                    ) && self.store@[new_order@[j]] == (FrameView {
                        duration_ms: ms,
                        ..p.store@[o[j]]
                    }),
                forall|j: int| #![trigger new_order@[j]]
                    0 <= j < i && ids@.contains(o[j]) ==> !p.store@.dom().contains(new_order@[j])
                        && next0 <= new_order@[j].0 < self.store.next(),
            decreases n - i,
        {
            let id = self.order[i];
            proof {
                assert(o.take(i + 1) == o.take(i as int).push(id));
                o.take(i as int).lemma_filter_push(id, |x: FrameId| ids@.contains(x) == true);
                super::order_ops::lemma_filter_prefix_len(o, ids@, true, i + 1);
            }
            if contains_id(ids, id) {
                let f = self.store.get(id).unwrap();
                let copy = f.with_duration(ms);
                proof {
                    self.store.lemma_wf();
                    assert(super::frame_store::view_wf(self.store@[id]));
                }
                let ghost before = self.store@;
                let nid = self.store.insert(copy);
                new_order.push(nid);
                proof {
                    assert forall|k: FrameId| #[trigger] p.store@.dom().contains(k) implies self.store@.dom().contains(k)
                        && p.store@[k] == self.store@[k] by {
                        assert(before.dom().contains(k));
                    }
                }
            } else {
                new_order.push(id);
            }
            i = i + 1;
            proof {
                assert(new_order@ =~= duration_order(o, ids@, next0).take(i as int));
            }
        }
        proof {
            assert(duration_order(o, ids@, next0).take(n as int) =~= duration_order(o, ids@, next0));
            assert(o.take(n as int) =~= o);
        }
        self.order = new_order;
        self.follow_ids(old_order.as_slice());
        proof {
            let q = *self;
            assert(backed(q.store@, q.order@, q.canvas)) by {
                assert forall|j: int| 0 <= j < q.order@.len() implies q.store@.dom().contains(#[trigger] q.order@[j])
                    && q.store@[q.order@[j]].width == q.canvas.0 && q.store@[q.order@[j]].height == q.canvas.1 by {
                    if ids@.contains(o[j]) {
                    } else {
                        assert(q.order@[j] == o[j]);
                        assert(p.store@.dom().contains(o[j]));
                    }
                }
            }
            assert forall|j: int| 0 <= j < o.len() implies (#[trigger] o[j]).0 < next0 by {
                assert(p.store@.dom().contains(o[j]));
            }
            lemma_duration_order_distinct(o, ids@, next0);
            assert(self.selection@ =~= p.selection@.map_values(
                |id: FrameId| remap_id(p.order@, self.order@, id),
            ));
        }
    }
}

} // verus!
