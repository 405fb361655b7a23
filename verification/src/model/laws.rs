//! Properties of the editor that span several operations.
use super::editing::{recorded_post, redo_post, undo_post};
use super::frame::FrameId;
use super::history::MAX_HISTORY;
use super::order_ops::{ascending_ids, keep_if_in, lemma_ascending_unique, lemma_keep_facts};
use super::project::Project;
use super::transform::{
    filter_support, flipped_h, flipped_v, in_reach, px, reach_bound, resampled_locally, rotated_left, rotated_right,
    uniform_around, ResizeFilter,
};
use super::actions::Action;
use super::{apply_post, id_floor, renumbers_load, Effect, Model};
use vstd::prelude::*;

verus! {

/// A sorted selection that lies in the order is what clamping keeps of it.
proof fn lemma_selection_kept(sel: Seq<FrameId>, order: Seq<FrameId>, kept: Seq<FrameId>)
    requires
        ascending_ids(sel),
        ascending_ids(kept),
        forall|i: int| #![trigger sel[i]] 0 <= i < sel.len() ==> order.contains(sel[i]),
        kept.to_set() == keep_if_in(sel, order, true).to_set(),
    ensures
        kept == sel,
{
    lemma_keep_facts(sel, order, true);
    assert(keep_if_in(sel, order, true).to_set() =~= sel.to_set()) by {
        assert forall|x: FrameId| sel.contains(x) implies order.contains(x) by {
            let i = choose|i: int| 0 <= i < sel.len() && sel[i] == x;
            assert(order.contains(sel[i]));
        }
    }
    lemma_ascending_unique(kept, sel);
}

/// Undo brings back the exact state from before the edit: an edit recorded
/// on a sound document and then undone gives back the same
/// canvas, loop count, order, selection and playhead, the same frame
/// contents at every position, and the same undo stack when the history
/// was not full.
pub proof fn law_undo_restores_snapshot(p: Project, e: super::Edit, q: Project, r: Project)
    requires
        p.wf(),
        q.wf(),
        recorded_post(p, e, q),
        undo_post(q, r),
    ensures
        r.snap() == p.snap(),
        forall|i: int| #![trigger r.order@[i]]
            0 <= i < r.order@.len() ==> r.store@.dom().contains(r.order@[i]) && r.store@[r.order@[i]]
                == p.store@[p.order@[i]],
        p.history.undo_stack().len() < MAX_HISTORY ==> r.history.undo_stack() == p.history.undo_stack(),
        r.history.redo_stack().len() == 1,
        r.history.redo_stack()[0].edit == e,
{
    let u = q.history.undo_stack();
    assert(u.last().state@ == p.snap());
    lemma_selection_kept(p.selection@, p.order@, r.selection@);
    assert forall|i: int| #![trigger r.order@[i]] 0 <= i < r.order@.len() implies r.store@.dom().contains(
        r.order@[i],
    ) && r.store@[r.order@[i]] == p.store@[p.order@[i]] by {
        let id = p.order@[i];
        assert(p.store@.dom().contains(id));
        assert(u[u.len() - 1].state.order@.contains(id)) by {
            assert(u[u.len() - 1].state.order@[i] == id);
        }
        assert(q.referenced(id));
        assert(r.order@.contains(id)) by {
            assert(r.order@[i] == id);
        }
        assert(r.referenced(id));
    }
    if p.history.undo_stack().len() < MAX_HISTORY {
        assert(r.history.undo_stack() =~= p.history.undo_stack());
    }
}

/// Redo after undo re-applies the undone edit: the state after the undo is
/// redone back to the same canvas, loop count, order, selection and
/// playhead, with the same frame contents, the same redo branch as before
/// the undo, and an undo stack that differs at most in the snapshot of its
/// newest entry (which holds the same edit).
pub proof fn law_redo_after_undo(q: Project, r: Project, t: Project)
    requires
        q.wf(),
        r.wf(),
        q.history.undo_stack().len() > 0,
        undo_post(q, r),
        redo_post(r, t),
    ensures
        t.snap() == q.snap(),
        forall|i: int| #![trigger t.order@[i]]
            0 <= i < t.order@.len() ==> t.store@.dom().contains(t.order@[i]) && t.store@[t.order@[i]]
                == q.store@[q.order@[i]],
        t.history.redo_stack() == q.history.redo_stack(),
        t.history.undo_stack().last().edit == q.history.undo_stack().last().edit,
        t.history.undo_stack().drop_last() == q.history.undo_stack().drop_last(),
{
    let d = r.history.redo_stack();
    assert(d.last().state@ == q.snap());
    lemma_selection_kept(q.selection@, q.order@, t.selection@);
    assert forall|i: int| #![trigger t.order@[i]] 0 <= i < t.order@.len() implies t.store@.dom().contains(
        t.order@[i],
    ) && t.store@[t.order@[i]] == q.store@[q.order@[i]] by {
        let id = q.order@[i];
        assert(q.store@.dom().contains(id));
        assert(d[d.len() - 1].state.order@.contains(id)) by {
            assert(d[d.len() - 1].state.order@[i] == id);
        }
        assert(r.referenced(id));
        assert(t.order@.contains(id)) by {
            assert(t.order@[i] == id);
        }
        assert(t.referenced(id));
    }
    assert(t.history.redo_stack() =~= q.history.redo_stack());
    assert(t.history.undo_stack().drop_last() =~= q.history.undo_stack().drop_last());
}

/// Undo after redo goes back: the state before a redo is restored by the
/// following undo (same canvas, loop count, order, selection, playhead and
/// frame contents), the redo branch gets the same edit back on top, and the
/// undo stack is as before when it was not full.
pub proof fn law_undo_after_redo(r: Project, t: Project, w: Project)
    requires
        r.wf(),
        t.wf(),
        r.history.redo_stack().len() > 0,
        redo_post(r, t),
        undo_post(t, w),
    ensures
        w.snap() == r.snap(),
        forall|i: int| #![trigger w.order@[i]]
            0 <= i < w.order@.len() ==> w.store@.dom().contains(w.order@[i]) && w.store@[w.order@[i]]
                == r.store@[r.order@[i]],
        w.history.redo_stack().drop_last() == r.history.redo_stack().drop_last(),
        w.history.redo_stack().last().edit == r.history.redo_stack().last().edit,
        r.history.undo_stack().len() < MAX_HISTORY ==> w.history.undo_stack() == r.history.undo_stack(),
{
    let u = t.history.undo_stack();
    assert(u.last().state@ == r.snap());
    lemma_selection_kept(r.selection@, r.order@, w.selection@);
    assert forall|i: int| #![trigger w.order@[i]] 0 <= i < w.order@.len() implies w.store@.dom().contains(
        w.order@[i],
    ) && w.store@[w.order@[i]] == r.store@[r.order@[i]] by {
        let id = r.order@[i];
        assert(r.store@.dom().contains(id));
        assert(u[u.len() - 1].state.order@.contains(id)) by {
            assert(u[u.len() - 1].state.order@[i] == id);
        }
        assert(t.referenced(id));
        assert(w.order@.contains(id)) by {
            assert(w.order@[i] == id);
        }
        assert(w.referenced(id));
    }
    if r.history.undo_stack().len() < MAX_HISTORY {
        assert(w.history.undo_stack() =~= r.history.undo_stack());
    }
}

/// The next document's frames are numbered above every id of the current
/// one: every id in the store or the order of a sound model's document lies
/// below the id floor that the next load starts from.
pub proof fn law_next_document_ids_fresh(m: Model, k: FrameId)
    requires
        m.wf(),
        m.project is Some,
        m.project.unwrap().store@.dom().contains(k) || m.project.unwrap().order@.contains(k),
    ensures
        k.0 < id_floor(m),
{
    let p = m.project.unwrap();
    p.store.lemma_wf();
    if p.order@.contains(k) {
        let i = choose|i: int| 0 <= i < p.order@.len() && p.order@[i] == k;
        assert(p.order@[i] == k);
    }
}

/// Documents numbered from disjoint id ranges share no frame: when a
/// second document's frames are all numbered at or above the first
/// document's next id (as `Project::from_decoded` numbers them from the
/// `first_id` it is given), no frame id of one is a frame id of the other.
pub proof fn law_chained_documents_disjoint(p: Project, q: Project, k: FrameId)
    requires
        p.wf(),
        forall|i: int| 0 <= i < q.order@.len() ==> (#[trigger] q.order@[i]).0 >= p.store.next(),
        p.store@.dom().contains(k) || p.order@.contains(k),
    ensures
        !q.order@.contains(k),
{
    p.store.lemma_wf();
    if p.order@.contains(k) {
        let i = choose|i: int| 0 <= i < p.order@.len() && p.order@[i] == k;
        assert(p.order@[i] == k);
    }
    if q.order@.contains(k) {
        let j = choose|j: int| 0 <= j < q.order@.len() && q.order@[j] == k;
        assert(q.order@[j].0 >= p.store.next());
    }
}

/// A finished load gives its document frame ids of their own: every frame
/// id of the installed document lies at or above the id floor of the model
/// before the load, so it is no frame id of the document it replaces, nor
/// of any document before (whose ids all lie below that floor).
pub proof fn law_loaded_document_ids_fresh(old: Model, p: Project, new: Model, effects: Seq<Effect>, k: FrameId)
    requires
        old.wf(),
        p.wf(),
        renumbers_load(old, p),
        apply_post(old, Action::LoadFinished(Ok(p)), new, effects),
        new.project.unwrap().order@.contains(k) || new.project.unwrap().store@.dom().contains(k),
    ensures
        k.0 >= id_floor(old),
        old.project matches Some(o) ==> !o.order@.contains(k) && !o.store@.dom().contains(k),
{
    let q = new.project.unwrap();
    assert(q.store@.dom() == q.order@.to_set());
    assert(q.order@.contains(k));
    let i = choose|i: int| 0 <= i < q.order@.len() && q.order@[i] == k;
    assert(q.order@[i].0 == id_floor(old) + i);
    if let Some(o) = old.project {
        if o.order@.contains(k) || o.store@.dom().contains(k) {
            law_next_document_ids_fresh(old, k);
        }
    }
}

/// Resizing keeps the picture's layout, with every filter: when channel
/// `c` of every source row above row `k` is `a` and of every row from `k`
/// down is `b`, an output row whose reach into the source (its centre
/// `(y + 1/2) * h / nh`, give or take the filter's reach) lies above row `k`
/// is `a` in that channel, and one whose reach lies at or below row `k` is
/// `b`; so the top of the picture stays on top.
pub proof fn law_resize_keeps_layout(
    src: Seq<u8>,
    w: u32,
    h: u32,
    dst: Seq<u8>,
    nw: u32,
    nh: u32,
    filter: ResizeFilter,
    k: int,
    c: int,
    a: u8,
    b: u8,
    x: int,
    y: int,
)
    requires
        resampled_locally(src, w, h, dst, nw, nh, filter),
        0 < w <= 64 * nw,
        0 < h <= 64 * nh,
        0 <= x < nw,
        0 <= y < nh,
        0 <= c < 4,
        forall|sx: int, sy: int| 0 <= sx < w && 0 <= sy < h ==> #[trigger] px(src, w as int, sx, sy, c) == if sy
            < k {
            a
        } else {
            b
        },
    ensures
        (2 * y + 1) * h + reach_bound(h as int, nh as int, filter_support(filter)) < 2 * k * nh ==> px(
            dst,
            nw as int,
            x,
            y,
            c,
        ) == a,
        (2 * y + 1) * h - reach_bound(h as int, nh as int, filter_support(filter)) >= 2 * k * nh ==> px(
            dst,
            nw as int,
            x,
            y,
            c,
        ) == b,
{
    let s = filter_support(filter);
    let bound = reach_bound(h as int, nh as int, s);
    let m = nh as int;
    if (2 * y + 1) * h + bound < 2 * k * m {
        assert forall|sx: int, sy: int|
            0 <= sx < w && 0 <= sy < h && in_reach(sx, x, w as int, nw as int, s) && in_reach(
                sy,
                y,
                h as int,
                m,
                s,
            ) implies #[trigger] px(src, w as int, sx, sy, c) == a by {
            assert(2 * sy * m < 2 * k * m);
            assert(sy < k) by (nonlinear_arith)
                requires
                    2 * sy * m < 2 * k * m,
                    m > 0,
            ;
        }
        assert(uniform_around(src, w as int, h as int, nw as int, m, s, x, y, c, a));
    }
    if (2 * y + 1) * h - bound >= 2 * k * m {
        assert forall|sx: int, sy: int|
            0 <= sx < w && 0 <= sy < h && in_reach(sx, x, w as int, nw as int, s) && in_reach(
                sy,
                y,
                h as int,
                m,
                s,
            ) implies #[trigger] px(src, w as int, sx, sy, c) == b by {
            assert(2 * sy * m >= 2 * k * m);
            assert(sy >= k) by (nonlinear_arith)
                requires
                    2 * sy * m >= 2 * k * m,
                    m > 0,
            ;
        }
        assert(uniform_around(src, w as int, h as int, nw as int, m, s, x, y, c, b));
    }
}

/// Where byte `(y * w + x) * 4 + c` of a row-major RGBA image sits.
proof fn lemma_pixel_index(w: int, x: int, y: int, c: int)
    requires
        0 <= x < w,
        0 <= y,
        0 <= c < 4,
    ensures
        ((y * w + x) * 4 + c) / 4 == y * w + x,
        ((y * w + x) * 4 + c) % 4 == c,
        (y * w + x) % w == x,
        (y * w + x) / w == y,
{
    vstd::arithmetic::div_mod::lemma_fundamental_div_mod_converse((y * w + x) * 4 + c, 4, y * w + x, c);
    vstd::arithmetic::div_mod::lemma_fundamental_div_mod_converse(y * w + x, w, y, x);
}

/// The pixel coordinates of byte `i` of a `w` x `h` RGBA image.
proof fn lemma_byte_position(w: int, h: int, i: int)
    requires
        w > 0,
        h > 0,
        0 <= i < w * h * 4,
    ensures
        0 <= (i / 4) % w < w,
        0 <= (i / 4) / w < h,
        0 <= i % 4 < 4,
        ((i / 4) / w * w + (i / 4) % w) * 4 + i % 4 == i,
{
    let q = i / 4;
    let c = i % 4;
    let x = q % w;
    let y = q / w;
    vstd::arithmetic::div_mod::lemma_fundamental_div_mod(i, 4);
    vstd::arithmetic::div_mod::lemma_fundamental_div_mod(q, w);
    vstd::arithmetic::div_mod::lemma_mod_pos_bound(i, 4);
    vstd::arithmetic::div_mod::lemma_mod_pos_bound(q, w);
    assert(0 <= q < w * h) by (nonlinear_arith)
        requires
            i == 4 * q + c,
            0 <= c < 4,
            0 <= i < w * h * 4,
    ;
    assert(0 <= y < h) by (nonlinear_arith)
        requires
            q == w * y + x,
            0 <= x < w,
            0 <= q < w * h,
            w > 0,
    ;
    assert((y * w + x) * 4 + c == i) by (nonlinear_arith)
        requires
            q == w * y + x,
            i == 4 * q + c,
    ;
}

/// Turning a frame right and then left gives back the original pixels.
pub proof fn law_rotate_roundtrip(s: Seq<u8>, w: int, h: int)
    requires
        w >= 0,
        h >= 0,
        s.len() == w * h * 4,
    ensures
        rotated_left(rotated_right(s, w, h), h, w) == s,
{
    let t = rotated_right(s, w, h);
    let r = rotated_left(t, h, w);
    assert(h * w * 4 == w * h * 4) by (nonlinear_arith);
    if w > 0 && h > 0 {
        assert forall|i: int| 0 <= i < s.len() implies r[i] == s[i] by {
            lemma_byte_position(w, h, i);
            let x = (i / 4) % w;
            let y = (i / 4) / w;
            let c = i % 4;
            lemma_pixel_index(h, h - 1 - y, x, c);
            assert(0 <= (x * h + (h - 1 - y)) * 4 + c < h * w * 4) by (nonlinear_arith)
                requires
                    0 <= x < w,
                    0 <= y < h,
                    0 <= c < 4,
            ;
        }
    } else {
        assert(w * h * 4 == 0) by (nonlinear_arith)
            requires
                w == 0 || h == 0,
        ;
    }
    assert(r =~= s);
}

/// Turning a frame left and then right gives back the original pixels.
pub proof fn law_rotate_roundtrip_left_first(s: Seq<u8>, w: int, h: int)
    requires
        w >= 0,
        h >= 0,
        s.len() == w * h * 4,
    ensures
        rotated_right(rotated_left(s, w, h), h, w) == s,
{
    let t = rotated_left(s, w, h);
    let r = rotated_right(t, h, w);
    assert(h * w * 4 == w * h * 4) by (nonlinear_arith);
    if w > 0 && h > 0 {
        assert forall|i: int| 0 <= i < s.len() implies r[i] == s[i] by {
            lemma_byte_position(w, h, i);
            let x = (i / 4) % w;
            let y = (i / 4) / w;
            let c = i % 4;
            lemma_pixel_index(h, y, w - 1 - x, c);
            assert(0 <= ((w - 1 - x) * h + y) * 4 + c < h * w * 4) by (nonlinear_arith)
                requires
                    0 <= x < w,
                    0 <= y < h,
                    0 <= c < 4,
            ;
        }
    } else {
        assert(w * h * 4 == 0) by (nonlinear_arith)
            requires
                w == 0 || h == 0,
        ;
    }
    assert(r =~= s);
}

/// Mirroring a frame twice along the same axis gives back the original
/// pixels.
pub proof fn law_flip_twice(s: Seq<u8>, w: int, h: int)
    requires
        w >= 0,
        h >= 0,
        s.len() == w * h * 4,
    ensures
        flipped_h(flipped_h(s, w, h), w, h) == s,
        flipped_v(flipped_v(s, w, h), w, h) == s,
{
    let a = flipped_h(flipped_h(s, w, h), w, h);
    let b = flipped_v(flipped_v(s, w, h), w, h);
    if w > 0 && h > 0 {
        assert forall|i: int| 0 <= i < s.len() implies a[i] == s[i] && b[i] == s[i] by {
            lemma_byte_position(w, h, i);
            let x = (i / 4) % w;
            let y = (i / 4) / w;
            let c = i % 4;
            lemma_pixel_index(w, w - 1 - x, y, c);
            lemma_pixel_index(w, x, h - 1 - y, c);
            assert(0 <= (y * w + (w - 1 - x)) * 4 + c < w * h * 4 && 0 <= ((h - 1 - y) * w + x) * 4 + c < w * h
                * 4) by (nonlinear_arith)
                requires
                    0 <= x < w,
                    0 <= y < h,
                    0 <= c < 4,
            ;
        }
    } else {
        assert(w * h * 4 == 0) by (nonlinear_arith)
            requires
                w == 0 || h == 0,
        ;
    }
    assert(a =~= s);
    assert(b =~= s);
}

} // verus!
