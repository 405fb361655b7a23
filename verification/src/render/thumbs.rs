//! The frame list's decisions: where "move up" / "move down" put the
//! selected frame, which reorder a drag and drop asks for, and the
//! least-recently-used bookkeeping of thumbnail textures.
use crate::model::frame::FrameId;
use crate::model::order_ops::{first_pos, keep_if_in, lemma_first_pos, position_of, reorder_spec, filter_ids};
use vstd::prelude::*;

verus! {

/// A list that is `t` everywhere, filtered by a predicate true on all of it.
proof fn lemma_filter_keeps_all(t: Seq<FrameId>, pred: spec_fn(FrameId) -> bool)
    requires
        forall|i: int| 0 <= i < t.len() ==> pred(t[i]),
    ensures
        t.filter(pred) == t,
    decreases t.len(),
{
    reveal(Seq::filter);
    if t.len() > 0 {
        lemma_filter_keeps_all(t.drop_last(), pred);
        assert(t.drop_last().push(t.last()) =~= t);
    }
}

/// A list filtered by a predicate false on all of it is empty.
proof fn lemma_filter_drops_all(t: Seq<FrameId>, pred: spec_fn(FrameId) -> bool)
    requires
        forall|i: int| 0 <= i < t.len() ==> !pred(t[i]),
    ensures
        t.filter(pred) == Seq::<FrameId>::empty(),
    decreases t.len(),
{
    reveal(Seq::filter);
    if t.len() > 0 {
        lemma_filter_drops_all(t.drop_last(), pred);
    }
    assert(t.filter(pred) =~= Seq::<FrameId>::empty());
}

/// Splitting a duplicate-free list at the single id `x`: what stays when `x`
/// is filtered out, what is kept of it, and what of a prefix before it.
proof fn lemma_split_at_single(s: Seq<FrameId>, x: FrameId, p: int)
    requires
        s.no_duplicates(),
        0 <= p < s.len(),
        s[p] == x,
    ensures
        keep_if_in(s, seq![x], false) == s.remove(p),
        keep_if_in(s, seq![x], true) == seq![x],
        forall|k: int| 0 <= k <= p ==> #[trigger] keep_if_in(s.take(k), seq![x], true).len() == 0,
        forall|k: int| p < k <= s.len() ==> #[trigger] keep_if_in(s.take(k), seq![x], true).len() == 1,
{
    let out = |y: FrameId| seq![x].contains(y) == false;
    let inn = |y: FrameId| seq![x].contains(y) == true;
    let a = s.take(p);
    let b = s.skip(p + 1);
    assert forall|i: int| 0 <= i < a.len() implies a[i] != x by {
        assert(s[i] == a[i]);
    }
    assert forall|i: int| 0 <= i < b.len() implies b[i] != x by {
        assert(s[p + 1 + i] == b[i]);
    }
    assert forall|y: FrameId| #[trigger] seq![x].contains(y) <==> y == x by {
        if seq![x].contains(y) {
            let k = choose|k: int| 0 <= k < 1 && seq![x][k] == y;
        }
        if y == x {
            assert(seq![x][0] == y);
        }
    }
    lemma_filter_keeps_all(a, out);
    lemma_filter_keeps_all(b, out);
    lemma_filter_drops_all(a, inn);
    lemma_filter_drops_all(b, inn);
    lemma_filter_drops_all(seq![x], out);
    lemma_filter_keeps_all(seq![x], inn);
    assert(s =~= a + seq![x] + b);
    Seq::filter_distributes_over_add(a + seq![x], b, out);
    Seq::filter_distributes_over_add(a, seq![x], out);
    Seq::filter_distributes_over_add(a + seq![x], b, inn);
    Seq::filter_distributes_over_add(a, seq![x], inn);
    assert(keep_if_in(s, seq![x], false) =~= s.remove(p));
    assert(keep_if_in(s, seq![x], true) =~= seq![x]);
    assert forall|k: int| 0 <= k <= p implies #[trigger] keep_if_in(s.take(k), seq![x], true).len() == 0 by {
        let c = s.take(k);
        assert forall|i: int| 0 <= i < c.len() implies !inn(c[i]) by {
            assert(c[i] == s[i]);
        }
        lemma_filter_drops_all(c, inn);
    }
    assert forall|k: int| p < k <= s.len() implies #[trigger] keep_if_in(s.take(k), seq![x], true).len() == 1 by {
        let c = s.take(k);
        let d = s.subrange(p + 1, k);
        assert forall|i: int| 0 <= i < d.len() implies !inn(d[i]) by {
            assert(d[i] == s[p + 1 + i]);
        }
        lemma_filter_drops_all(d, inn);
        assert(c =~= a + seq![x] + d);
        Seq::filter_distributes_over_add(a + seq![x], d, inn);
        Seq::filter_distributes_over_add(a, seq![x], inn);
    }
}

/// Where a single moved id lands: index `target` of the order, less one when
/// it stood before that index.
pub open spec fn landing(order: Seq<FrameId>, x: FrameId, before: Option<FrameId>) -> int {
    let target = match before {
        Some(b) => first_pos(order, b),
        None => order.len() as int,
    };
    if first_pos(order, x) < target {
        target - 1
    } else {
        target
    }
}

/// Moving one id of a duplicate-free order takes it out and puts it back at
/// its landing index.
pub proof fn lemma_reorder_single(order: Seq<FrameId>, x: FrameId, before: Option<FrameId>)
    requires
        order.no_duplicates(),
        order.contains(x),
        before != Some(x),
    ensures
        0 <= landing(order, x, before) <= order.len() - 1,
        reorder_spec(order, seq![x], before) == order.remove(first_pos(order, x)).insert(
            landing(order, x, before),
            x,
        ),
{
    lemma_first_pos(order, x);
    let p = first_pos(order, x);
    let target = match before {
        Some(b) => first_pos(order, b),
        None => order.len() as int,
    };
    if let Some(b) = before {
        lemma_first_pos(order, b);
    }
    lemma_split_at_single(order, x, p);
    let rest = order.remove(p);
    let at = landing(order, x, before);
    assert(target != p);
    assert(0 <= at <= rest.len());
    assert(keep_if_in(order.take(target), seq![x], true).len() == if p < target { 1int } else { 0int });
    assert(reorder_spec(order, seq![x], before) =~= rest.insert(at, x));
}

/// Taking an id out and putting it back elsewhere changes a duplicate-free
/// order; putting it back where it was does not.
proof fn lemma_put_back(order: Seq<FrameId>, p: int, at: int)
    requires
        order.no_duplicates(),
        0 <= p < order.len(),
        0 <= at <= order.len() - 1,
    ensures
        (order.remove(p).insert(at, order[p]) == order) <==> at == p,
{
    let r = order.remove(p).insert(at, order[p]);
    if at == p {
        assert(r =~= order);
    } else {
        assert(r[at] == order[p]);
        assert(order[at] != order[p]);
    }
}

/// The id that "move up" puts the selected frame before: its predecessor,
/// when it has one.
pub open spec fn up_target(order: Seq<FrameId>, sel: FrameId) -> Option<FrameId> {
    let p = first_pos(order, sel);
    if 0 < p < order.len() {
        Some(order[p - 1])
    } else {
        None
    }
}

/// Where "move down" puts the selected frame: before the frame after its
/// successor, or at the end when its successor is last; nothing when it is
/// last or absent.
pub open spec fn down_target(order: Seq<FrameId>, sel: FrameId) -> Option<Option<FrameId>> {
    let p = first_pos(order, sel);
    if p + 2 < order.len() {
        Some(Some(order[p + 2]))
    } else if p + 1 < order.len() {
        Some(None)
    } else {
        None
    }
}

/// The reorder target of "move up" for the selected frame.
pub fn move_up_target(order: &[FrameId], sel: FrameId) -> (r: Option<FrameId>)
    ensures
        r == up_target(order@, sel),
{
    let p = position_of(order, sel);
    if 0 < p && p < order.len() {
        Some(order[p - 1])
    } else {
        None
    }
}

/// The reorder target of "move down" for the selected frame: `Some(before)`
/// when it can move.
pub fn move_down_target(order: &[FrameId], sel: FrameId) -> (r: Option<Option<FrameId>>)
    ensures
        r == down_target(order@, sel),
{
    let p = position_of(order, sel);
    if p < order.len() && order.len() - p > 2 {
        Some(Some(order[p + 2]))
    } else if p < order.len() && order.len() - p > 1 {
        Some(None)
    } else {
        None
    }
}

/// Swapping the entries at `i` and `i + 1`.
pub open spec fn swapped(s: Seq<FrameId>, i: int) -> Seq<FrameId> {
    s.update(i, s[i + 1]).update(i + 1, s[i])
}

/// "Move up" swaps the selected frame with its predecessor.
pub proof fn law_move_up_swaps(order: Seq<FrameId>, sel: FrameId)
    requires
        order.no_duplicates(),
        up_target(order, sel) is Some,
    ensures
        reorder_spec(order, seq![sel], up_target(order, sel)) == swapped(
            order,
            first_pos(order, sel) - 1,
        ),
{
    lemma_first_pos(order, sel);
    let p = first_pos(order, sel);
    let b = order[p - 1];
    lemma_first_pos(order, b);
    assert(first_pos(order, b) == p - 1) by {
        crate::model::order_ops::lemma_first_pos_unique(order, b, p - 1);
    }
    assert(order.contains(sel));
    lemma_reorder_single(order, sel, Some(b));
    assert(order.remove(p).insert(p - 1, sel) =~= swapped(order, p - 1));
}

/// "Move down" swaps the selected frame with its successor.
pub proof fn law_move_down_swaps(order: Seq<FrameId>, sel: FrameId)
    requires
        order.no_duplicates(),
        down_target(order, sel) is Some,
    ensures
        reorder_spec(order, seq![sel], down_target(order, sel)->0) == swapped(
            order,
            first_pos(order, sel),
        ),
{
    lemma_first_pos(order, sel);
    let p = first_pos(order, sel);
    assert(order.contains(sel)) by {
        assert(order[p] == sel);
    }
    let before = down_target(order, sel)->0;
    if p + 2 < order.len() {
        crate::model::order_ops::lemma_first_pos_unique(order, order[p + 2], p + 2);
    }
    lemma_reorder_single(order, sel, before);
    assert(order.remove(p).insert(p + 1, sel) =~= swapped(order, p));
}

/// The frame a drop lands before: the `gap`-th of the other frames, or the
/// end when there are fewer.
pub open spec fn gap_before(order: Seq<FrameId>, drag: FrameId, gap: int) -> Option<FrameId> {
    let others = keep_if_in(order, seq![drag], false);
    if 0 <= gap < others.len() {
        Some(others[gap])
    } else {
        None
    }
}

/// Dropping `drag` before `before` would leave it where it is.
pub open spec fn drop_in_place(order: Seq<FrameId>, drag: FrameId, before: Option<FrameId>) -> bool {
    match before {
        Some(b) => first_pos(order, b) == first_pos(order, drag) + 1,
        None => order.len() > 0 && order.last() == drag,
    }
}

/// The reorder a drop asks for: nothing when the dragged frame is not in the
/// order or would land where it is, else the frame to move it before.
pub open spec fn drop_request(order: Seq<FrameId>, drag: FrameId, gap: int) -> Option<Option<FrameId>> {
    if !order.contains(drag) || drop_in_place(order, drag, gap_before(order, drag, gap)) {
        None
    } else {
        Some(gap_before(order, drag, gap))
    }
}

/// The reorder that dropping the dragged frame into gap `gap` of the other
/// frames asks for (`Some(before)`), or `None` when it changes nothing.
pub fn drop_target(order: &[FrameId], drag: FrameId, gap: usize) -> (r: Option<Option<FrameId>>)
    ensures
        r == drop_request(order@, drag, gap as int),
{
    let p = position_of(order, drag);
    proof {
        lemma_first_pos(order@, drag);
    }
    if p == order.len() {
        return None;
    }
    let dragged: Vec<FrameId> = vec![drag];
    let others = filter_ids(order, dragged.as_slice(), false);
    proof {
        assert(dragged@ =~= seq![drag]);
    }
    let before = if gap < others.len() {
        Some(others[gap])
    } else {
        None
    };
    let in_place = match before {
        Some(b) => {
            let bp = position_of(order, b);
            bp == p + 1
        },
        None => order[order.len() - 1] == drag,
    };
    if in_place {
        None
    } else {
        Some(before)
    }
}

/// A drop asks for a reorder exactly when that reorder changes the order.
pub proof fn law_drop_changes_order(order: Seq<FrameId>, drag: FrameId, gap: int)
    requires
        order.no_duplicates(),
        order.contains(drag),
    ensures
        (drop_request(order, drag, gap) is None) <==> reorder_spec(
            order,
            seq![drag],
            gap_before(order, drag, gap),
        ) == order,
{
    lemma_first_pos(order, drag);
    let p = first_pos(order, drag);
    let before = gap_before(order, drag, gap);
    let others = keep_if_in(order, seq![drag], false);
    crate::model::order_ops::lemma_keep_facts(order, seq![drag], false);
    assert(seq![drag].contains(drag)) by {
        assert(seq![drag][0] == drag);
    }
    if let Some(b) = before {
        assert(others.contains(b)) by {
            assert(others[gap] == b);
        }
        assert(b != drag);
        lemma_first_pos(order, b);
    }
    lemma_reorder_single(order, drag, before);
    lemma_put_back(order, p, landing(order, drag, before));
    assert(order[p] == drag);
    let t = match before {
        Some(b) => first_pos(order, b),
        None => order.len() as int,
    };
    assert((landing(order, drag, before) == p) <==> drop_in_place(order, drag, before));
}

/// How many entries over `cap` a list of `len` entries holds.
pub open spec fn excess(len: int, cap: int) -> int {
    if len > cap {
        len - cap
    } else {
        0
    }
}

/// Least-recently-used order of the thumbnail textures, most recent last:
/// each id at most once, at most `limit` of them after a take-in or a
/// new limit has evicted the oldest.
pub struct ThumbLru {
    order: Vec<FrameId>,
    cap: usize,
}

impl View for ThumbLru {
    type V = Seq<FrameId>;

    closed spec fn view(&self) -> Seq<FrameId> {
        self.order@
    }
}

/// Splits off the first `k` ids of `v`: they are returned, the rest stays.
fn split_front(v: &mut Vec<FrameId>, k: usize) -> (front: Vec<FrameId>)
    requires
        k <= old(v)@.len(),
    ensures
        front@ == old(v)@.take(k as int),
        final(v)@ == old(v)@.skip(k as int),
{
    let mut front: Vec<FrameId> = Vec::new();
    let mut rest: Vec<FrameId> = Vec::new();
    let mut i: usize = 0;
    while i < v.len()
        invariant
            0 <= i <= v@.len(),
            k <= v@.len(),
            front@ == v@.take(if i < k { i as int } else { k as int }),
            rest@ == if i < k { Seq::<FrameId>::empty() } else { v@.subrange(k as int, i as int) },
        decreases v@.len() - i,
    {
        if i < k {
            front.push(v[i]);
        } else {
            rest.push(v[i]);
        }
        i = i + 1;
        proof {
            assert(front@ =~= v@.take(if i < k { i as int } else { k as int }));
            assert(rest@ =~= if i < k { Seq::<FrameId>::empty() } else { v@.subrange(k as int, i as int) });
        }
    }
    proof {
        assert(rest@ =~= v@.skip(k as int));
    }
    *v = rest;
    front
}

impl ThumbLru {
    /// The most entries kept after an eviction.
    pub closed spec fn limit(&self) -> nat {
        self.cap as nat
    }

    /// Each id occurs at most once.
    pub closed spec fn wf(&self) -> bool {
        self.order@.no_duplicates()
    }

    /// Empty, with the given limit.
    pub fn new(cap: usize) -> (r: Self)
        ensures
            r.wf(),
            r@ == Seq::<FrameId>::empty(),
            r.limit() == cap,
    {
        ThumbLru { order: Vec::new(), cap }
    }

    /// Number of ids held.
    pub fn len(&self) -> (r: usize)
        ensures
            r == self@.len(),
    {
        self.order.len()
    }

    /// Marks `id` as most recently used, if it is held.
    pub fn touch(&mut self, id: FrameId)
        requires
            old(self).wf(),
        ensures
            final(self).wf(),
            final(self).limit() == old(self).limit(),
            final(self)@ == if old(self)@.contains(id) {
                old(self)@.remove(first_pos(old(self)@, id)).push(id)
            } else {
                old(self)@
            },
    {
        proof {
            lemma_first_pos(self.order@, id);
        }
        let p = position_of(self.order.as_slice(), id);
        if p < self.order.len() {
            let ghost before = self.order@;
            self.order.remove(p);
            proof {
                assert forall|j: int| 0 <= j < self.order@.len() implies self.order@[j] != id by {
                    if j < p {
                        assert(self.order@[j] == before[j]);
                    } else {
                        assert(self.order@[j] == before[j + 1]);
                    }
                }
                assert(self.order@.no_duplicates()) by {
                    assert forall|a: int, b: int| 0 <= a < b < self.order@.len() implies self.order@[a]
                        != self.order@[b] by {
                        let a2 = if a < p { a } else { a + 1 };
                        let b2 = if b < p { b } else { b + 1 };
                        assert(self.order@[a] == before[a2]);
                        assert(self.order@[b] == before[b2]);
                    }
                }
            }
            self.order.push(id);
            proof {
                let r = self.order@;
                assert forall|a: int, b: int| 0 <= a < b < r.len() implies r[a] != r[b] by {
                    if b == r.len() - 1 {
                        assert(r[a] == self.order@.drop_last()[a]);
                    }
                }
            }
        }
    }

    /// Takes in `id` as most recently used and evicts the oldest ids while
    /// more than the limit are held; returns the evicted ids, oldest first.
    pub fn take_in(&mut self, id: FrameId) -> (evicted: Vec<FrameId>)
        requires
            old(self).wf(),
            !old(self)@.contains(id),
            old(self).limit() > 0,
        ensures
            final(self).wf(),
            final(self).limit() == old(self).limit(),
            evicted@ == old(self)@.push(id).take(
                excess(old(self)@.len() + 1int, old(self).limit() as int),
            ),
            final(self)@ == old(self)@.push(id).skip(
                excess(old(self)@.len() + 1int, old(self).limit() as int),
            ),
            final(self)@.contains(id),
    {
        let ghost before = self.order@;
        self.order.push(id);
        proof {
            let r = self.order@;
            assert forall|a: int, b: int| 0 <= a < b < r.len() implies r[a] != r[b] by {
                if b == r.len() - 1 {
                    assert(r[a] == before[a]);
                }
            }
        }
        let k: usize = if self.order.len() > self.cap {
            self.order.len() - self.cap
        } else {
            0
        };
        let ghost full = self.order@;
        let evicted = split_front(&mut self.order, k);
        proof {
            assert(self.order@[self.order@.len() - 1] == full[full.len() - 1]);
            assert forall|a: int, b: int| 0 <= a < b < self.order@.len() implies self.order@[a]
                != self.order@[b] by {
                assert(self.order@[a] == full[a + k]);
                assert(self.order@[b] == full[b + k]);
            }
        }
        evicted
    }

    /// Sets the limit and evicts the oldest ids while more are held;
    /// returns the evicted ids, oldest first.
    pub fn set_cap(&mut self, cap: usize) -> (evicted: Vec<FrameId>)
        requires
            old(self).wf(),
        ensures
            final(self).wf(),
            final(self).limit() == cap,
            evicted@ == old(self)@.take(excess(old(self)@.len() as int, cap as int)),
            final(self)@ == old(self)@.skip(excess(old(self)@.len() as int, cap as int)),
    {
        self.cap = cap;
        let k: usize = if self.order.len() > cap {
            self.order.len() - cap
        } else {
            0
        };
        let ghost full = self.order@;
        let evicted = split_front(&mut self.order, k);
        proof {
            assert forall|a: int, b: int| 0 <= a < b < self.order@.len() implies self.order@[a]
                != self.order@[b] by {
                assert(self.order@[a] == full[a + k]);
                assert(self.order@[b] == full[b + k]);
            }
        }
        evicted
    }

    /// Forgets every id; the limit stays.
    pub fn clear(&mut self)
        ensures
            final(self).wf(),
            final(self).limit() == old(self).limit(),
            final(self)@ == Seq::<FrameId>::empty(),
    {
        self.order = Vec::new();
    }
}

/// Thumbnail textures kept by default.
pub const THUMB_CACHE_DEFAULT_CAP: usize = 400;

/// Thumbnail limit for a document of `frames` frames: room for every frame
/// (at least the default) plus 64.
pub fn cap_for(frames: usize) -> (r: usize)
    requires
        frames <= usize::MAX - 64,
    ensures
        r == (if frames > THUMB_CACHE_DEFAULT_CAP { frames } else { THUMB_CACHE_DEFAULT_CAP }) + 64,
{
    let base = if frames > THUMB_CACHE_DEFAULT_CAP {
        frames
    } else {
        THUMB_CACHE_DEFAULT_CAP
    };
    base + 64
}

} // verus!
