//! Sequence operations on frame-id lists (orders and selections), each with
//! the exact list it produces.
use super::frame::FrameId;
use vstd::prelude::*;

verus! {

/// Ids strictly increasing by raw value (hence without duplicates).
pub open spec fn ascending_ids(s: Seq<FrameId>) -> bool {
    forall|i: int, j: int| 0 <= i < j < s.len() ==> s[i].0 < s[j].0
}

/// Index of the first occurrence of `x` in `s`, or `s.len()` when absent.
pub open spec fn first_pos(s: Seq<FrameId>, x: FrameId) -> int
    decreases s.len(),
{
    if s.len() == 0 {
        0
    } else if s[0] == x {
        0
    } else {
        1 + first_pos(s.drop_first(), x)
    }
}

/// Keeps the ids of `s` whose membership in `ids` equals `member`.
pub open spec fn keep_if_in(s: Seq<FrameId>, ids: Seq<FrameId>, member: bool) -> Seq<FrameId> {
    s.filter(|x: FrameId| ids.contains(x) == member)
}

/// What `first_pos` is.
pub proof fn lemma_first_pos(s: Seq<FrameId>, x: FrameId)
    ensures
        0 <= first_pos(s, x) <= s.len(),
        first_pos(s, x) == s.len() <==> !s.contains(x),
        first_pos(s, x) < s.len() ==> s[first_pos(s, x)] == x,
        forall|j: int| 0 <= j < first_pos(s, x) ==> s[j] != x,
    decreases s.len(),
{
    if s.len() > 0 && s[0] != x {
        let t = s.drop_first();
        lemma_first_pos(t, x);
        assert forall|j: int| 0 <= j < first_pos(s, x) implies s[j] != x by {
            if j > 0 {
                assert(s[j] == t[j - 1]);
            }
        }
        if s.contains(x) {
            let k = choose|k: int| 0 <= k < s.len() && s[k] == x;
            assert(t[k - 1] == x);
        }
        if t.contains(x) {
            let k = choose|k: int| 0 <= k < t.len() && t[k] == x;
            assert(s[k + 1] == x);
        }
    }
}

/// The position in a list without duplicates is the unique index holding `x`.
pub proof fn lemma_first_pos_unique(s: Seq<FrameId>, x: FrameId, i: int)
    requires
        s.no_duplicates(),
        0 <= i < s.len(),
        s[i] == x,
    ensures
        first_pos(s, x) == i,
{
    lemma_first_pos(s, x);
    assert(s.contains(x));
}

/// An element of a non-empty increasing list is no larger than its last
/// element, and is that element or one of the others.
proof fn lemma_ascending_member(a: Seq<FrameId>, y: FrameId)
    requires
        ascending_ids(a),
        a.len() > 0,
        a.contains(y),
    ensures
        y.0 <= a.last().0,
        y == a.last() || a.drop_last().contains(y),
{
    let k = choose|k: int| 0 <= k < a.len() && a[k] == y;
    if k < a.len() - 1 {
        assert(a[k].0 < a[a.len() - 1].0);
        assert(a.drop_last()[k] == y);
    }
}

/// The other elements of two increasing lists with the same elements and
/// the same last element are the same.
proof fn lemma_ascending_rest(a: Seq<FrameId>, b: Seq<FrameId>, y: FrameId)
    requires
        ascending_ids(a),
        ascending_ids(b),
        a.len() > 0,
        b.len() > 0,
        a.last() == b.last(),
        forall|x: FrameId| a.contains(x) <==> b.contains(x),
        a.drop_last().contains(y),
    ensures
        b.drop_last().contains(y),
{
    let k = choose|k: int| 0 <= k < a.len() - 1 && a.drop_last()[k] == y;
    assert(a[k] == y);
    assert(a[k].0 < a[a.len() - 1].0);
    assert(a.contains(y));
    lemma_ascending_member(b, y);
}

/// Two increasing lists with the same elements are equal.
#[verifier::spinoff_prover]
pub proof fn lemma_ascending_unique(a: Seq<FrameId>, b: Seq<FrameId>)
    requires
        ascending_ids(a),
        ascending_ids(b),
        a.to_set() == b.to_set(),
    ensures
        a == b,
    decreases a.len() + b.len(),
{
    assert forall|x: FrameId| a.contains(x) <==> b.contains(x) by {
        assert(a.contains(x) <==> a.to_set().contains(x));
        assert(b.contains(x) <==> b.to_set().contains(x));
    }
    if a.len() == 0 {
        if b.len() > 0 {
            assert(b.contains(b[0]));
        }
        assert(a =~= b);
    } else if b.len() == 0 {
        assert(a.contains(a[0]));
    } else {
        assert(a.contains(a[a.len() - 1]));
        assert(b.contains(b[b.len() - 1]));
        lemma_ascending_member(a, b.last());
        lemma_ascending_member(b, a.last());
        let a2 = a.drop_last();
        let b2 = b.drop_last();
        assert(a2.to_set() =~= b2.to_set()) by {
            assert forall|y: FrameId| a2.to_set().contains(y) implies b2.to_set().contains(y) by {
                assert(a2.contains(y));
                lemma_ascending_rest(a, b, y);
            }
            assert forall|y: FrameId| b2.to_set().contains(y) implies a2.to_set().contains(y) by {
                assert(b2.contains(y));
                lemma_ascending_rest(b, a, y);
            }
        }
        lemma_ascending_unique(a2, b2);
        assert(a =~= a2.push(a.last()));
        assert(b =~= b2.push(b.last()));
    }
}

/// An increasing list has no duplicates.
pub proof fn lemma_ascending_distinct(s: Seq<FrameId>)
    requires
        ascending_ids(s),
    ensures
        s.no_duplicates(),
{
}

/// Copy of an id list.
pub fn copy_ids(v: &[FrameId]) -> (r: Vec<FrameId>)
    ensures
        r@ == v@,
{
    let mut r: Vec<FrameId> = Vec::new();
    let mut i: usize = 0;
    while i < v.len()
        invariant
            0 <= i <= v@.len(),
            r@ == v@.take(i as int),
        decreases v@.len() - i,
    {
        r.push(v[i]);
        i = i + 1;
        proof {
            assert(r@ =~= v@.take(i as int));
        }
    }
    proof {
        assert(v@.take(v@.len() as int) =~= v@);
    }
    r
}

/// Whether `x` occurs in `v`.
pub fn contains_id(v: &[FrameId], x: FrameId) -> (r: bool)
    ensures
        r == v@.contains(x),
{
    let mut i: usize = 0;
    while i < v.len()
        invariant
            0 <= i <= v@.len(),
            forall|j: int| 0 <= j < i ==> v@[j] != x,
        decreases v@.len() - i,
    {
        if v[i] == x {
            return true;
        }
        i = i + 1;
    }
    false
}

/// Index of the first occurrence of `x`, or `v.len()` when absent.
pub fn position_of(v: &[FrameId], x: FrameId) -> (r: usize)
    ensures
        r == first_pos(v@, x),
{
    proof {
        lemma_first_pos(v@, x);
    }
    let mut i: usize = 0;
    while i < v.len()
        invariant
            0 <= i <= v@.len(),
            forall|j: int| 0 <= j < i ==> v@[j] != x,
            0 <= first_pos(v@, x) <= v@.len(),
            first_pos(v@, x) < v@.len() ==> v@[first_pos(v@, x)] == x,
            forall|j: int| 0 <= j < first_pos(v@, x) ==> v@[j] != x,
        decreases v@.len() - i,
    {
        if v[i] == x {
            return i;
        }
        i = i + 1;
    }
    i
}

/// The ids of `v` whose membership in `ids` equals `member`, in order.
pub fn filter_ids(v: &[FrameId], ids: &[FrameId], member: bool) -> (r: Vec<FrameId>)
    ensures
        r@ == keep_if_in(v@, ids@, member),
{
    let ghost p = |x: FrameId| ids@.contains(x) == member;
    let mut r: Vec<FrameId> = Vec::new();
    let mut i: usize = 0;
    while i < v.len()
        invariant
            0 <= i <= v@.len(),
            p == (|x: FrameId| ids@.contains(x) == member),
            r@ == v@.take(i as int).filter(p),
        decreases v@.len() - i,
    {
        let x = v[i];
        proof {
            assert(v@.take(i + 1) =~= v@.take(i as int).push(x));
            v@.take(i as int).lemma_filter_push(x, p);
        }
        if contains_id(ids, x) == member {
            r.push(x);
        }
        i = i + 1;
    }
    proof {
        assert(v@.take(v@.len() as int) =~= v@);
    }
    r
}

/// The elements of `v` as an increasing list without duplicates
/// (a sort followed by a dedup).
pub fn sorted_unique(v: &[FrameId]) -> (r: Vec<FrameId>)
    ensures
        ascending_ids(r@),
        r@.to_set() == v@.to_set(),
{
    let mut r: Vec<FrameId> = Vec::new();
    let mut i: usize = 0;
    while i < v.len()
        invariant
            0 <= i <= v@.len(),
            ascending_ids(r@),
            r@.to_set() == v@.take(i as int).to_set(),
        decreases v@.len() - i,
    {
        let x = v[i];
        let mut p: usize = 0;
        while p < r.len() && r[p].0 < x.0
            invariant
                0 <= p <= r@.len(),
                forall|j: int| 0 <= j < p ==> r@[j].0 < x.0,
            decreases r@.len() - p,
        {
            p = p + 1;
        }
        let ghost before = r@;
        if p < r.len() && r[p].0 == x.0 {
            proof {
                assert(r@[p as int] == x);
            }
        } else {
            r.insert(p, x);
            proof {
                assert forall|a: int, b: int| 0 <= a < b < r@.len() implies r@[a].0 < r@[b].0 by {
                    if b < p {
                    } else if b == p {
                    } else if a < p {
                        assert(r@[b] == before[b - 1]);
                        if p < before.len() {
                            assert(before[p as int].0 <= before[b - 1].0);
                        }
                    } else if a == p {
                        assert(r@[b] == before[b - 1]);
                        assert(before[p as int].0 <= before[b - 1].0);
                    } else {
                        assert(r@[a] == before[a - 1]);
                        assert(r@[b] == before[b - 1]);
                    }
                }
                assert(r@.to_set() =~= before.to_set().insert(x)) by {
                    assert forall|y: FrameId| r@.to_set().contains(y) implies before.to_set().insert(
                        x,
                    ).contains(y) by {
                        let k = choose|k: int| 0 <= k < r@.len() && r@[k] == y;
                        if k < p {
                            assert(before[k] == y);
                        } else if k > p {
                            assert(before[k - 1] == y);
                        }
                    }
                    assert forall|y: FrameId| before.to_set().insert(x).contains(y) implies r@.to_set().contains(
                        y,
                    ) by {
                        if y == x {
                            assert(r@[p as int] == x);
                        } else {
                            let k = choose|k: int| 0 <= k < before.len() && before[k] == y;
                            if k < p {
                                assert(r@[k] == y);
                            } else {
                                assert(r@[k + 1] == y);
                            }
                        }
                    }
                }
            }
        }
        proof {
            assert(v@.take(i + 1) =~= v@.take(i as int).push(x));
            v@.take(i as int).lemma_push_to_set_commute(x);
            if p < before.len() && before[p as int].0 == x.0 {
                assert(before.to_set().contains(x));
                assert(r@.to_set() =~= v@.take(i + 1).to_set());
            }
        }
        i = i + 1;
    }
    proof {
        assert(v@.take(v@.len() as int) =~= v@);
    }
    r
}


/// Moves the ids of `order` listed in `moved`, keeping their relative order,
/// to just before `before` (to the end when `before` is `None` or absent).
/// The insertion point is counted in the original order and then shifted
/// left by the moved ids that preceded it.
pub open spec fn reorder_spec(order: Seq<FrameId>, moved: Seq<FrameId>, before: Option<FrameId>) -> Seq<FrameId> {
    let target = match before {
        Some(b) => first_pos(order, b),
        None => order.len() as int,
    };
    let at = target - keep_if_in(order.take(target), moved, true).len();
    let rest = keep_if_in(order, moved, false);
    rest.take(at) + keep_if_in(order, moved, true) + rest.skip(at)
}

/// Number of ids of `order` before index `i` that are selected.
pub open spec fn rank_in(order: Seq<FrameId>, sel: Seq<FrameId>, i: int) -> int {
    keep_if_in(order.take(i), sel, true).len() as int
}

/// Reverses, in place, the relative order of the selected ids of `order`;
/// unselected ids keep their positions.
pub open spec fn reverse_spec(order: Seq<FrameId>, sel: Seq<FrameId>) -> Seq<FrameId> {
    let picked = keep_if_in(order, sel, true);
    Seq::new(
        order.len(),
        |i: int|
            if sel.contains(order[i]) {
                picked[picked.len() - 1 - rank_in(order, sel, i)]
            } else {
                order[i]
            },
    )
}

/// The two halves of a partition by membership add up to the whole.
pub proof fn lemma_partition_len(s: Seq<FrameId>, ids: Seq<FrameId>)
    ensures
        keep_if_in(s, ids, true).len() + keep_if_in(s, ids, false).len() == s.len(),
    decreases s.len(),
{
    if s.len() > 0 {
        let t = s.drop_last();
        lemma_partition_len(t, ids);
        assert(s == t.push(s.last()));
        t.lemma_filter_push(s.last(), |x: FrameId| ids.contains(x) == true);
        t.lemma_filter_push(s.last(), |x: FrameId| ids.contains(x) == false);
    }
}

/// Filtering a prefix keeps no more than filtering the whole list.
pub proof fn lemma_filter_prefix_len(s: Seq<FrameId>, ids: Seq<FrameId>, member: bool, t: int)
    requires
        0 <= t <= s.len(),
    ensures
        keep_if_in(s.take(t), ids, member).len() <= keep_if_in(s, ids, member).len(),
        keep_if_in(s.take(t), ids, member).len() <= t,
{
    broadcast use vstd::seq_lib::group_filter_ensures;
    assert(s =~= s.take(t) + s.skip(t));
    Seq::filter_distributes_over_add(s.take(t), s.skip(t), |x: FrameId| ids.contains(x) == member);
}

/// Appends `src[from..to]` to `dst`.
fn append_range(dst: &mut Vec<FrameId>, src: &[FrameId], from: usize, to: usize)
    requires
        from <= to <= src@.len(),
    ensures
        final(dst)@ == old(dst)@ + src@.subrange(from as int, to as int),
{
    let mut i = from;
    while i < to
        invariant
            from <= i <= to <= src@.len(),
            dst@ == old(dst)@ + src@.subrange(from as int, i as int),
        decreases to - i,
    {
        dst.push(src[i]);
        i = i + 1;
        proof {
            assert(dst@ =~= old(dst)@ + src@.subrange(from as int, i as int));
        }
    }
}

/// The order after moving `moved` before `before` (see `reorder_spec`).
pub fn reorder(order: &[FrameId], moved: &[FrameId], before: Option<FrameId>) -> (r: Vec<FrameId>)
    ensures
        r@ == reorder_spec(order@, moved@, before),
{
    let target = match before {
        Some(b) => position_of(order, b),
        None => order.len(),
    };
    proof {
        if let Some(b) = before {
            lemma_first_pos(order@, b);
        }
    }
    let mut prefix: Vec<FrameId> = Vec::new();
    append_range(&mut prefix, order, 0, target);
    let head = filter_ids(prefix.as_slice(), moved, true);
    let ghost head_src = order@.subrange(0, target as int);
    proof {
        assert(head_src =~= order@.take(target as int));
        assert(prefix@ =~= head_src);
        lemma_partition_len(order@.take(target as int), moved@);
        lemma_filter_prefix_len(order@, moved@, false, target as int);
    }
    let at = target - head.len();
    let rest = filter_ids(order, moved, false);
    let block = filter_ids(order, moved, true);
    let mut r: Vec<FrameId> = Vec::new();
    append_range(&mut r, rest.as_slice(), 0, at);
    append_range(&mut r, block.as_slice(), 0, block.len());
    append_range(&mut r, rest.as_slice(), at, rest.len());
    proof {
        assert(r@ =~= reorder_spec(order@, moved@, before));
    }
    r
}

/// Reverses the relative order of the ids of `order` that occur in `sel`
/// (see `reverse_spec`).
pub fn reverse_selected(order: &mut Vec<FrameId>, sel: &[FrameId])
    ensures
        final(order)@ == reverse_spec(old(order)@, sel@),
{
    let ghost o = order@;
    let n = order.len();
    let mut positions: Vec<usize> = Vec::new();
    let mut ids: Vec<FrameId> = Vec::new();
    let mut i: usize = 0;
    while i < n
        invariant
            n == o.len(),
            order@ == o,
            0 <= i <= n,
            ids@ == keep_if_in(o.take(i as int), sel@, true),
            positions@.len() == ids@.len(),
            forall|k: int| #![trigger positions@[k]] 0 <= k < positions@.len() ==> {
                &&& positions@[k] < i
                &&& o[positions@[k] as int] == ids@[k]
                &&& rank_in(o, sel@, positions@[k] as int) == k
            },
            forall|a: int, b: int| 0 <= a < b < positions@.len() ==> positions@[a] < positions@[b],
            forall|j: int| 0 <= j < i && sel@.contains(#[trigger] o[j]) ==> exists|k: int|
                0 <= k < positions@.len() && positions@[k] == j,
        decreases n - i,
    {
        let x = order[i];
        proof {
            assert(o.take(i + 1) =~= o.take(i as int).push(x));
            o.take(i as int).lemma_filter_push(x, |y: FrameId| sel@.contains(y) == true);
        }
        let ghost old_pos = positions@;
        let c = contains_id(sel, x);
        if c {
            let ghost k = positions@.len() as int;
            positions.push(i);
            ids.push(x);
            proof {
                assert(positions@[k] == i);
                assert(rank_in(o, sel@, i as int) == k);
            }
        }
        proof {
            assert forall|j: int| 0 <= j < i + 1 && sel@.contains(#[trigger] o[j]) implies exists|kk: int|
                0 <= kk < positions@.len() && positions@[kk] == j by {
                if j < i {
                    let kk = choose|kk: int| 0 <= kk < old_pos.len() && old_pos[kk] == j;
                    assert(positions@[kk] == old_pos[kk]);
                } else {
                    assert(positions@[old_pos.len() as int] == j);
                }
            }
        }
        i = i + 1;
    }
    proof {
        assert(o.take(n as int) =~= o);
    }
    let m = ids.len();
    let mut k: usize = 0;
    while k < m
        invariant
            n == o.len(),
            order@.len() == n,
            m == ids@.len(),
            m == positions@.len(),
            0 <= k <= m,
            forall|kk: int| #![trigger positions@[kk]] 0 <= kk < m ==> positions@[kk] < n,
            forall|a: int, b: int| 0 <= a < b < m ==> positions@[a] < positions@[b],
            forall|kk: int| 0 <= kk < k ==> order@[#[trigger] positions@[kk] as int] == ids@[m - 1 - kk],
            forall|j: int| 0 <= j < n && (forall|kk: int| 0 <= kk < k ==> #[trigger] positions@[kk] != j)
                ==> order@[j] == o[j],
        decreases m - k,
    {
        let pos = positions[k];
        let val = ids[m - 1 - k];
        order.set(pos, val);
        k = k + 1;
    }
    proof {
        let picked = keep_if_in(o, sel@, true);
        assert(picked == ids@);
        assert forall|j: int| 0 <= j < n implies order@[j] == reverse_spec(o, sel@)[j] by {
            if sel@.contains(o[j]) {
                let kk = choose|kk: int| 0 <= kk < positions@.len() && positions@[kk] == j;
                assert(order@[positions@[kk] as int] == ids@[m - 1 - kk]);
            } else {
                assert forall|kk: int| 0 <= kk < m implies #[trigger] positions@[kk] != j by {
                    broadcast use vstd::seq_lib::group_filter_ensures;
                    assert(o[positions@[kk] as int] == ids@[kk]);
                    assert(picked[kk] == ids@[kk]);
                }
            }
        }
        assert(order@ =~= reverse_spec(o, sel@));
    }
}


/// A membership filter keeps only elements of the list that pass it, keeps
/// all of them, and keeps a duplicate-free list duplicate-free.
pub proof fn lemma_keep_facts(s: Seq<FrameId>, ids: Seq<FrameId>, member: bool)
    ensures
        forall|i: int| #![trigger keep_if_in(s, ids, member)[i]]
            0 <= i < keep_if_in(s, ids, member).len() ==> s.contains(keep_if_in(s, ids, member)[i])
                && ids.contains(keep_if_in(s, ids, member)[i]) == member,
        forall|x: FrameId| #![trigger keep_if_in(s, ids, member).contains(x)]
            keep_if_in(s, ids, member).contains(x) <==> s.contains(x) && ids.contains(x) == member,
        s.no_duplicates() ==> keep_if_in(s, ids, member).no_duplicates(),
    decreases s.len(),
{
    let p = |x: FrameId| ids.contains(x) == member;
    if s.len() > 0 {
        let t = s.drop_last();
        lemma_keep_facts(t, ids, member);
        assert(s == t.push(s.last()));
        t.lemma_filter_push(s.last(), p);
        let f = keep_if_in(s, ids, member);
        let ft = keep_if_in(t, ids, member);
        assert forall|i: int| 0 <= i < f.len() implies s.contains(f[i]) && ids.contains(f[i]) == member by {
            if i < ft.len() {
                assert(f[i] == ft[i]);
                let k = choose|k: int| 0 <= k < t.len() && t[k] == ft[i];
                assert(s[k] == f[i]);
            } else {
                assert(f[i] == s.last());
                assert(s[s.len() - 1] == f[i]);
            }
        }
        assert forall|x: FrameId| f.contains(x) <==> s.contains(x) && ids.contains(x) == member by {
            if f.contains(x) {
                let i = choose|i: int| 0 <= i < f.len() && f[i] == x;
            }
            if s.contains(x) && ids.contains(x) == member {
                let k = choose|k: int| 0 <= k < s.len() && s[k] == x;
                if k < t.len() {
                    assert(t[k] == x);
                    assert(ft.contains(x));
                    let j = choose|j: int| 0 <= j < ft.len() && ft[j] == x;
                    assert(f[j] == x);
                } else {
                    assert(f[f.len() - 1] == x);
                }
            }
        }
        if s.no_duplicates() {
            assert(t.no_duplicates());
            if p(s.last()) {
                assert(!ft.contains(s.last())) by {
                    if ft.contains(s.last()) {
                        assert(t.contains(s.last()));
                        let k = choose|k: int| 0 <= k < t.len() && t[k] == s.last();
                        assert(s[k] == s[s.len() - 1]);
                    }
                }
                assert forall|a: int, b: int| 0 <= a < b < f.len() implies f[a] != f[b] by {
                    if b == f.len() - 1 {
                        assert(f[a] == ft[a]);
                        assert(ft.contains(ft[a]));
                    } else {
                        assert(f[a] == ft[a]);
                        assert(f[b] == ft[b]);
                    }
                }
            }
        }
    } else {
        reveal(Seq::filter);
    }
}

/// Moving a block keeps exactly the ids of the order, without duplicates.
pub proof fn lemma_reorder_perm(order: Seq<FrameId>, moved: Seq<FrameId>, before: Option<FrameId>)
    requires
        order.no_duplicates(),
    ensures
        reorder_spec(order, moved, before).no_duplicates(),
        forall|x: FrameId| #![trigger reorder_spec(order, moved, before).contains(x)]
            reorder_spec(order, moved, before).contains(x) <==> order.contains(x),
        reorder_spec(order, moved, before).len() == order.len(),
{
    let target = match before {
        Some(b) => first_pos(order, b),
        None => order.len() as int,
    };
    if let Some(b) = before {
        lemma_first_pos(order, b);
    }
    let at = target - keep_if_in(order.take(target), moved, true).len();
    let rest = keep_if_in(order, moved, false);
    let block = keep_if_in(order, moved, true);
    lemma_partition_len(order.take(target), moved);
    lemma_filter_prefix_len(order, moved, false, target);
    lemma_partition_len(order, moved);
    lemma_keep_facts(order, moved, false);
    lemma_keep_facts(order, moved, true);
    let a = rest.take(at);
    let c = rest.skip(at);
    assert(rest == a + c);
    assert(a.no_duplicates());
    assert(c.no_duplicates());
    assert forall|i: int, j: int| 0 <= i < a.len() && 0 <= j < block.len() implies a[i] != block[j] by {
        assert(rest[i] == a[i]);
        assert(!moved.contains(rest[i]));
        assert(moved.contains(block[j]));
    }
    vstd::seq_lib::lemma_no_dup_in_concat(a, block);
    assert forall|i: int, j: int| 0 <= i < (a + block).len() && 0 <= j < c.len() implies (a
        + block)[i] != c[j] by {
        assert(rest[at + j] == c[j]);
        if i < a.len() {
            assert(rest[i] == (a + block)[i]);
        } else {
            assert(block[i - a.len()] == (a + block)[i]);
            assert(!moved.contains(rest[at + j]));
        }
    }
    vstd::seq_lib::lemma_no_dup_in_concat(a + block, c);
    let r = reorder_spec(order, moved, before);
    assert(r == a + block + c);
    assert forall|x: FrameId| r.contains(x) <==> order.contains(x) by {
        if r.contains(x) {
            let i = choose|i: int| 0 <= i < r.len() && r[i] == x;
            if i < a.len() {
                assert(rest[i] == x);
                assert(rest.contains(x));
            } else if i < a.len() + block.len() {
                assert(block[i - a.len()] == x);
                assert(block.contains(x));
            } else {
                assert(rest[at + (i - a.len() - block.len())] == x);
                assert(rest.contains(x));
            }
        }
        if order.contains(x) {
            if moved.contains(x) {
                assert(block.contains(x));
                let j = choose|j: int| 0 <= j < block.len() && block[j] == x;
                assert(r[a.len() + j] == x);
            } else {
                assert(rest.contains(x));
                let j = choose|j: int| 0 <= j < rest.len() && rest[j] == x;
                if j < at {
                    assert(r[j] == x);
                } else {
                    assert(r[a.len() + block.len() + (j - at)] == x);
                }
            }
        }
    }
}

/// Reversing the selected positions keeps exactly the ids of the order,
/// without duplicates.
pub proof fn lemma_reverse_perm(order: Seq<FrameId>, sel: Seq<FrameId>)
    requires
        order.no_duplicates(),
    ensures
        reverse_spec(order, sel).no_duplicates(),
        forall|x: FrameId| #![trigger reverse_spec(order, sel).contains(x)]
            reverse_spec(order, sel).contains(x) ==> order.contains(x),
        reverse_spec(order, sel).len() == order.len(),
{
    let picked = keep_if_in(order, sel, true);
    let r = reverse_spec(order, sel);
    lemma_keep_facts(order, sel, true);
    assert forall|i: int| #![trigger rank_in(order, sel, i)]
        0 <= i < order.len() && sel.contains(order[i]) implies 0 <= rank_in(order, sel, i) < picked.len() by {
        lemma_filter_prefix_len(order, sel, true, i + 1);
        assert(order.take(i + 1) == order.take(i).push(order[i]));
        order.take(i).lemma_filter_push(order[i], |x: FrameId| sel.contains(x) == true);
    }
    assert forall|i: int, j: int| 0 <= i < j < order.len() && sel.contains(order[i]) && sel.contains(
        order[j],
    ) implies rank_in(order, sel, i) < rank_in(order, sel, j) by {
        lemma_filter_prefix_len(order.take(j), sel, true, i + 1);
        assert(order.take(j).take(i + 1) == order.take(i + 1));
        assert(order.take(i + 1) == order.take(i).push(order[i]));
        order.take(i).lemma_filter_push(order[i], |x: FrameId| sel.contains(x) == true);
    }
    assert forall|a: int, b: int| 0 <= a < b < r.len() implies r[a] != r[b] by {
        let sa = sel.contains(order[a]);
        let sb = sel.contains(order[b]);
        if sa && sb {
            let ka = picked.len() - 1 - rank_in(order, sel, a);
            let kb = picked.len() - 1 - rank_in(order, sel, b);
            assert(ka != kb);
        } else if sa && !sb {
            assert(sel.contains(picked[picked.len() - 1 - rank_in(order, sel, a)]));
        } else if !sa && sb {
            assert(sel.contains(picked[picked.len() - 1 - rank_in(order, sel, b)]));
        }
    }
    assert forall|x: FrameId| r.contains(x) implies order.contains(x) by {
        let i = choose|i: int| 0 <= i < r.len() && r[i] == x;
        if sel.contains(order[i]) {
            let k = picked.len() - 1 - rank_in(order, sel, i);
            assert(order.contains(picked[k]));
        } else {
            assert(order[i] == x);
        }
    }
}

/// The selected id at position `j` is the one that filtering the order
/// puts after the selected ids that come before it.
proof fn lemma_picked_at_rank(order: Seq<FrameId>, sel: Seq<FrameId>, j: int)
    requires
        0 <= j < order.len(),
        sel.contains(order[j]),
    ensures
        keep_if_in(order, sel, true).len() == rank_in(order, sel, j) + 1 + keep_if_in(
            order.skip(j + 1),
            sel,
            true,
        ).len(),
        keep_if_in(order, sel, true)[rank_in(order, sel, j)] == order[j],
{
    broadcast use vstd::seq_lib::group_filter_ensures;
    let f = |x: FrameId| sel.contains(x) == true;
    assert(order =~= order.take(j + 1) + order.skip(j + 1));
    Seq::filter_distributes_over_add(order.take(j + 1), order.skip(j + 1), f);
    assert(order.take(j + 1) =~= order.take(j).push(order[j]));
    order.take(j).lemma_filter_push(order[j], f);
    let front = keep_if_in(order.take(j + 1), sel, true);
    assert(front == keep_if_in(order.take(j), sel, true).push(order[j]));
    assert(keep_if_in(order, sel, true) == front + keep_if_in(order.skip(j + 1), sel, true));
    assert(keep_if_in(order, sel, true)[rank_in(order, sel, j)] == front[rank_in(order, sel, j)]);
}

/// Reversing the selected frames mirrors them across the selection: a
/// selected position with `k` selected positions before it receives the
/// frame of the selected position with `k` selected positions after it
/// (so the first selected position gets the last selected frame, and so on
/// inwards), and every unselected position keeps its frame.
pub proof fn law_reverse_mirrors_selection(order: Seq<FrameId>, sel: Seq<FrameId>, i: int, j: int)
    requires
        0 <= i < order.len(),
        0 <= j < order.len(),
    ensures
        !sel.contains(order[i]) ==> reverse_spec(order, sel)[i] == order[i],
        sel.contains(order[i]) && sel.contains(order[j]) && keep_if_in(order.take(i), sel, true).len() == keep_if_in(
            order.skip(j + 1),
            sel,
            true,
        ).len() ==> reverse_spec(order, sel)[i] == order[j],
{
    if sel.contains(order[i]) && sel.contains(order[j]) && keep_if_in(order.take(i), sel, true).len()
        == keep_if_in(order.skip(j + 1), sel, true).len() {
        lemma_picked_at_rank(order, sel, j);
    }
}

/// The elements of a vector in reverse order.
pub fn into_reversed<T>(v: Vec<T>) -> (r: Vec<T>)
    ensures
        r@ == v@.reverse(),
{
    let ghost orig = v@;
    let mut v = v;
    let mut r: Vec<T> = Vec::new();
    while v.len() > 0
        invariant
            v@ == orig.take(v@.len() as int),
            r@.len() + v@.len() == orig.len(),
            forall|k: int| 0 <= k < r@.len() ==> #[trigger] r@[k] == orig[orig.len() - 1 - k],
        decreases v@.len(),
    {
        let x = v.pop().unwrap();
        r.push(x);
        proof {
            assert(v@ =~= orig.take(v@.len() as int));
        }
    }
    proof {
        assert(r@ =~= orig.reverse());
    }
    r
}

} // verus!
