//! Undo/redo stacks of document skeleton snapshots.
//!
//! Pixel data is not in a snapshot: frames are shared through the frame
//! store, so a snapshot only carries the cheap skeleton of the document.
use super::actions::Edit;
use super::frame::FrameId;
use std::collections::HashSet;
use vstd::prelude::*;

verus! {

broadcast use vstd::std_specs::hash::group_hash_axioms;

/// Snapshot of the document structure.
#[derive(Debug, PartialEq)]
pub struct Snapshot {
    pub canvas: (u32, u32),
    /// GIF semantics: 0 = loop forever.
    pub loop_count: u16,
    pub order: Vec<FrameId>,
    /// Selected ids.
    pub selection: Vec<FrameId>,
    pub view_index: usize,
}

/// Mathematical content of a snapshot.
pub struct SnapshotView {
    pub canvas: (u32, u32),
    pub loop_count: u16,
    pub order: Seq<FrameId>,
    pub selection: Seq<FrameId>,
    pub view_index: usize,
}

impl View for Snapshot {
    type V = SnapshotView;

    open spec fn view(&self) -> SnapshotView {
        SnapshotView {
            canvas: self.canvas,
            loop_count: self.loop_count,
            order: self.order@,
            selection: self.selection@,
            view_index: self.view_index,
        }
    }
}

/// One recorded state transition.
#[derive(Debug)]
pub struct HistoryEntry {
    /// The edit that caused the transition (the views label undo/redo with it).
    pub edit: Edit,
    pub state: Snapshot,
}

/// Undo and redo stacks. Convention:
/// - an undo entry holds the snapshot from **before** its edit;
/// - a redo entry holds the snapshot from **after** its edit (pushed by undo).
#[derive(Debug)]
pub struct History {
    undo: Vec<HistoryEntry>,
    redo: Vec<HistoryEntry>,
}

/// Undo depth limit; the oldest entry is dropped beyond it.
pub const MAX_HISTORY: usize = 100;

/// The undo stack after pushing `e` onto `s` and dropping the oldest entry
/// when the limit is exceeded.
pub open spec fn push_bounded(s: Seq<HistoryEntry>, e: HistoryEntry) -> Seq<HistoryEntry> {
    if s.len() + 1 > MAX_HISTORY {
        s.push(e).drop_first()
    } else {
        s.push(e)
    }
}

/// Whether `id` occurs in the order of some snapshot of `s`.
pub open spec fn in_some_order(s: Seq<HistoryEntry>, id: FrameId) -> bool {
    exists|i: int| 0 <= i < s.len() && (#[trigger] s[i]).state.order@.contains(id)
}

impl Default for History {
    fn default() -> (r: Self)
        ensures
            r.undo_stack() == Seq::<HistoryEntry>::empty(),
            r.redo_stack() == Seq::<HistoryEntry>::empty(),
    {
        History::new()
    }
}

impl History {
    /// Entries of the undo stack, oldest first.
    pub closed spec fn undo_stack(&self) -> Seq<HistoryEntry> {
        self.undo@
    }

    /// Entries of the redo stack, oldest first.
    pub closed spec fn redo_stack(&self) -> Seq<HistoryEntry> {
        self.redo@
    }

    /// Ids that the current order or a snapshot of this history references.
    pub open spec fn references(&self, current: Seq<FrameId>, id: FrameId) -> bool {
        current.contains(id) || in_some_order(self.undo_stack(), id) || in_some_order(
            self.redo_stack(),
            id,
        )
    }

    /// Empty history.
    pub fn new() -> (r: Self)
        ensures
            r.undo_stack() == Seq::<HistoryEntry>::empty(),
            r.redo_stack() == Seq::<HistoryEntry>::empty(),
    {
        History { undo: Vec::new(), redo: Vec::new() }
    }

    /// Whether an undo is available.
    pub fn can_undo(&self) -> (r: bool)
        ensures
            r == (self.undo_stack().len() > 0),
    {
        self.undo.len() > 0
    }

    /// Whether a redo is available.
    pub fn can_redo(&self) -> (r: bool)
        ensures
            r == (self.redo_stack().len() > 0),
    {
        self.redo.len() > 0
    }

    /// Records a new edit: pushes the pre-edit snapshot and clears the redo
    /// branch (a new edit invalidates it).
    pub fn push_undo(&mut self, edit: Edit, before: Snapshot)
        ensures
            final(self).undo_stack() == push_bounded(
                old(self).undo_stack(),
                HistoryEntry { edit, state: before },
            ),
            final(self).redo_stack() == Seq::<HistoryEntry>::empty(),
    {
        self.redo.clear();
        self.push_undo_keep_redo(edit, before);
    }

    /// Redo path: pushes onto the undo stack but keeps the rest of the redo
    /// branch.
    pub fn push_undo_keep_redo(&mut self, edit: Edit, before: Snapshot)
        ensures
            final(self).undo_stack() == push_bounded(
                old(self).undo_stack(),
                HistoryEntry { edit, state: before },
            ),
            final(self).redo_stack() == old(self).redo_stack(),
    {
        let ghost e = HistoryEntry { edit, state: before };
        self.undo.push(HistoryEntry { edit, state: before });
        if self.undo.len() > MAX_HISTORY {
            self.undo.remove(0);
            assert(self.undo@ =~= old(self).undo@.push(e).drop_first());
        }
    }

    /// Takes the most recent undo entry.
    pub fn pop_undo(&mut self) -> (r: Option<HistoryEntry>)
        ensures
            old(self).undo_stack().len() == 0 ==> r is None && final(self).undo_stack() == old(
                self,
            ).undo_stack(),
            old(self).undo_stack().len() > 0 ==> r == Some(old(self).undo_stack().last())
                && final(self).undo_stack() == old(self).undo_stack().drop_last(),
            final(self).redo_stack() == old(self).redo_stack(),
    {
        let r = self.undo.pop();
        proof {
            if old(self).undo@.len() > 0 {
                assert(self.undo@ =~= old(self).undo@.drop_last());
            }
        }
        r
    }

    /// Pushes the post-edit snapshot of an undone edit.
    pub fn push_redo(&mut self, edit: Edit, after: Snapshot)
        ensures
            final(self).redo_stack() == old(self).redo_stack().push(
                HistoryEntry { edit, state: after },
            ),
            final(self).undo_stack() == old(self).undo_stack(),
    {
        self.redo.push(HistoryEntry { edit, state: after });
    }

    /// Takes the most recent redo entry.
    pub fn pop_redo(&mut self) -> (r: Option<HistoryEntry>)
        ensures
            old(self).redo_stack().len() == 0 ==> r is None && final(self).redo_stack() == old(
                self,
            ).redo_stack(),
            old(self).redo_stack().len() > 0 ==> r == Some(old(self).redo_stack().last())
                && final(self).redo_stack() == old(self).redo_stack().drop_last(),
            final(self).undo_stack() == old(self).undo_stack(),
    {
        let r = self.redo.pop();
        proof {
            if old(self).redo@.len() > 0 {
                assert(self.redo@ =~= old(self).redo@.drop_last());
            }
        }
        r
    }

    /// The edit that an undo would revert.
    pub fn next_undo_edit(&self) -> (r: Option<&Edit>)
        ensures
            self.undo_stack().len() == 0 ==> r is None,
            self.undo_stack().len() > 0 ==> r == Some(&self.undo_stack().last().edit),
    {
        if self.undo.len() == 0 {
            None
        } else {
            Some(&self.undo[self.undo.len() - 1].edit)
        }
    }

    /// The edit that a redo would re-apply.
    pub fn next_redo_edit(&self) -> (r: Option<&Edit>)
        ensures
            self.redo_stack().len() == 0 ==> r is None,
            self.redo_stack().len() > 0 ==> r == Some(&self.redo_stack().last().edit),
    {
        if self.redo.len() == 0 {
            None
        } else {
            Some(&self.redo[self.redo.len() - 1].edit)
        }
    }

    /// Adds to `out` the raw ids referenced by `current` and by every
    /// snapshot of both stacks (the collection criterion).
    pub fn referenced_ids(&self, current: &[FrameId], out: &mut HashSet<u64>)
        ensures
            forall|x: u64| #[trigger]
                final(out)@.contains(x) <==> old(out)@.contains(x) || self.references(
                    current@,
                    FrameId(x),
                ),
    {
        insert_ids(current, out);
        let mut i: usize = 0;
        while i < self.undo.len()
            invariant
                0 <= i <= self.undo@.len(),
                forall|x: u64| #[trigger]
                    out@.contains(x) <==> old(out)@.contains(x) || current@.contains(FrameId(x))
                        || exists|j: int| 0 <= j < i && self.undo@[j].state.order@.contains(FrameId(x)),
            decreases self.undo@.len() - i,
        {
            insert_ids(self.undo[i].state.order.as_slice(), out);
            i = i + 1;
        }
        let mut i: usize = 0;
        while i < self.redo.len()
            invariant
                0 <= i <= self.redo@.len(),
                forall|x: u64| #[trigger]
                    out@.contains(x) <==> old(out)@.contains(x) || current@.contains(FrameId(x))
                        || in_some_order(self.undo@, FrameId(x))
                        || exists|j: int| 0 <= j < i && self.redo@[j].state.order@.contains(FrameId(x)),
            decreases self.redo@.len() - i,
        {
            insert_ids(self.redo[i].state.order.as_slice(), out);
            i = i + 1;
        }
    }
}

/// Inserts the raw value of every id of `ids` into `out`.
fn insert_ids(ids: &[FrameId], out: &mut HashSet<u64>)
    ensures
        forall|x: u64| #[trigger]
            final(out)@.contains(x) <==> old(out)@.contains(x) || ids@.contains(FrameId(x)),
{
    let mut i: usize = 0;
    while i < ids.len()
        invariant
            0 <= i <= ids@.len(),
            forall|x: u64| #[trigger]
                out@.contains(x) <==> old(out)@.contains(x) || exists|j: int|
                    0 <= j < i && ids@[j] == FrameId(x),
        decreases ids@.len() - i,
    {
        out.insert(ids[i].0);
        i = i + 1;
    }
}

} // verus!
