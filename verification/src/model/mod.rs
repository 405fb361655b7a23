//! Document model: pure data and pure functions, no GUI and no I/O.
//! Every state transition goes through `Model::apply(Action) -> Vec<Effect>`.
use crate::errors::AppError;
use std::path::PathBuf;
use vstd::prelude::*;
use vstd::string::StringExecFns;

pub mod actions;
pub mod editing;
pub mod frame;
pub mod frame_store;
pub mod guard;
pub mod history;
pub mod laws;
pub mod order_ops;
pub mod project;
pub mod transform;

pub use actions::{Action, Edit, Effect, EstimateState, ExportFormat, ExportOutcome, GifQuality};
pub use frame::{Frame, FrameId};
pub use frame_store::FrameStore;
pub use history::{History, Snapshot, MAX_HISTORY};
pub use project::{Project, MEMORY_BUDGET_BYTES};
pub use transform::ResizeFilter;

use order_ops::{contains_id, copy_ids, first_pos, position_of, sorted_unique};
use project::{clamped_view, live_anchor, sorted_set_of};

verus! {

/// Playback floor: a 0 ms frame plays for 16 ms (what browsers do with
/// zero-delay GIFs).
pub const MIN_PLAYBACK_MS: u32 = 16;

/// Playback state.
#[derive(Debug)]
pub struct Playback {
    pub playing: bool,
    /// Time accumulated and not yet consumed, in microseconds; `tick`
    /// consumes it frame by frame.
    pub acc_us: u64,
}

impl Playback {
    /// Stopped, nothing accumulated.
    pub fn stopped() -> (r: Self)
        ensures
            !r.playing,
            r.acc_us == 0,
    {
        Playback { playing: false, acc_us: 0 }
    }
}

impl Default for Playback {
    fn default() -> (r: Self)
        ensures
            !r.playing,
            r.acc_us == 0,
    {
        Playback::stopped()
    }
}

/// Status-bar events (the views translate them).
#[derive(Debug)]
pub enum StatusEvent {
    Ready,
    Loading,
    Exporting,
    DialogCancelled,
    Cleared,
    Loaded { frames: usize, file_bytes: u64, mem_bytes: u64 },
    ExportDone { path: PathBuf, bytes: u64, ms: u64 },
    Error(AppError),
}

/// The whole editor state.
pub struct Model {
    pub project: Option<Project>,
    pub playback: Playback,
    pub status: Option<StatusEvent>,
    /// Format remembered by `StartExport` until the save path arrives.
    pub pending_export: Option<ExportFormat>,
    pub estimate: EstimateState,
    /// Frames of the next loaded document are numbered from here on; it
    /// never decreases, so frame ids are never reused within a model.
    pub next_frame_id: u64,
}

/// Loading or exporting is under way.
pub open spec fn is_busy(status: Option<StatusEvent>) -> bool {
    (status matches Some(StatusEvent::Loading)) || (status matches Some(StatusEvent::Exporting))
}

/// The id floor once the current document is dropped.
pub open spec fn id_floor(m: Model) -> u64 {
    match m.project {
        Some(p) => if p.store.next() > m.next_frame_id {
            p.store.next()
        } else {
            m.next_frame_id
        },
        None => m.next_frame_id,
    }
}

/// Estimate state reset, keeping the generation counter.
pub open spec fn estimate_reset(e: EstimateState, generation: u64) -> bool {
    e.generation == generation && !e.in_flight && e.result is None
}

impl Default for EstimateState {
    fn default() -> (r: Self)
        ensures
            r.generation == 0,
            !r.in_flight,
            r.result is None,
    {
        EstimateState::new()
    }
}

impl Model {
    /// Consistency of the editor state: the document, when there is one, is
    /// consistent.
    pub open spec fn wf(&self) -> bool {
        self.project matches Some(p) ==> p.wf()
    }

    /// No document, ready status.
    pub fn new() -> (r: Self)
        ensures
            r.wf(),
            r.project is None,
            !r.playback.playing,
            r.playback.acc_us == 0,
            r.status matches Some(StatusEvent::Ready),
            r.pending_export is None,
            estimate_reset(r.estimate, 0),
            r.next_frame_id == 0,
    {
        Model {
            project: None,
            playback: Playback::stopped(),
            status: Some(StatusEvent::Ready),
            pending_export: None,
            estimate: EstimateState::new(),
            next_frame_id: 0,
        }
    }

    /// The document has undoable edits.
    pub fn dirty(&self) -> (r: bool)
        ensures
            r == (self.project matches Some(p) && p.history.undo_stack().len() > 0),
    {
        match &self.project {
            Some(p) => p.history.can_undo(),
            None => false,
        }
    }

    /// Loading or exporting is under way.
    pub fn busy(&self) -> (r: bool)
        ensures
            r == is_busy(self.status),
    {
        match &self.status {
            Some(StatusEvent::Loading) => true,
            Some(StatusEvent::Exporting) => true,
            _ => false,
        }
    }

    /// Resets the estimate state, keeping the generation monotonic across
    /// documents.
    fn reset_estimate_keep_generation(&mut self)
        ensures
            estimate_reset(final(self).estimate, old(self).estimate.generation),
            final(self).project == old(self).project,
            final(self).playback == old(self).playback,
            final(self).status == old(self).status,
            final(self).pending_export == old(self).pending_export,
            final(self).next_frame_id == old(self).next_frame_id,
    {
        let generation = self.estimate.generation;
        self.estimate = EstimateState::new();
        self.estimate.generation = generation;
    }

    /// Drops the document, raising the id floor past its ids.
    fn retire_project(&mut self)
        ensures
            final(self).project is None,
            final(self).next_frame_id == id_floor(*old(self)),
            final(self).playback == old(self).playback,
            final(self).status == old(self).status,
            final(self).pending_export == old(self).pending_export,
            final(self).estimate == old(self).estimate,
    {
        if let Some(p) = &self.project {
            let n = p.store.next_id();
            if n > self.next_frame_id {
                self.next_frame_id = n;
            }
        }
        self.project = None;
    }
}


/// `q` has the frames, canvas, loop, store and history of `p`.
pub open spec fn same_content(p: Project, q: Project) -> bool {
    &&& q.source == p.source
    &&& q.file_size == p.file_size
    &&& q.canvas == p.canvas
    &&& q.loop_count == p.loop_count
    &&& q.order == p.order
    &&& q.store == p.store
    &&& q.history == p.history
}

/// `new` differs from `old` at most in its document.
pub open spec fn only_project_changed(old: Model, new: Model) -> bool {
    new == Model { project: new.project, ..old }
}

/// Click on a frame: it becomes the single selection, the anchor and the
/// playhead. Ids outside the order are ignored.
pub open spec fn select_frame_post(old: Model, id: FrameId, new: Model) -> bool {
    if old.project is Some && old.project.unwrap().order@.contains(id) {
        let p = old.project.unwrap();
        let q = new.project.unwrap();
        &&& new.project is Some
        &&& only_project_changed(old, new)
        &&& same_content(p, q)
        &&& q.selection@ == seq![id]
        &&& q.anchor == Some(id)
        &&& q.view_index == first_pos(p.order@, id)
    } else {
        new == old
    }
}

/// Ctrl+click: the frame leaves the selection when selected, otherwise it
/// joins it (the selection is then sorted); it becomes the anchor.
pub open spec fn toggle_select_post(old: Model, id: FrameId, new: Model) -> bool {
    if old.project is Some && old.project.unwrap().order@.contains(id) {
        let p = old.project.unwrap();
        let q = new.project.unwrap();
        &&& new.project is Some
        &&& only_project_changed(old, new)
        &&& same_content(p, q)
        &&& q.anchor == Some(id)
        &&& q.view_index == p.view_index
        &&& if p.selection@.contains(id) {
            q.selection@ == p.selection@.remove(first_pos(p.selection@, id))
        } else {
            sorted_set_of(q.selection@, p.selection@.to_set().insert(id))
        }
    } else {
        new == old
    }
}

/// Shift+click: selects the order range between the anchor and the frame
/// (sorted); without a live anchor it acts as a click.
pub open spec fn range_select_post(old: Model, id: FrameId, new: Model) -> bool {
    if old.project is Some && old.project.unwrap().order@.contains(id) {
        let p = old.project.unwrap();
        let q = new.project.unwrap();
        match live_anchor(p.anchor, p.order@) {
            None => select_frame_post(old, id, new),
            Some(a) => {
                let i = first_pos(p.order@, a);
                let j = first_pos(p.order@, id);
                let lo = if i < j { i } else { j };
                let hi = if i < j { j } else { i };
                &&& new.project is Some
                &&& only_project_changed(old, new)
                &&& same_content(p, q)
                &&& q.anchor == p.anchor
                &&& q.view_index == p.view_index
                &&& sorted_set_of(q.selection@, p.order@.subrange(lo, hi + 1).to_set())
            },
        }
    } else {
        new == old
    }
}

/// Ctrl+A: every frame of the order, as the selection is always kept:
/// ascending by id, without duplicates.
pub open spec fn select_all_post(old: Model, new: Model) -> bool {
    match old.project {
        Some(p) => {
            let q = new.project.unwrap();
            &&& new.project is Some
            &&& only_project_changed(old, new)
            &&& same_content(p, q)
            &&& q.anchor == p.anchor
            &&& q.view_index == p.view_index
            &&& sorted_set_of(q.selection@, p.order@.to_set())
        },
        None => new == old,
    }
}

/// Empties the selection.
pub open spec fn clear_selection_post(old: Model, new: Model) -> bool {
    match old.project {
        Some(p) => {
            let q = new.project.unwrap();
            &&& new.project is Some
            &&& only_project_changed(old, new)
            &&& same_content(p, q)
            &&& q.anchor == p.anchor
            &&& q.view_index == p.view_index
            &&& q.selection@.len() == 0
        },
        None => new == old,
    }
}

impl Model {
    fn select_frame(&mut self, id: FrameId)
        requires
            old(self).wf(),
        ensures
            final(self).wf(),
            select_frame_post(*old(self), id, *final(self)),
    {
        match &mut self.project {
            Some(p) => {
                if contains_id(p.order.as_slice(), id) {
                    let pos = position_of(p.order.as_slice(), id);
                    proof {
                        order_ops::lemma_first_pos(p.order@, id);
                    }
                    let mut sel: Vec<FrameId> = Vec::new();
                    sel.push(id);
                    p.selection = sel;
                    p.anchor = Some(id);
                    p.view_index = pos;
                    proof {
                        assert(p.selection@ =~= seq![id]);
                    }
                }
            },
            None => {},
        }
    }

    fn toggle_select(&mut self, id: FrameId)
        requires
            old(self).wf(),
        ensures
            final(self).wf(),
            toggle_select_post(*old(self), id, *final(self)),
    {
        match &mut self.project {
            Some(p) => {
                if contains_id(p.order.as_slice(), id) {
                    let ghost old_sel = p.selection@;
                    if contains_id(p.selection.as_slice(), id) {
                        let pos = position_of(p.selection.as_slice(), id);
                        proof {
                            order_ops::lemma_first_pos(p.selection@, id);
                        }
                        p.selection.remove(pos);
                        proof {
                            assert forall|a: int, b: int| 0 <= a < b < p.selection@.len() implies p.selection@[a]
                                != p.selection@[b] by {
                                let a2 = if a < pos { a } else { a + 1 };
                                let b2 = if b < pos { b } else { b + 1 };
                                assert(p.selection@[a] == old_sel[a2]);
                                assert(p.selection@[b] == old_sel[b2]);
                            }
                            assert forall|k: int| 0 <= k < p.selection@.len() implies p.order@.contains(
                                #[trigger] p.selection@[k],
                            ) by {
                                let k2 = if k < pos { k } else { k + 1 };
                                assert(p.selection@[k] == old_sel[k2]);
                            }
                        }
                    } else {
                        let mut grown = copy_ids(p.selection.as_slice());
                        grown.push(id);
                        p.selection = sorted_unique(grown.as_slice());
                        proof {
                            old_sel.lemma_push_to_set_commute(id);
                            order_ops::lemma_ascending_distinct(p.selection@);
                            assert forall|k: int| 0 <= k < p.selection@.len() implies p.order@.contains(
                                #[trigger] p.selection@[k],
                            ) by {
                                assert(p.selection@.to_set().contains(p.selection@[k]));
                            }
                        }
                    }
                    p.anchor = Some(id);
                }
            },
            None => {},
        }
    }

    fn range_select(&mut self, id: FrameId)
        requires
            old(self).wf(),
        ensures
            final(self).wf(),
            range_select_post(*old(self), id, *final(self)),
    {
        let anchor = match &self.project {
            Some(p) => {
                if !contains_id(p.order.as_slice(), id) {
                    return;
                }
                match p.anchor {
                    Some(a) => if contains_id(p.order.as_slice(), a) {
                        Some(a)
                    } else {
                        None
                    },
                    None => None,
                }
            },
            None => {
                return;
            },
        };
        match anchor {
            None => self.select_frame(id),
            Some(a) => {
                match &mut self.project {
                    Some(p) => {
                        let i = position_of(p.order.as_slice(), a);
                        let j = position_of(p.order.as_slice(), id);
                        proof {
                            order_ops::lemma_first_pos(p.order@, a);
                            order_ops::lemma_first_pos(p.order@, id);
                        }
                        let lo = if i < j { i } else { j };
                        let hi = if i < j { j } else { i };
                        let mut span: Vec<FrameId> = Vec::new();
                        let n = p.order.len();
                        assert(hi < n);
                        let end = hi + 1;
                        let mut k = lo;
                        while k < end
                            invariant
                                lo <= k <= end,
                                end == hi + 1,
                                hi < p.order@.len(),
                                span@ == p.order@.subrange(lo as int, k as int),
                            decreases end - k,
                        {
                            span.push(p.order[k]);
                            k = k + 1;
                            proof {
                                assert(span@ =~= p.order@.subrange(lo as int, k as int));
                            }
                        }
                        p.selection = sorted_unique(span.as_slice());
                        proof {
                            order_ops::lemma_ascending_distinct(p.selection@);
                            assert forall|m: int| 0 <= m < p.selection@.len() implies p.order@.contains(
                                #[trigger] p.selection@[m],
                            ) by {
                                assert(p.selection@.to_set().contains(p.selection@[m]));
                                let t = choose|t: int| 0 <= t < span@.len() && span@[t] == p.selection@[m];
                                assert(p.order@[lo + t] == p.selection@[m]);
                            }
                        }
                    },
                    None => {},
                }
            },
        }
    }

    fn select_all(&mut self)
        requires
            old(self).wf(),
        ensures
            final(self).wf(),
            select_all_post(*old(self), *final(self)),
    {
        match &mut self.project {
            Some(p) => {
                p.selection = sorted_unique(p.order.as_slice());
                proof {
                    order_ops::lemma_ascending_distinct(p.selection@);
                    assert forall|k: int| 0 <= k < p.selection@.len() implies p.order@.contains(
                        #[trigger] p.selection@[k],
                    ) by {
                        assert(p.selection@.to_set().contains(p.selection@[k]));
                        assert(p.order@.to_set().contains(p.selection@[k]));
                    }
                }
            },
            None => {},
        }
    }

    fn clear_selection(&mut self)
        requires
            old(self).wf(),
        ensures
            final(self).wf(),
            clear_selection_post(*old(self), *final(self)),
    {
        match &mut self.project {
            Some(p) => {
                p.selection.clear();
            },
            None => {},
        }
    }
}


/// The open-file dialog is requested unless loading or exporting is under way.
pub open spec fn open_file_dialog_post(old: Model, new: Model, effects: Seq<Effect>) -> bool {
    &&& new == old
    &&& effects == if is_busy(old.status) {
        Seq::<Effect>::empty()
    } else {
        seq![Effect::SpawnOpenDialog]
    }
}

/// A picked file starts a load (documents are dropped first; its frames are
/// numbered past every id used so far); a cancelled dialog is reported.
/// Nothing happens while loading or exporting.
pub open spec fn file_picked_post(old: Model, path: Option<PathBuf>, new: Model, effects: Seq<Effect>) -> bool {
    match path {
        None => new == Model { status: Some(StatusEvent::DialogCancelled), ..old } && effects.len() == 0,
        Some(path) => if is_busy(old.status) {
            new == old && effects.len() == 0
        } else {
            &&& new.project is None
            &&& new.next_frame_id == id_floor(old)
            &&& !new.playback.playing
            &&& new.playback.acc_us == 0
            &&& new.status matches Some(StatusEvent::Loading)
            &&& new.pending_export == old.pending_export
            &&& estimate_reset(new.estimate, old.estimate.generation)
            &&& effects == seq![Effect::SpawnLoad { path, first_id: id_floor(old) }]
        },
    }
}

/// A loaded document without undo history (every document a load builds)
/// whose frames fit below `u64::MAX` from the id floor on gets them
/// renumbered from there.
pub open spec fn renumbers_load(old: Model, p: Project) -> bool {
    &&& p.history.undo_stack().len() == 0
    &&& p.history.redo_stack().len() == 0
    &&& id_floor(old) + p.order@.len() <= u64::MAX
}

/// A finished load installs the document, its frames moved to fresh ids at
/// or above the id floor (see `renumbers_load`; otherwise as it is, indices
/// clamped), starts playback when it has more than one frame and reports
/// its size; a failed load drops the document and reports the error.
pub open spec fn load_finished_post(old: Model, result: Result<Project, AppError>, new: Model) -> bool {
    match result {
        Ok(p) => {
            let q = new.project.unwrap();
            let floor = id_floor(old);
            &&& new.project is Some
            &&& if renumbers_load(old, p) {
                editing::renumbered(p, floor, q)
            } else {
                &&& same_content(p, q)
                &&& q.view_index == clamped_view(p.view_index, p.order@.len())
                &&& sorted_set_of(q.selection@, order_ops::keep_if_in(p.selection@, p.order@, true).to_set())
                &&& q.anchor == live_anchor(p.anchor, p.order@)
            }
            &&& new.playback.playing == (p.order@.len() > 1)
            &&& new.playback.acc_us == 0
            &&& new.status == Some(
                StatusEvent::Loaded {
                    frames: p.order@.len() as usize,
                    file_bytes: p.file_size,
                    mem_bytes: frame_store::store_memory(p.store),
                },
            )
            &&& new.pending_export == old.pending_export
            &&& estimate_reset(new.estimate, old.estimate.generation)
            &&& new.next_frame_id == if q.store.next() > floor {
                q.store.next()
            } else {
                floor
            }
        },
        Err(e) => new == Model {
            project: None,
            next_frame_id: id_floor(old),
            status: Some(StatusEvent::Error(e)),
            ..old
        },
    }
}

/// Clearing drops the document, stops playback, forgets a pending export
/// and resets the estimate.
pub open spec fn clear_post(old: Model, new: Model) -> bool {
    &&& new.project is None
    &&& new.next_frame_id == id_floor(old)
    &&& !new.playback.playing
    &&& new.playback.acc_us == 0
    &&& new.pending_export is None
    &&& estimate_reset(new.estimate, old.estimate.generation)
    &&& new.status matches Some(StatusEvent::Cleared)
}

/// Play/pause toggles playback of documents with more than one frame;
/// pausing discards the accumulated time.
pub open spec fn play_pause_post(old: Model, new: Model) -> bool {
    if old.project is Some && old.project.unwrap().order@.len() > 1 {
        let playing = !old.playback.playing;
        new == Model {
            playback: Playback {
                playing,
                acc_us: if playing {
                    old.playback.acc_us
                } else {
                    0
                },
            },
            ..old
        }
    } else {
        new == old
    }
}

/// Stepping pauses and moves the playhead one frame, wrapping around.
pub open spec fn step_post(old: Model, forward: bool, new: Model) -> bool {
    if old.project is Some && old.project.unwrap().order@.len() > 0 {
        let p = old.project.unwrap();
        let q = new.project.unwrap();
        let n = p.order@.len() as int;
        &&& new.project is Some
        &&& new == Model {
            project: new.project,
            playback: Playback { playing: false, acc_us: old.playback.acc_us },
            ..old
        }
        &&& same_content(p, q)
        &&& q.selection == p.selection
        &&& q.anchor == p.anchor
        &&& q.view_index == if forward {
            (p.view_index + 1) % n
        } else {
            (p.view_index + n - 1) % n
        }
    } else {
        new == old
    }
}

/// Export start: with frames, the format is kept until the save path comes
/// and a save dialog with a default name is requested; an empty document is
/// reported as an encode error.
pub open spec fn start_export_post(old: Model, format: ExportFormat, new: Model, effects: Seq<Effect>) -> bool {
    match old.project {
        None => new == old && effects.len() == 0,
        Some(p) => if p.order@.len() == 0 {
            &&& effects.len() == 0
            &&& new == Model { status: new.status, ..old }
            &&& new.status matches Some(StatusEvent::Error(AppError::Encode(m)))
            &&& m@ == "no frames to export"@
        } else {
            &&& new == Model { pending_export: Some(format), ..old }
            &&& effects.len() == 1
            &&& effects[0] matches Effect::SpawnSaveDialog { default_name }
            &&& exists|stem: Seq<char>, stamp: Seq<char>|
                default_name@ == stem + "_"@ + stamp + "."@ + actions::extension_of(format)
        },
    }
}

/// The frames of the document in order.
pub open spec fn frames_of(p: Project, frames: Seq<std::sync::Arc<Frame>>) -> bool {
    &&& frames.len() == p.order@.len()
    &&& forall|i: int| 0 <= i < frames.len() ==> (#[trigger] frames[i])@ == p.store@[p.order@[i]]
}

/// The save path starts the export of the pending format; a cancelled
/// dialog forgets it.
pub open spec fn save_path_picked_post(old: Model, path: Option<PathBuf>, new: Model, effects: Seq<Effect>) -> bool {
    match path {
        None => effects.len() == 0 && new == Model {
            pending_export: None,
            status: Some(StatusEvent::DialogCancelled),
            ..old
        },
        Some(path) => match old.pending_export {
            None => new == old && effects.len() == 0,
            Some(format) => match old.project {
                None => effects.len() == 0 && new == Model { pending_export: None, ..old },
                Some(p) => if p.order@.len() == 0 {
                    &&& effects.len() == 0
                    &&& new == Model { pending_export: None, status: new.status, ..old }
                    &&& new.status matches Some(StatusEvent::Error(AppError::Encode(m)))
                    &&& m@ == "no frames to export"@
                } else {
                    &&& new == Model {
                        pending_export: None,
                        status: Some(StatusEvent::Exporting),
                        ..old
                    }
                    &&& effects.len() == 1
                    &&& effects[0] matches Effect::SpawnExport { frames, loop_count, format: f, path: pp }
                    &&& frames_of(p, frames@)
                    &&& loop_count == p.loop_count
                    &&& f == format
                    &&& pp == path
                },
            },
        },
    }
}

/// A finished export is reported with its path, size and time.
pub open spec fn export_finished_post(old: Model, result: Result<ExportOutcome, AppError>, new: Model) -> bool {
    match result {
        Ok(o) => new == Model {
            status: Some(StatusEvent::ExportDone { path: o.path, bytes: o.bytes, ms: o.ms }),
            ..old
        },
        Err(e) => new == Model { status: Some(StatusEvent::Error(e)), ..old },
    }
}

/// Size estimates fly one at a time: a request while one is in flight is
/// skipped; otherwise the generation is taken, the old result dropped, and
/// a trial encode of the document's frames is requested when it has any.
pub open spec fn estimate_requested_post(
    old: Model,
    generation: u64,
    format: ExportFormat,
    new: Model,
    effects: Seq<Effect>,
) -> bool {
    if old.estimate.in_flight {
        new == old && effects.len() == 0
    } else if old.project is Some && old.project.unwrap().order@.len() > 0 {
        let p = old.project.unwrap();
        &&& new == Model {
            estimate: EstimateState { generation, in_flight: true, result: None },
            ..old
        }
        &&& effects.len() == 1
        &&& effects[0] matches Effect::SpawnEstimate { generation: g, frames, loop_count, format: f }
        &&& g == generation
        &&& frames_of(p, frames@)
        &&& loop_count == p.loop_count
        &&& f == format
    } else {
        effects.len() == 0 && new == Model {
            estimate: EstimateState { generation, in_flight: false, result: None },
            ..old
        }
    }
}

/// An estimate result lands; it is kept only for the current generation.
pub open spec fn estimate_ready_post(old: Model, generation: u64, result: Result<u64, AppError>, new: Model) -> bool {
    new == Model {
        estimate: EstimateState {
            generation: old.estimate.generation,
            in_flight: false,
            result: if generation == old.estimate.generation {
                Some(result)
            } else {
                old.estimate.result
            },
        },
        ..old
    }
}

/// Calls `Path::file_stem` and converts the stem lossily to a `String`.
/// A path is an opaque value here, so nothing is stated of the stem.
#[verifier::external_body]
fn path_file_stem(path: &PathBuf) -> Option<String> {
    match path.file_stem() {
        Some(s) => Some(s.to_string_lossy().into_owned()),
        None => None,
    }
}

/// Calls `chrono::Local::now` and formats it as `%Y%m%d_%H%M%S`. The value
/// depends on the clock and the time zone, so nothing is promised about it.
#[verifier::external_body]
fn local_timestamp() -> String {
    chrono::Local::now().format("%Y%m%d_%H%M%S").to_string()
}

/// The frames of the document, in order.
fn collect_frames(p: &Project) -> (r: Vec<std::sync::Arc<Frame>>)
    requires
        p.wf(),
    ensures
        frames_of(*p, r@),
{
    let mut r: Vec<std::sync::Arc<Frame>> = Vec::new();
    let mut i: usize = 0;
    while i < p.order.len()
        invariant
            p.wf(),
            0 <= i <= p.order@.len(),
            r@.len() == i,
            forall|j: int| 0 <= j < i ==> (#[trigger] r@[j])@ == p.store@[p.order@[j]],
        decreases p.order@.len() - i,
    {
        let f = p.store.get(p.order[i]).unwrap();
        r.push(f);
        i = i + 1;
    }
    r
}

impl Model {
    /// Default name offered by the save dialog: `<source stem>_<local time>.<ext>`,
    /// with `gifsennin` as the stem when there is no document.
    fn default_export_name(&self, format: &ExportFormat) -> (r: String)
        ensures
            exists|stem: Seq<char>, stamp: Seq<char>|
                r@ == stem + "_"@ + stamp + "."@ + actions::extension_of(*format) && (self.project is None
                    ==> stem == "gifsennin"@),
    {
        let stem = match &self.project {
            Some(p) => path_file_stem(&p.source),
            None => None,
        };
        let mut name = match stem {
            Some(s) => s,
            None => String::from_str("gifsennin"),
        };
        let ghost stem_v = name@;
        proof {
            reveal_strlit("gifsennin");
        }
        let stamp = local_timestamp();
        name.append("_");
        name.append(stamp.as_str());
        name.append(".");
        name.append(format.extension());
        assert(name@ == stem_v + "_"@ + stamp@ + "."@ + actions::extension_of(*format));
        name
    }

    fn open_file_dialog(&self) -> (effects: Vec<Effect>)
        ensures
            open_file_dialog_post(*self, *self, effects@),
    {
        if self.busy() {
            return Vec::new();
        }
        let mut v: Vec<Effect> = Vec::new();
        v.push(Effect::SpawnOpenDialog);
        v
    }

    fn file_picked(&mut self, path: Option<PathBuf>) -> (effects: Vec<Effect>)
        requires
            old(self).wf(),
        ensures
            final(self).wf(),
            file_picked_post(*old(self), path, *final(self), effects@),
    {
        match path {
            None => {
                self.status = Some(StatusEvent::DialogCancelled);
                Vec::new()
            },
            Some(path) => {
                if self.busy() {
                    return Vec::new();
                }
                self.reset_estimate_keep_generation();
                self.retire_project();
                self.playback = Playback::stopped();
                self.status = Some(StatusEvent::Loading);
                let mut v: Vec<Effect> = Vec::new();
                v.push(Effect::SpawnLoad { path, first_id: self.next_frame_id });
                v
            },
        }
    }

    fn load_finished(&mut self, result: Result<Project, AppError>)
        requires
            old(self).wf(),
            result matches Ok(p) ==> p.wf(),
        ensures
            final(self).wf(),
            load_finished_post(*old(self), result, *final(self)),
    {
        match result {
            Ok(mut project) => {
                let mem = project.store.total_memory();
                let frames = project.frame_count();
                let file_bytes = project.file_size;
                self.reset_estimate_keep_generation();
                self.retire_project();
                let start = self.next_frame_id;
                if !project.history.can_undo() && !project.history.can_redo() && frames as u64 <= u64::MAX - start {
                    project.renumber_from(start);
                } else {
                    project.clamp_indices();
                    proof {
                        order_ops::lemma_ascending_distinct(project.selection@);
                        assert forall|k: int| 0 <= k < project.selection@.len() implies project.order@.contains(
                            #[trigger] project.selection@[k],
                        ) by {
                            assert(project.selection@.to_set().contains(project.selection@[k]));
                        }
                    }
                }
                let n = project.store.next_id();
                if n > self.next_frame_id {
                    self.next_frame_id = n;
                }
                self.project = Some(project);
                self.playback = Playback { playing: frames > 1, acc_us: 0 };
                self.status = Some(StatusEvent::Loaded { frames, file_bytes, mem_bytes: mem });
            },
            Err(e) => {
                self.retire_project();
                self.status = Some(StatusEvent::Error(e));
            },
        }
    }

    fn clear(&mut self)
        requires
            old(self).wf(),
        ensures
            final(self).wf(),
            clear_post(*old(self), *final(self)),
    {
        self.retire_project();
        self.playback = Playback::stopped();
        self.pending_export = None;
        self.reset_estimate_keep_generation();
        self.status = Some(StatusEvent::Cleared);
    }

    fn play_pause(&mut self)
        requires
            old(self).wf(),
        ensures
            final(self).wf(),
            play_pause_post(*old(self), *final(self)),
    {
        let many = match &self.project {
            Some(p) => p.frame_count() > 1,
            None => false,
        };
        if many {
            self.playback.playing = !self.playback.playing;
            if !self.playback.playing {
                self.playback.acc_us = 0;
            }
        }
    }

    fn step(&mut self, forward: bool) -> (effects: Vec<Effect>)
        requires
            old(self).wf(),
        ensures
            final(self).wf(),
            step_post(*old(self), forward, *final(self)),
            effects@.len() == 0,
    {
        let has_frames = match &self.project {
            Some(p) => p.order.len() > 0,
            None => false,
        };
        if has_frames {
            self.playback.playing = false;
            match &mut self.project {
                Some(p) => {
                    let n = p.order.len();
                    p.view_index = if forward {
                        if p.view_index + 1 == n {
                            0
                        } else {
                            p.view_index + 1
                        }
                    } else {
                        if p.view_index == 0 {
                            n - 1
                        } else {
                            p.view_index - 1
                        }
                    };
                    proof {
                        let v = old(self).project.unwrap().view_index as int;
                        if forward {
                            if v + 1 == n {
                                vstd::arithmetic::div_mod::lemma_mod_self_0(n as int);
                            } else {
                                vstd::arithmetic::div_mod::lemma_small_mod((v + 1) as nat, n as nat);
                            }
                        } else {
                            if v == 0 {
                                vstd::arithmetic::div_mod::lemma_small_mod((n - 1) as nat, n as nat);
                            } else {
                                vstd::arithmetic::div_mod::lemma_mod_add_multiples_vanish(v - 1, n as int);
                                vstd::arithmetic::div_mod::lemma_small_mod((v - 1) as nat, n as nat);
                            }
                        }
                    }
                },
                None => {},
            }
        }
        Vec::new()
    }

    fn start_export(&mut self, format: ExportFormat) -> (effects: Vec<Effect>)
        requires
            old(self).wf(),
        ensures
            final(self).wf(),
            start_export_post(*old(self), format, *final(self), effects@),
    {
        let empty = match &self.project {
            Some(p) => p.order.len() == 0,
            None => {
                return Vec::new();
            },
        };
        if empty {
            self.status = Some(StatusEvent::Error(AppError::Encode(String::from_str("no frames to export"))));
            return Vec::new();
        }
        let default_name = self.default_export_name(&format);
        self.pending_export = Some(format);
        let mut v: Vec<Effect> = Vec::new();
        v.push(Effect::SpawnSaveDialog { default_name });
        v
    }

    fn save_path_picked(&mut self, path: Option<PathBuf>) -> (effects: Vec<Effect>)
        requires
            old(self).wf(),
        ensures
            final(self).wf(),
            save_path_picked_post(*old(self), path, *final(self), effects@),
    {
        match path {
            None => {
                self.pending_export = None;
                self.status = Some(StatusEvent::DialogCancelled);
                Vec::new()
            },
            Some(path) => {
                let format = match self.pending_export.take() {
                    Some(f) => f,
                    None => {
                        return Vec::new();
                    },
                };
                let (frames, loop_count) = match &self.project {
                    Some(p) => {
                        if p.order.len() == 0 {
                            (None, 0)
                        } else {
                            (Some(collect_frames(p)), p.loop_count)
                        }
                    },
                    None => {
                        return Vec::new();
                    },
                };
                match frames {
                    None => {
                        self.status = Some(
                            StatusEvent::Error(AppError::Encode(String::from_str("no frames to export"))),
                        );
                        Vec::new()
                    },
                    Some(frames) => {
                        self.status = Some(StatusEvent::Exporting);
                        let mut v: Vec<Effect> = Vec::new();
                        v.push(Effect::SpawnExport { frames, loop_count, format, path });
                        v
                    },
                }
            },
        }
    }

    fn export_finished(&mut self, result: Result<ExportOutcome, AppError>)
        requires
            old(self).wf(),
        ensures
            final(self).wf(),
            export_finished_post(*old(self), result, *final(self)),
    {
        match result {
            Ok(o) => {
                self.status = Some(StatusEvent::ExportDone { path: o.path, bytes: o.bytes, ms: o.ms });
            },
            Err(e) => {
                self.status = Some(StatusEvent::Error(e));
            },
        }
    }

    fn estimate_requested(&mut self, generation: u64, format: ExportFormat) -> (effects: Vec<Effect>)
        requires
            old(self).wf(),
        ensures
            final(self).wf(),
            estimate_requested_post(*old(self), generation, format, *final(self), effects@),
    {
        if self.estimate.in_flight {
            return Vec::new();
        }
        self.estimate.generation = generation;
        self.estimate.result = None;
        let job = match &self.project {
            Some(p) => {
                if p.order.len() == 0 {
                    None
                } else {
                    Some((collect_frames(p), p.loop_count))
                }
            },
            None => None,
        };
        match job {
            None => Vec::new(),
            Some((frames, loop_count)) => {
                self.estimate.in_flight = true;
                let mut v: Vec<Effect> = Vec::new();
                v.push(Effect::SpawnEstimate { generation, frames, loop_count, format });
                v
            },
        }
    }

    fn estimate_ready(&mut self, generation: u64, result: Result<u64, AppError>)
        requires
            old(self).wf(),
        ensures
            final(self).wf(),
            estimate_ready_post(*old(self), generation, result, *final(self)),
    {
        self.estimate.in_flight = false;
        if generation == self.estimate.generation {
            self.estimate.result = Some(result);
        }
    }
}

/// Playback stopped when fewer than two frames are left, otherwise as it was.
pub open spec fn stopped_if_short(pb: Playback, project: Option<Project>) -> Playback {
    if project is None || project.unwrap().order@.len() < 2 {
        Playback { playing: false, acc_us: pb.acc_us }
    } else {
        pb
    }
}

/// An edit through the model: the document's edit; a resize refused by the
/// memory budget is reported as a too-large error.
pub open spec fn model_edit_post(old: Model, e: Edit, new: Model) -> bool {
    match old.project {
        None => new == old,
        Some(p) => {
            let q = new.project.unwrap();
            &&& new.project is Some
            &&& if editing::over_budget(p, e) {
                new == Model {
                    status: Some(
                        StatusEvent::Error(
                            AppError::TooLarge {
                                needed: editing::saturate(
                                    editing::resize_projected(p.order@.len(), e->Resize_width, e->Resize_height),
                                ),
                                budget: MEMORY_BUDGET_BYTES,
                            },
                        ),
                    ),
                    ..old
                }
            } else if editing::skipped(p, e) {
                new == old
            } else {
                &&& editing::recorded_post(p, e, q)
                &&& new == Model { project: new.project, ..old }
            }
        },
    }
}

/// Undo (or redo) through the model: the document's step; the size
/// estimate is dropped when the frames changed; playback stops below two
/// frames.
pub open spec fn model_history_post(old: Model, redo: bool, new: Model) -> bool {
    &&& match old.project {
        None => new == Model { playback: new.playback, ..old },
        Some(p) => {
            let q = new.project.unwrap();
            let moved = if redo {
                p.history.redo_stack().len() > 0
            } else {
                p.history.undo_stack().len() > 0
            };
            &&& new.project is Some
            &&& if redo {
                editing::redo_post(p, q)
            } else {
                editing::undo_post(p, q)
            }
            &&& new == Model {
                project: new.project,
                playback: new.playback,
                estimate: if moved {
                    EstimateState { result: None, ..old.estimate }
                } else {
                    old.estimate
                },
                ..old
            }
        },
    }
    &&& new.playback == stopped_if_short(old.playback, new.project)
}

/// Play time of frame `i` in microseconds (at least `MIN_PLAYBACK_MS`).
pub open spec fn frame_us(p: Project, i: int) -> int {
    let ms = p.store@[p.order@[i]].duration_ms;
    (if ms < MIN_PLAYBACK_MS {
        MIN_PLAYBACK_MS as int
    } else {
        ms as int
    }) * 1000
}

/// Playhead and remaining time after consuming whole frames from `acc`,
/// at most `fuel` of them.
pub open spec fn advance(p: Project, view: int, acc: int, fuel: nat) -> (int, int)
    decreases fuel,
{
    if fuel == 0 || acc < frame_us(p, view) {
        (view, acc)
    } else {
        advance(p, (view + 1) % (p.order@.len() as int), acc - frame_us(p, view), (fuel - 1) as nat)
    }
}

/// Longest step a single tick takes, in microseconds (one second).
pub const MAX_TICK_US: u64 = 1_000_000;

/// Most frames a single tick advances.
pub const MAX_TICK_FRAMES: u32 = 10_000;

/// A playback tick of `dt_us` microseconds (at most a second counts): while
/// playing a document of several frames, the accumulated time pays for
/// whole frames in turn, moving the playhead and wrapping around.
pub open spec fn tick_post(old: Model, dt_us: u64, new: Model) -> bool {
    if old.playback.playing && old.project is Some && old.project.unwrap().order@.len() > 1 {
        let p = old.project.unwrap();
        let step = if dt_us < MAX_TICK_US {
            dt_us as int
        } else {
            MAX_TICK_US as int
        };
        let start = if old.playback.acc_us + step <= u64::MAX {
            old.playback.acc_us + step
        } else {
            u64::MAX as int
        };
        let r = advance(p, p.view_index as int, start, MAX_TICK_FRAMES as nat);
        &&& new.project == Some(Project { view_index: r.0 as usize, ..p })
        &&& new == Model {
            project: new.project,
            playback: Playback { playing: true, acc_us: r.1 as u64 },
            ..old
        }
    } else {
        new == old
    }
}

/// Time left on the current frame in microseconds (the frame's duration,
/// at least the playback floor, less the time already spent on it; at
/// least 1 ms), while playing a document of several frames.
pub open spec fn remaining_us(m: Model) -> Option<u64> {
    match m.project {
        Some(p) => if m.playback.playing && p.order@.len() > 1 {
            let left = frame_us(p, p.view_index as int) - m.playback.acc_us;
            Some(
                (if left > 1000 {
                    left
                } else {
                    1000
                }) as u64,
            )
        } else {
            None
        },
        None => None,
    }
}

/// The same time in whole milliseconds, rounded up.
pub open spec fn remaining_ms(m: Model) -> Option<u64> {
    match m.project {
        Some(p) => if m.playback.playing && p.order@.len() > 1 {
            let left = frame_us(p, p.view_index as int) - m.playback.acc_us;
            let left = if left > 1000 {
                left
            } else {
                1000
            };
            Some(((left + 999) / 1000) as u64)
        } else {
            None
        },
        None => None,
    }
}

/// What `Model::apply` does for each action.
pub open spec fn apply_post(old: Model, a: Action, new: Model, effects: Seq<Effect>) -> bool {
    match a {
        Action::OpenFileDialog => open_file_dialog_post(old, new, effects),
        Action::FilePicked(path) => file_picked_post(old, path, new, effects),
        Action::LoadFinished(r) => load_finished_post(old, r, new) && effects.len() == 0,
        Action::ClearRequested | Action::ClearConfirmed => clear_post(old, new) && effects.len() == 0,
        Action::SelectFrame(id) => select_frame_post(old, id, new) && effects.len() == 0,
        Action::ToggleSelect(id) => toggle_select_post(old, id, new) && effects.len() == 0,
        Action::RangeSelect(id) => range_select_post(old, id, new) && effects.len() == 0,
        Action::SelectAll => select_all_post(old, new) && effects.len() == 0,
        Action::ClearSelection => clear_selection_post(old, new) && effects.len() == 0,
        Action::PlayPause => play_pause_post(old, new) && effects.len() == 0,
        Action::StepForward => step_post(old, true, new) && effects.len() == 0,
        Action::StepBack => step_post(old, false, new) && effects.len() == 0,
        Action::Edit(e) => {
            &&& model_edit_post(old, e, Model { estimate: old.estimate, playback: old.playback, ..new })
            &&& new.estimate == EstimateState { result: None, ..old.estimate }
            &&& new.playback == stopped_if_short(old.playback, new.project)
            &&& effects.len() == 0
        },
        Action::Undo => model_history_post(old, false, new) && effects.len() == 0,
        Action::Redo => model_history_post(old, true, new) && effects.len() == 0,
        Action::StartExport(format) => start_export_post(old, format, new, effects),
        Action::SavePathPicked(path) => save_path_picked_post(old, path, new, effects),
        Action::ExportFinished(r) => export_finished_post(old, r, new) && effects.len() == 0,
        Action::EstimateRequested { generation, format } => estimate_requested_post(
            old,
            generation,
            format,
            new,
            effects,
        ),
        Action::EstimateReady { generation, result } => estimate_ready_post(old, generation, result, new)
            && effects.len() == 0,
        Action::SetLoopInfinite(infinite) => model_edit_post(old, Edit::SetLoop { infinite }, new)
            && effects.len() == 0,
    }
}

impl Model {
    fn stop_playback_if_short(&mut self)
        ensures
            *final(self) == (Model { playback: stopped_if_short(old(self).playback, old(self).project), ..*old(self) }),
    {
        let short = match &self.project {
            Some(p) => p.order.len() < 2,
            None => true,
        };
        if short {
            self.playback.playing = false;
        }
    }

    fn apply_edit(&mut self, edit: Edit)
        requires
            old(self).wf(),
            edit is Crop && old(self).project is Some ==> old(self).project.unwrap().canvas.0 > 0
                && old(self).project.unwrap().canvas.1 > 0,
        ensures
            final(self).wf(),
            model_edit_post(*old(self), edit, *final(self)),
    {
        let outcome = match &mut self.project {
            Some(p) => Some(p.edit(edit)),
            None => None,
        };
        match outcome {
            Some(editing::EditOutcome::OverBudget(needed)) => {
                self.status = Some(StatusEvent::Error(AppError::TooLarge { needed, budget: MEMORY_BUDGET_BYTES }));
            },
            _ => {},
        }
    }

    fn undo(&mut self)
        requires
            old(self).wf(),
        ensures
            final(self).wf(),
            model_history_post(*old(self), false, *final(self)),
    {
        let moved = match &mut self.project {
            Some(p) => p.undo(),
            None => false,
        };
        if moved {
            self.estimate.result = None;
        }
        self.stop_playback_if_short();
    }

    fn redo(&mut self)
        requires
            old(self).wf(),
        ensures
            final(self).wf(),
            model_history_post(*old(self), true, *final(self)),
    {
        let moved = match &mut self.project {
            Some(p) => p.redo(),
            None => false,
        };
        if moved {
            self.estimate.result = None;
        }
        self.stop_playback_if_short();
    }

    /// The single state-transition entry point; returns the side effects for
    /// the app layer to carry out.
    pub fn apply(&mut self, action: Action) -> (effects: Vec<Effect>)
        requires
            old(self).wf(),
            action matches Action::LoadFinished(Ok(p)) ==> p.wf(),
            action matches Action::Edit(Edit::Crop { .. }) && old(self).project is Some ==> old(
                self,
            ).project.unwrap().canvas.0 > 0 && old(self).project.unwrap().canvas.1 > 0,
        ensures
            final(self).wf(),
            apply_post(*old(self), action, *final(self), effects@),
    {
        match action {
            Action::OpenFileDialog => self.open_file_dialog(),
            Action::FilePicked(path) => self.file_picked(path),
            Action::LoadFinished(r) => {
                self.load_finished(r);
                Vec::new()
            },
            Action::ClearRequested => {
                self.clear();
                Vec::new()
            },
            Action::ClearConfirmed => {
                self.clear();
                Vec::new()
            },
            Action::SelectFrame(id) => {
                self.select_frame(id);
                Vec::new()
            },
            Action::ToggleSelect(id) => {
                self.toggle_select(id);
                Vec::new()
            },
            Action::RangeSelect(id) => {
                self.range_select(id);
                Vec::new()
            },
            Action::SelectAll => {
                self.select_all();
                Vec::new()
            },
            Action::ClearSelection => {
                self.clear_selection();
                Vec::new()
            },
            Action::PlayPause => {
                self.play_pause();
                Vec::new()
            },
            Action::StepForward => self.step(true),
            Action::StepBack => self.step(false),
            Action::StartExport(format) => self.start_export(format),
            Action::Undo => {
                self.undo();
                Vec::new()
            },
            Action::Redo => {
                self.redo();
                Vec::new()
            },
            Action::Edit(edit) => {
                self.apply_edit(edit);
                self.estimate.result = None;
                self.stop_playback_if_short();
                Vec::new()
            },
            Action::SavePathPicked(path) => self.save_path_picked(path),
            Action::ExportFinished(r) => {
                self.export_finished(r);
                Vec::new()
            },
            Action::EstimateRequested { generation, format } => self.estimate_requested(generation, format),
            Action::EstimateReady { generation, result } => {
                self.estimate_ready(generation, result);
                Vec::new()
            },
            Action::SetLoopInfinite(infinite) => {
                self.apply_edit(Edit::SetLoop { infinite });
                Vec::new()
            },
        }
    }

    /// Advances playback by `dt_us` microseconds (see `tick_post`). A long
    /// gap between repaints counts as one second, so playback never races
    /// to catch up.
    pub fn tick_playback(&mut self, dt_us: u64)
        requires
            old(self).wf(),
        ensures
            final(self).wf(),
            tick_post(*old(self), dt_us, *final(self)),
    {
        if !self.playback.playing {
            return;
        }
        let step = if dt_us < MAX_TICK_US {
            dt_us
        } else {
            MAX_TICK_US
        };
        let start = self.playback.acc_us.saturating_add(step);
        let (view, acc) = match &self.project {
            None => {
                return;
            },
            Some(p) => {
                let n = p.order.len();
                if n <= 1 {
                    return;
                }
                proof {
                    p.store.lemma_wf();
                }
                let mut acc = start;
                let mut view = p.view_index;
                let mut fuel: u32 = MAX_TICK_FRAMES;
                while fuel > 0
                    invariant
                        p.wf(),
                        n == p.order@.len(),
                        n > 1,
                        view < n,
                        fuel <= MAX_TICK_FRAMES,
                        advance(*p, view as int, acc as int, fuel as nat) == advance(
                            *p,
                            p.view_index as int,
                            start as int,
                            MAX_TICK_FRAMES as nat,
                        ),
                    ensures
                        view < n,
                        advance(*p, view as int, acc as int, fuel as nat) == (view as int, acc as int),
                        advance(*p, view as int, acc as int, fuel as nat) == advance(
                            *p,
                            p.view_index as int,
                            start as int,
                            MAX_TICK_FRAMES as nat,
                        ),
                    decreases fuel,
                {
                    proof {
                        p.store.lemma_wf();
                        assert(p.store@.dom().contains(p.order@[view as int]));
                    }
                    let f = p.store.get(p.order[view]).unwrap();
                    let ms = f.duration_ms();
                    let floor_ms = if ms < MIN_PLAYBACK_MS {
                        MIN_PLAYBACK_MS
                    } else {
                        ms
                    };
                    let d: u64 = floor_ms as u64 * 1000;
                    if acc >= d {
                        acc = acc - d;
                        let ghost v0 = view;
                        view = if view + 1 == n {
                            0
                        } else {
                            view + 1
                        };
                        proof {
                            if v0 + 1 == n {
                                vstd::arithmetic::div_mod::lemma_mod_self_0(n as int);
                            } else {
                                vstd::arithmetic::div_mod::lemma_small_mod((v0 + 1) as nat, n as nat);
                            }
                        }
                        fuel = fuel - 1;
                    } else {
                        break;
                    }
                }
                (view, acc)
            },
        };
        match &mut self.project {
            Some(p) => {
                p.view_index = view;
            },
            None => {},
        }
        self.playback.acc_us = acc;
    }

    /// Time left on the current frame in milliseconds, rounded up and at
    /// least 1, while playing a document of several frames; `None`
    /// otherwise.
    pub fn playback_remaining_ms(&self) -> (r: Option<u64>)
        requires
            self.wf(),
        ensures
            r == remaining_ms(*self),
    {
        match self.playback_remaining_us() {
            Some(us) => Some((us + 999) / 1000),
            None => None,
        }
    }

    /// Time left on the current frame in microseconds (see `remaining_us`):
    /// the exact value, which the app schedules its next repaint with.
    pub fn playback_remaining_us(&self) -> (r: Option<u64>)
        requires
            self.wf(),
        ensures
            r == remaining_us(*self),
    {
        if !self.playback.playing {
            return None;
        }
        match &self.project {
            None => None,
            Some(p) => {
                if p.order.len() <= 1 {
                    return None;
                }
                proof {
                    p.store.lemma_wf();
                    assert(p.store@.dom().contains(p.order@[p.view_index as int]));
                }
                let f = p.store.get(p.order[p.view_index]).unwrap();
                let ms = f.duration_ms();
                let floor_ms = if ms < MIN_PLAYBACK_MS {
                    MIN_PLAYBACK_MS
                } else {
                    ms
                };
                let d: u64 = floor_ms as u64 * 1000;
                let left: u64 = if d > self.playback.acc_us && d - self.playback.acc_us > 1000 {
                    d - self.playback.acc_us
                } else {
                    1000
                };
                Some(left)
            },
        }
    }
}

impl Default for Model {
    /// Same as `Model::new`.
    fn default() -> (r: Self)
        ensures
            r.wf(),
            r.project is None,
            !r.playback.playing,
            r.playback.acc_us == 0,
            r.status matches Some(StatusEvent::Ready),
            r.pending_export is None,
            estimate_reset(r.estimate, 0),
            r.next_frame_id == 0,
    {
        Model::new()
    }
}

} // verus!
