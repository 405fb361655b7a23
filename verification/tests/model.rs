// Model integration tests: state after action sequences, the undo snapshot
// invariant, collection of unreferenced frames, playback.

use gifsennin_rust::codec::{DecodedAnimation, DecodedFrame};
use gifsennin_rust::errors::AppError;
use gifsennin_rust::model::{
    Action, Edit, Effect, ExportFormat, FrameId, Model, Project, ResizeFilter, Snapshot, StatusEvent,
    MEMORY_BUDGET_BYTES,
};
use std::path::PathBuf;

fn anim(n: usize, w: u32, h: u32, dur: u32) -> DecodedAnimation {
    DecodedAnimation {
        width: w,
        height: h,
        loop_count: 0,
        frames: (0..n)
            .map(|i| DecodedFrame {
                rgba: vec![i as u8; (w * h * 4) as usize],
                duration_ms: dur,
            })
            .collect(),
    }
}

/// A model with `n` loaded frames (autoplay switched off for the asserts).
fn loaded(n: usize) -> Model {
    let mut m = Model::new();
    let project = Project::from_decoded(PathBuf::from("test.gif"), anim(n, 8, 8, 100), 0, 0).unwrap();
    m.apply(Action::LoadFinished(Ok(project)));
    m.playback.playing = false;
    m
}

fn snap(m: &Model) -> Snapshot {
    m.project.as_ref().unwrap().snapshot()
}

fn order(m: &Model) -> Vec<FrameId> {
    m.project.as_ref().unwrap().order.clone()
}

fn ids(m: &Model, indices: &[usize]) -> Vec<FrameId> {
    let o = order(m);
    indices.iter().map(|&i| o[i]).collect()
}

/// Frame tag: loading fills the pixels of frame `i` with `i`.
fn frame_tag(m: &Model, id: FrameId) -> u8 {
    m.project
        .as_ref()
        .unwrap()
        .store
        .get(id)
        .map(|f| f.as_rgba()[0])
        .unwrap_or(255)
}

// ── loading ──

#[test]
fn load_initializes_selection_and_playhead() {
    let m = loaded(3);
    let p = m.project.as_ref().unwrap();
    assert_eq!(p.frame_count(), 3);
    assert_eq!(p.selection.len(), 1); // first frame selected
    assert_eq!(p.view_index, 0);
    assert_eq!(p.canvas, (8, 8));
}

#[test]
fn budget_guard_rejects_oversized() {
    let result = Project::from_decoded(PathBuf::from("huge.gif"), anim(1, 30000, 30000, 100), 0, 0);
    // 30000 x 30000 x 4 ≈ 3.6 GB > 1.5 GB budget
    match result {
        Err(AppError::TooLarge { needed, budget }) => {
            assert!(needed > budget);
            assert_eq!(budget, MEMORY_BUDGET_BYTES);
        }
        other => panic!("expected TooLarge, got {:?}", other.is_ok()),
    }
}

#[test]
fn empty_animation_rejected() {
    let result = Project::from_decoded(PathBuf::from("x.gif"), anim(0, 8, 8, 100), 0, 0);
    assert!(matches!(result, Err(AppError::Decode(_))));
}

// ── selection semantics ──

#[test]
fn select_toggle_range_semantics() {
    let mut m = loaded(5);
    // click frame 2
    m.apply(Action::SelectFrame(ids(&m, &[2])[0]));
    assert_eq!(m.project.as_ref().unwrap().selection, ids(&m, &[2]));
    // ctrl+click frame 4 → added
    m.apply(Action::ToggleSelect(ids(&m, &[4])[0]));
    assert_eq!(m.project.as_ref().unwrap().selection, ids(&m, &[2, 4]));
    // shift+click frame 0 → range from the anchor (4) to 0
    m.apply(Action::RangeSelect(ids(&m, &[0])[0]));
    assert_eq!(
        m.project.as_ref().unwrap().selection,
        ids(&m, &[0, 1, 2, 3, 4])
    );
    // ctrl+click frame 2 → removed
    m.apply(Action::ToggleSelect(ids(&m, &[2])[0]));
    assert_eq!(
        m.project.as_ref().unwrap().selection,
        ids(&m, &[0, 1, 3, 4])
    );
    // ctrl+A
    m.apply(Action::ClearSelection);
    m.apply(Action::SelectAll);
    assert_eq!(m.project.as_ref().unwrap().selection.len(), 5);
}

// ── the undo snapshot invariant ──

/// Any edit followed by undo restores the exact snapshot from just before it.
fn assert_undo_roundtrip(m: &mut Model, edit: Edit) {
    let before = snap(m);
    m.apply(Action::Edit(edit));
    assert!(
        m.project.as_ref().unwrap().history.can_undo(),
        "edit should be undoable"
    );
    m.apply(Action::Undo);
    assert_eq!(snap(m), before, "undo must restore the pre-edit snapshot");
}

#[test]
fn undo_restores_exact_snapshot_for_all_edit_kinds() {
    let mut m = loaded(4);

    // delete
    let del_ids = ids(&m, &[1, 2]);
    assert_undo_roundtrip(&mut m, Edit::DeleteFrames { ids: del_ids });
    assert_eq!(m.project.as_ref().unwrap().frame_count(), 4);

    // reorder (frame 3 to the front)
    let moved = ids(&m, &[3]);
    let target = order(&m)[0];
    assert_undo_roundtrip(
        &mut m,
        Edit::Reorder {
            moved,
            before: Some(target),
        },
    );

    // duration
    let dur_ids = ids(&m, &[0, 1]);
    assert_undo_roundtrip(
        &mut m,
        Edit::SetDuration {
            ids: dur_ids,
            ms: 250,
        },
    );
    // undo brought back the old ids, whose frames keep their duration
    assert_eq!(
        m.project.as_ref().unwrap().frame_at(0).unwrap().duration_ms(),
        100
    );

    // reverse the selection (select all first: reversing all reverses the order)
    m.apply(Action::SelectAll);
    assert_undo_roundtrip(&mut m, Edit::ReverseSelected);

    // crop (the canvas comes back with the snapshot)
    assert_undo_roundtrip(
        &mut m,
        Edit::Crop {
            x: 1,
            y: 1,
            w: 4,
            h: 4,
        },
    );
    assert_eq!(m.project.as_ref().unwrap().canvas, (8, 8));

    // rotate / flip
    assert_undo_roundtrip(&mut m, Edit::RotateRight);
    assert_undo_roundtrip(&mut m, Edit::RotateLeft);
    assert_undo_roundtrip(&mut m, Edit::FlipH);
    assert_undo_roundtrip(&mut m, Edit::FlipV);
}

#[test]
fn redo_reapplies_and_new_edit_clears_redo() {
    let mut m = loaded(3);
    let victim = ids(&m, &[1]);
    m.apply(Action::Edit(Edit::DeleteFrames {
        ids: victim.clone(),
    }));
    m.apply(Action::Undo);
    assert!(m.project.as_ref().unwrap().history.can_redo());
    m.apply(Action::Redo);
    assert_eq!(m.project.as_ref().unwrap().frame_count(), 2);
    // a new edit after undo invalidates the redo branch
    m.apply(Action::Undo);
    m.apply(Action::Edit(Edit::SetDuration {
        ids: ids(&m, &[0]),
        ms: 50,
    }));
    assert!(!m.project.as_ref().unwrap().history.can_redo());
}

#[test]
fn undo_restores_selection_too() {
    let mut m = loaded(5);
    m.apply(Action::RangeSelect(ids(&m, &[3])[0])); // 0..3 selected
    m.apply(Action::Edit(Edit::DeleteFrames {
        ids: ids(&m, &[0, 1, 2, 3]),
    }));
    let p = m.project.as_ref().unwrap();
    assert_eq!(p.frame_count(), 1);
    assert!(p.selection.is_empty());
    m.apply(Action::Undo);
    let p = m.project.as_ref().unwrap();
    assert_eq!(p.frame_count(), 5);
    assert_eq!(p.selection.len(), 4); // the selection comes back with the snapshot
}

// ── reorder semantics ──

#[test]
fn reorder_moves_before_target_preserving_rest() {
    let mut m = loaded(5); // [0 1 2 3 4]
    let moved = ids(&m, &[3]);
    let target = order(&m)[0]; // to the front
    m.apply(Action::Edit(Edit::Reorder {
        moved,
        before: Some(target),
    }));
    let o = order(&m);
    let names: Vec<u8> = o.iter().map(|id| frame_tag(&m, *id)).collect();
    assert_eq!(names, vec![3, 0, 1, 2, 4]);
}

#[test]
fn reorder_multi_moves_block_contiguously() {
    let mut m = loaded(6); // [0 1 2 3 4 5]
    let moved = ids(&m, &[1, 3]);
    let target = order(&m)[5]; // before 5
    m.apply(Action::Edit(Edit::Reorder {
        moved,
        before: Some(target),
    }));
    let names: Vec<u8> = order(&m).iter().map(|id| frame_tag(&m, *id)).collect();
    assert_eq!(names, vec![0, 2, 4, 1, 3, 5]);
}

#[test]
fn reorder_to_end_with_none() {
    let mut m = loaded(4);
    let moved = ids(&m, &[0, 1]);
    m.apply(Action::Edit(Edit::Reorder {
        moved,
        before: None,
    }));
    let names: Vec<u8> = order(&m).iter().map(|id| frame_tag(&m, *id)).collect();
    assert_eq!(names, vec![2, 3, 0, 1]);
}

// ── id remapping of duration and canvas edits ──

#[test]
fn set_duration_keeps_selection_and_order_positions() {
    let mut m = loaded(3);
    m.apply(Action::RangeSelect(ids(&m, &[2])[0])); // all selected
    let names_before: Vec<u8> = order(&m).iter().map(|id| frame_tag(&m, *id)).collect();
    m.apply(Action::Edit(Edit::SetDuration {
        ids: ids(&m, &[1]),
        ms: 500,
    }));
    let p = m.project.as_ref().unwrap();
    assert_eq!(p.frame_count(), 3);
    assert_eq!(p.selection.len(), 3); // selection kept through the remap
    assert_eq!(p.frame_at(1).unwrap().duration_ms(), 500);
    assert_eq!(p.frame_at(0).unwrap().duration_ms(), 100);
    let names_after: Vec<u8> = order(&m).iter().map(|id| frame_tag(&m, *id)).collect();
    assert_eq!(names_before, names_after); // order unchanged
}

#[test]
fn crop_remaps_selection_to_new_ids() {
    let mut m = loaded(3);
    m.apply(Action::SelectFrame(ids(&m, &[1])[0]));
    m.apply(Action::Edit(Edit::Crop {
        x: 0,
        y: 0,
        w: 4,
        h: 4,
    }));
    let p = m.project.as_ref().unwrap();
    assert_eq!(p.canvas, (4, 4));
    assert_eq!(p.frame_count(), 3);
    assert_eq!(p.selection.len(), 1); // the selected frame moved to its new id
    assert_eq!(p.frame_at(1).unwrap().width(), 4);
}

#[test]
fn reverse_selected_only_touches_selected_positions() {
    let mut m = loaded(5);
    m.apply(Action::SelectFrame(ids(&m, &[4])[0]));
    m.apply(Action::ToggleSelect(ids(&m, &[1])[0]));
    // {1, 4} selected (stored by increasing id)
    m.apply(Action::Edit(Edit::ReverseSelected));
    // the frames at positions 1 and 4 swap, the rest stay
    let names: Vec<u8> = order(&m).iter().map(|id| frame_tag(&m, *id)).collect();
    assert_eq!(names, vec![0, 4, 2, 3, 1]);
}

// ── collection of unreferenced frames ──

#[test]
fn gc_drops_unreferenced_after_history_trim() {
    let mut m = loaded(3); // ids: I0 I1 I2, store = 3
    m.apply(Action::Edit(Edit::SetDuration {
        ids: ids(&m, &[0]),
        ms: 42,
    })); // N0 created, undo references I0
    assert_eq!(m.project.as_ref().unwrap().store.len(), 4);
    m.apply(Action::Edit(Edit::SetDuration {
        ids: ids(&m, &[1]),
        ms: 43,
    })); // N1 created
    assert_eq!(m.project.as_ref().unwrap().store.len(), 5);
    // undo both: order back to [I0, I1, I2], but redo references N0 and N1 → kept
    m.apply(Action::Undo);
    m.apply(Action::Undo);
    assert_eq!(m.project.as_ref().unwrap().store.len(), 5);
    assert_eq!(order(&m).len(), 3);
    // new edit: the redo branch is dropped, N0/N1 are no longer referenced → collected; N2 created
    m.apply(Action::Edit(Edit::SetDuration {
        ids: ids(&m, &[2]),
        ms: 44,
    }));
    let p = m.project.as_ref().unwrap();
    assert_eq!(
        p.store.len(),
        4,
        "N0/N1 must be collected once redo is invalidated"
    );
    // undo C: redo references N2 → kept
    m.apply(Action::Undo);
    let p = m.project.as_ref().unwrap();
    assert_eq!(p.store.len(), 4);
    assert_eq!(p.frame_count(), 3);
}

#[test]
fn deleting_then_undoing_keeps_frames_alive() {
    let mut m = loaded(3);
    m.apply(Action::Edit(Edit::DeleteFrames { ids: ids(&m, &[1]) }));
    // the store still holds the deleted frame (undo needs it), the order has 2
    let p = m.project.as_ref().unwrap();
    assert_eq!(p.frame_count(), 2);
    assert_eq!(p.store.len(), 3);
    m.apply(Action::Undo);
    assert_eq!(m.project.as_ref().unwrap().frame_count(), 3);
}

// ── playback (one time base: microseconds in, milliseconds per frame) ──

#[test]
fn playback_advances_by_frame_durations() {
    let mut m = Model::new();
    let mut a = anim(3, 4, 4, 100);
    a.frames[1].duration_ms = 200;
    let project = Project::from_decoded(PathBuf::from("t.gif"), a, 0, 0).unwrap();
    m.apply(Action::LoadFinished(Ok(project)));
    assert!(m.playback.playing); // autoplay after loading

    m.tick_playback(50_000); // 50 ms < 100 ms → stays
    assert_eq!(m.project.as_ref().unwrap().view_index, 0);
    m.tick_playback(60_000); // 110 ms ≥ 100 → frame 1
    assert_eq!(m.project.as_ref().unwrap().view_index, 1);
    m.tick_playback(250_000); // 250 ≥ 200 → frame 2
    assert_eq!(m.project.as_ref().unwrap().view_index, 2);
    m.tick_playback(110_000); // 110 ≥ 100 → wraps to frame 0
    assert_eq!(m.project.as_ref().unwrap().view_index, 0);
}

#[test]
fn step_pauses_and_wraps() {
    let mut m = loaded(3);
    m.playback.playing = true;
    m.apply(Action::StepForward);
    assert!(!m.playback.playing);
    assert_eq!(m.project.as_ref().unwrap().view_index, 1);
    m.apply(Action::StepBack);
    m.apply(Action::StepBack); // wraps to the last frame
    assert_eq!(m.project.as_ref().unwrap().view_index, 2);
}

#[test]
fn zero_duration_plays_at_16ms_floor() {
    let mut m = Model::new();
    let mut a = anim(2, 4, 4, 0);
    a.frames[0].duration_ms = 0;
    let project = Project::from_decoded(PathBuf::from("t.gif"), a, 0, 0).unwrap();
    m.apply(Action::LoadFinished(Ok(project)));
    m.tick_playback(17_000); // 17 ms ≥ the 16 ms floor → advances
    assert_eq!(m.project.as_ref().unwrap().view_index, 1);
}

// ── empty document edges ──

#[test]
fn delete_all_frames_yields_empty_doc_and_undo_restores() {
    let mut m = loaded(3);
    m.apply(Action::SelectAll);
    m.apply(Action::Edit(Edit::DeleteFrames {
        ids: ids(&m, &[0, 1, 2]),
    }));
    let p = m.project.as_ref().unwrap();
    assert_eq!(p.frame_count(), 0);
    assert_eq!(p.view_index, 0);
    m.apply(Action::Undo);
    assert_eq!(m.project.as_ref().unwrap().frame_count(), 3);
}

#[test]
fn empty_selection_edits_are_noops_without_history() {
    let mut m = loaded(3);
    m.apply(Action::ClearSelection);
    m.apply(Action::Edit(Edit::DeleteFrames { ids: vec![] }));
    m.apply(Action::Edit(Edit::ReverseSelected)); // empty selection
    assert!(!m.project.as_ref().unwrap().history.can_undo());
    assert_eq!(m.project.as_ref().unwrap().frame_count(), 3);
}

// ── regressions ──

#[test]
fn redo_restores_multi_level_history() {
    // redo must keep the rest of the redo branch (depth was stuck at 1)
    let mut m = loaded(4); // [0 1 2 3]
    m.apply(Action::Edit(Edit::DeleteFrames { ids: ids(&m, &[3]) })); // 3 frames
    m.apply(Action::Edit(Edit::DeleteFrames { ids: ids(&m, &[2]) })); // 2 frames
    m.apply(Action::Undo); // back to 3
    m.apply(Action::Undo); // back to 4
    assert!(m.project.as_ref().unwrap().history.can_redo());
    m.apply(Action::Redo); // → 3
    assert!(
        m.project.as_ref().unwrap().history.can_redo(),
        "after one redo the redo stack must still be there"
    );
    m.apply(Action::Redo); // → 2
    assert_eq!(m.project.as_ref().unwrap().frame_count(), 2);
}

#[test]
fn resize_budget_guard_blocks_oversize() {
    // resize checks the memory budget before allocating
    let mut m = loaded(3); // 8×8×3 ≈ 768 B
    m.playback.playing = false;
    m.apply(Action::Edit(Edit::Resize {
        width: 20000,
        height: 20000,
        filter: ResizeFilter::Nearest,
    }));
    // 3 × 20000² × 4 ≈ 4.8 GB > budget → refused, not recorded
    let p = m.project.as_ref().unwrap();
    assert_eq!(p.canvas, (8, 8));
    assert!(!p.history.can_undo());
    assert!(matches!(
        m.status,
        Some(StatusEvent::Error(AppError::TooLarge { .. }))
    ));
    // a reasonable size goes through
    m.apply(Action::Edit(Edit::Resize {
        width: 16,
        height: 16,
        filter: ResizeFilter::Nearest,
    }));
    assert_eq!(m.project.as_ref().unwrap().canvas, (16, 16));
}

#[test]
fn noop_edits_do_not_create_history() {
    // reversing one frame and resizing to the same size are identities
    let mut m = loaded(4);
    m.apply(Action::SelectFrame(ids(&m, &[1])[0])); // single selection
    m.apply(Action::Edit(Edit::ReverseSelected)); // identity
    assert!(!m.project.as_ref().unwrap().history.can_undo());
    m.apply(Action::Edit(Edit::Resize {
        width: 8,
        height: 8, // same size
        filter: ResizeFilter::Nearest,
    }));
    assert!(!m.project.as_ref().unwrap().history.can_undo());
    // cropping to the whole canvas is an identity too
    m.apply(Action::Edit(Edit::Crop {
        x: 0,
        y: 0,
        w: 8,
        h: 8,
    }));
    assert!(!m.project.as_ref().unwrap().history.can_undo());
}

#[test]
fn loop_toggle_is_undoable_and_marks_dirty() {
    // the loop setting is an undoable edit
    let mut m = loaded(3);
    m.apply(Action::SetLoopInfinite(true));
    assert_eq!(m.project.as_ref().unwrap().loop_count, 0);
    assert!(m.dirty(), "changing the loop makes the document dirty");
    m.apply(Action::Undo);
    assert_eq!(m.project.as_ref().unwrap().loop_count, 0, "loaded default 0");
    m.apply(Action::Redo);
    // after redo the state after SetLoop(true) is back → still 0; check the other way
    m.apply(Action::SetLoopInfinite(false)); // loop = 1
    assert_eq!(m.project.as_ref().unwrap().loop_count, 1);
    m.apply(Action::Undo); // revert SetLoopInfinite(false)
    assert_eq!(
        m.project.as_ref().unwrap().loop_count,
        0,
        "undo must restore the loop setting"
    );
}

/// Carries out a load effect the way the app does: decodes nothing, builds
/// the document from `a` numbered from the effect's first id.
fn finish_load(m: &mut Model, effects: Vec<Effect>, path: &str, a: DecodedAnimation) {
    let first_id = effects
        .iter()
        .find_map(|e| match e {
            Effect::SpawnLoad { first_id, .. } => Some(*first_id),
            _ => None,
        })
        .expect("a load was requested");
    let p = Project::from_decoded(PathBuf::from(path), a, first_id, 0).unwrap();
    m.apply(Action::LoadFinished(Ok(p)));
}

#[test]
fn frame_ids_are_globally_unique_across_documents() {
    // frame ids never repeat across documents (texture caches key on them):
    // both documents are built with ids from 0, and the model moves the
    // second one's frames above every id it has handed out
    let a = Project::from_decoded(PathBuf::from("a.gif"), anim(3, 4, 4, 100), 0, 0).unwrap();
    let b = Project::from_decoded(PathBuf::from("b.gif"), anim(3, 4, 4, 100), 0, 0).unwrap();
    assert_eq!(a.order, b.order, "both documents start from the same ids");
    let mut m = Model::new();
    m.apply(Action::LoadFinished(Ok(a)));
    let set_a: std::collections::HashSet<_> = order(&m).into_iter().collect();
    m.apply(Action::LoadFinished(Ok(b)));
    let set_b: std::collections::HashSet<_> = order(&m).into_iter().collect();
    assert_eq!(set_b.len(), 3);
    assert!(set_a.is_disjoint(&set_b), "frames of different documents must have different ids");
    // the frames themselves are kept, in order, under their new ids
    let p = m.project.as_ref().unwrap();
    for id in &p.order {
        assert!(p.store.get(*id).is_some());
    }
    assert_eq!(p.store.len(), 3);
}

#[test]
fn frame_ids_stay_unique_across_loads_of_one_model() {
    let mut m = Model::new();
    let e = m.apply(Action::FilePicked(Some(PathBuf::from("a.gif"))));
    finish_load(&mut m, e, "a.gif", anim(3, 4, 4, 100));
    let set_a: std::collections::HashSet<_> = order(&m).into_iter().collect();
    let e = m.apply(Action::FilePicked(Some(PathBuf::from("b.gif"))));
    finish_load(&mut m, e, "b.gif", anim(3, 4, 4, 100));
    let set_b: std::collections::HashSet<_> = order(&m).into_iter().collect();
    assert!(set_a.is_disjoint(&set_b), "frames of different documents must have different ids");
}

#[test]
fn load_records_file_size() {
    let p = Project::from_decoded(PathBuf::from("a.gif"), anim(2, 4, 4, 100), 0, 1234).unwrap();
    assert_eq!(p.file_size, 1234);
}

#[test]
fn estimate_single_flight_and_invalidation() {
    let mut m = loaded(3);
    let fmt = ExportFormat::PngZip;
    m.apply(Action::EstimateRequested {
        generation: 1,
        format: fmt.clone(),
    });
    assert!(m.estimate.in_flight);
    // a second request while one is in flight is skipped
    let effects = m.apply(Action::EstimateRequested {
        generation: 2,
        format: fmt.clone(),
    });
    assert!(effects.is_empty());
    // the result lands
    m.apply(Action::EstimateReady {
        generation: 1,
        result: Ok(12345),
    });
    assert!(!m.estimate.in_flight);
    assert!(matches!(m.estimate.result, Some(Ok(12345))));
    // a frame edit invalidates the estimate
    m.apply(Action::Edit(Edit::DeleteFrames { ids: ids(&m, &[0]) }));
    assert!(m.estimate.result.is_none());
}

#[test]
fn playback_stops_and_no_repaint_loop_when_single_frame_left() {
    let mut m = loaded(2);
    m.playback.playing = true;
    m.apply(Action::Edit(Edit::DeleteFrames { ids: ids(&m, &[1]) }));
    assert!(!m.playback.playing, "fewer than 2 frames stops playback");
    assert!(m.playback_remaining_ms().is_none());
}

#[test]
fn open_rejected_while_loading() {
    let mut m = loaded(2);
    // enter the loading state
    m.apply(Action::FilePicked(Some(PathBuf::from("x.gif"))));
    assert!(matches!(m.status, Some(StatusEvent::Loading)));
    let effects = m.apply(Action::OpenFileDialog);
    assert!(effects.is_empty(), "no open dialog while loading");
    let effects = m.apply(Action::FilePicked(Some(PathBuf::from("y.gif"))));
    assert!(effects.is_empty(), "no concurrent load");
}
