// Concrete cases of the view decisions: frame-list moves and drops,
// thumbnail LRU bookkeeping, the export estimate debounce, the locked
// aspect ratio, the duration field and the dirty-document guard.

use gifsennin_rust::model::guard::{confirmed, guard, is_document_switch, Guarded};
use gifsennin_rust::model::order_ops::reorder;
use gifsennin_rust::model::{Action, ExportFormat, FrameId, GifQuality};
use gifsennin_rust::render::dialogs::{
    estimate_line, estimate_request, estimate_step, locked_side, EstimateLine, EstimateStep,
};
use gifsennin_rust::render::sidebar::duration_field;
use gifsennin_rust::render::thumbs::{cap_for, drop_target, move_down_target, move_up_target, ThumbLru};
use gifsennin_rust::errors::AppError;
use std::path::PathBuf;

fn ids(v: &[u64]) -> Vec<FrameId> {
    v.iter().map(|&x| FrameId(x)).collect()
}

#[test]
fn move_up_swaps_with_predecessor() {
    let order = ids(&[1, 2, 3, 4]);
    let t = move_up_target(&order, FrameId(3));
    assert_eq!(t, Some(FrameId(2)));
    assert_eq!(reorder(&order, &[FrameId(3)], t), ids(&[1, 3, 2, 4]));
    assert_eq!(move_up_target(&order, FrameId(1)), None);
    assert_eq!(move_up_target(&order, FrameId(9)), None);
}

#[test]
fn move_down_swaps_with_successor() {
    let order = ids(&[1, 2, 3, 4]);
    let t = move_down_target(&order, FrameId(2));
    assert_eq!(t, Some(Some(FrameId(4))));
    assert_eq!(reorder(&order, &[FrameId(2)], t.unwrap()), ids(&[1, 3, 2, 4]));
    // next to last: moves to the end
    let t = move_down_target(&order, FrameId(3));
    assert_eq!(t, Some(None));
    assert_eq!(reorder(&order, &[FrameId(3)], None), ids(&[1, 2, 4, 3]));
    assert_eq!(move_down_target(&order, FrameId(4)), None);
    assert_eq!(move_down_target(&order, FrameId(9)), None);
}

#[test]
fn drop_in_own_gap_asks_nothing() {
    let order = ids(&[1, 2, 3, 4]);
    // others = [1, 3, 4]; gap 1 lands before 3, which is where 2 already is
    assert_eq!(drop_target(&order, FrameId(2), 1), None);
    assert_eq!(drop_target(&order, FrameId(4), 3), None);
    assert_eq!(drop_target(&order, FrameId(9), 0), None);
}

#[test]
fn drop_elsewhere_asks_reorder() {
    let order = ids(&[1, 2, 3, 4]);
    assert_eq!(drop_target(&order, FrameId(2), 0), Some(Some(FrameId(1))));
    assert_eq!(drop_target(&order, FrameId(2), 3), Some(None));
    assert_eq!(drop_target(&order, FrameId(1), 2), Some(Some(FrameId(4))));
    assert_eq!(reorder(&order, &[FrameId(1)], Some(FrameId(4))), ids(&[2, 3, 1, 4]));
}

#[test]
fn thumb_lru_evicts_oldest_first() {
    let mut lru = ThumbLru::new(2);
    assert!(lru.take_in(FrameId(1)).is_empty());
    assert!(lru.take_in(FrameId(2)).is_empty());
    lru.touch(FrameId(1));
    assert_eq!(lru.take_in(FrameId(3)), ids(&[2]));
    assert_eq!(lru.len(), 2);
    assert_eq!(lru.set_cap(1), ids(&[1]));
    assert_eq!(lru.len(), 1);
    lru.clear();
    assert_eq!(lru.len(), 0);
}

#[test]
fn thumb_cap_follows_document() {
    assert_eq!(cap_for(0), 464);
    assert_eq!(cap_for(400), 464);
    assert_eq!(cap_for(1000), 1064);
}

#[test]
fn estimate_sent_at_once_when_nothing_sent() {
    let gif = ExportFormat::Gif { quality: GifQuality::Balanced };
    let d = estimate_step(None, &gif, None, true, false);
    assert_eq!(d.step, EstimateStep::Wait { remaining_ms: 300 });
    assert!(d.keep_mark);
    let d = estimate_step(None, &gif, Some(300), true, false);
    assert_eq!(d.step, EstimateStep::Send);
    assert!(!d.keep_mark);
}

#[test]
fn estimate_waits_out_debounce() {
    let gif = ExportFormat::Gif { quality: GifQuality::Balanced };
    let fast = ExportFormat::Gif { quality: GifQuality::Fast };
    let d = estimate_step(Some(&gif), &fast, Some(120), false, false);
    assert_eq!(d.step, EstimateStep::Wait { remaining_ms: 180 });
    // due but a worker is still running: keep the mark, do nothing yet
    let d = estimate_step(Some(&gif), &fast, Some(400), false, true);
    assert_eq!(d.step, EstimateStep::Idle);
    assert!(d.keep_mark);
}

#[test]
fn estimate_refreshed_after_result_dropped() {
    let png = ExportFormat::PngZip;
    let d = estimate_step(Some(&png), &png, None, true, false);
    assert_eq!(d.step, EstimateStep::Send);
    let d = estimate_step(Some(&png), &png, None, false, false);
    assert_eq!(d.step, EstimateStep::Idle);
    assert!(!d.keep_mark);
}

#[test]
fn estimate_line_cases() {
    let png = ExportFormat::PngZip;
    let gif = ExportFormat::Gif { quality: GifQuality::High };
    assert_eq!(estimate_line(Some(&png), &gif, &Some(Ok(5))), EstimateLine::Modified);
    assert_eq!(estimate_line(Some(&png), &png, &Some(Ok(5))), EstimateLine::Size(5));
    assert_eq!(estimate_line(None, &png, &None), EstimateLine::Pending);
    assert_eq!(
        estimate_line(Some(&png), &png, &Some(Err(AppError::Encode("x".to_string())))),
        EstimateLine::Failed
    );
}

#[test]
fn locked_aspect_rounds_to_nearest() {
    // 640x480 → width 100: 100 * 480 / 640 = 75
    assert_eq!(locked_side(100, 640, 480), 75);
    // 3 * 1 / 2 = 1.5 rounds up to 2
    assert_eq!(locked_side(3, 2, 1), 2);
    assert_eq!(locked_side(1, 1000, 1), 1);
    assert_eq!(locked_side(10000, 1, 50), 10000);
}

#[test]
fn duration_field_mixed_and_common() {
    assert_eq!(duration_field(&[]), (false, 100));
    assert_eq!(duration_field(&[40]), (false, 40));
    assert_eq!(duration_field(&[40, 40, 40]), (false, 40));
    assert_eq!(duration_field(&[40, 50]), (true, 100));
}

#[test]
fn dirty_document_asks_before_discarding() {
    let path = PathBuf::from("a.gif");
    assert!(matches!(
        guard(Action::FilePicked(Some(path.clone())), true),
        Guarded::Confirm { pending_open: Some(p) } if p == path
    ));
    assert!(matches!(
        guard(Action::FilePicked(Some(path.clone())), false),
        Guarded::Proceed(Action::FilePicked(Some(_)))
    ));
    assert!(matches!(guard(Action::ClearRequested, true), Guarded::Confirm { pending_open: None }));
    assert!(matches!(guard(Action::ClearRequested, false), Guarded::Proceed(Action::ClearConfirmed)));
    assert!(matches!(guard(Action::SelectAll, true), Guarded::Proceed(Action::SelectAll)));
    assert!(matches!(confirmed(Some(path)), Action::FilePicked(Some(_))));
    assert!(matches!(confirmed(None), Action::ClearConfirmed));
}

#[test]
fn document_switching_actions() {
    assert!(is_document_switch(&Action::ClearConfirmed));
    assert!(is_document_switch(&Action::FilePicked(Some(PathBuf::from("x.gif")))));
    assert!(!is_document_switch(&Action::FilePicked(None)));
    assert!(!is_document_switch(&Action::Undo));
}

#[test]
fn estimate_requests_carry_the_next_generation() {
    match estimate_request(4, ExportFormat::PngZip) {
        (5, Action::EstimateRequested { generation: 5, format: ExportFormat::PngZip }) => {}
        _ => panic!("expected the request of generation 5"),
    }
    assert_eq!(estimate_request(u64::MAX, ExportFormat::PngZip).0, 0);
}
