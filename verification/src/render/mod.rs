//! What the views compute without drawing: the crop draft geometry, the
//! labels of edits and the tooltips of tool buttons.
use crate::model::transform::{clamp_crop, clamp_crop_spec};
use crate::model::Edit;
use vstd::prelude::*;
use vstd::string::StringExecFns;

pub mod dialogs;
pub mod sidebar;
pub mod thumbs;

verus! {

/// Crop draft: the rectangle being dragged or typed in the crop view; it
/// is committed as `Edit::Crop` only when confirmed.
#[derive(Debug, Clone, Copy, PartialEq, Eq, Structural)]
pub struct CropDraft {
    pub x: u32,
    pub y: u32,
    pub w: u32,
    pub h: u32,
}

/// A corner handle of the crop draft.
#[derive(Debug, Clone, Copy, PartialEq, Eq, Structural)]
pub enum Corner {
    TopLeft,
    TopRight,
    BottomLeft,
    BottomRight,
}

/// The smaller of two values.
pub open spec fn lo(a: u32, b: u32) -> u32 {
    if a < b {
        a
    } else {
        b
    }
}

/// The larger of two values.
pub open spec fn hi(a: u32, b: u32) -> u32 {
    if a < b {
        b
    } else {
        a
    }
}

/// The draft spanned by two canvas pixels (both included), clamped to the
/// canvas.
pub open spec fn draft_between(canvas: (u32, u32), a: (u32, u32), b: (u32, u32)) -> CropDraft {
    let r = clamp_crop_spec(
        canvas,
        lo(a.0, b.0),
        lo(a.1, b.1),
        (hi(a.0, b.0) - lo(a.0, b.0) + 1) as u32,
        (hi(a.1, b.1) - lo(a.1, b.1) + 1) as u32,
    );
    CropDraft { x: r.0, y: r.1, w: r.2, h: r.3 }
}

/// The draft spanned by two canvas pixels, end pixels included, clamped to
/// the canvas (so at least 1 x 1).
pub fn draft_from_corners(canvas: (u32, u32), a: (u32, u32), b: (u32, u32)) -> (d: CropDraft)
    requires
        canvas.0 > 0,
        canvas.1 > 0,
        hi(a.0, b.0) - lo(a.0, b.0) < u32::MAX,
        hi(a.1, b.1) - lo(a.1, b.1) < u32::MAX,
    ensures
        d == draft_between(canvas, a, b),
        d.x + d.w <= canvas.0,
        d.y + d.h <= canvas.1,
        d.w >= 1,
        d.h >= 1,
{
    let x0 = if a.0 < b.0 {
        a.0
    } else {
        b.0
    };
    let y0 = if a.1 < b.1 {
        a.1
    } else {
        b.1
    };
    let x1 = if a.0 < b.0 {
        b.0
    } else {
        a.0
    };
    let y1 = if a.1 < b.1 {
        b.1
    } else {
        a.1
    };
    let (x, y, w, h) = clamp_crop(canvas, x0, y0, x1 - x0 + 1, y1 - y0 + 1);
    CropDraft { x, y, w, h }
}

/// Right column of a draft (its last pixel).
pub open spec fn right_of(d: CropDraft) -> u32 {
    (d.x + d.w - 1) as u32
}

/// Bottom row of a draft (its last pixel).
pub open spec fn bottom_of(d: CropDraft) -> u32 {
    (d.y + d.h - 1) as u32
}

/// A draft of at least 1 x 1 whose last pixel has coordinates.
pub open spec fn draft_ok(d: CropDraft) -> bool {
    d.w >= 1 && d.h >= 1 && d.x + d.w - 1 <= u32::MAX && d.y + d.h - 1 <= u32::MAX
}

/// The four corners of a draft in canvas pixels (end pixels included):
/// top-left, top-right, bottom-left, bottom-right.
pub fn draft_corners(d: CropDraft) -> (r: [(Corner, (u32, u32)); 4])
    requires
        draft_ok(d),
    ensures
        r@ == seq![
            (Corner::TopLeft, (d.x, d.y)),
            (Corner::TopRight, (right_of(d), d.y)),
            (Corner::BottomLeft, (d.x, bottom_of(d))),
            (Corner::BottomRight, (right_of(d), bottom_of(d))),
        ],
{
    let right = (d.x as u64 + d.w as u64 - 1) as u32;
    let bottom = (d.y as u64 + d.h as u64 - 1) as u32;
    let r = [
        (Corner::TopLeft, (d.x, d.y)),
        (Corner::TopRight, (right, d.y)),
        (Corner::BottomLeft, (d.x, bottom)),
        (Corner::BottomRight, (right, bottom)),
    ];
    assert(r@ =~= seq![
        (Corner::TopLeft, (d.x, d.y)),
        (Corner::TopRight, (right_of(d), d.y)),
        (Corner::BottomLeft, (d.x, bottom_of(d))),
        (Corner::BottomRight, (right_of(d), bottom_of(d))),
    ]);
    r
}

/// The corner that stays fixed while corner `c` is dragged: the diagonally
/// opposite one.
pub open spec fn opposite(d: CropDraft, c: Corner) -> (u32, u32) {
    match c {
        Corner::TopLeft => (right_of(d), bottom_of(d)),
        Corner::TopRight => (d.x, bottom_of(d)),
        Corner::BottomLeft => (right_of(d), d.y),
        Corner::BottomRight => (d.x, d.y),
    }
}

/// The corner that stays fixed while corner `c` is dragged.
pub fn opposite_corner(d: CropDraft, c: Corner) -> (r: (u32, u32))
    requires
        draft_ok(d),
    ensures
        r == opposite(d, c),
{
    let right = (d.x as u64 + d.w as u64 - 1) as u32;
    let bottom = (d.y as u64 + d.h as u64 - 1) as u32;
    match c {
        Corner::TopLeft => (right, bottom),
        Corner::TopRight => (d.x, bottom),
        Corner::BottomLeft => (right, d.y),
        Corner::BottomRight => (d.x, d.y),
    }
}

/// Translation key of an edit's label (undo/redo tooltips, menus).
pub open spec fn label_key(e: Edit) -> Seq<char> {
    match e {
        Edit::DeleteFrames { .. } => "edit.delete"@,
        Edit::ReverseSelected => "edit.reverse"@,
        Edit::Reorder { .. } => "edit.reorder"@,
        Edit::SetDuration { .. } => "edit.duration"@,
        Edit::SetLoop { .. } => "edit.loop"@,
        Edit::Crop { .. } => "edit.crop"@,
        Edit::Resize { .. } => "edit.resize"@,
        Edit::RotateLeft => "edit.rotl"@,
        Edit::RotateRight => "edit.rotr"@,
        Edit::FlipH => "edit.fliph"@,
        Edit::FlipV => "edit.flipv"@,
    }
}

/// Translation key of an edit's label.
pub fn edit_label_key(edit: &Edit) -> (r: &'static str)
    ensures
        r@ == label_key(*edit),
{
    match edit {
        Edit::DeleteFrames { .. } => "edit.delete",
        Edit::ReverseSelected => "edit.reverse",
        Edit::Reorder { .. } => "edit.reorder",
        Edit::SetDuration { .. } => "edit.duration",
        Edit::SetLoop { .. } => "edit.loop",
        Edit::Crop { .. } => "edit.crop",
        Edit::Resize { .. } => "edit.resize",
        Edit::RotateLeft => "edit.rotl",
        Edit::RotateRight => "edit.rotr",
        Edit::FlipH => "edit.fliph",
        Edit::FlipV => "edit.flipv",
    }
}

/// Tooltip of a tool button: `"<label> (<key>)"`, followed by
/// `" · <hint>"` when an edit hint is given.
pub fn shortcut_tip(label: &str, key: &str, edit_hint: Option<&str>) -> (r: String)
    ensures
        r@ == label@ + " ("@ + key@ + ")"@ + match edit_hint {
            Some(h) => " · "@ + h@,
            None => Seq::<char>::empty(),
        },
{
    let mut s = String::from_str(label);
    s.append(" (");
    s.append(key);
    s.append(")");
    match edit_hint {
        Some(h) => {
            s.append(" · ");
            s.append(h);
        },
        None => {},
    }
    proof {
        reveal_strlit(" (");
        reveal_strlit(")");
        reveal_strlit(" · ");
        assert(s@ =~= label@ + " ("@ + key@ + ")"@ + match edit_hint {
            Some(h) => " · "@ + h@,
            None => Seq::<char>::empty(),
        });
    }
    s
}

} // verus!
