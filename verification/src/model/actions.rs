//! Edits, actions and effects: the vocabulary between the views and the model.
use super::frame::{Frame, FrameId};
use super::transform::ResizeFilter;
use super::Project;
use crate::errors::AppError;
use std::path::PathBuf;
use std::sync::Arc;
use vstd::prelude::*;

verus! {

/// Undoable edit commands.
#[derive(Debug, Clone)]
pub enum Edit {
    /// Remove the given frames from the order (pixels stay in the store for undo).
    DeleteFrames { ids: Vec<FrameId> },
    /// Reverse the relative order of the selected frames.
    ReverseSelected,
    /// Move `moved` (keeping their relative order) before `before`; `None` = to the end.
    Reorder { moved: Vec<FrameId>, before: Option<FrameId> },
    /// Set the duration (ms) of the given frames.
    SetDuration { ids: Vec<FrameId>, ms: u32 },
    /// Loop mode (true = loop forever), an undoable document property.
    SetLoop { infinite: bool },
    /// Crop every frame to the canvas rectangle.
    Crop { x: u32, y: u32, w: u32, h: u32 },
    /// Resize every frame.
    Resize { width: u32, height: u32, filter: ResizeFilter },
    RotateLeft,
    RotateRight,
    FlipH,
    FlipV,
}

/// The three GIF quality presets.
#[derive(Debug, Clone, Copy, PartialEq, Eq, Structural)]
pub enum GifQuality {
    High,
    Balanced,
    Fast,
}

/// Export format and parameters. The WebP quality travels as the bit
/// pattern of its `f32` value.
#[derive(Debug, Clone, PartialEq, Eq, Structural)]
pub enum ExportFormat {
    Gif { quality: GifQuality },
    Webp { quality_bits: u32, lossless: bool },
    PngZip,
}

/// Default file extension of each export format.
pub open spec fn extension_of(f: ExportFormat) -> Seq<char> {
    match f {
        ExportFormat::Gif { .. } => "gif"@,
        ExportFormat::Webp { .. } => "webp"@,
        ExportFormat::PngZip => "zip"@,
    }
}

impl ExportFormat {
    /// Default file extension.
    pub fn extension(&self) -> (r: &'static str)
        ensures
            r@ == extension_of(*self),
    {
        match self {
            ExportFormat::Gif { .. } => "gif",
            ExportFormat::Webp { .. } => "webp",
            ExportFormat::PngZip => "zip",
        }
    }
}

/// Result of a finished export.
#[derive(Debug)]
pub struct ExportOutcome {
    pub path: PathBuf,
    pub bytes: u64,
    pub ms: u64,
}

/// Size-estimate state: single flight, results of stale generations dropped.
#[derive(Debug)]
pub struct EstimateState {
    /// Monotonic generation; kept across documents.
    pub generation: u64,
    /// Whether an estimate worker is running.
    pub in_flight: bool,
    pub result: Option<Result<u64, AppError>>,
}

impl EstimateState {
    /// Generation 0, nothing in flight, no result.
    pub fn new() -> (r: Self)
        ensures
            r.generation == 0,
            !r.in_flight,
            r.result is None,
    {
        EstimateState { generation: 0, in_flight: false, result: None }
    }
}

/// Everything the views and workers can ask of the model.
pub enum Action {
    OpenFileDialog,
    FilePicked(Option<PathBuf>),
    LoadFinished(Result<Project, AppError>),
    /// Toolbar "clear"; the app asks for confirmation first when dirty.
    ClearRequested,
    ClearConfirmed,
    /// Click: single selection.
    SelectFrame(FrameId),
    /// Ctrl+click: toggle.
    ToggleSelect(FrameId),
    /// Shift+click: range from the anchor.
    RangeSelect(FrameId),
    SelectAll,
    ClearSelection,
    PlayPause,
    StepForward,
    StepBack,
    Edit(Edit),
    Undo,
    Redo,
    /// Export dialog button: remember the format, wait for the save path.
    StartExport(ExportFormat),
    SavePathPicked(Option<PathBuf>),
    ExportFinished(Result<ExportOutcome, AppError>),
    EstimateRequested { generation: u64, format: ExportFormat },
    EstimateReady { generation: u64, result: Result<u64, AppError> },
    /// true = loop forever (loop_count = 0).
    SetLoopInfinite(bool),
}

/// Side effects returned by `Model::apply`, carried out by the app layer.
#[derive(Debug)]
pub enum Effect {
    SpawnOpenDialog,
    SpawnSaveDialog { default_name: String },
    /// Load `path`, numbering its frames from `first_id`.
    SpawnLoad { path: PathBuf, first_id: u64 },
    SpawnExport { frames: Vec<Arc<Frame>>, loop_count: u16, format: ExportFormat, path: PathBuf },
    SpawnEstimate {
        generation: u64,
        frames: Vec<Arc<Frame>>,
        loop_count: u16,
        format: ExportFormat,
    },
}

} // verus!
