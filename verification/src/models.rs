//! The project's data model: transcripts, edit documents, scene indexes,
//! markers and points of interest, with the mathematical view of each.
//!
//! Times are milliseconds. Timestamps are RFC 3339 text; floating-point
//! quantities are kept as their IEEE-754 bit patterns.
use vstd::prelude::*;

verus! {

/// A frame size in pixels.
#[derive(Debug, Clone, Copy, PartialEq, Eq, Structural)]
pub struct Resolution {
    pub width: u32,
    pub height: u32,
}

// ---------------------------------------------------------------------------
// Project manifest
// ---------------------------------------------------------------------------

#[derive(Debug, Clone, PartialEq)]
pub struct Manifest {
    pub version: String,
    pub name: String,
    /// RFC 3339 creation time.
    pub created: String,
    pub sources: Vec<Source>,
    pub next_source_id: u32,
    pub defaults: Defaults,
}

#[derive(Debug, Clone, PartialEq)]
pub struct Source {
    pub id: String,
    /// Path relative to the project directory.
    pub path: String,
    pub original_filename: String,
    pub duration_ms: u64,
    pub video_codec: String,
    pub audio_codec: String,
    pub resolution: Resolution,
    /// Bit pattern of the `f64` frame rate.
    pub frame_rate_bits: u64,
    pub audio_channels: u8,
    pub audio_sample_rate: u32,
    /// RFC 3339 time the source was added.
    pub added: String,
    pub transcribed: bool,
    pub indexed: bool,
}

#[derive(Debug, Clone, PartialEq)]
pub struct Defaults {
    pub whisper_model: String,
    pub thumbnail_interval_sec: u32,
    pub render_codec: String,
    pub render_container: String,
}

/// What the validation and lookup logic reads of a source.
pub struct SourceView {
    pub id: Seq<char>,
    pub duration_ms: u64,
    pub video_codec: Seq<char>,
    pub resolution: Resolution,
    pub transcribed: bool,
    pub indexed: bool,
    pub path: Seq<char>,
    pub original_filename: Seq<char>,
}

impl View for Source {
    type V = SourceView;

    open spec fn view(&self) -> SourceView {
        SourceView {
            id: self.id@,
            duration_ms: self.duration_ms,
            video_codec: self.video_codec@,
            resolution: self.resolution,
            transcribed: self.transcribed,
            indexed: self.indexed,
            path: self.path@,
            original_filename: self.original_filename@,
        }
    }
}

impl View for Manifest {
    type V = Seq<SourceView>;

    /// A manifest is viewed as its list of sources.
    open spec fn view(&self) -> Seq<SourceView> {
        self.sources@.map_values(|s: Source| s@)
    }
}

// ---------------------------------------------------------------------------
// Transcript
// ---------------------------------------------------------------------------

#[derive(Debug, Clone, PartialEq)]
pub struct Transcript {
    pub source_id: String,
    pub model: String,
    pub language: String,
    pub duration_ms: u64,
    pub segments: Vec<TranscriptSegment>,
    pub word_count: u32,
}

#[derive(Debug, Clone, PartialEq)]
pub struct TranscriptSegment {
    pub index: u32,
    pub start_ms: u64,
    pub end_ms: u64,
    pub text: String,
    pub words: Vec<Word>,
}

#[derive(Debug, Clone, PartialEq)]
pub struct Word {
    pub index: u32,
    pub text: String,
    pub start_ms: u64,
    pub end_ms: u64,
    /// Bit pattern of the `f32` recognition confidence.
    pub confidence_bits: u32,
}

pub struct WordView {
    pub index: u32,
    pub text: Seq<char>,
    pub start_ms: u64,
    pub end_ms: u64,
}

impl View for Word {
    type V = WordView;

    open spec fn view(&self) -> WordView {
        WordView { index: self.index, text: self.text@, start_ms: self.start_ms, end_ms: self.end_ms }
    }
}

pub struct SegmentView {
    pub index: u32,
    pub start_ms: u64,
    pub end_ms: u64,
    pub text: Seq<char>,
    pub words: Seq<WordView>,
}

impl View for TranscriptSegment {
    type V = SegmentView;

    open spec fn view(&self) -> SegmentView {
        SegmentView {
            index: self.index,
            start_ms: self.start_ms,
            end_ms: self.end_ms,
            text: self.text@,
            words: self.words@.map_values(|w: Word| w@),
        }
    }
}

pub struct TranscriptView {
    pub source_id: Seq<char>,
    pub duration_ms: u64,
    pub word_count: u32,
    pub segments: Seq<SegmentView>,
}

impl View for Transcript {
    type V = TranscriptView;

    open spec fn view(&self) -> TranscriptView {
        TranscriptView {
            source_id: self.source_id@,
            duration_ms: self.duration_ms,
            word_count: self.word_count,
            segments: self.segments@.map_values(|s: TranscriptSegment| s@),
        }
    }
}

/// All words of a list of segments, in order.
pub open spec fn flat_words(segs: Seq<SegmentView>) -> Seq<WordView>
    decreases segs.len(),
{
    if segs.len() == 0 {
        Seq::empty()
    } else {
        flat_words(segs.drop_last()) + segs.last().words
    }
}

// ---------------------------------------------------------------------------
// Shot ranges
// ---------------------------------------------------------------------------

/// A shot's range: exactly one of words, scenes, or time.
#[derive(Debug, Clone, Copy, PartialEq, Eq, Structural)]
pub enum ShotRange {
    Words { from: u32, to: u32 },
    Scenes { from: u32, to: u32 },
    Time { from_ms: u64, to_ms: u64 },
}

// ---------------------------------------------------------------------------
// Edit document
// ---------------------------------------------------------------------------

#[derive(Debug, Clone, PartialEq)]
pub struct EditDocument {
    pub name: String,
    /// RFC 3339 creation time.
    pub created: String,
    pub next_shot_id: u32,
    pub head: i32,
    pub ops: Vec<EditOp>,
    pub snapshot: EditSnapshot,
}

#[derive(Debug, Clone, PartialEq)]
pub struct EditSnapshot {
    pub shots: Vec<Shot>,
}

#[derive(Debug, Clone, PartialEq)]
pub struct Shot {
    pub id: String,
    pub source: String,
    pub range: ShotRange,
    pub notes: Vec<ShotNote>,
    pub author: String,
}

#[derive(Debug, Clone, PartialEq)]
pub struct ShotNote {
    pub text: String,
    pub author: String,
    /// RFC 3339 time the note was written.
    pub created: String,
}

#[derive(Debug, Clone, PartialEq)]
pub struct EditOp {
    pub id: u32,
    /// RFC 3339 time the operation was recorded.
    pub ts: String,
    pub op: EditOpKind,
}

#[derive(Debug, Clone, PartialEq)]
pub enum EditOpKind {
    AddShot { shot: Shot },
    RemoveShot { shot_id: String, shot: Shot },
    MoveShot { shot_id: String, from_position: u32, to_position: u32 },
    TrimShot { shot_id: String, old_range: ShotRange, new_range: ShotRange },
    ReplaceRangeType { shot_id: String, old_range: ShotRange, new_range: ShotRange },
    AddNote { shot_id: String, note: ShotNote },
}

pub struct NoteView {
    pub text: Seq<char>,
    pub author: Seq<char>,
    pub created: Seq<char>,
}

impl View for ShotNote {
    type V = NoteView;

    open spec fn view(&self) -> NoteView {
        NoteView { text: self.text@, author: self.author@, created: self.created@ }
    }
}

pub struct ShotView {
    pub id: Seq<char>,
    pub source: Seq<char>,
    pub range: ShotRange,
    pub notes: Seq<NoteView>,
    pub author: Seq<char>,
}

impl View for Shot {
    type V = ShotView;

    open spec fn view(&self) -> ShotView {
        ShotView {
            id: self.id@,
            source: self.source@,
            range: self.range,
            notes: self.notes@.map_values(|n: ShotNote| n@),
            author: self.author@,
        }
    }
}

pub enum OpKindView {
    AddShot { shot: ShotView },
    RemoveShot { shot_id: Seq<char>, shot: ShotView },
    MoveShot { shot_id: Seq<char>, from_position: u32, to_position: u32 },
    TrimShot { shot_id: Seq<char>, old_range: ShotRange, new_range: ShotRange },
    ReplaceRangeType { shot_id: Seq<char>, old_range: ShotRange, new_range: ShotRange },
    AddNote { shot_id: Seq<char>, note: NoteView },
}

impl View for EditOpKind {
    type V = OpKindView;

    open spec fn view(&self) -> OpKindView {
        match self {
            EditOpKind::AddShot { shot } => OpKindView::AddShot { shot: shot@ },
            EditOpKind::RemoveShot { shot_id, shot } => OpKindView::RemoveShot {
                shot_id: shot_id@,
                shot: shot@,
            },
            EditOpKind::MoveShot { shot_id, from_position, to_position } => OpKindView::MoveShot {
                shot_id: shot_id@,
                from_position: *from_position,
                to_position: *to_position,
            },
            EditOpKind::TrimShot { shot_id, old_range, new_range } => OpKindView::TrimShot {
                shot_id: shot_id@,
                old_range: *old_range,
                new_range: *new_range,
            },
            EditOpKind::ReplaceRangeType { shot_id, old_range, new_range } =>
                OpKindView::ReplaceRangeType {
                shot_id: shot_id@,
                old_range: *old_range,
                new_range: *new_range,
            },
            EditOpKind::AddNote { shot_id, note } => OpKindView::AddNote {
                shot_id: shot_id@,
                note: note@,
            },
        }
    }
}

pub struct OpView {
    pub id: u32,
    pub ts: Seq<char>,
    pub op: OpKindView,
}

impl View for EditOp {
    type V = OpView;

    open spec fn view(&self) -> OpView {
        OpView { id: self.id, ts: self.ts@, op: self.op@ }
    }
}

impl View for EditSnapshot {
    type V = Seq<ShotView>;

    open spec fn view(&self) -> Seq<ShotView> {
        self.shots@.map_values(|s: Shot| s@)
    }
}

pub struct DocView {
    pub name: Seq<char>,
    pub created: Seq<char>,
    pub next_shot_id: u32,
    pub head: i32,
    pub ops: Seq<OpView>,
    pub shots: Seq<ShotView>,
}

impl View for EditDocument {
    type V = DocView;

    open spec fn view(&self) -> DocView {
        DocView {
            name: self.name@,
            created: self.created@,
            next_shot_id: self.next_shot_id,
            head: self.head,
            ops: self.ops@.map_values(|o: EditOp| o@),
            shots: self.snapshot@,
        }
    }
}

// ---------------------------------------------------------------------------
// Source index
// ---------------------------------------------------------------------------

#[derive(Debug, Clone, PartialEq)]
pub struct SourceIndex {
    pub source_id: String,
    /// RFC 3339 indexing time.
    pub indexed_at: String,
    pub metadata: SourceMetadata,
    pub thumbnails: Vec<Thumbnail>,
    pub scene_count: u32,
    pub scenes: Vec<Scene>,
}

#[derive(Debug, Clone, PartialEq)]
pub struct SourceMetadata {
    pub duration_ms: u64,
    pub resolution: Resolution,
    pub codec: String,
    pub file_size_bytes: u64,
}

#[derive(Debug, Clone, PartialEq)]
pub struct Thumbnail {
    /// Path relative to the project directory.
    pub path: String,
    pub timestamp_ms: u64,
    pub description: Option<String>,
}

#[derive(Debug, Clone, PartialEq)]
pub struct Scene {
    pub index: u32,
    pub start_ms: u64,
    pub end_ms: u64,
    /// Thumbnail path relative to the project directory (empty when none).
    pub thumbnail: String,
    pub description: Option<String>,
}

pub struct SceneView {
    pub index: u32,
    pub start_ms: u64,
    pub end_ms: u64,
    pub thumbnail: Seq<char>,
    pub description: Option<Seq<char>>,
}

/// The view of an optional string.
pub open spec fn opt_view(o: Option<String>) -> Option<Seq<char>> {
    match o {
        Some(s) => Some(s@),
        None => None,
    }
}

impl View for Scene {
    type V = SceneView;

    open spec fn view(&self) -> SceneView {
        SceneView {
            index: self.index,
            start_ms: self.start_ms,
            end_ms: self.end_ms,
            thumbnail: self.thumbnail@,
            description: opt_view(self.description),
        }
    }
}

pub struct IndexView {
    pub source_id: Seq<char>,
    pub scene_count: u32,
    pub scenes: Seq<SceneView>,
}

impl View for SourceIndex {
    type V = IndexView;

    open spec fn view(&self) -> IndexView {
        IndexView {
            source_id: self.source_id@,
            scene_count: self.scene_count,
            scenes: self.scenes@.map_values(|s: Scene| s@),
        }
    }
}

// ---------------------------------------------------------------------------
// Markers
// ---------------------------------------------------------------------------

#[derive(Debug, Clone, PartialEq)]
pub struct SourceMarkers {
    pub source_id: String,
    pub markers: Vec<Marker>,
}

#[derive(Debug, Clone, PartialEq)]
pub struct Marker {
    pub id: String,
    pub range: ShotRange,
    pub label: String,
    pub note: Option<String>,
    pub author: String,
    /// RFC 3339 creation time.
    pub created: String,
}

// ---------------------------------------------------------------------------
// Points of interest
// ---------------------------------------------------------------------------

/// Where a point of interest sits: at a word, at a scene, or at a time.
#[derive(Debug, Clone, Copy, PartialEq, Eq, Structural)]
pub enum PoiPoint {
    Word(u32),
    Scene(u32),
    TimeMs(u64),
}

/// The vocabulary of point-of-interest categories.
#[derive(Debug, Clone, Copy, PartialEq, Eq, Structural)]
pub enum PoiCategory {
    Highlight,
    Issue,
    Transition,
    Cue,
    Note,
}

#[derive(Debug, Clone, PartialEq)]
pub struct Poi {
    pub id: String,
    pub point: PoiPoint,
    pub category: PoiCategory,
    pub note: Option<String>,
    pub author: String,
    /// RFC 3339 creation time.
    pub created: String,
}

#[derive(Debug, Clone, PartialEq)]
pub struct SourcePois {
    pub source_id: String,
    pub pois: Vec<Poi>,
}

} // verus!
