use ar_edit_core::feedback::{
    build_edit_feedback, build_feedback, shot_at_position, FeedbackError, PlaybackFeedback,
};
use ar_edit_core::models::{
    Resolution, Scene, SourceIndex, SourceMetadata, Transcript, TranscriptSegment, Word,
};

fn word(index: u32, text: &str, start_ms: u64, end_ms: u64) -> Word {
    Word { index, text: text.into(), start_ms, end_ms, confidence_bits: 0.95f32.to_bits() }
}

fn make_transcript() -> Transcript {
    Transcript {
        source_id: "src-001".into(),
        model: "base".into(),
        language: "en".into(),
        duration_ms: 124500,
        segments: vec![
            TranscriptSegment {
                index: 0,
                start_ms: 0,
                end_ms: 5230,
                text: "Welcome to the interview".into(),
                words: vec![
                    word(0, "Welcome", 0, 420),
                    word(1, "to", 420, 540),
                    word(2, "the", 540, 650),
                    word(3, "interview", 650, 1200),
                ],
            },
            TranscriptSegment {
                index: 1,
                start_ms: 5230,
                end_ms: 12400,
                text: "Today we discuss climate".into(),
                words: vec![
                    word(4, "Today", 5230, 5600),
                    word(5, "we", 5600, 5750),
                    word(6, "discuss", 5750, 6200),
                    word(7, "climate", 6200, 6800),
                ],
            },
        ],
        word_count: 8,
    }
}

fn make_source_index() -> SourceIndex {
    SourceIndex {
        source_id: "src-001".into(),
        indexed_at: "2026-02-19T12:05:00Z".into(),
        metadata: SourceMetadata {
            duration_ms: 124500,
            resolution: Resolution { width: 1920, height: 1080 },
            codec: "h264".into(),
            file_size_bytes: 52428800,
        },
        thumbnails: vec![],
        scene_count: 3,
        scenes: vec![
            Scene {
                index: 0,
                start_ms: 0,
                end_ms: 18000,
                thumbnail: "thumbnails/src-001_00m00s.jpg".into(),
                description: Some("Interior office, wide shot".into()),
            },
            Scene {
                index: 1,
                start_ms: 18000,
                end_ms: 45000,
                thumbnail: "thumbnails/src-001_00m18s.jpg".into(),
                description: None,
            },
            Scene {
                index: 2,
                start_ms: 45000,
                end_ms: 90000,
                thumbnail: "thumbnails/src-001_00m45s.jpg".into(),
                description: Some("Close-up interview".into()),
            },
        ],
    }
}

fn word_at(pos: u64) -> Option<u32> {
    let t = make_transcript();
    build_feedback(pos, None, "src-001", Some(&t), None).word_index
}

fn scene_at(pos: u64) -> Option<u32> {
    let idx = make_source_index();
    build_feedback(pos, None, "src-001", None, Some(&idx)).scene_index
}

#[test]
fn word_exact_hit() {
    assert_eq!(word_at(500), Some(1));
}

#[test]
fn word_at_start_boundary() {
    assert_eq!(word_at(0), Some(0));
}

#[test]
fn word_at_end_boundary() {
    assert_eq!(word_at(420), Some(0));
}

#[test]
fn word_in_gap_between_words() {
    assert_eq!(word_at(3000), Some(3));
}

#[test]
fn word_before_all_words() {
    assert_eq!(word_at(0), Some(0));
}

#[test]
fn word_after_all_words() {
    assert_eq!(word_at(100000), Some(7));
}

#[test]
fn word_cross_segment() {
    assert_eq!(word_at(5600), Some(4));
}

#[test]
fn word_before_first_word_start_is_none() {
    let mut t = make_transcript();
    t.segments[0].words[0].start_ms = 100;
    assert_eq!(build_feedback(50, None, "src-001", Some(&t), None).word_index, None);
}

#[test]
fn scene_exact_hit() {
    assert_eq!(scene_at(5000), Some(0));
}

#[test]
fn scene_at_boundary() {
    assert_eq!(scene_at(18000), Some(1));
}

#[test]
fn scene_at_end() {
    assert_eq!(scene_at(90000), Some(2));
}

#[test]
fn scene_beyond_end() {
    assert_eq!(scene_at(100000), None);
}

#[test]
fn scene_at_zero() {
    assert_eq!(scene_at(0), Some(0));
}

#[test]
fn feedback_with_transcript_and_index() {
    let t = make_transcript();
    let idx = make_source_index();
    let fb = build_feedback(600, Some("shot-001"), "src-001", Some(&t), Some(&idx));
    assert_eq!(fb.last_position_ms, 600);
    assert_eq!(fb.shot_id.as_deref(), Some("shot-001"));
    assert_eq!(fb.source_id, "src-001");
    assert_eq!(fb.word_index, Some(2));
    assert_eq!(fb.scene_index, Some(0));
}

#[test]
fn feedback_without_shot_id() {
    let t = make_transcript();
    let idx = make_source_index();
    let fb = build_feedback(5300, None, "src-001", Some(&t), Some(&idx));
    assert_eq!(fb.shot_id, None);
    assert_eq!(fb.word_index, Some(4));
    assert_eq!(fb.scene_index, Some(0));
}

#[test]
fn feedback_missing_files() {
    let fb = build_feedback(5000, Some("shot-001"), "src-999", None, None);
    assert_eq!(fb.last_position_ms, 5000);
    assert_eq!(fb.word_index, None);
    assert_eq!(fb.scene_index, None);
}

#[test]
fn feedback_fields_hold_values() {
    let fb = PlaybackFeedback {
        last_position_ms: 34500,
        shot_id: Some("shot-003".into()),
        source_id: "src-002".into(),
        word_index: Some(85),
        scene_index: Some(2),
    };
    let back = fb.clone();
    assert_eq!(back, fb);
    assert_eq!(back.last_position_ms, 34500);
}

fn timings() -> Vec<(String, String, u64, u64)> {
    vec![
        ("shot-001".into(), "src-001".into(), 0u64, 5000u64),
        ("shot-002".into(), "src-001".into(), 5000, 12000),
    ]
}

#[test]
fn edit_feedback_finds_correct_shot() {
    let t = make_transcript();
    let idx = make_source_index();
    let fb = build_edit_feedback(6000, &timings(), Some(&t), Some(&idx));
    assert_eq!(fb.shot_id.as_deref(), Some("shot-002"));
    assert_eq!(fb.source_id, "src-001");
    assert_eq!(fb.last_position_ms, 6000);
    assert_eq!(shot_at_position(6000, &timings()), Some(1));
}

#[test]
fn edit_feedback_falls_back_to_last_shot() {
    let timings = vec![("shot-001".to_string(), "src-001".to_string(), 0u64, 5000u64)];
    let fb = build_edit_feedback(50000, &timings, None, None);
    assert_eq!(fb.shot_id.as_deref(), Some("shot-001"));
}

#[test]
fn edit_feedback_empty_timings() {
    let fb = build_edit_feedback(5000, &[], None, None);
    assert_eq!(fb.shot_id, None);
    assert!(fb.source_id.is_empty());
    assert_eq!(shot_at_position(5000, &[]), None);
}

#[test]
fn feedback_error_message() {
    let e = FeedbackError::Json { path: "/p/x.json".into(), source: "EOF".into() };
    assert_eq!(e.to_string(), "failed to parse JSON from /p/x.json: EOF");
}
