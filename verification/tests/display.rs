use ar_edit_core::display::{
    extract_scene_preview, extract_text_preview, format_time, interleave_transcript_with_markers,
    resolve_edit, resolve_markers, truncate_preview, ResolvedMarker, SourceData, TranscriptItem,
};
use ar_edit_core::models::{
    EditDocument, Marker, Resolution, Scene, ShotRange, SourceIndex, SourceMetadata, Transcript,
    TranscriptSegment, Word,
};

fn word(index: u32, text: &str, start_ms: u64, end_ms: u64, confidence: f32) -> Word {
    Word {
        index,
        text: text.to_string(),
        start_ms,
        end_ms,
        confidence_bits: confidence.to_bits(),
    }
}

fn make_transcript() -> Transcript {
    Transcript {
        source_id: "src-001".into(),
        model: "base".into(),
        language: "en".into(),
        duration_ms: 124500,
        segments: vec![
            TranscriptSegment {
                index: 0,
                start_ms: 0,
                end_ms: 5230,
                text: "Welcome to the interview".into(),
                words: vec![
                    word(0, "Welcome", 0, 420, 0.95),
                    word(1, "to", 420, 540, 0.97),
                    word(2, "the", 540, 650, 0.98),
                    word(3, "interview", 650, 1200, 0.96),
                ],
            },
            TranscriptSegment {
                index: 1,
                start_ms: 5230,
                end_ms: 12400,
                text: "Today we discuss climate".into(),
                words: vec![
                    word(4, "Today", 5230, 5600, 0.94),
                    word(5, "we", 5600, 5750, 0.99),
                    word(6, "discuss", 5750, 6200, 0.93),
                    word(7, "climate", 6200, 6800, 0.91),
                ],
            },
        ],
        word_count: 8,
    }
}

fn make_source_index() -> SourceIndex {
    SourceIndex {
        source_id: "src-002".into(),
        indexed_at: "2026-02-19T12:05:00Z".into(),
        metadata: SourceMetadata {
            duration_ms: 90000,
            resolution: Resolution { width: 1920, height: 1080 },
            codec: "h264".into(),
            file_size_bytes: 52428800,
        },
        thumbnails: vec![],
        scene_count: 3,
        scenes: vec![
            Scene {
                index: 0,
                start_ms: 0,
                end_ms: 18000,
                thumbnail: "thumbnails/src-002_00m00s.jpg".into(),
                description: Some("Interior office, wide shot".into()),
            },
            Scene {
                index: 1,
                start_ms: 18000,
                end_ms: 45000,
                thumbnail: "thumbnails/src-002_00m18s.jpg".into(),
                description: None,
            },
            Scene {
                index: 2,
                start_ms: 45000,
                end_ms: 90000,
                thumbnail: "thumbnails/src-002_00m45s.jpg".into(),
                description: Some("Close-up interview".into()),
            },
        ],
    }
}

/// The project's sources as read: src-001 transcribed, src-002 indexed.
fn project_data() -> Vec<SourceData> {
    vec![
        SourceData { source_id: "src-001".into(), transcript: Some(make_transcript()), index: None },
        SourceData { source_id: "src-002".into(), transcript: None, index: Some(make_source_index()) },
    ]
}

#[test]
fn text_preview_from_words() {
    let t = make_transcript();
    let preview = extract_text_preview(&t, 0, 3);
    assert_eq!(preview, "Welcome to the interview");
}

#[test]
fn text_preview_cross_segment() {
    let t = make_transcript();
    let preview = extract_text_preview(&t, 2, 6);
    assert_eq!(preview, "the interview Today we discuss");
}

#[test]
fn text_preview_single_word() {
    let t = make_transcript();
    let preview = extract_text_preview(&t, 4, 4);
    assert_eq!(preview, "Today");
}

#[test]
fn scene_preview_with_descriptions() {
    let idx = make_source_index();
    let preview = extract_scene_preview(&idx, 0, 2);
    assert_eq!(preview, "Interior office, wide shot; Close-up interview");
}

#[test]
fn scene_preview_no_descriptions() {
    let idx = make_source_index();
    let preview = extract_scene_preview(&idx, 1, 1);
    assert_eq!(preview, "scenes 1..1");
}

#[test]
fn scene_preview_single_scene() {
    let idx = make_source_index();
    let preview = extract_scene_preview(&idx, 0, 0);
    assert_eq!(preview, "Interior office, wide shot");
}

#[test]
fn truncate_short_string() {
    assert_eq!(truncate_preview("hello", 80), "hello");
}

#[test]
fn truncate_long_string() {
    let long = "a".repeat(100);
    let result = truncate_preview(&long, 80);
    assert_eq!(result.len(), 83);
    assert!(result.ends_with("..."));
}

#[test]
fn truncate_keeps_whole_characters() {
    // "é" takes two bytes: 3 of them do not fit in 5 bytes.
    let result = truncate_preview("ééé", 5);
    assert_eq!(result, "éé...");
}

#[test]
fn format_time_zero() {
    assert_eq!(format_time(0), "00:00.000");
}

#[test]
fn format_time_typical() {
    assert_eq!(format_time(6800), "00:06.800");
}

#[test]
fn format_time_minutes() {
    assert_eq!(format_time(90000), "01:30.000");
}

#[test]
fn resolve_edit_words_shot() {
    let mut doc = EditDocument::create("test");
    doc.add_shot("src-001", ShotRange::Words { from: 0, to: 3 }).unwrap();

    let resolved = resolve_edit(&doc, &project_data()).unwrap();
    assert_eq!(resolved.len(), 1);
    assert_eq!(resolved[0].id, "shot-001");
    assert_eq!(resolved[0].start_ms, 0);
    assert_eq!(resolved[0].end_ms, 1200);
    assert_eq!(resolved[0].duration_ms, 1200);
    assert_eq!(resolved[0].text_preview.as_deref(), Some("Welcome to the interview"));
    assert!(resolved[0].scene_preview.is_none());
}

#[test]
fn resolve_edit_scenes_shot() {
    let mut doc = EditDocument::create("test");
    doc.add_shot("src-002", ShotRange::Scenes { from: 0, to: 2 }).unwrap();

    let resolved = resolve_edit(&doc, &project_data()).unwrap();
    assert_eq!(resolved.len(), 1);
    assert_eq!(resolved[0].start_ms, 0);
    assert_eq!(resolved[0].end_ms, 90000);
    assert_eq!(resolved[0].duration_ms, 90000);
    assert_eq!(
        resolved[0].scene_preview.as_deref(),
        Some("Interior office, wide shot; Close-up interview")
    );
    assert!(resolved[0].text_preview.is_none());
}

#[test]
fn resolve_edit_time_shot() {
    let mut doc = EditDocument::create("test");
    doc.add_shot("src-001", ShotRange::Time { from_ms: 5000, to_ms: 10000 }).unwrap();

    let resolved = resolve_edit(&doc, &project_data()).unwrap();
    assert_eq!(resolved.len(), 1);
    assert_eq!(resolved[0].start_ms, 5000);
    assert_eq!(resolved[0].end_ms, 10000);
    assert_eq!(resolved[0].duration_ms, 5000);
    assert!(resolved[0].text_preview.is_none());
    assert!(resolved[0].scene_preview.is_none());
}

#[test]
fn resolve_edit_multiple_shots() {
    let mut doc = EditDocument::create("test");
    doc.add_shot("src-001", ShotRange::Words { from: 0, to: 7 }).unwrap();
    doc.add_shot("src-002", ShotRange::Scenes { from: 0, to: 1 }).unwrap();
    doc.add_shot("src-001", ShotRange::Time { from_ms: 1000, to_ms: 3000 }).unwrap();

    let resolved = resolve_edit(&doc, &project_data()).unwrap();
    assert_eq!(resolved.len(), 3);
    assert_eq!(resolved[0].source, "src-001");
    assert!(resolved[0].text_preview.is_some());
    assert_eq!(resolved[1].source, "src-002");
    assert!(resolved[1].scene_preview.is_some());
    assert_eq!(resolved[2].source, "src-001");
    assert!(resolved[2].text_preview.is_none());
    assert!(resolved[2].scene_preview.is_none());
}

#[test]
fn resolve_edit_empty_document() {
    let doc = EditDocument::create("test");
    let resolved = resolve_edit(&doc, &project_data()).unwrap();
    assert!(resolved.is_empty());
}

#[test]
fn resolve_edit_preserves_notes() {
    let mut doc = EditDocument::create("test");
    doc.add_shot("src-001", ShotRange::Words { from: 0, to: 3 }).unwrap();
    doc.add_note("shot-001", "Great take").unwrap();

    let resolved = resolve_edit(&doc, &project_data()).unwrap();
    assert_eq!(resolved[0].notes.len(), 1);
    assert_eq!(resolved[0].notes[0].text, "Great take");
}

#[test]
fn resolve_edit_caches_transcripts() {
    let mut doc = EditDocument::create("test");
    doc.add_shot("src-001", ShotRange::Words { from: 0, to: 3 }).unwrap();
    doc.add_shot("src-001", ShotRange::Words { from: 4, to: 7 }).unwrap();

    let resolved = resolve_edit(&doc, &project_data()).unwrap();
    assert_eq!(resolved.len(), 2);
    assert_eq!(resolved[0].text_preview.as_deref(), Some("Welcome to the interview"));
    assert_eq!(resolved[1].text_preview.as_deref(), Some("Today we discuss climate"));
}

#[test]
fn resolve_edit_fails_on_missing_transcript() {
    let mut doc = EditDocument::create("test");
    doc.add_shot("src-002", ShotRange::Words { from: 0, to: 3 }).unwrap();
    assert!(resolve_edit(&doc, &project_data()).is_err());
}

fn make_resolved_marker(id: &str, label: &str, start_ms: u64, end_ms: u64) -> ResolvedMarker {
    ResolvedMarker {
        id: id.into(),
        source_id: "src-001".into(),
        range: ShotRange::Time { from_ms: start_ms, to_ms: end_ms },
        label: label.into(),
        note: None,
        author: "tester".into(),
        created: "2026-02-19T14:00:00Z".into(),
        start_ms,
        end_ms,
        duration_ms: end_ms.saturating_sub(start_ms),
        text_preview: None,
        scene_preview: None,
    }
}

#[test]
fn interleave_no_markers() {
    let t = make_transcript();
    let result = interleave_transcript_with_markers(&t, &[]);
    assert_eq!(result.source_id, "src-001");
    assert_eq!(result.word_count, 8);
    assert_eq!(result.marker_count, 0);
    assert_eq!(result.items.len(), 2);
    assert!(matches!(&result.items[0], TranscriptItem::Segment(s) if s.index == 0));
    assert!(matches!(&result.items[1], TranscriptItem::Segment(s) if s.index == 1));
}

#[test]
fn interleave_marker_between_segments() {
    let t = make_transcript();
    let markers = vec![make_resolved_marker("mark-001", "select", 3000, 4000)];
    let result = interleave_transcript_with_markers(&t, &markers);
    assert_eq!(result.items.len(), 3);
    assert_eq!(result.marker_count, 1);
    assert!(matches!(&result.items[0], TranscriptItem::Segment(s) if s.index == 0));
    assert!(matches!(&result.items[1], TranscriptItem::Marker(m) if m.id == "mark-001"));
    assert!(matches!(&result.items[2], TranscriptItem::Segment(s) if s.index == 1));
}

#[test]
fn interleave_marker_at_segment_start() {
    let t = make_transcript();
    let markers = vec![make_resolved_marker("mark-001", "review", 0, 500)];
    let result = interleave_transcript_with_markers(&t, &markers);
    assert_eq!(result.items.len(), 3);
    assert!(matches!(&result.items[0], TranscriptItem::Segment(s) if s.index == 0));
    assert!(matches!(&result.items[1], TranscriptItem::Marker(m) if m.id == "mark-001"));
}

#[test]
fn interleave_multiple_markers() {
    let t = make_transcript();
    let markers = vec![
        make_resolved_marker("mark-001", "select", 400, 1200),
        make_resolved_marker("mark-002", "avoid", 6000, 6800),
    ];
    let result = interleave_transcript_with_markers(&t, &markers);
    assert_eq!(result.items.len(), 4);
    assert_eq!(result.marker_count, 2);
    assert!(matches!(&result.items[0], TranscriptItem::Segment(s) if s.index == 0));
    assert!(matches!(&result.items[1], TranscriptItem::Marker(m) if m.id == "mark-001"));
    assert!(matches!(&result.items[2], TranscriptItem::Segment(s) if s.index == 1));
    assert!(matches!(&result.items[3], TranscriptItem::Marker(m) if m.id == "mark-002"));
}

#[test]
fn interleave_marker_after_all_segments() {
    let t = make_transcript();
    let markers = vec![make_resolved_marker("mark-001", "note", 100000, 110000)];
    let result = interleave_transcript_with_markers(&t, &markers);
    assert_eq!(result.items.len(), 3);
    assert!(matches!(&result.items[2], TranscriptItem::Marker(m) if m.id == "mark-001"));
}

#[test]
fn interleave_preserves_transcript_metadata() {
    let t = make_transcript();
    let markers = vec![make_resolved_marker("mark-001", "select", 1000, 2000)];
    let result = interleave_transcript_with_markers(&t, &markers);
    assert_eq!(result.source_id, "src-001");
    assert_eq!(result.duration_ms, 124500);
    assert_eq!(result.word_count, 8);
}

#[test]
fn interleave_keeps_marker_order_on_equal_starts() {
    let t = make_transcript();
    let markers = vec![
        make_resolved_marker("mark-b", "second", 3000, 3500),
        make_resolved_marker("mark-a", "first", 3000, 4000),
    ];
    let result = interleave_transcript_with_markers(&t, &markers);
    assert!(matches!(&result.items[1], TranscriptItem::Marker(m) if m.id == "mark-b"));
    assert!(matches!(&result.items[2], TranscriptItem::Marker(m) if m.id == "mark-a"));
}

#[test]
fn resolve_markers_word_range_without_transcript() {
    let markers = vec![Marker {
        id: "mark-001".into(),
        range: ShotRange::Words { from: 0, to: 10 },
        label: "select".into(),
        note: None,
        author: String::new(),
        created: "2026-02-19T14:00:00Z".into(),
    }];

    let resolved = resolve_markers(&markers, "src-missing", None, None);
    assert_eq!(resolved.len(), 1);
    assert_eq!(resolved[0].id, "mark-001");
    assert_eq!(resolved[0].start_ms, 0);
    assert_eq!(resolved[0].end_ms, 0);
    assert_eq!(resolved[0].duration_ms, 0);
    assert_eq!(
        resolved[0].text_preview.as_deref(),
        Some("(transcript not available) words 0..10")
    );
    assert!(resolved[0].scene_preview.is_none());
}

#[test]
fn resolve_markers_scene_range_without_index() {
    let markers = vec![Marker {
        id: "mark-002".into(),
        range: ShotRange::Scenes { from: 0, to: 3 },
        label: "avoid".into(),
        note: Some("bad lighting".into()),
        author: String::new(),
        created: "2026-02-19T14:00:00Z".into(),
    }];

    let resolved = resolve_markers(&markers, "src-missing", None, None);
    assert_eq!(resolved.len(), 1);
    assert_eq!(resolved[0].id, "mark-002");
    assert_eq!(resolved[0].start_ms, 0);
    assert_eq!(resolved[0].end_ms, 0);
    assert_eq!(
        resolved[0].scene_preview.as_deref(),
        Some("(index not available) scenes 0..3")
    );
    assert!(resolved[0].text_preview.is_none());
}

#[test]
fn resolve_markers_time_range_always_succeeds() {
    let markers = vec![Marker {
        id: "mark-003".into(),
        range: ShotRange::Time { from_ms: 5000, to_ms: 10000 },
        label: "highlight".into(),
        note: None,
        author: String::new(),
        created: "2026-02-19T14:00:00Z".into(),
    }];

    let resolved = resolve_markers(&markers, "src-missing", None, None);
    assert_eq!(resolved.len(), 1);
    assert_eq!(resolved[0].start_ms, 5000);
    assert_eq!(resolved[0].end_ms, 10000);
    assert_eq!(resolved[0].duration_ms, 5000);
    assert!(resolved[0].text_preview.is_none());
    assert!(resolved[0].scene_preview.is_none());
}

#[test]
fn resolve_markers_word_range_with_transcript() {
    let markers = vec![Marker {
        id: "mark-004".into(),
        range: ShotRange::Words { from: 1, to: 2 },
        label: "select".into(),
        note: None,
        author: String::new(),
        created: "2026-02-19T14:00:00Z".into(),
    }];
    let t = make_transcript();
    let resolved = resolve_markers(&markers, "src-001", Some(&t), None);
    assert_eq!(resolved[0].start_ms, 420);
    assert_eq!(resolved[0].end_ms, 650);
    assert_eq!(resolved[0].duration_ms, 230);
    assert_eq!(resolved[0].text_preview.as_deref(), Some("to the"));
}
