use ar_edit_core::export::export_editable;
use ar_edit_core::import::{from_transcript_str, parse_annotations};
use ar_edit_core::models::{
    Defaults, Manifest, Resolution, ShotRange, Source, Transcript, TranscriptSegment, Word,
};

fn make_manifest(sources: Vec<Source>) -> Manifest {
    Manifest {
        version: "1.0.0".into(),
        name: "test-project".into(),
        created: "2026-02-19T12:00:00Z".into(),
        sources,
        next_source_id: 4,
        defaults: Defaults {
            whisper_model: "base".into(),
            thumbnail_interval_sec: 10,
            render_codec: "h264".into(),
            render_container: "mp4".into(),
        },
    }
}

fn make_source(id: &str, transcribed: bool, original_filename: &str) -> Source {
    Source {
        id: id.into(),
        path: format!("sources/{id}.mp4").into(),
        original_filename: original_filename.into(),
        duration_ms: 124500,
        video_codec: "h264".into(),
        audio_codec: "aac".into(),
        resolution: Resolution { width: 1920, height: 1080 },
        frame_rate_bits: 29.97f64.to_bits(),
        audio_channels: 2,
        audio_sample_rate: 48000,
        added: "2026-02-19T12:00:00Z".into(),
        transcribed,
        indexed: false,
    }
}

/// Transcripts keyed by the source they were read for (here, their own id).
fn keyed(ts: Vec<Transcript>) -> Vec<(String, Transcript)> {
    ts.into_iter().map(|t| (t.source_id.clone(), t)).collect()
}

fn make_transcript_with_segments(
    source_id: &str,
    segments: Vec<(Vec<(&str, u64, u64)>, &str)>,
) -> Transcript {
    let mut all_segments = Vec::new();
    let mut global_idx: u32 = 0;
    let mut duration_ms: u64 = 0;

    for (seg_idx, (words_data, seg_text)) in segments.into_iter().enumerate() {
        let words: Vec<Word> = words_data
            .iter()
            .map(|(text, start, end)| {
                let w = Word {
                    index: global_idx,
                    text: text.to_string(),
                    start_ms: *start,
                    end_ms: *end,
                    confidence_bits: 0.95f32.to_bits(),
                };
                global_idx += 1;
                if *end > duration_ms {
                    duration_ms = *end;
                }
                w
            })
            .collect();

        let seg_end = words.last().map_or(0, |w| w.end_ms);
        let seg_start = words.first().map_or(0, |w| w.start_ms);

        all_segments.push(TranscriptSegment {
            index: seg_idx as u32,
            start_ms: seg_start,
            end_ms: seg_end,
            text: seg_text.to_string(),
            words,
        });
    }

    Transcript {
        source_id: source_id.to_string(),
        model: "base".to_string(),
        language: "en".to_string(),
        duration_ms,
        word_count: global_idx,
        segments: all_segments,
    }
}

#[test]
fn export_single_source_single_segment() {
        let manifest = make_manifest(vec![make_source("src-001", true, "interview-alice.mp4")]);
    let transcript = make_transcript_with_segments(
        "src-001",
        vec![(
            vec![
                ("Welcome", 0, 420),
                ("to", 420, 540),
                ("the", 540, 650),
                ("interview", 650, 1200),
            ],
            "Welcome to the interview",
        )],
    );
    let transcripts = keyed(vec![transcript]);

    let result = export_editable(&manifest, &transcripts);

    assert!(result.contains("# Source: src-001 — interview-alice.mp4"));
    assert!(result.contains("<!-- ar-edit:src-001:w0-w3 -->"));
    assert!(result.contains("Welcome to the interview"));
    assert!(result.contains("<!-- /ar-edit:src-001 -->"));
}

#[test]
fn export_single_source_multiple_segments() {
        let manifest = make_manifest(vec![make_source("src-001", true, "interview-alice.mp4")]);
    let transcript = make_transcript_with_segments(
        "src-001",
        vec![
            (
                vec![
                    ("Welcome", 0, 420),
                    ("to", 420, 540),
                    ("the", 540, 650),
                    ("interview", 650, 5230),
                ],
                "Welcome to the interview",
            ),
            (
                vec![
                    ("today", 5230, 5800),
                    ("we", 5800, 6200),
                    ("talk", 6200, 6800),
                ],
                "today we talk",
            ),
        ],
    );
    let transcripts = keyed(vec![transcript]);

    let result = export_editable(&manifest, &transcripts);

    // First segment: words 0-3
    assert!(result.contains("<!-- ar-edit:src-001:w0-w3 -->"));
    assert!(result.contains("Welcome to the interview"));
    // Second segment: words 4-6
    assert!(result.contains("<!-- ar-edit:src-001:w4-w6 -->"));
    assert!(result.contains("today we talk"));
}

#[test]
fn export_multiple_sources_separated_by_hr() {
        let manifest = make_manifest(vec![
        make_source("src-001", true, "interview-alice.mp4"),
        make_source("src-002", true, "interview-bob.mp4"),
    ]);
    let t1 = make_transcript_with_segments(
        "src-001",
        vec![(vec![("Hello", 0, 500), ("world", 500, 1000)], "Hello world")],
    );
    let t2 = make_transcript_with_segments(
        "src-002",
        vec![(vec![("So", 0, 300), ("the", 300, 600)], "So the")],
    );
    let transcripts = keyed(vec![t1, t2]);

    let result = export_editable(&manifest, &transcripts);

    assert!(result.contains("# Source: src-001 — interview-alice.mp4"));
    assert!(result.contains("---"));
    assert!(result.contains("# Source: src-002 — interview-bob.mp4"));

    // Verify ordering: src-001 before src-002
    let pos1 = result.find("src-001").unwrap();
    let pos2 = result.find("src-002").unwrap();
    assert!(pos1 < pos2);
}

#[test]
fn export_skips_untranscribed_sources() {
        let manifest = make_manifest(vec![
        make_source("src-001", true, "interview-alice.mp4"),
        make_source("src-002", false, "b-roll.mp4"),
    ]);
    let t1 = make_transcript_with_segments("src-001", vec![(vec![("Hello", 0, 500)], "Hello")]);
    let transcripts = keyed(vec![t1]);

    let result = export_editable(&manifest, &transcripts);

    assert!(result.contains("src-001"));
    assert!(!result.contains("src-002"));
    assert!(!result.contains("---")); // only one source, no separator
}

#[test]
fn export_empty_project() {
        let manifest = make_manifest(vec![]);
    let transcripts = keyed(vec![]);

    let result = export_editable(&manifest, &transcripts);
    assert!(result.is_empty());
}

#[test]
fn export_word_indices_are_global() {
    // Verify that word indices in annotations are global (not per-segment)
        let manifest = make_manifest(vec![make_source("src-001", true, "test.mp4")]);
    let transcript = make_transcript_with_segments(
        "src-001",
        vec![
            (
                vec![
                    ("Welcome", 0, 420),
                    ("to", 420, 540),
                    ("the", 540, 650),
                    ("interview", 650, 5230),
                    ("today", 5230, 5800),
                    ("we're", 5800, 6200),
                    ("going", 6200, 6800),
                    ("to", 6800, 7000),
                    ("talk", 7000, 7400),
                ],
                "Welcome to the interview today we're going to talk",
            ),
            (
                vec![
                    ("the", 7400, 7800),
                    ("impact", 7800, 8200),
                    ("of", 8200, 8600),
                    ("climate", 8600, 9000),
                    ("policy", 9000, 9400),
                    ("on", 9400, 9800),
                    ("regional", 9800, 10200),
                    ("communities", 10200, 11800),
                ],
                "the impact of climate policy on regional communities",
            ),
        ],
    );
    let transcripts = keyed(vec![transcript]);

    let result = export_editable(&manifest, &transcripts);

    // First segment: w0-w8
    assert!(result.contains("<!-- ar-edit:src-001:w0-w8 -->"));
    // Second segment: w9-w16 (global, not restarting at 0)
    assert!(result.contains("<!-- ar-edit:src-001:w9-w16 -->"));
}

#[test]
fn export_annotations_survive_text_roundtrip() {
    // Verify annotations parse back to the correct source/word pairs
        let manifest = make_manifest(vec![make_source("src-001", true, "test.mp4")]);
    let transcript = make_transcript_with_segments(
        "src-001",
        vec![(vec![("Hello", 0, 500), ("world", 500, 1000)], "Hello world")],
    );
    let transcripts = keyed(vec![transcript]);

    let result = export_editable(&manifest, &transcripts);

    // Parse annotations back
    let re = regex::Regex::new(r"<!-- ar-edit:([^:]+):w(\d+)-w(\d+) -->").unwrap();
    let caps: Vec<_> = re.captures_iter(&result).collect();
    assert_eq!(caps.len(), 1);
    assert_eq!(&caps[0][1], "src-001");
    assert_eq!(&caps[0][2], "0");
    assert_eq!(&caps[0][3], "1");
}

#[test]
fn export_skips_sources_with_missing_transcript_file() {
        let manifest = make_manifest(vec![
        make_source("src-001", true, "test.mp4"), // transcribed but no file
        make_source("src-002", true, "test2.mp4"),
    ]);
    let t2 = make_transcript_with_segments("src-002", vec![(vec![("Hello", 0, 500)], "Hello")]);
    let transcripts = keyed(vec![t2]);

    let result = export_editable(&manifest, &transcripts);
    assert!(!result.contains("src-001"));
    assert!(result.contains("src-002"));
}

#[test]
fn exported_text_imports_back_as_one_shot_per_segment() {
    let manifest = make_manifest(vec![
        make_source("src-001", true, "a.mp4"),
        make_source("src-002", true, "b.mp4"),
    ]);
    let t1 = make_transcript_with_segments(
        "src-001",
        vec![
            (vec![("Hello", 0, 500), ("world", 500, 1000)], "Hello world"),
            (vec![("once", 1000, 1500), ("again", 1500, 2000)], "once again"),
        ],
    );
    let t2 = make_transcript_with_segments("src-002", vec![(vec![("So", 0, 300), ("the", 300, 600)], "So the")]);
    let transcripts = keyed(vec![t1, t2]);
    let text = export_editable(&manifest, &transcripts);
    let doc = from_transcript_str(&text, "roundtrip").unwrap();
    let shots = &doc.snapshot.shots;
    assert_eq!(shots.len(), 3);
    assert_eq!(shots[0].source, "src-001");
    assert_eq!(shots[0].range, ShotRange::Words { from: 0, to: 1 });
    assert_eq!(shots[1].source, "src-001");
    assert_eq!(shots[1].range, ShotRange::Words { from: 2, to: 3 });
    assert_eq!(shots[2].source, "src-002");
    assert_eq!(shots[2].range, ShotRange::Words { from: 0, to: 1 });
}

#[test]
fn export_exact_text_of_one_segment() {
    let manifest = make_manifest(vec![make_source("src-001", true, "a.mp4")]);
    let t = make_transcript_with_segments("src-001", vec![(vec![("Hi", 0, 500)], "Hi")]);
    let transcripts = keyed(vec![t]);
    let text = export_editable(&manifest, &transcripts);
    assert_eq!(
        text,
        "# Source: src-001 — a.mp4\n\n<!-- ar-edit:src-001:w0-w0 -->\nHi\n<!-- /ar-edit:src-001 -->\n\n"
    );
}

#[test]
fn single_word_segment_exports_but_does_not_import() {
    // A one-word segment is exported as `wN-wN`, a zero-width word range,
    // which an edit refuses.
    let manifest = make_manifest(vec![make_source("src-001", true, "a.mp4")]);
    let t = make_transcript_with_segments("src-001", vec![(vec![("Hi", 0, 500)], "Hi")]);
    let transcripts = keyed(vec![t]);
    let text = export_editable(&manifest, &transcripts);
    assert!(from_transcript_str(&text, "one").is_err());
}

#[test]
fn exported_text_reads_back_as_blocks() {
    let manifest = make_manifest(vec![
        make_source("src-001", true, "a.mp4"),
        make_source("src-002", false, "b.mp4"),
        make_source("src-003", true, "c.mp4"),
    ]);
    let t1 = make_transcript_with_segments(
        "src-001",
        vec![
            (vec![("one", 0, 100), ("two", 100, 200), ("three", 200, 300)], "one two three"),
            (vec![], "no timings here"),
            (vec![("four", 300, 400)], "four"),
        ],
    );
    let t3 = make_transcript_with_segments("src-003", vec![(vec![("x", 0, 1), ("y", 1, 2)], "x y")]);
    let transcripts = keyed(vec![t3, t1]);
    let text = export_editable(&manifest, &transcripts);
    let (blocks, errors) = parse_annotations(&text);
    assert!(errors.is_empty(), "errors: {errors:?}");
    let ranges: Vec<(String, u32, u32)> =
        blocks.iter().map(|b| (b.source_id.clone(), b.from_word, b.to_word)).collect();
    assert_eq!(
        ranges,
        vec![("src-001".to_string(), 0, 2), ("src-001".to_string(), 3, 3), ("src-003".to_string(), 0, 1)]
    );
}

#[test]
fn export_uses_the_source_a_transcript_was_read_for() {
    // The transcript file of src-001 names another source inside it; the
    // section is still exported under the manifest's id.
    let manifest = make_manifest(vec![make_source("src-001", true, "a.mp4")]);
    let t = make_transcript_with_segments("other", vec![(vec![("Hi", 0, 500), ("there", 500, 900)], "Hi there")]);
    let transcripts = vec![("src-001".to_string(), t)];
    let text = export_editable(&manifest, &transcripts);
    assert!(text.contains("# Source: src-001 — a.mp4"));
    assert!(text.contains("<!-- ar-edit:src-001:w0-w1 -->"));
}

#[test]
fn multi_line_texts_read_back() {
    let manifest = make_manifest(vec![make_source("src-001", true, "part one\npart two.mp4")]);
    let t = make_transcript_with_segments(
        "src-001",
        vec![
            (vec![("a", 0, 100), ("b", 100, 200)], "first line\nsecond line"),
            (vec![("c", 200, 300), ("d", 300, 400)], "third"),
        ],
    );
    let text = export_editable(&manifest, &keyed(vec![t]));
    let (blocks, errors) = parse_annotations(&text);
    assert!(errors.is_empty(), "errors: {errors:?}");
    let ranges: Vec<(String, u32, u32)> =
        blocks.iter().map(|b| (b.source_id.clone(), b.from_word, b.to_word)).collect();
    assert_eq!(ranges, vec![("src-001".to_string(), 0, 1), ("src-001".to_string(), 2, 3)]);
    let doc = from_transcript_str(&text, "multi").unwrap();
    assert_eq!(doc.snapshot.shots.len(), 2);
}
