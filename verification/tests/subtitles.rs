use ar_edit_core::display::{ResolvedShot, SourceData};
use ar_edit_core::models::{ShotRange, Transcript, TranscriptSegment, Word};
use ar_edit_core::subtitles::{
    collect_word_groups_by_index, collect_word_groups_by_time, embed_subtitles,
    embed_subtitles_args, extract_shot_cues, format_srt, format_srt_timecode, generate_srt,
    SubtitleCue, SubtitleError,
};

fn word(index: u32, text: &str, start_ms: u64, end_ms: u64) -> Word {
    Word { index, text: text.into(), start_ms, end_ms, confidence_bits: 0.95f32.to_bits() }
}

fn make_transcript() -> Transcript {
    Transcript {
        source_id: "src-001".into(),
        model: "base".into(),
        language: "en".into(),
        duration_ms: 124500,
        segments: vec![
            TranscriptSegment {
                index: 0,
                start_ms: 0,
                end_ms: 5230,
                text: "Welcome to the interview".into(),
                words: vec![
                    word(0, "Welcome", 0, 420),
                    word(1, "to", 420, 540),
                    word(2, "the", 540, 650),
                    word(3, "interview", 650, 1200),
                ],
            },
            TranscriptSegment {
                index: 1,
                start_ms: 5230,
                end_ms: 12400,
                text: "Today we discuss climate".into(),
                words: vec![
                    word(4, "Today", 5230, 5600),
                    word(5, "we", 5600, 5750),
                    word(6, "discuss", 5750, 6200),
                    word(7, "climate", 6200, 6800),
                ],
            },
        ],
        word_count: 8,
    }
}

fn shot(id: &str, source: &str, range: ShotRange, start_ms: u64, end_ms: u64) -> ResolvedShot {
    ResolvedShot {
        id: id.into(),
        source: source.into(),
        range,
        start_ms,
        end_ms,
        duration_ms: end_ms - start_ms,
        text_preview: None,
        scene_preview: None,
        notes: vec![],
        author: String::new(),
    }
}

fn with_transcript() -> Vec<SourceData> {
    vec![SourceData { source_id: "src-001".into(), transcript: Some(make_transcript()), index: None }]
}

#[test]
fn timecode_zero() {
    assert_eq!(format_srt_timecode(0), "00:00:00,000");
}

#[test]
fn timecode_milliseconds_only() {
    assert_eq!(format_srt_timecode(500), "00:00:00,500");
}

#[test]
fn timecode_seconds() {
    assert_eq!(format_srt_timecode(5230), "00:00:05,230");
}

#[test]
fn timecode_minutes() {
    assert_eq!(format_srt_timecode(90000), "00:01:30,000");
}

#[test]
fn timecode_hours() {
    assert_eq!(format_srt_timecode(3661500), "01:01:01,500");
}

#[test]
fn format_srt_empty() {
    assert_eq!(format_srt(&[]), "");
}

#[test]
fn format_srt_single_cue() {
    let cues = vec![SubtitleCue { index: 1, start_ms: 0, end_ms: 1200, text: "Welcome to the interview".into() }];
    let srt = format_srt(&cues);
    assert_eq!(srt, "1\n00:00:00,000 --> 00:00:01,200\nWelcome to the interview\n");
}

#[test]
fn format_srt_multiple_cues() {
    let cues = vec![
        SubtitleCue { index: 1, start_ms: 0, end_ms: 1200, text: "Welcome to the interview".into() },
        SubtitleCue { index: 2, start_ms: 5230, end_ms: 6800, text: "Today we discuss climate".into() },
    ];
    let srt = format_srt(&cues);
    let expected = "\
1\n\
00:00:00,000 --> 00:00:01,200\n\
Welcome to the interview\n\
\n\
2\n\
00:00:05,230 --> 00:00:06,800\n\
Today we discuss climate\n";
    assert_eq!(srt, expected);
}

#[test]
fn word_groups_by_index_same_segment() {
    let t = make_transcript();
    let groups = collect_word_groups_by_index(&t.segments, 0, 3);
    assert_eq!(groups.len(), 1);
    assert_eq!(groups[0].words.len(), 4);
    assert_eq!(groups[0].words[0].text, "Welcome");
    assert_eq!(groups[0].words[3].text, "interview");
}

#[test]
fn word_groups_by_index_cross_segment() {
    let t = make_transcript();
    let groups = collect_word_groups_by_index(&t.segments, 2, 6);
    assert_eq!(groups.len(), 2);
    assert_eq!(groups[0].words.len(), 2);
    assert_eq!(groups[0].words[0].text, "the");
    assert_eq!(groups[1].words.len(), 3);
    assert_eq!(groups[1].words[0].text, "Today");
}

#[test]
fn word_groups_by_index_single_word() {
    let t = make_transcript();
    let groups = collect_word_groups_by_index(&t.segments, 4, 4);
    assert_eq!(groups.len(), 1);
    assert_eq!(groups[0].words.len(), 1);
    assert_eq!(groups[0].words[0].text, "Today");
}

#[test]
fn word_groups_by_time_within_segment() {
    let t = make_transcript();
    let groups = collect_word_groups_by_time(&t.segments, 0, 1200);
    assert_eq!(groups.len(), 1);
    assert_eq!(groups[0].words.len(), 4);
}

#[test]
fn word_groups_by_time_across_segments() {
    let t = make_transcript();
    let groups = collect_word_groups_by_time(&t.segments, 0, 6800);
    assert_eq!(groups.len(), 2);
}

#[test]
fn word_groups_by_time_partial_segment() {
    let t = make_transcript();
    let groups = collect_word_groups_by_time(&t.segments, 0, 540);
    assert_eq!(groups.len(), 1);
    assert_eq!(groups[0].words.len(), 2);
}

#[test]
fn shot_cues_words_range() {
    let t = make_transcript();
    let s = shot("shot-001", "src-001", ShotRange::Words { from: 0, to: 3 }, 0, 1200);
    let mut idx = 1;
    let cues = extract_shot_cues(&t, &s, 0, &mut idx);
    assert_eq!(cues.len(), 1);
    assert_eq!(cues[0].index, 1);
    assert_eq!(cues[0].start_ms, 0);
    assert_eq!(cues[0].end_ms, 1200);
    assert_eq!(cues[0].text, "Welcome to the interview");
    assert_eq!(idx, 2);
}

#[test]
fn shot_cues_with_timeline_offset() {
    let t = make_transcript();
    let s = shot("shot-002", "src-001", ShotRange::Words { from: 4, to: 7 }, 5230, 6800);
    let mut idx = 2;
    let cues = extract_shot_cues(&t, &s, 1200, &mut idx);
    assert_eq!(cues.len(), 1);
    assert_eq!(cues[0].index, 2);
    assert_eq!(cues[0].start_ms, 1200);
    assert_eq!(cues[0].end_ms, 2770);
    assert_eq!(cues[0].text, "Today we discuss climate");
}

#[test]
fn shot_cues_cross_segment() {
    let t = make_transcript();
    let s = shot("shot-001", "src-001", ShotRange::Words { from: 0, to: 7 }, 0, 6800);
    let mut idx = 1;
    let cues = extract_shot_cues(&t, &s, 0, &mut idx);
    assert_eq!(cues.len(), 2);
    assert_eq!(cues[0].text, "Welcome to the interview");
    assert_eq!(cues[0].start_ms, 0);
    assert_eq!(cues[0].end_ms, 1200);
    assert_eq!(cues[1].text, "Today we discuss climate");
    assert_eq!(cues[1].start_ms, 5230);
    assert_eq!(cues[1].end_ms, 6800);
}

#[test]
fn shot_cues_time_range() {
    let t = make_transcript();
    let s = shot("shot-001", "src-001", ShotRange::Time { from_ms: 0, to_ms: 6800 }, 0, 6800);
    let mut idx = 1;
    let cues = extract_shot_cues(&t, &s, 0, &mut idx);
    assert_eq!(cues.len(), 2);
    assert_eq!(cues[0].text, "Welcome to the interview");
    assert_eq!(cues[1].text, "Today we discuss climate");
}

#[test]
fn generate_srt_with_transcript() {
    let resolved = vec![
        shot("shot-001", "src-001", ShotRange::Words { from: 0, to: 3 }, 0, 1200),
        shot("shot-002", "src-001", ShotRange::Words { from: 4, to: 7 }, 5230, 6800),
    ];
    let srt = generate_srt(&resolved, &with_transcript());
    assert!(srt.contains("1\n00:00:00,000 --> 00:00:01,200\nWelcome to the interview"));
    assert!(srt.contains("2\n00:00:01,200 --> 00:00:02,770\nToday we discuss climate"));
}

#[test]
fn generate_srt_no_transcript() {
    let resolved = vec![shot("shot-001", "src-001", ShotRange::Time { from_ms: 0, to_ms: 5000 }, 0, 5000)];
    let srt = generate_srt(&resolved, &vec![]);
    assert!(srt.is_empty());
}

#[test]
fn generate_srt_empty_edit() {
    let srt = generate_srt(&[], &vec![]);
    assert!(srt.is_empty());
}

#[test]
fn generate_srt_mixed_sources() {
    let resolved = vec![
        shot("shot-001", "src-001", ShotRange::Words { from: 0, to: 3 }, 0, 1200),
        shot("shot-002", "src-002", ShotRange::Time { from_ms: 0, to_ms: 5000 }, 0, 5000),
        shot("shot-003", "src-001", ShotRange::Words { from: 4, to: 7 }, 5230, 6800),
    ];
    let srt = generate_srt(&resolved, &with_transcript());
    assert!(srt.contains("1\n"));
    assert!(srt.contains("2\n"));
    assert!(srt.contains("00:00:06,200 -->"));
}

#[test]
fn embed_subtitles_arguments() {
    let a = embed_subtitles_args("/out.mp4", "/out.srt", "/out.tmp.mp4");
    assert_eq!(
        a,
        vec!["-y", "-i", "/out.mp4", "-i", "/out.srt", "-c", "copy", "-c:s", "mov_text", "/out.tmp.mp4"]
    );
}

#[test]
fn embed_subtitles_outcome() {
    assert!(embed_subtitles(true, "").is_ok());
    let err = embed_subtitles(false, "warning\nbad subtitle stream\n").unwrap_err();
    assert_eq!(err, SubtitleError::FfmpegFailed("subtitle embedding failed: bad subtitle stream".into()));
    assert_eq!(
        err.to_string(),
        "ffmpeg subtitle embedding failed: subtitle embedding failed: bad subtitle stream"
    );
    let quiet = embed_subtitles(false, "").unwrap_err();
    assert_eq!(quiet, SubtitleError::FfmpegFailed("subtitle embedding failed: unknown error".into()));
}
