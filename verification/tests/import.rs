use ar_edit_core::import::{
    can_cut, from_transcript_str, from_transcript_str_fuzzy, fuzzy_import_in_bounds,
    parse_annotations, parse_content_blocks, ContentBlock, ImportError,
};
use ar_edit_core::models::{ShotRange, Transcript, TranscriptSegment, Word};

// -- parse_annotations (unit) -------------------------------------------

#[test]
fn parse_single_block() {
    let input = "\
<!-- ar-edit:src-001:w0-w3 -->
Welcome to the interview
<!-- /ar-edit:src-001 -->
";
    let (blocks, errors) = parse_annotations(input);
    assert!(errors.is_empty(), "errors: {errors:?}");
    assert_eq!(blocks.len(), 1);
    assert_eq!(blocks[0].source_id, "src-001");
    assert_eq!(blocks[0].from_word, 0);
    assert_eq!(blocks[0].to_word, 3);
}

#[test]
fn parse_multiple_blocks() {
    let input = "\
# Source: src-001 — interview-alice.mp4

<!-- ar-edit:src-001:w0-w3 -->
Welcome to the interview
<!-- /ar-edit:src-001 -->

<!-- ar-edit:src-001:w4-w6 -->
today we talk
<!-- /ar-edit:src-001 -->
";
    let (blocks, errors) = parse_annotations(input);
    assert!(errors.is_empty(), "errors: {errors:?}");
    assert_eq!(blocks.len(), 2);
    assert_eq!(blocks[0].from_word, 0);
    assert_eq!(blocks[0].to_word, 3);
    assert_eq!(blocks[1].from_word, 4);
    assert_eq!(blocks[1].to_word, 6);
}

#[test]
fn parse_multiple_sources() {
    let input = "\
# Source: src-001 — test.mp4

<!-- ar-edit:src-001:w0-w1 -->
Hello world
<!-- /ar-edit:src-001 -->

---

# Source: src-002 — test2.mp4

<!-- ar-edit:src-002:w0-w1 -->
So the
<!-- /ar-edit:src-002 -->
";
    let (blocks, errors) = parse_annotations(input);
    assert!(errors.is_empty(), "errors: {errors:?}");
    assert_eq!(blocks.len(), 2);
    assert_eq!(blocks[0].source_id, "src-001");
    assert_eq!(blocks[1].source_id, "src-002");
}

#[test]
fn parse_deleted_block_produces_fewer_results() {
    // User deleted the second block
    let input = "\
<!-- ar-edit:src-001:w0-w3 -->
Welcome to the interview
<!-- /ar-edit:src-001 -->

";
    let (blocks, errors) = parse_annotations(input);
    assert!(errors.is_empty());
    assert_eq!(blocks.len(), 1);
}

#[test]
fn parse_reordered_blocks() {
    // User swapped the order of two blocks
    let input = "\
<!-- ar-edit:src-001:w4-w6 -->
today we talk
<!-- /ar-edit:src-001 -->

<!-- ar-edit:src-001:w0-w3 -->
Welcome to the interview
<!-- /ar-edit:src-001 -->
";
    let (blocks, errors) = parse_annotations(input);
    assert!(errors.is_empty());
    assert_eq!(blocks.len(), 2);
    // First block in file should be first in output
    assert_eq!(blocks[0].from_word, 4);
    assert_eq!(blocks[1].from_word, 0);
}

#[test]
fn parse_unclosed_block_error() {
    let input = "\
<!-- ar-edit:src-001:w0-w3 -->
Welcome to the interview
";
    let (blocks, errors) = parse_annotations(input);
    assert!(blocks.is_empty());
    assert_eq!(errors.len(), 1);
    assert!(errors[0].message.contains("unclosed"));
    assert_eq!(errors[0].line, 1);
}

#[test]
fn parse_close_without_open_error() {
    let input = "\
Some text
<!-- /ar-edit:src-001 -->
";
    let (_, errors) = parse_annotations(input);
    assert_eq!(errors.len(), 1);
    assert!(errors[0].message.contains("without matching opening"));
    assert_eq!(errors[0].line, 2);
}

#[test]
fn parse_mismatched_source_error() {
    let input = "\
<!-- ar-edit:src-001:w0-w3 -->
Welcome to the interview
<!-- /ar-edit:src-002 -->
";
    let (_, errors) = parse_annotations(input);
    assert_eq!(errors.len(), 1);
    assert!(errors[0].message.contains("does not match"));
}

#[test]
fn parse_from_word_greater_than_to_word_error() {
    let input = "\
<!-- ar-edit:src-001:w5-w3 -->
Some text
<!-- /ar-edit:src-001 -->
";
    let (blocks, errors) = parse_annotations(input);
    assert!(blocks.is_empty());
    // Two errors: invalid range + orphaned close
    assert_eq!(errors.len(), 2);
    assert!(errors[0].message.contains("greater than"));
    assert!(errors[1].message.contains("without matching opening"));
}

#[test]
fn parse_empty_input() {
    let (blocks, errors) = parse_annotations("");
    assert!(blocks.is_empty());
    assert!(errors.is_empty());
}

#[test]
fn parse_no_annotations() {
    let input = "# Just a regular markdown document\n\nWith some text.\n";
    let (blocks, errors) = parse_annotations(input);
    assert!(blocks.is_empty());
    assert!(errors.is_empty());
}

// -- from_transcript_str (integration) ----------------------------------

#[test]
fn from_transcript_single_source() {
    let input = "\
# Source: src-001 — interview-alice.mp4

<!-- ar-edit:src-001:w0-w3 -->
Welcome to the interview
<!-- /ar-edit:src-001 -->

<!-- ar-edit:src-001:w4-w6 -->
today we talk
<!-- /ar-edit:src-001 -->
";
    let doc = from_transcript_str(input, "test-edit").unwrap();
    assert_eq!(doc.name, "test-edit");
    assert_eq!(doc.snapshot.shots.len(), 2);
    assert_eq!(doc.snapshot.shots[0].source, "src-001");
    assert_eq!(
        doc.snapshot.shots[0].range,
        ShotRange::Words { from: 0, to: 3 }
    );
    assert_eq!(
        doc.snapshot.shots[1].range,
        ShotRange::Words { from: 4, to: 6 }
    );
}

#[test]
fn from_transcript_multiple_sources() {
    let input = "\
# Source: src-001 — interview-alice.mp4

<!-- ar-edit:src-001:w0-w1 -->
Hello world
<!-- /ar-edit:src-001 -->

---

# Source: src-002 — interview-bob.mp4

<!-- ar-edit:src-002:w0-w1 -->
So the
<!-- /ar-edit:src-002 -->
";
    let doc = from_transcript_str(input, "multi").unwrap();
    assert_eq!(doc.snapshot.shots.len(), 2);
    assert_eq!(doc.snapshot.shots[0].source, "src-001");
    assert_eq!(doc.snapshot.shots[1].source, "src-002");
}

#[test]
fn from_transcript_deleted_blocks() {
    // Original had 3 blocks, user deleted the middle one
    let input = "\
<!-- ar-edit:src-001:w0-w3 -->
Welcome to the interview
<!-- /ar-edit:src-001 -->

<!-- ar-edit:src-001:w9-w16 -->
the impact of climate policy on regional communities
<!-- /ar-edit:src-001 -->
";
    let doc = from_transcript_str(input, "trimmed").unwrap();
    assert_eq!(doc.snapshot.shots.len(), 2);
    assert_eq!(
        doc.snapshot.shots[0].range,
        ShotRange::Words { from: 0, to: 3 }
    );
    assert_eq!(
        doc.snapshot.shots[1].range,
        ShotRange::Words { from: 9, to: 16 }
    );
}

#[test]
fn from_transcript_reordered_blocks() {
    let input = "\
<!-- ar-edit:src-001:w4-w6 -->
today we talk
<!-- /ar-edit:src-001 -->

<!-- ar-edit:src-001:w0-w3 -->
Welcome to the interview
<!-- /ar-edit:src-001 -->
";
    let doc = from_transcript_str(input, "reordered").unwrap();
    assert_eq!(doc.snapshot.shots.len(), 2);
    // Shots in file order: w4-w6 comes first
    assert_eq!(
        doc.snapshot.shots[0].range,
        ShotRange::Words { from: 4, to: 6 }
    );
    assert_eq!(
        doc.snapshot.shots[1].range,
        ShotRange::Words { from: 0, to: 3 }
    );
}

#[test]
fn from_transcript_parse_error() {
    let input = "\
<!-- ar-edit:src-001:w0-w3 -->
Welcome
";
    let err = from_transcript_str(input, "broken").unwrap_err();
    assert!(matches!(err, ImportError::ParseErrors(_)));
    if let ImportError::ParseErrors(errors) = err {
        assert_eq!(errors.len(), 1);
        assert_eq!(errors[0].line, 1);
    }
}

#[test]
fn from_transcript_empty_produces_empty_edit() {
    let doc = from_transcript_str("", "empty").unwrap();
    assert_eq!(doc.snapshot.shots.len(), 0);
    assert_eq!(doc.name, "empty");
}

#[test]
fn from_transcript_shot_ids_are_sequential() {
    let input = "\
<!-- ar-edit:src-001:w0-w3 -->
first
<!-- /ar-edit:src-001 -->

<!-- ar-edit:src-002:w0-w5 -->
second
<!-- /ar-edit:src-002 -->

<!-- ar-edit:src-001:w10-w15 -->
third
<!-- /ar-edit:src-001 -->
";
    let doc = from_transcript_str(input, "ids").unwrap();
    assert_eq!(doc.snapshot.shots[0].id, "shot-001");
    assert_eq!(doc.snapshot.shots[1].id, "shot-002");
    assert_eq!(doc.snapshot.shots[2].id, "shot-003");
}

#[test]
fn from_transcript_ops_match_shots() {
    let input = "\
<!-- ar-edit:src-001:w0-w3 -->
text
<!-- /ar-edit:src-001 -->
";
    let doc = from_transcript_str(input, "ops").unwrap();
    assert_eq!(doc.ops.len(), 1);
    assert_eq!(doc.head, 0);
}

// -- parse_content_blocks (unit) ------------------------------------------

#[test]
fn content_blocks_annotated_only() {
    let input = "\
# Source: src-001 — test.mp4

<!-- ar-edit:src-001:w0-w3 -->
Welcome to the interview
<!-- /ar-edit:src-001 -->
";
    let (blocks, errors) = parse_content_blocks(input);
    assert!(errors.is_empty(), "errors: {errors:?}");
    assert_eq!(blocks.len(), 1);
    assert!(
        matches!(&blocks[0], ContentBlock::Annotated(a) if a.from_word == 0 && a.to_word == 3)
    );
}

#[test]
fn content_blocks_orphaned_text() {
    let input = "\
# Source: src-001 — test.mp4

Welcome to the interview
";
    let (blocks, errors) = parse_content_blocks(input);
    assert!(errors.is_empty(), "errors: {errors:?}");
    assert_eq!(blocks.len(), 1);
    assert!(
        matches!(&blocks[0], ContentBlock::Orphaned(o) if o.text == "Welcome to the interview" && o.source_id == "src-001")
    );
}

#[test]
fn content_blocks_mixed_annotated_and_orphaned() {
    let input = "\
# Source: src-001 — test.mp4

<!-- ar-edit:src-001:w0-w3 -->
Welcome to the interview
<!-- /ar-edit:src-001 -->

today we talk
";
    let (blocks, errors) = parse_content_blocks(input);
    assert!(errors.is_empty(), "errors: {errors:?}");
    assert_eq!(blocks.len(), 2);
    assert!(matches!(&blocks[0], ContentBlock::Annotated(a) if a.from_word == 0));
    assert!(matches!(&blocks[1], ContentBlock::Orphaned(o) if o.text == "today we talk"));
}

#[test]
fn content_blocks_orphan_tracks_first_line() {
    // Line 1: source header
    // Line 2: empty
    // Line 3: orphaned text
    let input = "\
# Source: src-001 — test.mp4

Welcome to the interview
";
    let (blocks, _) = parse_content_blocks(input);
    assert_eq!(blocks.len(), 1);
    if let ContentBlock::Orphaned(o) = &blocks[0] {
        assert_eq!(o.first_line, 3);
    } else {
        panic!("expected orphaned block");
    }
}

#[test]
fn content_blocks_multi_line_orphan() {
    let input = "\
# Source: src-001 — test.mp4

Welcome to the interview
today we're going to talk about
";
    let (blocks, errors) = parse_content_blocks(input);
    assert!(errors.is_empty());
    assert_eq!(blocks.len(), 1);
    if let ContentBlock::Orphaned(o) = &blocks[0] {
        assert_eq!(
            o.text,
            "Welcome to the interview today we're going to talk about"
        );
    } else {
        panic!("expected orphaned block");
    }
}

#[test]
fn content_blocks_separate_orphan_paragraphs() {
    let input = "\
# Source: src-001 — test.mp4

Welcome to the interview

today we talk
";
    let (blocks, errors) = parse_content_blocks(input);
    assert!(errors.is_empty());
    assert_eq!(blocks.len(), 2);
    assert!(
        matches!(&blocks[0], ContentBlock::Orphaned(o) if o.text == "Welcome to the interview")
    );
    assert!(matches!(&blocks[1], ContentBlock::Orphaned(o) if o.text == "today we talk"));
}

#[test]
fn content_blocks_multiple_sources() {
    let input = "\
# Source: src-001 — test.mp4

some text here

---

# Source: src-002 — test2.mp4

other text here
";
    let (blocks, errors) = parse_content_blocks(input);
    assert!(errors.is_empty());
    assert_eq!(blocks.len(), 2);
    assert!(matches!(&blocks[0], ContentBlock::Orphaned(o) if o.source_id == "src-001"));
    assert!(matches!(&blocks[1], ContentBlock::Orphaned(o) if o.source_id == "src-002"));
}

#[test]
fn content_blocks_orphan_without_source_errors() {
    let input = "some orphaned text without any source header\n";
    let (_, errors) = parse_content_blocks(input);
    assert_eq!(errors.len(), 1);
    assert!(errors[0].message.contains("cannot be matched"));
}

// -- from_transcript_str_fuzzy (integration) ------------------------------

fn make_transcript(source_id: &str, words: &[&str]) -> Transcript {
    let words_vec: Vec<Word> = words
        .iter()
        .enumerate()
        .map(|(i, text)| Word {
            index: i as u32,
            text: text.to_string(),
            start_ms: (i as u64) * 500,
            end_ms: (i as u64) * 500 + 400,
            confidence_bits: 0.95f32.to_bits(),
        })
        .collect();
    let text = words.join(" ");
    Transcript {
        source_id: source_id.into(),
        model: "base".into(),
        language: "en".into(),
        duration_ms: words_vec.last().map_or(0, |w| w.end_ms),
        word_count: words_vec.len() as u32,
        segments: vec![TranscriptSegment {
            index: 0,
            start_ms: 0,
            end_ms: words_vec.last().map_or(0, |w| w.end_ms),
            text,
            words: words_vec,
        }],
    }
}

fn make_transcripts(ts: Vec<Transcript>) -> Vec<(String, Transcript)> {
    ts.into_iter().map(|t| (t.source_id.clone(), t)).collect()
}

#[test]
fn fuzzy_split_block_resolves_both_halves() {
    // User split one segment block into two: annotated + orphaned.
    let input = "\
# Source: src-001 — test.mp4

<!-- ar-edit:src-001:w0-w3 -->
Welcome to the interview
<!-- /ar-edit:src-001 -->

today we talk about
";
    let t = make_transcript(
        "src-001",
        &[
            "Welcome",
            "to",
            "the",
            "interview",
            "today",
            "we",
            "talk",
            "about",
        ],
    );
    let transcripts = make_transcripts(vec![t]);

    let doc = from_transcript_str_fuzzy(input, "split-test", &transcripts).unwrap();
    assert_eq!(doc.snapshot.shots.len(), 2);
    assert_eq!(
        doc.snapshot.shots[0].range,
        ShotRange::Words { from: 0, to: 3 }
    );
    assert_eq!(
        doc.snapshot.shots[1].range,
        ShotRange::Words { from: 4, to: 7 }
    );
}

#[test]
fn fuzzy_merged_blocks_resolve_to_combined_range() {
    // User removed all annotations — entire text is orphaned.
    let input = "\
# Source: src-001 — test.mp4

Welcome to the interview today we talk about
";
    let t = make_transcript(
        "src-001",
        &[
            "Welcome",
            "to",
            "the",
            "interview",
            "today",
            "we",
            "talk",
            "about",
        ],
    );
    let transcripts = make_transcripts(vec![t]);

    let doc = from_transcript_str_fuzzy(input, "merged-test", &transcripts).unwrap();
    assert_eq!(doc.snapshot.shots.len(), 1);
    assert_eq!(
        doc.snapshot.shots[0].range,
        ShotRange::Words { from: 0, to: 7 }
    );
}

#[test]
fn fuzzy_annotated_blocks_pass_through_unchanged() {
    // All blocks still have annotations — fuzzy should work identically
    // to the strict parser.
    let input = "\
# Source: src-001 — test.mp4

<!-- ar-edit:src-001:w0-w3 -->
Welcome to the interview
<!-- /ar-edit:src-001 -->

<!-- ar-edit:src-001:w4-w7 -->
today we talk about
<!-- /ar-edit:src-001 -->
";
    let t = make_transcript(
        "src-001",
        &[
            "Welcome",
            "to",
            "the",
            "interview",
            "today",
            "we",
            "talk",
            "about",
        ],
    );
    let transcripts = make_transcripts(vec![t]);

    let doc = from_transcript_str_fuzzy(input, "annotated", &transcripts).unwrap();
    assert_eq!(doc.snapshot.shots.len(), 2);
    assert_eq!(
        doc.snapshot.shots[0].range,
        ShotRange::Words { from: 0, to: 3 }
    );
    assert_eq!(
        doc.snapshot.shots[1].range,
        ShotRange::Words { from: 4, to: 7 }
    );
}

#[test]
fn fuzzy_unresolvable_text_produces_error_with_line() {
    let input = "\
# Source: src-001 — test.mp4

This text does not exist in the transcript
";
    let t = make_transcript("src-001", &["Welcome", "to", "the", "interview"]);
    let transcripts = make_transcripts(vec![t]);

    let err = from_transcript_str_fuzzy(input, "bad", &transcripts).unwrap_err();
    if let ImportError::ParseErrors(errors) = err {
        assert_eq!(errors.len(), 1);
        assert_eq!(errors[0].line, 3);
        assert!(errors[0].message.contains("could not match"));
    } else {
        panic!("expected ParseErrors");
    }
}

#[test]
fn fuzzy_missing_transcript_produces_error() {
    let input = "\
# Source: src-999 — missing.mp4

some orphaned text
";
    let transcripts: Vec<(String, Transcript)> = Vec::new();

    let err = from_transcript_str_fuzzy(input, "no-transcript", &transcripts).unwrap_err();
    if let ImportError::ParseErrors(errors) = err {
        assert_eq!(errors.len(), 1);
        assert!(errors[0].message.contains("no transcript"));
    } else {
        panic!("expected ParseErrors");
    }
}

#[test]
fn fuzzy_multiple_sources_split() {
    let input = "\
# Source: src-001 — test.mp4

Welcome to the interview

---

# Source: src-002 — test2.mp4

<!-- ar-edit:src-002:w0-w1 -->
So the
<!-- /ar-edit:src-002 -->

thing is
";
    let t1 = make_transcript("src-001", &["Welcome", "to", "the", "interview"]);
    let t2 = make_transcript("src-002", &["So", "the", "thing", "is"]);
    let transcripts = make_transcripts(vec![t1, t2]);

    let doc = from_transcript_str_fuzzy(input, "multi", &transcripts).unwrap();
    assert_eq!(doc.snapshot.shots.len(), 3);
    // src-001 orphaned → w0-w3
    assert_eq!(doc.snapshot.shots[0].source, "src-001");
    assert_eq!(
        doc.snapshot.shots[0].range,
        ShotRange::Words { from: 0, to: 3 }
    );
    // src-002 annotated → w0-w1
    assert_eq!(doc.snapshot.shots[1].source, "src-002");
    assert_eq!(
        doc.snapshot.shots[1].range,
        ShotRange::Words { from: 0, to: 1 }
    );
    // src-002 orphaned → w2-w3
    assert_eq!(doc.snapshot.shots[2].source, "src-002");
    assert_eq!(
        doc.snapshot.shots[2].range,
        ShotRange::Words { from: 2, to: 3 }
    );
}

#[test]
fn fuzzy_empty_input() {
    let transcripts: Vec<(String, Transcript)> = Vec::new();
    let doc = from_transcript_str_fuzzy("", "empty", &transcripts).unwrap();
    assert_eq!(doc.snapshot.shots.len(), 0);
}

#[test]
fn fuzzy_with_typo_in_orphaned_text() {
    let input = "\
# Source: src-001 — test.mp4

Welcome to the intervew today
";
    let t = make_transcript(
        "src-001",
        &["Welcome", "to", "the", "interview", "today", "we", "talk"],
    );
    let transcripts = make_transcripts(vec![t]);

    let doc = from_transcript_str_fuzzy(input, "typo", &transcripts).unwrap();
    assert_eq!(doc.snapshot.shots.len(), 1);
    assert_eq!(
        doc.snapshot.shots[0].range,
        ShotRange::Words { from: 0, to: 4 }
    );
}
#[test]
fn fuzzy_finds_transcripts_by_the_source_they_were_read_for() {
    let input = "\
# Source: src-001 — test.mp4

today we talk about
";
    // The transcript names another source inside it; it is stored under src-001.
    let t = make_transcript("other", &["Welcome", "today", "we", "talk", "about"]);
    let transcripts = vec![("src-001".to_string(), t)];
    let doc = from_transcript_str_fuzzy(input, "keyed", &transcripts).unwrap();
    assert_eq!(doc.snapshot.shots.len(), 1);
    assert_eq!(doc.snapshot.shots[0].source, "src-001");
    assert_eq!(doc.snapshot.shots[0].range, ShotRange::Words { from: 1, to: 4 });
}

#[test]
fn texts_are_cut_between_characters_only() {
    assert!(can_cut("short", 60));
    assert!(can_cut("héllo", 3));
    assert!(!can_cut("héllo", 2));
    assert!(can_cut("héllo", 6));
    assert!(can_cut("", 0));
}

#[test]
fn fuzzy_import_bounds_follow_the_quoted_texts() {
    let t = make_transcript("src-001", &["Welcome", "today"]);
    let transcripts = make_transcripts(vec![t]);
    // 59 ASCII bytes, then a two-byte character across byte 60.
    let long = format!("{}é and more words", "x".repeat(59));
    let input = format!("# Source: src-001 — test.mp4\n\n{long}\n");
    assert!(!fuzzy_import_in_bounds(&input, &transcripts));
    // The same text with no transcript for its source is not quoted.
    assert!(fuzzy_import_in_bounds(&input, &Vec::new()));
    // Text cut at a character boundary is fine.
    let ascii = format!("# Source: src-001 — test.mp4\n\n{}\n", "y".repeat(80));
    assert!(fuzzy_import_in_bounds(&ascii, &transcripts));
    let err = from_transcript_str_fuzzy(&ascii, "t", &transcripts).unwrap_err();
    assert!(matches!(err, ImportError::ParseErrors(_)));
}

#[test]
fn non_ascii_decimal_indices_are_reported() {
    let input = "<!-- ar-edit:src-001:w\u{0661}-w3 -->\ntext\n<!-- /ar-edit:src-001 -->\n";
    let (blocks, errors) = parse_annotations(input);
    assert!(blocks.is_empty());
    assert_eq!(errors.len(), 2);
    assert_eq!(errors[0].line, 1);
    assert_eq!(errors[0].message, "invalid from-word index: '\u{0661}'");
    assert_eq!(errors[1].line, 3);
    assert_eq!(errors[1].message, "closing annotation for 'src-001' without matching opening");

    let input = "<!-- ar-edit:src-001:w0-w\u{0967}\u{0968} -->\n";
    let (_, errors) = parse_annotations(input);
    assert_eq!(errors.len(), 1);
    assert_eq!(errors[0].message, "invalid to-word index: '\u{0967}\u{0968}'");
}
