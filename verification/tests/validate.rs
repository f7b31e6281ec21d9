use ar_edit_core::display::SourceData;
use ar_edit_core::models::{
    Defaults, EditDocument, EditSnapshot, Manifest, Resolution, Scene, Shot, ShotRange, Source,
    SourceIndex, SourceMetadata, Transcript, TranscriptSegment, Word,
};
use ar_edit_core::validate::{validate, validate_shot_source, ValidationError};

fn add_transcript(data: &mut Vec<SourceData>, t: &Transcript) {
    match data.iter_mut().find(|d| d.source_id == t.source_id) {
        Some(d) => d.transcript = Some(t.clone()),
        None => data.push(SourceData { source_id: t.source_id.clone(), transcript: Some(t.clone()), index: None }),
    }
}

fn add_index(data: &mut Vec<SourceData>, x: &SourceIndex) {
    match data.iter_mut().find(|d| d.source_id == x.source_id) {
        Some(d) => d.index = Some(x.clone()),
        None => data.push(SourceData { source_id: x.source_id.clone(), transcript: None, index: Some(x.clone()) }),
    }
}

// -- Helpers --------------------------------------------------------------

fn make_manifest(sources: Vec<Source>) -> Manifest {
    Manifest {
        version: "1.0.0".into(),
        name: "test-project".into(),
        created: "2026-02-19T12:00:00Z".into(),
        sources,
        next_source_id: 4,
        defaults: Defaults {
            whisper_model: "base".into(),
            thumbnail_interval_sec: 10,
            render_codec: "h264".into(),
            render_container: "mp4".into(),
        },
    }
}

fn make_source(id: &str, duration_ms: u64, transcribed: bool, indexed: bool) -> Source {
    Source {
        id: id.into(),
        path: format!("sources/{}.mp4", id).into(),
        original_filename: format!("{}.mp4", id),
        duration_ms,
        video_codec: "h264".into(),
        audio_codec: "aac".into(),
        resolution: Resolution { width: 1920, height: 1080 },
        frame_rate_bits: 29.97f64.to_bits(),
        audio_channels: 2,
        audio_sample_rate: 48000,
        added: "2026-02-19T12:00:00Z".into(),
        transcribed,
        indexed,
    }
}

fn make_edit_doc(shots: Vec<Shot>) -> EditDocument {
    EditDocument {
        name: "test-edit".into(),
        created: "2026-02-19T12:00:00Z".into(),
        next_shot_id: (shots.len() as u32) + 1,
        head: if shots.is_empty() { -1 } else { 0 },
        ops: vec![],
        snapshot: EditSnapshot { shots },
    }
}

fn make_transcript(source_id: &str, word_count: u32) -> Transcript {
    let mut words = Vec::new();
    for i in 0..word_count {
        words.push(Word {
            index: i,
            text: format!("word{}", i),
            start_ms: (i as u64) * 100,
            end_ms: (i as u64) * 100 + 80,
            confidence_bits: 0.95f32.to_bits(),
        });
    }
    Transcript {
        source_id: source_id.into(),
        model: "base".into(),
        language: "en".into(),
        duration_ms: (word_count as u64) * 100,
        segments: vec![TranscriptSegment {
            index: 0,
            start_ms: 0,
            end_ms: (word_count as u64) * 100,
            text: "test segment".into(),
            words,
        }],
        word_count,
    }
}

fn make_source_index(source_id: &str, scene_count: u32) -> SourceIndex {
    let scenes: Vec<Scene> = (0..scene_count)
        .map(|i| Scene {
            index: i,
            start_ms: (i as u64) * 10000,
            end_ms: ((i + 1) as u64) * 10000,
            thumbnail: format!("thumbnails/{}_scene{}.jpg", source_id, i).into(),
            description: None,
        })
        .collect();
    SourceIndex {
        source_id: source_id.into(),
        indexed_at: "2026-02-19T12:00:00Z".into(),
        metadata: SourceMetadata {
            duration_ms: (scene_count as u64) * 10000,
            resolution: Resolution { width: 1920, height: 1080 },
            codec: "h264".into(),
            file_size_bytes: 52428800,
        },
        thumbnails: vec![],
        scene_count,
        scenes,
    }
}

// -- Valid edit document ---------------------------------------------------

#[test]
fn valid_edit_no_errors() {
    #[allow(unused_mut)]
    let mut data: Vec<SourceData> = Vec::new();
    let src = make_source("src-001", 124500, true, true);
    let manifest = make_manifest(vec![src]);
    let transcript = make_transcript("src-001", 487);
    let index = make_source_index("src-001", 4);
    add_transcript(&mut data, &transcript);
    add_index(&mut data, &index);

    let doc = make_edit_doc(vec![
        Shot {
            author: String::new(),
            id: "shot-001".into(),
            source: "src-001".into(),
            range: ShotRange::Words { from: 0, to: 52 },
            notes: vec![],
        },
        Shot {
            author: String::new(),
            id: "shot-002".into(),
            source: "src-001".into(),
            range: ShotRange::Scenes { from: 0, to: 2 },
            notes: vec![],
        },
        Shot {
            author: String::new(),
            id: "shot-003".into(),
            source: "src-001".into(),
            range: ShotRange::Time {
                from_ms: 15000,
                to_ms: 22000,
            },
            notes: vec![],
        },
    ]);

    let result = validate(&doc, &manifest, &data);
    assert!(result.valid);
    assert!(result.errors.is_empty());
}

#[test]
fn empty_edit_is_valid() {
    #[allow(unused_mut)]
    let mut data: Vec<SourceData> = Vec::new();
    let manifest = make_manifest(vec![]);
    let doc = make_edit_doc(vec![]);

    let result = validate(&doc, &manifest, &data);
    assert!(result.valid);
    assert!(result.errors.is_empty());
}

// -- Check 1: source exists -----------------------------------------------

#[test]
fn source_not_found() {
    #[allow(unused_mut)]
    let mut data: Vec<SourceData> = Vec::new();
    let manifest = make_manifest(vec![]);
    let doc = make_edit_doc(vec![Shot {
        author: String::new(),
        id: "shot-001".into(),
        source: "src-999".into(),
        range: ShotRange::Words { from: 0, to: 10 },
        notes: vec![],
    }]);

    let result = validate(&doc, &manifest, &data);
    assert!(!result.valid);
    assert_eq!(result.errors.len(), 1);
    assert_eq!(
        result.errors[0].error,
        "source 'src-999' not found in project"
    );
}

// -- Check 2: transcript exists -------------------------------------------

#[test]
fn word_range_on_non_transcribed_source() {
    #[allow(unused_mut)]
    let mut data: Vec<SourceData> = Vec::new();
    let src = make_source("src-001", 124500, false, false);
    let manifest = make_manifest(vec![src]);
    let doc = make_edit_doc(vec![Shot {
        author: String::new(),
        id: "shot-001".into(),
        source: "src-001".into(),
        range: ShotRange::Words { from: 0, to: 52 },
        notes: vec![],
    }]);

    let result = validate(&doc, &manifest, &data);
    assert!(!result.valid);
    let errors: Vec<&str> = result.errors.iter().map(|e| e.error.as_str()).collect();
    assert!(errors.contains(&"source 'src-001' has no transcript; cannot use word range"));
}

// -- Check 3: index exists ------------------------------------------------

#[test]
fn scene_range_on_non_indexed_source() {
    #[allow(unused_mut)]
    let mut data: Vec<SourceData> = Vec::new();
    let src = make_source("src-001", 124500, false, false);
    let manifest = make_manifest(vec![src]);
    let doc = make_edit_doc(vec![Shot {
        author: String::new(),
        id: "shot-001".into(),
        source: "src-001".into(),
        range: ShotRange::Scenes { from: 0, to: 2 },
        notes: vec![],
    }]);

    let result = validate(&doc, &manifest, &data);
    assert!(!result.valid);
    let errors: Vec<&str> = result.errors.iter().map(|e| e.error.as_str()).collect();
    assert!(errors.contains(&"source 'src-001' has no scene index; cannot use scene range"));
}

// -- Check 4: word index in bounds ----------------------------------------

#[test]
fn word_index_exceeds_word_count() {
    #[allow(unused_mut)]
    let mut data: Vec<SourceData> = Vec::new();
    let src = make_source("src-001", 124500, true, false);
    let manifest = make_manifest(vec![src]);
    let transcript = make_transcript("src-001", 487);
    add_transcript(&mut data, &transcript);

    let doc = make_edit_doc(vec![Shot {
        author: String::new(),
        id: "shot-001".into(),
        source: "src-001".into(),
        range: ShotRange::Words { from: 0, to: 500 },
        notes: vec![],
    }]);

    let result = validate(&doc, &manifest, &data);
    assert!(!result.valid);
    let errors: Vec<&str> = result.errors.iter().map(|e| e.error.as_str()).collect();
    assert!(errors.contains(&"word index 500 exceeds word_count 487 for src-001"));
}

#[test]
fn word_index_at_word_count_boundary() {
    #[allow(unused_mut)]
    let mut data: Vec<SourceData> = Vec::new();
    let src = make_source("src-001", 124500, true, false);
    let manifest = make_manifest(vec![src]);
    let transcript = make_transcript("src-001", 375);
    add_transcript(&mut data, &transcript);

    // Index 375 with word_count=375 → out of bounds (valid: 0-374)
    let doc = make_edit_doc(vec![Shot {
        author: String::new(),
        id: "shot-001".into(),
        source: "src-001".into(),
        range: ShotRange::Words { from: 0, to: 375 },
        notes: vec![],
    }]);

    let result = validate(&doc, &manifest, &data);
    assert!(!result.valid);
    let errors: Vec<&str> = result.errors.iter().map(|e| e.error.as_str()).collect();
    assert!(errors.contains(&"word index 375 exceeds word_count 375 for src-001"));
}

#[test]
fn word_index_from_also_checked() {
    #[allow(unused_mut)]
    let mut data: Vec<SourceData> = Vec::new();
    let src = make_source("src-001", 124500, true, false);
    let manifest = make_manifest(vec![src]);
    let transcript = make_transcript("src-001", 100);
    add_transcript(&mut data, &transcript);

    let doc = make_edit_doc(vec![Shot {
        author: String::new(),
        id: "shot-001".into(),
        source: "src-001".into(),
        range: ShotRange::Words { from: 200, to: 300 },
        notes: vec![],
    }]);

    let result = validate(&doc, &manifest, &data);
    assert!(!result.valid);
    // Both from and to exceed word_count
    let word_errors: Vec<&ValidationError> = result
        .errors
        .iter()
        .filter(|e| e.error.contains("word index"))
        .collect();
    assert_eq!(word_errors.len(), 2);
}

// -- Check 5: scene index in bounds ---------------------------------------

#[test]
fn scene_index_exceeds_scene_count() {
    #[allow(unused_mut)]
    let mut data: Vec<SourceData> = Vec::new();
    let src = make_source("src-001", 124500, false, true);
    let manifest = make_manifest(vec![src]);
    let index = make_source_index("src-001", 4);
    add_index(&mut data, &index);

    let doc = make_edit_doc(vec![Shot {
        author: String::new(),
        id: "shot-001".into(),
        source: "src-001".into(),
        range: ShotRange::Scenes { from: 0, to: 10 },
        notes: vec![],
    }]);

    let result = validate(&doc, &manifest, &data);
    assert!(!result.valid);
    let errors: Vec<&str> = result.errors.iter().map(|e| e.error.as_str()).collect();
    assert!(errors.contains(&"scene index 10 exceeds scene_count 4 for src-001"));
}

// -- Check 6: time in bounds ----------------------------------------------

#[test]
fn time_exceeds_duration() {
    #[allow(unused_mut)]
    let mut data: Vec<SourceData> = Vec::new();
    let src = make_source("src-001", 124500, false, false);
    let manifest = make_manifest(vec![src]);

    let doc = make_edit_doc(vec![Shot {
        author: String::new(),
        id: "shot-001".into(),
        source: "src-001".into(),
        range: ShotRange::Time {
            from_ms: 0,
            to_ms: 200000,
        },
        notes: vec![],
    }]);

    let result = validate(&doc, &manifest, &data);
    assert!(!result.valid);
    let errors: Vec<&str> = result.errors.iter().map(|e| e.error.as_str()).collect();
    assert!(errors.contains(&"time 200000ms exceeds duration 124500ms for src-001"));
}

#[test]
fn time_at_duration_is_valid() {
    #[allow(unused_mut)]
    let mut data: Vec<SourceData> = Vec::new();
    let src = make_source("src-001", 124500, false, false);
    let manifest = make_manifest(vec![src]);

    let doc = make_edit_doc(vec![Shot {
        author: String::new(),
        id: "shot-001".into(),
        source: "src-001".into(),
        range: ShotRange::Time {
            from_ms: 10000,
            to_ms: 124500,
        },
        notes: vec![],
    }]);

    let result = validate(&doc, &manifest, &data);
    assert!(result.valid);
}

// -- Check 7: range order -------------------------------------------------

#[test]
fn words_from_greater_than_to() {
    #[allow(unused_mut)]
    let mut data: Vec<SourceData> = Vec::new();
    let src = make_source("src-001", 124500, true, false);
    let manifest = make_manifest(vec![src]);
    let transcript = make_transcript("src-001", 487);
    add_transcript(&mut data, &transcript);

    let doc = make_edit_doc(vec![Shot {
        author: String::new(),
        id: "shot-001".into(),
        source: "src-001".into(),
        range: ShotRange::Words { from: 52, to: 10 },
        notes: vec![],
    }]);

    let result = validate(&doc, &manifest, &data);
    assert!(!result.valid);
    let errors: Vec<&str> = result.errors.iter().map(|e| e.error.as_str()).collect();
    assert!(errors.contains(&"from (52) must be <= to (10) in shot-001"));
}

#[test]
fn scenes_from_greater_than_to() {
    #[allow(unused_mut)]
    let mut data: Vec<SourceData> = Vec::new();
    let src = make_source("src-001", 124500, false, true);
    let manifest = make_manifest(vec![src]);
    let index = make_source_index("src-001", 4);
    add_index(&mut data, &index);

    let doc = make_edit_doc(vec![Shot {
        author: String::new(),
        id: "shot-001".into(),
        source: "src-001".into(),
        range: ShotRange::Scenes { from: 3, to: 1 },
        notes: vec![],
    }]);

    let result = validate(&doc, &manifest, &data);
    assert!(!result.valid);
    let errors: Vec<&str> = result.errors.iter().map(|e| e.error.as_str()).collect();
    assert!(errors.contains(&"from (3) must be <= to (1) in shot-001"));
}

#[test]
fn time_from_greater_than_to() {
    #[allow(unused_mut)]
    let mut data: Vec<SourceData> = Vec::new();
    let src = make_source("src-001", 124500, false, false);
    let manifest = make_manifest(vec![src]);

    let doc = make_edit_doc(vec![Shot {
        author: String::new(),
        id: "shot-001".into(),
        source: "src-001".into(),
        range: ShotRange::Time {
            from_ms: 22000,
            to_ms: 15000,
        },
        notes: vec![],
    }]);

    let result = validate(&doc, &manifest, &data);
    assert!(!result.valid);
    let errors: Vec<&str> = result.errors.iter().map(|e| e.error.as_str()).collect();
    assert!(errors.contains(&"from (22000) must be <= to (15000) in shot-001"));
}

// -- Check 8: non-zero duration -------------------------------------------

#[test]
fn words_zero_duration() {
    #[allow(unused_mut)]
    let mut data: Vec<SourceData> = Vec::new();
    let src = make_source("src-001", 124500, true, false);
    let manifest = make_manifest(vec![src]);
    let transcript = make_transcript("src-001", 487);
    add_transcript(&mut data, &transcript);

    let doc = make_edit_doc(vec![Shot {
        author: String::new(),
        id: "shot-001".into(),
        source: "src-001".into(),
        range: ShotRange::Words { from: 5, to: 5 },
        notes: vec![],
    }]);

    let result = validate(&doc, &manifest, &data);
    assert!(!result.valid);
    let errors: Vec<&str> = result.errors.iter().map(|e| e.error.as_str()).collect();
    assert!(errors.contains(&"shot-001 has zero duration"));
}

#[test]
fn scenes_zero_duration() {
    #[allow(unused_mut)]
    let mut data: Vec<SourceData> = Vec::new();
    let src = make_source("src-001", 124500, false, true);
    let manifest = make_manifest(vec![src]);
    let index = make_source_index("src-001", 4);
    add_index(&mut data, &index);

    let doc = make_edit_doc(vec![Shot {
        author: String::new(),
        id: "shot-001".into(),
        source: "src-001".into(),
        range: ShotRange::Scenes { from: 2, to: 2 },
        notes: vec![],
    }]);

    let result = validate(&doc, &manifest, &data);
    assert!(!result.valid);
    let errors: Vec<&str> = result.errors.iter().map(|e| e.error.as_str()).collect();
    assert!(errors.contains(&"shot-001 has zero duration"));
}

#[test]
fn time_zero_duration() {
    #[allow(unused_mut)]
    let mut data: Vec<SourceData> = Vec::new();
    let src = make_source("src-001", 124500, false, false);
    let manifest = make_manifest(vec![src]);

    let doc = make_edit_doc(vec![Shot {
        author: String::new(),
        id: "shot-001".into(),
        source: "src-001".into(),
        range: ShotRange::Time {
            from_ms: 5000,
            to_ms: 5000,
        },
        notes: vec![],
    }]);

    let result = validate(&doc, &manifest, &data);
    assert!(!result.valid);
    let errors: Vec<&str> = result.errors.iter().map(|e| e.error.as_str()).collect();
    assert!(errors.contains(&"shot-001 has zero duration"));
}

// -- Multiple errors per shot ---------------------------------------------

#[test]
fn multiple_errors_collected() {
    #[allow(unused_mut)]
    let mut data: Vec<SourceData> = Vec::new();
    let src1 = make_source("src-001", 124500, true, false);
    let manifest = make_manifest(vec![src1]);
    let transcript = make_transcript("src-001", 100);
    add_transcript(&mut data, &transcript);

    let doc = make_edit_doc(vec![
        Shot {
            author: String::new(),
            id: "shot-001".into(),
            source: "src-999".into(), // source not found
            range: ShotRange::Words { from: 0, to: 10 },
            notes: vec![],
        },
        Shot {
            author: String::new(),
            id: "shot-002".into(),
            source: "src-001".into(),
            range: ShotRange::Words { from: 0, to: 500 }, // word out of bounds
            notes: vec![],
        },
    ]);

    let result = validate(&doc, &manifest, &data);
    assert!(!result.valid);
    assert!(result.errors.len() >= 2);

    let shot_ids: Vec<&str> = result.errors.iter().map(|e| e.shot_id.as_str()).collect();
    assert!(shot_ids.contains(&"shot-001"));
    assert!(shot_ids.contains(&"shot-002"));
}

// -- Serialization --------------------------------------------------------

#[test]
fn multi_source_valid() {
    #[allow(unused_mut)]
    let mut data: Vec<SourceData> = Vec::new();
    let src1 = make_source("src-001", 124500, true, true);
    let src2 = make_source("src-002", 60000, false, true);
    let manifest = make_manifest(vec![src1, src2]);

    let transcript = make_transcript("src-001", 487);
    let index1 = make_source_index("src-001", 4);
    let index2 = make_source_index("src-002", 3);
    add_transcript(&mut data, &transcript);
    add_index(&mut data, &index1);
    add_index(&mut data, &index2);

    let doc = make_edit_doc(vec![
        Shot {
            author: String::new(),
            id: "shot-001".into(),
            source: "src-001".into(),
            range: ShotRange::Words { from: 0, to: 52 },
            notes: vec![],
        },
        Shot {
            author: String::new(),
            id: "shot-002".into(),
            source: "src-002".into(),
            range: ShotRange::Scenes { from: 0, to: 2 },
            notes: vec![],
        },
        Shot {
            author: String::new(),
            id: "shot-003".into(),
            source: "src-002".into(),
            range: ShotRange::Time {
                from_ms: 15000,
                to_ms: 22000,
            },
            notes: vec![],
        },
    ]);

    let result = validate(&doc, &manifest, &data);
    assert!(result.valid, "errors: {:?}", result.errors);
}

#[test]
fn time_from_exceeds_duration() {
    #[allow(unused_mut)]
    let mut data: Vec<SourceData> = Vec::new();
    let src = make_source("src-001", 50000, false, false);
    let manifest = make_manifest(vec![src]);

    let doc = make_edit_doc(vec![Shot {
        author: String::new(),
        id: "shot-001".into(),
        source: "src-001".into(),
        range: ShotRange::Time {
            from_ms: 60000,
            to_ms: 70000,
        },
        notes: vec![],
    }]);

    let result = validate(&doc, &manifest, &data);
    assert!(!result.valid);
    let time_errors: Vec<&ValidationError> = result
        .errors
        .iter()
        .filter(|e| e.error.contains("exceeds duration"))
        .collect();
    assert_eq!(time_errors.len(), 2); // both from and to exceed
}
#[test]
fn validate_shot_source_messages() {
    let manifest = make_manifest(vec![
        make_source("src-001", 10_000, false, false),
        make_source("src-002", 10_000, true, true),
    ]);
    let mut data: Vec<SourceData> = Vec::new();
    add_index(&mut data, &make_source_index("src-002", 3));
    assert_eq!(
        validate_shot_source("src-404", &ShotRange::Time { from_ms: 0, to_ms: 1 }, &manifest, &data),
        vec!["source 'src-404' not found in project".to_string()]
    );
    assert_eq!(
        validate_shot_source("src-001", &ShotRange::Words { from: 0, to: 1 }, &manifest, &data),
        vec!["source 'src-001' has no transcript; cannot use word range".to_string()]
    );
    assert_eq!(
        validate_shot_source("src-001", &ShotRange::Time { from_ms: 9_000, to_ms: 12_000 }, &manifest, &data),
        vec!["time 12000ms exceeds duration 10000ms for src-001".to_string()]
    );
    assert_eq!(
        validate_shot_source("src-002", &ShotRange::Scenes { from: 3, to: 4 }, &manifest, &data),
        vec![
            "scene index 3 exceeds scene_count 3 for src-002".to_string(),
            "scene index 4 exceeds scene_count 3 for src-002".to_string()
        ]
    );
    // A transcribed source whose transcript could not be read: nothing to check against.
    assert!(validate_shot_source("src-002", &ShotRange::Words { from: 0, to: 900 }, &manifest, &data).is_empty());
}

#[test]
fn one_shot_validation_is_order_problems_then_source_check() {
    let mut data: Vec<SourceData> = Vec::new();
    let src = make_source("src-001", 124500, true, false);
    let manifest = make_manifest(vec![src]);
    add_transcript(&mut data, &make_transcript("src-001", 40));
    let range = ShotRange::Words { from: 52, to: 10 };
    let doc = make_edit_doc(vec![Shot {
        author: String::new(),
        id: "shot-001".into(),
        source: "src-001".into(),
        range,
        notes: vec![],
    }]);
    let result = validate(&doc, &manifest, &data);
    let messages: Vec<String> = result.errors.iter().map(|e| e.error.clone()).collect();
    let mut expected = vec!["from (52) must be <= to (10) in shot-001".to_string()];
    expected.extend(validate_shot_source("src-001", &range, &manifest, &data));
    assert_eq!(messages, expected);
    assert_eq!(expected.len(), 2);
    assert!(result.errors.iter().all(|e| e.shot_id == "shot-001"));

    // A missing source is the only problem either way.
    let missing = validate_shot_source("src-404", &range, &manifest, &data);
    let doc = make_edit_doc(vec![Shot {
        author: String::new(),
        id: "shot-001".into(),
        source: "src-404".into(),
        range,
        notes: vec![],
    }]);
    let result = validate(&doc, &manifest, &data);
    let messages: Vec<String> = result.errors.iter().map(|e| e.error.clone()).collect();
    assert_eq!(messages, missing);
}
