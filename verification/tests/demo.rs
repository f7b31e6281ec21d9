use ar_edit_core::demo::{
    build_transcript, bundle_cursor_path, bundle_video_path, cursor_log_path, marker_specs,
    narration_spans, poi_category, poi_specs, scene_boundaries, DemoError, DemoManifest, DemoStep,
    Viewport, FULL_CONFIDENCE_BITS,
};
use ar_edit_core::models::PoiCategory;

fn step(index: u32, kind: &str, title: Option<&str>, start: u64, end: u64) -> DemoStep {
    DemoStep {
        index,
        kind: kind.into(),
        title: title.map(String::from),
        selector: None,
        url: None,
        start_ms: start,
        end_ms: end,
        success: true,
        pause: None,
    }
}

fn manifest(steps: Vec<DemoStep>, duration_ms: u64) -> DemoManifest {
    DemoManifest {
        version: 1,
        video: "video.webm".into(),
        cursor: Some("cursor.json".into()),
        recording: None,
        started_at: None,
        viewport: Viewport { width: 1280, height: 720 },
        scale_bits: 2.0f64.to_bits(),
        profile: Some("demo".into()),
        duration_ms,
        steps,
    }
}

#[test]
fn narration_runs_to_the_next_titled_step_not_action_end() {
    let m = manifest(
        vec![
            step(0, "goto", Some("Open the dashboard"), 0, 1000),
            step(1, "marker", Some("Sorted by activity"), 1000, 1000),
            step(2, "click", None, 1500, 1800),
            step(3, "type", Some("Name it"), 2000, 3300),
        ],
        5000,
    );
    let spans = narration_spans(&m);
    assert_eq!(spans.len(), 3);
    assert_eq!((spans[0].start_ms, spans[0].end_ms), (0, 1000));
    assert_eq!((spans[1].start_ms, spans[1].end_ms), (1000, 2000));
    assert_eq!((spans[2].start_ms, spans[2].end_ms), (2000, 5000));
}

#[test]
fn blank_titles_are_not_narration() {
    let m = manifest(vec![step(0, "goto", Some("  "), 0, 500)], 1000);
    assert!(narration_spans(&m).is_empty());
}

#[test]
fn narration_titles_are_trimmed() {
    let m = manifest(vec![step(4, "goto", Some("  Open it \n"), 0, 500)], 1000);
    let spans = narration_spans(&m);
    assert_eq!(spans[0].title, "Open it");
    assert_eq!(spans[0].step_index, 4);
}

#[test]
fn transcript_words_tile_each_span_with_global_indices() {
    let m = manifest(
        vec![
            step(0, "goto", Some("Open the dashboard"), 0, 900),
            step(1, "click", Some("Create it"), 3000, 3400),
        ],
        4000,
    );
    let t = build_transcript(&m, "src-007");
    assert_eq!(t.source_id, "src-007");
    assert_eq!(t.model, "ar-crawl-demo");
    assert_eq!(t.duration_ms, 4000);
    assert_eq!(t.word_count, 5);
    assert_eq!(t.segments.len(), 2);

    let w = &t.segments[0].words;
    assert_eq!(w.iter().map(|w| w.text.as_str()).collect::<Vec<_>>(), ["Open", "the", "dashboard"]);
    assert_eq!((w[0].start_ms, w[0].end_ms), (0, 1000));
    assert_eq!((w[2].start_ms, w[2].end_ms), (2000, 3000));
    assert_eq!(w[1].start_ms, w[0].end_ms);
    assert_eq!(t.segments[1].words[0].index, 3);
    assert_eq!(t.segments[1].words[1].end_ms, 4000);
    assert_eq!(w[0].confidence_bits, FULL_CONFIDENCE_BITS);
    assert_eq!(f32::from_bits(w[0].confidence_bits), 1.0);
}

#[test]
fn scenes_partition_at_visual_steps_only() {
    let m = manifest(
        vec![
            step(0, "goto", Some("Open"), 200, 1000),
            step(1, "marker", Some("Narration"), 1000, 1000),
            step(2, "cursor", None, 1200, 1200),
            step(3, "click", Some("Create"), 2000, 2300),
        ],
        4000,
    );
    let s = scene_boundaries(&m);
    assert_eq!(s.len(), 3, "{s:?}");
    assert_eq!((s[0].start_ms, s[0].end_ms, s[0].description.clone()), (0, 200, None));
    assert_eq!((s[1].start_ms, s[1].end_ms), (200, 2000));
    assert_eq!(s[1].description.as_deref(), Some("Open"));
    assert_eq!((s[2].start_ms, s[2].end_ms), (2000, 4000));
}

#[test]
fn scenes_order_visual_steps_by_start() {
    let m = manifest(
        vec![
            step(0, "click", Some("Later"), 3000, 3100),
            step(1, "goto", Some("First"), 0, 100),
            step(2, "hover", Some("Same start"), 3000, 3200),
        ],
        5000,
    );
    let s = scene_boundaries(&m);
    assert_eq!(s.len(), 2);
    assert_eq!((s[0].start_ms, s[0].end_ms), (0, 3000));
    assert_eq!(s[0].description.as_deref(), Some("First"));
    // the two steps at 3000 keep their order; the first gets an empty span
    assert_eq!((s[1].start_ms, s[1].end_ms), (3000, 5000));
    assert_eq!(s[1].description.as_deref(), Some("Same start"));
}

#[test]
fn no_visual_steps_yields_one_scene() {
    let m = manifest(vec![step(0, "marker", Some("Only words"), 0, 0)], 3000);
    let s = scene_boundaries(&m);
    assert_eq!(s.len(), 1);
    assert_eq!((s[0].start_ms, s[0].end_ms), (0, 3000));
}

#[test]
fn markers_follow_narration_and_note_the_action() {
    let mut click = step(1, "click", Some("Create it"), 1000, 1300);
    click.selector = Some("#b".into());
    let m = manifest(vec![step(0, "goto", Some("Open"), 0, 900), click], 2000);
    let specs = marker_specs(&m);
    assert_eq!(specs.len(), 2);
    assert_eq!(specs[0].label, "Open");
    assert_eq!((specs[0].start_ms, specs[0].end_ms), (0, 1000));
    assert_eq!(specs[1].note.as_deref(), Some("click #b"));
}

#[test]
fn marker_note_uses_url_when_no_selector() {
    let mut go = step(0, "goto", Some("Open"), 0, 900);
    go.url = Some("https://x".into());
    let m = manifest(vec![go], 2000);
    assert_eq!(marker_specs(&m)[0].note.as_deref(), Some("goto https://x"));
}

#[test]
fn poi_categories_map_from_step_type_and_failure() {
    let ok = |k: &str| step(0, k, None, 0, 1);
    assert_eq!(poi_category(&ok("goto")), PoiCategory::Transition);
    assert_eq!(poi_category(&ok("click")), PoiCategory::Cue);
    assert_eq!(poi_category(&ok("type")), PoiCategory::Cue);
    assert_eq!(poi_category(&ok("hover")), PoiCategory::Highlight);
    assert_eq!(poi_category(&ok("marker")), PoiCategory::Note);
    assert_eq!(poi_category(&ok("setViewport")), PoiCategory::Note);
    let mut failed = ok("click");
    failed.success = false;
    assert_eq!(poi_category(&failed), PoiCategory::Issue);
}

#[test]
fn poi_specs_skip_cursor_toggles_and_prefer_titles() {
    let m = manifest(
        vec![step(0, "goto", Some("Open"), 0, 900), step(1, "cursor", None, 900, 900), step(2, "click", None, 1000, 1200)],
        2000,
    );
    let p = poi_specs(&m);
    assert_eq!(p.len(), 2);
    assert_eq!(p[0].note.as_deref(), Some("Open"));
    assert_eq!(p[1].note.as_deref(), Some("click"));
    assert_eq!(p[1].at_ms, 1000);
}

#[test]
fn load_bundle_rejects_missing_pieces() {
    let mut m = manifest(vec![], 100);
    assert_eq!(bundle_video_path("/b", &m).unwrap(), "/b/video.webm");
    assert_eq!(bundle_cursor_path("/b", &m).as_deref(), Some("/b/cursor.json"));
    m.cursor = None;
    assert!(bundle_cursor_path("/b", &m).is_none());
    m.version = 2;
    let err = bundle_video_path("/b", &m).unwrap_err();
    assert_eq!(err, DemoError::UnsupportedVersion(2));
    assert_eq!(err.to_string(), "unsupported bundle version 2 (expected 1)");
    assert_eq!(DemoError::VideoMissing("/b/v.webm".into()).to_string(), "bundle video not found: /b/v.webm");
}

#[test]
fn cursor_log_path_under_annotations() {
    assert_eq!(cursor_log_path("/proj", "src-007"), "/proj/annotations/src-007.cursor.json");
}
