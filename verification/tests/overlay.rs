use ar_edit_core::overlay::{
    build_drawtext_filter, escape_drawtext_text, font_spec, monospace_font_candidates,
    timecode_expr, OverlayInfo, OverlayMode,
};

fn make_info() -> OverlayInfo {
    OverlayInfo {
        shot_id: "shot-003".into(),
        source_id: "src-002".into(),
        snippet: Some("Welcome to the interview".into()),
        timecode_offset_ms: 30000,
    }
}

fn font() -> String {
    font_spec(None)
}

#[test]
fn from_flag_none_is_clean() {
    assert_eq!(OverlayMode::from_flag(None), OverlayMode::Clean);
}

#[test]
fn from_flag_full() {
    assert_eq!(OverlayMode::from_flag(Some("full")), OverlayMode::Full);
}

#[test]
fn from_flag_minimal() {
    assert_eq!(OverlayMode::from_flag(Some("minimal")), OverlayMode::Minimal);
}

#[test]
fn from_flag_unknown_defaults_to_full() {
    assert_eq!(OverlayMode::from_flag(Some("other")), OverlayMode::Full);
}

#[test]
fn clean_mode_returns_none() {
    let info = make_info();
    assert!(build_drawtext_filter(OverlayMode::Clean, &info, &font()).is_none());
}

#[test]
fn minimal_mode_contains_timecode() {
    let info = make_info();
    let filter = build_drawtext_filter(OverlayMode::Minimal, &info, &font()).unwrap();
    assert!(filter.contains("drawtext="));
    assert!(filter.contains("pts:hms:"));
    assert!(filter.contains("fontsize=16"));
    assert!(filter.contains("boxcolor=black@0.5"));
    assert!(!filter.contains("shot-003"));
    assert!(!filter.contains("src-002"));
}

#[test]
fn full_mode_contains_all_info() {
    let info = make_info();
    let filter = build_drawtext_filter(OverlayMode::Full, &info, &font()).unwrap();
    assert!(filter.contains("shot-003"));
    assert!(filter.contains("src-002"));
    assert!(filter.contains("pts:hms:"));
    assert!(filter.contains("boxcolor=black@0.5"));
}

#[test]
fn full_mode_with_snippet_has_two_drawtext() {
    let info = make_info();
    let filter = build_drawtext_filter(OverlayMode::Full, &info, &font()).unwrap();
    let count = filter.matches("drawtext=").count();
    assert_eq!(count, 2, "full overlay with snippet should have 2 drawtext filters");
}

#[test]
fn full_mode_without_snippet_has_one_drawtext() {
    let info = OverlayInfo {
        shot_id: "shot-001".into(),
        source_id: "src-001".into(),
        snippet: None,
        timecode_offset_ms: 0,
    };
    let filter = build_drawtext_filter(OverlayMode::Full, &info, &font()).unwrap();
    let count = filter.matches("drawtext=").count();
    assert_eq!(count, 1, "full overlay without snippet should have 1 drawtext filter");
}

#[test]
fn timecode_offset_included() {
    let info = OverlayInfo {
        shot_id: "shot-001".into(),
        source_id: "src-001".into(),
        snippet: None,
        timecode_offset_ms: 90500,
    };
    let filter = build_drawtext_filter(OverlayMode::Minimal, &info, &font()).unwrap();
    assert!(filter.contains("pts:hms:90.500"), "filter should contain offset");
}

#[test]
fn zero_offset() {
    let info = OverlayInfo {
        shot_id: "shot-001".into(),
        source_id: "src-001".into(),
        snippet: None,
        timecode_offset_ms: 0,
    };
    let filter = build_drawtext_filter(OverlayMode::Minimal, &info, &font()).unwrap();
    assert!(filter.contains("pts:hms:0.000"));
}

#[test]
fn minimal_filter_exact_text() {
    let info = make_info();
    let filter = build_drawtext_filter(OverlayMode::Minimal, &info, "font=monospace").unwrap();
    assert_eq!(
        filter,
        "drawtext=text='%{pts:hms:30.000}':font=monospace:fontsize=16:fontcolor=white:box=1:boxcolor=black@0.5:boxborderw=8:x=10:y=10"
    );
}

#[test]
fn escape_plain_text() {
    assert_eq!(escape_drawtext_text("hello world"), "hello world");
}

#[test]
fn escape_single_quotes() {
    assert_eq!(escape_drawtext_text("it's a test"), "its a test");
}

#[test]
fn escape_backslashes() {
    assert_eq!(escape_drawtext_text("path\\to\\file"), "path\\\\to\\\\file");
}

#[test]
fn escape_percent() {
    assert_eq!(escape_drawtext_text("100% done"), "100%% done");
}

#[test]
fn escape_combined() {
    assert_eq!(escape_drawtext_text("it's 100% done\\finished"), "its 100%% done\\\\finished");
}

#[test]
fn timecode_expr_format() {
    let expr = timecode_expr(90500);
    assert_eq!(expr, "%{pts:hms:90.500}");
}

#[test]
fn timecode_expr_zero() {
    let expr = timecode_expr(0);
    assert_eq!(expr, "%{pts:hms:0.000}");
}

#[test]
fn font_spec_returns_nonempty() {
    let spec = font_spec(None);
    assert!(!spec.is_empty());
    assert!(spec.contains("fontfile=") || spec.contains("font="), "font spec should specify a font");
    let found = font_spec(Some("/usr/share/fonts/TTF/DejaVuSansMono.ttf"));
    assert_eq!(found, "fontfile='/usr/share/fonts/TTF/DejaVuSansMono.ttf'");
}

#[test]
fn font_candidates_prefer_menlo() {
    let c = monospace_font_candidates();
    assert_eq!(c.len(), 6);
    assert_eq!(c[0], "/System/Library/Fonts/Menlo.ttc");
}
