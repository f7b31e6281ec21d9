use ar_edit_core::display::{ResolvedShot, SourceData};
use ar_edit_core::models::EditDocument;
use ar_edit_core::models::{Defaults, Manifest, Resolution, ShotRange, Source};
use ar_edit_core::overlay::OverlayMode;
use ar_edit_core::render::{
    concat_args, concat_list_text, extract_args, ffmpeg_video_encoder, normalize_codec,
    parse_resolution, plan_segments, resolve_encode_params, resolve_preview, RenderError, RenderOptions,
};

fn fake_resolved_shot(id: &str, source: &str) -> ResolvedShot {
    ResolvedShot {
        id: id.to_string(),
        source: source.to_string(),
        range: ShotRange::Time { from_ms: 0, to_ms: 5000 },
        start_ms: 0,
        end_ms: 5000,
        duration_ms: 5000,
        text_preview: None,
        scene_preview: None,
        notes: vec![],
        author: String::new(),
    }
}

fn source(id: &str, codec: &str, w: u32, h: u32) -> Source {
    Source {
        id: id.into(),
        path: format!("sources/{id}.mp4"),
        original_filename: format!("{id}.mp4"),
        duration_ms: 60000,
        video_codec: codec.into(),
        audio_codec: "aac".into(),
        resolution: Resolution { width: w, height: h },
        frame_rate_bits: 30.0f64.to_bits(),
        audio_channels: 2,
        audio_sample_rate: 48000,
        added: "2026-02-19T12:00:00Z".into(),
        transcribed: false,
        indexed: false,
    }
}

fn manifest(sources: Vec<Source>) -> Manifest {
    Manifest {
        version: "1.0.0".into(),
        name: "p".into(),
        created: "2026-02-19T12:00:00Z".into(),
        sources,
        next_source_id: 3,
        defaults: Defaults {
            whisper_model: "base".into(),
            thumbnail_interval_sec: 10,
            render_codec: "h264".into(),
            render_container: "mp4".into(),
        },
    }
}

#[test]
fn parse_resolution_valid() {
    assert_eq!(parse_resolution("1920x1080").unwrap(), (1920, 1080));
    assert_eq!(parse_resolution("3840x2160").unwrap(), (3840, 2160));
    assert_eq!(parse_resolution("1280x720").unwrap(), (1280, 720));
}

#[test]
fn parse_resolution_invalid_format() {
    assert!(parse_resolution("1920:1080").is_err());
    assert!(parse_resolution("1920").is_err());
    assert!(parse_resolution("widexhigh").is_err());
    assert!(parse_resolution("").is_err());
    assert!(parse_resolution("0x1080").is_err());
    assert!(parse_resolution("1920x0").is_err());
}

#[test]
fn normalize_codec_aliases() {
    assert_eq!(normalize_codec("h264"), "h264");
    assert_eq!(normalize_codec("avc"), "h264");
    assert_eq!(normalize_codec("libx264"), "h264");
    assert_eq!(normalize_codec("h265"), "h265");
    assert_eq!(normalize_codec("hevc"), "h265");
    assert_eq!(normalize_codec("libx265"), "h265");
    assert_eq!(normalize_codec("vp9"), "vp9");
    assert_eq!(normalize_codec("libvpx-vp9"), "vp9");
    assert_eq!(normalize_codec("av1"), "av1");
    assert_eq!(normalize_codec("libaom-av1"), "av1");
    assert_eq!(normalize_codec("libsvtav1"), "av1");
}

#[test]
fn normalize_codec_passthrough() {
    assert_eq!(normalize_codec("prores"), "prores");
    assert_eq!(normalize_codec("mjpeg"), "mjpeg");
}

#[test]
fn ffmpeg_video_encoder_mapping() {
    assert_eq!(ffmpeg_video_encoder("h264"), "libx264");
    assert_eq!(ffmpeg_video_encoder("avc"), "libx264");
    assert_eq!(ffmpeg_video_encoder("h265"), "libx265");
    assert_eq!(ffmpeg_video_encoder("hevc"), "libx265");
    assert_eq!(ffmpeg_video_encoder("vp9"), "libvpx-vp9");
    assert_eq!(ffmpeg_video_encoder("av1"), "libsvtav1");
}

#[test]
fn ffmpeg_video_encoder_passthrough() {
    assert_eq!(ffmpeg_video_encoder("prores"), "prores");
}

#[test]
fn encode_params_no_manifest_no_options() {
    let resolved = vec![fake_resolved_shot("shot-001", "src-001")];
    let options = RenderOptions::default();
    let params = resolve_encode_params(&resolved, None, &options);
    assert!(params.target_codec.is_none());
    assert!(params.target_resolution.is_none());
    assert!(params.source_info.is_empty());
}

#[test]
fn encode_params_explicit_codec() {
    let resolved = vec![fake_resolved_shot("shot-001", "src-001")];
    let options = RenderOptions { video_codec: Some("h265".into()), ..Default::default() };
    let params = resolve_encode_params(&resolved, None, &options);
    assert_eq!(params.target_codec.as_deref(), Some("h265"));
}

#[test]
fn encode_params_explicit_resolution() {
    let resolved = vec![fake_resolved_shot("shot-001", "src-001")];
    let options = RenderOptions { resolution: Some((1280, 720)), ..Default::default() };
    let params = resolve_encode_params(&resolved, None, &options);
    assert_eq!(params.target_resolution, Some((1280, 720)));
}

#[test]
fn encode_params_mixed_sources_pick_h264_at_largest() {
    let resolved = vec![fake_resolved_shot("shot-001", "src-001"), fake_resolved_shot("shot-002", "src-002")];
    let m = manifest(vec![source("src-001", "hevc", 1280, 720), source("src-002", "h264", 1920, 1080)]);
    let params = resolve_encode_params(&resolved, Some(&m), &RenderOptions::default());
    assert_eq!(params.target_codec.as_deref(), Some("h264"));
    assert_eq!(params.target_resolution, Some((1920, 1080)));
    assert_eq!(params.source_info.len(), 2);
}

#[test]
fn encode_params_uniform_sources_copy() {
    let resolved = vec![fake_resolved_shot("shot-001", "src-001"), fake_resolved_shot("shot-002", "src-002")];
    let m = manifest(vec![source("src-001", "h264", 1920, 1080), source("src-002", "avc", 1920, 1080)]);
    let params = resolve_encode_params(&resolved, Some(&m), &RenderOptions::default());
    assert!(params.target_codec.is_none());
    assert!(params.target_resolution.is_none());
}

#[test]
fn plan_segments_reencode_only_what_differs() {
    let resolved = vec![fake_resolved_shot("shot-001", "src-001"), fake_resolved_shot("shot-002", "src-002")];
    let m = manifest(vec![source("src-001", "hevc", 1280, 720), source("src-002", "h264", 1920, 1080)]);
    let options = RenderOptions::default();
    let params = resolve_encode_params(&resolved, Some(&m), &options);
    let plans = plan_segments(&resolved, &params, OverlayMode::Clean, &options, "font=monospace");
    assert_eq!(plans.len(), 2);
    assert_eq!(plans[0].segment_file, "segment_0000.mp4");
    assert_eq!(plans[0].filter.as_deref(), Some("scale=1920:1080"));
    assert_eq!(plans[0].encoder.as_deref(), Some("libx264"));
    assert_eq!(plans[1].segment_file, "segment_0001.mp4");
    assert!(plans[1].filter.is_none());
    assert!(plans[1].encoder.is_none());
}

#[test]
fn render_options_default() {
    let opts = RenderOptions::default();
    assert!(opts.video_codec.is_none());
    assert!(opts.resolution.is_none());
}

#[test]
fn write_concat_list_creates_file() {
    let segments = vec![
        "/tmp/segment_0000.mp4".to_string(),
        "/tmp/segment_0001.mp4".to_string(),
        "/tmp/segment_0002.mp4".to_string(),
    ];
    let content = concat_list_text(&segments);
    let lines: Vec<&str> = content.lines().collect();
    assert_eq!(lines.len(), 3);
    assert_eq!(lines[0], "file '/tmp/segment_0000.mp4'");
    assert_eq!(lines[1], "file '/tmp/segment_0001.mp4'");
    assert_eq!(lines[2], "file '/tmp/segment_0002.mp4'");
}

#[test]
fn write_concat_list_empty() {
    let content = concat_list_text(&vec![]);
    assert!(content.is_empty());
}

#[test]
fn write_concat_list_single_segment() {
    let content = concat_list_text(&vec!["/video/clip.mp4".to_string()]);
    assert_eq!(content.trim(), "file '/video/clip.mp4'");
}

#[test]
fn write_concat_list_preserves_segment_order() {
    let segments = vec![
        "/tmp/segment_0002.mp4".to_string(),
        "/tmp/segment_0000.mp4".to_string(),
        "/tmp/segment_0001.mp4".to_string(),
    ];
    let content = concat_list_text(&segments);
    let lines: Vec<&str> = content.lines().collect();
    assert_eq!(lines.len(), 3);
    assert_eq!(lines[0], "file '/tmp/segment_0002.mp4'");
    assert_eq!(lines[1], "file '/tmp/segment_0000.mp4'");
    assert_eq!(lines[2], "file '/tmp/segment_0001.mp4'");
}

#[test]
fn write_concat_list_handles_paths_with_spaces() {
    let content = concat_list_text(&vec!["/my videos/segment 001.mp4".to_string()]);
    assert_eq!(content.trim(), "file '/my videos/segment 001.mp4'");
}

#[test]
fn extract_and_concat_arguments() {
    let a = extract_args("/src.mp4", 1500, 4000, "/out.mp4");
    assert!(a.contains(&"/src.mp4".to_string()));
    assert!(a.contains(&"/out.mp4".to_string()));
    let c = concat_args("/list.txt", "/final.mp4");
    assert!(c.contains(&"concat".to_string()));
    assert_eq!(c.last().unwrap(), "/final.mp4");
}

#[test]
fn empty_edit_error_message() {
    let err = RenderError::EmptyEdit;
    assert_eq!(err.to_string(), "edit has no shots");
}

#[test]
fn ffmpeg_failed_error_message() {
    let err = RenderError::FfmpegFailed("exit code 1".into());
    assert!(err.to_string().contains("exit code 1"));
}

#[test]
fn invalid_resolution_error_message() {
    let err = RenderError::InvalidResolution("bad".into());
    assert!(err.to_string().contains("bad"));
    assert!(err.to_string().contains("WxH"));
}

#[test]
fn resolve_preview_empty_edit_returns_error() {
    let doc = EditDocument::create("test");
    let data: Vec<SourceData> = vec![];
    let result = resolve_preview(&doc, &data);
    assert!(result.is_err());
    assert!(result.unwrap_err().to_string().contains("no shots"));
}

#[test]
fn resolve_preview_reports_missing_transcript() {
    let mut doc = EditDocument::create("test");
    doc.add_shot("src-001", ShotRange::Words { from: 0, to: 3 }).unwrap();
    let data: Vec<SourceData> = vec![];
    let err = resolve_preview(&doc, &data).unwrap_err();
    assert_eq!(err, RenderError::Display("transcript required to resolve words range".into()));
}

#[test]
fn resolve_preview_resolves_time_shots() {
    let mut doc = EditDocument::create("test");
    doc.add_shot("src-001", ShotRange::Time { from_ms: 1000, to_ms: 4000 }).unwrap();
    let data: Vec<SourceData> = vec![];
    let shots = resolve_preview(&doc, &data).unwrap();
    assert_eq!(shots.len(), 1);
    assert_eq!(shots[0].start_ms, 1000);
    assert_eq!(shots[0].end_ms, 4000);
    assert_eq!(shots[0].duration_ms, 3000);
}
