use ar_edit_core::display::format_time_hms;
use ar_edit_core::index::{build_source_index_at, frame_args, frame_extraction, IndexError};
use ar_edit_core::models::{EditDocument, Resolution, Scene, ShotRange, Source, Thumbnail};
use ar_edit_core::playback::{generate_mpv_poi_script, timecode_total};
use ar_edit_core::render::{encoded_args, ffmpeg_step, progress_args, RenderError};
use ar_edit_core::transcript::last_line_text;

#[test]
fn format_time_hms_pads_every_field() {
    assert_eq!(format_time_hms(0), "00:00:00.000");
    assert_eq!(format_time_hms(3_723_004), "01:02:03.004");
    assert_eq!(format_time_hms(360_000_000), "100:00:00.000");
}

#[test]
fn frame_args_seek_and_scale() {
    assert_eq!(
        frame_args("in.mp4", 12_345, "thumbs/x.jpg"),
        vec!["-y", "-ss", "12.345", "-i", "in.mp4", "-frames:v", "1", "-vf", "scale=640:-2", "-q:v", "2", "thumbs/x.jpg"]
    );
    assert_eq!(frame_args("a", 5, "b")[2], "0.005");
}

#[test]
fn frame_extraction_reports_the_timestamp_and_last_line() {
    assert_eq!(frame_extraction(10_000, true, "whatever"), Ok(()));
    assert_eq!(
        frame_extraction(10_000, false, "line one\nInvalid data found\n"),
        Err(IndexError::FfmpegFailed("ffmpeg frame extraction failed (ts=10.000s): Invalid data found".into()))
    );
}

#[test]
fn last_line_of_tool_output() {
    assert_eq!(last_line_text("a\nb\nc"), "c");
    assert_eq!(last_line_text("a\nb\n"), "b");
    assert_eq!(last_line_text(""), "unknown error");
}

#[test]
fn encoded_and_progress_arguments() {
    assert_eq!(
        encoded_args("in.mp4", 1500, 4000, "seg.mp4", Some("scale=1280:720"), "libx265"),
        vec![
            "-y", "-ss", "1.500", "-i", "in.mp4", "-t", "2.500", "-map", "0:v:0", "-map", "0:a:0",
            "-vf", "scale=1280:720", "-c:v", "libx265", "-pix_fmt", "yuv420p", "-r", "30", "-c:a", "aac",
            "-ar", "48000", "-ac", "2", "seg.mp4"
        ]
    );
    let p = progress_args("in.mp4", 0, 1000, "seg.mp4", None, None);
    assert_eq!(&p[..5], &["-y", "-progress", "pipe:2", "-ss", "0.000"]);
    assert!(p.iter().any(|a| a == "-crf"));
    assert_eq!(p.last().unwrap(), "seg.mp4");
}

#[test]
fn ffmpeg_step_names_what_failed() {
    assert_eq!(ffmpeg_step("concat failed", true, ""), Ok(()));
    assert_eq!(
        ffmpeg_step("concat failed", false, "x\nNo such file"),
        Err(RenderError::FfmpegFailed("concat failed: No such file".into()))
    );
}

#[test]
fn mpv_script_writes_to_the_marker_file() {
    let script = generate_mpv_poi_script("/tmp/marks.txt");
    assert!(script.starts_with("-- ar-edit POI marker script\n"));
    assert!(script.contains("local marker_path = \"/tmp/marks.txt\""));
    assert!(script.contains("mp.add_key_binding(\"i\", \"poi-mark\""));
}

#[test]
fn timecode_totals() {
    assert_eq!(timecode_total("01:02:03.5"), Some(3_723_500));
    assert_eq!(timecode_total("90"), Some(90_000));
    assert_eq!(timecode_total("x"), None);
}

#[test]
fn source_index_assigns_scene_thumbnails() {
    let source = Source {
        id: "src-001".into(),
        path: "sources/src-001.mp4".into(),
        original_filename: "a.mp4".into(),
        duration_ms: 20_000,
        video_codec: "h264".into(),
        audio_codec: "aac".into(),
        resolution: Resolution { width: 1920, height: 1080 },
        frame_rate_bits: 30.0f64.to_bits(),
        audio_channels: 2,
        audio_sample_rate: 48000,
        added: "2026-02-19T12:00:00Z".into(),
        transcribed: false,
        indexed: false,
    };
    let scenes = vec![
        Scene { index: 0, start_ms: 0, end_ms: 8000, thumbnail: String::new(), description: None },
        Scene { index: 1, start_ms: 8000, end_ms: 20000, thumbnail: String::new(), description: None },
    ];
    let thumbs = vec![
        Thumbnail { path: "thumbnails/src-001_00m00s.jpg".into(), timestamp_ms: 0, description: None },
        Thumbnail { path: "thumbnails/src-001_00m08s.jpg".into(), timestamp_ms: 8000, description: None },
        Thumbnail { path: "thumbnails/src-001_00m10s.jpg".into(), timestamp_ms: 10000, description: None },
    ];
    let index = build_source_index_at(&source, 1234, scenes, thumbs.clone(), "2026-02-20T00:00:00Z".into());
    assert_eq!(index.source_id, "src-001");
    assert_eq!(index.scene_count, 2);
    assert_eq!(index.metadata.file_size_bytes, 1234);
    assert_eq!(index.metadata.codec, "h264");
    assert_eq!(index.scenes[0].thumbnail, "thumbnails/src-001_00m00s.jpg");
    assert_eq!(index.scenes[1].thumbnail, "thumbnails/src-001_00m08s.jpg");
    assert_eq!(index.thumbnails, thumbs);
    assert_eq!(index.indexed_at, "2026-02-20T00:00:00Z");
}

#[test]
fn add_shot_with_id_keeps_the_given_id() {
    let mut doc = EditDocument::create("collab");
    let shot = doc.add_shot_with_id("alice-7", "src-001", ShotRange::Time { from_ms: 0, to_ms: 500 }).unwrap();
    assert_eq!(shot.id, "alice-7");
    assert_eq!(doc.snapshot.shots.len(), 1);
    assert_eq!(doc.next_shot_id, 1);
    assert!(doc.add_shot_with_id("x", "src-001", ShotRange::Time { from_ms: 5, to_ms: 5 }).is_err());
}
