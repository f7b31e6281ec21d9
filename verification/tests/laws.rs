use ar_edit_core::display::{format_time, format_time_hms};
use ar_edit_core::models::{EditDocument, ShotRange};
use ar_edit_core::playback::parse_timecode;
use ar_edit_core::render::{ffmpeg_video_encoder, normalize_codec, parse_resolution};

#[test]
fn written_timecodes_read_back() {
    assert_eq!(parse_timecode("2:3:4").unwrap(), 2 * 3_600_000 + 3 * 60_000 + 4_000);
    assert_eq!(parse_timecode("3:4").unwrap(), parse_timecode("0:3:4").unwrap());
    assert_eq!(parse_timecode("4").unwrap(), parse_timecode("0:0:4").unwrap());
    assert_eq!(parse_timecode("100:59:59").unwrap(), 100 * 3_600_000 + 59 * 60_000 + 59_000);
}

#[test]
fn written_resolutions_read_back() {
    for (w, h) in [(1920u32, 1080u32), (1, 1), (u32::MAX, 7)] {
        assert_eq!(parse_resolution(&format!("{w}x{h}")).unwrap(), (w, h));
    }
    assert!(parse_resolution("0x1080").is_err());
    assert!(parse_resolution("1920x0").is_err());
}

#[test]
fn normalising_codecs_is_idempotent() {
    for c in ["avc", "libx264", "h264", "hevc", "libx265", "h265", "libvpx-vp9", "vp9", "libaom-av1", "libsvtav1", "av1", "prores", ""] {
        let n = normalize_codec(c);
        assert_eq!(normalize_codec(n), n);
        assert_eq!(ffmpeg_video_encoder(c), ffmpeg_video_encoder(n));
        assert_eq!(normalize_codec(ffmpeg_video_encoder(c)), n);
    }
}

#[test]
fn hours_then_minutes_format() {
    for ms in [0u64, 5, 3_723_456, 100 * 3_600_000 + 5, u64::MAX] {
        assert_eq!(format_time_hms(ms), format!("{:02}:", ms / 3_600_000) + &format_time(ms % 3_600_000));
    }
}

#[test]
fn snapshots_read_only_up_to_head() {
    let mut doc = EditDocument::create("laws");
    doc.add_shot("src-001", ShotRange::Words { from: 0, to: 4 }).unwrap();
    doc.add_shot("src-001", ShotRange::Words { from: 5, to: 9 }).unwrap();
    doc.add_shot("src-002", ShotRange::Time { from_ms: 0, to_ms: 900 }).unwrap();
    for head in [-1i32, 0, 1, 2] {
        let upto = (head + 1).max(0) as usize;
        assert_eq!(
            EditDocument::recompute_snapshot(&doc.ops, head),
            EditDocument::recompute_snapshot(&doc.ops[..upto], head)
        );
    }
    assert!(EditDocument::recompute_snapshot(&doc.ops, -1).shots.is_empty());
}

#[test]
fn an_operation_then_undo_restores_the_shots() {
    let mut doc = EditDocument::create("laws");
    doc.add_shot("src-001", ShotRange::Words { from: 0, to: 4 }).unwrap();
    let id = doc.add_shot("src-001", ShotRange::Words { from: 5, to: 9 }).unwrap().id;
    let before = doc.snapshot.clone();
    doc.move_shot(&id, 0).unwrap();
    let undone = doc.undo().unwrap();
    assert_eq!(doc.snapshot, before);
    assert_eq!(&undone, doc.ops.last().unwrap());
    doc.trim_shot(&id, ShotRange::Words { from: 6, to: 8 }).unwrap();
    doc.undo().unwrap();
    assert_eq!(doc.snapshot, before);
    doc.add_note(&id, "keep").unwrap();
    doc.undo().unwrap();
    assert_eq!(doc.snapshot, before);
    doc.remove_shot(&id).unwrap();
    doc.undo().unwrap();
    assert_eq!(doc.snapshot, before);
}
