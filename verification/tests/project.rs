use ar_edit_core::models::Resolution;
use ar_edit_core::project::{
    dep_status, doctor, extract_version, install_hint_for, locate_dep, new_manifest, pick_streams,
    project_dir_names, register_source, version_from_output, DepStatus, Platform, ProbeResult,
    ProjectError,
};

// -- init -----------------------------------------------------------------

#[test]
fn init_creates_structure() {
    let manifest = new_manifest(Some("my-project"), "2026-02-19T12:00:00Z".into());

    assert_eq!(manifest.name, "my-project");
    assert_eq!(manifest.version, "1.0.0");
    assert!(manifest.sources.is_empty());
    assert_eq!(manifest.next_source_id, 1);
    assert_eq!(manifest.defaults.whisper_model, "base");
    assert_eq!(manifest.defaults.thumbnail_interval_sec, 10);
    assert_eq!(manifest.defaults.render_codec, "h264");
    assert_eq!(manifest.defaults.render_container, "mp4");

    let dirs = project_dir_names();
    for sub in ["sources", "transcripts", "index", "thumbnails", "edits", "annotations"] {
        assert!(dirs.iter().any(|d| d == sub), "missing dir: {sub}");
    }
    assert_eq!(dirs.len(), 6);
}

#[test]
fn init_without_a_directory_name_is_untitled() {
    let manifest = new_manifest(None, "2026-02-19T12:00:00Z".into());
    assert_eq!(manifest.name, "untitled");
    assert_eq!(manifest.created, "2026-02-19T12:00:00Z");
}

#[test]
fn init_rejects_existing_directory() {
    let err = ProjectError::DirectoryExists("/tmp/existing".into());
    assert_eq!(err.to_string(), "directory already exists: /tmp/existing");
}

#[test]
fn read_manifest_rejects_non_project() {
    let err = ProjectError::NotAProject;
    assert!(err.to_string().starts_with("not an ar-edit project directory"));
}

#[test]
fn add_rejects_missing_file() {
    let err = ProjectError::FileNotFound("/nonexistent/video.mp4".into());
    assert!(matches!(err, ProjectError::FileNotFound(_)));
    assert_eq!(err.to_string(), "file not found: /nonexistent/video.mp4");
}

// -- probing --------------------------------------------------------------

#[test]
fn pick_streams_takes_first_video_and_audio() {
    let types = vec![Some("audio".to_string()), Some("video".to_string()), Some("audio".to_string())];
    assert_eq!(pick_streams(&types, "a.mp4").unwrap(), (1, 0));
}

#[test]
fn pick_streams_without_video_is_not_a_video() {
    let types = vec![Some("audio".to_string()), None];
    let err = pick_streams(&types, "a.wav").unwrap_err();
    assert_eq!(
        err,
        ProjectError::NotAVideo { path: "a.wav".into(), reason: "no video stream found".into() }
    );
    assert_eq!(err.to_string(), "not a video file: a.wav: no video stream found");
}

#[test]
fn pick_streams_without_audio_is_not_a_video() {
    let types = vec![Some("video".to_string()), Some("subtitle".to_string())];
    let err = pick_streams(&types, "a.mp4").unwrap_err();
    assert_eq!(
        err,
        ProjectError::NotAVideo { path: "a.mp4".into(), reason: "no audio stream found".into() }
    );
}

fn probe() -> ProbeResult {
    ProbeResult {
        duration_ms: 124500,
        video_codec: "h264".into(),
        audio_codec: "aac".into(),
        resolution: Resolution { width: 1920, height: 1080 },
        frame_rate_bits: (30000.0f64 / 1001.0).to_bits(),
        audio_channels: 2,
        audio_sample_rate: 48000,
    }
}

#[test]
fn register_source_numbers_and_links_the_file() {
    let mut manifest = new_manifest(Some("p"), "2026-02-19T12:00:00Z".into());
    let s = register_source(&mut manifest, Some("interview.mov"), Some("mov"), &probe(), "t1".into());
    assert_eq!(s.id, "src-001");
    assert_eq!(s.path, "sources/src-001.mov");
    assert_eq!(s.original_filename, "interview.mov");
    assert_eq!(s.duration_ms, 124500);
    assert_eq!(s.audio_codec, "aac");
    assert!(!s.transcribed && !s.indexed);
    assert_eq!(manifest.next_source_id, 2);
    assert_eq!(manifest.sources.len(), 1);
    assert_eq!(manifest.sources[0], s);

    let s2 = register_source(&mut manifest, None, None, &probe(), "t2".into());
    assert_eq!(s2.id, "src-002");
    assert_eq!(s2.path, "sources/src-002.mp4");
    assert_eq!(s2.original_filename, "unknown");
    assert_eq!(manifest.sources.len(), 2);
}

// -- versions -------------------------------------------------------------

#[test]
fn extract_version_from_tool_output() {
    assert_eq!(
        extract_version("ffmpeg version 6.1 Copyright (c) 2000-2023"),
        Some("6.1".into())
    );
    assert_eq!(
        extract_version("ffprobe version 7.0.1 Copyright (c) 2000-2024"),
        Some("7.0.1".into())
    );
    assert_eq!(extract_version("no version here"), None);
}

#[test]
fn extract_version_edge_cases() {
    assert_eq!(extract_version("v1.2.3.4"), Some("1.2.3".into()));
    assert_eq!(extract_version("build 12. then 3.4"), Some("3.4".into()));
    assert_eq!(extract_version("1."), None);
    assert_eq!(extract_version(""), None);
}

#[test]
fn version_from_first_line_only() {
    assert_eq!(version_from_output("ffmpeg version 6.1\nlibavutil 58.2.100\n"), Some("6.1".into()));
    assert_eq!(version_from_output("no version\nlibavutil 58.2.100\n"), None);
    assert_eq!(version_from_output(""), None);
}

// -- doctor ---------------------------------------------------------------

#[test]
fn install_hints_per_platform() {
    assert_eq!(install_hint_for("ffprobe", Platform::MacOs), Some("brew install ffmpeg".into()));
    assert_eq!(install_hint_for("vlc", Platform::MacOs), Some("brew install --cask vlc".into()));
    assert_eq!(install_hint_for("whisper-cli", Platform::MacOs), Some("brew install whisper-cpp".into()));
    assert_eq!(install_hint_for("vlc", Platform::Linux), Some("sudo apt install vlc".into()));
    assert_eq!(
        install_hint_for("whisper-cli", Platform::Linux),
        Some("see https://github.com/ggerganov/whisper.cpp".into())
    );
    assert_eq!(install_hint_for("mpv", Platform::Linux), None);
    assert_eq!(install_hint_for("ffmpeg", Platform::Other), None);
}

#[test]
fn dep_status_found_and_missing() {
    let found = dep_status("ffmpeg", Some("/usr/bin/ffmpeg".into()), Some("6.1".into()), Platform::Linux);
    assert_eq!(
        found,
        DepStatus {
            found: true,
            path: Some("/usr/bin/ffmpeg".into()),
            version: Some("6.1".into()),
            fallback: None,
            install_hint: None,
        }
    );
    let missing = dep_status("ffmpeg", None, Some("6.1".into()), Platform::Linux);
    assert!(!missing.found);
    assert_eq!(missing.version, None);
    assert_eq!(missing.install_hint, Some("sudo apt install ffmpeg".into()));
}

#[test]
fn doctor_returns_structured_result() {
    let p = Platform::Linux;
    let status = |name: &str| {
        let path = locate_dep(name);
        dep_status(name, path, None, p)
    };
    let result = doctor(status("ffmpeg"), status("ffprobe"), status("whisper-cli"), status("vlc"), false, p);
    assert_eq!(result.ffmpeg.found, result.ffmpeg.path.is_some());
    assert_eq!(result.ffprobe.found, result.ffprobe.path.is_some());
    assert_eq!(result.whisper.found, result.whisper.path.is_some());
    if !result.vlc.found {
        assert_eq!(result.vlc.install_hint, Some("sudo apt install vlc".into()));
    }
}

#[test]
fn doctor_names_ffplay_when_vlc_is_missing() {
    let missing = dep_status("vlc", None, None, Platform::MacOs);
    let ok = dep_status("ffmpeg", Some("/usr/bin/ffmpeg".into()), Some("6.1".into()), Platform::MacOs);
    let r = doctor(ok.clone(), ok.clone(), ok.clone(), missing.clone(), true, Platform::MacOs);
    assert!(!r.vlc.found);
    assert_eq!(r.vlc.fallback, Some("ffplay".into()));
    assert_eq!(r.vlc.install_hint, Some("brew install --cask vlc".into()));
    let r = doctor(ok.clone(), ok.clone(), ok.clone(), missing, false, Platform::MacOs);
    assert_eq!(r.vlc.fallback, None);
    let r = doctor(ok.clone(), ok.clone(), ok.clone(), ok.clone(), false, Platform::MacOs);
    assert_eq!(r.vlc, ok);
}

#[test]
fn extract_version_reads_any_decimal_digits() {
    assert_eq!(extract_version("tool \u{0661}.\u{0662} build"), Some("\u{0661}.\u{0662}".to_string()));
    assert_eq!(extract_version("v 12.x 3.4.5"), Some("3.4.5".to_string()));
}
