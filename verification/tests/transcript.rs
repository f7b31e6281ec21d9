use ar_edit_core::transcript::{extract_audio, extract_audio_args, TranscriptError};

#[test]
fn extract_audio_returns_output_path() {
    // The function hands back the output path when ffmpeg succeeded.
    let _: fn(&str, &str, bool, &str) -> Result<String, TranscriptError> = extract_audio;
    let out = extract_audio("in.mp4", "/tmp/out.wav", true, "").unwrap();
    assert_eq!(out, "/tmp/out.wav");
}

#[test]
fn extract_audio_rejects_nonexistent_source() {
    let stderr = "ffmpeg version 6.0\n/nonexistent/video.mp4: No such file or directory\n";
    let err = extract_audio("/nonexistent/video.mp4", "/tmp/out.wav", false, stderr).unwrap_err();
    let msg = err.to_string();
    assert!(
        msg.contains("ffmpeg") || msg.contains("No such file"),
        "expected ffmpeg-related error, got: {msg}"
    );
    assert_eq!(
        err,
        TranscriptError::FfmpegFailed(
            "ffmpeg audio extraction failed: /nonexistent/video.mp4: No such file or directory".into()
        )
    );
}

#[test]
fn extract_audio_reports_missing_audio_stream() {
    let stderr = "Output file #0 does not contain any stream\n";
    let err = extract_audio("clip.mp4", "out.wav", false, stderr).unwrap_err();
    assert_eq!(err, TranscriptError::NoAudioStream("clip.mp4".into()));
    assert_eq!(err.to_string(), "source file has no audio stream: clip.mp4");
    let err = extract_audio("clip.mp4", "out.wav", false, "Stream map 'a' matches no streams.").unwrap_err();
    assert_eq!(err, TranscriptError::NoAudioStream("clip.mp4".into()));
}

#[test]
fn extract_audio_failure_without_output_says_unknown_error() {
    let err = extract_audio("clip.mp4", "out.wav", false, "").unwrap_err();
    assert_eq!(
        err.to_string(),
        "ffmpeg failed: ffmpeg audio extraction failed: unknown error"
    );
}

#[test]
fn extract_audio_arguments_are_mono_16k_pcm() {
    let args = extract_audio_args("in.mp4", "out.wav");
    assert_eq!(
        args,
        vec!["-y", "-i", "in.mp4", "-vn", "-acodec", "pcm_s16le", "-ar", "16000", "-ac", "1", "out.wav"]
    );
}
