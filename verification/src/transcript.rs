//! Extracting a source's audio for transcription: the ffmpeg arguments, and
//! what a finished run means.
use vstd::prelude::*;
use crate::import::has_at;
use crate::playback::args_view;
use crate::text::{push_str, owned, copy_string, chars_of, string_of, lines_of, rows_view, split_lines};

verus! {

broadcast use vstd::string::group_string_axioms;

/// What can go wrong extracting audio.
#[derive(Debug, Clone, PartialEq)]
pub enum TranscriptError {
    FfmpegNotFound(String),
    NoAudioStream(String),
    FfmpegFailed(String),
    Io(String),
}

/// The message of an audio-extraction error.
pub open spec fn transcript_error_message(e: TranscriptError) -> Seq<char> {
    match e {
        TranscriptError::FfmpegNotFound(m) => "ffmpeg not found: "@ + m@,
        TranscriptError::NoAudioStream(p) => "source file has no audio stream: "@ + p@,
        TranscriptError::FfmpegFailed(m) => "ffmpeg failed: "@ + m@,
        TranscriptError::Io(m) => m@,
    }
}

impl TranscriptError {
    /// The human-readable message of this error.
    pub fn to_string(&self) -> (r: String)
        ensures
            r@ == transcript_error_message(*self),
    {
        let (pre, x) = match self {
            TranscriptError::FfmpegNotFound(m) => ("ffmpeg not found: ", m),
            TranscriptError::NoAudioStream(p) => ("source file has no audio stream: ", p),
            TranscriptError::FfmpegFailed(m) => ("ffmpeg failed: ", m),
            TranscriptError::Io(m) => ("", m),
        };
        let mut r = owned(pre);
        push_str(&mut r, x.as_str());
        proof {
            reveal_strlit("");
        }
        r
    }
}

/// The arguments that extract 16 kHz mono PCM audio from `source` into
/// `output` (for whisper).
pub open spec fn audio_args_spec(source: Seq<char>, output: Seq<char>) -> Seq<Seq<char>> {
    seq!["-y"@, "-i"@, source, "-vn"@, "-acodec"@, "pcm_s16le"@, "-ar"@, "16000"@, "-ac"@, "1"@, output]
}

/// The ffmpeg arguments of an audio extraction (see `audio_args_spec`).
pub fn extract_audio_args(source: &str, output: &str) -> (r: Vec<String>)
    ensures
        args_view(r@) == audio_args_spec(source@, output@),
{
    let mut a: Vec<String> = Vec::new();
    a.push(owned("-y"));
    a.push(owned("-i"));
    a.push(owned(source));
    a.push(owned("-vn"));
    a.push(owned("-acodec"));
    a.push(owned("pcm_s16le"));
    a.push(owned("-ar"));
    a.push(owned("16000"));
    a.push(owned("-ac"));
    a.push(owned("1"));
    a.push(owned(output));
    assert(args_view(a@) =~= audio_args_spec(source@, output@));
    a
}

/// Whether `p` occurs in `s`.
pub open spec fn contains_text(s: Seq<char>, p: Seq<char>) -> bool {
    exists|i: int| has_at(s, i, p)
}

/// Whether `p` occurs in `s`.
pub fn contains_str(s: &str, p: &str) -> (r: bool)
    ensures
        r == contains_text(s@, p@),
{
    let c = chars_of(s);
    let q = chars_of(p);
    if q.len() > c.len() {
        assert forall|i: int| !has_at(s@, i, p@) by {}
        return false;
    }
    let mut i: usize = 0;
    while i <= c.len() - q.len()
        invariant
            c@ == s@,
            q@ == p@,
            q.len() <= c.len(),
            i <= c.len() - q.len() + 1,
            forall|k: int| 0 <= k < i ==> !has_at(s@, k, p@),
        decreases c.len() - q.len() + 1 - i,
    {
        let mut j: usize = 0;
        let mut same = true;
        while j < q.len()
            invariant
                c@ == s@,
                q@ == p@,
                i + q.len() <= c.len(),
                j <= q.len(),
                same <==> forall|m: int| 0 <= m < j ==> c@[i + m] == q@[m],
            decreases q.len() - j,
        {
            if c[i + j] != q[j] {
                same = false;
            }
            j += 1;
        }
        if same {
            assert(c@.subrange(i as int, i + q.len()) =~= q@);
            assert(has_at(s@, i as int, p@));
            return true;
        }
        assert(!has_at(s@, i as int, p@)) by {
            if has_at(s@, i as int, p@) {
                assert forall|m: int| 0 <= m < q.len() implies c@[i + m] == q@[m] by {
                    assert(c@.subrange(i as int, i + q.len())[m] == c@[i + m]);
                }
            }
        }
        i += 1;
    }
    assert forall|k: int| !has_at(s@, k, p@) by {
        if k >= i {
            assert(!(k + p@.len() <= s@.len()));
        }
    }
    false
}

/// The last line of ffmpeg's error output, or `unknown error`.
pub open spec fn last_line(stderr: Seq<char>) -> Seq<char> {
    if lines_of(stderr).len() > 0 { lines_of(stderr).last() } else { "unknown error"@ }
}

/// The last line of a tool's error output (see `last_line`).
pub fn last_line_text(stderr: &str) -> (r: String)
    ensures
        r@ == last_line(stderr@),
{
    let lines = split_lines(stderr);
    if lines.len() > 0 {
        assert(rows_view(lines@).last() == lines@[lines.len() - 1]@);
        string_of(lines[lines.len() - 1].as_slice())
    } else {
        owned("unknown error")
    }
}

/// The result of an audio extraction from `source` into `output`, given
/// whether ffmpeg succeeded and what it wrote to stderr: the output path, a
/// missing audio stream (when ffmpeg said the input has no such stream), or
/// the failure with ffmpeg's last line.
pub fn extract_audio(source: &str, output: &str, succeeded: bool, stderr: &str) -> (r: Result<String, TranscriptError>)
    ensures
        succeeded ==> (r matches Ok(p) && p@ == output@),
        !succeeded && (contains_text(stderr@, "does not contain any stream"@) || contains_text(stderr@, "matches no streams"@) || contains_text(stderr@, "no audio stream"@))
            ==> (r matches Err(TranscriptError::NoAudioStream(p)) && p@ == source@),
        !succeeded && !(contains_text(stderr@, "does not contain any stream"@) || contains_text(stderr@, "matches no streams"@) || contains_text(stderr@, "no audio stream"@))
            ==> (r matches Err(TranscriptError::FfmpegFailed(m)) && m@ == "ffmpeg audio extraction failed: "@ + last_line(stderr@)),
{
    if succeeded {
        return Ok(owned(output));
    }
    if contains_str(stderr, "does not contain any stream") || contains_str(stderr, "matches no streams") || contains_str(stderr, "no audio stream") {
        return Err(TranscriptError::NoAudioStream(owned(source)));
    }
    let lines = split_lines(stderr);
    let mut m = owned("ffmpeg audio extraction failed: ");
    if lines.len() > 0 {
        let last = string_of(lines[lines.len() - 1].as_slice());
        assert(rows_view(lines@).last() == lines@[lines.len() - 1]@);
        push_str(&mut m, last.as_str());
    } else {
        push_str(&mut m, "unknown error");
    }
    Err(TranscriptError::FfmpegFailed(m))
}

} // verus!
