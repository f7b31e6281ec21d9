//! Projects: the manifest of a new project, registering a source, reading the
//! probe of a media file, and the report on external tools. Creating
//! directories, running tools and reading files is left to the caller.
use vstd::prelude::*;
use crate::models::{Defaults, Manifest, Resolution, Source, SourceView};
use crate::ids::{numbered_id, format_id};
use crate::text::{push_str, push_dec, owned, copy_string, str_eq, lines_of, split_lines, rows_view, chars_of, string_of};
use crate::playback::find_binary;

verus! {

broadcast use vstd::string::group_string_axioms;

// ---------------------------------------------------------------------------
// Errors
// ---------------------------------------------------------------------------

/// What can go wrong with a project.
#[derive(Debug, Clone, PartialEq)]
pub enum ProjectError {
    DirectoryExists(String),
    FileNotFound(String),
    NotAVideo { path: String, reason: String },
    FfprobeFailed(String),
    NotAProject,
    Io(String),
    Json(String),
}

/// The message of a project error.
pub open spec fn project_error_message(e: ProjectError) -> Seq<char> {
    match e {
        ProjectError::DirectoryExists(p) => "directory already exists: "@ + p@,
        ProjectError::FileNotFound(p) => "file not found: "@ + p@,
        ProjectError::NotAVideo { path, reason } => "not a video file: "@ + path@ + ": "@ + reason@,
        ProjectError::FfprobeFailed(m) => "ffprobe failed: "@ + m@,
        ProjectError::NotAProject => "not an ar-edit project directory (its manifest is missing)"@,
        ProjectError::Io(m) => m@,
        ProjectError::Json(m) => "failed to parse JSON: "@ + m@,
    }
}

impl ProjectError {
    /// The human-readable message of this error.
    pub fn to_string(&self) -> (r: String)
        ensures
            r@ == project_error_message(*self),
    {
        match self {
            ProjectError::DirectoryExists(p) => {
                let mut r = owned("directory already exists: ");
                push_str(&mut r, p.as_str());
                r
            },
            ProjectError::FileNotFound(p) => {
                let mut r = owned("file not found: ");
                push_str(&mut r, p.as_str());
                r
            },
            ProjectError::NotAVideo { path, reason } => {
                let mut r = owned("not a video file: ");
                push_str(&mut r, path.as_str());
                push_str(&mut r, ": ");
                push_str(&mut r, reason.as_str());
                r
            },
            ProjectError::FfprobeFailed(m) => {
                let mut r = owned("ffprobe failed: ");
                push_str(&mut r, m.as_str());
                r
            },
            ProjectError::NotAProject => owned(
                "not an ar-edit project directory (its manifest is missing)",
            ),
            ProjectError::Io(m) => copy_string(m),
            ProjectError::Json(m) => {
                let mut r = owned("failed to parse JSON: ");
                push_str(&mut r, m.as_str());
                r
            },
        }
    }
}

// ---------------------------------------------------------------------------
// New projects and sources
// ---------------------------------------------------------------------------

/// The subdirectories every project has.
pub open spec fn project_dirs() -> Seq<Seq<char>> {
    seq!["sources"@, "transcripts"@, "index"@, "thumbnails"@, "edits"@, "annotations"@]
}

/// The subdirectories created inside every project.
pub fn project_dir_names() -> (r: Vec<String>)
    ensures
        r@.map_values(|s: String| s@) == project_dirs(),
{
    let r = vec![
        owned("sources"),
        owned("transcripts"),
        owned("index"),
        owned("thumbnails"),
        owned("edits"),
        owned("annotations"),
    ];
    assert(r@.map_values(|s: String| s@) =~= project_dirs());
    r
}

/// The manifest of a new project: version 1.0.0, no sources, the next source
/// numbered 1, and the default settings; named after its directory
/// ("untitled" when the directory has no name).
pub fn new_manifest(dir_name: Option<&str>, created: String) -> (r: Manifest)
    ensures
        r.name@ == (match dir_name {
            Some(n) => n@,
            None => "untitled"@,
        }),
        r.version@ == "1.0.0"@,
        r.created == created,
        r.sources.len() == 0,
        r.next_source_id == 1,
        r.defaults.whisper_model@ == "base"@,
        r.defaults.thumbnail_interval_sec == 10,
        r.defaults.render_codec@ == "h264"@,
        r.defaults.render_container@ == "mp4"@,
{
    let name = match dir_name {
        Some(n) => owned(n),
        None => owned("untitled"),
    };
    Manifest {
        version: owned("1.0.0"),
        name,
        created,
        sources: Vec::new(),
        next_source_id: 1,
        defaults: Defaults {
            whisper_model: owned("base"),
            thumbnail_interval_sec: 10,
            render_codec: owned("h264"),
            render_container: owned("mp4"),
        },
    }
}

/// What probing a media file gave.
#[derive(Debug, Clone, PartialEq)]
pub struct ProbeResult {
    pub duration_ms: u64,
    pub video_codec: String,
    pub audio_codec: String,
    pub resolution: Resolution,
    /// Bit pattern of the `f64` frame rate.
    pub frame_rate_bits: u64,
    pub audio_channels: u8,
    pub audio_sample_rate: u32,
}

/// Position of the first stream of the given type, or -1.
pub open spec fn first_stream(types: Seq<Option<String>>, kind: Seq<char>) -> int
    decreases types.len(),
{
    if types.len() == 0 {
        -1
    } else {
        let k = first_stream(types.drop_last(), kind);
        if k >= 0 {
            k
        } else if types.last() matches Some(t) && t@ == kind {
            types.len() - 1
        } else {
            -1
        }
    }
}

fn find_stream(types: &Vec<Option<String>>, kind: &str) -> (r: Option<usize>)
    ensures
        match r {
            Some(i) => first_stream(types@, kind@) == i,
            None => first_stream(types@, kind@) == -1,
        },
{
    let mut i: usize = 0;
    while i < types.len()
        invariant
            i <= types.len(),
            first_stream(types@.take(i as int), kind@) == -1,
        decreases types.len() - i,
    {
        assert(types@.take(i + 1).drop_last() =~= types@.take(i as int));
        let hit = match &types[i] {
            Some(t) => str_eq(t.as_str(), kind),
            None => false,
        };
        if hit {
            proof {
                lemma_first_stream_extend(types@, i as int, kind@);
            }
            return Some(i);
        }
        i += 1;
    }
    assert(types@.take(types.len() as int) =~= types@);
    None
}

proof fn lemma_first_stream_extend(types: Seq<Option<String>>, i: int, kind: Seq<char>)
    requires
        0 <= i < types.len(),
        first_stream(types.take(i), kind) == -1,
        types[i] matches Some(t) && t@ == kind,
    ensures
        first_stream(types, kind) == i,
    decreases types.len(),
{
    if i == types.len() - 1 {
        assert(types.drop_last() =~= types.take(i));
    } else {
        assert(types.drop_last().take(i) =~= types.take(i));
        lemma_first_stream_extend(types.drop_last(), i, kind);
    }
}

/// The streams a source is read from: the first video stream and the first
/// audio stream, by the codec types the probe reported for each stream; a
/// file without either is not a video.
pub fn pick_streams(codec_types: &Vec<Option<String>>, path: &str) -> (r: Result<
    (usize, usize),
    ProjectError,
>)
    ensures
        ({
            let v = first_stream(codec_types@, "video"@);
            let a = first_stream(codec_types@, "audio"@);
            &&& v < 0 ==> (r matches Err(ProjectError::NotAVideo { path: p, reason }) && p@ == path@
                && reason@ == "no video stream found"@)
            &&& v >= 0 && a < 0 ==> (r matches Err(ProjectError::NotAVideo { path: p, reason })
                && p@ == path@ && reason@ == "no audio stream found"@)
            &&& v >= 0 && a >= 0 ==> r == Ok::<(usize, usize), ProjectError>((v as usize, a as usize))
        }),
{
    let v = match find_stream(codec_types, "video") {
        Some(v) => v,
        None => {
            return Err(
                ProjectError::NotAVideo { path: owned(path), reason: owned("no video stream found") },
            );
        },
    };
    let a = match find_stream(codec_types, "audio") {
        Some(a) => a,
        None => {
            return Err(
                ProjectError::NotAVideo { path: owned(path), reason: owned("no audio stream found") },
            );
        },
    };
    Ok((v, a))
}

/// The source registered from a probed file: numbered with the manifest's
/// next source number, linked as `sources/<id>.<extension>` (`mp4` when the
/// file has no extension), named after the file ("unknown" when it has no
/// name), neither transcribed nor indexed.
pub open spec fn registered(
    n: u32,
    file_name: Option<Seq<char>>,
    extension: Option<Seq<char>>,
    probe: ProbeResult,
    added: Seq<char>,
) -> SourceView {
    let id = numbered_id("src-"@, n);
    SourceView {
        id,
        duration_ms: probe.duration_ms,
        video_codec: probe.video_codec@,
        resolution: probe.resolution,
        transcribed: false,
        indexed: false,
        path: "sources/"@ + id + "."@ + match extension {
            Some(e) => e,
            None => "mp4"@,
        },
        original_filename: match file_name {
            Some(f) => f,
            None => "unknown"@,
        },
    }
}

/// Registers a probed file as a new source of the manifest: the source takes
/// the next source number, which moves on by one, and is appended to the
/// sources. `file_name` and `extension` are those of the file's path.
pub fn register_source(
    manifest: &mut Manifest,
    file_name: Option<&str>,
    extension: Option<&str>,
    probe: &ProbeResult,
    added: String,
) -> (r: Source)
    requires
        old(manifest).next_source_id < u32::MAX,
    ensures
        r@ == registered(
            old(manifest).next_source_id,
            match file_name {
                Some(f) => Some(f@),
                None => None,
            },
            match extension {
                Some(e) => Some(e@),
                None => None,
            },
            *probe,
            added@,
        ),
        r.audio_codec@ == probe.audio_codec@,
        r.frame_rate_bits == probe.frame_rate_bits,
        r.audio_channels == probe.audio_channels,
        r.audio_sample_rate == probe.audio_sample_rate,
        r.added@ == added@,
        final(manifest).next_source_id == old(manifest).next_source_id + 1,
        final(manifest)@ == old(manifest)@.push(r@),
        final(manifest).sources.len() == old(manifest).sources.len() + 1,
        final(manifest).sources@.drop_last() == old(manifest).sources@,
        crate::playback::same_source(final(manifest).sources@.last(), r),
        final(manifest).name == old(manifest).name,
        final(manifest).version == old(manifest).version,
        final(manifest).created == old(manifest).created,
        final(manifest).defaults == old(manifest).defaults,
{
    let n = manifest.next_source_id;
    manifest.next_source_id = n + 1;
    let id = format_id("src-", n);
    let mut path = owned("sources/");
    push_str(&mut path, id.as_str());
    push_str(&mut path, ".");
    match extension {
        Some(e) => push_str(&mut path, e),
        None => push_str(&mut path, "mp4"),
    }
    let original_filename = match file_name {
        Some(f) => owned(f),
        None => owned("unknown"),
    };
    let source = Source {
        id,
        path,
        original_filename,
        duration_ms: probe.duration_ms,
        video_codec: copy_string(&probe.video_codec),
        audio_codec: copy_string(&probe.audio_codec),
        resolution: probe.resolution,
        frame_rate_bits: probe.frame_rate_bits,
        audio_channels: probe.audio_channels,
        audio_sample_rate: probe.audio_sample_rate,
        added,
        transcribed: false,
        indexed: false,
    };
    let copy = Source {
        id: copy_string(&source.id),
        path: copy_string(&source.path),
        original_filename: copy_string(&source.original_filename),
        duration_ms: source.duration_ms,
        video_codec: copy_string(&source.video_codec),
        audio_codec: copy_string(&source.audio_codec),
        resolution: source.resolution,
        frame_rate_bits: source.frame_rate_bits,
        audio_channels: source.audio_channels,
        audio_sample_rate: source.audio_sample_rate,
        added: copy_string(&source.added),
        transcribed: false,
        indexed: false,
    };
    let ghost before = manifest.sources@;
    manifest.sources.push(copy);
    assert(manifest@ =~= old(manifest)@.push(source@)) by {
        assert(manifest.sources@ == before.push(copy));
    }
    assert(manifest.sources@.drop_last() =~= before);
    source
}

// ---------------------------------------------------------------------------
// Tool versions
// ---------------------------------------------------------------------------

/// Where a version number starting at `p` ends: decimal digits (any Unicode
/// decimal digit, see `is_decimal`), a dot and digits, then a further dot
/// and digits when they follow; -1 when none starts there.
pub open spec fn version_end(s: Seq<char>, p: int) -> int {
    let a = crate::text::decimals_end(s, p);
    if a == p || a >= s.len() || s[a] != '.' {
        -1
    } else {
        let b = crate::text::decimals_end(s, a + 1);
        if b == a + 1 {
            -1
        } else if b < s.len() && s[b] == '.' && crate::text::decimals_end(s, b + 1) > b + 1 {
            crate::text::decimals_end(s, b + 1)
        } else {
            b
        }
    }
}

/// The first version number in `s` from position `p` on: its start and end.
pub open spec fn first_version(s: Seq<char>, p: int) -> Option<(int, int)>
    decreases s.len() - p,
{
    if p < 0 || p >= s.len() {
        None
    } else if version_end(s, p) >= 0 {
        Some((p, version_end(s, p)))
    } else {
        first_version(s, p + 1)
    }
}

/// The version number a line of a tool's output shows: the leftmost text of
/// the form `digits.digits` or `digits.digits.digits`.
pub open spec fn version_in(line: Seq<char>) -> Option<Seq<char>> {
    match first_version(line, 0) {
        Some((a, b)) => Some(line.subrange(a, b)),
        None => None,
    }
}

fn decimals_from(c: &Vec<char>, j: usize) -> (k: usize)
    requires
        j <= c.len(),
    ensures
        k == crate::text::decimals_end(c@, j as int),
        j <= k <= c.len(),
{
    proof {
        crate::text::lemma_decimals_end(c@, j as int);
    }
    let mut k = j;
    while k < c.len() && crate::text::decimal_char(c[k])
        invariant
            j <= k <= c.len(),
            crate::text::decimals_end(c@, j as int) == crate::text::decimals_end(c@, k as int),
        decreases c.len() - k,
    {
        k += 1;
    }
    k
}

fn version_end_at(c: &Vec<char>, p: usize) -> (r: Option<usize>)
    requires
        p <= c.len(),
    ensures
        match r {
            Some(e) => version_end(c@, p as int) == e && p < e <= c.len(),
            None => version_end(c@, p as int) == -1,
        },
{
    let a = decimals_from(c, p);
    if a == p || a >= c.len() || c[a] != '.' {
        return None;
    }
    let b = decimals_from(c, a + 1);
    if b == a + 1 {
        return None;
    }
    if b < c.len() && c[b] == '.' {
        let d = decimals_from(c, b + 1);
        if d > b + 1 {
            return Some(d);
        }
    }
    Some(b)
}

/// The version number a line of a tool's output shows, if any.
pub fn extract_version(line: &str) -> (r: Option<String>)
    ensures
        match version_in(line@) {
            Some(v) => r matches Some(x) && x@ == v,
            None => r is None,
        },
{
    let c = chars_of(line);
    let mut p: usize = 0;
    while p < c.len()
        invariant
            p <= c.len(),
            c@ == line@,
            first_version(c@, 0) == first_version(c@, p as int),
        decreases c.len() - p,
    {
        match version_end_at(&c, p) {
            Some(e) => {
                let mut v: Vec<char> = Vec::new();
                let mut k = p;
                while k < e
                    invariant
                        p <= k <= e <= c.len(),
                        v@ == c@.subrange(p as int, k as int),
                    decreases e - k,
                {
                    v.push(c[k]);
                    assert(v@ =~= c@.subrange(p as int, k + 1));
                    k += 1;
                }
                return Some(string_of(v.as_slice()));
            },
            None => {},
        }
        p += 1;
    }
    None
}

/// The version a tool reported on the first line of its output.
pub fn version_from_output(stdout: &str) -> (r: Option<String>)
    ensures
        lines_of(stdout@).len() == 0 ==> r is None,
        lines_of(stdout@).len() > 0 ==> match version_in(lines_of(stdout@)[0]) {
            Some(v) => r matches Some(x) && x@ == v,
            None => r is None,
        },
{
    let lines = split_lines(stdout);
    if lines.len() == 0 {
        return None;
    }
    assert(lines@[0]@ == lines_of(stdout@)[0]);
    let first = string_of(lines[0].as_slice());
    extract_version(first.as_str())
}

// ---------------------------------------------------------------------------
// External tools
// ---------------------------------------------------------------------------

/// The platform the hints are written for.
#[derive(Debug, Clone, Copy, PartialEq, Eq, Structural)]
pub enum Platform {
    MacOs,
    Linux,
    Other,
}

/// Whether an external tool was found: where, which version, what can stand
/// in for it, and how to install it.
#[derive(Debug, Clone, PartialEq)]
pub struct DepStatus {
    pub found: bool,
    pub path: Option<String>,
    pub version: Option<String>,
    pub fallback: Option<String>,
    pub install_hint: Option<String>,
}

/// The presence and version of each external tool.
#[derive(Debug, Clone, PartialEq)]
pub struct DoctorResult {
    pub ffmpeg: DepStatus,
    pub ffprobe: DepStatus,
    pub whisper: DepStatus,
    pub vlc: DepStatus,
}

/// How to install a missing tool on a platform.
pub open spec fn install_hint(dep: Seq<char>, platform: Platform) -> Option<Seq<char>> {
    match platform {
        Platform::MacOs => if dep == "ffmpeg"@ || dep == "ffprobe"@ || dep == "ffplay"@ {
            Some("brew install ffmpeg"@)
        } else if dep == "whisper-cli"@ {
            Some("brew install whisper-cpp"@)
        } else if dep == "vlc"@ {
            Some("brew install --cask vlc"@)
        } else {
            None
        },
        Platform::Linux => if dep == "ffmpeg"@ || dep == "ffprobe"@ || dep == "ffplay"@ {
            Some("sudo apt install ffmpeg"@)
        } else if dep == "whisper-cli"@ {
            Some("see https://github.com/ggerganov/whisper.cpp"@)
        } else if dep == "vlc"@ {
            Some("sudo apt install vlc"@)
        } else {
            None
        },
        Platform::Other => None,
    }
}

/// Returns a platform-specific install hint for a missing tool.
pub fn install_hint_for(dep: &str, platform: Platform) -> (r: Option<String>)
    ensures
        match install_hint(dep@, platform) {
            Some(h) => r matches Some(x) && x@ == h,
            None => r is None,
        },
{
    let is_ffmpeg = str_eq(dep, "ffmpeg") || str_eq(dep, "ffprobe") || str_eq(dep, "ffplay");
    match platform {
        Platform::MacOs => {
            if is_ffmpeg {
                Some(owned("brew install ffmpeg"))
            } else if str_eq(dep, "whisper-cli") {
                Some(owned("brew install whisper-cpp"))
            } else if str_eq(dep, "vlc") {
                Some(owned("brew install --cask vlc"))
            } else {
                None
            }
        },
        Platform::Linux => {
            if is_ffmpeg {
                Some(owned("sudo apt install ffmpeg"))
            } else if str_eq(dep, "whisper-cli") {
                Some(owned("see https://github.com/ggerganov/whisper.cpp"))
            } else if str_eq(dep, "vlc") {
                Some(owned("sudo apt install vlc"))
            } else {
                None
            }
        },
        Platform::Other => None,
    }
}

/// The view of an optional string.
pub open spec fn opt_seq(o: Option<String>) -> Option<Seq<char>> {
    match o {
        Some(s) => Some(s@),
        None => None,
    }
}

/// Looks a tool up on the `PATH` (`which::which`); where it is depends on the
/// system.
pub fn locate_dep(name: &str) -> Option<String> {
    find_binary(name)
}

/// The status of a tool from where it was found and the version it reported:
/// found with its path and version, or missing with an install hint.
pub fn dep_status(name: &str, path: Option<String>, version: Option<String>, platform: Platform) -> (r:
    DepStatus)
    ensures
        match path {
            Some(p) => r.found && r.path == Some(p) && r.version == version && r.fallback is None
                && r.install_hint is None,
            None => !r.found && r.path is None && r.version is None && r.fallback is None
                && opt_seq(r.install_hint) == install_hint(name@, platform),
        },
{
    match path {
        Some(p) => DepStatus {
            found: true,
            path: Some(p),
            version,
            fallback: None,
            install_hint: None,
        },
        None => {
            let hint = install_hint_for(name, platform);
            DepStatus { found: false, path: None, version: None, fallback: None, install_hint: hint }
        },
    }
}

/// The report on external tools: each tool's status as found; a missing VLC
/// names ffplay as the fallback when ffplay was found, and how to install VLC.
pub fn doctor(
    ffmpeg: DepStatus,
    ffprobe: DepStatus,
    whisper: DepStatus,
    vlc: DepStatus,
    ffplay_found: bool,
    platform: Platform,
) -> (r: DoctorResult)
    ensures
        r.ffmpeg == ffmpeg,
        r.ffprobe == ffprobe,
        r.whisper == whisper,
        vlc.found ==> r.vlc == vlc,
        !vlc.found ==> {
            &&& !r.vlc.found
            &&& r.vlc.path is None
            &&& r.vlc.version is None
            &&& opt_seq(r.vlc.fallback) == if ffplay_found {
                Some("ffplay"@)
            } else {
                None
            }
            &&& opt_seq(r.vlc.install_hint) == install_hint("vlc"@, platform)
        },
{
    let vlc = if vlc.found {
        vlc
    } else {
        DepStatus {
            found: false,
            path: None,
            version: None,
            fallback: if ffplay_found {
                Some(owned("ffplay"))
            } else {
                None
            },
            install_hint: install_hint_for("vlc", platform),
        }
    };
    DoctorResult { ffmpeg, ffprobe, whisper, vlc }
}

} // verus!
