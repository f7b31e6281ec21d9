//! Rendering an edit: the output options, the encoding decided for the
//! whole render and for each segment, and the ffmpeg arguments that extract
//! the segments and join them.
use vstd::prelude::*;
use crate::models::{Manifest, SourceView};
use crate::display::{ResolvedShot, SourceData, data_view, resolve_edit, resolved_all, resolved_view};
use crate::models::EditDocument;
use crate::resolve::resolve_error_message;
use crate::transcript::{last_line, last_line_text};
use crate::overlay::{OverlayMode, OverlayInfo, build_drawtext_filter, full_filter, minimal_filter, seconds_text};
use crate::playback::{PlaybackError, args_view, playback_error_message};
use crate::paths::{joined, join_path};
use crate::text::{
    u32_text, read_u32_text, push_str, push_dec, push_dec_pad, owned, copy_string, chars_of, dec, dec_pad, digits_value,
    str_eq, join, strings_view, join_strings,
};

verus! {

broadcast use vstd::string::group_string_axioms;

// ---------------------------------------------------------------------------
// Errors
// ---------------------------------------------------------------------------

/// What can go wrong rendering an edit.
#[derive(Debug, Clone, PartialEq)]
pub enum RenderError {
    FfmpegFailed(String),
    EmptyEdit,
    InvalidResolution(String),
    Display(String),
    Playback(PlaybackError),
    Project(String),
    Subtitle(String),
    Io(String),
}

/// The message of a render error.
pub open spec fn render_error_message(e: RenderError) -> Seq<char> {
    match e {
        RenderError::FfmpegFailed(m) => "ffmpeg failed: "@ + m@,
        RenderError::EmptyEdit => "edit has no shots"@,
        RenderError::InvalidResolution(s) => "invalid resolution format: "@ + s@
            + " (expected WxH, e.g. 1920x1080)"@,
        RenderError::Display(m) => m@,
        RenderError::Playback(p) => playback_error_message(p),
        RenderError::Project(m) => m@,
        RenderError::Subtitle(m) => m@,
        RenderError::Io(m) => m@,
    }
}

impl RenderError {
    /// The human-readable message of this error.
    pub fn to_string(&self) -> (r: String)
        ensures
            r@ == render_error_message(*self),
    {
        match self {
            RenderError::FfmpegFailed(m) => {
                let mut r = owned("ffmpeg failed: ");
                push_str(&mut r, m.as_str());
                r
            },
            RenderError::EmptyEdit => owned("edit has no shots"),
            RenderError::InvalidResolution(s) => {
                let mut r = owned("invalid resolution format: ");
                push_str(&mut r, s.as_str());
                push_str(&mut r, " (expected WxH, e.g. 1920x1080)");
                r
            },
            RenderError::Display(m) => copy_string(m),
            RenderError::Playback(p) => p.to_string(),
            RenderError::Project(m) => copy_string(m),
            RenderError::Subtitle(m) => copy_string(m),
            RenderError::Io(m) => copy_string(m),
        }
    }
}

// ---------------------------------------------------------------------------
// Options
// ---------------------------------------------------------------------------

/// What the output should be: its video codec and resolution (by default
/// those of the sources, or H.264 at the largest resolution when they
/// differ), and whether subtitles are embedded.
#[derive(Debug)]
pub struct RenderOptions {
    pub video_codec: Option<String>,
    pub resolution: Option<(u32, u32)>,
    pub subtitles: bool,
}

impl Default for RenderOptions {
    fn default() -> (r: RenderOptions)
        ensures
            r.video_codec is None,
            r.resolution is None,
            !r.subtitles,
    {
        RenderOptions { video_codec: None, resolution: None, subtitles: false }
    }
}

/// Splitting `s` at `x`, as far as it has been read.
pub open spec fn x_acc(s: Seq<char>) -> (Seq<Seq<char>>, Seq<char>)
    decreases s.len(),
{
    if s.len() == 0 {
        (Seq::empty(), Seq::empty())
    } else {
        let (done, cur) = x_acc(s.drop_last());
        if s.last() == 'x' {
            (done.push(cur), Seq::empty())
        } else {
            (done, cur.push(s.last()))
        }
    }
}

/// The `x`-separated parts of `s`.
pub open spec fn x_parts(s: Seq<char>) -> Seq<Seq<char>> {
    x_acc(s).0.push(x_acc(s).1)
}

/// A resolution written `WxH` with both sides positive.
pub open spec fn resolution_of(s: Seq<char>) -> Option<(u32, u32)> {
    let p = x_parts(s);
    if p.len() == 2 {
        match (u32_text(p[0]), u32_text(p[1])) {
            (Some(w), Some(h)) => if w > 0 && h > 0 { Some((w, h)) } else { None },
            _ => None,
        }
    } else {
        None
    }
}

/// Reading text without an `x` only extends the part being read.
proof fn lemma_x_acc_plain(p: Seq<char>, a: Seq<char>)
    requires
        forall|k: int| 0 <= k < a.len() ==> a[k] != 'x',
    ensures
        x_acc(p + a) == (x_acc(p).0, x_acc(p).1 + a),
    decreases a.len(),
{
    if a.len() == 0 {
        assert(p + a =~= p);
        assert(x_acc(p).1 + a =~= x_acc(p).1);
    } else {
        lemma_x_acc_plain(p, a.drop_last());
        assert((p + a).drop_last() =~= p + a.drop_last());
        assert((p + a).last() == a.last());
        assert((x_acc(p).1 + a.drop_last()).push(a.last()) =~= x_acc(p).1 + a);
    }
}

/// The digits of a number read back as that number, when it fits in a `u32`.
proof fn lemma_u32_text_dec(n: u32)
    ensures
        u32_text(dec(n as nat)) == Some(n),
{
    let d = dec(n as nat);
    crate::text::lemma_dec_digits(n as nat);
    crate::text::lemma_dec_len(n as nat);
    assert(crate::text::is_digit(d[0]));
    assert(d.subrange(0, d.len() as int) =~= d);
}

/// A resolution written `WxH` from two numbers reads back as those numbers
/// when both are positive, and is refused when either is 0.
pub proof fn law_resolution_reads_back(w: u32, h: u32)
    ensures
        resolution_of(dec(w as nat) + "x"@ + dec(h as nat)) == (if w > 0 && h > 0 {
            Some((w, h))
        } else {
            None::<(u32, u32)>
        }),
{
    reveal_strlit("x");
    let dw = dec(w as nat);
    let dh = dec(h as nat);
    crate::text::lemma_dec_digits(w as nat);
    crate::text::lemma_dec_digits(h as nat);
    assert forall|k: int| 0 <= k < dw.len() implies dw[k] != 'x' by {
        assert(crate::text::is_digit(dw[k]));
    }
    assert forall|k: int| 0 <= k < dh.len() implies dh[k] != 'x' by {
        assert(crate::text::is_digit(dh[k]));
    }
    lemma_x_acc_plain(Seq::empty(), dw);
    assert(Seq::<char>::empty() + dw =~= dw);
    assert(x_acc(Seq::<char>::empty()) == (Seq::<Seq<char>>::empty(), Seq::<char>::empty()));
    assert(Seq::<char>::empty() + dw == dw);
    let p = dw + "x"@;
    assert(p =~= dw.push('x'));
    assert(p.drop_last() =~= dw);
    assert(x_acc(p) == (seq![dw], Seq::<char>::empty())) by {
        assert(Seq::<Seq<char>>::empty().push(dw) =~= seq![dw]);
        assert(Seq::<char>::empty() + dw =~= dw);
    }
    lemma_x_acc_plain(p, dh);
    assert(Seq::<char>::empty() + dh =~= dh);
    assert(x_parts(p + dh) =~= seq![dw, dh]);
    lemma_u32_text_dec(w);
    lemma_u32_text_dec(h);
}

/// Resolves every shot of an edit for a preview: the shots resolved against
/// their sources' data, the resolution's error as a display error, or
/// `EmptyEdit` when the edit has no shots.
pub fn resolve_preview(doc: &EditDocument, data: &Vec<SourceData>) -> (r: Result<Vec<ResolvedShot>, RenderError>)
    ensures
        match resolved_all(doc@.shots, data_view(data@)) {
            Ok(v) => if v.len() == 0 {
                r == Err::<Vec<ResolvedShot>, RenderError>(RenderError::EmptyEdit)
            } else {
                r matches Ok(x) && resolved_view(x@) == v
            },
            Err(e) => r matches Err(RenderError::Display(m)) && m@ == resolve_error_message(e),
        },
{
    match resolve_edit(doc, data) {
        Ok(v) => {
            if v.len() == 0 {
                Err(RenderError::EmptyEdit)
            } else {
                Ok(v)
            }
        },
        Err(e) => Err(RenderError::Display(e.to_string())),
    }
}

/// Parses a resolution written `WxH` (e.g. `1920x1080`).
pub fn parse_resolution(s: &str) -> (r: Result<(u32, u32), RenderError>)
    ensures
        match resolution_of(s@) {
            Some(wh) => r == Ok::<(u32, u32), RenderError>(wh),
            None => r matches Err(RenderError::InvalidResolution(t)) && t@ == s@,
        },
{
    let c = chars_of(s);
    let mut parts: Vec<Vec<char>> = Vec::new();
    let mut cur: Vec<char> = Vec::new();
    let mut i: usize = 0;
    while i < c.len()
        invariant
            i <= c.len(),
            c@ == s@,
            (crate::text::rows_view(parts@), cur@) == x_acc(c@.take(i as int)),
        decreases c.len() - i,
    {
        assert(c@.take(i + 1).drop_last() =~= c@.take(i as int));
        if c[i] == 'x' {
            let part = cur;
            cur = Vec::new();
            let ghost before = crate::text::rows_view(parts@);
            parts.push(part);
            assert(crate::text::rows_view(parts@) =~= before.push(x_acc(c@.take(i as int)).1));
        } else {
            cur.push(c[i]);
        }
        i += 1;
    }
    assert(c@.take(c.len() as int) =~= c@);
    let ghost before = crate::text::rows_view(parts@);
    parts.push(cur);
    assert(crate::text::rows_view(parts@) =~= before.push(x_acc(c@).1));
    let ghost pv = crate::text::rows_view(parts@);
    if parts.len() != 2 {
        return Err(RenderError::InvalidResolution(owned(s)));
    }
    assert(pv[0] == parts@[0]@);
    assert(pv[1] == parts@[1]@);
    match (read_u32_text(&parts[0]), read_u32_text(&parts[1])) {
        (Some(w), Some(h)) => {
            if w == 0 || h == 0 {
                Err(RenderError::InvalidResolution(owned(s)))
            } else {
                Ok((w, h))
            }
        },
        _ => Err(RenderError::InvalidResolution(owned(s))),
    }
}

// ---------------------------------------------------------------------------
// Codecs
// ---------------------------------------------------------------------------

/// The canonical name of a codec: `avc`, `libx264` and `h264` are `h264`;
/// `hevc`, `libx265` and `h265` are `h265`; `libvpx-vp9` and `vp9` are
/// `vp9`; `libaom-av1`, `libsvtav1` and `av1` are `av1`; any other name is
/// its own.
pub open spec fn canonical_codec(c: Seq<char>) -> Seq<char> {
    if c == "avc"@ || c == "libx264"@ || c == "h264"@ {
        "h264"@
    } else if c == "hevc"@ || c == "libx265"@ || c == "h265"@ {
        "h265"@
    } else if c == "libvpx-vp9"@ || c == "vp9"@ {
        "vp9"@
    } else if c == "libaom-av1"@ || c == "libsvtav1"@ || c == "av1"@ {
        "av1"@
    } else {
        c
    }
}

/// Normalising a codec name twice gives what normalising it once does.
pub proof fn law_normalize_codec_idempotent(c: Seq<char>)
    ensures
        canonical_codec(canonical_codec(c)) == canonical_codec(c),
{
    lemma_codec_names();
}

/// The encoder of a codec is the encoder of its normalised name, and
/// normalising the encoder gives the codec's normalised name.
pub proof fn law_encoder_follows_normal_name(c: Seq<char>)
    ensures
        encoder_for(c) == encoder_for(canonical_codec(c)),
        canonical_codec(encoder_for(c)) == canonical_codec(c),
{
    lemma_codec_names();
    law_normalize_codec_idempotent(c);
}

/// What normalising gives for the four normal names and their encoders,
/// and that the four normal names differ.
proof fn lemma_codec_names()
    ensures
        canonical_codec("h264"@) == "h264"@,
        canonical_codec("h265"@) == "h265"@,
        canonical_codec("vp9"@) == "vp9"@,
        canonical_codec("av1"@) == "av1"@,
        canonical_codec("libx264"@) == "h264"@,
        canonical_codec("libx265"@) == "h265"@,
        canonical_codec("libvpx-vp9"@) == "vp9"@,
        canonical_codec("libsvtav1"@) == "av1"@,
        "h264"@ != "h265"@,
        "h264"@ != "vp9"@,
        "h264"@ != "av1"@,
        "h265"@ != "vp9"@,
        "h265"@ != "av1"@,
        "vp9"@ != "av1"@,
{
    reveal_strlit("avc");
    reveal_strlit("libx264");
    reveal_strlit("h264");
    reveal_strlit("hevc");
    reveal_strlit("libx265");
    reveal_strlit("h265");
    reveal_strlit("libvpx-vp9");
    reveal_strlit("vp9");
    reveal_strlit("libaom-av1");
    reveal_strlit("libsvtav1");
    reveal_strlit("av1");
    assert("h265"@ != "h264"@) by {
        assert("h265"@[3] != "h264"@[3]);
    }
    assert("libx265"@ != "libx264"@) by {
        assert("libx265"@[6] != "libx264"@[6]);
    }
    assert("h264"@ != "hevc"@) by {
        assert("h264"@[1] != "hevc"@[1]);
    }
    assert("h265"@ != "hevc"@) by {
        assert("h265"@[1] != "hevc"@[1]);
    }
    assert("vp9"@ != "avc"@) by {
        assert("vp9"@[0] != "avc"@[0]);
    }
    assert("av1"@ != "avc"@) by {
        assert("av1"@[2] != "avc"@[2]);
    }
    assert("av1"@ != "vp9"@) by {
        assert("av1"@[0] != "vp9"@[0]);
    }
    assert("libvpx-vp9"@ != "libaom-av1"@) by {
        assert("libvpx-vp9"@[3] != "libaom-av1"@[3]);
    }
    assert("libvpx-vp9"@ != "avc"@ && "libvpx-vp9"@ != "libx264"@ && "libvpx-vp9"@ != "h264"@) by {
        assert("libvpx-vp9"@.len() == 10);
    }
    assert("libvpx-vp9"@ != "hevc"@ && "libvpx-vp9"@ != "libx265"@ && "libvpx-vp9"@ != "h265"@) by {
        assert("libvpx-vp9"@.len() == 10);
    }
    assert("libsvtav1"@ != "avc"@ && "libsvtav1"@ != "libx264"@ && "libsvtav1"@ != "h264"@) by {
        assert("libsvtav1"@.len() == 9);
    }
    assert("libsvtav1"@ != "hevc"@ && "libsvtav1"@ != "libx265"@ && "libsvtav1"@ != "h265"@) by {
        assert("libsvtav1"@.len() == 9);
    }
    assert("libsvtav1"@ != "vp9"@ && "libsvtav1"@ != "libaom-av1"@) by {
        assert("libsvtav1"@.len() == 9);
    }
    assert("libsvtav1"@ != "libvpx-vp9"@) by {
        assert("libsvtav1"@.len() != "libvpx-vp9"@.len());
    }
    assert("libx265"@ != "avc"@) by {
        assert("libx265"@.len() != "avc"@.len());
    }
    assert("libx265"@ != "h264"@) by {
        assert("libx265"@.len() != "h264"@.len());
    }
}

/// Normalises a codec name for comparison (see `canonical_codec`).
pub fn normalize_codec(codec: &str) -> (r: &str)
    ensures
        r@ == canonical_codec(codec@),
{
    if str_eq(codec, "avc") || str_eq(codec, "libx264") || str_eq(codec, "h264") {
        "h264"
    } else if str_eq(codec, "hevc") || str_eq(codec, "libx265") || str_eq(codec, "h265") {
        "h265"
    } else if str_eq(codec, "libvpx-vp9") || str_eq(codec, "vp9") {
        "vp9"
    } else if str_eq(codec, "libaom-av1") || str_eq(codec, "libsvtav1") || str_eq(codec, "av1") {
        "av1"
    } else {
        codec
    }
}

/// The ffmpeg encoder for a codec: `libx264`, `libx265`, `libvpx-vp9` and
/// `libsvtav1` for the four known codecs, otherwise the name given.
pub open spec fn encoder_for(c: Seq<char>) -> Seq<char> {
    let n = canonical_codec(c);
    if n == "h264"@ {
        "libx264"@
    } else if n == "h265"@ {
        "libx265"@
    } else if n == "vp9"@ {
        "libvpx-vp9"@
    } else if n == "av1"@ {
        "libsvtav1"@
    } else {
        c
    }
}

/// Maps a codec name to the ffmpeg encoder name (see `encoder_for`).
pub fn ffmpeg_video_encoder(codec: &str) -> (r: &str)
    ensures
        r@ == encoder_for(codec@),
{
    let n = normalize_codec(codec);
    if str_eq(n, "h264") {
        "libx264"
    } else if str_eq(n, "h265") {
        "libx265"
    } else if str_eq(n, "vp9") {
        "libvpx-vp9"
    } else if str_eq(n, "av1") {
        "libsvtav1"
    } else {
        codec
    }
}

// ---------------------------------------------------------------------------
// Encoding for the whole render
// ---------------------------------------------------------------------------

/// What the encoding decisions read of a source.
#[derive(Debug, PartialEq)]
pub struct SourceInfo {
    pub id: String,
    pub video_codec: String,
    pub resolution: (u32, u32),
}

pub open spec fn info_view(i: SourceInfo) -> (Seq<char>, Seq<char>, (u32, u32)) {
    (i.id@, i.video_codec@, i.resolution)
}

pub open spec fn infos_view(v: Seq<SourceInfo>) -> Seq<(Seq<char>, Seq<char>, (u32, u32))> {
    v.map_values(|i: SourceInfo| info_view(i))
}

/// The encoding of a render: the target codec (canonical name) and
/// resolution, each `None` when the sources can be copied as they are, and
/// what is known of the sources the edit uses.
#[derive(Debug)]
pub struct EncodeParams {
    pub target_codec: Option<String>,
    pub target_resolution: Option<(u32, u32)>,
    pub source_info: Vec<SourceInfo>,
}

/// The views of resolved shots.
pub open spec fn shots_res_view(v: Seq<ResolvedShot>) -> Seq<crate::display::ResolvedView> {
    v.map_values(|r: ResolvedShot| r@)
}

/// Whether some shot uses source `id`.
pub open spec fn referenced(rs: Seq<crate::display::ResolvedView>, id: Seq<char>) -> bool {
    exists|i: int| 0 <= i < rs.len() && #[trigger] rs[i].source == id
}

/// The manifest's sources that some shot uses, in manifest order.
pub open spec fn used_sources(ss: Seq<SourceView>, rs: Seq<crate::display::ResolvedView>) -> Seq<(Seq<char>, Seq<char>, (u32, u32))>
    decreases ss.len(),
{
    if ss.len() == 0 {
        Seq::empty()
    } else {
        let prev = used_sources(ss.drop_last(), rs);
        let s = ss.last();
        if referenced(rs, s.id) {
            prev.push((s.id, s.video_codec, (s.resolution.width, s.resolution.height)))
        } else {
            prev
        }
    }
}

/// The pixel count of a resolution.
pub open spec fn area(r: (u32, u32)) -> int {
    r.0 * r.1
}

/// The largest resolution among the first `k` sources (the last of the
/// largest, where several share the pixel count).
pub open spec fn largest(infos: Seq<(Seq<char>, Seq<char>, (u32, u32))>, k: int) -> (u32, u32)
    decreases k,
{
    if k <= 1 {
        infos[0].2
    } else {
        let b = largest(infos, k - 1);
        if area(infos[k - 1].2) >= area(b) { infos[k - 1].2 } else { b }
    }
}

/// The target codec: the one asked for; otherwise none when all sources
/// share a codec, and `h264` when they differ.
pub open spec fn target_codec_of(infos: Seq<(Seq<char>, Seq<char>, (u32, u32))>, asked: Option<Seq<char>>) -> Option<Seq<char>> {
    match asked {
        Some(c) => Some(canonical_codec(c)),
        None => if infos.len() > 0 {
            if forall|i: int| 0 <= i < infos.len() ==> canonical_codec(#[trigger] infos[i].1) == canonical_codec(infos[0].1) {
                None
            } else {
                Some("h264"@)
            }
        } else {
            None
        },
    }
}

/// The target resolution: the one asked for; otherwise none when all
/// sources share a resolution, and the largest when they differ.
pub open spec fn target_resolution_of(infos: Seq<(Seq<char>, Seq<char>, (u32, u32))>, asked: Option<(u32, u32)>) -> Option<(u32, u32)> {
    match asked {
        Some(r) => Some(r),
        None => if infos.len() > 0 {
            let m = largest(infos, infos.len() as int);
            if forall|i: int| 0 <= i < infos.len() ==> #[trigger] infos[i].2 == m {
                None
            } else {
                Some(m)
            }
        } else {
            None
        },
    }
}

/// The view of an optional string.
pub open spec fn ostr(o: Option<String>) -> Option<Seq<char>> {
    match o {
        Some(s) => Some(s@),
        None => None,
    }
}

/// Whether some shot uses source `id`.
fn is_referenced(resolved: &Vec<ResolvedShot>, id: &str) -> (r: bool)
    ensures
        r == referenced(shots_res_view(resolved@), id@),
{
    let ghost rv = shots_res_view(resolved@);
    let mut i: usize = 0;
    while i < resolved.len()
        invariant
            i <= resolved.len(),
            rv == shots_res_view(resolved@),
            forall|q: int| 0 <= q < i ==> rv[q].source != id@,
        decreases resolved.len() - i,
    {
        assert(rv[i as int] == resolved@[i as int]@);
        if str_eq(resolved[i].source.as_str(), id) {
            assert(rv[i as int].source == id@);
            return true;
        }
        i += 1;
    }
    false
}

/// Decides the encoding of a render from its shots, the manifest (when it
/// could be read) and the options (see `target_codec_of` and
/// `target_resolution_of`).
pub fn resolve_encode_params(resolved: &Vec<ResolvedShot>, manifest: Option<&Manifest>, options: &RenderOptions) -> (r: EncodeParams)
    ensures
        infos_view(r.source_info@) == (match manifest {
            Some(m) => used_sources(m@, shots_res_view(resolved@)),
            None => Seq::empty(),
        }),
        ostr(r.target_codec) == target_codec_of(infos_view(r.source_info@), ostr(options.video_codec)),
        r.target_resolution == target_resolution_of(infos_view(r.source_info@), options.resolution),
{
    let mut info: Vec<SourceInfo> = Vec::new();
    match manifest {
        Some(m) => {
            let ghost sv = m@;
            let mut i: usize = 0;
            assert(sv.take(0) =~= Seq::<SourceView>::empty());
            assert(infos_view(info@) =~= Seq::<(Seq<char>, Seq<char>, (u32, u32))>::empty());
            while i < m.sources.len()
                invariant
                    i <= m.sources.len(),
                    sv == m@,
                    sv.len() == m.sources.len(),
                    infos_view(info@) == used_sources(sv.take(i as int), shots_res_view(resolved@)),
                decreases m.sources.len() - i,
            {
                let s = &m.sources[i];
                assert(sv[i as int] == s@);
                assert(sv.take(i + 1).drop_last() =~= sv.take(i as int));
                if is_referenced(resolved, s.id.as_str()) {
                    let ghost before = infos_view(info@);
                    info.push(SourceInfo {
                        id: copy_string(&s.id),
                        video_codec: copy_string(&s.video_codec),
                        resolution: (s.resolution.width, s.resolution.height),
                    });
                    assert(infos_view(info@) =~= before.push((s@.id, s@.video_codec, (s.resolution.width, s.resolution.height))));
                }
                i += 1;
            }
            assert(sv.take(sv.len() as int) =~= sv);
        },
        None => {
            assert(infos_view(info@) =~= Seq::<(Seq<char>, Seq<char>, (u32, u32))>::empty());
        },
    }
    let ghost iv = infos_view(info@);
    // Target codec.
    let target_codec = match &options.video_codec {
        Some(c) => Some(owned(normalize_codec(c.as_str()))),
        None => {
            if info.len() > 0 {
                let first = normalize_codec(info[0].video_codec.as_str());
                assert(iv[0] == info_view(info@[0]));
                let mut same = true;
                let mut k: usize = 0;
                while k < info.len()
                    invariant
                        k <= info.len(),
                        iv == infos_view(info@),
                        info.len() > 0,
                        first@ == canonical_codec(iv[0].1),
                        same <==> forall|q: int| 0 <= q < k ==> canonical_codec(#[trigger] iv[q].1) == canonical_codec(iv[0].1),
                    decreases info.len() - k,
                {
                    assert(iv[k as int] == info_view(info@[k as int]));
                    let eq = str_eq(normalize_codec(info[k].video_codec.as_str()), first);
                    assert(eq == (canonical_codec(iv[k as int].1) == canonical_codec(iv[0].1)));
                    if !eq {
                        same = false;
                    }
                    k += 1;
                }
                if same {
                    None
                } else {
                    Some(owned("h264"))
                }
            } else {
                None
            }
        },
    };
    // Target resolution.
    let target_resolution = match options.resolution {
        Some(r) => Some(r),
        None => {
            if info.len() > 0 {
                let mut best: (u32, u32) = info[0].resolution;
                assert(iv[0] == info_view(info@[0]));
                let mut k: usize = 1;
                while k < info.len()
                    invariant
                        1 <= k <= info.len(),
                        iv == infos_view(info@),
                        best == largest(iv, k as int),
                    decreases info.len() - k,
                {
                    assert(iv[k as int] == info_view(info@[k as int]));
                    let cand = info[k].resolution;
                    let (cw, ch) = (cand.0 as u64, cand.1 as u64);
                    let (bw, bh) = (best.0 as u64, best.1 as u64);
                    assert(cw * ch <= u64::MAX) by (nonlinear_arith)
                        requires cw <= u32::MAX, ch <= u32::MAX;
                    assert(bw * bh <= u64::MAX) by (nonlinear_arith)
                        requires bw <= u32::MAX, bh <= u32::MAX;
                    if cw * ch >= bw * bh {
                        best = cand;
                    }
                    k += 1;
                }
                let mut all_same = true;
                let mut k: usize = 0;
                while k < info.len()
                    invariant
                        k <= info.len(),
                        iv == infos_view(info@),
                        all_same <==> forall|q: int| 0 <= q < k ==> #[trigger] iv[q].2 == best,
                    decreases info.len() - k,
                {
                    assert(iv[k as int] == info_view(info@[k as int]));
                    let differs = info[k].resolution.0 != best.0 || info[k].resolution.1 != best.1;
                    assert(differs == (iv[k as int].2 != best));
                    if differs {
                        all_same = false;
                    }
                    k += 1;
                }
                if all_same {
                    None
                } else {
                    Some(best)
                }
            } else {
                None
            }
        },
    };
    EncodeParams { target_codec, target_resolution, source_info: info }
}

// ---------------------------------------------------------------------------
// Encoding of each segment
// ---------------------------------------------------------------------------

/// How one shot is cut out of its source: with a filter chain and an encoder
/// when it must be re-encoded (`encoder` set), or by the plain extraction
/// otherwise.
#[derive(Debug, PartialEq)]
pub struct SegmentPlan {
    pub shot_id: String,
    pub source: String,
    pub start_ms: u64,
    pub end_ms: u64,
    /// The segment's file name in the work directory.
    pub segment_file: String,
    pub filter: Option<String>,
    pub encoder: Option<String>,
}

/// The time at which shot `i` starts in the edit: the sum of the durations
/// before it.
pub open spec fn offset_before(rs: Seq<crate::display::ResolvedView>, i: int) -> int
    decreases i,
{
    if i <= 0 {
        0
    } else {
        offset_before(rs, i - 1) + rs[i - 1].duration_ms
    }
}

/// The overlay filter of a shot, if the mode has one.
pub open spec fn overlay_of(mode: OverlayMode, shot: crate::display::ResolvedView, offset_ms: u64, font: Seq<char>) -> Option<Seq<char>> {
    match mode {
        OverlayMode::Clean => None,
        OverlayMode::Minimal => Some(minimal_filter(offset_ms, font)),
        OverlayMode::Full => Some(full_filter(
            offset_ms,
            shot.id,
            shot.source,
            match shot.text_preview {
                Some(t) => Some(t),
                None => shot.scene_preview,
            },
            font,
        )),
    }
}

/// The first known source with the given id.
pub open spec fn info_for(infos: Seq<(Seq<char>, Seq<char>, (u32, u32))>, id: Seq<char>) -> Option<(Seq<char>, Seq<char>, (u32, u32))>
    decreases infos.len(),
{
    if infos.len() == 0 {
        None
    } else if infos[0].0 == id {
        Some(infos[0])
    } else {
        info_for(infos.drop_first(), id)
    }
}

/// Whether a shot's video must be re-encoded: its source's codec or
/// resolution differs from the target; for a source not in the manifest,
/// whenever a codec or resolution was asked for.
pub open spec fn needs_reencode(
    info: Option<(Seq<char>, Seq<char>, (u32, u32))>,
    codec: Option<Seq<char>>,
    res: Option<(u32, u32)>,
    asked_codec: bool,
    asked_res: bool,
) -> bool {
    match info {
        Some(i) => (codec matches Some(c) && canonical_codec(i.1) != canonical_codec(c)) || (res matches Some(r) && i.2 != r),
        None => asked_codec || asked_res,
    }
}

/// The filters of a re-encoded segment: scaling to the target resolution
/// when the source differs from it (or is unknown), then the overlay.
pub open spec fn segment_filters(
    info: Option<(Seq<char>, Seq<char>, (u32, u32))>,
    res: Option<(u32, u32)>,
    overlay: Option<Seq<char>>,
) -> Seq<Seq<char>> {
    (match res {
        Some(r) => if (match info { Some(i) => i.2 != r, None => true }) {
            seq!["scale="@ + dec(r.0 as nat) + ":"@ + dec(r.1 as nat)]
        } else {
            Seq::empty()
        },
        None => Seq::empty(),
    }) + (match overlay {
        Some(o) => seq![o],
        None => Seq::empty(),
    })
}

/// The file name of segment `i`: `segment_NNNN.mp4`.
pub open spec fn segment_name(i: nat) -> Seq<char> {
    "segment_"@ + dec_pad(i, 4) + ".mp4"@
}

/// Whether `p` is the plan of shot `shot`, number `i`, starting at
/// `offset_ms` in the edit.
pub open spec fn planned(
    p: SegmentPlan,
    i: nat,
    shot: crate::display::ResolvedView,
    offset_ms: u64,
    mode: OverlayMode,
    font: Seq<char>,
    params: EncodeParams,
    asked_codec: bool,
    asked_res: bool,
) -> bool {
    let info = info_for(infos_view(params.source_info@), shot.source);
    let overlay = overlay_of(mode, shot, offset_ms, font);
    let filters = segment_filters(info, params.target_resolution, overlay);
    &&& p.shot_id@ == shot.id
    &&& p.source@ == shot.source
    &&& p.start_ms == shot.start_ms
    &&& p.end_ms == shot.end_ms
    &&& p.segment_file@ == segment_name(i)
    &&& if overlay is Some || needs_reencode(info, ostr(params.target_codec), params.target_resolution, asked_codec, asked_res) {
        &&& ostr(p.filter) == (if filters.len() > 0 { Some(join(filters, ","@)) } else { None })
        &&& ostr(p.encoder) == Some(match ostr(params.target_codec) {
            Some(c) => encoder_for(c),
            None => "libx264"@,
        })
    } else {
        p.filter is None && p.encoder is None
    }
}

/// The first known source with the given id.
fn find_info<'a>(infos: &'a Vec<SourceInfo>, id: &str) -> (r: Option<&'a SourceInfo>)
    ensures
        match r {
            Some(i) => info_for(infos_view(infos@), id@) == Some(info_view(*i)),
            None => info_for(infos_view(infos@), id@) is None,
        },
{
    let ghost iv = infos_view(infos@);
    let mut i: usize = 0;
    assert(iv.skip(0) =~= iv);
    while i < infos.len()
        invariant
            i <= infos.len(),
            iv == infos_view(infos@),
            info_for(iv, id@) == info_for(iv.skip(i as int), id@),
        decreases infos.len() - i,
    {
        assert(iv.skip(i as int)[0] == info_view(infos@[i as int]));
        assert(iv.skip(i as int).drop_first() =~= iv.skip(i + 1));
        if str_eq(infos[i].id.as_str(), id) {
            return Some(&infos[i]);
        }
        i += 1;
    }
    None
}

/// Plans one segment (see `planned`).
fn plan_segment(
    i: usize,
    shot: &ResolvedShot,
    offset_ms: u64,
    mode: OverlayMode,
    font: &str,
    params: &EncodeParams,
    options: &RenderOptions,
) -> (r: SegmentPlan)
    ensures
        planned(r, i as nat, shot@, offset_ms, mode, font@, *params, options.video_codec is Some, options.resolution is Some),
{
    proof {
        reveal_strlit("segment_");
        reveal_strlit(".mp4");
        reveal_strlit("scale=");
        reveal_strlit(":");
        reveal_strlit(",");
        reveal_strlit("libx264");
    }
    let snippet = match &shot.text_preview {
        Some(t) => Some(copy_string(t)),
        None => match &shot.scene_preview {
            Some(s) => Some(copy_string(s)),
            None => None,
        },
    };
    let info_o = OverlayInfo {
        shot_id: copy_string(&shot.id),
        source_id: copy_string(&shot.source),
        snippet,
        timecode_offset_ms: offset_ms,
    };
    let overlay = build_drawtext_filter(mode, &info_o, font);
    assert(ostr(overlay) == overlay_of(mode, shot@, offset_ms, font@));
    let info = find_info(&params.source_info, shot.source.as_str());
    let ghost info_v = info_for(infos_view(params.source_info@), shot@.source);
    let needs = match info {
        Some(si) => {
            let codec_mismatch = match &params.target_codec {
                Some(c) => !str_eq(normalize_codec(si.video_codec.as_str()), normalize_codec(c.as_str())),
                None => false,
            };
            let res_mismatch = match params.target_resolution {
                Some(r) => si.resolution.0 != r.0 || si.resolution.1 != r.1,
                None => false,
            };
            codec_mismatch || res_mismatch
        },
        None => options.video_codec.is_some() || options.resolution.is_some(),
    };
    assert(needs == needs_reencode(info_v, ostr(params.target_codec), params.target_resolution, options.video_codec is Some, options.resolution is Some));
    let mut name = owned("segment_");
    push_dec_pad(&mut name, i as u64, 4);
    push_str(&mut name, ".mp4");
    let (filter, encoder) = if overlay.is_some() || needs {
        let mut filters: Vec<String> = Vec::new();
        match params.target_resolution {
            Some(r) => {
                let scale = match info {
                    Some(si) => si.resolution.0 != r.0 || si.resolution.1 != r.1,
                    None => true,
                };
                if scale {
                    let mut f = owned("scale=");
                    push_dec(&mut f, r.0 as u64);
                    push_str(&mut f, ":");
                    push_dec(&mut f, r.1 as u64);
                    filters.push(f);
                }
            },
            None => {},
        }
        match &overlay {
            Some(o) => filters.push(copy_string(o)),
            None => {},
        }
        let ghost fs = segment_filters(info_v, params.target_resolution, ostr(overlay));
        assert(strings_view(filters@) =~= fs);
        let filter = if filters.len() > 0 {
            Some(join_strings(&filters, ","))
        } else {
            None
        };
        let encoder = match &params.target_codec {
            Some(c) => owned(ffmpeg_video_encoder(c.as_str())),
            None => owned("libx264"),
        };
        (filter, Some(encoder))
    } else {
        (None, None)
    };
    SegmentPlan {
        shot_id: copy_string(&shot.id),
        source: copy_string(&shot.source),
        start_ms: shot.start_ms,
        end_ms: shot.end_ms,
        segment_file: name,
        filter,
        encoder,
    }
}

/// Plans every segment of a render, in edit order: shot `i` starts in the
/// edit after the durations of the shots before it (which must add up to
/// a `u64`), and its overlay uses the given font specification.
pub fn plan_segments(
    resolved: &Vec<ResolvedShot>,
    params: &EncodeParams,
    mode: OverlayMode,
    options: &RenderOptions,
    font: &str,
) -> (r: Vec<SegmentPlan>)
    requires
        offset_before(shots_res_view(resolved@), resolved.len() as int) <= u64::MAX,
    ensures
        r.len() == resolved.len(),
        forall|i: int|
            0 <= i < r.len() ==> planned(
                #[trigger] r@[i],
                i as nat,
                resolved@[i]@,
                offset_before(shots_res_view(resolved@), i) as u64,
                mode,
                font@,
                *params,
                options.video_codec is Some,
                options.resolution is Some,
            ),
{
    let ghost rv = shots_res_view(resolved@);
    let mut r: Vec<SegmentPlan> = Vec::new();
    let mut offset: u64 = 0;
    let mut i: usize = 0;
    while i < resolved.len()
        invariant
            i <= resolved.len(),
            rv == shots_res_view(resolved@),
            offset_before(rv, resolved.len() as int) <= u64::MAX,
            offset == offset_before(rv, i as int),
            r.len() == i,
            forall|q: int|
                0 <= q < i ==> planned(
                    #[trigger] r@[q],
                    q as nat,
                    resolved@[q]@,
                    offset_before(rv, q) as u64,
                    mode,
                    font@,
                    *params,
                    options.video_codec is Some,
                    options.resolution is Some,
                ),
        decreases resolved.len() - i,
    {
        let p = plan_segment(i, &resolved[i], offset, mode, font, params, options);
        r.push(p);
        proof {
            lemma_offset_grows(rv, i + 1, resolved.len() as int);
        }
        assert(rv[i as int] == resolved@[i as int]@);
        offset = offset + resolved[i].duration_ms;
        i += 1;
    }
    r
}

/// Offsets grow along the edit.
proof fn lemma_offset_grows(rs: Seq<crate::display::ResolvedView>, i: int, j: int)
    requires
        0 <= i <= j,
    ensures
        offset_before(rs, i) <= offset_before(rs, j),
    decreases j - i,
{
    if i < j {
        lemma_offset_grows(rs, i, j - 1);
    }
}

// ---------------------------------------------------------------------------
// ffmpeg arguments
// ---------------------------------------------------------------------------

/// `end - start`, or 0 when the segment ends before it starts.
pub open spec fn span_ms(start_ms: u64, end_ms: u64) -> u64 {
    if end_ms >= start_ms { (end_ms - start_ms) as u64 } else { 0 }
}

/// The uniform audio of every segment: AAC, 48 kHz, stereo.
pub open spec fn audio_args() -> Seq<Seq<char>> {
    seq!["-c:a"@, "aac"@, "-ar"@, "48000"@, "-ac"@, "2"@]
}

/// The default video encoding of a segment: H.264 at CRF 18, 30 fps.
pub open spec fn default_video_args() -> Seq<Seq<char>> {
    seq!["-c:v"@, "libx264"@, "-crf"@, "18"@, "-preset"@, "fast"@, "-pix_fmt"@, "yuv420p"@, "-r"@, "30"@]
}

/// The arguments that cut `[start, end)` out of `source` into `output` with
/// the default encoding (frame-accurate, uniform for concatenation).
pub open spec fn extract_args_spec(source: Seq<char>, start_ms: u64, end_ms: u64, output: Seq<char>) -> Seq<Seq<char>> {
    seq!["-y"@, "-ss"@, seconds_text(start_ms), "-i"@, source, "-t"@, seconds_text(span_ms(start_ms, end_ms)), "-map"@, "0:v:0"@, "-map"@, "0:a:0"@]
        + default_video_args() + audio_args() + seq![output]
}

/// The arguments that cut `[start, end)` out of `source` into `output`
/// with the given encoder and optional filter chain.
pub open spec fn encoded_args_spec(source: Seq<char>, start_ms: u64, end_ms: u64, output: Seq<char>, filter: Option<Seq<char>>, encoder: Seq<char>) -> Seq<Seq<char>> {
    seq!["-y"@, "-ss"@, seconds_text(start_ms), "-i"@, source, "-t"@, seconds_text(span_ms(start_ms, end_ms)), "-map"@, "0:v:0"@, "-map"@, "0:a:0"@]
        + (match filter { Some(f) => seq!["-vf"@, f], None => Seq::empty() })
        + seq!["-c:v"@, encoder, "-pix_fmt"@, "yuv420p"@, "-r"@, "30"@] + audio_args() + seq![output]
}

/// The arguments of an extraction that reports progress on stderr: the
/// given encoder (or the default encoding) and optional filter chain.
pub open spec fn progress_args_spec(source: Seq<char>, start_ms: u64, end_ms: u64, output: Seq<char>, filter: Option<Seq<char>>, encoder: Option<Seq<char>>) -> Seq<Seq<char>> {
    seq!["-y"@, "-progress"@, "pipe:2"@, "-ss"@, seconds_text(start_ms), "-i"@, source, "-t"@, seconds_text(span_ms(start_ms, end_ms)), "-map"@, "0:v:0"@, "-map"@, "0:a:0"@]
        + (match filter { Some(f) => seq!["-vf"@, f], None => Seq::empty() })
        + (match encoder {
            Some(e) => seq!["-c:v"@, e, "-pix_fmt"@, "yuv420p"@, "-r"@, "30"@],
            None => default_video_args(),
        }) + audio_args() + seq![output]
}

/// A cut starts where the shot starts and lasts as long as the shot: in the
/// default, encoded and progress-reporting extractions alike, the value after
/// `-ss` is the start and the value after `-t` is `end - start`, in seconds.
pub proof fn law_segment_length_is_shot_length(
    source: Seq<char>,
    start_ms: u64,
    end_ms: u64,
    output: Seq<char>,
    filter: Option<Seq<char>>,
    encoder: Seq<char>,
    progress_encoder: Option<Seq<char>>,
)
    requires
        start_ms <= end_ms,
    ensures
        ({
            let a = extract_args_spec(source, start_ms, end_ms, output);
            &&& a[1] == "-ss"@ && a[2] == seconds_text(start_ms)
            &&& a[3] == "-i"@ && a[4] == source
            &&& a[5] == "-t"@ && a[6] == seconds_text((end_ms - start_ms) as u64)
            &&& a.last() == output
        }),
        ({
            let a = encoded_args_spec(source, start_ms, end_ms, output, filter, encoder);
            &&& a[1] == "-ss"@ && a[2] == seconds_text(start_ms)
            &&& a[3] == "-i"@ && a[4] == source
            &&& a[5] == "-t"@ && a[6] == seconds_text((end_ms - start_ms) as u64)
            &&& a.last() == output
        }),
        ({
            let a = progress_args_spec(source, start_ms, end_ms, output, filter, progress_encoder);
            &&& a[3] == "-ss"@ && a[4] == seconds_text(start_ms)
            &&& a[5] == "-i"@ && a[6] == source
            &&& a[7] == "-t"@ && a[8] == seconds_text((end_ms - start_ms) as u64)
            &&& a.last() == output
        }),
{
}

/// The arguments that join the segments listed in `list` into `output`
/// without re-encoding.
pub open spec fn concat_args_spec(list: Seq<char>, output: Seq<char>) -> Seq<Seq<char>> {
    seq!["-y"@, "-f"@, "concat"@, "-safe"@, "0"@, "-i"@, list, "-c"@, "copy"@, output]
}

/// Appends one argument.
fn push_arg(a: &mut Vec<String>, s: &str)
    ensures
        args_view(final(a)@) == args_view(old(a)@).push(s@),
{
    let ghost a0 = a@;
    a.push(owned(s));
    assert(args_view(a@) =~= args_view(a0).push(s@));
}

/// Appends one argument.
fn push_owned(a: &mut Vec<String>, s: String)
    ensures
        args_view(final(a)@) == args_view(old(a)@).push(s@),
{
    let ghost a0 = a@;
    let ghost v = s@;
    a.push(s);
    assert(args_view(a@) =~= args_view(a0).push(v));
}

/// `-y -ss S -i SOURCE -t D -map 0:v:0 -map 0:a:0`, optionally after
/// `-progress pipe:2`.
fn head_args(a: &mut Vec<String>, progress: bool, source: &str, start_ms: u64, end_ms: u64)
    ensures
        args_view(final(a)@) == args_view(old(a)@) + (if progress {
            seq!["-y"@, "-progress"@, "pipe:2"@]
        } else {
            seq!["-y"@]
        }) + seq!["-ss"@, seconds_text(start_ms), "-i"@, source@, "-t"@, seconds_text(span_ms(start_ms, end_ms)), "-map"@, "0:v:0"@, "-map"@, "0:a:0"@],
{
    let ghost a0 = args_view(a@);
    push_arg(a, "-y");
    if progress {
        push_arg(a, "-progress");
        push_arg(a, "pipe:2");
    }
    push_arg(a, "-ss");
    push_owned(a, seconds_label(start_ms));
    push_arg(a, "-i");
    push_arg(a, source);
    push_arg(a, "-t");
    let d = if end_ms >= start_ms { end_ms - start_ms } else { 0 };
    push_owned(a, seconds_label(d));
    push_arg(a, "-map");
    push_arg(a, "0:v:0");
    push_arg(a, "-map");
    push_arg(a, "0:a:0");
    assert(args_view(a@) =~= a0 + (if progress {
        seq!["-y"@, "-progress"@, "pipe:2"@]
    } else {
        seq!["-y"@]
    }) + seq!["-ss"@, seconds_text(start_ms), "-i"@, source@, "-t"@, seconds_text(span_ms(start_ms, end_ms)), "-map"@, "0:v:0"@, "-map"@, "0:a:0"@]);
}

/// Seconds with three decimals.
fn seconds_label(ms: u64) -> (r: String)
    ensures
        r@ == seconds_text(ms),
{
    let mut r = String::new();
    push_dec(&mut r, ms / 1000);
    push_str(&mut r, ".");
    push_dec_pad(&mut r, ms % 1000, 3);
    r
}

/// The arguments of the default extraction (see `extract_args_spec`).
pub fn extract_args(source: &str, start_ms: u64, end_ms: u64, output: &str) -> (r: Vec<String>)
    ensures
        args_view(r@) == extract_args_spec(source@, start_ms, end_ms, output@),
{
    let mut a: Vec<String> = Vec::new();
    assert(args_view(a@) =~= Seq::<Seq<char>>::empty());
    head_args(&mut a, false, source, start_ms, end_ms);
    push_arg(&mut a, "-c:v");
    push_arg(&mut a, "libx264");
    push_arg(&mut a, "-crf");
    push_arg(&mut a, "18");
    push_arg(&mut a, "-preset");
    push_arg(&mut a, "fast");
    push_arg(&mut a, "-pix_fmt");
    push_arg(&mut a, "yuv420p");
    push_arg(&mut a, "-r");
    push_arg(&mut a, "30");
    push_arg(&mut a, "-c:a");
    push_arg(&mut a, "aac");
    push_arg(&mut a, "-ar");
    push_arg(&mut a, "48000");
    push_arg(&mut a, "-ac");
    push_arg(&mut a, "2");
    let ghost a1 = args_view(a@);
    push_arg(&mut a, output);
    assert(args_view(a@) =~= extract_args_spec(source@, start_ms, end_ms, output@));
    a
}

/// The arguments of an extraction with an explicit encoder (see
/// `encoded_args_spec`).
pub fn encoded_args(source: &str, start_ms: u64, end_ms: u64, output: &str, filter: Option<&str>, encoder: &str) -> (r: Vec<String>)
    ensures
        args_view(r@) == encoded_args_spec(source@, start_ms, end_ms, output@, match filter { Some(f) => Some(f@), None => None }, encoder@),
{
    let mut a: Vec<String> = Vec::new();
    assert(args_view(a@) =~= Seq::<Seq<char>>::empty());
    head_args(&mut a, false, source, start_ms, end_ms);
    match filter {
        Some(f) => {
            push_arg(&mut a, "-vf");
            push_arg(&mut a, f);
        },
        None => {},
    }
    push_arg(&mut a, "-c:v");
    push_arg(&mut a, encoder);
    push_arg(&mut a, "-pix_fmt");
    push_arg(&mut a, "yuv420p");
    push_arg(&mut a, "-r");
    push_arg(&mut a, "30");
    push_arg(&mut a, "-c:a");
    push_arg(&mut a, "aac");
    push_arg(&mut a, "-ar");
    push_arg(&mut a, "48000");
    push_arg(&mut a, "-ac");
    push_arg(&mut a, "2");
    push_arg(&mut a, output);
    assert(args_view(a@) =~= encoded_args_spec(source@, start_ms, end_ms, output@, match filter { Some(f) => Some(f@), None => None }, encoder@));
    a
}

/// The arguments of an extraction that reports progress (see
/// `progress_args_spec`).
pub fn progress_args(source: &str, start_ms: u64, end_ms: u64, output: &str, filter: Option<&str>, encoder: Option<&str>) -> (r: Vec<String>)
    ensures
        args_view(r@) == progress_args_spec(
            source@,
            start_ms,
            end_ms,
            output@,
            match filter { Some(f) => Some(f@), None => None },
            match encoder { Some(e) => Some(e@), None => None },
        ),
{
    let mut a: Vec<String> = Vec::new();
    assert(args_view(a@) =~= Seq::<Seq<char>>::empty());
    head_args(&mut a, true, source, start_ms, end_ms);
    match filter {
        Some(f) => {
            push_arg(&mut a, "-vf");
            push_arg(&mut a, f);
        },
        None => {},
    }
    match encoder {
        Some(e) => {
            push_arg(&mut a, "-c:v");
            push_arg(&mut a, e);
            push_arg(&mut a, "-pix_fmt");
            push_arg(&mut a, "yuv420p");
            push_arg(&mut a, "-r");
            push_arg(&mut a, "30");
        },
        None => {
            push_arg(&mut a, "-c:v");
            push_arg(&mut a, "libx264");
            push_arg(&mut a, "-crf");
            push_arg(&mut a, "18");
            push_arg(&mut a, "-preset");
            push_arg(&mut a, "fast");
            push_arg(&mut a, "-pix_fmt");
            push_arg(&mut a, "yuv420p");
            push_arg(&mut a, "-r");
            push_arg(&mut a, "30");
        },
    }
    push_arg(&mut a, "-c:a");
    push_arg(&mut a, "aac");
    push_arg(&mut a, "-ar");
    push_arg(&mut a, "48000");
    push_arg(&mut a, "-ac");
    push_arg(&mut a, "2");
    push_arg(&mut a, output);
    assert(args_view(a@) =~= progress_args_spec(
        source@,
        start_ms,
        end_ms,
        output@,
        match filter { Some(f) => Some(f@), None => None },
        match encoder { Some(e) => Some(e@), None => None },
    ));
    a
}

/// The arguments that join the listed segments (see `concat_args_spec`).
pub fn concat_args(list: &str, output: &str) -> (r: Vec<String>)
    ensures
        args_view(r@) == concat_args_spec(list@, output@),
{
    let mut a: Vec<String> = Vec::new();
    push_arg(&mut a, "-y");
    push_arg(&mut a, "-f");
    push_arg(&mut a, "concat");
    push_arg(&mut a, "-safe");
    push_arg(&mut a, "0");
    push_arg(&mut a, "-i");
    push_arg(&mut a, list);
    push_arg(&mut a, "-c");
    push_arg(&mut a, "copy");
    push_arg(&mut a, output);
    assert(args_view(a@) =~= concat_args_spec(list@, output@));
    a
}

/// The concat demuxer's list: a `file '<path>'` line per segment.
pub open spec fn concat_list_spec(paths: Seq<Seq<char>>) -> Seq<char>
    decreases paths.len(),
{
    if paths.len() == 0 {
        Seq::empty()
    } else {
        concat_list_spec(paths.drop_last()) + "file '"@ + paths.last() + "'\n"@
    }
}

/// Writes the concat demuxer's list for the given segment paths.
pub fn concat_list_text(paths: &Vec<String>) -> (r: String)
    ensures
        r@ == concat_list_spec(strings_view(paths@)),
{
    let ghost pv = strings_view(paths@);
    let mut r = String::new();
    let mut i: usize = 0;
    assert(pv.take(0) =~= Seq::<Seq<char>>::empty());
    while i < paths.len()
        invariant
            i <= paths.len(),
            pv == strings_view(paths@),
            r@ == concat_list_spec(pv.take(i as int)),
        decreases paths.len() - i,
    {
        assert(pv.take(i + 1).drop_last() =~= pv.take(i as int));
        assert(pv.take(i + 1).last() == paths@[i as int]@);
        push_str(&mut r, "file '");
        push_str(&mut r, paths[i].as_str());
        push_str(&mut r, "'\n");
        i += 1;
    }
    assert(pv.take(paths.len() as int) =~= pv);
    r
}

/// The outcome of an ffmpeg step, given whether ffmpeg succeeded and what it
/// wrote to stderr: done, or the failure as `<what failed>: <last line>`.
pub fn ffmpeg_step(what_failed: &str, succeeded: bool, stderr: &str) -> (r: Result<(), RenderError>)
    ensures
        succeeded ==> r is Ok,
        !succeeded ==> (r matches Err(RenderError::FfmpegFailed(m)) && m@
            == what_failed@ + ": "@ + last_line(stderr@)),
{
    if succeeded {
        return Ok(());
    }
    let mut m = owned(what_failed);
    push_str(&mut m, ": ");
    let last = last_line_text(stderr);
    push_str(&mut m, last.as_str());
    Err(RenderError::FfmpegFailed(m))
}

} // verus!
