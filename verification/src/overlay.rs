//! On-screen overlays for playback and rendering: ffmpeg `drawtext` filters
//! showing the running timecode and, in full mode, the shot, its source and
//! a snippet of its words or scenes.
use vstd::prelude::*;
use crate::text::{push_str, push_char, push_dec, push_dec_pad, owned, chars_of, dec, dec_pad, str_eq};

verus! {

broadcast use vstd::string::group_string_axioms;

/// How much the overlay shows: nothing, everything, or the timecode only.
#[derive(Debug, Clone, Copy, PartialEq, Eq, Structural)]
pub enum OverlayMode {
    Clean,
    Full,
    Minimal,
}

impl OverlayMode {
    /// The mode named by the `--overlay` flag: none without the flag,
    /// `minimal` for the timecode only, and full for any other value.
    pub fn from_flag(value: Option<&str>) -> (r: OverlayMode)
        ensures
            r == (match value {
                None => OverlayMode::Clean,
                Some(v) => if v@ == "minimal"@ { OverlayMode::Minimal } else { OverlayMode::Full },
            }),
    {
        match value {
            None => OverlayMode::Clean,
            Some(v) => if str_eq(v, "minimal") {
                OverlayMode::Minimal
            } else {
                OverlayMode::Full
            },
        }
    }
}

/// What a shot's overlay shows.
#[derive(Debug, Clone, PartialEq)]
pub struct OverlayInfo {
    /// Shot identifier (e.g. "shot-003").
    pub shot_id: String,
    /// Source identifier (e.g. "src-002").
    pub source_id: String,
    /// Transcript text or scene description snippet.
    pub snippet: Option<String>,
    /// Milliseconds added to the segment's own time for the running
    /// timecode of the edit.
    pub timecode_offset_ms: u64,
}

// ---------------------------------------------------------------------------
// Pieces of the filter
// ---------------------------------------------------------------------------

/// `s` with `'` removed, `\` doubled and `%` doubled, as text inside
/// `text='...'` needs.
pub open spec fn escaped(s: Seq<char>) -> Seq<char>
    decreases s.len(),
{
    if s.len() == 0 {
        Seq::empty()
    } else {
        let rest = escaped(s.drop_last());
        let c = s.last();
        if c == '\'' {
            rest
        } else if c == '\\' {
            rest + seq!['\\', '\\']
        } else if c == '%' {
            rest + seq!['%', '%']
        } else {
            rest.push(c)
        }
    }
}

/// Escapes text for an ffmpeg `drawtext` `text='...'` parameter.
pub fn escape_drawtext_text(s: &str) -> (r: String)
    ensures
        r@ == escaped(s@),
{
    let c = chars_of(s);
    let mut r = String::new();
    let mut i: usize = 0;
    while i < c.len()
        invariant
            i <= c.len(),
            c@ == s@,
            r@ == escaped(c@.take(i as int)),
        decreases c.len() - i,
    {
        assert(c@.take(i + 1).drop_last() =~= c@.take(i as int));
        assert(c@.take(i + 1).last() == c@[i as int]);
        let ch = c[i];
        if ch == '\'' {
        } else if ch == '\\' {
            push_char(&mut r, '\\');
            push_char(&mut r, '\\');
            assert(r@ =~= escaped(c@.take(i + 1)));
        } else if ch == '%' {
            push_char(&mut r, '%');
            push_char(&mut r, '%');
            assert(r@ =~= escaped(c@.take(i + 1)));
        } else {
            push_char(&mut r, ch);
        }
        i += 1;
    }
    assert(c@.take(c.len() as int) =~= c@);
    r
}

/// Seconds with three decimals: `S.mmm`.
pub open spec fn seconds_text(ms: u64) -> Seq<char> {
    dec((ms / 1000) as nat) + "."@ + dec_pad((ms % 1000) as nat, 3)
}

/// The running-timecode expression `%{pts:hms:OFFSET}`, which ffmpeg
/// expands to `HH:MM:SS.mmm`.
pub open spec fn timecode_text(offset_ms: u64) -> Seq<char> {
    "%{pts:hms:"@ + seconds_text(offset_ms) + "}"@
}

/// Builds the running-timecode expression with an offset.
pub fn timecode_expr(offset_ms: u64) -> (r: String)
    ensures
        r@ == timecode_text(offset_ms),
{
    let mut r = owned("%{pts:hms:");
    push_dec(&mut r, offset_ms / 1000);
    push_str(&mut r, ".");
    push_dec_pad(&mut r, offset_ms % 1000, 3);
    push_str(&mut r, "}");
    r
}

/// The font part of the filter: the font file found, or fontconfig's
/// `monospace` family.
pub open spec fn font_text(found: Option<Seq<char>>) -> Seq<char> {
    match found {
        Some(p) => "fontfile='"@ + p + "'"@,
        None => "font=monospace"@,
    }
}

/// The font specification for a filter, given the monospace font file found
/// on the system, if any (see `monospace_font_candidates`).
pub fn font_spec(found: Option<&str>) -> (r: String)
    ensures
        r@ == font_text(match found { Some(p) => Some(p@), None => None }),
{
    match found {
        Some(p) => {
            let mut r = owned("fontfile='");
            push_str(&mut r, p);
            push_str(&mut r, "'");
            r
        },
        None => owned("font=monospace"),
    }
}

/// The monospace font files looked for, in order of preference.
pub fn monospace_font_candidates() -> (r: Vec<String>)
    ensures
        r.len() == 6,
        r@[0]@ == "/System/Library/Fonts/Menlo.ttc"@,
        r@[1]@ == "/System/Library/Fonts/Courier.dfont"@,
        r@[2]@ == "/Library/Fonts/Courier New.ttf"@,
        r@[3]@ == "/usr/share/fonts/truetype/dejavu/DejaVuSansMono.ttf"@,
        r@[4]@ == "/usr/share/fonts/truetype/liberation/LiberationMono-Regular.ttf"@,
        r@[5]@ == "/usr/share/fonts/TTF/DejaVuSansMono.ttf"@,
{
    let mut r: Vec<String> = Vec::new();
    r.push(owned("/System/Library/Fonts/Menlo.ttc"));
    r.push(owned("/System/Library/Fonts/Courier.dfont"));
    r.push(owned("/Library/Fonts/Courier New.ttf"));
    r.push(owned("/usr/share/fonts/truetype/dejavu/DejaVuSansMono.ttf"));
    r.push(owned("/usr/share/fonts/truetype/liberation/LiberationMono-Regular.ttf"));
    r.push(owned("/usr/share/fonts/TTF/DejaVuSansMono.ttf"));
    r
}

/// The box and placement of the first overlay line.
pub open spec fn line1_style() -> Seq<char> {
    ":fontsize=16:fontcolor=white:box=1:boxcolor=black@0.5:boxborderw=8:x=10:y=10"@
}

/// The box and placement of the snippet line.
pub open spec fn line2_style() -> Seq<char> {
    ":fontsize=14:fontcolor=white:box=1:boxcolor=black@0.5:boxborderw=6:x=10:y=42"@
}

/// The minimal overlay: the running timecode only.
pub open spec fn minimal_filter(offset_ms: u64, font: Seq<char>) -> Seq<char> {
    "drawtext=text='"@ + timecode_text(offset_ms) + "':"@ + font + line1_style()
}

/// The full overlay: timecode, shot and source on one line, then the
/// escaped snippet on a second line when there is one.
pub open spec fn full_filter(
    offset_ms: u64,
    shot: Seq<char>,
    src: Seq<char>,
    snippet: Option<Seq<char>>,
    font: Seq<char>,
) -> Seq<char> {
    let line1 = "drawtext=text='"@ + timecode_text(offset_ms) + "  "@ + shot + "  "@ + src + "':"@
        + font + line1_style();
    match snippet {
        Some(s) => line1 + ","@ + "drawtext=text='"@ + escaped(s) + "':"@ + font + line2_style(),
        None => line1,
    }
}

/// Builds the `drawtext` filter of a shot's overlay with the given font
/// specification (see `font_spec`); none in clean mode.
pub fn build_drawtext_filter(mode: OverlayMode, info: &OverlayInfo, font: &str) -> (r: Option<String>)
    ensures
        r matches Some(f) ==> mode != OverlayMode::Clean,
        match mode {
            OverlayMode::Clean => r is None,
            OverlayMode::Minimal => r matches Some(f) && f@ == minimal_filter(info.timecode_offset_ms, font@),
            OverlayMode::Full => r matches Some(f) && f@ == full_filter(
                info.timecode_offset_ms,
                info.shot_id@,
                info.source_id@,
                match info.snippet { Some(s) => Some(s@), None => None },
                font@,
            ),
        },
{
    proof {
        reveal_strlit("drawtext=text='");
        reveal_strlit("':");
        reveal_strlit("  ");
        reveal_strlit(",");
        reveal_strlit(":fontsize=16:fontcolor=white:box=1:boxcolor=black@0.5:boxborderw=8:x=10:y=10");
        reveal_strlit(":fontsize=14:fontcolor=white:box=1:boxcolor=black@0.5:boxborderw=6:x=10:y=42");
    }
    match mode {
        OverlayMode::Clean => None,
        OverlayMode::Minimal => {
            let tc = timecode_expr(info.timecode_offset_ms);
            let mut f = owned("drawtext=text='");
            push_str(&mut f, tc.as_str());
            push_str(&mut f, "':");
            push_str(&mut f, font);
            push_str(&mut f, ":fontsize=16:fontcolor=white:box=1:boxcolor=black@0.5:boxborderw=8:x=10:y=10");
            Some(f)
        },
        OverlayMode::Full => {
            let tc = timecode_expr(info.timecode_offset_ms);
            let mut f = owned("drawtext=text='");
            push_str(&mut f, tc.as_str());
            push_str(&mut f, "  ");
            push_str(&mut f, info.shot_id.as_str());
            push_str(&mut f, "  ");
            push_str(&mut f, info.source_id.as_str());
            push_str(&mut f, "':");
            push_str(&mut f, font);
            push_str(&mut f, ":fontsize=16:fontcolor=white:box=1:boxcolor=black@0.5:boxborderw=8:x=10:y=10");
            match &info.snippet {
                Some(s) => {
                    let safe = escape_drawtext_text(s.as_str());
                    push_str(&mut f, ",");
                    push_str(&mut f, "drawtext=text='");
                    push_str(&mut f, safe.as_str());
                    push_str(&mut f, "':");
                    push_str(&mut f, font);
                    push_str(&mut f, ":fontsize=14:fontcolor=white:box=1:boxcolor=black@0.5:boxborderw=6:x=10:y=42");
                },
                None => {},
            }
            Some(f)
        },
    }
}

} // verus!
