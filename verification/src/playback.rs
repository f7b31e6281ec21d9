//! Playing sources: choosing a player, the arguments that start it at the
//! right moment, timecodes typed by the user, and the mpv script that marks
//! points of interest.
use vstd::prelude::*;
use crate::models::{Manifest, Source, SourceView};
use crate::paths::{joined, join_path};
use crate::validate::source_for;
use crate::overlay::seconds_text;
use crate::text::{
    push_str, push_char, push_dec, push_dec_pad, owned, copy_string, chars_of, string_of, dec,
    is_digit, digit_value, digits_value, ascii_digit, ascii_digit_value, str_eq, pow10, all_digits,
    digits_end, lemma_digits_concat, lemma_zeros, lemma_all_zeros, lemma_digits_below, lemma_digits_leading,
    lemma_digits_shift_down, lemma_pow10_positive, lemma_pow10_grows, lemma_pow10_20,
};

verus! {

broadcast use vstd::string::group_string_axioms;

// ---------------------------------------------------------------------------
// Errors
// ---------------------------------------------------------------------------

/// What can go wrong with playback.
#[derive(Debug, Clone, PartialEq)]
pub enum PlaybackError {
    PlayerNotFound,
    InvalidTimecode(String),
    Io(String),
    /// The manifest has no source with this id (an I/O error of kind "not
    /// found").
    SourceNotFound(String),
}

/// The message of a playback error.
pub open spec fn playback_error_message(e: PlaybackError) -> Seq<char> {
    match e {
        PlaybackError::PlayerNotFound => "no video player found: install mpv (preferred), VLC, or ffplay"@,
        PlaybackError::InvalidTimecode(s) => "invalid timecode \""@ + s@
            + "\": expected HH:MM:SS, MM:SS, or seconds"@,
        PlaybackError::Io(m) => m@,
        PlaybackError::SourceNotFound(id) => "source not found: "@ + id@,
    }
}

impl PlaybackError {
    /// The human-readable message of this error.
    pub fn to_string(&self) -> (r: String)
        ensures
            r@ == playback_error_message(*self),
    {
        match self {
            PlaybackError::PlayerNotFound => owned("no video player found: install mpv (preferred), VLC, or ffplay"),
            PlaybackError::InvalidTimecode(s) => {
                let mut r = owned("invalid timecode \"");
                push_str(&mut r, s.as_str());
                push_str(&mut r, "\": expected HH:MM:SS, MM:SS, or seconds");
                r
            },
            PlaybackError::Io(m) => copy_string(m),
            PlaybackError::SourceNotFound(id) => {
                let mut r = owned("source not found: ");
                push_str(&mut r, id.as_str());
                r
            },
        }
    }
}

// ---------------------------------------------------------------------------
// Players
// ---------------------------------------------------------------------------

/// Which kind of player was found.
#[derive(Debug, Clone, Copy, PartialEq, Eq, Structural)]
pub enum PlayerKind {
    Mpv,
    Vlc,
    Ffplay,
}

/// A video player found on the system.
#[derive(Debug, Clone, PartialEq)]
pub struct Player {
    /// The binary name that was resolved (e.g. "cvlc", "vlc", "ffplay").
    pub name: String,
    /// Path to the binary.
    pub path: String,
    pub kind: PlayerKind,
}

/// The players looked for, best first: mpv, cvlc, vlc, ffplay.
pub open spec fn candidate(i: int) -> (Seq<char>, PlayerKind) {
    if i == 0 {
        ("mpv"@, PlayerKind::Mpv)
    } else if i == 1 {
        ("cvlc"@, PlayerKind::Vlc)
    } else if i == 2 {
        ("vlc"@, PlayerKind::Vlc)
    } else {
        ("ffplay"@, PlayerKind::Ffplay)
    }
}

/// The number of players looked for.
pub const PLAYER_CANDIDATES: usize = 4;

fn candidate_at(i: usize) -> (r: (String, PlayerKind))
    requires
        i < PLAYER_CANDIDATES,
    ensures
        r.0@ == candidate(i as int).0,
        r.1 == candidate(i as int).1,
{
    if i == 0 {
        (owned("mpv"), PlayerKind::Mpv)
    } else if i == 1 {
        (owned("cvlc"), PlayerKind::Vlc)
    } else if i == 2 {
        (owned("vlc"), PlayerKind::Vlc)
    } else {
        (owned("ffplay"), PlayerKind::Ffplay)
    }
}

/// Looks a binary up on the `PATH` with `which::which`, giving its path as
/// text. Nothing is stated of the result: it depends on the system.
#[verifier::external_body]
pub(crate) fn find_binary(name: &str) -> (r: Option<String>) {
    match which::which(name) {
        Ok(p) => Some(p.to_string_lossy().into_owned()),
        Err(_) => None,
    }
}

/// Whether `p` is candidate `i`, found at `found[i]`, with no candidate
/// before it found.
pub open spec fn picked(found: Seq<Option<String>>, i: int, p: Player) -> bool {
    &&& 0 <= i < found.len()
    &&& found[i] matches Some(path)
    &&& p.path@ == path@
    &&& p.name@ == candidate(i).0
    &&& p.kind == candidate(i).1
    &&& forall|j: int| 0 <= j < i ==> found[j] is None
}

/// The player chosen from the lookups of the candidates, in order (`found[i]`
/// is where candidate `i` was found, if it was): the first one found.
pub fn pick_player(found: &Vec<Option<String>>) -> (r: Result<Player, PlaybackError>)
    requires
        found.len() <= PLAYER_CANDIDATES,
    ensures
        match r {
            Ok(p) => exists|i: int| picked(found@, i, p),
            Err(e) => e == PlaybackError::PlayerNotFound && forall|j: int|
                0 <= j < found.len() ==> found@[j] is None,
        },
{
    let mut i: usize = 0;
    while i < found.len()
        invariant
            i <= found.len() <= PLAYER_CANDIDATES,
            forall|j: int| 0 <= j < i ==> found@[j] is None,
        decreases found.len() - i,
    {
        match &found[i] {
            Some(path) => {
                let (name, kind) = candidate_at(i);
                let p = Player { name, path: copy_string(path), kind };
                assert(picked(found@, i as int, p));
                return Ok(p);
            },
            None => {},
        }
        i += 1;
    }
    Err(PlaybackError::PlayerNotFound)
}

/// Finds the best player on the `PATH`: the first of mpv, cvlc, vlc and
/// ffplay that is installed.
pub fn detect_player() -> (r: Result<Player, PlaybackError>)
    ensures
        match r {
            Ok(p) => exists|i: int| 0 <= i < PLAYER_CANDIDATES && p.name@ == candidate(i).0 && p.kind == candidate(i).1,
            Err(e) => e == PlaybackError::PlayerNotFound,
        },
{
    let mut found: Vec<Option<String>> = Vec::new();
    let mut i: usize = 0;
    while i < PLAYER_CANDIDATES
        invariant
            i <= PLAYER_CANDIDATES,
            found.len() == i,
            forall|j: int| 0 <= j < i ==> found@[j] is None,
        decreases PLAYER_CANDIDATES - i,
    {
        let (name, _) = candidate_at(i);
        let f = find_binary(name.as_str());
        let hit = f.is_some();
        found.push(f);
        if hit {
            return pick_player(&found);
        }
        i += 1;
    }
    pick_player(&found)
}

// ---------------------------------------------------------------------------
// Starting a player
// ---------------------------------------------------------------------------

/// What to play.
#[derive(Debug, Clone, PartialEq)]
pub struct PlayRequest {
    /// Path to the video file.
    pub file: String,
    /// Seek position in milliseconds.
    pub start_ms: u64,
    /// Stop position in milliseconds (for shot playback).
    pub end_ms: Option<u64>,
    /// IPC socket path for player position capture.
    pub ipc_socket: Option<String>,
    /// Source ID for point-of-interest creation during playback.
    pub source_id: Option<String>,
    /// Lua script path for mpv's point-of-interest keys.
    pub mpv_script: Option<String>,
    /// File where the mpv script writes point-of-interest marks.
    pub marker_file: Option<String>,
}

/// The port of VLC's HTTP interface.
pub const VLC_HTTP_PORT: u16 = 9090;

/// The arguments that start a player on a request: mpv takes the file, then
/// `--start=S`, `--length=S` when the request ends, the IPC server and the
/// script when given; VLC takes its HTTP interface when marks are captured,
/// the file, `--start-time=S`, `--stop-time=S` when the request ends, and
/// `vlc://quit`; ffplay takes `-ss S`, `-t S` when the request ends, then
/// `-autoexit` and the file. Times are seconds with three decimals.
pub open spec fn player_args_spec(kind: PlayerKind, req: PlayRequest) -> Seq<Seq<char>> {
    match kind {
        PlayerKind::Mpv => seq![req.file@, "--start="@ + seconds_text(req.start_ms)]
            + (match req.end_ms {
                Some(e) => seq!["--length="@ + seconds_text((e - req.start_ms) as u64)],
                None => Seq::empty(),
            }) + (match req.ipc_socket {
                Some(p) => seq!["--input-ipc-server="@ + p@],
                None => Seq::empty(),
            }) + (match req.mpv_script {
                Some(p) => seq!["--script="@ + p@],
                None => Seq::empty(),
            }),
        PlayerKind::Vlc => (if req.marker_file is Some {
            seq!["--extraintf"@, "http"@, "--http-port="@ + dec(VLC_HTTP_PORT as nat), "--http-password=ar-edit"@]
        } else {
            Seq::empty()
        }) + seq![req.file@, "--start-time="@ + seconds_text(req.start_ms)] + (match req.end_ms {
            Some(e) => seq!["--stop-time="@ + seconds_text(e)],
            None => Seq::empty(),
        }) + seq!["vlc://quit"@],
        PlayerKind::Ffplay => seq!["-ss"@, seconds_text(req.start_ms)] + (match req.end_ms {
            Some(e) => seq!["-t"@, seconds_text(if e >= req.start_ms { (e - req.start_ms) as u64 } else { 0 })],
            None => Seq::empty(),
        }) + seq!["-autoexit"@, req.file@],
    }
}

/// What each player is told of the stretch to play: VLC gets the start and
/// the stop time (the absolute end, not a length), mpv the start and the
/// length `end - start`, ffplay the start and the length (0 when the end
/// comes first); with no end, no stop or length is given.
pub proof fn law_player_stop_times(req: PlayRequest)
    ensures
        ({
            let a = player_args_spec(PlayerKind::Vlc, req);
            let o: int = if req.marker_file is Some { 4 } else { 0 };
            &&& a[o] == req.file@
            &&& a[o + 1] == "--start-time="@ + seconds_text(req.start_ms)
            &&& a.last() == "vlc://quit"@
            &&& (req.end_ms matches Some(e) ==> a.len() == o + 4 && a[o + 2] == "--stop-time="@ + seconds_text(e))
            &&& (req.end_ms is None ==> a.len() == o + 3)
        }),
        ({
            let a = player_args_spec(PlayerKind::Mpv, req);
            &&& a[0] == req.file@
            &&& a[1] == "--start="@ + seconds_text(req.start_ms)
            &&& (req.end_ms matches Some(e) ==> (e >= req.start_ms ==> a[2] == "--length="@ + seconds_text((e - req.start_ms) as u64)))
        }),
        ({
            let a = player_args_spec(PlayerKind::Ffplay, req);
            &&& a[0] == "-ss"@ && a[1] == seconds_text(req.start_ms)
            &&& (req.end_ms matches Some(e) ==> a[2] == "-t"@ && a[3] == seconds_text(
                if e >= req.start_ms { (e - req.start_ms) as u64 } else { 0 },
            ))
            &&& a.last() == req.file@
        }),
{
}

/// Seconds with three decimals.
fn seconds_string(ms: u64) -> (r: String)
    ensures
        r@ == seconds_text(ms),
{
    let mut r = String::new();
    push_dec(&mut r, ms / 1000);
    push_str(&mut r, ".");
    push_dec_pad(&mut r, ms % 1000, 3);
    r
}

/// `prefix` followed by `rest`.
fn prefixed(prefix: &str, rest: &str) -> (r: String)
    ensures
        r@ == prefix@ + rest@,
{
    let mut r = owned(prefix);
    push_str(&mut r, rest);
    r
}

/// The views of a list of arguments.
pub open spec fn args_view(v: Seq<String>) -> Seq<Seq<char>> {
    v.map_values(|s: String| s@)
}

/// The command-line arguments that start `player` on `req` (see
/// `player_args_spec`); the program is the player's path.
pub fn player_args(player: &Player, req: &PlayRequest) -> (r: Vec<String>)
    requires
        player.kind == PlayerKind::Mpv ==> (req.end_ms matches Some(e) ==> e >= req.start_ms),
    ensures
        args_view(r@) == player_args_spec(player.kind, *req),
{
    let mut a: Vec<String> = Vec::new();
    let start = seconds_string(req.start_ms);
    match player.kind {
        PlayerKind::Mpv => {
            a.push(copy_string(&req.file));
            a.push(prefixed("--start=", start.as_str()));
            match req.end_ms {
                Some(e) => {
                    let len = seconds_string(e - req.start_ms);
                    a.push(prefixed("--length=", len.as_str()));
                },
                None => {},
            }
            match &req.ipc_socket {
                Some(p) => a.push(prefixed("--input-ipc-server=", p.as_str())),
                None => {},
            }
            match &req.mpv_script {
                Some(p) => a.push(prefixed("--script=", p.as_str())),
                None => {},
            }
        },
        PlayerKind::Vlc => {
            if req.marker_file.is_some() {
                a.push(owned("--extraintf"));
                a.push(owned("http"));
                let mut port = owned("--http-port=");
                push_dec(&mut port, VLC_HTTP_PORT as u64);
                a.push(port);
                a.push(owned("--http-password=ar-edit"));
            }
            a.push(copy_string(&req.file));
            a.push(prefixed("--start-time=", start.as_str()));
            match req.end_ms {
                Some(e) => {
                    let stop = seconds_string(e);
                    a.push(prefixed("--stop-time=", stop.as_str()));
                },
                None => {},
            }
            a.push(owned("vlc://quit"));
        },
        PlayerKind::Ffplay => {
            a.push(owned("-ss"));
            a.push(start);
            match req.end_ms {
                Some(e) => {
                    let d = if e >= req.start_ms { e - req.start_ms } else { 0 };
                    a.push(owned("-t"));
                    a.push(seconds_string(d));
                },
                None => {},
            }
            a.push(owned("-autoexit"));
            a.push(copy_string(&req.file));
        },
    }
    assert(args_view(a@) =~= player_args_spec(player.kind, *req));
    a
}

// ---------------------------------------------------------------------------
// Timecodes
// ---------------------------------------------------------------------------

/// Splitting `s` at colons, as far as it has been read.
pub open spec fn colon_acc(s: Seq<char>) -> (Seq<Seq<char>>, Seq<char>)
    decreases s.len(),
{
    if s.len() == 0 {
        (Seq::empty(), Seq::empty())
    } else {
        let (done, cur) = colon_acc(s.drop_last());
        if s.last() == ':' {
            (done.push(cur), Seq::empty())
        } else {
            (done, cur.push(s.last()))
        }
    }
}

/// The colon-separated parts of `s` (what `str::split(':')` yields).
pub open spec fn colon_parts(s: Seq<char>) -> Seq<Seq<char>> {
    colon_acc(s).0.push(colon_acc(s).1)
}

/// An unsigned integer as `u64::from_str` reads it: an optional `+`, then
/// ASCII digits, within range.
pub open spec fn uint_value(t: Seq<char>) -> Option<nat> {
    let b: int = if t.len() > 0 && t[0] == '+' { 1 } else { 0 };
    let d = t.subrange(b, t.len() as int);
    if d.len() > 0 && crate::text::all_digits(d) && digits_value(d) <= u64::MAX {
        Some(digits_value(d))
    } else {
        None
    }
}

/// `n` with the decimal point moved `k` places to the right (to the left
/// when `k` is negative), keeping the whole part.
pub open spec fn shifted_floor(n: nat, k: int) -> nat {
    if k >= 0 {
        n * pow10(k as nat)
    } else {
        n / pow10((-k) as nat)
    }
}

/// The whole part of the digits `m` shifted by `k` places, capped at
/// `u64::MAX`.
pub open spec fn capped_shift(m: Seq<char>, k: int) -> nat {
    let v = shifted_floor(digits_value(m), k);
    if v > u64::MAX { u64::MAX as nat } else { v }
}

/// Whether `s` spells the lower-case ASCII word `w` in any case.
pub open spec fn spells(s: Seq<char>, w: Seq<char>) -> bool {
    &&& s.len() == w.len()
    &&& forall|k: int| 0 <= k < s.len() ==> (#[trigger] s[k] == w[k] || s[k] as u32 + 32 == w[k] as u32)
}

/// The exponent written from position `f` to the end of `t`: none at all
/// (0), or `e` or `E`, an optional sign and digits.
pub open spec fn exponent_at(t: Seq<char>, f: int) -> Option<int> {
    if f >= t.len() {
        Some(0)
    } else if t[f] == 'e' || t[f] == 'E' {
        let signed = f + 1 < t.len() && (t[f + 1] == '-' || t[f + 1] == '+');
        let es: int = if signed { f + 2 } else { f + 1 };
        let x = digits_value(t.subrange(es, t.len() as int)) as int;
        if es < t.len() && digits_end(t, es) == t.len() {
            Some(if t[f + 1] == '-' { -x } else { x })
        } else {
            None
        }
    } else {
        None
    }
}

/// A number written from position `b` to the end of `t`, as `f64::from_str`
/// reads it: digits with an optional point and fraction (a digit on at least
/// one side of the point), then an optional exponent (see `exponent_at`).
/// Gives the digits (the whole part, then the fraction) and the power of ten
/// they are scaled by: the exponent less the length of the fraction.
pub open spec fn number_parts(t: Seq<char>, b: int) -> Option<(Seq<char>, int)> {
    let d = digits_end(t, b);
    let point = d < t.len() && t[d] == '.';
    let f = if point { digits_end(t, d + 1) } else { d };
    let frac = if point { t.subrange(d + 1, f) } else { Seq::<char>::empty() };
    let digits = t.subrange(b, d) + frac;
    if digits.len() == 0 {
        None
    } else {
        match exponent_at(t, f) {
            Some(x) => Some((digits, x - frac.len())),
            None => None,
        }
    }
}

/// Seconds as `f64::from_str` reads them, turned into whole milliseconds as
/// `(seconds * 1000.0) as u64` does: an optional sign, then `inf`,
/// `infinity` or `nan` in any case, or a number (see `number_parts`).
/// Negative values and `nan` give 0, fractions of a millisecond are dropped,
/// and values past `u64::MAX`, infinity among them, give `u64::MAX`. The
/// number is read exactly, where the original goes through the nearest
/// `f64`: where that falls just below a whole number of milliseconds
/// (`1.005` seconds), the `f64` reading gives one millisecond less.
pub open spec fn decimal_ms(t: Seq<char>) -> Option<nat> {
    let signed = t.len() > 0 && (t[0] == '-' || t[0] == '+');
    let neg = t.len() > 0 && t[0] == '-';
    let b: int = if signed { 1 } else { 0 };
    let rest = t.subrange(b, t.len() as int);
    if spells(rest, "inf"@) || spells(rest, "infinity"@) {
        Some(if neg { 0 } else { u64::MAX as nat })
    } else if spells(rest, "nan"@) {
        Some(0)
    } else {
        match number_parts(t, b) {
            Some((digits, e)) => Some(if neg { 0 } else { capped_shift(digits, e + 3) }),
            None => None,
        }
    }
}

/// A timecode in milliseconds: `SECONDS`, `MM:SS` or `HH:MM:SS`, where hours
/// and minutes are unsigned integers and seconds a decimal number (see
/// `decimal_ms`); `None` for anything else.
pub open spec fn timecode_ms(s: Seq<char>) -> Option<nat> {
    let p = colon_parts(s);
    if p.len() == 1 {
        decimal_ms(p[0])
    } else if p.len() == 2 {
        match (uint_value(p[0]), decimal_ms(p[1])) {
            (Some(m), Some(x)) => Some(m * 60_000 + x),
            _ => None,
        }
    } else if p.len() == 3 {
        match (uint_value(p[0]), uint_value(p[1]), decimal_ms(p[2])) {
            (Some(h), Some(m), Some(x)) => Some(h * 3_600_000 + m * 60_000 + x),
            _ => None,
        }
    } else {
        None
    }
}

/// Splits a text at colons.
fn split_colons(s: &str) -> (r: Vec<Vec<char>>)
    ensures
        crate::text::rows_view(r@) == colon_parts(s@),
{
    let c = chars_of(s);
    let mut done: Vec<Vec<char>> = Vec::new();
    let mut cur: Vec<char> = Vec::new();
    let mut i: usize = 0;
    while i < c.len()
        invariant
            i <= c.len(),
            c@ == s@,
            (crate::text::rows_view(done@), cur@) == colon_acc(c@.take(i as int)),
        decreases c.len() - i,
    {
        assert(c@.take(i + 1).drop_last() =~= c@.take(i as int));
        if c[i] == ':' {
            let part = cur;
            cur = Vec::new();
            let ghost before = crate::text::rows_view(done@);
            done.push(part);
            assert(crate::text::rows_view(done@) =~= before.push(colon_acc(c@.take(i as int)).1));
        } else {
            cur.push(c[i]);
        }
        i += 1;
    }
    assert(c@.take(c.len() as int) =~= c@);
    let ghost before = crate::text::rows_view(done@);
    done.push(cur);
    assert(crate::text::rows_view(done@) =~= before.push(colon_acc(c@).1));
    done
}

/// The value of the digits `t[b..]`, when they are all ASCII digits and the
/// value fits in a `u64`.
fn digits_u64(t: &Vec<char>, b: usize) -> (r: Option<u64>)
    requires
        b <= t.len(),
    ensures
        ({
            let d = t@.subrange(b as int, t.len() as int);
            r == (if crate::text::all_digits(d) && digits_value(d) <= u64::MAX {
                Some(digits_value(d) as u64)
            } else {
                None::<u64>
            })
        }),
{
    let mut acc: u128 = 0;
    let mut k = b;
    while k < t.len()
        invariant
            b <= k <= t.len(),
            crate::text::all_digits(t@.subrange(b as int, k as int)),
            acc == digits_value(t@.subrange(b as int, k as int)),
            acc <= u64::MAX,
        decreases t.len() - k,
    {
        if !ascii_digit(t[k]) {
            assert(!crate::text::all_digits(t@.subrange(b as int, t.len() as int))) by {
                assert(t@.subrange(b as int, t.len() as int)[k - b] == t@[k as int]);
            }
            return None;
        }
        let v = ascii_digit_value(t[k]);
        assert(t@.subrange(b as int, k + 1).drop_last() =~= t@.subrange(b as int, k as int));
        assert(t@.subrange(b as int, k + 1).last() == t@[k as int]);
        acc = acc * 10 + v as u128;
        if acc > u64::MAX as u128 {
            proof {
                lemma_digits_grow(t@.subrange(b as int, t.len() as int), (k + 1 - b) as int);
                assert(t@.subrange(b as int, t.len() as int).take((k + 1 - b) as int) =~= t@.subrange(b as int, k + 1));
            }
            return None;
        }
        k += 1;
    }
    Some(acc as u64)
}

/// A string of digits is worth at least any of its prefixes.
proof fn lemma_digits_grow(d: Seq<char>, n: int)
    requires
        0 <= n <= d.len(),
    ensures
        digits_value(d) >= digits_value(d.take(n)),
    decreases d.len() - n,
{
    if n < d.len() {
        lemma_digits_grow(d, n + 1);
        assert(d.take(n + 1).drop_last() =~= d.take(n));
    } else {
        assert(d.take(n) =~= d);
    }
}

/// Reads an unsigned integer (see `uint_value`).
fn read_uint(t: &Vec<char>) -> (r: Option<u64>)
    ensures
        r == (match uint_value(t@) { Some(v) => Some(v as u64), None => None::<u64> }),
{
    let b: usize = if t.len() > 0 && t[0] == '+' { 1 } else { 0 };
    if t.len() == b {
        return None;
    }
    digits_u64(t, b)
}

/// Whether `t[b..]` spells the lower-case ASCII word `w` in any case.
fn spells_from(t: &Vec<char>, b: usize, w: &str) -> (r: bool)
    requires
        b <= t.len(),
    ensures
        r == spells(t@.subrange(b as int, t.len() as int), w@),
{
    let wc = chars_of(w);
    let ghost rest = t@.subrange(b as int, t.len() as int);
    if t.len() - b != wc.len() {
        return false;
    }
    let mut k: usize = 0;
    while k < wc.len()
        invariant
            k <= wc.len(),
            wc@ == w@,
            b <= t.len(),
            t.len() - b == wc.len(),
            rest == t@.subrange(b as int, t.len() as int),
            forall|i: int| 0 <= i < k ==> (#[trigger] rest[i] == wc@[i] || rest[i] as u32 + 32 == wc@[i] as u32),
        decreases wc.len() - k,
    {
        let c = t[b + k];
        let x = wc[k];
        assert(rest[k as int] == c);
        if !(c == x || ((x as u32) >= 32 && (c as u32) == (x as u32) - 32)) {
            return false;
        }
        k += 1;
    }
    true
}

/// The cap on exponents: far past any shift that changes the outcome.
pub open spec fn exp_cap() -> nat {
    0x40_0000_0000_0000_0000
}

/// The value of the digits `t[a..d]`, capped at `exp_cap() + 1`.
fn exponent_value(t: &Vec<char>, a: usize, d: usize) -> (r: u128)
    requires
        a <= d <= t.len(),
        forall|k: int| a <= k < d ==> is_digit(#[trigger] t@[k]),
    ensures
        r == (if digits_value(t@.subrange(a as int, d as int)) > exp_cap() {
            exp_cap() + 1
        } else {
            digits_value(t@.subrange(a as int, d as int))
        }),
{
    let mut acc: u128 = 0;
    let mut k = a;
    assert(t@.subrange(a as int, a as int) =~= Seq::<char>::empty());
    while k < d
        invariant
            a <= k <= d <= t.len(),
            forall|i: int| a <= i < d ==> is_digit(#[trigger] t@[i]),
            acc == (if digits_value(t@.subrange(a as int, k as int)) > exp_cap() {
                exp_cap() + 1
            } else {
                digits_value(t@.subrange(a as int, k as int))
            }),
        decreases d - k,
    {
        let v = ascii_digit_value(t[k]);
        assert(t@.subrange(a as int, k + 1).drop_last() =~= t@.subrange(a as int, k as int));
        assert(t@.subrange(a as int, k + 1).last() == t@[k as int]);
        if acc <= 0x40_0000_0000_0000_0000 {
            let next = acc * 10 + v as u128;
            if next > 0x40_0000_0000_0000_0000 {
                acc = 0x40_0000_0000_0000_0001;
            } else {
                acc = next;
            }
        }
        k += 1;
    }
    acc
}

/// Shifts far enough give the same outcome: past 20 places to the right
/// every number but 0 passes `u64::MAX`, and past all the digits to the
/// left nothing is left.
proof fn lemma_capped_far(m: Seq<char>, k1: int, k2: int)
    requires
        all_digits(m),
        (k1 >= 20 && k2 >= 20) || (k1 <= -(m.len() as int) && k2 <= -(m.len() as int)),
    ensures
        capped_shift(m, k1) == capped_shift(m, k2),
{
    let n = digits_value(m);
    lemma_pow10_20();
    if k1 >= 20 {
        if n == 0 {
            assert(n * pow10(k1 as nat) == 0 && n * pow10(k2 as nat) == 0) by (nonlinear_arith)
                requires n == 0;
        } else {
            lemma_pow10_grows(20, k1 as nat);
            lemma_pow10_grows(20, k2 as nat);
            assert(n * pow10(k1 as nat) >= pow10(k1 as nat)) by (nonlinear_arith)
                requires n >= 1;
            assert(n * pow10(k2 as nat) >= pow10(k2 as nat)) by (nonlinear_arith)
                requires n >= 1;
        }
    } else {
        lemma_digits_below(m);
        lemma_pow10_grows(m.len(), (-k1) as nat);
        lemma_pow10_grows(m.len(), (-k2) as nat);
        vstd::arithmetic::div_mod::lemma_fundamental_div_mod_converse(n as int, pow10((-k1) as nat) as int, 0, n as int);
        vstd::arithmetic::div_mod::lemma_fundamental_div_mod_converse(n as int, pow10((-k2) as nat) as int, 0, n as int);
    }
}

/// Appending `k` zeros multiplies by `10^k`.
proof fn lemma_digits_shift_up(s: Seq<char>, k: nat)
    ensures
        digits_value(s + Seq::new(k, |_i: int| '0')) == digits_value(s) * pow10(k),
{
    lemma_digits_concat(s, Seq::new(k, |_i: int| '0'));
    lemma_zeros(k);
}

/// The whole part of the digits `m` shifted by `k` places, capped at
/// `u64::MAX` (see `capped_shift`).
fn shift_capped(m: &Vec<char>, k: i128) -> (r: u64)
    requires
        all_digits(m@),
        -0x100_0000_0000_0000_0000_0000 <= k <= 0x100_0000_0000_0000_0000_0000,
    ensures
        r == capped_shift(m@, k as int),
{
    let mut z: usize = 0;
    while z < m.len() && m[z] == '0'
        invariant
            z <= m.len(),
            forall|i: int| 0 <= i < z ==> m@[i] == '0',
        decreases m.len() - z,
    {
        z += 1;
    }
    let ghost sig = m@.skip(z as int);
    proof {
        assert(m@.take(z as int) + sig =~= m@);
        lemma_digits_concat(m@.take(z as int), sig);
        lemma_all_zeros(m@.take(z as int));
        let p = pow10(sig.len());
        assert(0 * p == 0) by (nonlinear_arith);
        assert(digits_value(m@) == digits_value(sig));
        assert(all_digits(sig));
        lemma_pow10_20();
    }
    let l = m.len() - z;
    if l == 0 {
        proof {
            assert(sig =~= Seq::<char>::empty());
            assert(digits_value(m@) == 0);
            if k >= 0 {
                let p = pow10(k as nat);
                assert(0 * p == 0) by (nonlinear_arith);
            } else {
                lemma_pow10_positive((-k) as nat);
                vstd::arithmetic::div_mod::lemma_fundamental_div_mod_converse(0, pow10((-k) as nat) as int, 0, 0);
            }
        }
        return 0;
    }
    assert(sig[0] != '0');
    let total: i128 = l as i128 + k;
    if total <= 0 {
        proof {
            lemma_digits_below(sig);
            lemma_pow10_grows(sig.len(), (-k) as nat);
            vstd::arithmetic::div_mod::lemma_fundamental_div_mod_converse(
                digits_value(m@) as int,
                pow10((-k) as nat) as int,
                0,
                digits_value(m@) as int,
            );
        }
        return 0;
    }
    let ghost x: Seq<char> = if k >= 0 {
        sig + Seq::new(k as nat, |_i: int| '0')
    } else {
        sig.take(total as int)
    };
    proof {
        if k >= 0 {
            lemma_digits_shift_up(sig, k as nat);
            lemma_zeros(k as nat);
            assert forall|i: int| 0 <= i < x.len() implies is_digit(#[trigger] x[i]) by {
                if i >= sig.len() {
                    assert(x[i] == Seq::new(k as nat, |_i: int| '0')[i - sig.len()]);
                }
            }
        } else {
            lemma_digits_shift_down(sig, (-k) as nat);
        }
        assert(x.len() == total);
        assert(x[0] == sig[0]);
        assert(digits_value(x) == shifted_floor(digits_value(m@), k as int));
    }
    if total > 20 {
        proof {
            lemma_digits_leading(x);
            lemma_pow10_grows(20, (x.len() - 1) as nat);
        }
        return u64::MAX;
    }
    let n: usize = total as usize;
    let mut acc: u128 = 0;
    let mut j: usize = 0;
    assert(x.take(0) =~= Seq::<char>::empty());
    while j < n
        invariant
            j <= n <= 20,
            n == x.len(),
            l == sig.len(),
            z + l == m.len(),
            sig == m@.skip(z as int),
            all_digits(x),
            forall|i: int| 0 <= i < x.len() ==> #[trigger] x[i] == (if i < l { sig[i] } else { '0' }),
            acc == digits_value(x.take(j as int)),
            pow10(20) == 100_000_000_000_000_000_000,
        decreases n - j,
    {
        let c = if j < l { m[z + j] } else { '0' };
        assert(c == x[j as int]);
        proof {
            assert(all_digits(x.take(j as int)));
            lemma_digits_below(x.take(j as int));
            lemma_pow10_grows(j as nat, 20);
        }
        let v = ascii_digit_value(c);
        assert(x.take(j + 1).drop_last() =~= x.take(j as int));
        assert(x.take(j + 1).last() == x[j as int]);
        acc = acc * 10 + v as u128;
        j += 1;
    }
    assert(x.take(n as int) =~= x);
    if acc > u64::MAX as u128 {
        u64::MAX
    } else {
        acc as u64
    }
}

/// Reads the exponent from position `f` (see `exponent_at`), capped in
/// size at `exp_cap() + 1`.
fn read_exponent(t: &Vec<char>, f: usize) -> (r: Option<i128>)
    requires
        f <= t.len(),
    ensures
        match exponent_at(t@, f as int) {
            Some(x) => r matches Some(e) && -(exp_cap() + 1) <= e <= exp_cap() + 1 && (e == x
                || (x > exp_cap() && e == exp_cap() + 1) || (x < -exp_cap() && e == -(exp_cap() + 1))),
            None => r is None,
        },
{
    if f == t.len() {
        return Some(0);
    }
    if t[f] != 'e' && t[f] != 'E' {
        return None;
    }
    let signed_e = f + 1 < t.len() && (t[f + 1] == '-' || t[f + 1] == '+');
    let es = if signed_e { f + 2 } else { f + 1 };
    if es >= t.len() {
        return None;
    }
    let ee = crate::text::skip_digits(t, es);
    proof {
        crate::text::lemma_digits_end(t@, es as int);
    }
    if ee != t.len() {
        return None;
    }
    let x = exponent_value(t, es, ee);
    if t[f + 1] == '-' {
        Some(-(x as i128))
    } else {
        Some(x as i128)
    }
}

/// The digits of a number: `t[b..d]`, then `t[d + 1..f]` when there is a
/// point.
fn mantissa_digits(t: &Vec<char>, b: usize, d: usize, f: usize, point: bool) -> (m: Vec<char>)
    requires
        b <= d <= t.len(),
        point ==> d + 1 <= f <= t.len(),
        forall|k: int| b <= k < d ==> is_digit(#[trigger] t@[k]),
        point ==> forall|k: int| d + 1 <= k < f ==> is_digit(#[trigger] t@[k]),
    ensures
        m@ == t@.subrange(b as int, d as int) + (if point {
            t@.subrange(d + 1, f as int)
        } else {
            Seq::<char>::empty()
        }),
        all_digits(m@),
{
    let mut m: Vec<char> = Vec::new();
    let mut k = b;
    while k < d
        invariant
            b <= k <= d <= t.len(),
            m@ == t@.subrange(b as int, k as int),
        decreases d - k,
    {
        m.push(t[k]);
        assert(m@ =~= t@.subrange(b as int, k + 1));
        k += 1;
    }
    if point {
        let mut k = d + 1;
        assert(t@.subrange(d + 1, d + 1) =~= Seq::<char>::empty());
        assert(m@ =~= t@.subrange(b as int, d as int) + t@.subrange(d + 1, d + 1));
        while k < f
            invariant
                d + 1 <= k <= f <= t.len(),
                m@ == t@.subrange(b as int, d as int) + t@.subrange(d + 1, k as int),
            decreases f - k,
        {
            m.push(t[k]);
            assert(m@ =~= t@.subrange(b as int, d as int) + t@.subrange(d + 1, k + 1));
            k += 1;
        }
    } else {
        assert(m@ =~= t@.subrange(b as int, d as int) + Seq::<char>::empty());
    }
    assert forall|i: int| 0 <= i < m@.len() implies is_digit(#[trigger] m@[i]) by {
        if i < d - b {
            assert(m@[i] == t@[b + i]);
        } else {
            assert(m@[i] == t@[d + 1 + (i - (d - b))]);
        }
    }
    m
}

/// Reads seconds as whole milliseconds (see `decimal_ms`).
fn read_decimal_ms(t: &Vec<char>) -> (r: Option<u64>)
    ensures
        r == (match decimal_ms(t@) { Some(v) => Some(v as u64), None => None::<u64> }),
{
    let signed = t.len() > 0 && (t[0] == '-' || t[0] == '+');
    let neg = t.len() > 0 && t[0] == '-';
    let b: usize = if signed { 1 } else { 0 };
    if spells_from(t, b, "inf") || spells_from(t, b, "infinity") {
        return Some(if neg { 0 } else { u64::MAX });
    }
    if spells_from(t, b, "nan") {
        return Some(0);
    }
    let d = crate::text::skip_digits(t, b);
    proof {
        crate::text::lemma_digits_end(t@, b as int);
    }
    let point = d < t.len() && t[d] == '.';
    let mut f = d;
    if point {
        f = crate::text::skip_digits(t, d + 1);
        proof {
            crate::text::lemma_digits_end(t@, d + 1);
        }
    }
    let fl: usize = if point { f - d - 1 } else { 0 };
    if d == b && fl == 0 {
        return None;
    }
    let e = match read_exponent(t, f) {
        Some(e) => e,
        None => {
            return None;
        },
    };
    if neg {
        return Some(0);
    }
    let m = mantissa_digits(t, b, d, f, point);
    let shift: i128 = e - fl as i128 + 3;
    let r = shift_capped(&m, shift);
    proof {
        let x = exponent_at(t@, f as int)->0;
        if e != x {
            lemma_capped_far(m@, shift as int, x - fl + 3);
        }
    }
    Some(r)
}

/// The value of a timecode in milliseconds, computed without overflow (see
/// `timecode_ms`).
pub fn timecode_total(s: &str) -> (r: Option<u128>)
    ensures
        r == (match timecode_ms(s@) { Some(v) => Some(v as u128), None => None::<u128> }),
        r matches Some(v) ==> v < 0x1_0000_0000_0000_0000_0000_0000,
{
    let p = split_colons(s);
    let ghost pv = crate::text::rows_view(p@);
    assert(pv.len() == p.len());
    if p.len() == 1 {
        assert(pv[0] == p@[0]@);
        match read_decimal_ms(&p[0]) {
            Some(x) => Some(x as u128),
            None => None,
        }
    } else if p.len() == 2 {
        assert(pv[0] == p@[0]@);
        assert(pv[1] == p@[1]@);
        match (read_uint(&p[0]), read_decimal_ms(&p[1])) {
            (Some(m), Some(x)) => Some(m as u128 * 60_000 + x as u128),
            _ => None,
        }
    } else if p.len() == 3 {
        assert(pv[0] == p@[0]@);
        assert(pv[1] == p@[1]@);
        assert(pv[2] == p@[2]@);
        match (read_uint(&p[0]), read_uint(&p[1]), read_decimal_ms(&p[2])) {
            (Some(h), Some(m), Some(x)) => Some(h as u128 * 3_600_000 + m as u128 * 60_000 + x as u128),
            _ => None,
        }
    } else {
        None
    }
}

/// Reading text without a colon only extends the part being read.
proof fn lemma_colon_acc_plain(p: Seq<char>, a: Seq<char>)
    requires
        forall|k: int| 0 <= k < a.len() ==> a[k] != ':',
    ensures
        colon_acc(p + a) == (colon_acc(p).0, colon_acc(p).1 + a),
    decreases a.len(),
{
    if a.len() == 0 {
        assert(p + a =~= p);
        assert(colon_acc(p).1 + a =~= colon_acc(p).1);
    } else {
        lemma_colon_acc_plain(p, a.drop_last());
        assert((p + a).drop_last() =~= p + a.drop_last());
        assert((p + a).last() == a.last());
        assert((colon_acc(p).1 + a.drop_last()).push(a.last()) =~= colon_acc(p).1 + a);
    }
}

/// Reading a colon closes the part being read.
proof fn lemma_colon_acc_colon(p: Seq<char>)
    ensures
        colon_acc(p + ":"@) == (colon_acc(p).0.push(colon_acc(p).1), Seq::<char>::empty()),
{
    reveal_strlit(":");
    assert((p + ":"@).drop_last() =~= p);
    assert((p + ":"@).last() == ':');
}

/// Digits hold no colon.
proof fn lemma_dec_no_colon(n: nat)
    ensures
        forall|k: int| 0 <= k < dec(n).len() ==> dec(n)[k] != ':',
{
    crate::text::lemma_dec_digits(n);
    assert forall|k: int| 0 <= k < dec(n).len() implies dec(n)[k] != ':' by {
        assert(is_digit(dec(n)[k]));
    }
}

/// A run of digits ends at the end of a text made only of digits.
proof fn lemma_digits_to_end(t: Seq<char>, j: int)
    requires
        all_digits(t),
        0 <= j <= t.len(),
    ensures
        digits_end(t, j) == t.len(),
    decreases t.len() - j,
{
    if j < t.len() {
        lemma_digits_to_end(t, j + 1);
    }
}

/// The digits of a number read back as that number.
proof fn lemma_uint_dec(n: u64)
    ensures
        uint_value(dec(n as nat)) == Some(n as nat),
{
    let d = dec(n as nat);
    crate::text::lemma_dec_digits(n as nat);
    crate::text::lemma_dec_len(n as nat);
    assert(is_digit(d[0]));
    assert(d.subrange(0, d.len() as int) =~= d);
}

/// Whole seconds written in digits read as that many thousand milliseconds.
proof fn lemma_seconds_dec(s: u64)
    requires
        s * 1000 <= u64::MAX,
    ensures
        decimal_ms(dec(s as nat)) == Some((s * 1000) as nat),
{
    reveal_strlit("inf");
    reveal_strlit("infinity");
    reveal_strlit("nan");
    let d = dec(s as nat);
    crate::text::lemma_dec_digits(s as nat);
    crate::text::lemma_dec_len(s as nat);
    assert(is_digit(d[0]));
    assert(d.subrange(0, d.len() as int) =~= d);
    assert(!spells(d, "inf"@) && !spells(d, "infinity"@) && !spells(d, "nan"@)) by {
        assert("inf"@[0] == 'i' && "infinity"@[0] == 'i' && "nan"@[0] == 'n');
        if spells(d, "inf"@) || spells(d, "infinity"@) || spells(d, "nan"@) {
            assert(d[0] == d[0]);
        }
    }
    lemma_digits_to_end(d, 0);
    assert(d.subrange(0, d.len() as int) + Seq::<char>::empty() =~= d);
    assert(pow10(3) == 1000) by {
        reveal_with_fuel(pow10, 4);
    }
}

/// Written-out timecodes read back: `H:M:S` with whole numbers is worth
/// `H` hours, `M` minutes and `S` seconds, and `M:S` and `S` read as
/// `0:M:S` and `0:0:S` do.
pub proof fn law_timecode_reads_back(h: u64, m: u64, s: u64)
    requires
        s * 1000 <= u64::MAX,
    ensures
        timecode_ms(dec(h as nat) + ":"@ + dec(m as nat) + ":"@ + dec(s as nat))
            == Some((h * 3_600_000 + m * 60_000 + s * 1000) as nat),
        timecode_ms(dec(m as nat) + ":"@ + dec(s as nat)) == timecode_ms(
            dec(0) + ":"@ + dec(m as nat) + ":"@ + dec(s as nat),
        ),
        timecode_ms(dec(s as nat)) == timecode_ms(dec(0) + ":"@ + dec(0) + ":"@ + dec(s as nat)),
{
    lemma_three_parts(h, m, s);
    lemma_three_parts(0, m, s);
    lemma_three_parts(0, 0, s);
    lemma_uint_dec(h);
    lemma_uint_dec(m);
    lemma_uint_dec(0);
    lemma_seconds_dec(s);
    let dm = dec(m as nat);
    let ds = dec(s as nat);
    lemma_dec_no_colon(m as nat);
    lemma_dec_no_colon(s as nat);
    lemma_colon_acc_plain(Seq::empty(), dm);
    assert(Seq::<char>::empty() + dm =~= dm);
    lemma_colon_acc_colon(dm);
    lemma_colon_acc_plain(dm + ":"@, ds);
    assert(Seq::<char>::empty() + ds =~= ds);
    assert(colon_parts(dm + ":"@ + ds) =~= seq![dm, ds]);
    lemma_colon_acc_plain(Seq::empty(), ds);
    assert(colon_parts(ds) =~= seq![ds]);
}

/// The parts of `H:M:S` written in digits.
proof fn lemma_three_parts(h: u64, m: u64, s: u64)
    ensures
        colon_parts(dec(h as nat) + ":"@ + dec(m as nat) + ":"@ + dec(s as nat))
            == seq![dec(h as nat), dec(m as nat), dec(s as nat)],
{
    let dh = dec(h as nat);
    let dm = dec(m as nat);
    let ds = dec(s as nat);
    lemma_dec_no_colon(h as nat);
    lemma_dec_no_colon(m as nat);
    lemma_dec_no_colon(s as nat);
    lemma_colon_acc_plain(Seq::empty(), dh);
    assert(Seq::<char>::empty() + dh =~= dh);
    lemma_colon_acc_colon(dh);
    lemma_colon_acc_plain(dh + ":"@, dm);
    assert(Seq::<char>::empty() + dm =~= dm);
    lemma_colon_acc_colon(dh + ":"@ + dm);
    lemma_colon_acc_plain(dh + ":"@ + dm + ":"@, ds);
    assert(Seq::<char>::empty() + ds =~= ds);
    assert(colon_parts(dh + ":"@ + dm + ":"@ + ds) =~= seq![dh, dm, ds]);
}

/// Parses a timecode into milliseconds: `HH:MM:SS[.mmm]`, `MM:SS[.mmm]` or
/// seconds (see `timecode_ms`). The value must fit in a `u64`.
pub fn parse_timecode(s: &str) -> (r: Result<u64, PlaybackError>)
    requires
        timecode_ms(s@) matches Some(v) ==> v <= u64::MAX,
    ensures
        match timecode_ms(s@) {
            Some(v) => r == Ok::<u64, PlaybackError>(v as u64),
            None => r matches Err(PlaybackError::InvalidTimecode(t)) && t@ == s@,
        },
{
    match timecode_total(s) {
        Some(v) => Ok(v as u64),
        None => Err(PlaybackError::InvalidTimecode(owned(s))),
    }
}

// ---------------------------------------------------------------------------
// Source files
// ---------------------------------------------------------------------------

/// A copy of a source entry.
pub fn copy_source(s: &Source) -> (r: Source)
    ensures
        r@ == s@,
        r.audio_codec@ == s.audio_codec@,
        r.frame_rate_bits == s.frame_rate_bits,
        r.audio_channels == s.audio_channels,
        r.audio_sample_rate == s.audio_sample_rate,
        r.added@ == s.added@,
{
    Source {
        id: copy_string(&s.id),
        path: copy_string(&s.path),
        original_filename: copy_string(&s.original_filename),
        duration_ms: s.duration_ms,
        video_codec: copy_string(&s.video_codec),
        audio_codec: copy_string(&s.audio_codec),
        resolution: s.resolution,
        frame_rate_bits: s.frame_rate_bits,
        audio_channels: s.audio_channels,
        audio_sample_rate: s.audio_sample_rate,
        added: copy_string(&s.added),
        transcribed: s.transcribed,
        indexed: s.indexed,
    }
}

/// The first manifest entry with the given id.
pub open spec fn source_entry(ss: Seq<Source>, id: Seq<char>) -> Option<Source>
    decreases ss.len(),
{
    if ss.len() == 0 {
        None
    } else if ss[0].id@ == id {
        Some(ss[0])
    } else {
        source_entry(ss.drop_first(), id)
    }
}

/// Whether `a` carries every field of `b`.
pub open spec fn same_source(a: Source, b: Source) -> bool {
    &&& a@ == b@
    &&& a.audio_codec@ == b.audio_codec@
    &&& a.frame_rate_bits == b.frame_rate_bits
    &&& a.audio_channels == b.audio_channels
    &&& a.audio_sample_rate == b.audio_sample_rate
    &&& a.added@ == b.added@
}

/// The file of source `source_id` in the project at `project_dir`, with
/// its manifest entry, every field of it; an error when the manifest has no
/// such source.
pub fn resolve_source_path(source_id: &str, project_dir: &str, manifest: &Manifest) -> (r: Result<(String, Source), PlaybackError>)
    ensures
        match source_for(manifest@, source_id@) {
            Some(src) => r matches Ok((p, s)) && s@ == src && p@ == joined(project_dir@, src.path)
                && same_source(s, source_entry(manifest.sources@, source_id@).unwrap()),
            None => r matches Err(PlaybackError::SourceNotFound(id)) && id@ == source_id@,
        },
{
    let mut i: usize = 0;
    let ghost sv = manifest@;
    assert(sv.skip(0) =~= sv);
    assert(manifest.sources@.skip(0) =~= manifest.sources@);
    while i < manifest.sources.len()
        invariant
            i <= manifest.sources.len(),
            sv == manifest@,
            sv.len() == manifest.sources.len(),
            source_for(sv, source_id@) == source_for(sv.skip(i as int), source_id@),
            source_entry(manifest.sources@, source_id@) == source_entry(manifest.sources@.skip(i as int), source_id@),
        decreases manifest.sources.len() - i,
    {
        assert(sv.skip(i as int)[0] == manifest.sources@[i as int]@);
        assert(sv.skip(i as int).drop_first() =~= sv.skip(i + 1));
        assert(manifest.sources@.skip(i as int)[0] == manifest.sources@[i as int]);
        assert(manifest.sources@.skip(i as int).drop_first() =~= manifest.sources@.skip(i + 1));
        if str_eq(manifest.sources[i].id.as_str(), source_id) {
            let src = copy_source(&manifest.sources[i]);
            let path = join_path(project_dir, src.path.as_str());
            return Ok((path, src));
        }
        i += 1;
    }
    Err(PlaybackError::SourceNotFound(owned(source_id)))
}

// ---------------------------------------------------------------------------
// The mpv script that marks points of interest
// ---------------------------------------------------------------------------

/// The script text before the marker file path.
pub open spec fn script_head() -> Seq<char> {
    "-- ar-edit POI marker script\nlocal marker_path = \""@
}

/// The script text after the marker file path.
pub open spec fn script_tail() -> Seq<char> {
    "\"
local pending_time = nil

local function clear_bindings()
    mp.remove_key_binding(\"poi-h\")
    mp.remove_key_binding(\"poi-i\")
    mp.remove_key_binding(\"poi-t\")
    mp.remove_key_binding(\"poi-c\")
    mp.remove_key_binding(\"poi-n\")
    mp.remove_key_binding(\"poi-esc\")
end

local function write_marker(category)
    if pending_time == nil then return end
    local ms = math.floor(pending_time * 1000)
    local f = io.open(marker_path, \"a\")
    if f then
        f:write(string.format(\"%d %s\\n\", ms, category))
        f:close()
    end
    local t = string.format(\"%d:%02d.%d\", math.floor(pending_time/60), math.floor(pending_time) % 60, math.floor((pending_time * 10) % 10))
    mp.osd_message(\"\\u{2713} \" .. category .. \" @ \" .. t, 2)
    pending_time = nil
    clear_bindings()
end

local function cancel()
    mp.osd_message(\"cancelled\", 1)
    pending_time = nil
    clear_bindings()
end

mp.add_key_binding(\"i\", \"poi-mark\", function()
    pending_time = mp.get_property_number(\"time-pos\")
    mp.osd_message(\"[h]ighlight  [i]ssue  [t]ransition  [c]ue  [n]ote  (Esc cancel)\", 10)
    mp.add_forced_key_binding(\"h\", \"poi-h\", function() write_marker(\"highlight\") end)
    mp.add_forced_key_binding(\"i\", \"poi-i\", function() write_marker(\"issue\") end)
    mp.add_forced_key_binding(\"t\", \"poi-t\", function() write_marker(\"transition\") end)
    mp.add_forced_key_binding(\"c\", \"poi-c\", function() write_marker(\"cue\") end)
    mp.add_forced_key_binding(\"n\", \"poi-n\", function() write_marker(\"note\") end)
    mp.add_forced_key_binding(\"ESC\", \"poi-esc\", cancel)
end)
"@
}

/// The Lua script for mpv that captures points of interest: `i` opens a
/// menu of categories, and the chosen one is appended to `marker_file` as
/// `<milliseconds> <category>`.
pub fn generate_mpv_poi_script(marker_file: &str) -> (r: String)
    ensures
        r@ == script_head() + marker_file@ + script_tail(),
{
    let mut r = owned("-- ar-edit POI marker script\nlocal marker_path = \"");
    push_str(&mut r, marker_file);
    push_str(&mut r, "\"
local pending_time = nil

local function clear_bindings()
    mp.remove_key_binding(\"poi-h\")
    mp.remove_key_binding(\"poi-i\")
    mp.remove_key_binding(\"poi-t\")
    mp.remove_key_binding(\"poi-c\")
    mp.remove_key_binding(\"poi-n\")
    mp.remove_key_binding(\"poi-esc\")
end

local function write_marker(category)
    if pending_time == nil then return end
    local ms = math.floor(pending_time * 1000)
    local f = io.open(marker_path, \"a\")
    if f then
        f:write(string.format(\"%d %s\\n\", ms, category))
        f:close()
    end
    local t = string.format(\"%d:%02d.%d\", math.floor(pending_time/60), math.floor(pending_time) % 60, math.floor((pending_time * 10) % 10))
    mp.osd_message(\"\\u{2713} \" .. category .. \" @ \" .. t, 2)
    pending_time = nil
    clear_bindings()
end

local function cancel()
    mp.osd_message(\"cancelled\", 1)
    pending_time = nil
    clear_bindings()
end

mp.add_key_binding(\"i\", \"poi-mark\", function()
    pending_time = mp.get_property_number(\"time-pos\")
    mp.osd_message(\"[h]ighlight  [i]ssue  [t]ransition  [c]ue  [n]ote  (Esc cancel)\", 10)
    mp.add_forced_key_binding(\"h\", \"poi-h\", function() write_marker(\"highlight\") end)
    mp.add_forced_key_binding(\"i\", \"poi-i\", function() write_marker(\"issue\") end)
    mp.add_forced_key_binding(\"t\", \"poi-t\", function() write_marker(\"transition\") end)
    mp.add_forced_key_binding(\"c\", \"poi-c\", function() write_marker(\"cue\") end)
    mp.add_forced_key_binding(\"n\", \"poi-n\", function() write_marker(\"note\") end)
    mp.add_forced_key_binding(\"ESC\", \"poi-esc\", cancel)
end)
");
    r
}

// ---------------------------------------------------------------------------
// Base64 and VLC's HTTP interface
// ---------------------------------------------------------------------------

/// The base64 alphabet.
pub open spec fn b64_char(v: int) -> char {
    if v < 26 {
        (65 + v) as char
    } else if v < 52 {
        (97 + v - 26) as char
    } else if v < 62 {
        (48 + v - 52) as char
    } else if v == 62 {
        '+'
    } else {
        '/'
    }
}

fn b64_char_exec(v: u32) -> (c: char)
    requires
        v < 64,
    ensures
        c == b64_char(v as int),
{
    if v < 26 {
        ((65 + v) as u8) as char
    } else if v < 52 {
        ((97 + v - 26) as u8) as char
    } else if v < 62 {
        ((48 + v - 52) as u8) as char
    } else if v == 62 {
        '+'
    } else {
        '/'
    }
}

/// The base64 text of a group of one to three bytes (padded with `=`).
pub open spec fn b64_group(g: Seq<u8>) -> Seq<char> {
    let b0 = g[0] as int;
    let b1: int = if g.len() > 1 { g[1] as int } else { 0 };
    let b2: int = if g.len() > 2 { g[2] as int } else { 0 };
    seq![
        b64_char(b0 / 4),
        b64_char((b0 % 4) * 16 + b1 / 16),
        if g.len() > 1 { b64_char((b1 % 16) * 4 + b2 / 64) } else { '=' },
        if g.len() > 2 { b64_char(b2 % 64) } else { '=' },
    ]
}

/// Standard padded base64 of `input`, three bytes at a time.
pub open spec fn b64(input: Seq<u8>) -> Seq<char>
    decreases input.len(),
{
    if input.len() == 0 {
        Seq::empty()
    } else if input.len() <= 3 {
        b64_group(input)
    } else {
        b64_group(input.take(3)) + b64(input.skip(3))
    }
}

/// Encodes bytes in standard padded base64.
pub fn base64_encode(input: &[u8]) -> (r: String)
    ensures
        r@ == b64(input@),
{
    let mut r = String::new();
    let mut i: usize = 0;
    assert(input@.skip(0) =~= input@);
    while i < input.len()
        invariant
            i <= input.len(),
            r@ + b64(input@.skip(i as int)) == b64(input@),
        decreases input.len() - i,
    {
        let n = input.len() - i;
        let b0 = input[i] as u32;
        let b1: u32 = if n > 1 { input[i + 1] as u32 } else { 0 };
        let b2: u32 = if n > 2 { input[i + 2] as u32 } else { 0 };
        let ghost g = if n <= 3 { input@.skip(i as int) } else { input@.skip(i as int).take(3) };
        assert(g[0] == input@[i as int]);
        assert(g.len() > 1 ==> g[1] == input@[i + 1]);
        assert(g.len() > 2 ==> g[2] == input@[i + 2]);
        let ghost before = r@;
        push_char(&mut r, b64_char_exec(b0 / 4));
        push_char(&mut r, b64_char_exec((b0 % 4) * 16 + b1 / 16));
        if n > 1 {
            push_char(&mut r, b64_char_exec((b1 % 16) * 4 + b2 / 64));
        } else {
            push_char(&mut r, '=');
        }
        if n > 2 {
            push_char(&mut r, b64_char_exec(b2 % 64));
        } else {
            push_char(&mut r, '=');
        }
        assert(r@ =~= before + b64_group(g));
        if n <= 3 {
            assert(input@.skip(i as int + n) =~= Seq::<u8>::empty());
            i = input.len();
        } else {
            assert(input@.skip(i as int).skip(3) =~= input@.skip(i + 3));
            i = i + 3;
        }
    }
    assert(input@.skip(input.len() as int) =~= Seq::<u8>::empty());
    r
}

/// The HTTP request that asks VLC's interface on `port` for its status,
/// authenticated with the password `ar-edit`.
pub fn vlc_status_request(port: u16) -> (r: String)
    ensures
        r@ == "GET /requests/status.json HTTP/1.0\r\nAuthorization: Basic "@ + b64(":ar-edit"@.map_values(|c: char| c as u8))
            + "\r\nHost: 127.0.0.1:"@ + dec(port as nat) + "\r\n\r\n"@,
{
    let bytes: Vec<u8> = vec![58u8, 97, 114, 45, 101, 100, 105, 116];
    proof {
        reveal_strlit(":ar-edit");
        assert(bytes@ =~= ":ar-edit"@.map_values(|c: char| c as u8));
    }
    let auth = base64_encode(bytes.as_slice());
    let mut r = owned("GET /requests/status.json HTTP/1.0\r\nAuthorization: Basic ");
    push_str(&mut r, auth.as_str());
    push_str(&mut r, "\r\nHost: 127.0.0.1:");
    push_dec(&mut r, port as u64);
    push_str(&mut r, "\r\n\r\n");
    r
}

} // verus!
