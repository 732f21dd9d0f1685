//! Resolving a user-supplied URL or query into playable items: the
//! shapes of the video platform's API answers, the ISO-8601 duration
//! grammar those answers use, and the recognizers that classify what
//! the user pasted. The HTTP calls themselves stay with the caller.

use vstd::prelude::*;

use crate::playback::Video;
use crate::util::{digits_char_value, digits_end, matches_at, matches_pat, read_number};

verus! {

broadcast use vstd::prelude::Seq::lemma_filter_push;

/// Answer of the video search API.
#[derive(Debug)]
pub struct ResponseSearchVideoApi {
    pub items: Vec<SearchVideoItem>,
}

/// One search hit.
#[derive(Debug)]
pub struct SearchVideoItem {
    pub id: SearchVideoId,
}

/// The id object of a search hit.
#[derive(Debug)]
pub struct SearchVideoId {
    pub video_id: String,
}

/// One entry of the video-details API.
#[derive(Debug)]
pub struct VideoItem {
    pub id: String,
    pub snippet: VideoSnippet,
    pub content_details: ContentDetails,
}

/// The title part of a video entry.
#[derive(Debug)]
pub struct VideoSnippet {
    pub title: String,
}

/// The duration part of a video entry, as an ISO-8601 duration text.
#[derive(Debug)]
pub struct ContentDetails {
    pub duration: String,
}

/// Answer of the video-details API.
#[derive(Debug)]
pub struct ResponseVideoApi {
    pub items: Vec<VideoItem>,
}

/// The resource part of a playlist entry.
#[derive(Debug)]
pub struct PlaylistSnippet {
    pub resource_id: ResourceId,
}

/// The video id inside a playlist entry.
#[derive(Debug)]
pub struct ResourceId {
    pub video_id: String,
}

/// One entry of the playlist-items API.
#[derive(Debug)]
pub struct PlaylistItem {
    pub id: String,
    pub snippet: PlaylistSnippet,
}

/// Answer of the playlist-items API.
#[derive(Debug)]
pub struct ResponsePlaylistApi {
    pub items: Vec<PlaylistItem>,
}

/// Links a metadata answer carries for a track.
#[derive(Debug)]
pub struct ExternalUrls {
    pub spotify: String,
}

// --- ISO-8601 durations, whole units only -------------------------------

/// One duration component at `i`: one to nine digits and a designator.
pub open spec fn iso_component(s: Seq<char>, i: int, des: char) -> Option<(int, int)> {
    let j = digits_end(s, i);
    if j <= i || j - i > 9 {
        None
    } else if j < s.len() && s[j] == des {
        Some((j + 1, digits_char_value(s, i, j)))
    } else {
        None
    }
}

/// An optional component: position, value, and whether it was there.
pub open spec fn iso_opt(s: Seq<char>, i: int, des: char) -> (int, int, bool) {
    match iso_component(s, i, des) {
        Some(jv) => (jv.0, jv.1, true),
        None => (i, 0, false),
    }
}

/// The date-and-time form after `P`: optional years, months, days,
/// then optionally `T` with optional hours, minutes, seconds. At least
/// one component; nothing after; years and months only when zero (a
/// month has no fixed length in seconds).
pub open spec fn iso_basic_secs(s: Seq<char>, i0: int) -> Option<u64> {
    let (i1, y, has_y) = iso_opt(s, i0, 'Y');
    let (i2, mo, has_mo) = iso_opt(s, i1, 'M');
    let (i3, d, has_d) = iso_opt(s, i2, 'D');
    let has_t = i3 < s.len() && s[i3] == 'T';
    let (i4, h, has_h) = if has_t {
        iso_opt(s, i3 + 1, 'H')
    } else {
        (i3, 0int, false)
    };
    let (i5, mi, has_mi) = if has_t {
        iso_opt(s, i4, 'M')
    } else {
        (i3, 0int, false)
    };
    let (i6, sec, has_s) = if has_t {
        iso_opt(s, i5, 'S')
    } else {
        (i3, 0int, false)
    };
    let any = has_y || has_mo || has_d || has_h || has_mi || has_s;
    if i6 == s.len() && any && y == 0 && mo == 0 {
        Some((d * 86400 + h * 3600 + mi * 60 + sec) as u64)
    } else {
        None
    }
}

/// Seconds an ISO-8601 duration text is worth: `P` then either the
/// week form or the date-and-time form, consuming the whole text.
pub open spec fn spec_iso_duration_secs(s: Seq<char>) -> Option<u64> {
    if s.len() < 1 || s[0] != 'P' {
        None
    } else {
        match iso_component(s, 1, 'W') {
            Some(jv) => if jv.0 == s.len() {
                Some((jv.1 * 604800) as u64)
            } else {
                None
            },
            None => iso_basic_secs(s, 1),
        }
    }
}

fn iso_component_exec(s: &str, i: usize, len: usize, des: char) -> (r: Option<(usize, u32)>)
    requires
        len == s@.len(),
        i <= len,
    ensures
        match r {
            Some(jv) => iso_component(s@, i as int, des) == Some((jv.0 as int, jv.1 as int)) && i
                < jv.0 <= len && jv.1 < 1_000_000_000,
            None => iso_component(s@, i as int, des) is None,
        },
{
    match read_number(s, i, len) {
        Some(jv) => {
            let (j, v) = jv;
            if j < len && s.get_char(j) == des {
                Some((j + 1, v))
            } else {
                None
            }
        },
        None => None,
    }
}

#[verifier::rlimit(50)]
fn iso_basic_exec(s: &str, i0: usize, len: usize) -> (r: Option<u64>)
    requires
        len == s@.len(),
        i0 <= len,
    ensures
        r == iso_basic_secs(s@, i0 as int),
{
    let (i1, y, has_y) = match iso_component_exec(s, i0, len, 'Y') {
        Some(jv) => (jv.0, jv.1, true),
        None => (i0, 0u32, false),
    };
    let (i2, mo, has_mo) = match iso_component_exec(s, i1, len, 'M') {
        Some(jv) => (jv.0, jv.1, true),
        None => (i1, 0u32, false),
    };
    let (i3, d, has_d) = match iso_component_exec(s, i2, len, 'D') {
        Some(jv) => (jv.0, jv.1, true),
        None => (i2, 0u32, false),
    };
    let has_t = i3 < len && s.get_char(i3) == 'T';
    let (i4, h, has_h) = if has_t {
        match iso_component_exec(s, i3 + 1, len, 'H') {
            Some(jv) => (jv.0, jv.1, true),
            None => (i3 + 1, 0u32, false),
        }
    } else {
        (i3, 0u32, false)
    };
    let (i5, mi, has_mi) = if has_t {
        match iso_component_exec(s, i4, len, 'M') {
            Some(jv) => (jv.0, jv.1, true),
            None => (i4, 0u32, false),
        }
    } else {
        (i3, 0u32, false)
    };
    let (i6, sec, has_s) = if has_t {
        match iso_component_exec(s, i5, len, 'S') {
            Some(jv) => (jv.0, jv.1, true),
            None => (i5, 0u32, false),
        }
    } else {
        (i3, 0u32, false)
    };
    let any = has_y || has_mo || has_d || has_h || has_mi || has_s;
    if i6 == len && any && y == 0 && mo == 0 {
        Some((d as u64) * 86400 + (h as u64) * 3600 + (mi as u64) * 60 + (sec as u64))
    } else {
        None
    }
}

/// Seconds an ISO-8601 duration text (as the video API reports
/// durations, e.g. `PT3M20S`) is worth; `None` when the text does not
/// fit the whole-unit grammar or needs a calendar to resolve.
pub fn parse_iso_duration(s: &str) -> (r: Option<u64>)
    ensures
        r == spec_iso_duration_secs(s@),
{
    let len = s.unicode_len();
    if len < 1 {
        return None;
    }
    if s.get_char(0) != 'P' {
        return None;
    }
    match iso_component_exec(s, 1, len, 'W') {
        Some(jv) => {
            let (j, w) = jv;
            if j == len {
                Some((w as u64) * 604800)
            } else {
                None
            }
        },
        None => iso_basic_exec(s, 1, len),
    }
}

// --- recognizing what the user pasted ------------------------------------

pub open spec fn is_alnum(c: char) -> bool {
    (48 <= c as int <= 57) || (65 <= c as int <= 90) || (97 <= c as int <= 122)
}

fn char_is_alnum(c: char) -> (b: bool)
    ensures
        b == is_alnum(c),
{
    let code = c as u32;
    (48 <= code && code <= 57) || (65 <= code && code <= 90) || (97 <= code && code <= 122)
}

/// The first index at or after `i` holding a non-alphanumeric.
pub open spec fn alnum_end(s: Seq<char>, i: int) -> int
    decreases s.len() - i,
{
    if i < 0 || i >= s.len() {
        i
    } else if is_alnum(s[i]) {
        alnum_end(s, i + 1)
    } else {
        i
    }
}

proof fn lemma_alnum_end_at(s: Seq<char>, i: int, j: int)
    requires
        0 <= i <= j <= s.len(),
        forall|k: int| i <= k < j ==> is_alnum(#[trigger] s[k]),
        j == s.len() || !is_alnum(s[j]),
    ensures
        alnum_end(s, i) == j,
    decreases j - i,
{
    if i < j {
        lemma_alnum_end_at(s, i + 1, j);
    }
}

pub open spec fn spotify_prefix() -> Seq<char> {
    seq!['o', 'p', 'e', 'n', '.', 's', 'p', 'o', 't', 'i', 'f', 'y', '.', 'c', 'o', 'm', '/']
}

pub open spec fn track_seg() -> Seq<char> {
    seq!['t', 'r', 'a', 'c', 'k', '/']
}

pub open spec fn playlist_seg() -> Seq<char> {
    seq!['p', 'l', 'a', 'y', 'l', 'i', 's', 't', '/']
}

/// A track or playlist link at `p`: the host path, the segment, and at
/// least one id character. Yields whether it is a playlist and where
/// the id starts.
pub open spec fn spotify_kind_at(s: Seq<char>, p: int) -> Option<(bool, int)> {
    if matches_at(s, p, spotify_prefix()) {
        if matches_at(s, p + 17, track_seg()) && p + 23 < s.len() && is_alnum(s[p + 23]) {
            Some((false, p + 23))
        } else if matches_at(s, p + 17, playlist_seg()) && p + 26 < s.len() && is_alnum(
            s[p + 26],
        ) {
            Some((true, p + 26))
        } else {
            None
        }
    } else {
        None
    }
}

/// The first position at or after `p` where a track or playlist link
/// starts.
pub open spec fn spotify_first(s: Seq<char>, p: int) -> Option<int>
    decreases s.len() - p,
{
    if p < 0 || p >= s.len() {
        None
    } else if spotify_kind_at(s, p) is Some {
        Some(p)
    } else {
        spotify_first(s, p + 1)
    }
}

/// What `extract_spotify_id` finds: whether the first link is a
/// playlist, and its id's bounds (the maximal alphanumeric run).
pub open spec fn spec_extract_spotify(s: Seq<char>) -> Option<(bool, int, int)> {
    match spotify_first(s, 0) {
        Some(p) => {
            let kind = spotify_kind_at(s, p).unwrap();
            Some((kind.0, kind.1, alnum_end(s, kind.1)))
        },
        None => None,
    }
}

proof fn lemma_spotify_first_from(s: Seq<char>, a: int, p: int)
    requires
        0 <= a <= p < s.len(),
        spotify_kind_at(s, p) is Some,
        forall|q: int| a <= q < p ==> #[trigger] spotify_kind_at(s, q) is None,
    ensures
        spotify_first(s, a) == Some(p),
    decreases p - a,
{
    if a < p {
        lemma_spotify_first_from(s, a + 1, p);
    }
}

proof fn lemma_spotify_first_none(s: Seq<char>, a: int)
    requires
        0 <= a <= s.len(),
        forall|q: int| a <= q < s.len() ==> #[trigger] spotify_kind_at(s, q) is None,
    ensures
        spotify_first(s, a) is None,
    decreases s.len() - a,
{
    if a < s.len() {
        lemma_spotify_first_none(s, a + 1);
    }
}

fn spotify_kind_check(s: &str, p: usize, len: usize) -> (r: Option<(bool, usize)>)
    requires
        len == s@.len(),
    ensures
        match r {
            Some(k) => spotify_kind_at(s@, p as int) == Some((k.0, k.1 as int)) && k.1 < len,
            None => spotify_kind_at(s@, p as int) is None,
        },
{
    proof {
        reveal_strlit("open.spotify.com/");
        reveal_strlit("track/");
        reveal_strlit("playlist/");
        assert("open.spotify.com/"@ =~= spotify_prefix());
        assert("track/"@ =~= track_seg());
        assert("playlist/"@ =~= playlist_seg());
    }
    if !matches_pat(s, p, len, "open.spotify.com/") {
        return None;
    }
    if matches_pat(s, p + 17, len, "track/") {
        proof {
            assert(s@[(p as int + 17) + 0] == track_seg()[0]);
            if matches_at(s@, p as int + 17, playlist_seg()) {
                assert(s@[(p as int + 17) + 0] == playlist_seg()[0]);
            }
        }
        if p + 23 < len && char_is_alnum(s.get_char(p + 23)) {
            Some((false, p + 23))
        } else {
            None
        }
    } else if matches_pat(s, p + 17, len, "playlist/") {
        if p + 26 < len && char_is_alnum(s.get_char(p + 26)) {
            Some((true, p + 26))
        } else {
            None
        }
    } else {
        None
    }
}

/// Find the first track or playlist link in `url`: its segment kind
/// (`"track"` or `"playlist"`) and its id, the maximal alphanumeric
/// run after the segment.
pub fn extract_spotify_id(url: &str) -> (r: Option<(String, String)>)
    ensures
        match r {
            Some(ki) => ({
                &&& spec_extract_spotify(url@) matches Some((pl, st, en))
                &&& ki.0@ == if pl {
                    "playlist"@
                } else {
                    "track"@
                }
                &&& ki.1@ == url@.subrange(st, en)
            }),
            None => spec_extract_spotify(url@) is None,
        },
{
    let len = url.unicode_len();
    let mut p: usize = 0;
    while p < len
        invariant
            p <= len,
            len == url@.len(),
            forall|q: int| 0 <= q < p ==> #[trigger] spotify_kind_at(url@, q) is None,
        decreases len - p,
    {
        match spotify_kind_check(url, p, len) {
            Some(k) => {
                let (is_playlist, st) = k;
                proof {
                    lemma_spotify_first_from(url@, 0, p as int);
                }
                // scan the id to its end
                let mut en: usize = st;
                while en < len && char_is_alnum(url.get_char(en))
                    invariant
                        st <= en <= len,
                        len == url@.len(),
                        forall|t: int| st <= t < en ==> is_alnum(#[trigger] url@[t]),
                    decreases len - en,
                {
                    en += 1;
                }
                proof {
                    lemma_alnum_end_at(url@, st as int, en as int);
                }
                let kind = if is_playlist {
                    String::from_str("playlist")
                } else {
                    String::from_str("track")
                };
                let id = url.substring_char(st, en).to_owned();
                return Some((kind, id));
            },
            None => {
                p += 1;
            },
        }
    }
    proof {
        lemma_spotify_first_none(url@, 0);
    }
    None
}

// --- video-platform playlist ids ------------------------------------------

pub open spec fn is_plid_char(c: char) -> bool {
    is_alnum(c) || c == '-' || c == '_'
}

fn char_is_plid(c: char) -> (b: bool)
    ensures
        b == is_plid_char(c),
{
    char_is_alnum(c) || c == '-' || c == '_'
}

/// The first index at or after `i` holding a non-id character.
pub open spec fn plid_end(s: Seq<char>, i: int) -> int
    decreases s.len() - i,
{
    if i < 0 || i >= s.len() {
        i
    } else if is_plid_char(s[i]) {
        plid_end(s, i + 1)
    } else {
        i
    }
}

proof fn lemma_plid_end_at(s: Seq<char>, i: int, j: int)
    requires
        0 <= i <= j <= s.len(),
        forall|k: int| i <= k < j ==> is_plid_char(#[trigger] s[k]),
        j == s.len() || !is_plid_char(s[j]),
    ensures
        plid_end(s, i) == j,
    decreases j - i,
{
    if i < j {
        lemma_plid_end_at(s, i + 1, j);
    }
}

/// Which playlist-id prefix starts at `p` (at most one can).
pub open spec fn yt_prefix_len_at(s: Seq<char>, p: int) -> Option<int> {
    if matches_at(s, p, seq!['P', 'L']) || matches_at(s, p, seq!['L', 'L']) || matches_at(
        s,
        p,
        seq!['E', 'C'],
    ) || matches_at(s, p, seq!['U', 'U']) || matches_at(s, p, seq!['F', 'L']) || matches_at(
        s,
        p,
        seq!['R', 'D'],
    ) || matches_at(s, p, seq!['U', 'L']) || matches_at(s, p, seq!['T', 'L']) || matches_at(
        s,
        p,
        seq!['P', 'U'],
    ) {
        Some(2)
    } else if matches_at(s, p, seq!['O', 'L', 'A', 'K', '5', 'u', 'y', '_']) {
        Some(8)
    } else {
        None
    }
}

/// A playlist id starting at `p`: a known prefix followed by at least
/// ten id characters (taken maximally), or the bare radio-mix mark
/// `RDMM`. Yields the end of the id.
pub open spec fn yt_match_at(s: Seq<char>, p: int) -> Option<int> {
    let rdmm = if matches_at(s, p, seq!['R', 'D', 'M', 'M']) {
        Some(p + 4)
    } else {
        None
    };
    match yt_prefix_len_at(s, p) {
        Some(plen) => {
            let st = p + plen;
            let en = plid_end(s, st);
            if en - st >= 10 {
                Some(en)
            } else {
                rdmm
            }
        },
        None => rdmm,
    }
}

/// The first position at or after `p` where a playlist id starts.
pub open spec fn yt_first(s: Seq<char>, p: int) -> Option<int>
    decreases s.len() - p,
{
    if p < 0 || p >= s.len() {
        None
    } else if yt_match_at(s, p) is Some {
        Some(p)
    } else {
        yt_first(s, p + 1)
    }
}

/// What `find_playlist_id` finds: the bounds of the first playlist id.
pub open spec fn spec_find_playlist_id(s: Seq<char>) -> Option<(int, int)> {
    match yt_first(s, 0) {
        Some(p) => Some((p, yt_match_at(s, p).unwrap())),
        None => None,
    }
}

proof fn lemma_yt_first_from(s: Seq<char>, a: int, p: int)
    requires
        0 <= a <= p < s.len(),
        yt_match_at(s, p) is Some,
        forall|q: int| a <= q < p ==> #[trigger] yt_match_at(s, q) is None,
    ensures
        yt_first(s, a) == Some(p),
    decreases p - a,
{
    if a < p {
        lemma_yt_first_from(s, a + 1, p);
    }
}

proof fn lemma_yt_first_none(s: Seq<char>, a: int)
    requires
        0 <= a <= s.len(),
        forall|q: int| a <= q < s.len() ==> #[trigger] yt_match_at(s, q) is None,
    ensures
        yt_first(s, a) is None,
    decreases s.len() - a,
{
    if a < s.len() {
        lemma_yt_first_none(s, a + 1);
    }
}

fn yt_prefix_check(s: &str, p: usize, len: usize) -> (r: Option<usize>)
    requires
        len == s@.len(),
    ensures
        match r {
            Some(plen) => yt_prefix_len_at(s@, p as int) == Some(plen as int),
            None => yt_prefix_len_at(s@, p as int) is None,
        },
{
    proof {
        reveal_strlit("PL");
        reveal_strlit("LL");
        reveal_strlit("EC");
        reveal_strlit("UU");
        reveal_strlit("FL");
        reveal_strlit("RD");
        reveal_strlit("UL");
        reveal_strlit("TL");
        reveal_strlit("PU");
        reveal_strlit("OLAK5uy_");
        assert("PL"@ =~= seq!['P', 'L']);
        assert("LL"@ =~= seq!['L', 'L']);
        assert("EC"@ =~= seq!['E', 'C']);
        assert("UU"@ =~= seq!['U', 'U']);
        assert("FL"@ =~= seq!['F', 'L']);
        assert("RD"@ =~= seq!['R', 'D']);
        assert("UL"@ =~= seq!['U', 'L']);
        assert("TL"@ =~= seq!['T', 'L']);
        assert("PU"@ =~= seq!['P', 'U']);
        assert("OLAK5uy_"@ =~= seq!['O', 'L', 'A', 'K', '5', 'u', 'y', '_']);
    }
    if matches_pat(s, p, len, "PL") || matches_pat(s, p, len, "LL") || matches_pat(s, p, len, "EC")
        || matches_pat(s, p, len, "UU") || matches_pat(s, p, len, "FL") || matches_pat(
        s,
        p,
        len,
        "RD",
    ) || matches_pat(s, p, len, "UL") || matches_pat(s, p, len, "TL") || matches_pat(
        s,
        p,
        len,
        "PU",
    ) {
        Some(2)
    } else if matches_pat(s, p, len, "OLAK5uy_") {
        Some(8)
    } else {
        None
    }
}

fn yt_match_check(s: &str, p: usize, len: usize) -> (r: Option<usize>)
    requires
        len == s@.len(),
        p <= len,
    ensures
        match r {
            Some(en) => yt_match_at(s@, p as int) == Some(en as int) && p <= en <= len,
            None => yt_match_at(s@, p as int) is None,
        },
{
    proof {
        reveal_strlit("RDMM");
        assert("RDMM"@ =~= seq!['R', 'D', 'M', 'M']);
    }
    let rdmm: bool = matches_pat(s, p, len, "RDMM");
    match yt_prefix_check(s, p, len) {
        Some(plen) => {
            let st = p + plen;
            proof {
                if plen == 2 {
                    assert(matches_at(s@, p as int, seq!['P', 'L']) || matches_at(
                        s@,
                        p as int,
                        seq!['L', 'L'],
                    ) || matches_at(s@, p as int, seq!['E', 'C']) || matches_at(
                        s@,
                        p as int,
                        seq!['U', 'U'],
                    ) || matches_at(s@, p as int, seq!['F', 'L']) || matches_at(
                        s@,
                        p as int,
                        seq!['R', 'D'],
                    ) || matches_at(s@, p as int, seq!['U', 'L']) || matches_at(
                        s@,
                        p as int,
                        seq!['T', 'L'],
                    ) || matches_at(s@, p as int, seq!['P', 'U']));
                }
            }
            let mut en: usize = st;
            while en < len && char_is_plid(s.get_char(en))
                invariant
                    st <= en <= len,
                    len == s@.len(),
                    forall|t: int| st <= t < en ==> is_plid_char(#[trigger] s@[t]),
                decreases len - en,
            {
                en += 1;
            }
            proof {
                lemma_plid_end_at(s@, st as int, en as int);
            }
            if en - st >= 10 {
                Some(en)
            } else if rdmm {
                Some(p + 4)
            } else {
                None
            }
        },
        None => {
            if rdmm {
                Some(p + 4)
            } else {
                None
            }
        },
    }
}

/// Find the first video-platform playlist id in `url` (prefix
/// included, as the enqueue command forwards it).
pub fn find_playlist_id(url: &str) -> (r: Option<String>)
    ensures
        match r {
            Some(id) => ({
                &&& spec_find_playlist_id(url@) matches Some((p, en))
                &&& id@ == url@.subrange(p, en)
            }),
            None => spec_find_playlist_id(url@) is None,
        },
{
    let len = url.unicode_len();
    let mut p: usize = 0;
    while p < len
        invariant
            p <= len,
            len == url@.len(),
            forall|q: int| 0 <= q < p ==> #[trigger] yt_match_at(url@, q) is None,
        decreases len - p,
    {
        match yt_match_check(url, p, len) {
            Some(en) => {
                proof {
                    lemma_yt_first_from(url@, 0, p as int);
                }
                return Some(url.substring_char(p, en).to_owned());
            },
            None => {
                p += 1;
            },
        }
    }
    proof {
        lemma_yt_first_none(url@, 0);
    }
    None
}

// --- what the enqueue command does with a pasted URL ----------------------

/// How a pasted URL or query is resolved into items.
pub enum UrlKind {
    /// A video-platform playlist: fetch its items, then their details.
    YoutubePlaylist(String),
    /// A playlist link of the music-metadata service: fetch its
    /// tracks, search each as a video.
    SpotifyPlaylist(String),
    /// A track link of the music-metadata service: fetch the track,
    /// search it as a video.
    SpotifyTrack(String),
    /// Anything else is searched as it stands.
    Other,
}

/// Classify a pasted URL the way the metadata resolver dispatches it:
/// a video-platform playlist id wins, then a playlist or track link of
/// the music-metadata service, else a plain search query.
pub fn classify_url(url: &str) -> (r: UrlKind)
    ensures
        match r {
            UrlKind::YoutubePlaylist(id) => ({
                &&& spec_find_playlist_id(url@) matches Some((p, en))
                &&& id@ == url@.subrange(p, en)
            }),
            UrlKind::SpotifyPlaylist(id) => ({
                &&& spec_find_playlist_id(url@) is None
                &&& spec_extract_spotify(url@) matches Some((pl, st, en))
                &&& pl
                &&& id@ == url@.subrange(st, en)
            }),
            UrlKind::SpotifyTrack(id) => ({
                &&& spec_find_playlist_id(url@) is None
                &&& spec_extract_spotify(url@) matches Some((pl, st, en))
                &&& !pl
                &&& id@ == url@.subrange(st, en)
            }),
            UrlKind::Other => spec_find_playlist_id(url@) is None && spec_extract_spotify(url@)
                is None,
        },
{
    match find_playlist_id(url) {
        Some(id) => UrlKind::YoutubePlaylist(id),
        None => {
            match extract_spotify_id(url) {
                Some(ki) => {
                    let (kind, id) = ki;
                    proof {
                        reveal_strlit("playlist");
                        reveal_strlit("track");
                    }
                    if kind.as_str().unicode_len() == 8 {
                        proof {
                            if !spec_extract_spotify(url@).unwrap().0 {
                                assert(kind@ == "track"@);
                                assert(kind@.len() == 5);
                            }
                        }
                        UrlKind::SpotifyPlaylist(id)
                    } else {
                        proof {
                            if spec_extract_spotify(url@).unwrap().0 {
                                assert(kind@ == "playlist"@);
                                assert(kind@.len() == 8);
                            }
                        }
                        UrlKind::SpotifyTrack(id)
                    }
                },
                None => UrlKind::Other,
            }
        },
    }
}

// --- turning API answers into playable items ------------------------------

impl ResponseSearchVideoApi {
    /// The id of the first search hit, if the search found anything.
    pub fn first_video_id(&self) -> (r: Option<String>)
        ensures
            match r {
                Some(id) => self.items@.len() > 0 && id@ == self.items@[0].id.video_id@,
                None => self.items@.len() == 0,
            },
    {
        if self.items.len() > 0 {
            Some(self.items[0].id.video_id.clone())
        } else {
            None
        }
    }
}

impl ResponsePlaylistApi {
    /// The video ids of the playlist entries, in order.
    pub fn video_ids(&self) -> (r: Vec<String>)
        ensures
            r@.len() == self.items@.len(),
            forall|i: int|
                0 <= i < r@.len() ==> #[trigger] r@[i]@ == self.items@[i].snippet.resource_id.video_id@,
    {
        let mut out: Vec<String> = Vec::new();
        let n = self.items.len();
        let mut i: usize = 0;
        while i < n
            invariant
                n == self.items@.len(),
                i <= n,
                out@.len() == i,
                forall|j: int|
                    0 <= j < i ==> #[trigger] out@[j]@ == self.items@[j].snippet.resource_id.video_id@,
            decreases n - i,
        {
            out.push(self.items[i].snippet.resource_id.video_id.clone());
            i += 1;
        }
        out
    }
}

/// An entry whose duration text could not be resolved: identified so
/// the caller can log the failure and fire the failed-`Ended` path,
/// while the rest of the answer still plays.
#[derive(Debug)]
pub struct UnresolvedItem {
    pub id: String,
    pub title: String,
}

/// Whether an entry's duration text resolves to whole seconds.
pub open spec fn resolvable(it: VideoItem) -> bool {
    spec_iso_duration_secs(it.content_details.duration@) is Some
}

impl ResponseVideoApi {
    /// Resolve the answer into playable items: one item per entry
    /// whose duration text resolves, in answer order. An entry that
    /// cannot be resolved is skipped — named in the second list — and
    /// never stalls the rest.
    pub fn to_videos(&self) -> (r: (Vec<Video>, Vec<UnresolvedItem>))
        ensures
            ({
                let keep = self.items@.filter(|it: VideoItem| resolvable(it));
                let skip = self.items@.filter(|it: VideoItem| !resolvable(it));
                &&& r.0@.len() == keep.len()
                &&& forall|i: int|
                    0 <= i < keep.len() ==> {
                        &&& (#[trigger] r.0@[i]).id@ == keep[i].id@
                        &&& r.0@[i].title@ == keep[i].snippet.title@
                        &&& Some(r.0@[i].duration_secs) == spec_iso_duration_secs(
                            keep[i].content_details.duration@,
                        )
                    }
                &&& r.1@.len() == skip.len()
                &&& forall|i: int|
                    0 <= i < skip.len() ==> {
                        &&& (#[trigger] r.1@[i]).id@ == skip[i].id@
                        &&& r.1@[i].title@ == skip[i].snippet.title@
                    }
            }),
    {
        let mut out: Vec<Video> = Vec::new();
        let mut skipped: Vec<UnresolvedItem> = Vec::new();
        let n = self.items.len();
        let mut i: usize = 0;
        while i < n
            invariant
                n == self.items@.len(),
                i <= n,
                ({
                    let keep = self.items@.take(i as int).filter(|it: VideoItem| resolvable(it));
                    let skip = self.items@.take(i as int).filter(|it: VideoItem| !resolvable(it));
                    &&& out@.len() == keep.len()
                    &&& forall|j: int|
                        0 <= j < keep.len() ==> {
                            &&& (#[trigger] out@[j]).id@ == keep[j].id@
                            &&& out@[j].title@ == keep[j].snippet.title@
                            &&& Some(out@[j].duration_secs) == spec_iso_duration_secs(
                                keep[j].content_details.duration@,
                            )
                        }
                    &&& skipped@.len() == skip.len()
                    &&& forall|j: int|
                        0 <= j < skip.len() ==> {
                            &&& (#[trigger] skipped@[j]).id@ == skip[j].id@
                            &&& skipped@[j].title@ == skip[j].snippet.title@
                        }
                }),
            decreases n - i,
        {
            let ghost prev = self.items@.take(i as int);
            let ghost keep0 = prev.filter(|it: VideoItem| resolvable(it));
            let ghost skip0 = prev.filter(|it: VideoItem| !resolvable(it));
            let item = &self.items[i];
            match parse_iso_duration(item.content_details.duration.as_str()) {
                Some(secs) => {
                    out.push(
                        Video {
                            id: item.id.clone(),
                            title: item.snippet.title.clone(),
                            duration_secs: secs,
                        },
                    );
                },
                None => {
                    skipped.push(
                        UnresolvedItem { id: item.id.clone(), title: item.snippet.title.clone() },
                    );
                },
            }
            i += 1;
            proof {
                let cur = self.items@[i as int - 1];
                assert(self.items@.take(i as int) =~= prev.push(cur));
                let keep1 = self.items@.take(i as int).filter(|it: VideoItem| resolvable(it));
                let skip1 = self.items@.take(i as int).filter(|it: VideoItem| !resolvable(it));
                assert(prev.push(cur).filter(|it: VideoItem| resolvable(it)) == keep1);
                assert(prev.push(cur).filter(|it: VideoItem| !resolvable(it)) == skip1);
                if resolvable(cur) {
                    assert(keep1 == keep0.push(cur));
                    assert(skip1 == skip0);
                    assert(out@[keep1.len() - 1].id@ == cur.id@);
                } else {
                    assert(keep1 == keep0);
                    assert(skip1 == skip0.push(cur));
                    assert(skipped@[skip1.len() - 1].id@ == cur.id@);
                }
            }
        }
        proof {
            assert(self.items@.take(n as int) =~= self.items@);
        }
        (out, skipped)
    }
}

/// The search query a resolved track becomes: its name, a space, and
/// its main artist.
pub fn track_query(name: &str, artist: &str) -> (r: String)
    ensures
        r@ == name@ + " "@ + artist@,
{
    let out = String::from_str(name);
    let out = out.concat(" ");
    let out = out.concat(artist);
    out
}

} // verus!
