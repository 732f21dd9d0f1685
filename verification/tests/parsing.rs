use valeriyya::metadata::{
    classify_url, extract_spotify_id, find_playlist_id, parse_iso_duration, ContentDetails,
    PlaylistItem, PlaylistSnippet, ResourceId, ResponsePlaylistApi, ResponseSearchVideoApi,
    ResponseVideoApi, SearchVideoId, SearchVideoItem, UrlKind, VideoItem, VideoSnippet,
};
use valeriyya::guild::Reminder;
use valeriyya::moderation::default_case_reason;
use valeriyya::util::{
    parse_reminder_button, reminder_button_id, reminder_line, starboard_content, string_to_sec,
    u64_string, Valeriyya,
};

#[test]
fn duration_text_values() {
    assert_eq!(string_to_sec("1y"), 31_557_600);
    assert_eq!(string_to_sec("5m"), 300);
    assert_eq!(string_to_sec("30s"), 30);
    assert_eq!(string_to_sec("2h"), 7_200);
    assert_eq!(string_to_sec("1w"), 604_800);
    assert_eq!(string_to_sec("2month"), 5_184_000);
    assert_eq!(string_to_sec("1d10m"), 86_400 + 600);
    assert_eq!(string_to_sec("1y2w3d"), 31_557_600 + 2 * 604_800 + 3 * 86_400);
    // one whitespace between digits and unit is accepted
    assert_eq!(string_to_sec("5 m"), 300);
    // text the grammar does not know is worth nothing
    assert_eq!(string_to_sec(""), 0);
    assert_eq!(string_to_sec("soon"), 0);
    assert_eq!(string_to_sec("m5"), 0);
    // trailing text after the components is ignored
    assert_eq!(string_to_sec("5m!"), 300);
    assert_eq!(Valeriyya::ms("10m"), 600);
}

#[test]
fn time_format_wraps_relative_timestamps() {
    assert_eq!(Valeriyya::time_format("1234".to_string()), "<t:1234:R>");
    assert_eq!(Valeriyya::time_format(String::new()), "<t::R>");
}

#[test]
fn numbers_printed_in_decimal() {
    assert_eq!(u64_string(0), "0");
    assert_eq!(u64_string(7), "7");
    assert_eq!(u64_string(1_234_567_890_123), "1234567890123");
    assert_eq!(u64_string(u64::MAX), "18446744073709551615");
}

#[test]
fn default_reason_names_the_case() {
    assert_eq!(
        default_case_reason(17),
        "Use /reason 17 <...reason> to set a reason for this case."
    );
}

#[test]
fn reminder_listing_line() {
    let r = Reminder {
        id: 3,
        user: 1,
        message: "stretch".to_string(),
        datetime: 1_700_000_000,
        created_at: 0,
        channel: 2,
    };
    assert_eq!(
        reminder_line(&r),
        "ID: 3 - Message: stretch - Time: <t:1700000000:R>\n"
    );
}

#[test]
fn reminder_button_protocol_round_trips() {
    let id = reminder_button_id(12, 987654321098765);
    assert_eq!(id, "12reminder987654321098765");
    assert_eq!(parse_reminder_button(&id), Some(12));
    // prefixes that are not plain ids are refused
    assert_eq!(parse_reminder_button("reminder42"), None);
    assert_eq!(parse_reminder_button("1a2reminder42"), None);
    assert_eq!(parse_reminder_button(""), None);
    // without a tag the whole text is the id
    assert_eq!(parse_reminder_button("37"), Some(37));
}

#[test]
fn starboard_repost_text() {
    assert_eq!(
        starboard_content("nice shot", "https://example.invalid/m/1"),
        "nice shot\n\nOriginal Message: https://example.invalid/m/1"
    );
}

#[test]
fn iso_durations() {
    assert_eq!(parse_iso_duration("PT3M20S"), Some(200));
    assert_eq!(parse_iso_duration("PT30S"), Some(30));
    assert_eq!(parse_iso_duration("PT1H"), Some(3_600));
    assert_eq!(parse_iso_duration("P1DT12H"), Some(86_400 + 43_200));
    assert_eq!(parse_iso_duration("P2W"), Some(1_209_600));
    assert_eq!(parse_iso_duration("P0Y1D"), Some(86_400));
    // a positive month or year needs a calendar: not resolvable
    assert_eq!(parse_iso_duration("P1M"), None);
    assert_eq!(parse_iso_duration("P1Y"), None);
    // malformed or non-exhausted texts
    assert_eq!(parse_iso_duration(""), None);
    assert_eq!(parse_iso_duration("P"), None);
    assert_eq!(parse_iso_duration("PT"), None);
    assert_eq!(parse_iso_duration("T30S"), None);
    assert_eq!(parse_iso_duration("PT3M20Sx"), None);
    assert_eq!(parse_iso_duration("P1W2D"), None);
}

#[test]
fn spotify_links() {
    let r = extract_spotify_id("https://open.spotify.com/track/4uLU6hMCjMI75M1A2tKUQC?si=x");
    let (kind, id) = r.expect("a track link");
    assert_eq!(kind, "track");
    assert_eq!(id, "4uLU6hMCjMI75M1A2tKUQC");

    let r = extract_spotify_id("open.spotify.com/playlist/37i9dQZF1DXcBWIGoYBM5M");
    let (kind, id) = r.expect("a playlist link");
    assert_eq!(kind, "playlist");
    assert_eq!(id, "37i9dQZF1DXcBWIGoYBM5M");

    assert!(extract_spotify_id("https://example.com/track/abc").is_none());
    assert!(extract_spotify_id("open.spotify.com/album/abc").is_none());
    assert!(extract_spotify_id("open.spotify.com/track/").is_none());
}

#[test]
fn playlist_ids() {
    assert_eq!(
        find_playlist_id("https://www.youtube.com/playlist?list=PLdU2XZsgBN1234567890"),
        Some("PLdU2XZsgBN1234567890".to_string())
    );
    assert_eq!(find_playlist_id("RDMM"), Some("RDMM".to_string()));
    assert_eq!(
        find_playlist_id("watch?v=x&list=OLAK5uy_abcdefghij-_"),
        Some("OLAK5uy_abcdefghij-_".to_string())
    );
    // a known prefix with a too-short tail is no playlist id
    assert_eq!(find_playlist_id("list=PL123"), None);
    assert_eq!(find_playlist_id("https://example.com/"), None);
}

#[test]
fn url_classification() {
    assert!(matches!(
        classify_url("https://www.youtube.com/playlist?list=PLdU2XZsgBN1234567890"),
        UrlKind::YoutubePlaylist(_)
    ));
    assert!(matches!(
        classify_url("https://open.spotify.com/playlist/37i9dQZF1DXcBWIGoYBM5M"),
        UrlKind::SpotifyPlaylist(_)
    ));
    assert!(matches!(
        classify_url("https://open.spotify.com/track/4uLU6hMCjMI75M1A2tKUQC"),
        UrlKind::SpotifyTrack(_)
    ));
    assert!(matches!(classify_url("never gonna give you up"), UrlKind::Other));
}

#[test]
fn search_answer_first_hit() {
    let empty = ResponseSearchVideoApi { items: vec![] };
    assert!(empty.first_video_id().is_none());
    let one = ResponseSearchVideoApi {
        items: vec![SearchVideoItem { id: SearchVideoId { video_id: "vid1".to_string() } }],
    };
    assert_eq!(one.first_video_id(), Some("vid1".to_string()));
}

#[test]
fn playlist_answer_video_ids() {
    let resp = ResponsePlaylistApi {
        items: vec![
            PlaylistItem {
                id: "i1".to_string(),
                snippet: PlaylistSnippet {
                    resource_id: ResourceId { video_id: "v1".to_string() },
                },
            },
            PlaylistItem {
                id: "i2".to_string(),
                snippet: PlaylistSnippet {
                    resource_id: ResourceId { video_id: "v2".to_string() },
                },
            },
        ],
    };
    assert_eq!(resp.video_ids(), vec!["v1".to_string(), "v2".to_string()]);
}

fn video_item(id: &str, title: &str, duration: &str) -> VideoItem {
    VideoItem {
        id: id.to_string(),
        snippet: VideoSnippet { title: title.to_string() },
        content_details: ContentDetails { duration: duration.to_string() },
    }
}

#[test]
fn video_answer_resolution() {
    let resp = ResponseVideoApi {
        items: vec![video_item("a", "first", "PT3M20S"), video_item("b", "second", "PT30S")],
    };
    let (videos, skipped) = resp.to_videos();
    assert_eq!(videos.len(), 2);
    assert!(skipped.is_empty());
    assert_eq!(videos[0].id, "a");
    assert_eq!(videos[0].title, "first");
    assert_eq!(videos[0].duration_secs, 200);
    assert_eq!(videos[1].duration_secs, 30);
}

#[test]
fn one_bad_entry_is_skipped_and_the_rest_still_play() {
    let resp = ResponseVideoApi {
        items: vec![
            video_item("a", "first", "PT3M20S"),
            video_item("b", "second", "soon"),
            video_item("c", "third", "PT10S"),
        ],
    };
    let (videos, skipped) = resp.to_videos();
    assert_eq!(videos.len(), 2);
    assert_eq!(videos[0].id, "a");
    assert_eq!(videos[1].id, "c");
    assert_eq!(skipped.len(), 1);
    assert_eq!(skipped[0].id, "b");
    assert_eq!(skipped[0].title, "second");

    let all_bad = ResponseVideoApi { items: vec![video_item("x", "only", "P1M")] };
    let (videos, skipped) = all_bad.to_videos();
    assert!(videos.is_empty());
    assert_eq!(skipped.len(), 1);
}

#[test]
fn track_queries_join_name_and_artist() {
    assert_eq!(
        valeriyya::metadata::track_query("Never Gonna Give You Up", "Rick Astley"),
        "Never Gonna Give You Up Rick Astley"
    );
}
