use picarto_vod_downloader::data::ScriptRequest;
use picarto_vod_downloader::downloader::{segment_file_path, SegmentDownloader};
use picarto_vod_downloader::encoder::Encoder;
use picarto_vod_downloader::grabber::{
    bearer_authorization, channel_videos_url, find_video_file, find_video_file_in_listing,
    LookupError, VideoEntry,
};
use picarto_vod_downloader::json::{find_member, JsonDocument, JsonKind};
use picarto_vod_downloader::login::{authorize_url, Login};
use picarto_vod_downloader::order::{name_precedes, sort_by_name};
use picarto_vod_downloader::playlist::{grab_step, GrabStep, IndexPlaylist};
use picarto_vod_downloader::text::{
    is_white_space_char, push_decimal, push_padded_decimal, trim_text,
};

fn login(id: &str, secret: &str, state: &str) -> Login {
    Login {
        client_id: id.to_string(),
        client_secret: secret.to_string(),
        state: state.to_string(),
    }
}

#[test]
fn login_is_empty_when_any_field_is_missing() {
    assert!(!login("id", "secret", "state").empty());
    assert!(login("", "secret", "state").empty());
    assert!(login("id", "", "state").empty());
    assert!(login("id", "secret", "").empty());
    assert!(login("", "", "").empty());
}

#[test]
fn blank_login_is_empty() {
    let l = Login::blank();
    assert_eq!(l.client_id, "");
    assert_eq!(l.client_secret, "");
    assert_eq!(l.state, "");
    assert!(l.empty());
}

#[test]
fn authorize_request_carries_the_credentials() {
    let q = login("abc", "s3", "xyz").authorize_query();
    let expected = vec![
        ("client_id", "abc"),
        ("response_type", "code"),
        ("scope", "readpub readpriv"),
        ("redirect_uri", "https://api.picarto.tv/oauth-eg/redirect.php"),
        ("state", "xyz"),
    ];
    assert_eq!(q.len(), expected.len());
    for (got, want) in q.iter().zip(expected.iter()) {
        assert_eq!(got.0, want.0);
        assert_eq!(got.1, want.1);
    }
    assert_eq!(authorize_url(), "https://oauth.picarto.tv/authorize");
}

#[test]
fn decimal_numerals() {
    let mut s = String::from("n=");
    push_decimal(&mut s, 0);
    assert_eq!(s, "n=0");
    let mut s = String::new();
    push_decimal(&mut s, 9);
    assert_eq!(s, "9");
    let mut s = String::new();
    push_decimal(&mut s, 10);
    assert_eq!(s, "10");
    let mut s = String::new();
    push_decimal(&mut s, 1_234_567_890);
    assert_eq!(s, "1234567890");
    let mut s = String::new();
    push_decimal(&mut s, usize::MAX);
    assert_eq!(s, usize::MAX.to_string());
}

#[test]
fn padded_numerals() {
    let mut s = String::new();
    push_padded_decimal(&mut s, 7, 3);
    assert_eq!(s, "007");
    let mut s = String::new();
    push_padded_decimal(&mut s, 1234, 3);
    assert_eq!(s, "1234");
    let mut s = String::new();
    push_padded_decimal(&mut s, 123, 3);
    assert_eq!(s, "123");
    let mut s = String::new();
    push_padded_decimal(&mut s, 5, 0);
    assert_eq!(s, "5");
}

#[test]
fn segment_files_are_zero_padded_to_ten_digits() {
    assert_eq!(segment_file_path("tmp", 0), "tmp/0000000000.ts");
    assert_eq!(segment_file_path("tmp", 42), "tmp/0000000042.ts");
    assert_eq!(segment_file_path("./.tmpX", 9_999_999), "./.tmpX/0009999999.ts");
    assert_eq!(segment_file_path("", 5), "/0000000005.ts");
    assert_eq!(segment_file_path("d", 1_000_000_000), "d/1000000000.ts");
    assert_eq!(segment_file_path("d", 123), format!("{}/{:0>10}.ts", "d", 123));
}

#[test]
fn segment_numbers_past_ten_digits_are_written_in_full() {
    if let Ok(big) = usize::try_from(12_345_678_901u64) {
        assert_eq!(segment_file_path("d", big), "d/12345678901.ts");
    }
}

#[test]
fn segment_files_sort_in_segment_order() {
    let names: Vec<String> = (0..300).map(|i| segment_file_path("dir", i)).collect();
    let mut sorted = names.clone();
    sorted.sort();
    assert_eq!(names, sorted);
    assert!(segment_file_path("dir", 9) < segment_file_path("dir", 10));
    assert!(segment_file_path("dir", 99_999) < segment_file_path("dir", 100_000));
}

#[test]
fn segment_files_are_distinct() {
    let mut names: Vec<String> = (0..500).map(|i| segment_file_path("dir", i)).collect();
    names.sort();
    names.dedup();
    assert_eq!(names.len(), 500);
}

#[test]
fn segment_url_drops_the_query_and_appends_the_segment() {
    let d = SegmentDownloader::new("https://cdn.example.com/hls/index.m3u8?token=abc".to_string());
    assert_eq!(
        d.segment_url("seg0.ts").unwrap(),
        "https://cdn.example.com/hls/index.m3u8/seg0.ts"
    );
    let d = SegmentDownloader::new("https://cdn.example.com/hls/".to_string());
    assert_eq!(d.segment_url("a b.ts").unwrap(), "https://cdn.example.com/hls//a%20b.ts");
    let d = SegmentDownloader::new("https://cdn.example.com".to_string());
    assert_eq!(d.segment_url("x/y.ts").unwrap(), "https://cdn.example.com/x%2Fy.ts");
}

#[test]
fn segment_url_fails_without_a_base_url() {
    assert!(SegmentDownloader::new("mailto:someone@example.com".to_string())
        .segment_url("seg.ts")
        .is_none());
    assert!(SegmentDownloader::new("not a url".to_string()).segment_url("seg.ts").is_none());
}

#[test]
fn download_plan_pairs_urls_with_numbered_files() {
    let d = SegmentDownloader::new("https://cdn.example.com/v?x=1".to_string());
    let uris = vec!["a.ts".to_string(), "b.ts".to_string(), "c.ts".to_string()];
    let plan = d.download_plan("out", &uris).unwrap();
    assert_eq!(plan.len(), 3);
    assert_eq!(plan[0].0, "https://cdn.example.com/v/a.ts");
    assert_eq!(plan[0].1, "out/0000000000.ts");
    assert_eq!(plan[2].0, "https://cdn.example.com/v/c.ts");
    assert_eq!(plan[2].1, "out/0000000002.ts");
    assert!(d.download_plan("out", &Vec::new()).unwrap().is_empty());
    let bad = SegmentDownloader::new("data:text/plain,hi".to_string());
    assert!(bad.download_plan("out", &uris).is_none());
    assert!(bad.download_plan("out", &Vec::new()).is_some());
}

#[test]
fn white_space_is_trimmed_as_str_trim_does() {
    for s in ["  12 \n", "\u{3000}x\u{a0}", "", "   ", "a b", "\t\r\nid\u{2028}", "\u{200b}z"] {
        assert_eq!(trim_text(s), s.trim());
    }
    assert_eq!(trim_text(" 12 "), "12");
    for c in ['\u{9}', '\u{d}', ' ', '\u{85}', '\u{a0}', '\u{1680}', '\u{2000}', '\u{200a}',
        '\u{2028}', '\u{2029}', '\u{202f}', '\u{205f}', '\u{3000}'] {
        assert!(is_white_space_char(c));
    }
    for c in (0u32..0x4000).filter_map(char::from_u32) {
        assert_eq!(is_white_space_char(c), c.is_whitespace());
    }
}

#[test]
fn trimming_is_idempotent() {
    for s in ["  a  ", "\u{a0}\u{a0}b", "c", ""] {
        let once = trim_text(s);
        assert_eq!(trim_text(&once), once);
    }
}

fn entry(id: Option<&str>, file: &str) -> VideoEntry {
    VideoEntry { id: id.map(|s| s.to_string()), file: file.to_string() }
}

#[test]
fn channel_listing_url() {
    assert_eq!(
        channel_videos_url("Someone"),
        "https://api.picarto.tv/api/v1/channel/name/Someone/videos"
    );
    assert_eq!(bearer_authorization("tok"), "Bearer tok");
    assert_eq!(bearer_authorization(""), "Bearer ");
}

#[test]
fn lookup_finds_the_first_matching_video() {
    let entries = vec![
        entry(Some("11"), "\"https://a/11.m3u8\""),
        entry(Some("12"), "\"https://a/12.m3u8\""),
        entry(Some("12"), "\"https://a/other.m3u8\""),
    ];
    assert_eq!(find_video_file(&entries, "12"), Ok("\"https://a/12.m3u8\"".to_string()));
    assert_eq!(find_video_file(&entries, " 11\n"), Ok("\"https://a/11.m3u8\"".to_string()));
    assert_eq!(find_video_file(&entries, "13"), Err(LookupError::NoSuchVideo));
    assert_eq!(find_video_file(&Vec::new(), "1"), Err(LookupError::NoSuchVideo));
}

#[test]
fn lookup_ignores_surrounding_space() {
    let entries = vec![entry(Some("7"), "null"), entry(Some("8"), "\"f\"")];
    for id in ["8", " 8", "8 ", "\t8\r\n"] {
        assert_eq!(find_video_file(&entries, id), find_video_file(&entries, id.trim()));
        assert_eq!(find_video_file(&entries, id), Ok("\"f\"".to_string()));
    }
}

#[test]
fn lookup_stops_at_an_entry_without_id() {
    let entries = vec![entry(Some("1"), "a"), entry(None, "b"), entry(Some("3"), "c")];
    assert_eq!(find_video_file(&entries, "3"), Err(LookupError::MalformedEntry(1)));
    assert_eq!(find_video_file(&entries, "1"), Ok("a".to_string()));
    assert_eq!(find_video_file(&entries, "9"), Err(LookupError::MalformedEntry(1)));
}

#[test]
fn merge_list_names_each_file_on_its_own_line() {
    let paths = vec!["seg/0000000000.ts".to_string(), "seg/0000000001.ts".to_string()];
    assert_eq!(
        Encoder::merge_list_text(&paths),
        "file 'seg/0000000000.ts'\r\nfile 'seg/0000000001.ts'\r\n"
    );
    assert_eq!(Encoder::merge_list_text(&Vec::new()), "");
}

#[test]
fn merge_list_joins_segments_in_order_whatever_the_listing_order() {
    let listing: Vec<String> = [3usize, 0, 10, 2, 1]
        .iter()
        .map(|i| segment_file_path("d", *i))
        .collect();
    let mut expected = String::new();
    for i in [0usize, 1, 2, 3, 10] {
        expected.push_str(&format!("file '{}'\r\n", segment_file_path("d", i)));
    }
    assert_eq!(Encoder::merge_list_text(&listing), expected);
    let reversed: Vec<String> = (0..12).rev().map(|i| segment_file_path("d", i)).collect();
    let in_order: Vec<String> = (0..12).map(|i| segment_file_path("d", i)).collect();
    assert_eq!(Encoder::merge_list_text(&reversed), Encoder::merge_list_text(&in_order));
}

#[test]
fn names_sort_as_strings_do() {
    let names: Vec<String> = ["b", "a", "ab", "", "\u{e9}", "B", "a", "aa"]
        .iter()
        .map(|s| s.to_string())
        .collect();
    let mut expected = names.clone();
    expected.sort();
    assert_eq!(sort_by_name(&names), expected);
    assert!(name_precedes("a", "ab"));
    assert!(name_precedes("ab", "b"));
    assert!(!name_precedes("b", "b"));
    assert!(!name_precedes("b", "a"));
    assert!(name_precedes("", "a"));
    assert!(name_precedes("Z", "a"));
    assert!(sort_by_name(&Vec::new()).is_empty());
}

#[test]
fn ffmpeg_is_asked_for_an_ffv1_avi() {
    let e = Encoder::new("seg", "./.tmpMERGE".to_string());
    assert_eq!(e.dir, "seg");
    let args = e.ffmpeg_args("video");
    let expected = [
        "-y", "-hide_banner", "-f", "concat", "-safe", "0", "-i", "./.tmpMERGE", "-c:v", "ffv1",
        "-level", "3", "-context", "1", "-c:a", "pcm_s16le", "video.avi",
    ];
    assert_eq!(args, expected);
}

#[test]
fn master_playlists_list_their_variants() {
    let master = b"#EXTM3U\n#EXT-X-STREAM-INF:BANDWIDTH=1280000\nhigh/index.m3u8\n#EXT-X-STREAM-INF:BANDWIDTH=640000\nlow/index.m3u8\n";
    match IndexPlaylist::parse(master) {
        Some(IndexPlaylist::Master { variant_uris }) => {
            assert_eq!(variant_uris, vec!["high/index.m3u8", "low/index.m3u8"]);
        }
        _ => panic!("expected a master playlist"),
    }
}

#[test]
fn media_playlists_list_their_segments() {
    let media = b"#EXTM3U\n#EXT-X-TARGETDURATION:10\n#EXTINF:9.0,\nseg0.ts\n#EXTINF:9.0,\nseg1.ts\n#EXT-X-ENDLIST\n";
    match IndexPlaylist::parse(media) {
        Some(IndexPlaylist::Media { segment_uris }) => {
            assert_eq!(segment_uris, vec!["seg0.ts", "seg1.ts"]);
        }
        _ => panic!("expected a media playlist"),
    }
}

#[test]
fn listing_finds_the_playlist_url() {
    let body = br#"[{"id": 11, "file": "https://a/11.m3u8"}, {"id": 12, "file": "https://a/12.m3u8"}, {"id": 12, "file": "x"}]"#;
    assert_eq!(
        find_video_file_in_listing(body, " 12 "),
        Some(Ok("https://a/12.m3u8".to_string()))
    );
    assert_eq!(find_video_file_in_listing(body, "13"), Some(Err(LookupError::NoSuchVideo)));
    let quoted = br#"[{"id": "abc", "file": null}, {"id": 5}]"#;
    assert_eq!(find_video_file_in_listing(quoted, "abc"), Some(Err(LookupError::NoSuchVideo)));
    assert_eq!(
        find_video_file_in_listing(quoted, "\"abc\""),
        Some(Ok("null".to_string()))
    );
    assert_eq!(find_video_file_in_listing(quoted, "5"), Some(Ok("null".to_string())));
    let numbered = br#"[{"id": 1, "file": 7}]"#;
    assert_eq!(find_video_file_in_listing(numbered, "1"), Some(Ok("7".to_string())));
}

#[test]
fn listing_entries_without_id_stop_the_search() {
    let no_id = br#"[{"id": 1, "file": "f"}, {"file": "g"}, {"id": 3, "file": "h"}]"#;
    assert_eq!(find_video_file_in_listing(no_id, "3"), Some(Err(LookupError::MalformedEntry(1))));
    assert_eq!(find_video_file_in_listing(no_id, "1"), Some(Ok("f".to_string())));
    let not_object = br#"[7, {"id": 3, "file": "h"}]"#;
    assert_eq!(
        find_video_file_in_listing(not_object, "3"),
        Some(Err(LookupError::MalformedEntry(0)))
    );
}

#[test]
fn listings_that_are_no_json_array_are_refused() {
    assert_eq!(find_video_file_in_listing(b"{\"id\": 1}", "1"), None);
    assert_eq!(find_video_file_in_listing(b"<html>", "1"), None);
    assert_eq!(find_video_file_in_listing(b"[]", "1"), Some(Err(LookupError::NoSuchVideo)));
}

#[test]
fn master_playlists_lead_to_their_first_variant() {
    let master = IndexPlaylist::Master {
        variant_uris: vec!["high/index.m3u8".to_string(), "low/index.m3u8".to_string()],
    };
    match grab_step("https://h.example/vod/master.m3u8?t=1", master) {
        Some(GrabStep::Fetch(next)) => assert_eq!(next, "https://h.example/vod/high/index.m3u8"),
        _ => panic!("expected the variant's url"),
    }
    let empty = IndexPlaylist::Master { variant_uris: Vec::new() };
    assert!(matches!(grab_step("https://h.example/m.m3u8", empty), Some(GrabStep::NoVariant)));
    let master = IndexPlaylist::Master { variant_uris: vec!["v.m3u8".to_string()] };
    assert!(grab_step("not a url", master).is_none());
}

#[test]
fn media_playlists_give_their_segments_and_directory() {
    let media = IndexPlaylist::Media {
        segment_uris: vec!["seg0.ts".to_string(), "seg1.ts".to_string()],
    };
    match grab_step("https://h.example/vod/high/index.m3u8?t=1", media) {
        Some(GrabStep::Segments { base, uris }) => {
            assert_eq!(base, "https://h.example/vod/high?t=1");
            assert_eq!(uris, vec!["seg0.ts", "seg1.ts"]);
            let d = SegmentDownloader::new(base);
            assert_eq!(d.segment_url("seg0.ts").unwrap(), "https://h.example/vod/high/seg0.ts");
        }
        _ => panic!("expected the segments"),
    }
    let media = IndexPlaylist::Media { segment_uris: Vec::new() };
    assert!(grab_step("mailto:a@b.c", media).is_none());
}

#[test]
fn other_bytes_are_no_playlist() {
    assert!(IndexPlaylist::parse(b"<html></html>").is_none());
    assert!(IndexPlaylist::parse(b"").is_none());
}

#[test]
fn script_request_holds_its_fields() {
    let r = ScriptRequest {
        vod: "v".to_string(),
        ima: "i".to_string(),
        product: -3,
        channel: "c".to_string(),
        vod_thumb: "t".to_string(),
    };
    assert_eq!(r.product, -3);
    assert_eq!(r.vod_thumb, "t");
}

#[test]
fn json_documents_keep_members_and_their_text() {
    let doc = JsonDocument::parse(br#"[{"id": 12, "file": "u", "z": [1, 2]}, 3]"#).unwrap();
    assert!(matches!(doc.value, JsonKind::Array));
    assert_eq!(doc.elements.len(), 2);
    let members = &doc.elements[0].members;
    let id = find_member(members, "id").unwrap();
    assert_eq!(members[id].text, "12");
    assert!(matches!(&members[id].value, JsonKind::Number(n) if n == "12"));
    let z = find_member(members, "z").unwrap();
    assert_eq!(members[z].text, "[1,2]");
    assert!(find_member(members, "nope").is_none());
    assert!(doc.elements[1].members.is_empty());
    assert!(JsonDocument::parse(b"{").is_none());
    let obj = JsonDocument::parse(br#"{"a": "b"}"#).unwrap();
    assert!(matches!(obj.value, JsonKind::Object));
    assert!(obj.elements.is_empty());
}
