//! Searching, the session's cookies and requests, and finding a stream.

use ytamp::json::{parse, parse_bytes, Json};
use ytamp::model::Track;
use ytamp::yt::innertube::{
    client_chain, client_web, client_web_music, cookie_header, is_youtube_domain,
    parse_netscape_cookies, player_body, radio_body, radio_outcome, read_reply, request_url,
    search_body, search_outcome, visitor_body, Reply, YtClient,
};
use ytamp::yt::resolver::{
    cache_key, is_aac_mime, pick_audio_format, url_ttl, yt_dlp_args, yt_dlp_outcome, DlpRun,
    Resolve, ResolveStep, StreamCache, StreamUrl, CACHE_MAX, CACHE_TTL,
};
use ytamp::yt::search::{
    best_thumb, parse_duration, parse_playlists, parse_radio_tracks, parse_search_tracks, runs_text,
};

const SAMPLE_COOKIES: &str = "# Netscape HTTP Cookie File\n\
    #HttpOnly_.youtube.com\tTRUE\t/\tTRUE\t1893456000\tSID\tabc123\n\
    .youtube.com\tTRUE\t/\tFALSE\t0\tLOGIN_INFO\txyz\n\
    .example.com\tTRUE\t/\tFALSE\t0\tOTHER\tdropped\n\
    .youtube.com\tTRUE\t/\tFALSE\t1000\tOLD\texpired\n";

fn answered(body: &str) -> Reply {
    Reply::Answered { status: 200, status_text: "200 OK".to_string(), body: body.to_string() }
}

fn json(body: &str) -> Json {
    read_reply(&client_web(), "test", answered(body)).unwrap()
}

#[test]
fn parses_netscape_cookies() {
    let now = 1_700_000_000;
    let cookies = parse_netscape_cookies(SAMPLE_COOKIES, now);
    assert_eq!(cookies.len(), 3, "httponly kept, expired dropped; domain filtered later");
    assert_eq!(cookies[0].name, "SID");
    assert_eq!(cookies[1].name, "LOGIN_INFO");
    assert_eq!(cookies[2].name, "OTHER");
}

#[test]
fn builds_youtube_cookie_header_in_file_order() {
    let now = 1_700_000_000;
    let cookies = parse_netscape_cookies(SAMPLE_COOKIES, now);
    let header = cookie_header(&cookies).expect("header");
    assert_eq!(header, "SID=abc123; LOGIN_INFO=xyz");
}

#[test]
fn no_youtube_cookies_means_no_header() {
    let cookies = parse_netscape_cookies(".example.com\tTRUE\t/\tFALSE\t0\tA\tb\n", 0);
    assert!(cookie_header(&cookies).is_none());
}

#[test]
fn client_chain_respects_cookies() {
    let anon = client_chain(false);
    assert_eq!(
        anon.iter().map(|c| c.key).collect::<Vec<_>>(),
        vec!["visionos", "android_vr", "ios", "tv"]
    );
    let authed = client_chain(true);
    assert_eq!(authed[0].key, "web_music");
    assert_eq!(authed.len(), 5);
}

#[test]
fn a_session_carries_its_cookies_and_visitor() {
    let mut client = YtClient::new(Some(SAMPLE_COOKIES.to_string()), 1_700_000_000);
    assert!(client.has_cookies());
    assert!(!YtClient::new(None, 0).has_cookies());
    assert!(client.cached_visitor(0).is_none());
    let answer = json(r#"{"responseContext": {"visitorData": "VIS"}}"#);
    assert_eq!(client.remember_visitor(&answer, 1_000).as_deref(), Some("VIS"));
    assert_eq!(client.cached_visitor(3_600_999).as_deref(), Some("VIS"));
    assert!(client.cached_visitor(3_601_000).is_none());
    assert!(client.remember_visitor(&json("{}"), 5).is_none());
    let headers = client.headers(&client_web_music(), 1_000);
    let cookie = headers.iter().find(|(name, _)| name == "Cookie").unwrap();
    assert_eq!(cookie.1, "SID=abc123; LOGIN_INFO=xyz");
    assert!(headers.iter().any(|(_, value)| value == "VIS"));
}

#[test]
fn youtube_domains_are_told_from_others() {
    assert!(is_youtube_domain(".youtube.com"));
    assert!(is_youtube_domain("music.youtube.com"));
    assert!(!is_youtube_domain(".example.com"));
}

#[test]
fn requests_name_their_client() {
    assert!(request_url(&client_web_music(), "search").starts_with("https://music.youtube.com/"));
    for body in [
        visitor_body(),
        search_body("daft punk", &None),
        radio_body("JhulBGMA7G4", &Some("VIS".to_string())),
        player_body(&client_chain(false)[2], "JhulBGMA7G4", &None),
    ] {
        let context = body.get("context").unwrap().get("client").unwrap();
        assert!(context.get_str("clientName").is_some());
        assert!(context.get_str("clientVersion").is_some());
    }
    let body = search_body("daft punk", &None);
    assert_eq!(body.get_str("query"), Some("daft punk"));
}

#[test]
fn replies_that_fail_say_how() {
    let ctx = client_web();
    let sent = read_reply(&ctx, "player", Reply::SendFailed("offline".to_string()));
    assert!(sent.err().unwrap().ends_with("request failed: offline"));
    let cut = read_reply(&ctx, "player", Reply::ReadFailed("cut".to_string()));
    assert!(cut.err().unwrap().ends_with("reading body failed: cut"));
    let status = Reply::Answered {
        status: 429,
        status_text: "429 Too Many Requests".to_string(),
        body: String::new(),
    };
    let refused = read_reply(&ctx, "player", status).err().unwrap();
    assert!(refused.ends_with("returned HTTP 429 Too Many Requests"));
    let garbled = read_reply(&ctx, "player", answered("<html>é</html>")).err().unwrap();
    assert!(garbled.contains("body is not JSON (15 bytes): "));
    assert!(garbled.ends_with("expected value at line 1 column 1"));
}

#[test]
fn documents_keep_their_numbers_texts_and_order() {
    let doc = json(r#"{"b": [1, -2, 2.5, true, null, "é\n"], "a": 18446744073709551615}"#);
    assert_eq!(doc.get("a").unwrap().as_u64(), Some(u64::MAX));
    let items = doc.get_array("b").unwrap();
    assert_eq!(items[0].as_u64(), Some(1));
    assert_eq!(items[1].as_i64(), Some(-2));
    assert!(matches!(items[2], Json::Real(bits) if f64::from_bits(bits) == 2.5));
    assert!(matches!(items[3], Json::Bool(true)));
    assert!(matches!(items[4], Json::Null));
    assert_eq!(items[5].as_str(), Some("é\n"));
    assert_eq!(items[2].as_rounded(), Some(3));
    assert_eq!(items[1].as_rounded(), Some(0));
    match &doc {
        Json::Object(fields) => {
            let names: Vec<&str> = fields.iter().map(|(name, _)| name.as_str()).collect();
            assert_eq!(names, vec!["b", "a"]);
        }
        _ => panic!("no object"),
    }
}

#[test]
fn searches_without_results_say_so() {
    let none = search_outcome("a \"b\"", 10, Ok(json("{}")));
    assert_eq!(none.err().unwrap().message, r#"no tracks found for "a \"b\"""#);
    let failed = search_outcome("x", 10, Err("offline".to_string()));
    let failed = failed.err().unwrap();
    assert_eq!(failed.message, "YT Music search failed");
    assert_eq!(failed.cause.as_deref(), Some("offline"));
    let radio = radio_outcome("abc", 10, Ok(json("{}")));
    assert_eq!(radio.err().unwrap().message, "radio for abc returned no tracks");
    let cut = radio_outcome("abc", 10, Err("cut".to_string()));
    let cut = cut.err().unwrap();
    assert_eq!(cut.message, "YT Music radio (next) failed");
    assert_eq!(cut.cause.as_deref(), Some("cut"));
}

#[test]
fn library_playlist_cards_parse_and_the_new_playlist_card_is_skipped() {
    let resp = json(
        r#"{ "items": [
        { "musicTwoRowItemRenderer": {
            "title": { "runs": [ { "text": "New playlist" } ] },
            "navigationEndpoint": { "createPlaylistEndpoint": {} } } },
        { "musicTwoRowItemRenderer": {
            "title": { "runs": [ { "text": "Liked Music" } ] },
            "subtitle": { "runs": [ { "text": "Auto playlist" } ] },
            "navigationEndpoint": { "browseEndpoint": { "browseId": "VLLM" } } } },
        { "musicTwoRowItemRenderer": {
            "title": { "runs": [ { "text": "Late nights" } ] },
            "subtitle": { "runs": [ { "text": "Playlist" }, { "text": " • " }, { "text": "42 songs" } ] },
            "navigationEndpoint": { "browseEndpoint": { "browseId": "VLPLabc" } } } }
    ] }"#,
    );
    let playlists = parse_playlists(&resp);
    assert_eq!(playlists.len(), 2);
    assert_eq!(playlists[0].browse_id, "VLLM");
    assert_eq!(playlists[1].title, "Late nights");
    assert_eq!(playlists[1].subtitle, "Playlist • 42 songs");
}

#[test]
fn playlist_rows_take_album_and_duration_from_their_own_columns() {
    let resp = json(
        r#"{ "contents": [ { "musicResponsiveListItemRenderer": {
        "playlistItemData": { "videoId": "abcdefghijk" },
        "flexColumns": [
            { "musicResponsiveListItemFlexColumnRenderer": { "text": { "runs": [ { "text": "Rosewood" } ] } } },
            { "musicResponsiveListItemFlexColumnRenderer": { "text": { "runs": [ { "text": "Bonobo" } ] } } },
            { "musicResponsiveListItemFlexColumnRenderer": { "text": { "runs": [ { "text": "Fragments" } ] } } }
        ],
        "fixedColumns": [
            { "musicResponsiveListItemFixedColumnRenderer": { "text": { "runs": [ { "text": "5:17" } ] } } }
        ]
    } } ] }"#,
    );
    let tracks = parse_search_tracks(&resp, 10);
    assert_eq!(tracks.len(), 1);
    assert_eq!(tracks[0].artist, "Bonobo");
    assert_eq!(tracks[0].album.as_deref(), Some("Fragments"));
    assert_eq!(tracks[0].duration_secs, Some(317));
}

const ROW: &str = r#"{ "musicResponsiveListItemRenderer": {
    "playlistItemData": { "videoId": "@" },
    "thumbnail": { "thumbnails": [
        { "url": "https://i/small", "width": 60 }, { "url": "https://i/large", "width": 120 } ] },
    "flexColumns": [
        { "musicResponsiveListItemFlexColumnRenderer": { "text": { "runs": [ { "text": "Song" } ] } } },
        { "musicResponsiveListItemFlexColumnRenderer": { "text": { "runs": [
            { "text": "Daft Punk" }, { "text": " • " }, { "text": "Discovery" },
            { "text": " • " }, { "text": "3:47" } ] } } }
    ] } }"#;

#[test]
fn results_are_distinct_and_cut_to_the_limit() {
    let row = |id: &str| ROW.replace('@', id);
    let body = format!(
        r#"{{ "contents": [ {}, {}, {}, {} ] }}"#,
        row("aaaaaaaaaaa"),
        row("bbbbbbbbbbb"),
        row("aaaaaaaaaaa"),
        row("ccccccccccc")
    );
    let tracks = parse_search_tracks(&json(&body), 10);
    let ids: Vec<&str> = tracks.iter().map(|t| t.video_id.as_str()).collect();
    assert_eq!(ids, vec!["aaaaaaaaaaa", "bbbbbbbbbbb", "ccccccccccc"]);
    assert_eq!(
        tracks[0],
        Track {
            video_id: "aaaaaaaaaaa".to_string(),
            title: "Song".to_string(),
            artist: "Daft Punk".to_string(),
            album: Some("Discovery".to_string()),
            duration_secs: Some(227),
            thumb_url: Some("https://i/large".to_string()),
        }
    );
    assert_eq!(parse_search_tracks(&json(&body), 2).len(), 2);
    assert_eq!(search_outcome("q", 10, Ok(json(&body))).unwrap().len(), 3);
}

#[test]
fn a_radio_lists_its_queue() {
    let body = r#"{ "contents": [ { "playlistPanelVideoRenderer": {
        "videoId": "JhulBGMA7G4",
        "title": { "runs": [ { "text": "Harder, Better, Faster, Stronger" } ] },
        "longBylineText": { "runs": [ { "text": "Daft Punk" }, { "text": " • " }, { "text": "Discovery" } ] },
        "lengthText": { "runs": [ { "text": "3:47" } ] } } } ] }"#;
    let tracks = parse_radio_tracks(&json(body), 50);
    assert_eq!(tracks.len(), 1);
    assert_eq!(tracks[0].video_id, "JhulBGMA7G4");
    assert_eq!(tracks[0].title, "Harder, Better, Faster, Stronger");
    assert_eq!(tracks[0].duration_secs, Some(227));
    assert_eq!(radio_outcome("JhulBGMA7G4", 50, Ok(json(body))).unwrap().len(), 1);
}

#[test]
fn durations_parse() {
    assert_eq!(parse_duration("3:47"), Some(227));
    assert_eq!(parse_duration("1:02:03"), Some(3723));
    assert_eq!(parse_duration("0:30"), Some(30));
    assert_eq!(parse_duration("Daft Punk"), None);
    assert_eq!(parse_duration(""), None);
    assert_eq!(parse_duration("18446744073709551615:00"), None);
}

#[test]
fn empty_responses_give_no_tracks() {
    assert!(parse_search_tracks(&Json::Null, 10).is_empty());
    assert!(parse_radio_tracks(&json("{}"), 10).is_empty());
}

#[test]
fn runs_and_thumbnails_are_read() {
    let runs = json(r#"{ "runs": [ { "text": "a" }, { "other": 1 }, { "text": "b" } ] }"#);
    assert_eq!(runs_text(&runs), "ab");
    assert!(best_thumb(&json("{}")).is_none());
}

#[test]
fn skips_opus_and_picks_lowest_aac_when_no_preferred_itag() {
    let resp = json(
        r#"{ "streamingData": { "adaptiveFormats": [
        { "itag": 251, "mimeType": "audio/webm; codecs=\"opus\"", "url": "https://x/251", "bitrate": 158132, "approxDurationMs": "226413" },
        { "itag": 139, "mimeType": "audio/mp4; codecs=\"mp4a.40.5\"", "url": "https://x/139", "bitrate": 50341, "approxDurationMs": "226413" },
        { "itag": 249, "mimeType": "audio/webm; codecs=\"opus\"", "url": "https://x/249", "bitrate": 63871 }
    ]} }"#,
    );
    let pick = pick_audio_format(&resp).expect("aac candidate");
    assert_eq!(pick.stream.itag, 139, "opus must be skipped, aac by bitrate");
}

fn formats(itags: &[u32]) -> Json {
    let list: Vec<String> = itags
        .iter()
        .map(|itag| {
            format!(
                r#"{{ "itag": {itag}, "mimeType": "audio/mp4; codecs=\"mp4a.40.2\"",
                "url": "https://x/{itag}", "bitrate": {}, "approxDurationMs": "226413" }}"#,
                itag * 1000
            )
        })
        .collect();
    json(&format!(r#"{{ "streamingData": {{ "adaptiveFormats": [ {} ] }} }}"#, list.join(",")))
}

#[test]
fn the_premium_format_comes_before_the_standard_one() {
    assert_eq!(pick_audio_format(&formats(&[139, 140, 141])).unwrap().stream.itag, 141);
    let pick = pick_audio_format(&formats(&[139, 140, 600])).unwrap().stream;
    assert_eq!(pick.itag, 140);
    assert_eq!(pick.duration_secs, Some(226));
    assert_eq!(pick.url, "https://x/140");
    assert_eq!(pick_audio_format(&formats(&[139, 600])).unwrap().stream.itag, 600);
    assert!(pick_audio_format(&formats(&[])).is_none());
    assert!(is_aac_mime("audio/mp4; codecs=\"mp4a.40.2\""));
    assert!(!is_aac_mime("audio/webm; codecs=\"opus\""));
}

#[test]
fn url_ttl_clamps_to_cache_cap() {
    let now = std::time::SystemTime::now()
        .duration_since(std::time::UNIX_EPOCH)
        .unwrap()
        .as_secs();
    let far = "https://x/videoplayback?expire=9999999999&other=1";
    assert_eq!(url_ttl(far, now), CACHE_TTL);
    let near = format!("https://x/videoplayback?expire={}", now + 30);
    assert!(url_ttl(&near, now) <= 30);
    assert!(url_ttl("https://x/no-expire", now) != 0);
}

fn stream() -> StreamUrl {
    StreamUrl {
        url: "https://x/videoplayback?expire=9999999999".into(),
        itag: 140,
        mime: "audio/mp4".into(),
        duration_secs: Some(226),
    }
}

#[test]
fn cache_roundtrip() {
    let mut client = YtClient::new(None, 0);
    let key = "ios:testvid0001".to_string();
    assert!(client.stream_cache.cache_get(&key, 0, 0).is_none());
    client.stream_cache.cache_put(&key, &stream(), 0);
    assert_eq!(client.stream_cache.cache_get(&key, 1, 0).unwrap().itag, 140);
}

#[test]
fn a_cached_stream_grows_old() {
    let mut cache = StreamCache::new();
    cache.cache_put("k", &stream(), 0);
    assert!(cache.cache_get("k", CACHE_TTL * 1000 - 1, 0).is_some());
    assert!(cache.cache_get("k", CACHE_TTL * 1000, 0).is_none());
    assert!(cache.cache_get("k", 0, 0).is_none());
    for i in 0..CACHE_MAX + 10 {
        cache.cache_put(&format!("k{i}"), &stream(), i as u64);
    }
    assert!(cache.cache_get(&format!("k{}", CACHE_MAX + 9), 0, 0).is_some());
}

#[test]
fn clients_are_asked_in_turn_until_one_answers() {
    let mut client = YtClient::new(None, 0);
    let mut search = Resolve::start("JhulBGMA7G4", false);
    let first = match search.next(&mut client.stream_cache, 0, 0) {
        ResolveStep::Ask(ctx) => ctx,
        _ => panic!("nobody is asked"),
    };
    assert_eq!(first.key, "visionos");
    let refused = json(r#"{ "playabilityStatus": { "status": "LOGIN_REQUIRED" } }"#);
    assert!(search.answered(&mut client.stream_cache, Ok(refused), 0).is_none());
    assert!(search.answered(&mut client.stream_cache, Err("offline".to_string()), 0).is_none());
    let found = search.answered(&mut client.stream_cache, Ok(formats(&[140])), 0).unwrap();
    assert_eq!(found.itag, 140);
    assert_eq!(cache_key(&client_chain(false)[2], "JhulBGMA7G4"), "ios:JhulBGMA7G4");
    match search.next(&mut client.stream_cache, 1, 0) {
        ResolveStep::Found(again) => assert_eq!(again.url, found.url),
        _ => panic!("not remembered"),
    }
    assert_eq!(
        search.attempts,
        vec!["visionos: no direct AAC formats (status LOGIN_REQUIRED)", "android_vr: offline"]
    );
}

#[test]
fn after_the_last_client_comes_the_fallback() {
    let mut cache = StreamCache::new();
    let mut search = Resolve::start("v", false);
    for _ in 0..4 {
        assert!(search.answered(&mut cache, Err("no".to_string()), 0).is_none());
    }
    match search.next(&mut cache, 0, 0) {
        ResolveStep::Fallback(message) => assert_eq!(
            message,
            "no client resolved v natively (visionos: no; android_vr: no; ios: no; tv: no); trying yt-dlp"
        ),
        _ => panic!("no fallback"),
    }
    assert_eq!(search.finish(Ok(stream())).unwrap().itag, 140);
    let failed = search.finish(yt_dlp_outcome(DlpRun::TimedOut));
    assert_eq!(
        failed.err().unwrap(),
        "no stream for v (visionos: no; android_vr: no; ios: no; tv: no). yt-dlp timed out after 90s"
    );
}

#[test]
fn yt_dlp_is_run_and_read() {
    assert_eq!(
        yt_dlp_args("v"),
        vec![
            "-J",
            "-f",
            "141/140/bestaudio[ext=m4a]/bestaudio",
            "--no-playlist",
            "https://www.youtube.com/watch?v=v"
        ]
    );
    let printed = r#"{ "url": "https://x/a", "format_id": "140", "ext": "m4a", "duration": 226.5 }"#;
    let stream = yt_dlp_outcome(DlpRun::Printed(printed.into())).unwrap();
    assert_eq!(stream.url, "https://x/a");
    assert_eq!(stream.itag, 140);
    assert_eq!(stream.mime, "audio/m4a");
    assert_eq!(stream.duration_secs, Some(227));
    let bare = r#"{ "url": "https://x/a", "format_id": "sb0", "duration": 12 }"#;
    let stream = yt_dlp_outcome(DlpRun::Printed(bare.into())).unwrap();
    assert_eq!((stream.itag, stream.mime.as_str()), (0, "audio/mp4"));
    assert_eq!(stream.duration_secs, Some(12));

    let fails = [
        (DlpRun::Printed(r#"{ "url": "http://x" }"#.into()), "yt-dlp returned no stream url"),
        (
            DlpRun::Printed("oops".into()),
            "yt-dlp output was not valid JSON: expected value at line 1 column 1",
        ),
        (
            DlpRun::Printed(vec![b'"', 0xff, b'"']),
            "yt-dlp output was not valid JSON: invalid unicode code point at line 1 column 2",
        ),
        (
            DlpRun::Exited { status: "exit status: 1".to_string(), stderr: "a\nb\n".to_string() },
            "yt-dlp exited exit status: 1: b",
        ),
        (
            DlpRun::Exited { status: "exit status: 1".to_string(), stderr: String::new() },
            "yt-dlp exited exit status: 1: (no output)",
        ),
        (DlpRun::LaunchFailed("denied".to_string()), "failed to launch yt-dlp: denied"),
        (
            DlpRun::Missing,
            "yt-dlp not found on PATH — install it for the fallback resolver (see https://github.com/yt-dlp/yt-dlp)",
        ),
    ];
    for (run, wanted) in fails {
        assert_eq!(yt_dlp_outcome(run).err().unwrap(), wanted);
    }
}

#[test]
fn texts_are_read_level_by_level_in_document_order() {
    let doc = parse("{\"z\": [1, -2, 1.5, \"x\", null, true, {\"b\": {}}], \"a\": []}").unwrap();
    let Json::Object(fields) = &doc else { panic!("an object") };
    assert_eq!(fields[0].0, "z");
    assert_eq!(fields[1].0, "a");
    let Json::Array(items) = &fields[0].1 else { panic!("an array") };
    assert!(matches!(items[0], Json::Unsigned(1)));
    assert!(matches!(items[1], Json::Negative(-2)));
    assert!(matches!(items[2], Json::Real(bits) if bits == 1.5f64.to_bits()));
    assert!(matches!(&items[3], Json::Text(s) if s == "x"));
    assert!(matches!(items[4], Json::Null));
    assert!(matches!(items[5], Json::Bool(true)));
    let Json::Object(inner) = &items[6] else { panic!("an object") };
    assert!(matches!(&inner[0].1, Json::Object(none) if none.is_empty()));
    assert!(parse("{").is_err());
    assert!(matches!(parse_bytes(&b"[-3]".to_vec()), Ok(Json::Array(a)) if matches!(a[0], Json::Negative(-3))));
    assert!(parse_bytes(&vec![0xff]).is_err());
    assert!(matches!(parse("18446744073709551615"), Ok(Json::Unsigned(u64::MAX))));
}

#[test]
fn clients_and_videos_have_a_place_of_their_own_in_the_cache() {
    let clients = client_chain(true);
    let mut keys: Vec<String> = Vec::new();
    for client in &clients {
        keys.push(cache_key(client, "a"));
        keys.push(cache_key(client, ":a"));
    }
    assert_eq!(keys[0], "web_music:a");
    keys.sort();
    keys.dedup();
    assert_eq!(keys.len(), 2 * clients.len());
}
