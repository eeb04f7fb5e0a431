//! Signing in, the desktop's media controls, and the settings.

use ytamp::bits::{Double, Single};
use ytamp::login::{
    hides_for, jar_path, login_step, netscape_jar, on_youtube, signed_in, LoginEvent, LoginStep,
    WebCookie,
};
use ytamp::model::{PlaybackState, Track};
use ytamp::mpris::{metadata, object_path_for, property_changes, MediaState, PlaybackStatus, Publisher};
use ytamp::settings::{
    cache_dir, default_cookie_path, eq_band_label, fallback_config_dir, skins_dir, Settings,
    EQ_BAND_CENTERS_HZ,
};
use ytamp::yt::innertube::{cookie_header, parse_netscape_cookies};

fn double(x: f64) -> Double {
    Double { bits: x.to_bits() }
}

fn cookie(name: &str, value: &str, domain: &str) -> WebCookie {
    WebCookie {
        name: name.to_string(),
        value: value.to_string(),
        domain: Some(domain.to_string()),
        path: None,
        secure: None,
        http_only: None,
        expires: None,
    }
}

fn account() -> Vec<WebCookie> {
    let mut sapisid = cookie("SAPISID", "abc", ".youtube.com");
    sapisid.path = Some("/".to_string());
    sapisid.secure = Some(true);
    let mut sid = cookie("SID", "xyz", ".google.com");
    sid.http_only = Some(true);
    let other = cookie("tracker", "1", ".example.com");
    vec![sapisid, sid, other]
}

#[test]
fn the_jar_is_netscape_format_for_youtube_and_google_only() {
    let cookies = account();
    assert!(signed_in(&cookies));
    let jar = netscape_jar(&cookies);
    assert!(jar.contains(".youtube.com\tTRUE\t/\tTRUE\t0\tSAPISID\tabc\n"));
    assert!(jar.contains("#HttpOnly_.google.com\tTRUE\t/\tFALSE\t0\tSID\txyz\n"));
    assert!(!jar.contains("example.com"));
    let parsed = cookie_header(&parse_netscape_cookies(&jar, 0));
    assert_eq!(parsed, Some("SAPISID=abc".to_string()));
}

#[test]
fn a_lookalike_domain_stays_out_of_the_jar() {
    let jar = netscape_jar(&vec![
        cookie("A", "1", "notyoutube.com"),
        cookie("B", "2", ".music.youtube.com"),
        cookie("C", "3", "google.com"),
    ]);
    assert!(!jar.contains("notyoutube.com"));
    assert!(jar.contains(".music.youtube.com\tTRUE\t/\tFALSE\t0\tB\t2\n"));
    assert!(jar.contains(".google.com\tTRUE\t/\tFALSE\t0\tC\t3\n"));
}

#[test]
fn only_youtube_pages_count() {
    assert!(on_youtube("https://music.youtube.com/"));
    assert!(!on_youtube("https://accounts.google.com/signin"));
    let foreign = cookie("SAPISID", "x", ".google.com");
    assert!(!signed_in(&vec![foreign]));
    let lookalike = cookie("SAPISID", "x", "notyoutube.com");
    assert!(signed_in(&vec![lookalike]));
    let below = cookie("SAPISID", "x", ".music.youtube.com");
    assert!(signed_in(&vec![below]));
}

#[test]
fn the_sign_in_window_goes_its_way() {
    assert!(hides_for("https://www.youtube.com/x"));
    assert!(matches!(login_step(LoginEvent::Closed), LoginStep::Exit(1, None)));
    let elsewhere = LoginEvent::Page("https://accounts.google.com/".to_string());
    assert!(matches!(login_step(elsewhere), LoginStep::Wait));
    let there = LoginEvent::Page("https://music.youtube.com/".to_string());
    assert!(matches!(login_step(there), LoginStep::ReadCookies));
    assert!(matches!(login_step(LoginEvent::Cookies(Ok(Vec::new()))), LoginStep::Show));
    match login_step(LoginEvent::Cookies(Ok(account()))) {
        LoginStep::WriteJar(jar) => assert_eq!(jar, netscape_jar(&account())),
        _ => panic!("no jar"),
    }
    match login_step(LoginEvent::Cookies(Err("gone".to_string()))) {
        LoginStep::Report(m) => assert_eq!(m, "ytamp: reading cookies: gone"),
        _ => panic!("no report"),
    }
    let written = LoginEvent::Written { path: "/c".to_string(), result: Ok(()) };
    assert!(matches!(login_step(written), LoginStep::Exit(0, None)));
    let full = LoginEvent::Written { path: "/c".to_string(), result: Err("full".to_string()) };
    match login_step(full) {
        LoginStep::Exit(2, Some(m)) => assert_eq!(m, "ytamp: could not write /c: full"),
        _ => panic!("no failure"),
    }
    assert_eq!(jar_path("/home/x/.config/ytamp"), "/home/x/.config/ytamp/cookies.txt");
}

#[test]
fn video_ids_make_valid_object_paths() {
    let path = object_path_for("a-B_c9").unwrap();
    assert_eq!(path.as_str(), "/org/ytamp/Track/a_hB_uc9");
    assert!(object_path_for("---").is_some());
    assert_eq!(object_path_for("é").unwrap(), "/org/ytamp/Track/track");
}

fn track() -> Track {
    Track {
        video_id: "x".into(),
        title: "t".into(),
        artist: String::new(),
        album: None,
        duration_secs: None,
        thumb_url: None,
    }
}

#[test]
fn media_state_reads_the_playback_state() {
    let mut state = PlaybackState::default();
    let of = |state: &PlaybackState| {
        let position = f64::from_bits(state.position_secs.bits);
        let volume = f64::from(f32::from_bits(state.volume.bits));
        MediaState::of(state, (position.max(0.0) * 1000.0) as u64, double(volume))
    };
    assert_eq!(of(&state).status, PlaybackStatus::Stopped);
    state.track = Some(track());
    state.position_secs = double(1.5);
    assert_eq!(of(&state).status, PlaybackStatus::Paused);
    assert_eq!(of(&state).position_ms, 1500);
    state.playing = true;
    assert_eq!(of(&state).status, PlaybackStatus::Playing);
}

fn told(playing: bool, position_ms: u64) -> MediaState {
    let mut state = PlaybackState::default();
    state.playing = playing;
    state.track = Some(track());
    MediaState::of(&state, position_ms, double(0.5))
}

#[test]
fn the_desktop_hears_changes_at_once_and_positions_once_a_second() {
    let mut publisher = Publisher::new();
    assert!(publisher.update(&told(true, 0), true, 0));
    publisher.sent(told(true, 0), 0);
    assert!(!publisher.update(&told(true, 0), true, 5_000));
    assert!(!publisher.update(&told(true, 500), true, 999));
    assert!(publisher.update(&told(true, 500), true, 1_000));
    assert!(publisher.update(&told(false, 0), true, 1));
    assert!(publisher.update(&told(true, 0), false, 1));
    publisher.sent(told(false, 0), 0);
    assert!(publisher.update(&told(false, 7), true, 1));
    let changes = property_changes(&None, &told(true, 0), true);
    assert!(changes.status && changes.metadata && changes.volume);
    let changes = property_changes(&Some(told(false, 0)), &told(true, 0), true);
    assert!(changes.status && !changes.metadata && !changes.volume);
}

#[test]
fn metadata_leaves_out_what_is_empty() {
    let m = metadata(&track());
    assert_eq!(m.title, "t");
    assert_eq!(m.url, "https://music.youtube.com/watch?v=x");
    assert_eq!(m.track_path.as_deref(), Some("/org/ytamp/Track/x"));
    assert!(m.artist.is_none() && m.album.is_none());
    let full = Track { artist: "a".into(), album: Some(String::new()), ..track() };
    assert_eq!(metadata(&full).artist.as_deref(), Some("a"));
    assert!(metadata(&full).album.is_none());
}

#[test]
fn search_history_is_deduplicated_newest_first_and_capped() {
    let mut settings = Settings::default();
    for i in 0..15 {
        settings.remember_search(&format!("query {i}"));
    }
    settings.remember_search("query 12");

    assert_eq!(settings.search_history.len(), 12);
    assert_eq!(settings.search_history[0], "query 12");
    assert_eq!(settings.search_history.iter().filter(|q| *q == "query 12").count(), 1);
    settings.remember_search("   ");
    assert_eq!(settings.search_history.len(), 12);
}

#[test]
fn eq_band_labels_match_winamp() {
    let labels: Vec<String> = EQ_BAND_CENTERS_HZ.iter().map(|hz| eq_band_label(*hz)).collect();
    assert_eq!(
        labels,
        ["60", "170", "310", "600", "1k", "3k", "6k", "12k", "14k", "16k"]
            .iter()
            .map(ToString::to_string)
            .collect::<Vec<_>>()
    );
}

#[test]
fn settings_begin_where_they_should() {
    let settings = Settings::default();
    assert_eq!(settings.volume, Single { bits: 0.7f32.to_bits() });
    assert!(!settings.winamp_window);
    assert_eq!(settings.skin_scale, 2);
    assert!(!settings.eq.enabled);
}

#[test]
fn everything_lives_under_the_config_directory() {
    assert_eq!(skins_dir("/c"), "/c/skins");
    assert_eq!(cache_dir("/c"), "/c/cache");
    assert_eq!(default_cookie_path("/c"), "/c/cookies.txt");
    let xdg = fallback_config_dir(Some("/x".to_string()), Some("/h".to_string()));
    assert_eq!(xdg, "/x/ytamp");
    assert_eq!(fallback_config_dir(None, Some("/h".to_string())), "/h/.config/ytamp");
}
