//! The application: searches, skins, cookies, banners, keys, and the plain mini
//! player.

use ytamp::app::mini_player::{clock_text, desired_window_size, fmt_time, strip_label, titles, MiniEvent};
use ytamp::app::standins::{
    apply_command, canned_radio, canned_search, canned_track, canned_video_id, is_due, tick,
};
use ytamp::app::{
    dropped_skins, echo_of, file_name, is_skin_file, list_skins, plan_install, radio_landed,
    same_path, search_landed, skin_display_label, HostEcho, Page, SearchOutcome, Skin, SkinError,
    ToastKind, YtampApp,
};
use ytamp::bits::{Double, Single};
use ytamp::eq::EqSettings;
use ytamp::model::{PlaybackState, PlayerCommand, PlayerEvent, Playlist, SpectrumFrame, Track};
use ytamp::settings::Settings;
use ytamp::ui::keys::{wants_flip, Key, KeyPress};
use ytamp::ui::library::{playlist_label, LibraryPage, LibraryState, LibraryTab};
use ytamp::ui::main_window::{can_scrub, clock_line, now_playing, read_keys};
use ytamp::ui::queue::{clear_queue, count_label, jump, queue_lines};
use ytamp::ui::search::{
    clicks, heading, length_label, meta_line, nothing_found, page, pick_recent, SearchPage,
};
use ytamp::ui::settings::{
    choose_skin, cookie_path_entered, cookie_status, set_eq, set_scale, SkinChoice,
};
use ytamp::yt::innertube::{radio_outcome, search_outcome};

fn double(x: f64) -> Double {
    Double { bits: x.to_bits() }
}

fn single(x: f32) -> Single {
    Single { bits: x.to_bits() }
}

fn test_app() -> YtampApp {
    YtampApp::new(Settings::default(), Ok(())).0
}

fn texts(app: &YtampApp) -> Vec<&str> {
    app.toasts.iter().map(|t| t.text.as_str()).collect()
}

fn plain(key: Key) -> KeyPress {
    KeyPress { key, ctrl: false, shift: false, plain: true }
}

fn ctrl(key: Key) -> KeyPress {
    KeyPress { key, ctrl: true, shift: false, plain: false }
}

#[test]
fn the_player_is_brought_up_to_the_settings() {
    let (app, commands) = YtampApp::new(Settings::default(), Err("no thread".to_string()));
    assert_eq!(commands.len(), 2);
    assert!(matches!(commands[0], PlayerCommand::SetVolume(v) if v == single(0.7)));
    assert!(matches!(commands[1], PlayerCommand::SetEq { enabled: false, .. }));
    assert_eq!(app.engine_note.as_deref(), Some("failed: no thread"));
    assert_eq!(app.mini.scale, 2);
    let huge = Settings { skin_scale: 9, ..Settings::default() };
    assert_eq!(YtampApp::new(huge, Ok(())).0.mini.scale, 4);
}

#[test]
fn host_view_routes_commands_and_defers_skin_loads() {
    let mut app = test_app();
    let mut host = app.host_snapshot();
    host.cmd(PlayerCommand::SetVolume(single(0.25)));
    assert!(!host.state.playing);
    assert!(host.state.queue.is_empty());
    assert!(!host.eq.enabled);
    assert_eq!(host.eq.gains_db, EqSettings::default().gains_db);
    assert_eq!(host.eq.preamp_db, EqSettings::default().preamp_db);

    // Skin requests wait until the frame is over.
    host.load_skin_file("/tmp/whatever.wsz");
    host.cmd(PlayerCommand::Next);
    let (commands, skins) = app.absorb(host);
    assert_eq!(skins, vec!["/tmp/whatever.wsz"]);
    assert_eq!(commands.len(), 2);
    assert!(matches!(commands[0], PlayerCommand::SetVolume(v) if v == single(0.25)));
    assert!(matches!(commands[1], PlayerCommand::Next));
    assert_eq!(app.settings.volume, single(0.25));
    assert!(app.settings_dirty);
    assert!(echo_of(&PlayerCommand::Next).is_none());
    // Of dropped files only skins are installed.
    let dropped = vec!["/tmp/whatever.wsz".to_string(), "/tmp/notes.txt".to_string()];
    assert_eq!(dropped_skins(&dropped), vec!["/tmp/whatever.wsz"]);
}

#[test]
fn echoes_end_in_the_settings() {
    let mut app = test_app();
    app.apply_echo(HostEcho::Volume(single(3.0)));
    assert_eq!(app.settings.volume, single(1.0));
    assert!(app.settings_dirty);
    let eq = EqSettings { enabled: true, ..EqSettings::default() };
    match echo_of(&eq.command()) {
        Some(echo) => app.apply_echo(echo),
        None => panic!("no echo"),
    }
    assert!(app.settings.eq.enabled);
    let sent = app.set_volume(single(-1.0));
    assert!(matches!(sent, PlayerCommand::SetVolume(v) if v == single(0.0)));
}

#[test]
fn toggling_mini_flips_mode_and_arms_the_switch() {
    let mut app = test_app();
    assert!(!app.settings.winamp_window);
    app.toggle_mini();
    assert!(app.settings.winamp_window);
    assert!(app.switch_intent);
    app.toggle_mini();
    assert!(!app.settings.winamp_window);
}

#[test]
fn the_mini_player_comes_back_where_it_was() {
    let mut app = test_app();
    app.toggle_mini();
    assert_eq!(app.attach(), None);
    assert!(!app.switch_intent);
    app.before_mini(Some((single(10.0), single(20.0))));
    app.mini.wants_exit = true;
    assert!(app.after_mini());
    assert!(!app.settings.winamp_window && app.switch_intent);
    app.toggle_mini();
    assert_eq!(app.attach(), Some((single(10.0), single(20.0))));
    app.mini.wants_eq = true;
    app.mini.scale = 9;
    assert!(!app.after_mini());
    assert!(app.eq_open);
    assert_eq!((app.mini.scale, app.settings.skin_scale), (4, 4));
}

#[test]
fn the_engine_simulates_a_queue() {
    let first = canned_track("sim", 0);
    let mut state = PlaybackState::default();
    apply_command(
        &mut state,
        &PlayerCommand::QueueReplace(vec![first.clone(), canned_track("sim", 1)], Some(0)),
        double(0.0),
    );
    assert!(state.playing);
    assert_eq!(state.track.as_ref().unwrap().video_id, first.video_id);
    assert_eq!(state.queue.len(), 2);
    assert_eq!(state.queue_index, Some(0));
    assert_eq!(state.duration_secs, Some(double(150.0)));

    tick(&mut state, double(3.5));
    apply_command(&mut state, &PlayerCommand::Prev, double(0.0));
    assert_eq!((state.queue_index, state.position_secs), (Some(0), double(0.0)));
    apply_command(&mut state, &PlayerCommand::Next, double(0.0));
    assert_eq!(state.queue_index, Some(1));
    apply_command(&mut state, &PlayerCommand::Prev, double(0.0));
    assert_eq!(state.queue_index, Some(0));
    apply_command(&mut state, &PlayerCommand::SeekRatio(double(0.5)), double(75.0));
    assert_eq!(state.position_secs, double(75.0));
    apply_command(&mut state, &PlayerCommand::PlayPause, double(0.0));
    assert!(!state.playing);
    tick(&mut state, double(80.0));
    assert_eq!(state.position_secs, double(75.0));
    apply_command(&mut state, &PlayerCommand::Resume, double(0.0));
    tick(&mut state, double(150.0));
    assert!(!state.playing);
    assert_eq!(state.position_secs, double(150.0));
    apply_command(&mut state, &PlayerCommand::SetVolume(single(2.0)), double(0.0));
    assert_eq!(state.volume, single(1.0));
    apply_command(&mut state, &PlayerCommand::Stop, double(0.0));
    assert_eq!(state.position_secs, double(0.0));
    apply_command(&mut state, &PlayerCommand::QueueReplace(Vec::new(), None), double(0.0));
    assert!(state.track.is_none() && state.queue.is_empty());
    apply_command(&mut state, &PlayerCommand::PlayPause, double(0.0));
    assert!(!state.playing);
    assert!(is_due(None, 0, 250) && is_due(Some(0), 250, 250) && !is_due(Some(0), 249, 250));
}

#[test]
fn canned_search_and_radio_are_deterministic_and_distinct() {
    let a = canned_search("lofi", 5);
    let b = canned_search("lofi", 5);
    assert_eq!(a, b);
    assert_eq!(a.len(), 5);
    assert!(a.iter().all(|t| t.video_id.len() == 11));

    let radio = canned_radio(&a[0].video_id, 20);
    assert_eq!(radio.len(), 20);
    assert!(radio.iter().all(|t| t.video_id != a[0].video_id));
}

/// The hash and the generator once more, over bytes.
#[test]
fn canned_ids_are_hashed_from_their_seed() {
    let alphabet = b"abcdefghijklmnopqrstuvwxyzABCDEFGHIJKLMNOPQRSTUVWXYZ0123456789-_";
    for (seed, i) in [("lofi", 0usize), ("é", 7), ("", 300)] {
        let mut h: u64 = 0xcbf2_9ce4_8422_2325;
        for b in seed.bytes().chain((i as u64).to_le_bytes()) {
            h ^= u64::from(b);
            h = h.wrapping_mul(0x100_0000_01b3);
        }
        let mut id = String::new();
        for _ in 0..11 {
            h ^= h << 13;
            h ^= h >> 7;
            h ^= h << 17;
            id.push(alphabet[(h % 64) as usize] as char);
        }
        assert_eq!(canned_video_id(seed, i), id);
    }
    let second = canned_track("lofi", 9);
    assert_eq!(second.title, "lofi — take 10");
    assert_eq!(second.artist, "Biosphere");
    assert_eq!(second.duration_secs, Some(150 + 93));
    assert_eq!(canned_track("lofi", 0).title, "lofi (stand-in)");
}

#[test]
fn installing_a_skin_copies_it_into_the_library_and_selects_it() {
    let mut app = test_app();
    let plan = plan_install("/drop/My-Skin.wsz", true, "/c/skins").ok().unwrap();
    assert_eq!(plan.name, "My-Skin.wsz");
    assert_eq!(plan.dest, "/c/skins/My-Skin.wsz");
    assert!(plan.copy);
    let loaded = Skin::load(&plan.dest, Ok(b"PK\x03\x04 fake zip bytes".to_vec()));
    app.skin_loaded(&plan.name, loaded, 0);
    assert!(app.skin.is_some());
    assert_eq!(app.skin.as_ref().unwrap().name, "My-Skin");
    assert_eq!(app.settings.skin.as_deref(), Some("My-Skin.wsz"));
    assert!(app.toasts.iter().any(|t| t.text.contains("My-Skin")));

    // A broken archive is reported, never fatal.
    let plan = plan_install("/drop/bad.wsz", true, "/c/skins").ok().unwrap();
    let loaded = Skin::load(&plan.dest, Ok(b"not a zip".to_vec()));
    app.skin_loaded(&plan.name, loaded, 0);
    assert!(app.toasts.iter().any(|t| t.kind == ToastKind::Error));
    assert_eq!(app.settings.skin.as_deref(), Some("My-Skin.wsz"));
    assert_eq!(texts(&app), vec!["Skin: My-Skin", "skin bad.wsz: not a zip archive (.wsz)"]);

    app.clear_skin(0);
    assert!(app.skin.is_none() && app.settings.skin.is_none());
    app.copy_failed("disk full", 0);
    assert_eq!(texts(&app)[2..], ["Skin: built-in", "could not copy skin into library: disk full"]);
}

#[test]
fn skins_that_cannot_be_installed_say_why() {
    assert_eq!(plan_install("/x/a.wsz", false, "/c").err().unwrap(), "/x/a.wsz is not a file");
    assert_eq!(plan_install("/x/..", true, "/c").err().unwrap(), "/x/.. has no file name");
    assert!(!plan_install("/c/skins//a.wsz", true, "/c/skins").ok().unwrap().copy);
    let missing = Skin::load("/c/a.wsz", Err("No such file".to_string()));
    assert_eq!(missing.err().unwrap().0, "/c/a.wsz: No such file");
    let SkinError(short) = Skin::from_archive("a", b"PK").err().unwrap();
    assert_eq!(short, "not a zip archive (.wsz)");
    assert_eq!(Skin::builtin().name, "built-in");
    assert_eq!(Skin::load("/", Ok(b"PK\x03\x04".to_vec())).ok().unwrap().name, "skin");
}

#[test]
fn skin_names_and_paths_are_told_apart() {
    assert_eq!(skin_display_label("Zaxon.WSZ"), "Zaxon");
    assert_eq!(skin_display_label("a.b.zip"), "a.b");
    assert_eq!(skin_display_label("notes.txt"), "notes.txt");
    assert_eq!(skin_display_label(".wal"), "");
    for path in ["a.wsz", "/x/a.Wal", "x/a.zip/", "./a.b.zip"] {
        assert!(is_skin_file(path), "{path}");
    }
    for path in ["a.txt", "/x/.wsz", "a.wsz/..", "wsz", ""] {
        assert!(!is_skin_file(path), "{path}");
    }
    for path in ["/a//b/./c", "a/b/", "./x", "..", "/", ""] {
        let std_name = std::path::Path::new(path).file_name();
        let std_name = std_name.map(|n| n.to_string_lossy().into_owned());
        assert_eq!(file_name(path), std_name, "{path}");
    }
    for (a, b) in [("/a//b", "/a/b"), ("a/./b", "a/b"), ("./a", "a"), ("/a", "a"), ("a/..", "a")] {
        let std_same = std::path::Path::new(a) == std::path::Path::new(b);
        assert_eq!(same_path(a, b), std_same, "{a} {b}");
    }
}

#[test]
fn skins_are_listed_by_name_whatever_their_case() {
    let files: Vec<String> = ["/s/beta.wsz", "/s/Alpha.wsz", "/s/notes.txt", "/s/Éclair.zip", "/s/gamma.wal"]
        .iter()
        .map(ToString::to_string)
        .collect();
    let names: Vec<String> = list_skins(&files).into_iter().map(|s| s.name).collect();
    assert_eq!(names, vec!["Alpha.wsz", "beta.wsz", "gamma.wal", "Éclair.zip"]);
    let mut sorted = names.clone();
    sorted.sort_by_key(|name| name.to_lowercase());
    assert_eq!(names, sorted);
}

#[test]
fn radio_outcomes_append_only_fresh_tracks_end_to_end() {
    let mut app = test_app();
    let seed: Vec<Track> = (0..3).map(|i| canned_track("q", i)).collect();
    app.search.results = seed.clone();
    let (command, video_id) = app.play_result(0).unwrap();
    assert_eq!(video_id, seed[0].video_id);
    apply_command(&mut app.state, &command, double(0.0));
    assert_eq!(app.state.queue.len(), 3);
    assert_eq!(app.state.queue_index, Some(0));

    // Radio arrives: the three known ids must not be re-appended.
    let mut radio: Vec<Track> = seed.clone();
    radio.push(canned_track("radio:x", 0));
    let command = app
        .apply_search_outcome(SearchOutcome::Radio { video_id, tracks: radio }, 0)
        .unwrap();
    apply_command(&mut app.state, &command, double(0.0));
    assert_eq!(app.state.queue.len(), 4);
    assert!(app.toasts.iter().any(|t| t.text.contains("+1")));
    let nothing = radio_landed("other".to_string(), Ok(seed));
    assert!(app.apply_search_outcome(nothing, 0).is_none());
}

#[test]
fn searches_land_unless_they_are_stale() {
    let mut app = test_app();
    app.search.query = "  lofi ".to_string();
    assert_eq!(app.begin_search().as_deref(), Some("lofi"));
    assert!(app.search.searching);
    assert_eq!(app.settings.search_history, vec!["lofi"]);
    let stale = search_landed("old".to_string(), Ok(canned_search("old", 2)));
    assert!(app.apply_search_outcome(stale, 0).is_none());
    assert!(app.search.searching && app.search.results.is_empty());
    let landed = search_landed("lofi".to_string(), Ok(canned_search("lofi", 2)));
    app.apply_search_outcome(landed, 0);
    assert!(!app.search.searching);
    assert_eq!((app.search.results.len(), app.search.selected), (2, Some(0)));
    app.apply_search_outcome(search_landed("lofi".to_string(), Ok(Vec::new())), 0);
    assert_eq!(app.search.selected, None);
    let failed = search_outcome("lofi", 2, Err("offline".to_string()));
    app.apply_search_outcome(search_landed("lofi".to_string(), failed), 0);
    let failed = radio_outcome("v", 2, Err("offline".to_string()));
    app.apply_search_outcome(radio_landed("v".to_string(), failed), 0);
    assert_eq!(
        texts(&app),
        vec![
            "No results for “lofi”",
            "search failed: YT Music search failed",
            "radio failed: YT Music radio (next) failed",
        ]
    );
    app.search.query = "   ".to_string();
    assert!(app.begin_search().is_none());
}

#[test]
fn banners_come_and_go() {
    let mut app = test_app();
    for i in 0..6 {
        app.toast(&format!("n{i}"), i * 100);
    }
    assert_eq!(texts(&app), vec!["n2", "n3", "n4", "n5"]);
    app.tick_toasts(4_300);
    assert_eq!(texts(&app), vec!["n4", "n5"]);
    app.dismiss_toast(0);
    assert_eq!(texts(&app), vec!["n5"]);
    app.toast_error("bad", 0);
    assert_eq!(app.toasts[1].kind, ToastKind::Error);
}

#[test]
fn player_events_reach_the_windows() {
    let mut app = test_app();
    let mut state = PlaybackState::default();
    state.playing = true;
    state.track = Some(canned_track("q", 0));
    app.apply_event(PlayerEvent::State(state), 0);
    assert!(app.state.playing);
    app.apply_event(PlayerEvent::Spectrum(SpectrumFrame { bands: vec![single(0.5)] }), 0);
    assert_eq!(app.spectrum.bands.len(), 1);
    app.apply_event(PlayerEvent::Error("e".to_string()), 0);
    app.apply_event(PlayerEvent::Info("i".to_string()), 0);
    app.engine_stopped(0);
    assert_eq!(texts(&app), vec!["e", "i", "The audio engine stopped; playback is unavailable."]);
    assert_eq!(app.engine_note.as_deref(), Some("engine stopped"));
    assert_eq!(
        app.sync_window_title().as_deref(),
        Some("Autechre — q (stand-in) — ytamp")
    );
    assert!(app.sync_window_title().is_none());
    app.state.playing = false;
    assert_eq!(app.sync_window_title().as_deref(), Some("ytamp"));
}

#[test]
fn settings_are_saved_now_and_then() {
    let mut app = test_app();
    assert!(!app.save_due(0));
    app.mark_dirty();
    assert!(app.save_due(0));
    app.saved(100);
    assert!(!app.settings_dirty);
    app.mark_dirty();
    assert!(!app.save_due(1_599));
    assert!(app.save_due(1_600));
    assert_eq!(app.repaint_after(), None);
    app.state.playing = true;
    assert_eq!(app.repaint_after(), Some(250));
    app.search.searching = true;
    assert_eq!(app.repaint_after(), Some(100));
}

#[test]
fn cookie_files_are_taken_or_refused() {
    let mut app = test_app();
    let jar = app.set_cookie_path(Some("/c".to_string()), Some("x".to_string()), 0);
    assert_eq!(jar.as_deref(), Some("x"));
    assert!(app.set_cookie_path(Some("/d".to_string()), Some(" \n".to_string()), 0).is_none());
    assert!(app.set_cookie_path(None, None, 0).is_none());
    assert_eq!(
        texts(&app),
        vec!["Cookies loaded", "Cookie file empty or missing: /d", "Cookies cleared"]
    );
    assert_eq!(cookie_path_entered("  "), None);
    assert_eq!(cookie_path_entered(" /c ").as_deref(), Some("/c"));
    assert_eq!(cookie_status(&None, Some("x".to_string())), None);
    let set = Some("/c".to_string());
    assert_eq!(cookie_status(&set, Some("x".to_string())).as_deref(), Some("Cookies loaded."));
    assert_eq!(cookie_status(&set, None).as_deref(), Some("Cookie file missing or empty."));
}

#[test]
fn the_settings_page_changes_skins_scale_and_equalizer() {
    let mut app = test_app();
    assert!(matches!(choose_skin(&None, None), SkinChoice::Keep));
    let worn = Some("a.wsz".to_string());
    assert!(matches!(choose_skin(&worn, worn.clone()), SkinChoice::Keep));
    assert!(matches!(choose_skin(&worn, None), SkinChoice::Clear));
    assert!(matches!(choose_skin(&None, worn), SkinChoice::Load(name) if name == "a.wsz"));
    set_scale(&mut app, 3);
    assert_eq!((app.settings.skin_scale, app.mini.scale), (3, 3));
    assert!(set_eq(&mut app, EqSettings::default()).is_none());
    let on = EqSettings { enabled: true, ..EqSettings::default() };
    assert!(matches!(set_eq(&mut app, on), Some(PlayerCommand::SetEq { enabled: true, .. })));
    assert!(app.settings.eq.enabled);
}

#[test]
fn keys_walk_the_results_and_play_them() {
    let mut app = test_app();
    app.search.results = canned_search("lofi", 2);
    let down = read_keys(&vec![plain(Key::ArrowDown)], false);
    app.apply_keys(down);
    assert_eq!((app.search.selected, app.search.scroll_to), (Some(1), Some(1)));
    app.apply_keys(down);
    assert_eq!(app.search.selected, Some(1));
    app.apply_keys(read_keys(&vec![plain(Key::ArrowUp)], false));
    assert_eq!(app.search.selected, Some(0));
    let effects = app.apply_keys(read_keys(&vec![plain(Key::Enter), plain(Key::Space)], false));
    assert!(effects.play_pause);
    assert!(matches!(effects.play, Some((PlayerCommand::QueueReplace(_, Some(0)), _))));
    // While somebody types, only the keys with control count.
    let typing = read_keys(&vec![plain(Key::Enter), ctrl(Key::F), ctrl(Key::Q)], true);
    assert!(typing.focus_search && typing.toggle_queue && !typing.play_selected);
    app.apply_keys(typing);
    assert!(!app.show_queue);
    // With nothing listed, Enter searches.
    let mut fresh = test_app();
    fresh.search.query = "lofi".to_string();
    let effects = fresh.apply_keys(read_keys(&vec![plain(Key::Enter)], false));
    assert_eq!(effects.search.as_deref(), Some("lofi"));
    assert!(wants_flip(&vec![ctrl(Key::M)]));
    let shifted = KeyPress { shift: true, ..ctrl(Key::M) };
    assert!(!wants_flip(&vec![shifted, plain(Key::M)]));
}

#[test]
fn the_bar_scrubs_and_tells_the_time() {
    let mut app = test_app();
    assert!(!can_scrub(&app.state));
    assert_eq!(app.release_scrub(double(1.0)), None);
    app.state.duration_secs = Some(double(264.0));
    assert!(can_scrub(&app.state));
    assert_eq!(app.release_scrub(double(1.0)), Some(double(1.0)));
    app.scrub_to(double(61.5));
    assert_eq!(clock_line(app.scrub, &app.state), "1:01 / 4:24");
    assert_eq!(app.release_scrub(double(9.0)), Some(double(61.5)));
    assert_eq!(app.scrub, None);
    assert_eq!(clock_line(None, &PlaybackState::default()), "0:00 / 0:00");
    let idle = now_playing(&app.state);
    assert_eq!(idle, ("Nothing playing".to_string(), "search to fill the queue".to_string()));
}

#[test]
fn the_queue_is_listed_and_cleared() {
    let mut state = PlaybackState::default();
    assert!(clear_queue(&state).is_none());
    state.queue = canned_search("q", 2);
    state.queue_index = Some(1);
    let lines: Vec<String> = queue_lines(&state).into_iter().map(|l| l.label).collect();
    assert_eq!(lines, vec!["Autechre — q (stand-in)", "▶ Biosphere — q — take 2"]);
    assert_eq!(count_label(&state), "2");
    assert!(matches!(clear_queue(&state), Some(PlayerCommand::QueueReplace(t, None)) if t.is_empty()));
    assert!(matches!(jump(1), PlayerCommand::PlayAt(1)));
}

#[test]
fn the_search_page_shows_what_it_has() {
    let mut app = test_app();
    assert_eq!(page(&app.search), SearchPage::Landing);
    app.search.committed = "lofi".to_string();
    assert_eq!(page(&app.search), SearchPage::Nothing);
    app.search.searching = true;
    assert_eq!(page(&app.search), SearchPage::Waiting);
    app.search.results = canned_search("lofi", 2);
    assert_eq!(page(&app.search), SearchPage::Results);
    assert_eq!(heading(&app.search), "“lofi”");
    assert_eq!(nothing_found(&app.search), "No results for “lofi”");
    assert_eq!(meta_line(&app.search.results[0]), "Autechre · Canned Results");
    assert_eq!(length_label(&app.search.results[0]), "2:30");
    assert!(clicks(&mut app, None, None, Some(1)).is_none());
    assert_eq!(app.search.selected, Some(1));
    let played = clicks(&mut app, None, Some(0), Some(1)).unwrap();
    assert_eq!(played.1, app.search.results[0].video_id);
    app.settings.search_history = vec!["old".to_string()];
    assert!(pick_recent(&mut app, 5).is_none());
    assert_eq!(pick_recent(&mut app, 0).as_deref(), Some("old"));
    assert_eq!(app.page, Page::Search);
}

#[test]
fn the_library_page_asks_for_an_account() {
    let mut library = LibraryState {
        tab: LibraryTab::Liked,
        playlists: Vec::new(),
        open_playlist: None,
        loading_playlists: false,
    };
    assert_eq!(library.page(false), LibraryPage::SignIn);
    assert_eq!(library.page(true), LibraryPage::Tracks);
    library.tab = LibraryTab::Playlists;
    assert_eq!(library.page(true), LibraryPage::PickPlaylist);
    assert_eq!(library.empty_note().as_deref(), Some("No playlists yet."));
    let list = Playlist {
        browse_id: "VLLM".to_string(),
        title: "Liked Music".to_string(),
        subtitle: "Auto playlist".to_string(),
    };
    assert!(!library.is_open(&list));
    library.open_playlist = Some("VLLM".to_string());
    assert!(library.is_open(&list));
    assert_eq!(library.page(true), LibraryPage::OpenPlaylist);
    assert_eq!(playlist_label(&list), "Liked Music\nAuto playlist");
    let bare = Playlist { subtitle: String::new(), ..list };
    assert_eq!(playlist_label(&bare), "Liked Music");
}

#[test]
fn the_plain_mini_player_answers_buttons_and_keys() {
    let mut app = test_app();
    let playback = PlaybackState::default();
    assert_eq!(desired_window_size(&app.mini), (550, 232));
    assert_eq!(app.mini.window_size(), (550, 232));
    app.mini.eq_open = true;
    assert_eq!(desired_window_size(&app.mini), (550, 544));
    assert!(matches!(app.mini.touch(&playback, MiniEvent::Previous), Some(PlayerCommand::Prev)));
    assert!(app.mini.touch(&playback, MiniEvent::Seek(double(0.5))).is_none());
    let long = PlaybackState { duration_secs: Some(double(9.0)), ..PlaybackState::default() };
    assert!(app.mini.touch(&long, MiniEvent::Seek(double(0.5))).is_some());
    assert!(app.mini.touch(&playback, MiniEvent::Exit).is_none());
    assert!(app.mini.touch(&playback, MiniEvent::Equalizer).is_none());
    assert!(app.mini.wants_exit && app.mini.wants_eq);
    match app.mini.touch(&playback, MiniEvent::EqBand(3, double(2.0))) {
        Some(PlayerCommand::SetEq { gains_db, .. }) => assert_eq!(gains_db[3], double(2.0)),
        _ => panic!("no settings"),
    }
    // The last plain key decides, even where it means nothing.
    let sent = app.mini.handle_keys(&vec![plain(Key::Z), plain(Key::B), ctrl(Key::C)]);
    assert!(matches!(sent, Some(PlayerCommand::Next)));
    assert!(app.mini.handle_keys(&vec![plain(Key::Z), plain(Key::L)]).is_none());
    assert!(app.mini.time_remaining);
    assert_eq!(clock_text(&app.mini, &long, double(5.0)), "-0:05");
    app.mini.touch(&playback, MiniEvent::Clock);
    assert_eq!(clock_text(&app.mini, &long, double(5.0)), "0:00");
    assert_eq!(fmt_time(double(75.2)), "1:15");
    assert_eq!(titles(&playback), ("ytamp".to_string(), "nothing playing".to_string()));
    assert_eq!(strip_label(&Skin::builtin()), "⚡ built-in");
}
