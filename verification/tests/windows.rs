//! The skinned windows: marquee, stack, times, sliders, playlist, equalizer.

use std::collections::HashSet;

use ytamp::bits::{Double, Single};
use ytamp::eq::EqSettings;
use ytamp::layout::{self, Area};
use ytamp::model::{PlaybackState, PlayerCommand, Track};
use ytamp::ui::winamp::equalizer::{is_chosen, look, touched, EqEvent, Look};
use ytamp::ui::winamp::playlist::{
    double_click, fit, frame_tiles, label, list_area, most_scroll, row_places, rows, rows_visible,
    running_time, shade_line, shown_rows, title_room, MenuItem, TextSize,
};
use ytamp::ui::winamp::{
    bar_rows, format_duration, glyph_places, lamps, marquee_text, press, rate_text, repaint_after,
    scaled, seek_thumb, shade_time, slider_event, snap, stopped, time_display, visible_spans, HostCall,
    Lamp, SeekNote, SliderEvent, SliderInput, TransportButton, WindowEvent,
};
use ytamp::vis::{Bar, VisMode};
use ytamp::winamp::{
    clamp_scale, default_skin, marquee_strip, WinampState, MARQUEE_CHARS, MARQUEE_GAP,
    MARQUEE_STEP_NS, MAX_SCALE,
};

fn double(x: f64) -> Double {
    Double { bits: x.to_bits() }
}

fn single(x: f32) -> Single {
    Single { bits: x.to_bits() }
}

fn playback(title: &str, artist: &str, duration_secs: f64) -> PlaybackState {
    PlaybackState {
        playing: true,
        track: Some(Track {
            video_id: "x".into(),
            title: title.into(),
            artist: artist.into(),
            album: None,
            duration_secs: Some(duration_secs as u64),
            thumb_url: None,
        }),
        position_secs: double(0.0),
        duration_secs: Some(double(duration_secs)),
        volume: single(0.5),
        queue: Vec::new(),
        queue_index: None,
    }
}

fn percent(x: f32) -> u32 {
    (x * 100.0).round() as u32
}

fn note(fraction: f64, duration: f64) -> SeekNote {
    SeekNote { to: double(fraction * duration), percent: (fraction * 100.0).round() as u32 }
}

/// A slider position as a balance, -1 to 1, snapping to the centre.
fn balance_of(value: f32) -> f32 {
    f32::from_bits(snap(single(value * 2.0 - 1.0)).bits)
}

#[test]
fn a_short_title_sits_still_and_a_long_one_scrolls() {
    let mut state = WinampState::default();
    let start: u64 = 1_000_000_000;
    assert_eq!(state.marquee("ytamp", start).0, "ytamp");
    assert!(!state.marquee_scrolling());

    let long = "Radiohead — Everything In Its Right Place (4:11)";
    let (first, offset) = state.marquee(long, start);
    assert_eq!(first.chars().count(), MARQUEE_CHARS);
    assert_eq!(offset, 0);
    assert!(long.starts_with(&first));
    assert!(state.marquee_scrolling());
    // Not yet time to move.
    assert_eq!(state.marquee(long, start + 100_000_000).0, first);
    let (later, stepped) = state.marquee(long, start + MARQUEE_STEP_NS);
    assert!(long[1..].starts_with(&later));
    assert_eq!(stepped, 1);
    // Eventually the start comes round again, after the gap.
    let round = long.chars().count() + MARQUEE_GAP.len();
    let again = state.marquee(long, start + MARQUEE_STEP_NS * round as u64).0;
    assert_eq!(again, first);
    // A new title starts from its beginning.
    let other = "Something else entirely, and just as long as before";
    assert!(other.starts_with(&state.marquee(other, start + 9_000_000_000).0));
    assert_eq!(marquee_strip("a"), "a  ***  ");
}

#[test]
fn the_stack_adds_up_whichever_windows_are_open() {
    let mut state = WinampState::default();
    assert_eq!(state.stack_height(), layout::WINDOW_HEIGHT);
    state.shaded = true;
    assert_eq!(state.stack_height(), layout::SHADE_HEIGHT);
    state.shaded = false;
    state.eq_open = true;
    assert_eq!(state.stack_height(), layout::WINDOW_HEIGHT + layout::EQ_HEIGHT);
    state.eq_shaded = true;
    assert_eq!(state.stack_height(), layout::WINDOW_HEIGHT + layout::EQ_SHADE_HEIGHT);
    state.playlist_open = true;
    state.playlist_height = 1000;
    assert_eq!(
        state.stack_height(),
        layout::WINDOW_HEIGHT + layout::EQ_SHADE_HEIGHT + layout::PLAYLIST_MAX_HEIGHT
    );
    state.playlist_shaded = true;
    assert_eq!(
        state.stack_height(),
        layout::WINDOW_HEIGHT + layout::EQ_SHADE_HEIGHT + layout::PLAYLIST_SHADE_HEIGHT
    );
    assert_eq!(state.tops(), (116, 130));
    assert_eq!(state.window_size(), (550, 288));
}

#[test]
fn the_scale_stays_a_whole_number_in_range() {
    assert_eq!(clamp_scale(0), 1);
    assert_eq!(clamp_scale(3), 3);
    assert_eq!(clamp_scale(99), MAX_SCALE);
    assert_eq!(default_skin().name, "built-in");
}

#[test]
fn the_marquee_names_the_song_the_way_winamp_did() {
    let playing = playback("Karma Police", "Radiohead", 264.0);
    assert_eq!(marquee_text(&playing, None, None, None), "Radiohead — Karma Police (4:24)");
    assert_eq!(marquee_text(&PlaybackState::default(), None, None, None), "ytamp");
    let untitled = playback("Episode 12", "", 0.0);
    assert_eq!(marquee_text(&untitled, None, None, None), "Episode 12");
}

#[test]
fn a_seek_in_progress_says_where_it_is_going() {
    let playing = playback("Karma Police", "Radiohead", 264.0);
    assert_eq!(
        marquee_text(&playing, Some(note(0.5, 264.0)), None, None),
        "Seek to: 2:12/4:24 (50%)"
    );
}

#[test]
fn sliders_announce_themselves_while_they_move() {
    let playing = playback("Karma Police", "Radiohead", 264.0);
    assert_eq!(marquee_text(&playing, None, Some(percent(0.57)), None), "Volume: 57%");
    assert_eq!(
        marquee_text(&playing, None, None, Some((single(-0.25), percent(0.25)))),
        "Balance: 25% left"
    );
    assert_eq!(
        marquee_text(&playing, None, None, Some((single(0.25), percent(0.25)))),
        "Balance: 25% right"
    );
    assert_eq!(
        marquee_text(&PlaybackState::default(), None, None, Some((single(0.0), 0))),
        "Balance: center"
    );
    assert_eq!(balance_of(0.5), 0.0);
    assert_eq!(balance_of(0.52), 0.0);
    assert!((balance_of(1.0) - 1.0).abs() < 1e-6);
    assert_eq!(snap(single(-0.079)), single(0.0));
    assert_eq!(snap(single(0.08)), single(0.08));
    assert_eq!(snap(single(-0.08)), single(-0.08));
    assert!(stopped(&PlaybackState {
        playing: false,
        position_secs: double(0.0),
        ..playing.clone()
    }));
    assert!(!stopped(&playing));
}

#[test]
fn durations_are_written_the_way_winamp_wrote_them() {
    assert_eq!(format_duration(double(0.0)), "0:00");
    assert_eq!(format_duration(double(61.0)), "1:01");
    assert_eq!(format_duration(double(264.4)), "4:24");
    assert_eq!(format_duration(double(-3.0)), "0:00");
    assert_eq!(format_duration(double(f64::NAN)), "0:00");
}

#[test]
fn rows_are_numbered_the_way_winamp_did() {
    assert_eq!(label(1, "Bonobo", "Rosewood"), "1. Bonobo - Rosewood");
    assert_eq!(label(12, "", "Episode 12"), "12. Episode 12");
}

#[test]
fn the_list_holds_whole_rows_only() {
    assert_eq!(rows_visible(116), 4);
    assert_eq!(rows_visible(174), 8);
    assert_eq!(list_area(174), Area::new(12, 20, 243, 116));
}

#[test]
fn a_mini_slider_changes_its_look_by_thirds() {
    assert_eq!(look(single(0.0)), Look::Low);
    assert_eq!(look(single(0.3)), Look::Low);
    assert_eq!(look(single(0.5)), Look::Middle);
    assert_eq!(look(single(0.7)), Look::High);
    assert_eq!(look(single(1.0)), Look::High);
    assert_eq!(look(single(1.0 / 3.0)), Look::Middle);
    assert_eq!(look(single(2.0 / 3.0)), Look::High);
}

#[test]
fn the_time_is_shown_in_four_digits() {
    let mut state = WinampState::default();
    let mut playing = playback("t", "a", 264.0);
    let shown = time_display(&state, &playing, double(65.9), double(198.1), 0).unwrap();
    assert_eq!((shown.digits, shown.minus), ([0, 1, 0, 5], false));
    state.time_remaining = true;
    let shown = time_display(&state, &playing, double(65.9), double(198.1), 0).unwrap();
    assert_eq!((shown.digits, shown.minus), ([0, 3, 1, 8], true));
    state.time_remaining = false;
    let shown = time_display(&state, &playing, double(99999.0), double(0.0), 0).unwrap();
    assert_eq!(shown.digits, [9, 9, 3, 9]);
    // Paused, every other half second is dark.
    playing.playing = false;
    playing.position_secs = double(2.0);
    assert!(time_display(&state, &playing, double(2.0), double(0.0), 3).is_none());
    assert!(time_display(&state, &playing, double(2.0), double(0.0), 4).is_some());
    playing.position_secs = double(0.0);
    assert!(time_display(&state, &playing, double(0.0), double(0.0), 4).is_none());
    assert!(time_display(&state, &PlaybackState::default(), double(0.0), double(0.0), 0).is_none());
}

#[test]
fn the_rolled_up_bar_tells_the_time() {
    let mut state = WinampState::default();
    let mut playing = playback("t", "a", 264.0);
    let time = |state: &WinampState, p: &PlaybackState| {
        shade_time(state, p, double(65.0), double(199.0))
    };
    assert_eq!(time(&state, &playing).as_deref(), Some(" 1:05"));
    state.time_remaining = true;
    assert_eq!(time(&state, &playing).as_deref(), Some("-3:19"));
    playing.duration_secs = None;
    assert_eq!(time(&state, &playing).as_deref(), Some(" 1:05"));
    playing.playing = false;
    assert_eq!(time(&state, &playing), None);
}

#[test]
fn lamps_follow_the_player() {
    let playing = playback("t", "a", 264.0);
    let on = lamps(&playing);
    assert_eq!(on.status, Lamp::Playing);
    assert!(on.stereo && on.play_in && !on.pause_in && !on.stop_in);
    let paused =
        PlaybackState { playing: false, position_secs: double(3.0), ..playing.clone() };
    let on = lamps(&paused);
    assert_eq!(on.status, Lamp::Paused);
    assert!(on.stereo && !on.play_in && on.pause_in && !on.stop_in);
    let halted = PlaybackState { playing: false, ..playing.clone() };
    let on = lamps(&halted);
    assert_eq!(on.status, Lamp::Stopped);
    assert!(!on.stereo && on.stop_in && !on.pause_in);
    assert_eq!(lamps(&PlaybackState::default()).status, Lamp::Stopped);
    assert_eq!(rate_text(&playing).as_deref(), Some(" 44"));
    assert!(rate_text(&halted).is_none());
    assert!(seek_thumb(&playing));
    assert!(!seek_thumb(&halted));
    assert!(!seek_thumb(&playback("t", "a", 0.0)));
}

fn commands(calls: Vec<HostCall>) -> Vec<String> {
    calls.iter().map(|call| format!("{call:?}")).collect()
}

#[test]
fn the_transport_does_what_winamps_did() {
    let playing = playback("t", "a", 264.0);
    let paused = PlaybackState { playing: false, ..playing.clone() };
    let empty = PlaybackState::default();
    let start_over = format!("{:?}", HostCall::Command(PlayerCommand::SeekRatio(double(0.0))));
    let flip = format!("{:?}", HostCall::Command(PlayerCommand::PlayPause));
    assert_eq!(commands(press(TransportButton::Play, &playing)), vec![start_over.clone()]);
    assert_eq!(commands(press(TransportButton::Play, &paused)), vec![flip.clone()]);
    assert_eq!(commands(press(TransportButton::Pause, &playing)), vec![flip.clone()]);
    assert!(press(TransportButton::Pause, &empty).is_empty());
    assert_eq!(
        commands(press(TransportButton::Stop, &playing)),
        vec![flip.clone(), start_over.clone()]
    );
    assert_eq!(commands(press(TransportButton::Stop, &paused)), vec![start_over]);
    assert!(press(TransportButton::Stop, &empty).is_empty());
    assert_eq!(commands(press(TransportButton::Previous, &empty)), vec!["Command(Prev)"]);
    assert_eq!(commands(press(TransportButton::Next, &empty)), vec!["Command(Next)"]);
    assert_eq!(commands(press(TransportButton::Eject, &empty)), vec!["LeaveMiniPlayer"]);
}

#[test]
fn window_events_flip_their_switches() {
    let mut state = WinampState::default();
    assert!(state.handle(WindowEvent::RollUp).is_none());
    assert!(state.shaded);
    state.handle(WindowEvent::RollDown);
    assert!(!state.shaded);
    assert!(matches!(state.handle(WindowEvent::Leave), Some(HostCall::LeaveMiniPlayer)));
    assert!(matches!(state.handle(WindowEvent::Minimize), Some(HostCall::Minimize)));
    assert!(matches!(state.handle(WindowEvent::Drag), Some(HostCall::StartDrag)));
    let sizes: Vec<u32> = (0..4)
        .map(|_| {
            state.handle(WindowEvent::Size);
            state.scale
        })
        .collect();
    assert_eq!(sizes, vec![3, 4, 2, 3]);
    state.handle(WindowEvent::Visualiser);
    assert_eq!(state.vis_mode, VisMode::Off);
    assert!(!state.vis_moving(true));
    state.handle(WindowEvent::Visualiser);
    assert!(state.vis_moving(true));
    assert!(!state.vis_moving(false));
    state.handle(WindowEvent::Time);
    state.handle(WindowEvent::Shuffle);
    state.handle(WindowEvent::Repeat);
    assert!(state.time_remaining && state.shuffle && state.repeat);
    assert!(matches!(state.handle(WindowEvent::Equalizer), Some(HostCall::ToggleEqWindow)));
    state.handle(WindowEvent::EqualizerRollUp);
    assert!(state.eq_open && state.eq_shaded);
    state.handle(WindowEvent::EqualizerRollDown);
    assert!(matches!(state.handle(WindowEvent::EqualizerClose), Some(HostCall::ToggleEqWindow)));
    assert!(!state.eq_open && !state.eq_shaded);
    assert!(matches!(state.handle(WindowEvent::Playlist), Some(HostCall::TogglePlaylistWindow)));
    state.handle(WindowEvent::PlaylistRollUp);
    assert!(state.playlist_open && state.playlist_shaded);
    state.handle(WindowEvent::PlaylistRollDown);
    state.handle(WindowEvent::PlaylistClose);
    assert!(!state.playlist_open && !state.playlist_shaded);
}

#[test]
fn a_slider_reports_its_drag_and_then_its_value() {
    let mut held = None;
    let input = |dragged, stopped, clicked, pointer: Option<f32>| SliderInput {
        dragged,
        stopped,
        clicked,
        pointer: pointer.map(single),
    };
    assert!(matches!(slider_event(&mut held, input(false, false, false, Some(0.1))), SliderEvent::Idle));
    let event = slider_event(&mut held, input(true, false, false, Some(0.2)));
    assert!(matches!(event, SliderEvent::Dragging(v) if v == single(0.2)));
    assert_eq!(held, Some(single(0.2)));
    // Let go outside of the slider: what was held counts.
    let event = slider_event(&mut held, input(false, true, false, None));
    assert!(matches!(event, SliderEvent::Committed(v) if v == single(0.2)));
    assert_eq!(held, None);
    let event = slider_event(&mut held, input(false, false, true, Some(0.9)));
    assert!(matches!(event, SliderEvent::Committed(v) if v == single(0.9)));
}

#[test]
fn sliders_send_what_they_should() {
    let mut state = WinampState::default();
    let sent = state.volume_moved(SliderEvent::Dragging(single(0.5)));
    assert!(matches!(sent, Some(PlayerCommand::SetVolume(v)) if v == single(0.5)));
    assert_eq!(state.volume_preview, Some(single(0.5)));
    assert!(state.volume_moved(SliderEvent::Committed(single(0.6))).is_some());
    assert_eq!(state.volume_preview, None);
    state.balance_moved(SliderEvent::Dragging(single(-0.5)));
    assert_eq!(state.balance_preview, Some(single(-0.5)));
    state.balance_moved(SliderEvent::Dragging(single(0.04)));
    assert_eq!(state.balance_preview, Some(single(0.0)));
    state.balance_moved(SliderEvent::Committed(single(-0.5)));
    assert_eq!(state.balance_preview, None);
    assert!(state.seek_moved(SliderEvent::Dragging(double(0.5))).is_none());
    assert_eq!(state.seek_preview, Some(double(0.5)));
    let sent = state.seek_moved(SliderEvent::Committed(double(0.25)));
    assert!(matches!(sent, Some(PlayerCommand::SeekRatio(f)) if f == double(0.25)));
    assert_eq!(state.seek_preview, None);
    assert_eq!(scaled(0, 27), 0);
    assert_eq!(scaled(50, 27), 14);
    assert_eq!(scaled(100, 27), 27);
}

#[test]
fn frames_are_asked_for_while_something_moves() {
    assert_eq!(repaint_after(true, false), Some(33_334));
    assert_eq!(repaint_after(false, true), Some(220_000));
    assert_eq!(repaint_after(false, false), None);
    assert_eq!(bar_rows(&Bar { height: 5, peak: Some(7) }), (11, Some(9)));
    assert_eq!(bar_rows(&Bar { height: 0, peak: None }), (16, None));
}

#[test]
fn a_skins_shape_cuts_what_is_drawn() {
    let spans = vec![(0, 5), (8, 12), (20, 30)];
    assert_eq!(visible_spans(&spans, 3, 10), vec![(3, 5), (8, 12)]);
    assert_eq!(visible_spans(&spans, 12, 8), Vec::<(u32, u32)>::new());
    assert_eq!(glyph_places(9, Area::new(10, 0, 12, 6)), vec![10, 15, 20]);
    assert_eq!(glyph_places(2, Area::new(10, 0, 12, 6)), vec![10, 15]);
}

fn queue(lengths: &[Option<u64>]) -> PlaybackState {
    let mut state = playback("now", "who", 100.0);
    state.queue = lengths
        .iter()
        .enumerate()
        .map(|(i, secs)| Track {
            video_id: format!("v{i}"),
            title: format!("t{i}"),
            artist: if i == 0 { String::new() } else { "a".to_string() },
            album: None,
            duration_secs: *secs,
            thumb_url: None,
        })
        .collect();
    state.queue_index = Some(1);
    state
}

#[test]
fn the_queue_becomes_rows() {
    let state = queue(&[Some(60), None, Some(125)]);
    let list = rows(&state);
    let labels: Vec<&str> = list.iter().map(|row| row.label.as_str()).collect();
    assert_eq!(labels, vec!["1. t0", "2. a - t1", "3. a - t2"]);
    assert_eq!(list.iter().map(|row| row.current).collect::<Vec<_>>(), vec![false, true, false]);
    assert!(matches!(double_click(&list[2]), PlayerCommand::PlayAt(2)));
    assert_eq!(running_time(&list, &HashSet::from([2])), "2:05/3:05");
    assert_eq!(running_time(&list, &HashSet::new()), "0:00/3:05");
}

#[test]
fn the_list_scrolls_between_its_ends() {
    let mut state = WinampState::default();
    assert_eq!(most_scroll(10, 116), 6);
    assert_eq!(most_scroll(3, 116), 0);
    state.wheel(3, 10, 116);
    assert_eq!(state.playlist_scroll, 3);
    state.wheel(9, 10, 116);
    assert_eq!(state.playlist_scroll, 6);
    state.wheel(-100, 10, 116);
    assert_eq!(state.playlist_scroll, 0);
    state.playlist_scroll = 50;
    state.wheel(0, 10, 116);
    assert_eq!(state.playlist_scroll, 6);
}

fn selection(state: &WinampState) -> Vec<usize> {
    let mut all: Vec<usize> = state.playlist_selection.iter().copied().collect();
    all.sort();
    all
}

#[test]
fn rows_are_selected_one_by_one_or_all_at_once() {
    let mut state = WinampState::default();
    state.click_row(2, false);
    state.click_row(4, true);
    assert_eq!(selection(&state), vec![2, 4]);
    state.click_row(2, true);
    assert_eq!(selection(&state), vec![4]);
    state.click_row(1, false);
    assert_eq!(selection(&state), vec![1]);
    assert!(state.menu(MenuItem::SelectAll, 3).is_none());
    assert_eq!(selection(&state), vec![0, 1, 2]);
    state.click_row(1, true);
    state.menu(MenuItem::SelectInverse, 3);
    assert_eq!(selection(&state), vec![1]);
    state.menu(MenuItem::SelectNone, 3);
    assert!(selection(&state).is_empty());
    state.click_row(0, false);
    match state.menu(MenuItem::ClearQueue, 3) {
        Some(HostCall::Command(PlayerCommand::QueueReplace(tracks, start))) => {
            assert!(tracks.is_empty() && start.is_none());
        }
        _ => panic!("the queue is not cleared"),
    }
    assert!(selection(&state).is_empty());
    assert!(matches!(state.menu(MenuItem::Search, 3), Some(HostCall::LeaveMiniPlayer)));
    assert!(matches!(state.menu(MenuItem::SongInfo, 3), Some(HostCall::LeaveMiniPlayer)));
}

#[test]
fn the_corner_stretches_the_list_by_notches() {
    let mut state = WinampState::default();
    state.stretch(116, 2);
    assert_eq!(state.playlist_height, 174);
    state.stretch(174, -9);
    assert_eq!(state.playlist_height, 116);
    state.stretch(174, 900);
    assert_eq!(state.playlist_height, layout::PLAYLIST_MAX_HEIGHT);
    state.stretch(174, 0);
    assert_eq!(state.playlist_height, layout::PLAYLIST_MAX_HEIGHT);
}

#[test]
fn long_labels_end_in_an_ellipsis() {
    assert_eq!(fit("abcdef", true, &vec![false; 6]), "abcdef");
    assert_eq!(fit("abcdef", false, &vec![true, true, true, false, false, false]), "ab…");
    assert_eq!(fit("abcdef", false, &vec![false; 6]), "…");
}

#[test]
fn a_row_has_its_title_left_and_its_duration_right() {
    let area = list_area(174);
    let room = title_room(area.width, 20);
    assert_eq!(room, 214);
    let title = TextSize { width: 500, height: 9 };
    let duration = TextSize { width: 20, height: 7 };
    let places = row_places(area, 2, title, room, Some(duration));
    assert_eq!(places.line, Area::new(12, 46, 243, 13));
    assert_eq!(places.title, Area::new(15, 48, 214, 9));
    assert_eq!(places.duration, Some(Area::new(232, 49, 20, 7)));
    assert_eq!(title_room(10, 20), 0);
}

#[test]
fn the_frame_is_tiled_to_its_corners() {
    let tiles = frame_tiles(174);
    assert_eq!(tiles.top_left, vec![25, 50, 75]);
    assert_eq!(tiles.title, 87);
    assert_eq!(tiles.top_right, vec![187, 212, 237]);
    assert_eq!(tiles.sides, vec![20, 49, 78, 107]);
    assert_eq!(tiles.bottom, 136);
}

#[test]
fn the_rolled_up_playlist_names_the_song() {
    let mut state = playback("Karma Police", "Radiohead", 264.0);
    state.position_secs = double(65.0);
    let line = shade_line(&state).unwrap();
    assert_eq!(line.name, "1. Radiohead - Karma Police");
    assert_eq!(line.time, "1:05");
    assert_eq!(line.time_area, Area::new(225, 4, 20, 6));
    assert_eq!(line.name_area, Area::new(5, 4, 215, 6));
    assert!(shade_line(&PlaybackState::default()).is_none());
}

#[test]
fn the_equalizer_sends_clamped_settings() {
    let mut settings = EqSettings::default();
    settings.gains_db[1] = double(3.0);
    match touched(settings, EqEvent::Band(4, double(99.0))) {
        PlayerCommand::SetEq { enabled, gains_db, preamp_db } => {
            assert!(!enabled);
            assert_eq!(gains_db[4], double(12.0));
            assert_eq!(gains_db[1], double(3.0));
            assert_eq!(preamp_db, double(0.0));
        }
        _ => panic!("no settings"),
    }
    assert!(matches!(
        touched(settings, EqEvent::Power),
        PlayerCommand::SetEq { enabled: true, .. }
    ));
    match touched(settings, EqEvent::Flat) {
        PlayerCommand::SetEq { gains_db, .. } => assert_eq!(gains_db[1], double(0.0)),
        _ => panic!("no settings"),
    }
    match touched(settings, EqEvent::Preset([double(-4.5); 10])) {
        PlayerCommand::SetEq { gains_db, .. } => assert_eq!(gains_db[9], double(-4.5)),
        _ => panic!("no settings"),
    }
    match touched(settings, EqEvent::Preamp(double(-99.0))) {
        PlayerCommand::SetEq { preamp_db, .. } => assert_eq!(preamp_db, double(-12.0)),
        _ => panic!("no settings"),
    }
    assert!(is_chosen(&[double(-0.0); 10], &EqSettings::default()));
    assert!(!is_chosen(&[double(1.0); 10], &EqSettings::default()));
}

#[test]
fn the_list_shows_what_fits_from_where_it_is_scrolled() {
    assert_eq!(shown_rows(20, 0, 174), (0, 8));
    assert_eq!(shown_rows(20, 15, 174), (15, 20));
    assert_eq!(shown_rows(3, 0, 174), (0, 3));
    assert_eq!(shown_rows(3, 9, 174), (3, 3));
}
