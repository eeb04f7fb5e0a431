//! The skinned windows: what their lamps, digits and texts say, and what their
//! buttons and sliders do.

use vstd::prelude::*;

use crate::bits;
use crate::bits::{Double, Single};
use crate::layout;
use crate::layout::Area;
use crate::model;
use crate::model::{PlaybackState, PlayerCommand};
use crate::player;
use crate::player::CoreView;
use crate::text;
use crate::vis;
use crate::vis::{Bar, VisMode};
use crate::winamp;
use crate::winamp::{WinampState, MAX_SCALE};
use crate::yt::search;

pub mod equalizer;
pub mod playlist;

verus! {

/// How long to wait for the next frame while the visualiser moves, in
/// microseconds: two frames, as the display's pacing takes one off.
pub const VIS_REPAINT_US: u64 = 33_334;

/// How long to wait otherwise while there is a track.
pub const TRACK_REPAINT_US: u64 = 220_000;

/// What a slider reports while the pointer is on it.
#[derive(Clone, Copy, Debug)]
pub enum SliderEvent<T> {
    Idle,
    /// The thumb is dragged; the value is where it is now.
    Dragging(T),
    /// The drag ended, or the track was clicked; the value is what stays.
    Committed(T),
}

/// What the pointer did on a slider in one frame.
#[derive(Clone, Copy, Debug)]
pub struct SliderInput {
    /// A drag started or goes on.
    pub dragged: bool,
    pub stopped: bool,
    pub clicked: bool,
    /// Where the pointer is along the slider, if it is anywhere.
    pub pointer: Option<Single>,
}

/// What a slider reports. `held` is where it was last dragged to: kept between
/// frames, and dropped when the drag ends.
pub fn slider_event(held: &mut Option<Single>, input: SliderInput) -> (event: SliderEvent<Single>)
    ensures
        event == (if input.stopped {
            if *old(held) is Some {
                SliderEvent::Committed((*old(held))->0)
            } else if input.pointer is Some {
                SliderEvent::Committed(input.pointer->0)
            } else {
                SliderEvent::Idle
            }
        } else if input.pointer is None {
            SliderEvent::Idle
        } else if input.clicked {
            SliderEvent::Committed(input.pointer->0)
        } else if input.dragged {
            SliderEvent::Dragging(input.pointer->0)
        } else {
            SliderEvent::Idle
        }),
        *final(held) == (if input.stopped {
            None
        } else if input.dragged && input.pointer is Some {
            input.pointer
        } else {
            *old(held)
        }),
{
    let before = *held;
    let mut event = SliderEvent::Idle;
    if input.dragged {
        if let Some(value) = input.pointer {
            *held = Some(value);
            event = SliderEvent::Dragging(value);
        }
    }
    if input.stopped {
        match before {
            Some(value) => {
                event = SliderEvent::Committed(value);
            },
            None => {
                if let Some(value) = input.pointer {
                    event = SliderEvent::Committed(value);
                }
            },
        }
        *held = None;
    } else if input.clicked {
        if let Some(value) = input.pointer {
            event = SliderEvent::Committed(value);
        }
    }
    event
}

/// What a window asks of the program around it.
#[derive(Clone, Debug)]
pub enum HostCall {
    Command(PlayerCommand),
    /// Back to the main window.
    LeaveMiniPlayer,
    ToggleEqWindow,
    TogglePlaylistWindow,
    Minimize,
    /// The window is dragged by its title.
    StartDrag,
}

/// The buttons that every transport has.
#[derive(Clone, Copy, Debug, PartialEq, Eq, Structural)]
pub enum TransportButton {
    Previous,
    Play,
    Pause,
    Stop,
    Next,
    Eject,
}

/// What a transport button asks for. Play on a playing song starts it over;
/// stop pauses where needed and goes to the start.
pub open spec fn transport_calls(button: TransportButton, playing: bool, has_track: bool) -> Seq<
    HostCall,
> {
    let start_over = HostCall::Command(PlayerCommand::SeekRatio(bits::double_zero()));
    let flip = HostCall::Command(PlayerCommand::PlayPause);
    match button {
        TransportButton::Previous => seq![HostCall::Command(PlayerCommand::Prev)],
        TransportButton::Play => if playing {
            seq![start_over]
        } else {
            seq![flip]
        },
        TransportButton::Pause => if has_track {
            seq![flip]
        } else {
            seq![]
        },
        TransportButton::Stop => if !has_track {
            seq![]
        } else if playing {
            seq![flip, start_over]
        } else {
            seq![start_over]
        },
        TransportButton::Next => seq![HostCall::Command(PlayerCommand::Next)],
        TransportButton::Eject => seq![HostCall::LeaveMiniPlayer],
    }
}

/// The player's state after the calls of a button have reached it.
pub open spec fn after_calls(core: CoreView, calls: Seq<HostCall>) -> CoreView
    decreases calls.len(),
{
    if calls.len() == 0 {
        core
    } else {
        let before = after_calls(core, calls.drop_last());
        match calls.last() {
            HostCall::Command(cmd) => player::commanded(before, cmd),
            _ => before,
        }
    }
}

/// What the buttons do to the player. Play starts what is paused and takes what
/// plays back to its start; Pause flips between the two; Stop leaves the track
/// loaded, paused, and on its way to its start; Previous and Next are the
/// player's own; and without a track Pause and Stop do nothing.
pub proof fn lemma_buttons(core: CoreView)
    ensures
        ({
            let loaded = core.current is Some;
            let playing = loaded && !core.paused;
            let play = after_calls(core, transport_calls(TransportButton::Play, playing, loaded));
            let pause = after_calls(core, transport_calls(TransportButton::Pause, playing, loaded));
            let stop = after_calls(core, transport_calls(TransportButton::Stop, playing, loaded));
            let next = after_calls(core, transport_calls(TransportButton::Next, playing, loaded));
            let prev = after_calls(
                core,
                transport_calls(TransportButton::Previous, playing, loaded),
            );
            let eject = transport_calls(TransportButton::Eject, playing, loaded);
            &&& playing ==> play == (CoreView { seek: Some(bits::double_zero()), ..core })
            &&& loaded && core.paused ==> play == (CoreView { paused: false, ..core })
            &&& loaded ==> pause == (CoreView { paused: !core.paused, ..core })
            &&& !loaded ==> pause == core && stop == core
            &&& loaded ==> stop == (CoreView {
                paused: true,
                seek: Some(bits::double_zero()),
                ..core
            })
            &&& next == player::commanded(core, PlayerCommand::Next)
            &&& prev == player::commanded(core, PlayerCommand::Prev)
            &&& eject.len() == 1 && eject[0] is LeaveMiniPlayer
        }),
{
    let loaded = core.current is Some;
    let playing = loaded && !core.paused;
    reveal_with_fuel(after_calls, 3);
    let none = Seq::<HostCall>::empty();
    let start_over = HostCall::Command(PlayerCommand::SeekRatio(bits::double_zero()));
    let flip = HostCall::Command(PlayerCommand::PlayPause);
    assert(seq![start_over].drop_last() =~= none);
    assert(seq![flip].drop_last() =~= none);
    assert(seq![flip, start_over].drop_last() =~= seq![flip]);
    assert(seq![HostCall::Command(PlayerCommand::Next)].drop_last() =~= none);
    assert(seq![HostCall::Command(PlayerCommand::Prev)].drop_last() =~= none);
}

/// What a transport button asks for.
pub fn press(button: TransportButton, playback: &PlaybackState) -> (calls: Vec<HostCall>)
    ensures
        calls@ == transport_calls(button, playback.playing, playback.track is Some),
{
    let mut calls: Vec<HostCall> = Vec::new();
    match button {
        TransportButton::Previous => calls.push(HostCall::Command(PlayerCommand::Prev)),
        TransportButton::Play => if playback.playing {
            calls.push(HostCall::Command(PlayerCommand::SeekRatio(Double::zero())));
        } else {
            calls.push(HostCall::Command(PlayerCommand::PlayPause));
        },
        TransportButton::Pause => if playback.track.is_some() {
            calls.push(HostCall::Command(PlayerCommand::PlayPause));
        },
        TransportButton::Stop => if playback.track.is_some() {
            if playback.playing {
                calls.push(HostCall::Command(PlayerCommand::PlayPause));
            }
            calls.push(HostCall::Command(PlayerCommand::SeekRatio(Double::zero())));
        },
        TransportButton::Next => calls.push(HostCall::Command(PlayerCommand::Next)),
        TransportButton::Eject => calls.push(HostCall::LeaveMiniPlayer),
    }
    assert(calls@ =~= transport_calls(button, playback.playing, playback.track is Some));
    calls
}

/// Whether the player is stopped: something loaded and waiting at its very
/// start.
pub open spec fn is_stopped(playback: PlaybackState) -> bool {
    playback.track is Some && !playback.playing && playback.position_secs.equals(
        bits::double_zero(),
    )
}

pub fn stopped(playback: &PlaybackState) -> (yes: bool)
    ensures
        yes == is_stopped(*playback),
{
    playback.track.is_some() && !playback.playing && playback.position_secs.same(Double::zero())
}

/// The lamp beside the time.
#[derive(Clone, Copy, Debug, PartialEq, Eq, Structural)]
pub enum Lamp {
    Playing,
    Paused,
    Stopped,
}

/// The lamps, and which transport buttons sit pressed in.
#[derive(Clone, Copy, Debug, PartialEq, Eq, Structural)]
pub struct Lamps {
    pub status: Lamp,
    pub stereo: bool,
    pub play_in: bool,
    pub pause_in: bool,
    pub stop_in: bool,
}

/// Which lamps are lit and which buttons sit pressed in.
pub open spec fn lamps_of(playback: PlaybackState) -> Lamps {
    let at_start = is_stopped(playback);
    let loaded = playback.track is Some;
    Lamps {
        status: if playback.playing {
            Lamp::Playing
        } else if loaded && !at_start {
            Lamp::Paused
        } else {
            Lamp::Stopped
        },
        stereo: loaded && !at_start,
        play_in: playback.playing,
        pause_in: loaded && !playback.playing && !at_start,
        stop_in: at_start,
    }
}

/// Which lamps are lit and which buttons sit pressed in.
pub fn lamps(playback: &PlaybackState) -> (l: Lamps)
    ensures
        l == lamps_of(*playback),
{
    let at_start = stopped(playback);
    let loaded = playback.track.is_some();
    Lamps {
        status: if playback.playing {
            Lamp::Playing
        } else if loaded && !at_start {
            Lamp::Paused
        } else {
            Lamp::Stopped
        },
        stereo: loaded && !at_start,
        play_in: playback.playing,
        pause_in: loaded && !playback.playing && !at_start,
        stop_in: at_start,
    }
}

/// Of play, pause and stop, at most one button sits pressed in, and one does
/// while something is loaded.
pub proof fn lemma_one_button_in(playback: PlaybackState)
    ensures
        ({
            let l = lamps_of(playback);
            &&& !(l.play_in && l.pause_in)
            &&& !(l.play_in && l.stop_in)
            &&& !(l.pause_in && l.stop_in)
            &&& playback.track is Some ==> l.play_in || l.pause_in || l.stop_in
        }),
{
}

/// The lamp says what the player does: playing while it plays, stopped with
/// nothing loaded or at the very start of what is, and paused in between; its
/// button sits pressed in.
pub proof fn lemma_lamps(playback: PlaybackState)
    ensures
        ({
            let l = lamps_of(playback);
            let at_start = playback.position_secs.equals(bits::double_zero());
            &&& playback.playing ==> l.status == Lamp::Playing && l.play_in
            &&& !playback.playing && playback.track is Some && !at_start ==> l.status
                == Lamp::Paused && l.pause_in && l.stereo
            &&& !playback.playing && playback.track is Some && at_start ==> l.status
                == Lamp::Stopped && l.stop_in && !l.stereo
            &&& !playback.playing && playback.track is None ==> l.status == Lamp::Stopped
                && !l.stop_in && !l.stereo && !l.pause_in
            &&& playback.playing ==> (l.stereo <==> playback.track is Some)
        }),
{
}

/// What the sample rate's place says.
pub fn rate_text(playback: &PlaybackState) -> (t: Option<String>)
    ensures
        model::text_view(t) == (if playback.track is Some && !is_stopped(*playback) {
            Some(" 44"@)
        } else {
            None
        }),
{
    if playback.track.is_none() || stopped(playback) {
        None
    } else {
        Some(" 44".to_owned())
    }
}

/// Seconds as minutes and two digits of seconds.
pub open spec fn clock(secs: nat) -> Seq<char> {
    text::decimal(secs / 60) + ":"@ + text::two_digits(secs % 60)
}

/// A clock reads back as the seconds it was made from, and the seconds behind
/// the colon are two digits.
pub proof fn lemma_clock_reads_back(secs: u64)
    ensures
        search::duration_of(clock(secs as nat)) == Some(secs),
        clock(secs as nat).len() >= 4,
        clock(secs as nat)[clock(secs as nat).len() - 3] == ':',
{
    let m = text::decimal((secs / 60) as nat);
    let s = text::two_digits((secs % 60) as nat);
    text::lemma_decimal_round_trip((secs / 60) as nat);
    text::lemma_decimal_digits((secs / 60) as nat);
    text::lemma_two_digits((secs % 60) as nat);
    text::lemma_decimal_round_trip(0);
    let zero = text::decimal(0);
    assert(60 * (secs / 60) + secs % 60 == secs);
    search::lemma_duration_reads(zero, m, s);
    reveal_strlit(":");
    assert(":"@ =~= seq![':']);
    assert(clock(secs as nat) == m + seq![':'] + s);
}

/// Seconds as `m:ss`; anything below zero reads as zero.
pub fn format_duration(seconds: Double) -> (s: String)
    ensures
        s@ == clock(bits::whole_of(seconds)),
{
    let secs: u64 = seconds.to_whole();
    let mut s = text::to_decimal(secs / 60);
    s.append(":");
    s.append(text::to_two_digits(secs % 60).as_str());
    s
}

/// Whether the time counts down: it was asked for and there is a length.
pub open spec fn counts_down(state: WinampState, playback: PlaybackState) -> bool {
    state.time_remaining && has_length(playback)
}

pub open spec fn has_length(playback: PlaybackState) -> bool {
    playback.duration_secs is Some && bits::double_zero().below(playback.duration_secs->0)
}

fn length_known(playback: &PlaybackState) -> (yes: bool)
    ensures
        yes == has_length(*playback),
{
    match playback.duration_secs {
        Some(d) => Double::zero().less(d),
        None => false,
    }
}

/// The four digits of the time and the minus before them.
#[derive(Clone, Copy, Debug, PartialEq, Eq)]
pub struct TimeDigits {
    pub digits: [u8; 4],
    pub minus: bool,
}

/// The digits of so many seconds: the minutes stop at 99.
pub open spec fn digits_of(secs: nat) -> Seq<u8> {
    let minutes = if secs / 60 > 99 {
        99
    } else {
        secs / 60
    };
    seq![
        (minutes / 10) as u8,
        (minutes % 10) as u8,
        (secs % 60 / 10) as u8,
        (secs % 60 % 10) as u8,
    ]
}

/// The time in digits, or nothing where the display is blank: nothing loaded,
/// stopped, or the dark half of a paused second. `elapsed` is where the song
/// is, or would be while a seek is held, `remaining` what is left from there,
/// and `half_seconds` the clock that the blinking goes by.
pub fn time_display(
    state: &WinampState,
    playback: &PlaybackState,
    elapsed: Double,
    remaining: Double,
    half_seconds: i64,
) -> (shown: Option<TimeDigits>)
    ensures
        match shown {
            Some(t) => {
                &&& playback.track is Some
                &&& !is_stopped(*playback)
                &&& (playback.playing || half_seconds <= 0 || half_seconds % 2 == 0)
                &&& t.minus == counts_down(*state, *playback)
                &&& t.digits@ == digits_of(
                    bits::whole_of(
                        if t.minus {
                            remaining
                        } else {
                            elapsed
                        },
                    ),
                )
            },
            None => playback.track is None || is_stopped(*playback) || (!playback.playing
                && half_seconds > 0 && half_seconds % 2 == 1),
        },
{
    if playback.track.is_none() || stopped(playback) {
        return None;
    }
    if !playback.playing && half_seconds > 0 && half_seconds % 2 == 1 {
        return None;
    }
    let minus = state.time_remaining && length_known(playback);
    let secs: u64 = if minus {
        remaining.to_whole()
    } else {
        elapsed.to_whole()
    };
    let whole: u64 = secs / 60;
    let minutes: u64 = if whole > 99 {
        99
    } else {
        whole
    };
    let rest: u64 = secs % 60;
    let digits: [u8; 4] = [
        (minutes / 10) as u8,
        (minutes % 10) as u8,
        (rest / 10) as u8,
        (rest % 10) as u8,
    ];
    assert(digits@ =~= digits_of(secs as nat));
    Some(TimeDigits { digits, minus })
}

/// The digits say the time: they read as minutes and seconds again.
pub proof fn lemma_digits_read_back(secs: nat)
    requires
        secs < 6000,
    ensures
        ({
            let d = digits_of(secs);
            &&& d.len() == 4
            &&& (d[0] * 10 + d[1]) * 60 + d[2] * 10 + d[3] == secs
            &&& d[0] < 10 && d[1] < 10 && d[2] < 6 && d[3] < 10
        }),
{
}

/// The time on the rolled-up bar, blank while stopped.
pub fn shade_time(
    state: &WinampState,
    playback: &PlaybackState,
    elapsed: Double,
    remaining: Double,
) -> (t: Option<String>)
    ensures
        model::text_view(t) == (if is_stopped(*playback) {
            None
        } else if counts_down(*state, *playback) {
            Some("-"@ + clock(bits::whole_of(remaining)))
        } else {
            Some(" "@ + clock(bits::whole_of(elapsed)))
        }),
{
    if stopped(playback) {
        return None;
    }
    if state.time_remaining && length_known(playback) {
        let mut t = "-".to_owned();
        t.append(format_duration(remaining).as_str());
        Some(t)
    } else {
        let mut t = " ".to_owned();
        t.append(format_duration(elapsed).as_str());
        Some(t)
    }
}

/// A seek that is held: where it would go, and how far along that is.
#[derive(Clone, Copy, Debug)]
pub struct SeekNote {
    pub to: Double,
    pub percent: u32,
}

/// What the marquee says.
pub open spec fn marquee_says(
    playback: PlaybackState,
    seek: Option<SeekNote>,
    volume_percent: Option<u32>,
    balance: Option<(Single, u32)>,
) -> Seq<char> {
    if balance is Some {
        let (b, percent) = balance->0;
        if b.below(bits::single_zero()) {
            "Balance: "@ + text::decimal(percent as nat) + "% left"@
        } else if bits::single_zero().below(b) {
            "Balance: "@ + text::decimal(percent as nat) + "% right"@
        } else {
            "Balance: center"@
        }
    } else if volume_percent is Some {
        "Volume: "@ + text::decimal(volume_percent->0 as nat) + "%"@
    } else if playback.track is None {
        "ytamp"@
    } else if seek is Some && has_length(playback) {
        "Seek to: "@ + clock(bits::whole_of(seek->0.to)) + "/"@ + clock(
            bits::whole_of(playback.duration_secs->0),
        ) + " ("@ + text::decimal(seek->0.percent as nat) + "%)"@
    } else if has_length(playback) {
        model::display_name(playback.track->0@) + " ("@ + clock(
            bits::whole_of(playback.duration_secs->0),
        ) + ")"@
    } else {
        model::display_name(playback.track->0@)
    }
}

/// What the marquee says: a slider while it moves, a seek while it is held,
/// else the song.
pub fn marquee_text(
    playback: &PlaybackState,
    seek: Option<SeekNote>,
    volume_percent: Option<u32>,
    balance: Option<(Single, u32)>,
) -> (t: String)
    ensures
        t@ == marquee_says(*playback, seek, volume_percent, balance),
{
    if let Some((b, percent)) = balance {
        let left = b.less(Single::zero());
        let right = Single::zero().less(b);
        if !left && !right {
            return "Balance: center".to_owned();
        }
        let mut t = "Balance: ".to_owned();
        t.append(text::to_decimal(percent as u64).as_str());
        t.append(
            if left {
                "% left"
            } else {
                "% right"
            },
        );
        return t;
    }
    if let Some(percent) = volume_percent {
        let mut t = "Volume: ".to_owned();
        t.append(text::to_decimal(percent as u64).as_str());
        t.append("%");
        return t;
    }
    match &playback.track {
        None => "ytamp".to_owned(),
        Some(track) => {
            let mut t = track.display();
            if let Some(duration) = playback.duration_secs {
                if Double::zero().less(duration) {
                    let length = format_duration(duration);
                    if let Some(note) = seek {
                        let mut s = "Seek to: ".to_owned();
                        s.append(format_duration(note.to).as_str());
                        s.append("/");
                        s.append(length.as_str());
                        s.append(" (");
                        s.append(text::to_decimal(note.percent as u64).as_str());
                        s.append("%)");
                        return s;
                    }
                    t.append(" (");
                    t.append(length.as_str());
                    t.append(")");
                }
            }
            t
        },
    }
}

/// Whether a length is none, or zero or less.
pub open spec fn no_length(duration: Option<Double>) -> bool {
    match duration {
        Some(d) => d.below(bits::double_zero()) || d.equals(bits::double_zero()),
        None => true,
    }
}

/// Whether the seek bar has a thumb: something is loaded, its length is not
/// zero or less, and it is not stopped.
pub fn seek_thumb(playback: &PlaybackState) -> (yes: bool)
    ensures
        yes == (playback.track is Some && !no_length(playback.duration_secs) && !is_stopped(
            *playback,
        )),
{
    let none = match playback.duration_secs {
        Some(d) => d.less(Double::zero()) || d.same(Double::zero()),
        None => true,
    };
    playback.track.is_some() && !none && !stopped(playback)
}

/// So many per cent of a span, rounded to the nearest pixel.
pub open spec fn percent_of(percent: int, span: int) -> int {
    (percent * span + 50) / 100
}

/// How far along a span so many per cent are, in whole pixels.
pub fn scaled(percent: u32, span: u32) -> (at: u32)
    requires
        percent * span + 50 <= u32::MAX,
    ensures
        at == percent_of(percent as int, span as int),
        percent <= 100 ==> at <= span,
{
    proof {
        if percent <= 100 {
            assert(percent * span <= 100 * span) by (nonlinear_arith)
                requires
                    percent <= 100,
                    span >= 0,
            ;
        }
        assert(percent * span >= 0) by (nonlinear_arith)
            requires
                percent >= 0,
                span >= 0,
        ;
    }
    (percent * span + 50) / 100
}

/// A click, double click or drag in one of the windows.
#[derive(Clone, Copy, Debug, PartialEq, Eq, Structural)]
pub enum WindowEvent {
    /// A title bar is dragged.
    Drag,
    /// The main window is rolled up to its title bar, by its button or a double
    /// click, and down again.
    RollUp,
    RollDown,
    /// The logo, the close button, the options and info letters, the about
    /// box: all lead back to the main window.
    Leave,
    Minimize,
    /// The size letter goes round the sizes.
    Size,
    /// The visualiser is clicked.
    Visualiser,
    /// The time is clicked.
    Time,
    /// The buttons of the two lower windows.
    Equalizer,
    Playlist,
    Shuffle,
    Repeat,
    EqualizerRollUp,
    EqualizerRollDown,
    EqualizerClose,
    PlaylistRollUp,
    PlaylistRollDown,
    PlaylistClose,
}

/// The next size: two, three, four and round again.
pub open spec fn next_scale(scale: u32) -> u32 {
    if scale >= MAX_SCALE || scale < 1 {
        2
    } else {
        (scale + 1) as u32
    }
}

/// What an event makes of the windows.
pub open spec fn window_after(s: WinampState, event: WindowEvent) -> WinampState {
    match event {
        WindowEvent::RollUp => WinampState { shaded: true, ..s },
        WindowEvent::RollDown => WinampState { shaded: false, ..s },
        WindowEvent::Size => WinampState {
            scale: next_scale(s.scale),
            ..s
        },
        WindowEvent::Visualiser => WinampState {
            vis_mode: match s.vis_mode {
                VisMode::Bars => VisMode::Off,
                VisMode::Off => VisMode::Bars,
            },
            ..s
        },
        WindowEvent::Time => WinampState { time_remaining: !s.time_remaining, ..s },
        WindowEvent::Equalizer => WinampState { eq_open: !s.eq_open, ..s },
        WindowEvent::Playlist => WinampState { playlist_open: !s.playlist_open, ..s },
        WindowEvent::Shuffle => WinampState { shuffle: !s.shuffle, ..s },
        WindowEvent::Repeat => WinampState { repeat: !s.repeat, ..s },
        WindowEvent::EqualizerRollUp => WinampState { eq_shaded: true, ..s },
        WindowEvent::EqualizerRollDown => WinampState { eq_shaded: false, ..s },
        WindowEvent::EqualizerClose => WinampState { eq_open: false, ..s },
        WindowEvent::PlaylistRollUp => WinampState { playlist_shaded: true, ..s },
        WindowEvent::PlaylistRollDown => WinampState { playlist_shaded: false, ..s },
        WindowEvent::PlaylistClose => WinampState { playlist_open: false, ..s },
        WindowEvent::Drag | WindowEvent::Leave | WindowEvent::Minimize => s,
    }
}

/// What an event asks of the program around the windows.
pub open spec fn window_call(event: WindowEvent) -> Option<HostCall> {
    match event {
        WindowEvent::Drag => Some(HostCall::StartDrag),
        WindowEvent::Leave => Some(HostCall::LeaveMiniPlayer),
        WindowEvent::Minimize => Some(HostCall::Minimize),
        WindowEvent::Equalizer | WindowEvent::EqualizerClose => Some(HostCall::ToggleEqWindow),
        WindowEvent::Playlist | WindowEvent::PlaylistClose => Some(
            HostCall::TogglePlaylistWindow,
        ),
        _ => None,
    }
}

/// Every switch of the windows is undone by flipping it again.
pub proof fn lemma_flip_twice(s: WinampState, event: WindowEvent)
    requires
        event is Visualiser || event is Time || event is Equalizer || event is Playlist
            || event is Shuffle || event is Repeat,
    ensures
        window_after(window_after(s, event), event) == s,
{
}

/// The size letter keeps to the sizes that there are.
pub proof fn lemma_size_in_range(s: WinampState)
    ensures
        2 <= window_after(s, WindowEvent::Size).scale <= MAX_SCALE,
{
}

/// Where the window under the main one begins.
pub open spec fn below_main(s: WinampState) -> int {
    if s.shaded {
        layout::SHADE_HEIGHT as int
    } else {
        layout::WINDOW_HEIGHT as int
    }
}

/// Where the playlist begins: under the equalizer where that is open.
pub open spec fn below_equalizer(s: WinampState) -> int {
    below_main(s) + if !s.eq_open {
        0
    } else if s.eq_shaded {
        layout::EQ_SHADE_HEIGHT as int
    } else {
        layout::EQ_HEIGHT as int
    }
}

/// The windows hang under one another without gap or overlap: the stack ends
/// where the last one does.
pub proof fn lemma_stack_adds_up(s: WinampState)
    ensures
        winamp::stack(s) == below_equalizer(s) + if !s.playlist_open {
            0
        } else if s.playlist_shaded {
            layout::PLAYLIST_SHADE_HEIGHT as int
        } else {
            winamp::clamped_height(s.playlist_height as int)
        },
        below_main(s) <= below_equalizer(s) <= winamp::stack(s),
{
}

/// Eight hundredths.
pub open spec fn snap_reach() -> Single {
    Single { bits: 0x3da3_d70a }
}

/// Eight hundredths below zero.
pub open spec fn snap_depth() -> Single {
    Single { bits: 0xbda3_d70a }
}

/// A balance, from -1 at the left to 1 at the right, that lies this close to
/// the centre is taken for it.
pub open spec fn snapped(balance: Single) -> Single {
    if snap_depth().below(balance) && balance.below(snap_reach()) {
        bits::single_zero()
    } else {
        balance
    }
}

/// What the marquee says while sliders are held and while they are not: the
/// balance before the volume, the volume before everything else, a seek before
/// the track, and the track with its length where that is known.
pub proof fn lemma_marquee_says(
    playback: PlaybackState,
    seek: Option<SeekNote>,
    volume: Option<u32>,
    b: Single,
    percent: u32,
)
    ensures
        b.below(bits::single_zero()) ==> marquee_says(playback, seek, volume, Some((b, percent)))
            == "Balance: "@ + text::decimal(percent as nat) + "% left"@,
        bits::single_zero().below(b) ==> marquee_says(playback, seek, volume, Some((b, percent)))
            == "Balance: "@ + text::decimal(percent as nat) + "% right"@,
        marquee_says(playback, seek, volume, Some((bits::single_zero(), percent)))
            == "Balance: center"@,
        marquee_says(playback, seek, Some(percent), None) == "Volume: "@ + text::decimal(
            percent as nat,
        ) + "%"@,
        playback.track is None ==> marquee_says(playback, seek, None, None) == "ytamp"@,
        playback.track matches Some(t) ==> {
            &&& playback.duration_secs is None ==> marquee_says(playback, seek, None, None)
                == model::display_name(t@)
            &&& playback.duration_secs matches Some(d) ==> bits::double_zero().below(d) ==> {
                &&& marquee_says(playback, None, None, None) == model::display_name(t@) + " ("@
                    + clock(bits::whole_of(d)) + ")"@
                &&& seek matches Some(note) ==> marquee_says(playback, seek, None, None)
                    == "Seek to: "@ + clock(bits::whole_of(note.to)) + "/"@ + clock(
                    bits::whole_of(d),
                ) + " ("@ + text::decimal(note.percent as nat) + "%)"@
            }
        },
{
}

/// A percentage of a span is the nearest whole number to it, the middle going
/// up: none of it for nothing and all of it for a hundred.
pub proof fn lemma_percent_of(percent: int, span: int)
    requires
        0 <= percent,
        0 <= span,
    ensures
        -50 <= percent * span - 100 * percent_of(percent, span) < 50,
        percent_of(0, span) == 0,
        percent_of(100, span) == span,
{
    let x = percent * span;
    assert(0 * span == 0);
    assert((100 * span + 50) / 100 == span);
    let q = (x + 50) / 100;
    assert(100 * q <= x + 50 < 100 * q + 100);
}

/// The sizes go round: one, two, three, four, and after four two again.
pub proof fn lemma_next_scale(scale: u32)
    ensures
        1 <= scale < 4 ==> next_scale(scale) == scale + 1,
        scale >= 4 ==> next_scale(scale) == 2,
        scale == 0 ==> next_scale(scale) == 2,
        next_scale(next_scale(next_scale(2))) == 2,
{
}

/// What every touch of the windows changes: one switch each, and nothing else;
/// dragging, leaving and minimising change none.
pub proof fn lemma_window_events(s: WinampState)
    ensures
        window_after(s, WindowEvent::RollUp) == (WinampState { shaded: true, ..s }),
        window_after(s, WindowEvent::RollDown) == (WinampState { shaded: false, ..s }),
        window_after(s, WindowEvent::EqualizerRollUp) == (WinampState { eq_shaded: true, ..s }),
        window_after(s, WindowEvent::EqualizerRollDown) == (WinampState { eq_shaded: false, ..s }),
        window_after(s, WindowEvent::PlaylistRollUp) == (WinampState { playlist_shaded: true, ..s }),
        window_after(s, WindowEvent::PlaylistRollDown) == (WinampState {
            playlist_shaded: false,
            ..s
        }),
        window_after(s, WindowEvent::EqualizerClose) == (WinampState { eq_open: false, ..s }),
        window_after(s, WindowEvent::PlaylistClose) == (WinampState { playlist_open: false, ..s }),
        window_after(s, WindowEvent::Equalizer) == (WinampState { eq_open: !s.eq_open, ..s }),
        window_after(s, WindowEvent::Playlist) == (WinampState {
            playlist_open: !s.playlist_open,
            ..s
        }),
        window_after(s, WindowEvent::Shuffle) == (WinampState { shuffle: !s.shuffle, ..s }),
        window_after(s, WindowEvent::Repeat) == (WinampState { repeat: !s.repeat, ..s }),
        window_after(s, WindowEvent::Time) == (WinampState {
            time_remaining: !s.time_remaining,
            ..s
        }),
        window_after(s, WindowEvent::Visualiser).vis_mode != s.vis_mode,
        window_after(s, WindowEvent::Drag) == s,
        window_after(s, WindowEvent::Leave) == s,
        window_after(s, WindowEvent::Minimize) == s,
{
}

/// Rolling a window up and down again, or down and up, leaves the stack as high
/// as it was; opening the equalizer makes it 116 pixels higher, or fourteen
/// where it is rolled up.
pub proof fn lemma_stack_follows(s: WinampState)
    ensures
        !s.shaded ==> winamp::stack(
            window_after(window_after(s, WindowEvent::RollUp), WindowEvent::RollDown),
        ) == winamp::stack(s),
        !s.shaded ==> winamp::stack(window_after(s, WindowEvent::RollUp)) == winamp::stack(s) - 102,
        !s.eq_open && !s.eq_shaded ==> winamp::stack(window_after(s, WindowEvent::Equalizer))
            == winamp::stack(s) + 116,
        !s.eq_open && s.eq_shaded ==> winamp::stack(window_after(s, WindowEvent::Equalizer))
            == winamp::stack(s) + 14,
{
}

/// What the touches of the windows ask of the program: each of these one thing,
/// and the others nothing.
pub proof fn lemma_window_calls(event: WindowEvent)
    ensures
        window_call(event) matches Some(HostCall::StartDrag) <==> event is Drag,
        window_call(event) matches Some(HostCall::LeaveMiniPlayer) <==> event is Leave,
        window_call(event) matches Some(HostCall::Minimize) <==> event is Minimize,
        window_call(event) matches Some(HostCall::ToggleEqWindow) <==> event is Equalizer
            || event is EqualizerClose,
        window_call(event) matches Some(HostCall::TogglePlaylistWindow) <==> event is Playlist
            || event is PlaylistClose,
        !(window_call(event) matches Some(HostCall::Command(_))),
{
}

/// The balance snaps to the middle within eight hundredths of it on either side
/// and stays as it is further out. The reach is the single nearest to eight
/// hundredths: its significand, of which 2^27 make one, is off by less than
/// half.
pub proof fn lemma_balance_snaps(balance: Single)
    requires
        !balance.nan(),
    ensures
        -snap_reach().rank() < balance.rank() < snap_reach().rank() ==> snapped(balance)
            == bits::single_zero(),
        balance.rank() <= -snap_reach().rank() || balance.rank() >= snap_reach().rank() ==> snapped(
            balance,
        ) == balance,
        snap_reach().bits / 0x80_0000 == 123,
        ({
            let m = 0x80_0000 + snap_reach().bits % 0x80_0000;
            -100 < 2 * (100 * m - 8 * 0x800_0000) < 100
        }),
{
}

/// There is nothing to seek along without a length, with one of zero and with
/// one below it; along any other there is.
pub proof fn lemma_no_length(d: Double)
    requires
        !d.nan(),
    ensures
        no_length(None),
        no_length(Some(d)) <==> d.rank() <= 0,
        no_length(Some(bits::double_zero())),
{
}

/// The time counts down only where it was asked for and there is a length.
pub proof fn lemma_counts_down(state: WinampState, playback: PlaybackState)
    ensures
        counts_down(state, playback) ==> state.time_remaining && playback.duration_secs is Some,
        !state.time_remaining ==> !counts_down(state, playback),
        playback.duration_secs is None ==> !counts_down(state, playback),
        playback.duration_secs matches Some(d) ==> state.time_remaining && !d.nan() ==> (
        counts_down(state, playback) <==> d.rank() > 0),
{
}

/// Stopped is what is loaded, not playing, and at its very start.
pub proof fn lemma_is_stopped(playback: PlaybackState)
    ensures
        is_stopped(playback) ==> playback.track is Some && !playback.playing
            && playback.position_secs.rank() == 0,
        playback.track is Some && !playback.playing && playback.position_secs == bits::double_zero()
            ==> is_stopped(playback),
        playback.playing ==> !is_stopped(playback),
        playback.track is None ==> !is_stopped(playback),
{
}

/// A balance, taken for the centre where it is close to it.
pub fn snap(balance: Single) -> (b: Single)
    ensures
        b == snapped(balance),
{
    let reach = Single { bits: 0x3da3_d70a };
    let depth = Single { bits: 0xbda3_d70a };
    if depth.less(balance) && balance.less(reach) {
        Single::zero()
    } else {
        balance
    }
}

impl WinampState {
    /// What an event makes of the windows' switches.
    fn switch(&mut self, event: WindowEvent)
        ensures
            *final(self) == window_after(*old(self), event),
    {
        match event {
            WindowEvent::RollUp => {
                self.shaded = true;
            },
            WindowEvent::RollDown => {
                self.shaded = false;
            },
            WindowEvent::Size => {
                self.scale = if self.scale >= MAX_SCALE || self.scale < 1 {
                    2
                } else {
                    self.scale + 1
                };
            },
            WindowEvent::Visualiser => {
                self.vis_mode = match self.vis_mode {
                    VisMode::Bars => VisMode::Off,
                    VisMode::Off => VisMode::Bars,
                };
            },
            WindowEvent::Time => {
                self.time_remaining = !self.time_remaining;
            },
            WindowEvent::Equalizer => {
                self.eq_open = !self.eq_open;
            },
            WindowEvent::Playlist => {
                self.playlist_open = !self.playlist_open;
            },
            WindowEvent::Shuffle => {
                self.shuffle = !self.shuffle;
            },
            WindowEvent::Repeat => {
                self.repeat = !self.repeat;
            },
            WindowEvent::EqualizerRollUp => {
                self.eq_shaded = true;
            },
            WindowEvent::EqualizerRollDown => {
                self.eq_shaded = false;
            },
            WindowEvent::EqualizerClose => {
                self.eq_open = false;
            },
            WindowEvent::PlaylistRollUp => {
                self.playlist_shaded = true;
            },
            WindowEvent::PlaylistRollDown => {
                self.playlist_shaded = false;
            },
            WindowEvent::PlaylistClose => {
                self.playlist_open = false;
            },
            WindowEvent::Drag | WindowEvent::Leave | WindowEvent::Minimize => {},
        }
    }

    /// A click, double click or drag in one of the windows.
    pub fn handle(&mut self, event: WindowEvent) -> (call: Option<HostCall>)
        ensures
            *final(self) == window_after(*old(self), event),
            call == window_call(event),
    {
        self.switch(event);
        match event {
            WindowEvent::Drag => Some(HostCall::StartDrag),
            WindowEvent::Leave => Some(HostCall::LeaveMiniPlayer),
            WindowEvent::Minimize => Some(HostCall::Minimize),
            WindowEvent::Equalizer | WindowEvent::EqualizerClose => Some(
                HostCall::ToggleEqWindow,
            ),
            WindowEvent::Playlist | WindowEvent::PlaylistClose => Some(
                HostCall::TogglePlaylistWindow,
            ),
            _ => None,
        }
    }

    /// The volume slider: it announces itself while it moves, and every move
    /// sets the volume.
    pub fn volume_moved(&mut self, event: SliderEvent<Single>) -> (cmd: Option<PlayerCommand>)
        ensures
            match event {
                SliderEvent::Dragging(v) => cmd == Some(PlayerCommand::SetVolume(v))
                    && *final(self) == (WinampState { volume_preview: Some(v), ..*old(self) }),
                SliderEvent::Committed(v) => cmd == Some(PlayerCommand::SetVolume(v))
                    && *final(self) == (WinampState { volume_preview: None, ..*old(self) }),
                SliderEvent::Idle => cmd is None && *final(self) == *old(self),
            },
    {
        match event {
            SliderEvent::Dragging(v) => {
                self.volume_preview = Some(v);
                Some(PlayerCommand::SetVolume(v))
            },
            SliderEvent::Committed(v) => {
                self.volume_preview = None;
                Some(PlayerCommand::SetVolume(v))
            },
            SliderEvent::Idle => None,
        }
    }

    /// The balance slider: it announces itself while it moves, snapping to the
    /// centre, and changes nothing.
    pub fn balance_moved(&mut self, event: SliderEvent<Single>)
        ensures
            *final(self) == (WinampState {
                balance_preview: match event {
                    SliderEvent::Dragging(b) => Some(snapped(b)),
                    SliderEvent::Committed(_) => None,
                    SliderEvent::Idle => old(self).balance_preview,
                },
                ..*old(self)
            }),
    {
        match event {
            SliderEvent::Dragging(b) => {
                self.balance_preview = Some(snap(b));
            },
            SliderEvent::Committed(_) => {
                self.balance_preview = None;
            },
            SliderEvent::Idle => {},
        }
    }

    /// The seek bar: it announces itself while it is held, and seeks when it is
    /// let go.
    pub fn seek_moved(&mut self, event: SliderEvent<Double>) -> (cmd: Option<PlayerCommand>)
        ensures
            match event {
                SliderEvent::Dragging(f) => cmd is None && *final(self) == (WinampState {
                    seek_preview: Some(f),
                    ..*old(self)
                }),
                SliderEvent::Committed(f) => cmd == Some(PlayerCommand::SeekRatio(f)) && *final(self) == (WinampState { seek_preview: None, ..*old(self) }),
                SliderEvent::Idle => cmd is None && *final(self) == *old(self),
            },
    {
        match event {
            SliderEvent::Dragging(f) => {
                self.seek_preview = Some(f);
                None
            },
            SliderEvent::Committed(f) => {
                self.seek_preview = None;
                Some(PlayerCommand::SeekRatio(f))
            },
            SliderEvent::Idle => None,
        }
    }

    /// Where the lower windows begin: the equalizer's top, and the playlist's.
    pub fn tops(&self) -> (tops: (u32, u32))
        ensures
            tops.0 == below_main(*self),
            tops.1 == below_equalizer(*self),
    {
        let main: u32 = if self.shaded {
            layout::SHADE_HEIGHT
        } else {
            layout::WINDOW_HEIGHT
        };
        let eq: u32 = if !self.eq_open {
            0
        } else if self.eq_shaded {
            layout::EQ_SHADE_HEIGHT
        } else {
            layout::EQ_HEIGHT
        };
        (main, main + eq)
    }

    /// Whether the visualiser wants another frame: it is on, and there is sound
    /// or its bars have not come to rest.
    pub fn vis_moving(&self, sounding: bool) -> (yes: bool)
        requires
            self.analyser.wf(),
        ensures
            yes == (self.vis_mode == VisMode::Bars && (sounding || !(forall|i: int|
                0 <= i < vis::BARS ==> vis::at_rest(#[trigger] self.analyser@.columns[i])))),
    {
        match self.vis_mode {
            VisMode::Off => false,
            VisMode::Bars => sounding || !self.analyser.settled(),
        }
    }
}

/// After how many microseconds the windows are to be drawn again.
pub fn repaint_after(vis_moving: bool, has_track: bool) -> (us: Option<u64>)
    ensures
        us == (if vis_moving {
            Some(VIS_REPAINT_US)
        } else if has_track {
            Some(TRACK_REPAINT_US)
        } else {
            None
        }),
{
    if vis_moving {
        Some(VIS_REPAINT_US)
    } else if has_track {
        Some(TRACK_REPAINT_US)
    } else {
        None
    }
}

/// The rows of a visualiser bar, counted from the top: the first lit one, and
/// the peak's.
pub fn bar_rows(bar: &Bar) -> (rows: (u8, Option<u8>))
    requires
        bar.height <= vis::ROWS,
        bar.peak matches Some(p) ==> p <= vis::ROWS,
    ensures
        rows.0 == vis::ROWS - bar.height,
        match bar.peak {
            Some(p) => rows.1 == Some((vis::ROWS - p) as u8),
            None => rows.1 is None,
        },
{
    let peak = match bar.peak {
        Some(p) => Some(vis::ROWS - p),
        None => None,
    };
    (vis::ROWS - bar.height, peak)
}

/// A stretch of pixels in a row: where it begins, and where it has ended.
pub type Span = (u32, u32);

/// What is left of the spans between `from` and `to`, without what is empty.
pub open spec fn cut_spans(spans: Seq<Span>, from: u32, to: u32) -> Seq<Span>
    decreases spans.len(),
{
    if spans.len() == 0 {
        Seq::empty()
    } else {
        let before = cut_spans(spans.drop_last(), from, to);
        let (start, end) = spans.last();
        let a = if start > from {
            start
        } else {
            from
        };
        let b = if end < to {
            end
        } else {
            to
        };
        if b > a {
            before.push((a, b))
        } else {
            before
        }
    }
}

/// Nothing of a cut lies outside it, and every pixel inside both the cut and a
/// span is kept.
pub proof fn lemma_cut_spans(spans: Seq<Span>, from: u32, to: u32, x: u32)
    ensures
        (exists|i: int|
            0 <= i < cut_spans(spans, from, to).len() && (#[trigger] cut_spans(
                spans,
                from,
                to,
            )[i]).0 <= x < cut_spans(spans, from, to)[i].1) <==> from <= x < to && (exists|i: int|
            0 <= i < spans.len() && (#[trigger] spans[i]).0 <= x < spans[i].1),
    decreases spans.len(),
{
    if spans.len() > 0 {
        let shorter = spans.drop_last();
        lemma_cut_spans(shorter, from, to, x);
        let kept = cut_spans(spans, from, to);
        let before = cut_spans(shorter, from, to);
        let last = spans.last();
        if exists|i: int| 0 <= i < before.len() && (#[trigger] before[i]).0 <= x < before[i].1 {
            let i = choose|i: int|
                0 <= i < before.len() && (#[trigger] before[i]).0 <= x < before[i].1;
            assert(kept[i] == before[i]);
            let j = choose|j: int|
                0 <= j < shorter.len() && (#[trigger] shorter[j]).0 <= x < shorter[j].1;
            assert(spans[j] == shorter[j]);
        }
        if from <= x < to && (exists|i: int|
            0 <= i < spans.len() && (#[trigger] spans[i]).0 <= x < spans[i].1) {
            let i = choose|i: int| 0 <= i < spans.len() && (#[trigger] spans[i]).0 <= x < spans[i].1;
            if i < shorter.len() {
                assert(shorter[i] == spans[i]);
            } else {
                assert(last.0 <= x < last.1);
                assert(kept[kept.len() - 1].0 <= x < kept[kept.len() - 1].1);
            }
        }
        if exists|i: int| 0 <= i < kept.len() && (#[trigger] kept[i]).0 <= x < kept[i].1 {
            let i = choose|i: int| 0 <= i < kept.len() && (#[trigger] kept[i]).0 <= x < kept[i].1;
            if i < before.len() {
                assert(before[i] == kept[i]);
            } else {
                assert(spans[spans.len() - 1].0 <= x < spans[spans.len() - 1].1);
            }
        }
    }
}

/// What a skin's shape leaves of a piece `width` wide that begins at `x`, in
/// one row.
pub fn visible_spans(spans: &Vec<Span>, x: u32, width: u32) -> (kept: Vec<Span>)
    requires
        x + width <= u32::MAX,
    ensures
        kept@ == cut_spans(spans@, x, (x + width) as u32),
{
    let to: u32 = x + width;
    let mut kept: Vec<Span> = Vec::new();
    let mut i: usize = 0;
    assert(spans@.take(0) =~= Seq::empty());
    while i < spans.len()
        invariant
            i <= spans@.len(),
            kept@ == cut_spans(spans@.take(i as int), x, to),
        decreases spans@.len() - i,
    {
        assert(spans@.take(i + 1).drop_last() =~= spans@.take(i as int));
        let (start, end) = spans[i];
        let a: u32 = if start > x {
            start
        } else {
            x
        };
        let b: u32 = if end < to {
            end
        } else {
            to
        };
        if b > a {
            kept.push((a, b));
        }
        i += 1;
    }
    assert(spans@.take(spans@.len() as int) =~= spans@);
    kept
}

/// Where the characters of a line go: one glyph after another, as far as the
/// area reaches.
pub fn glyph_places(count: usize, area: Area) -> (at: Vec<u32>)
    requires
        area.x + area.width + layout::GLYPH_WIDTH <= u32::MAX,
    ensures
        at@.len() <= count,
        at@.len() == count || area.x + layout::GLYPH_WIDTH * at@.len() >= area.x + area.width,
        forall|i: int|
            0 <= i < at@.len() ==> #[trigger] at@[i] == area.x + layout::GLYPH_WIDTH * i && at@[i]
                < area.x + area.width,
{
    let mut at: Vec<u32> = Vec::new();
    let mut x: u32 = area.x;
    while at.len() < count && x < area.x + area.width
        invariant
            at@.len() <= count,
            area.x + area.width + layout::GLYPH_WIDTH <= u32::MAX,
            x == area.x + layout::GLYPH_WIDTH * at@.len(),
            forall|i: int|
                0 <= i < at@.len() ==> #[trigger] at@[i] == area.x + layout::GLYPH_WIDTH * i
                    && at@[i] < area.x + area.width,
        decreases count - at@.len(),
    {
        at.push(x);
        x = x + layout::GLYPH_WIDTH;
    }
    at
}

} // verus!
