//! The plain mini player: a small window with a clock, a transport and an
//! equalizer panel.

use vstd::prelude::*;

use crate::app::standins::WinampState;
use crate::app::Skin;
use crate::bits;
use crate::bits::{Double, Single};
use crate::eq::EqSettings;
use crate::layout;
use crate::model::{PlaybackState, PlayerCommand};
use crate::ui::keys::{Key, KeyPress};
use crate::ui::main_window;
use crate::ui::main_window::can_scrub;
use crate::ui::winamp;

verus! {

/// The window's size in screen points, width and height.
pub fn desired_window_size(state: &WinampState) -> (size: (u32, u32))
    ensures
        size.0 == layout::WINDOW_WIDTH * state.scale,
        size.1 == (layout::WINDOW_HEIGHT + if state.eq_open {
            layout::MINI_EQ_HEIGHT as int
        } else {
            0
        }) * state.scale,
{
    let height: u32 = if state.eq_open {
        layout::WINDOW_HEIGHT + layout::MINI_EQ_HEIGHT
    } else {
        layout::WINDOW_HEIGHT
    };
    (layout::WINDOW_WIDTH * state.scale as u32, height * state.scale as u32)
}

/// `m:ss`.
pub fn fmt_time(secs: Double) -> (s: String)
    ensures
        s@ == winamp::clock(bits::whole_of(secs)),
{
    winamp::format_duration(secs)
}

/// The big clock: elapsed, or with a minus what is left. `left` is the length
/// less the position, never below zero; it counts where there is a length.
pub fn clock_text(state: &WinampState, playback: &PlaybackState, left: Double) -> (t: String)
    ensures
        t@ == (if !state.time_remaining {
            winamp::clock(bits::whole_of(playback.position_secs))
        } else if playback.duration_secs is Some {
            "-"@ + winamp::clock(bits::whole_of(left))
        } else {
            "-"@ + winamp::clock(bits::whole_of(playback.position_secs))
        }),
{
    if !state.time_remaining {
        return fmt_time(playback.position_secs);
    }
    let mut t = "-".to_owned();
    if playback.duration_secs.is_some() {
        t.append(fmt_time(left).as_str());
    } else {
        t.append(fmt_time(playback.position_secs).as_str());
    }
    t
}

/// The two lines under the clock: title and artist.
pub fn titles(playback: &PlaybackState) -> (lines: (String, String))
    ensures
        match playback.track {
            Some(t) => lines.0@ == t.title@ && lines.1@ == t.artist@,
            None => lines.0@ == "ytamp"@ && lines.1@ == "nothing playing"@,
        },
{
    match &playback.track {
        Some(t) => (t.title.clone(), t.artist.clone()),
        None => ("ytamp".to_owned(), "nothing playing".to_owned()),
    }
}

/// What the drag strip says.
pub fn strip_label(skin: &Skin) -> (t: String)
    ensures
        t@ == "⚡ "@ + skin.name@,
{
    let mut t = "⚡ ".to_owned();
    t.append(skin.name.as_str());
    t
}

/// What was touched in the mini player.
#[derive(Clone, Copy, Debug)]
pub enum MiniEvent {
    Previous,
    PlayPause,
    Stop,
    Next,
    /// The equalizer's button.
    Equalizer,
    /// The cross, and eject.
    Exit,
    /// The clock.
    Clock,
    Volume(Single),
    /// The position bar, as a fraction.
    Seek(Double),
    EqPower(bool),
    EqPreamp(Double),
    EqBand(usize, Double),
}

/// The command that hands the working copy of the equalizer to the player.
pub open spec fn eq_command(eq: EqSettings) -> PlayerCommand {
    PlayerCommand::SetEq {
        enabled: eq.enabled,
        gains_db: eq.gains_db,
        preamp_db: eq.preamp_db,
    }
}

impl WinampState {
    /// Something in the mini player was touched. The result goes to the player.
    pub fn touch(&mut self, playback: &PlaybackState, event: MiniEvent) -> (cmd: Option<
        PlayerCommand,
    >)
        requires
            event matches MiniEvent::EqBand(band, _) ==> band < 10,
        ensures
            match event {
                MiniEvent::Previous => cmd == Some(PlayerCommand::Prev) && *final(self) == *old(
                    self,
                ),
                MiniEvent::PlayPause => cmd == Some(PlayerCommand::PlayPause) && *final(self)
                    == *old(self),
                MiniEvent::Stop => cmd == Some(PlayerCommand::Stop) && *final(self) == *old(self),
                MiniEvent::Next => cmd == Some(PlayerCommand::Next) && *final(self) == *old(self),
                MiniEvent::Equalizer => cmd is None && *final(self) == (WinampState {
                    wants_eq: true,
                    ..*old(self)
                }),
                MiniEvent::Exit => cmd is None && *final(self) == (WinampState {
                    wants_exit: true,
                    ..*old(self)
                }),
                MiniEvent::Clock => cmd is None && *final(self) == (WinampState {
                    time_remaining: !old(self).time_remaining,
                    ..*old(self)
                }),
                MiniEvent::Volume(v) => cmd == Some(PlayerCommand::SetVolume(v)) && *final(self)
                    == *old(self),
                MiniEvent::Seek(f) => cmd == (if main_window::scrubbable(playback.duration_secs) {
                    Some(PlayerCommand::SeekRatio(f))
                } else {
                    None
                }) && *final(self) == *old(self),
                MiniEvent::EqPower(enabled) => cmd == Some(eq_command(final(self).eq_scratch))
                    && *final(self) == (WinampState {
                    eq_scratch: EqSettings { enabled, ..old(self).eq_scratch },
                    ..*old(self)
                }),
                MiniEvent::EqPreamp(preamp_db) => cmd == Some(eq_command(final(self).eq_scratch))
                    && *final(self) == (WinampState {
                    eq_scratch: EqSettings { preamp_db, ..old(self).eq_scratch },
                    ..*old(self)
                }),
                MiniEvent::EqBand(band, gain) => {
                    &&& cmd == Some(eq_command(final(self).eq_scratch))
                    &&& final(self).eq_scratch.gains_db@ == old(
                        self,
                    ).eq_scratch.gains_db@.update(band as int, gain)
                    &&& *final(self) == (WinampState {
                        eq_scratch: EqSettings {
                            gains_db: final(self).eq_scratch.gains_db,
                            ..old(self).eq_scratch
                        },
                        ..*old(self)
                    })
                },
            },
    {
        match event {
            MiniEvent::Previous => Some(PlayerCommand::Prev),
            MiniEvent::PlayPause => Some(PlayerCommand::PlayPause),
            MiniEvent::Stop => Some(PlayerCommand::Stop),
            MiniEvent::Next => Some(PlayerCommand::Next),
            MiniEvent::Equalizer => {
                self.wants_eq = true;
                None
            },
            MiniEvent::Exit => {
                self.wants_exit = true;
                None
            },
            MiniEvent::Clock => {
                self.time_remaining = !self.time_remaining;
                None
            },
            MiniEvent::Volume(v) => Some(PlayerCommand::SetVolume(v)),
            MiniEvent::Seek(f) => if can_scrub(playback) {
                Some(PlayerCommand::SeekRatio(f))
            } else {
                None
            },
            MiniEvent::EqPower(enabled) => {
                self.eq_scratch.enabled = enabled;
                Some(self.eq_scratch.command())
            },
            MiniEvent::EqPreamp(preamp_db) => {
                self.eq_scratch.preamp_db = preamp_db;
                Some(self.eq_scratch.command())
            },
            MiniEvent::EqBand(band, gain) => {
                let mut gains_db = self.eq_scratch.gains_db;
                gains_db[band] = gain;
                self.eq_scratch.gains_db = gains_db;
                Some(self.eq_scratch.command())
            },
        }
    }

    /// The keys of one frame: the last plain one decides what is sent, and the
    /// clock flips where its letter was among them.
    pub fn handle_keys(&mut self, presses: &Vec<KeyPress>) -> (cmd: Option<PlayerCommand>)
        ensures
            cmd == last_command(presses@),
            *final(self) == (WinampState {
                time_remaining: old(self).time_remaining != flips_clock(presses@),
                ..*old(self)
            }),
    {
        let mut cmd: Option<PlayerCommand> = None;
        let mut flip = false;
        let mut i: usize = 0;
        assert(presses@.take(0) =~= Seq::empty());
        while i < presses.len()
            invariant
                i <= presses@.len(),
                cmd == last_command(presses@.take(i as int)),
                flip == flips_clock(presses@.take(i as int)),
                *self == *old(self),
            decreases presses@.len() - i,
        {
            assert(presses@.take(i + 1).drop_last() =~= presses@.take(i as int));
            let p = presses[i];
            if p.plain {
                cmd = command_for(p.key);
                if p.key == Key::L {
                    flip = true;
                }
            }
            i += 1;
        }
        assert(presses@.take(presses@.len() as int) =~= presses@);
        if flip {
            self.time_remaining = !self.time_remaining;
        }
        cmd
    }
}

/// What a plain key sends.
pub open spec fn key_command(key: Key) -> Option<PlayerCommand> {
    match key {
        Key::Space | Key::Enter => Some(PlayerCommand::PlayPause),
        Key::Z => Some(PlayerCommand::Prev),
        Key::X => Some(PlayerCommand::Resume),
        Key::C => Some(PlayerCommand::Pause),
        Key::V => Some(PlayerCommand::Stop),
        Key::B => Some(PlayerCommand::Next),
        _ => None,
    }
}

/// What the last plain key sends.
pub open spec fn last_command(presses: Seq<KeyPress>) -> Option<PlayerCommand>
    decreases presses.len(),
{
    if presses.len() == 0 {
        None
    } else if presses.last().plain {
        key_command(presses.last().key)
    } else {
        last_command(presses.drop_last())
    }
}

/// Whether the clock's letter was pressed alone.
pub open spec fn flips_clock(presses: Seq<KeyPress>) -> bool
    decreases presses.len(),
{
    presses.len() > 0 && ((presses.last().plain && presses.last().key == Key::L) || flips_clock(
        presses.drop_last(),
    ))
}

/// The keys of the mini player: Z back, X play, C pause, V stop, B on, space and
/// Enter pause and resume; no other key sends anything.
pub proof fn lemma_keys(key: Key)
    ensures
        key_command(key) matches Some(PlayerCommand::Prev) <==> key == Key::Z,
        key_command(key) matches Some(PlayerCommand::Resume) <==> key == Key::X,
        key_command(key) matches Some(PlayerCommand::Pause) <==> key == Key::C,
        key_command(key) matches Some(PlayerCommand::Stop) <==> key == Key::V,
        key_command(key) matches Some(PlayerCommand::Next) <==> key == Key::B,
        key_command(key) matches Some(PlayerCommand::PlayPause) <==> key == Key::Space || key
            == Key::Enter,
        key == Key::L || key == Key::M || key == Key::F || key == Key::Q || key == Key::Other
            || key == Key::ArrowUp || key == Key::ArrowDown ==> key_command(key) is None,
{
}

/// Of the keys of a frame the last one that was pressed alone counts; keys with
/// a modifier count for nothing.
pub proof fn lemma_last_key(presses: Seq<KeyPress>, p: KeyPress)
    ensures
        p.plain ==> last_command(presses.push(p)) == key_command(p.key),
        !p.plain ==> last_command(presses.push(p)) == last_command(presses),
        last_command(Seq::empty()) is None,
        flips_clock(presses.push(p)) <==> flips_clock(presses) || (p.plain && p.key == Key::L),
        !flips_clock(Seq::empty()),
{
    assert(presses.push(p).drop_last() =~= presses);
}

fn command_for(key: Key) -> (cmd: Option<PlayerCommand>)
    ensures
        cmd == key_command(key),
{
    match key {
        Key::Space | Key::Enter => Some(PlayerCommand::PlayPause),
        Key::Z => Some(PlayerCommand::Prev),
        Key::X => Some(PlayerCommand::Resume),
        Key::C => Some(PlayerCommand::Pause),
        Key::V => Some(PlayerCommand::Stop),
        Key::B => Some(PlayerCommand::Next),
        _ => None,
    }
}

} // verus!
