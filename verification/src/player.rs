//! The player's state: the queue, the session that plays, and what every
//! command, packet and end of a track does to them.
//!
//! A session is one track being played. Every start and every stop takes a new
//! number, so a decoder that was started for an older one finds out at its next
//! packet that it has been superseded.

use vstd::prelude::*;

use crate::audio::EqSpec;
use crate::bits;
use crate::bits::{Double, Single};
use crate::model;
use crate::model::{clone_tracks, PlaybackState, PlayerCommand, Track};

verus! {

/// How often the full state goes out while playing, in milliseconds.
pub const STATE_PERIOD_MS: u64 = 250;

/// How long to wait between looks at a paused session, in milliseconds.
pub const PAUSE_POLL_MS: u64 = 50;

/// The single source of truth of the player.
pub struct CoreState {
    pub queue: Vec<Track>,
    pub queue_index: Option<usize>,
    /// The session that should be playing: its number and its track.
    pub current: Option<(u64, Track)>,
    pub generation: u64,
    pub paused: bool,
    pub volume: Single,
    pub eq: EqSpec,
    pub position_secs: Double,
    pub duration_secs: Option<Double>,
    pub seek: Option<Double>,
}

/// What a [`CoreState`] holds.
#[verifier::ext_equal]
pub struct CoreView {
    pub queue: Seq<Track>,
    pub queue_index: Option<usize>,
    pub current: Option<(u64, Track)>,
    pub generation: u64,
    pub paused: bool,
    pub volume: Single,
    pub eq: EqSpec,
    pub position_secs: Double,
    pub duration_secs: Option<Double>,
    pub seek: Option<Double>,
}

impl View for CoreState {
    type V = CoreView;

    open spec fn view(&self) -> CoreView {
        CoreView {
            queue: self.queue@,
            queue_index: self.queue_index,
            current: self.current,
            generation: self.generation,
            paused: self.paused,
            volume: self.volume,
            eq: self.eq,
            position_secs: self.position_secs,
            duration_secs: self.duration_secs,
            seek: self.seek,
        }
    }
}

/// The number of the session that should be playing.
pub open spec fn session_of(core: CoreView) -> Option<u64> {
    match core.current {
        Some(c) => Some(c.0),
        None => None,
    }
}

/// Whether session `generation` is the one that should be playing.
pub open spec fn is_current(core: CoreView, generation: u64) -> bool {
    session_of(core) == Some(generation)
}

/// The current session was numbered no later than the counter stands.
pub open spec fn numbered(core: CoreView) -> bool {
    core.current matches Some(c) ==> c.0 <= core.generation
}

/// Plays the queue from entry `i` in a new session.
pub open spec fn started(core: CoreView, i: usize) -> CoreView {
    let generation = (core.generation + 1) as u64;
    CoreView {
        generation,
        queue_index: Some(i),
        current: Some((generation, core.queue[i as int])),
        paused: false,
        position_secs: bits::double_zero(),
        duration_secs: None,
        seek: None,
        ..core
    }
}

/// Plays nothing.
pub open spec fn stopped(core: CoreView) -> CoreView {
    CoreView {
        generation: (core.generation + 1) as u64,
        current: None,
        paused: false,
        position_secs: bits::double_zero(),
        duration_secs: None,
        seek: None,
        ..core
    }
}

/// Plays entry `i` if there is one.
pub open spec fn started_if_there(core: CoreView, i: int) -> CoreView {
    if 0 <= i < core.queue.len() {
        started(core, i as usize)
    } else {
        core
    }
}

/// The entry after the current one; the first where there is none.
pub open spec fn next_index(core: CoreView) -> int {
    match core.queue_index {
        Some(i) => i + 1,
        None => 0,
    }
}

/// The entry before the current one; the first has itself.
pub open spec fn prev_index(core: CoreView) -> int {
    match core.queue_index {
        Some(i) if i > 0 => i - 1,
        _ => 0,
    }
}

/// What a command makes of the state.
pub open spec fn commanded(core: CoreView, cmd: PlayerCommand) -> CoreView {
    match cmd {
        PlayerCommand::PlayAt(i) => started_if_there(core, i as int),
        PlayerCommand::QueueReplace(tracks, index) => {
            let replaced = CoreView { queue: tracks@, ..core };
            match index {
                Some(i) => started_if_there(replaced, i as int),
                None => stopped(replaced),
            }
        },
        PlayerCommand::QueueAppend(tracks) => CoreView { queue: core.queue + tracks@, ..core },
        PlayerCommand::Next => if next_index(core) < core.queue.len() {
            started(core, next_index(core) as usize)
        } else {
            stopped(core)
        },
        PlayerCommand::Prev => started_if_there(core, prev_index(core)),
        PlayerCommand::PlayPause => CoreView { paused: !core.paused, ..core },
        PlayerCommand::Pause => CoreView { paused: true, ..core },
        PlayerCommand::Resume => CoreView { paused: false, ..core },
        PlayerCommand::Stop => stopped(core),
        PlayerCommand::SeekRatio(ratio) => if core.current is Some {
            CoreView {
                seek: Some(ratio.clamped(bits::double_zero(), bits::double_one())),
                ..core
            }
        } else {
            core
        },
        PlayerCommand::SetVolume(v) => CoreView {
            volume: v.clamped(bits::single_zero(), bits::single_one()),
            ..core
        },
        PlayerCommand::SetEq { enabled, gains_db, preamp_db } => CoreView {
            eq: EqSpec { enabled, gains_db, preamp_db },
            ..core
        },
    }
}

/// Whether a command starts a session, which the supervisor has to hear of.
pub open spec fn starts(core: CoreView, cmd: PlayerCommand) -> bool {
    match cmd {
        PlayerCommand::PlayAt(i) => i < core.queue.len(),
        PlayerCommand::QueueReplace(tracks, Some(i)) => i < tracks@.len(),
        PlayerCommand::Next => next_index(core) < core.queue.len(),
        PlayerCommand::Prev => prev_index(core) < core.queue.len(),
        _ => false,
    }
}

/// What the end of a session's track makes of the state: the next entry plays,
/// or nothing after the last. A superseded session changes nothing.
pub open spec fn advanced(core: CoreView, generation: u64) -> CoreView {
    if !is_current(core, generation) {
        core
    } else if core.queue_index is Some && next_index(core) < core.queue.len() {
        started(core, next_index(core) as usize)
    } else {
        stopped(core)
    }
}

/// What a session that failed makes of the state.
pub open spec fn invalidated(core: CoreView, generation: u64) -> CoreView {
    if is_current(core, generation) {
        stopped(core)
    } else {
        core
    }
}

/// A session number is never used twice: whatever a command does, the counter
/// does not go back, and a session that was not playing before has a number
/// that no earlier one had.
pub proof fn lemma_command_numbers(core: CoreView, cmd: PlayerCommand)
    requires
        numbered(core),
        core.generation < u64::MAX,
    ensures
        numbered(commanded(core, cmd)),
        commanded(core, cmd).generation >= core.generation,
        commanded(core, cmd).current != core.current ==> commanded(core, cmd).generation
            > core.generation,
        commanded(core, cmd).current != core.current && commanded(core, cmd).current is Some
            ==> session_of(commanded(core, cmd)) == Some(commanded(core, cmd).generation),
        starts(core, cmd) ==> session_of(commanded(core, cmd)) == Some(
            (core.generation + 1) as u64,
        ),
{
}

/// After a start or a stop, no earlier session is current any more.
pub proof fn lemma_superseded(core: CoreView, cmd: PlayerCommand, generation: u64)
    requires
        numbered(core),
        core.generation < u64::MAX,
        generation <= core.generation,
        commanded(core, cmd).generation > core.generation,
    ensures
        !is_current(commanded(core, cmd), generation),
{
}

/// The end and the failure of a session keep the numbering too.
pub proof fn lemma_session_end_numbers(core: CoreView, generation: u64)
    requires
        numbered(core),
        core.generation < u64::MAX,
    ensures
        numbered(advanced(core, generation)),
        numbered(invalidated(core, generation)),
        is_current(core, generation) ==> !is_current(advanced(core, generation), generation)
            && !is_current(invalidated(core, generation), generation),
        !is_current(core, generation) ==> advanced(core, generation) == core && invalidated(
            core,
            generation,
        ) == core,
{
}

/// Pressing play/pause twice changes nothing; resuming undoes a pause of what
/// was not paused.
pub proof fn lemma_pause_undone(core: CoreView)
    ensures
        commanded(commanded(core, PlayerCommand::PlayPause), PlayerCommand::PlayPause) == core,
        !core.paused ==> commanded(
            commanded(core, PlayerCommand::Pause),
            PlayerCommand::Resume,
        ) == core,
{
}

/// A paused session decodes nothing and keeps its position; resumed, it goes on
/// from there.
pub proof fn lemma_pause_freezes(core: CoreView, generation: u64)
    requires
        is_current(core, generation),
        core.seek is None,
    ensures
        ({
            let paused = commanded(core, PlayerCommand::Pause);
            let resumed = commanded(paused, PlayerCommand::Resume);
            &&& packet_action(paused, generation, false) is Wait
            &&& paused.position_secs == core.position_secs
            &&& packet_action(resumed, generation, false) is Play
            &&& resumed.position_secs == core.position_secs
            &&& resumed.current == core.current
        }),
{
}

/// A replaced queue played to its end: each end of a track moves to the next
/// entry, and after the last one nothing plays.
pub proof fn lemma_plays_through(core: CoreView, i: usize)
    requires
        i < core.queue.len(),
        core.generation + 2 <= u64::MAX,
    ensures
        ({
            let playing = started(core, i);
            let after = advanced(playing, playing.generation);
            &&& playing.current == Some((playing.generation, core.queue[i as int]))
            &&& i + 1 < core.queue.len() ==> after == started(playing, (i + 1) as usize)
            &&& i + 1 == core.queue.len() ==> after.current is None && after.queue == core.queue
        }),
{
}

/// The volume is between zero and one, or no number.
pub proof fn lemma_volume_in_range(core: CoreView, v: Single)
    ensures
        !v.nan() ==> 0 <= commanded(core, PlayerCommand::SetVolume(v)).volume.rank()
            <= bits::single_one().rank(),
{
}

/// Whether entry `i` of the queue has just begun to play: from its start, under
/// a new number, with nothing known of its length yet, and with volume and
/// equalizer as they were.
pub open spec fn begins(before: CoreView, after: CoreView, i: int) -> bool {
    &&& 0 <= i < after.queue.len()
    &&& after.queue_index == Some(i as usize)
    &&& after.current == Some(((before.generation + 1) as u64, after.queue[i]))
    &&& after.generation == before.generation + 1
    &&& !after.paused
    &&& after.position_secs.bits == 0
    &&& after.duration_secs is None
    &&& after.seek is None
    &&& after.volume == before.volume
    &&& after.eq == before.eq
}

/// Whether playing has just come to a stop: nothing is current, under a new
/// number, and the queue keeps its place.
pub open spec fn ceases(before: CoreView, after: CoreView) -> bool {
    &&& after.current is None
    &&& after.queue_index == before.queue_index
    &&& after.generation == before.generation + 1
    &&& !after.paused
    &&& after.position_secs.bits == 0
    &&& after.duration_secs is None
    &&& after.seek is None
    &&& after.volume == before.volume
    &&& after.eq == before.eq
}

/// Next plays the entry after the current one, the first where there is none;
/// after the last entry it stops. The queue stays as it is.
pub proof fn lemma_next(core: CoreView)
    requires
        core.generation < u64::MAX,
        core.queue.len() <= usize::MAX,
    ensures
        ({
            let after = commanded(core, PlayerCommand::Next);
            &&& after.queue == core.queue
            &&& core.queue_index matches Some(i) ==> (i + 1 < core.queue.len() ==> begins(
                core,
                after,
                i + 1,
            )) && (i + 1 >= core.queue.len() ==> ceases(core, after))
            &&& core.queue_index is None && core.queue.len() > 0 ==> begins(core, after, 0)
            &&& core.queue_index is None && core.queue.len() == 0 ==> ceases(core, after)
        }),
{
}

/// Prev plays the entry before the current one; the first, and no entry at all,
/// lead to the first. An empty queue stays silent.
pub proof fn lemma_prev(core: CoreView)
    requires
        core.generation < u64::MAX,
        core.queue.len() <= usize::MAX,
    ensures
        ({
            let after = commanded(core, PlayerCommand::Prev);
            &&& after.queue == core.queue
            &&& core.queue_index matches Some(i) ==> 0 < i <= core.queue.len() ==> begins(
                core,
                after,
                i - 1,
            )
            &&& (core.queue_index is None || core.queue_index == Some(0usize)) && core.queue.len()
                > 0 ==> begins(core, after, 0)
            &&& core.queue.len() == 0 ==> after == core
        }),
{
}

/// Next and then Prev come back to the entry that was playing.
pub proof fn lemma_next_then_prev(core: CoreView, i: usize)
    requires
        core.queue_index == Some(i),
        i + 1 < core.queue.len() <= usize::MAX,
        core.generation + 2 <= u64::MAX,
    ensures
        ({
            let there = commanded(core, PlayerCommand::Next);
            let back = commanded(there, PlayerCommand::Prev);
            &&& there.queue_index == Some((i + 1) as usize)
            &&& (there.current->0).1 == core.queue[i + 1]
            &&& back.queue_index == Some(i)
            &&& (back.current->0).1 == core.queue[i as int]
            &&& back.queue == core.queue
        }),
{
    lemma_next(core);
    lemma_prev(commanded(core, PlayerCommand::Next));
}

/// The state after Next has been pressed `n` times.
pub open spec fn after_nexts(core: CoreView, n: nat) -> CoreView
    decreases n,
{
    if n == 0 {
        core
    } else {
        commanded(after_nexts(core, (n - 1) as nat), PlayerCommand::Next)
    }
}

/// Pressed again and again from the first entry, Next visits every entry of the
/// queue in order.
pub proof fn lemma_next_visits_all(core: CoreView, n: nat)
    requires
        core.queue_index == Some(0usize),
        core.current matches Some(c) && c.1 == core.queue[0],
        n < core.queue.len() <= usize::MAX,
        core.generation + n < u64::MAX,
    ensures
        after_nexts(core, n).queue == core.queue,
        after_nexts(core, n).queue_index == Some(n as usize),
        after_nexts(core, n).current matches Some(c) && c.1 == core.queue[n as int],
        after_nexts(core, n).generation == core.generation + n,
    decreases n,
{
    if n > 0 {
        lemma_next_visits_all(core, (n - 1) as nat);
        lemma_next(after_nexts(core, (n - 1) as nat));
    }
}

/// An entry that is there plays when it is asked for; one that is not leaves
/// everything as it is.
pub proof fn lemma_play_at(core: CoreView, i: usize)
    requires
        core.generation < u64::MAX,
    ensures
        i < core.queue.len() ==> begins(core, commanded(core, PlayerCommand::PlayAt(i)), i as int)
            && commanded(core, PlayerCommand::PlayAt(i)).queue == core.queue,
        i >= core.queue.len() ==> commanded(core, PlayerCommand::PlayAt(i)) == core,
{
}

/// A new queue takes the place of the old one. It plays from the entry asked
/// for, if there is such an entry, and stops what was playing where none is
/// asked for.
pub proof fn lemma_queue_replaced(core: CoreView, tracks: Vec<Track>, index: Option<usize>)
    requires
        core.generation < u64::MAX,
    ensures
        ({
            let after = commanded(core, PlayerCommand::QueueReplace(tracks, index));
            &&& after.queue == tracks@
            &&& index matches Some(i) ==> i < tracks@.len() ==> begins(core, after, i as int)
            &&& index matches Some(i) ==> i >= tracks@.len() ==> after.current == core.current
                && after.queue_index == core.queue_index && after.generation == core.generation
            &&& index is None ==> ceases(core, after)
        }),
{
}

/// Appended tracks stand behind those that were there, and nothing else
/// changes: what plays goes on playing.
pub proof fn lemma_queue_appended(core: CoreView, tracks: Vec<Track>)
    ensures
        ({
            let after = commanded(core, PlayerCommand::QueueAppend(tracks));
            &&& after.queue.len() == core.queue.len() + tracks@.len()
            &&& after.queue.take(core.queue.len() as int) == core.queue
            &&& after.queue.skip(core.queue.len() as int) == tracks@
            &&& after == (CoreView { queue: after.queue, ..core })
        }),
{
    let after = commanded(core, PlayerCommand::QueueAppend(tracks));
    assert(after.queue.take(core.queue.len() as int) =~= core.queue);
    assert(after.queue.skip(core.queue.len() as int) =~= tracks@);
}

/// Stop leaves nothing playing and the queue as it is.
pub proof fn lemma_stop(core: CoreView)
    requires
        core.generation < u64::MAX,
    ensures
        ceases(core, commanded(core, PlayerCommand::Stop)),
        commanded(core, PlayerCommand::Stop).queue == core.queue,
{
}

/// Pause, Resume and PlayPause touch the pause alone.
pub proof fn lemma_pause(core: CoreView)
    ensures
        commanded(core, PlayerCommand::Pause).paused,
        !commanded(core, PlayerCommand::Resume).paused,
        commanded(core, PlayerCommand::PlayPause).paused != core.paused,
        ({
            let after = commanded(core, PlayerCommand::Pause);
            after == (CoreView { paused: after.paused, ..core })
        }),
        ({
            let after = commanded(core, PlayerCommand::Resume);
            after == (CoreView { paused: after.paused, ..core })
        }),
        ({
            let after = commanded(core, PlayerCommand::PlayPause);
            after == (CoreView { paused: after.paused, ..core })
        }),
{
}

/// A seek is what the session's decoder does next: to the fraction asked for,
/// held between the start and the end of the track. Without a session nothing
/// is sought.
pub proof fn lemma_seek(core: CoreView, ratio: Double, generation: u64)
    requires
        !ratio.nan(),
    ensures
        ({
            let after = commanded(core, PlayerCommand::SeekRatio(ratio));
            &&& core.current is None ==> after == core
            &&& is_current(core, generation) ==> packet_action(after, generation, false)
                == PacketAction::Seek(after.seek->0) && after.seek is Some
            &&& core.current is Some ==> after == (CoreView { seek: after.seek, ..core })
            &&& core.current is Some && 0 <= ratio.rank() <= bits::double_one().rank()
                ==> after.seek == Some(ratio)
            &&& core.current is Some && ratio.rank() < 0 ==> after.seek->0.rank() == 0
            &&& core.current is Some && ratio.rank() > bits::double_one().rank() ==> after.seek->0
                == bits::double_one()
        }),
{
}

/// Volume and equalizer are what the next packet is played with; they change
/// nothing else. A volume between silence and full is taken as it is, one
/// beyond becomes the nearer end.
pub proof fn lemma_sound_settings(core: CoreView, v: Single, eq: EqSpec, generation: u64)
    requires
        is_current(core, generation),
        core.seek is None,
        !core.paused,
        !v.nan(),
    ensures
        ({
            let louder = commanded(core, PlayerCommand::SetVolume(v));
            let shaped = commanded(
                core,
                PlayerCommand::SetEq {
                    enabled: eq.enabled,
                    gains_db: eq.gains_db,
                    preamp_db: eq.preamp_db,
                },
            );
            &&& packet_action(louder, generation, false) == (PacketAction::Play {
                eq: core.eq,
                volume: louder.volume,
            })
            &&& louder == (CoreView { volume: louder.volume, ..core })
            &&& 0 <= v.rank() <= bits::single_one().rank() ==> louder.volume == v
            &&& v.rank() < 0 ==> louder.volume.rank() == 0
            &&& v.rank() > bits::single_one().rank() ==> louder.volume == bits::single_one()
            &&& packet_action(shaped, generation, false) == (PacketAction::Play {
                eq,
                volume: core.volume,
            })
            &&& shaped == (CoreView { eq, ..core })
        }),
{
}

/// The supervisor hears of a command exactly when a session has begun: the one
/// that is current then, with the counter's new number.
pub proof fn lemma_starts_means_begun(core: CoreView, cmd: PlayerCommand)
    requires
        numbered(core),
        core.generation < u64::MAX,
        core.queue.len() <= usize::MAX,
    ensures
        starts(core, cmd) <==> session_of(commanded(core, cmd)) == Some(
            (core.generation + 1) as u64,
        ),
{
    lemma_command_numbers(core, cmd);
}

/// At the end of a track the next entry plays; after the last nothing does. A
/// session that failed plays nothing more, and the queue keeps its place for
/// the next command.
pub proof fn lemma_session_over(core: CoreView, generation: u64)
    requires
        is_current(core, generation),
        core.generation < u64::MAX,
        core.queue.len() <= usize::MAX,
    ensures
        advanced(core, generation).queue == core.queue,
        core.queue_index matches Some(i) ==> (i + 1 < core.queue.len() ==> begins(
            core,
            advanced(core, generation),
            i + 1,
        )) && (i + 1 >= core.queue.len() ==> ceases(core, advanced(core, generation))),
        core.queue_index is None ==> ceases(core, advanced(core, generation)),
        ceases(core, invalidated(core, generation)),
        invalidated(core, generation).queue == core.queue,
{
}

/// The state goes out with the first packet and from then on every quarter of a
/// second.
pub proof fn lemma_state_period(last: u64, now: u64)
    ensures
        state_due(None, now),
        state_due(Some(last), now) <==> now - last >= 250,
{
}

/// A packet moves the position; the length that the decoder reports counts
/// before the one that is known, and that before the one that the resolver
/// gave.
pub proof fn lemma_packet_notes(
    core: CoreView,
    position: Double,
    duration: Option<Double>,
    secs: u64,
)
    ensures
        ({
            let after = after_packet(core, position, duration, Some(secs));
            &&& after.position_secs == position
            &&& duration is Some ==> after.duration_secs == duration
            &&& duration is None && core.duration_secs is Some ==> after.duration_secs
                == core.duration_secs
            &&& duration is None && core.duration_secs is None ==> after.duration_secs == Some(
                bits::double_of(secs as nat),
            )
            &&& after == (CoreView {
                position_secs: after.position_secs,
                duration_secs: after.duration_secs,
                ..core
            })
        }),
{
}

/// A decoder stops at its next packet when the engine goes down or another
/// session has taken over; only its own session makes it seek, wait or play.
pub proof fn lemma_decoder_obeys(core: CoreView, generation: u64)
    ensures
        packet_action(core, generation, true) is Break,
        packet_action(core, generation, false) is Break <==> (core.current is None
            || (core.current->0).0 != generation),
        packet_action(core, generation, false) is Wait ==> core.paused && core.seek is None,
        packet_action(core, generation, false) is Play ==> !core.paused && core.seek is None,
{
}

impl CoreState {
    /// Nothing queued, nothing playing, silent.
    pub fn new() -> (core: Self)
        ensures
            core.queue@.len() == 0,
            core.queue_index is None,
            core.current is None,
            core.generation == 0,
            !core.paused,
            core.volume == bits::single_zero(),
            !core.eq.enabled,
            core.eq.preamp_db == bits::double_zero(),
            forall|i: int| 0 <= i < 10 ==> #[trigger] core.eq.gains_db@[i] == bits::double_zero(),
            core.position_secs == bits::double_zero(),
            core.duration_secs is None,
            core.seek is None,
            numbered(core@),
    {
        CoreState {
            queue: Vec::new(),
            queue_index: None,
            current: None,
            generation: 0,
            paused: false,
            volume: Single::zero(),
            eq: EqSpec::default(),
            position_secs: Double::zero(),
            duration_secs: None,
            seek: None,
        }
    }

    pub fn start_session(&mut self, index: usize)
        requires
            index < old(self).queue@.len(),
            old(self).generation < u64::MAX,
        ensures
            final(self)@ == started(old(self)@, index),
    {
        self.generation = self.generation + 1;
        self.queue_index = Some(index);
        self.current = Some((self.generation, self.queue[index].clone()));
        self.paused = false;
        self.position_secs = Double::zero();
        self.duration_secs = None;
        self.seek = None;
    }

    pub fn stop_current(&mut self)
        requires
            old(self).generation < u64::MAX,
        ensures
            final(self)@ == stopped(old(self)@),
    {
        self.current = None;
        self.paused = false;
        self.generation = self.generation + 1;
        self.position_secs = Double::zero();
        self.duration_secs = None;
        self.seek = None;
    }

    /// Carries out a command. The result says whether a session was started.
    pub fn handle_command(&mut self, cmd: PlayerCommand) -> (session_started: bool)
        requires
            old(self).generation < u64::MAX,
        ensures
            final(self)@ == commanded(old(self)@, cmd),
            session_started == starts(old(self)@, cmd),
    {
        let mut start: Option<usize> = None;
        match cmd {
            PlayerCommand::PlayAt(i) => {
                start = Some(i);
            },
            PlayerCommand::QueueReplace(tracks, index) => {
                self.queue = tracks;
                match index {
                    Some(i) => {
                        start = Some(i);
                    },
                    None => self.stop_current(),
                }
            },
            PlayerCommand::QueueAppend(tracks) => {
                let mut more = tracks;
                self.queue.append(&mut more);
            },
            PlayerCommand::Next => {
                let next: usize = match self.queue_index {
                    Some(i) => if i < usize::MAX {
                        i + 1
                    } else {
                        i
                    },
                    None => 0,
                };
                let len: usize = self.queue.len();
                if next < len {
                    start = Some(next);
                } else {
                    self.stop_current();
                }
            },
            PlayerCommand::Prev => {
                let prev: usize = match self.queue_index {
                    Some(i) => if i > 0 {
                        i - 1
                    } else {
                        0
                    },
                    None => 0,
                };
                start = Some(prev);
            },
            PlayerCommand::PlayPause => {
                self.paused = !self.paused;
            },
            PlayerCommand::Pause => {
                self.paused = true;
            },
            PlayerCommand::Resume => {
                self.paused = false;
            },
            PlayerCommand::Stop => self.stop_current(),
            PlayerCommand::SeekRatio(ratio) => {
                if self.current.is_some() {
                    self.seek = Some(ratio.clamp(Double::zero(), Double::one()));
                }
            },
            PlayerCommand::SetVolume(v) => {
                self.volume = v.clamp(Single::zero(), Single::one());
            },
            PlayerCommand::SetEq { enabled, gains_db, preamp_db } => {
                self.eq = EqSpec { enabled, gains_db, preamp_db };
            },
        }
        if let Some(i) = start {
            if i < self.queue.len() {
                self.start_session(i);
                return true;
            }
        }
        false
    }

    /// The engine goes away: nothing plays any more.
    pub fn stop_everything(&mut self)
        requires
            old(self).generation < u64::MAX,
        ensures
            final(self)@ == (CoreView {
                current: None,
                paused: false,
                generation: (old(self)@.generation + 1) as u64,
                seek: None,
                ..old(self)@
            }),
    {
        self.current = None;
        self.paused = false;
        self.generation = self.generation + 1;
        self.seek = None;
    }

    pub fn current_generation(&self) -> (g: Option<u64>)
        ensures
            g == session_of(self@),
    {
        match &self.current {
            Some(c) => Some(c.0),
            None => None,
        }
    }

    fn plays(&self, generation: u64) -> (yes: bool)
        ensures
            yes == is_current(self@, generation),
    {
        match &self.current {
            Some(c) => c.0 == generation,
            None => false,
        }
    }

    /// Everything a window needs to draw.
    pub fn snapshot(&self) -> (s: PlaybackState)
        ensures
            s.playing == (self.current is Some && !self.paused),
            s.track == (match self.current {
                Some(c) => Some(c.1),
                None => None,
            }),
            s.position_secs == self.position_secs,
            s.duration_secs == self.duration_secs,
            s.volume == self.volume,
            s.queue@ == self.queue@,
            s.queue_index == self.queue_index,
    {
        PlaybackState {
            playing: self.current.is_some() && !self.paused,
            track: match &self.current {
                Some(c) => Some(c.1.clone()),
                None => None,
            },
            position_secs: self.position_secs,
            duration_secs: self.duration_secs,
            volume: self.volume,
            queue: clone_tracks(&self.queue),
            queue_index: self.queue_index,
        }
    }

    /// The end of a session's track. The result is the counter to announce, or
    /// nothing where a newer session has taken over.
    pub fn advance_queue(&mut self, generation: u64) -> (announce: Option<u64>)
        requires
            old(self).generation < u64::MAX,
        ensures
            final(self)@ == advanced(old(self)@, generation),
            announce == (if is_current(old(self)@, generation) {
                Some(final(self).generation)
            } else {
                None
            }),
    {
        if !self.plays(generation) {
            return None;
        }
        let len: usize = self.queue.len();
        match self.queue_index {
            Some(i) => {
                if i < usize::MAX && i + 1 < len {
                    self.start_session(i + 1);
                } else {
                    self.stop_current();
                }
            },
            None => self.stop_current(),
        }
        Some(self.generation)
    }

    /// A session failed: it is cleared, if it is still current. The result is
    /// the counter to announce.
    pub fn invalidate_session(&mut self, generation: u64) -> (announce: u64)
        requires
            old(self).generation < u64::MAX,
        ensures
            final(self)@ == invalidated(old(self)@, generation),
            announce == final(self).generation,
    {
        if self.plays(generation) {
            self.stop_current();
        }
        self.generation
    }

    /// Notes the length that the resolver gave for a session's track, until the
    /// decoder reports its own.
    pub fn seed_duration(&mut self, generation: u64, hint: Option<u64>)
        ensures
            final(self)@ == (if hint is Some && is_current(old(self)@, generation) && old(
                self,
            ).duration_secs is None {
                CoreView { duration_secs: hinted(hint), ..old(self)@ }
            } else {
                old(self)@
            }),
    {
        if let Some(secs) = hint {
            if self.plays(generation) && self.duration_secs.is_none() {
                self.duration_secs = Some(Double::from_whole(secs));
            }
        }
    }
}

/// What a decoder does before its next packet.
#[derive(Clone, Copy, Debug)]
pub enum PacketAction {
    /// The session is over.
    Break,
    /// Seek to this fraction of the track.
    Seek(Double),
    /// Decode with these settings, at this volume.
    Play { eq: EqSpec, volume: Single },
    /// Wait a moment and look again.
    Wait { eq: EqSpec },
}

/// A session as the decoder runs it.
pub struct Session {
    pub generation: u64,
    pub duration_hint: Option<u64>,
    /// When the state last went out, in milliseconds.
    pub last_state: Option<u64>,
    pub sink_paused: bool,
}

/// A length in whole seconds as the state keeps it.
pub open spec fn hinted(hint: Option<u64>) -> Option<Double> {
    match hint {
        Some(secs) => Some(bits::double_of(secs as nat)),
        None => None,
    }
}

/// What to do before the next packet.
pub open spec fn packet_action(core: CoreView, generation: u64, shutdown: bool) -> PacketAction {
    if shutdown || !is_current(core, generation) {
        PacketAction::Break
    } else if core.seek is Some {
        PacketAction::Seek(core.seek->0)
    } else if core.paused {
        PacketAction::Wait { eq: core.eq }
    } else {
        PacketAction::Play { eq: core.eq, volume: core.volume }
    }
}

/// Whether the full state is due: never sent, or sent a period ago.
pub open spec fn state_due(last: Option<u64>, now: u64) -> bool {
    match last {
        Some(at) => now >= at + STATE_PERIOD_MS,
        None => true,
    }
}

/// The state after a packet of the session.
pub open spec fn after_packet(
    core: CoreView,
    position: Double,
    duration: Option<Double>,
    hint: Option<u64>,
) -> CoreView {
    CoreView {
        position_secs: position,
        duration_secs: if duration is Some {
            duration
        } else if core.duration_secs is Some {
            core.duration_secs
        } else {
            hinted(hint)
        },
        ..core
    }
}

impl Session {
    pub fn new(generation: u64, duration_hint: Option<u64>) -> (s: Self)
        ensures
            s.generation == generation,
            s.duration_hint == duration_hint,
            s.last_state is None,
            !s.sink_paused,
    {
        Session { generation, duration_hint, last_state: None, sink_paused: false }
    }

    /// The control point before a packet. A pending seek is taken out of the
    /// state. The second result says whether the sink is to be paused or to
    /// play on, where that changes.
    pub fn pre_packet(&mut self, core: &mut CoreState, shutdown: bool) -> (r: (
        PacketAction,
        Option<bool>,
    ))
        ensures
            r.0 == packet_action(old(core)@, old(self).generation, shutdown),
            final(core)@ == (if r.0 is Seek {
                CoreView { seek: None, ..old(core)@ }
            } else {
                old(core)@
            }),
            r.1 == (if (r.0 is Play || r.0 is Wait) && old(core).paused != old(self).sink_paused {
                Some(old(core).paused)
            } else {
                None
            }),
            final(self).sink_paused == (if r.0 is Play || r.0 is Wait {
                old(core).paused
            } else {
                old(self).sink_paused
            }),
            final(self).generation == old(self).generation,
            final(self).duration_hint == old(self).duration_hint,
            final(self).last_state == old(self).last_state,
    {
        if shutdown || !core.plays(self.generation) {
            return (PacketAction::Break, None);
        }
        if let Some(ratio) = core.seek {
            core.seek = None;
            return (PacketAction::Seek(ratio), None);
        }
        let paused = core.paused;
        let change = if paused != self.sink_paused {
            Some(paused)
        } else {
            None
        };
        self.sink_paused = paused;
        if paused {
            (PacketAction::Wait { eq: core.eq }, change)
        } else {
            (PacketAction::Play { eq: core.eq, volume: core.volume }, change)
        }
    }

    /// After a packet: where the track stands, and the state if it is due. A
    /// superseded session says nothing and changes nothing.
    pub fn post_packet(
        &mut self,
        core: &mut CoreState,
        now: u64,
        position: Double,
        duration: Option<Double>,
    ) -> (state: Option<PlaybackState>)
        ensures
            final(self).generation == old(self).generation,
            final(self).duration_hint == old(self).duration_hint,
            final(self).sink_paused == old(self).sink_paused,
            final(self).last_state == (if state_due(old(self).last_state, now) {
                Some(now)
            } else {
                old(self).last_state
            }),
            ({
                let sends = state_due(old(self).last_state, now) && is_current(
                    old(core)@,
                    old(self).generation,
                );
                &&& state is Some <==> sends
                &&& final(core)@ == (if sends {
                    after_packet(old(core)@, position, duration, old(self).duration_hint)
                } else {
                    old(core)@
                })
            }),
            state matches Some(s) ==> {
                &&& s.position_secs == position
                &&& s.duration_secs == final(core).duration_secs
                &&& s.playing == !old(core).paused
                &&& s.queue@ == old(core).queue@
                &&& s.queue_index == old(core).queue_index
                &&& s.volume == old(core).volume
                &&& s.track == Some((old(core).current->0).1)
            },
    {
        if let Some(at) = self.last_state {
            if now < at || now - at < STATE_PERIOD_MS {
                return None;
            }
        }
        self.last_state = Some(now);
        if !core.plays(self.generation) {
            return None;
        }
        core.position_secs = position;
        if duration.is_some() {
            core.duration_secs = duration;
        } else if core.duration_secs.is_none() {
            core.duration_secs = match self.duration_hint {
                Some(secs) => Some(Double::from_whole(secs)),
                None => None,
            };
        }
        Some(core.snapshot())
    }

    /// The end of the input: the last position stays in the state.
    pub fn on_end(&self, core: &mut CoreState, position: Double)
        ensures
            final(core)@ == (if is_current(old(core)@, self.generation) {
                CoreView { position_secs: position, ..old(core)@ }
            } else {
                old(core)@
            }),
    {
        if core.plays(self.generation) {
            core.position_secs = position;
        }
    }
}

/// How a session's decoder came to an end.
pub enum SessionEnd {
    /// There was no stream to open.
    OpenFailed(String),
    /// The track was played out.
    Ended,
    /// It was stopped or superseded.
    Broken,
    /// Playing failed.
    Failed(String),
}

/// What the end of a session makes of the state.
pub open spec fn after_session(core: CoreView, generation: u64, end: SessionEnd) -> CoreView {
    match end {
        SessionEnd::Ended => advanced(core, generation),
        SessionEnd::Broken => core,
        SessionEnd::OpenFailed(_) => invalidated(core, generation),
        SessionEnd::Failed(_) => invalidated(core, generation),
    }
}

/// What the end of a session leads to: a message for the window, and the
/// counter for the supervisor.
pub struct SessionOutcome {
    pub error: Option<String>,
    pub announce: Option<u64>,
}

/// Takes in the end of the session that played `track`.
pub fn finish_session(
    core: &mut CoreState,
    generation: u64,
    track: &Track,
    end: SessionEnd,
) -> (outcome: SessionOutcome)
    requires
        old(core).generation < u64::MAX,
    ensures
        final(core)@ == after_session(old(core)@, generation, end),
        model::text_view(outcome.error) == (match end {
            SessionEnd::OpenFailed(e) => Some(
                "couldn't open "@ + model::display_name(track@) + ": "@ + e@,
            ),
            SessionEnd::Failed(e) => Some("playback failed: "@ + e@),
            _ => None,
        }),
        outcome.announce == (match end {
            SessionEnd::Ended => if is_current(old(core)@, generation) {
                Some(final(core).generation)
            } else {
                None
            },
            SessionEnd::Broken => None,
            _ => Some(final(core).generation),
        }),
{
    match end {
        SessionEnd::OpenFailed(e) => {
            let mut message = "couldn't open ".to_owned();
            message.append(track.display().as_str());
            message.append(": ");
            message.append(e.as_str());
            let announce = core.invalidate_session(generation);
            SessionOutcome { error: Some(message), announce: Some(announce) }
        },
        SessionEnd::Ended => {
            let announce = core.advance_queue(generation);
            SessionOutcome { error: None, announce }
        },
        SessionEnd::Broken => SessionOutcome { error: None, announce: None },
        SessionEnd::Failed(e) => {
            let mut message = "playback failed: ".to_owned();
            message.append(e.as_str());
            let announce = core.invalidate_session(generation);
            SessionOutcome { error: Some(message), announce: Some(announce) }
        },
    }
}

/// What the supervisor does on hearing that the counter stands at `latest`: it
/// starts a decoder for the session with that number, once.
pub fn supervise(spawned: &mut u64, latest: u64, core: &CoreState) -> (session: Option<(u64, Track)>)
    ensures
        *final(spawned) == (if latest > *old(spawned) {
            latest
        } else {
            *old(spawned)
        }),
        session == (if latest > *old(spawned) && is_current(core@, latest) {
            core.current
        } else {
            None
        }),
{
    if latest > *spawned {
        *spawned = latest;
        if let Some(c) = &core.current {
            if c.0 == latest {
                return Some((c.0, c.1.clone()));
            }
        }
    }
    None
}

} // verus!
