//! Stand-ins that let the window run on its own: canned search results and a
//! player that only simulates.

use vstd::prelude::*;

use crate::bits;
use crate::bits::{Double, Single};
use crate::eq::EqSettings;
use crate::model;
use crate::model::{clone_tracks, PlaybackState, PlayerCommand, Track};
use crate::text;

verus! {

/// The mini player's state: scale, switches, remembered window position.
#[derive(Clone, Copy, Debug)]
pub struct WinampState {
    pub scale: u8,
    pub time_remaining: bool,
    pub restore_pos: Option<(Single, Single)>,
    pub last_pos: Option<(Single, Single)>,
    /// A button asked to leave the mini player.
    pub wants_exit: bool,
    /// A button asked to flip the equalizer panel.
    pub wants_eq: bool,
    pub eq_open: bool,
    /// The equalizer sliders' working copy.
    pub eq_scratch: EqSettings,
}

impl Default for WinampState {
    fn default() -> (s: Self)
        ensures
            s.scale == 2,
            !s.time_remaining && !s.wants_exit && !s.wants_eq && !s.eq_open,
            s.restore_pos is None && s.last_pos is None,
            !s.eq_scratch.enabled,
            s.eq_scratch.preamp_db == bits::double_zero(),
            forall|i: int| 0 <= i < 10 ==> #[trigger] s.eq_scratch.gains_db@[i] == bits::double_zero(),
    {
        WinampState {
            scale: 2,
            time_remaining: false,
            restore_pos: None,
            last_pos: None,
            wants_exit: false,
            wants_eq: false,
            eq_open: false,
            eq_scratch: EqSettings::default(),
        }
    }
}

impl WinampState {
    /// Where the window last was, if it ever told us.
    pub fn remember_position(&mut self)
        ensures
            *final(self) == (WinampState {
                restore_pos: if old(self).last_pos is Some {
                    old(self).last_pos
                } else {
                    old(self).restore_pos
                },
                ..*old(self)
            }),
    {
        if self.last_pos.is_some() {
            self.restore_pos = self.last_pos;
        }
    }

    /// The window's size in screen points, width and height.
    pub fn window_size(&self) -> (size: (u32, u32))
        ensures
            size.0 == 275 * self.scale,
            size.1 == 116 * self.scale,
    {
        (275 * self.scale as u32, 116 * self.scale as u32)
    }
}

/// What a [`PlaybackState`] holds.
#[verifier::ext_equal]
pub struct PlaybackView {
    pub playing: bool,
    pub track: Option<Track>,
    pub position_secs: Double,
    pub duration_secs: Option<Double>,
    pub volume: Single,
    pub queue: Seq<Track>,
    pub queue_index: Option<usize>,
}

pub open spec fn playback_view(s: PlaybackState) -> PlaybackView {
    PlaybackView {
        playing: s.playing,
        track: s.track,
        position_secs: s.position_secs,
        duration_secs: s.duration_secs,
        volume: s.volume,
        queue: s.queue@,
        queue_index: s.queue_index,
    }
}

/// Three seconds: how far into a track going back still means the one before.
pub open spec fn three_seconds() -> Double {
    Double { bits: 0x4008_0000_0000_0000 }
}

/// Entry `i` of the queue playing from its start, if there is one.
pub open spec fn playing_from(s: PlaybackView, i: int) -> PlaybackView {
    if 0 <= i < s.queue.len() {
        PlaybackView {
            playing: true,
            track: Some(s.queue[i]),
            position_secs: bits::double_zero(),
            duration_secs: match s.queue[i].duration_secs {
                Some(secs) => Some(bits::double_of(secs as nat)),
                None => None,
            },
            queue_index: Some(i as usize),
            ..s
        }
    } else {
        s
    }
}

/// What a command makes of the simulated player. `sought` is where a seek goes.
pub open spec fn simulated(s: PlaybackView, cmd: PlayerCommand, sought: Double) -> PlaybackView {
    match cmd {
        PlayerCommand::PlayAt(i) => playing_from(s, i as int),
        PlayerCommand::QueueReplace(tracks, start) => match start {
            Some(i) => playing_from(PlaybackView { queue: tracks@, ..s }, i as int),
            None => PlaybackView {
                playing: false,
                track: None,
                position_secs: bits::double_zero(),
                duration_secs: None,
                queue: tracks@,
                queue_index: None,
                ..s
            },
        },
        PlayerCommand::QueueAppend(tracks) => PlaybackView { queue: s.queue + tracks@, ..s },
        PlayerCommand::Next => match s.queue_index {
            Some(i) if i + 1 < s.queue.len() => playing_from(s, i + 1),
            _ => PlaybackView { playing: false, ..s },
        },
        PlayerCommand::Prev => if three_seconds().below(s.position_secs) {
            PlaybackView { position_secs: bits::double_zero(), ..s }
        } else {
            match s.queue_index {
                Some(i) if i > 0 => playing_from(s, i - 1),
                _ => PlaybackView { position_secs: bits::double_zero(), ..s },
            }
        },
        PlayerCommand::PlayPause => PlaybackView {
            playing: !s.playing && s.queue_index is Some,
            ..s
        },
        PlayerCommand::Pause => PlaybackView { playing: false, ..s },
        PlayerCommand::Resume => PlaybackView { playing: s.playing || s.queue_index is Some, ..s },
        PlayerCommand::Stop => PlaybackView {
            playing: false,
            position_secs: bits::double_zero(),
            ..s
        },
        PlayerCommand::SeekRatio(_) => if s.duration_secs is Some {
            PlaybackView { position_secs: sought, ..s }
        } else {
            s
        },
        PlayerCommand::SetVolume(v) => PlaybackView {
            volume: v.clamped(bits::single_zero(), bits::single_one()),
            ..s
        },
        PlayerCommand::SetEq { .. } => s,
    }
}

/// Going forward and back again from an entry that has a next one plays it
/// again from its start.
pub proof fn lemma_next_then_prev(s: PlaybackView, i: usize, sought: Double)
    requires
        s.queue_index == Some(i),
        i + 1 < s.queue.len() <= usize::MAX,
    ensures
        ({
            let next = simulated(s, PlayerCommand::Next, sought);
            simulated(next, PlayerCommand::Prev, sought) == playing_from(s, i as int)
        }),
{
    assert(!three_seconds().below(bits::double_zero()));
}

/// Whether entry `i` of the queue plays from its start, with the length that the
/// track states.
pub open spec fn plays_entry(s: PlaybackView, i: int) -> bool {
    &&& 0 <= i < s.queue.len()
    &&& s.playing
    &&& s.track == Some(s.queue[i])
    &&& s.queue_index == Some(i as usize)
    &&& s.position_secs.bits == 0
    &&& s.queue[i].duration_secs is None ==> s.duration_secs is None
    &&& s.queue[i].duration_secs matches Some(secs) ==> s.duration_secs == Some(
        bits::double_of(secs as nat),
    )
}

/// The simulated player walks the queue as the real one does: PlayAt and
/// QueueReplace play the entry asked for, Next the one after, Prev the one
/// before within the first three seconds of a track, and after them the track
/// starts over. At the end of the queue playing stops.
pub proof fn lemma_simulated_walk(s: PlaybackView, i: usize, tracks: Vec<Track>, sought: Double)
    requires
        s.queue.len() <= usize::MAX,
    ensures
        i < s.queue.len() ==> plays_entry(simulated(s, PlayerCommand::PlayAt(i), sought), i as int),
        i >= s.queue.len() ==> simulated(s, PlayerCommand::PlayAt(i), sought) == s,
        i < tracks@.len() ==> ({
            let after = simulated(s, PlayerCommand::QueueReplace(tracks, Some(i)), sought);
            plays_entry(after, i as int) && after.queue == tracks@
        }),
        ({
            let after = simulated(s, PlayerCommand::QueueReplace(tracks, None), sought);
            &&& after.queue == tracks@
            &&& !after.playing && after.track is None && after.queue_index is None
            &&& after.volume == s.volume
        }),
        s.queue_index == Some(i) && i + 1 < s.queue.len() ==> plays_entry(
            simulated(s, PlayerCommand::Next, sought),
            i + 1,
        ),
        s.queue_index == Some(i) && i + 1 >= s.queue.len() ==> !simulated(
            s,
            PlayerCommand::Next,
            sought,
        ).playing,
        s.queue_index == Some(i) && 0 < i <= s.queue.len() && !bits::double_of(3).below(
            s.position_secs,
        ) ==> plays_entry(simulated(s, PlayerCommand::Prev, sought), i - 1),
        bits::double_of(3).below(s.position_secs) || s.queue_index is None || s.queue_index == Some(
            0usize,
        ) ==> ({
            let after = simulated(s, PlayerCommand::Prev, sought);
            after.position_secs.bits == 0 && after == (PlaybackView {
                position_secs: after.position_secs,
                ..s
            })
        }),
{
    reveal_with_fuel(bits::log_two, 3);
    vstd::arithmetic::power2::lemma2_to64_rest();
    assert(bits::significand(3) == 3 * 0x8_0000_0000_0000);
    assert(bits::double_of(3) == three_seconds());
}

/// Pausing, stopping, seeking and turning the volume of the simulated player:
/// each changes what it is named for.
pub proof fn lemma_simulated_rest(s: PlaybackView, v: Single, ratio: Double, tracks: Vec<Track>, sought: Double)
    requires
        !v.nan(),
    ensures
        ({
            let flipped = simulated(s, PlayerCommand::PlayPause, sought);
            &&& s.queue_index is Some ==> flipped.playing != s.playing
            &&& s.queue_index is None ==> !flipped.playing
            &&& flipped == (PlaybackView { playing: flipped.playing, ..s })
        }),
        simulated(s, PlayerCommand::Pause, sought) == (PlaybackView { playing: false, ..s }),
        s.queue_index is Some ==> simulated(s, PlayerCommand::Resume, sought) == (PlaybackView {
            playing: true,
            ..s
        }),
        s.queue_index is None ==> simulated(s, PlayerCommand::Resume, sought) == s,
        ({
            let after = simulated(s, PlayerCommand::Stop, sought);
            &&& !after.playing
            &&& after.position_secs.bits == 0
            &&& after.queue == s.queue && after.track == s.track && after.queue_index
                == s.queue_index
        }),
        s.duration_secs is Some ==> simulated(s, PlayerCommand::SeekRatio(ratio), sought) == (
        PlaybackView { position_secs: sought, ..s }),
        s.duration_secs is None ==> simulated(s, PlayerCommand::SeekRatio(ratio), sought) == s,
        ({
            let after = simulated(s, PlayerCommand::SetVolume(v), sought);
            &&& 0 <= v.rank() <= bits::single_one().rank() ==> after.volume == v
            &&& v.rank() < 0 ==> after.volume.rank() == 0
            &&& v.rank() > bits::single_one().rank() ==> after.volume == bits::single_one()
            &&& after == (PlaybackView { volume: after.volume, ..s })
        }),
        ({
            let after = simulated(s, PlayerCommand::QueueAppend(tracks), sought);
            &&& after.queue.take(s.queue.len() as int) == s.queue
            &&& after.queue.skip(s.queue.len() as int) == tracks@
            &&& after == (PlaybackView { queue: after.queue, ..s })
        }),
{
    let after = simulated(s, PlayerCommand::QueueAppend(tracks), sought);
    assert(after.queue.take(s.queue.len() as int) =~= s.queue);
    assert(after.queue.skip(s.queue.len() as int) =~= tracks@);
}

fn play_index(state: &mut PlaybackState, index: usize)
    ensures
        playback_view(*final(state)) == playing_from(playback_view(*old(state)), index as int),
{
    if index < state.queue.len() {
        let track = state.queue[index].clone();
        state.queue_index = Some(index);
        state.position_secs = Double::zero();
        state.duration_secs = match track.duration_secs {
            Some(secs) => Some(Double::from_whole(secs)),
            None => None,
        };
        state.track = Some(track);
        state.playing = true;
    }
}

/// Carries out a command on the simulated player. `sought` is the position that
/// a seek asks for, within the track.
pub fn apply_command(state: &mut PlaybackState, command: &PlayerCommand, sought: Double)
    ensures
        playback_view(*final(state)) == simulated(playback_view(*old(state)), *command, sought),
{
    let len: usize = state.queue.len();
    match command {
        PlayerCommand::PlayAt(i) => play_index(state, *i),
        PlayerCommand::QueueReplace(tracks, start) => {
            state.queue = clone_tracks(tracks);
            match start {
                Some(i) => play_index(state, *i),
                None => {
                    state.queue_index = None;
                    state.track = None;
                    state.playing = false;
                    state.position_secs = Double::zero();
                    state.duration_secs = None;
                },
            }
        },
        PlayerCommand::QueueAppend(tracks) => {
            let mut more = clone_tracks(tracks);
            state.queue.append(&mut more);
        },
        PlayerCommand::Next => match state.queue_index {
            Some(i) => {
                if i < len && i + 1 < len {
                    play_index(state, i + 1);
                } else {
                    state.playing = false;
                }
            },
            None => {
                state.playing = false;
            },
        },
        PlayerCommand::Prev => {
            let begun = Double { bits: 0x4008_0000_0000_0000 }.less(state.position_secs);
            match state.queue_index {
                Some(i) => {
                    if !begun && i > 0 {
                        play_index(state, i - 1);
                    } else {
                        state.position_secs = Double::zero();
                    }
                },
                None => {
                    state.position_secs = Double::zero();
                },
            }
        },
        PlayerCommand::PlayPause => {
            if state.playing {
                state.playing = false;
            } else if state.queue_index.is_some() {
                state.playing = true;
            }
        },
        PlayerCommand::Pause => {
            state.playing = false;
        },
        PlayerCommand::Resume => {
            if state.queue_index.is_some() {
                state.playing = true;
            }
        },
        PlayerCommand::Stop => {
            state.playing = false;
            state.position_secs = Double::zero();
        },
        PlayerCommand::SeekRatio(_) => {
            if state.duration_secs.is_some() {
                state.position_secs = sought;
            }
        },
        PlayerCommand::SetVolume(v) => {
            state.volume = v.clamp(Single::zero(), Single::one());
        },
        PlayerCommand::SetEq { .. } => {},
    }
}

/// A tick of the simulated clock: a playing track is at `position` now, and
/// stops at its end.
pub fn tick(state: &mut PlaybackState, position: Double)
    ensures
        playback_view(*final(state)) == ({
            let s = playback_view(*old(state));
            let ends = s.duration_secs is Some && (s.duration_secs->0.equals(position)
                || s.duration_secs->0.below(position));
            if !s.playing {
                s
            } else if ends {
                PlaybackView { playing: false, position_secs: s.duration_secs->0, ..s }
            } else {
                PlaybackView { position_secs: position, ..s }
            }
        }),
{
    if state.playing {
        state.position_secs = position;
        if let Some(d) = state.duration_secs {
            if d.same(position) || d.less(position) {
                state.position_secs = d;
                state.playing = false;
            }
        }
    }
}

/// Whether something that goes out every `period` is due.
pub fn is_due(last: Option<u64>, now: u64, period: u64) -> (due: bool)
    ensures
        due == match last {
            Some(at) => now >= at && now - at >= period,
            None => true,
        },
{
    match last {
        Some(at) => now >= at && now - at >= period,
        None => true,
    }
}

/// The artists that canned tracks go round.
pub open spec fn canned_artist(i: int) -> Seq<char> {
    if i == 0 {
        "Autechre"@
    } else if i == 1 {
        "Biosphere"@
    } else if i == 2 {
        "Global Communication"@
    } else if i == 3 {
        "The Orb"@
    } else if i == 4 {
        "Boards of Canada"@
    } else if i == 5 {
        "Aphex Twin"@
    } else if i == 6 {
        "Burial"@
    } else {
        "Four Tet"@
    }
}

fn artist_name(i: usize) -> (name: &'static str)
    requires
        i < 8,
    ensures
        name@ == canned_artist(i as int),
{
    if i == 0 {
        "Autechre"
    } else if i == 1 {
        "Biosphere"
    } else if i == 2 {
        "Global Communication"
    } else if i == 3 {
        "The Orb"
    } else if i == 4 {
        "Boards of Canada"
    } else if i == 5 {
        "Aphex Twin"
    } else if i == 6 {
        "Burial"
    } else {
        "Four Tet"
    }
}

/// The letters of a canned video id.
pub const ALPHABET: &'static str = "abcdefghijklmnopqrstuvwxyzABCDEFGHIJKLMNOPQRSTUVWXYZ0123456789-_";

/// One byte into an FNV-1a hash.
pub open spec fn hash_byte(h: u64, b: u8) -> u64 {
    (h ^ (b as u64)).wrapping_mul(0x100_0000_01b3)
}

/// All bytes into an FNV-1a hash that stands at `h`.
pub open spec fn hash_bytes(h: u64, bytes: Seq<u8>) -> u64
    decreases bytes.len(),
{
    if bytes.len() == 0 {
        h
    } else {
        hash_byte(hash_bytes(h, bytes.drop_last()), bytes.last())
    }
}

/// The `count` low bytes of `n`, the lowest first.
pub open spec fn low_bytes(n: nat, count: nat) -> Seq<u8>
    decreases count,
{
    if count == 0 {
        Seq::empty()
    } else {
        seq![(n % 256) as u8] + low_bytes(n / 256, (count - 1) as nat)
    }
}

/// One round of xorshift.
pub open spec fn shifted(h: u64) -> u64 {
    let a = h ^ (h << 13);
    let b = a ^ (a >> 7);
    b ^ (b << 17)
}

/// `n` letters drawn from a generator that stands at `h`.
pub open spec fn drawn(h: u64, n: nat) -> Seq<char>
    decreases n,
{
    if n == 0 {
        Seq::empty()
    } else {
        let next = shifted(h);
        seq![ALPHABET@[(next % 64) as int]] + drawn(next, (n - 1) as nat)
    }
}

/// The eleven letters that stand for a seed and a number.
pub open spec fn canned_id(seed: Seq<char>, i: nat) -> Seq<char> {
    drawn(
        hash_bytes(
            hash_bytes(0xcbf2_9ce4_8422_2325, vstd::utf8::encode_utf8(seed)),
            low_bytes(i, 8),
        ),
        11,
    )
}

/// The stand-in track of a seed and a number.
pub open spec fn canned(seed: Seq<char>, i: nat) -> model::TrackView {
    model::TrackView {
        video_id: canned_id(seed, i),
        title: if i == 0 {
            seed + " (stand-in)"@
        } else {
            seed + " — take "@ + text::decimal(i + 1)
        },
        artist: canned_artist((i % 8) as int),
        album: Some("Canned Results"@),
        duration_secs: Some((150 + (i * 37) % 240) as u64),
        thumb_url: None,
    }
}

/// Canned ids are eleven characters long.
pub proof fn lemma_canned_id_length(seed: Seq<char>, i: nat)
    ensures
        canned_id(seed, i).len() == 11,
{
    reveal_with_fuel(drawn, 12);
}

/// Canned tracks go round eight artists, say which take they are, and last from
/// two and a half to six and a half minutes; the first is named for the query
/// itself.
pub proof fn lemma_canned(seed: Seq<char>, i: nat)
    ensures
        canned(seed, i).artist == canned(seed, i + 8).artist,
        canned(seed, 0).title == seed + " (stand-in)"@,
        i > 0 ==> canned(seed, i).title == seed + " — take "@ + text::decimal(i + 1),
        canned(seed, i).album == Some("Canned Results"@),
        canned(seed, i).duration_secs matches Some(secs) && 150 <= secs < 390,
        canned(seed, i).thumb_url is None,
        canned(seed, i).video_id == canned_id(seed, i),
        canned(seed, 0).artist == "Autechre"@ && canned(seed, 1).artist == "Biosphere"@ && canned(
            seed,
            2,
        ).artist == "Global Communication"@ && canned(seed, 3).artist == "The Orb"@ && canned(
            seed,
            4,
        ).artist == "Boards of Canada"@ && canned(seed, 5).artist == "Aphex Twin"@ && canned(
            seed,
            6,
        ).artist == "Burial"@ && canned(seed, 7).artist == "Four Tet"@,
{
    assert((i + 8) % 8 == i % 8);
}

/// The hash of bytes one after another is the hash of the later ones begun from
/// the hash of the earlier, and each byte is mixed in and multiplied by the
/// FNV prime.
pub proof fn lemma_hash_parts(h: u64, a: Seq<u8>, b: Seq<u8>)
    ensures
        hash_bytes(h, a + b) == hash_bytes(hash_bytes(h, a), b),
        a.len() == 1 ==> hash_bytes(h, a) == (h ^ (a[0] as u64)).wrapping_mul(1_099_511_628_211),
    decreases b.len(),
{
    reveal_with_fuel(hash_bytes, 2);
    if b.len() > 0 {
        lemma_hash_parts(h, a, b.drop_last());
        assert((a + b).drop_last() =~= a + b.drop_last());
    } else {
        assert(a + b =~= a);
    }
    if a.len() == 1 {
        assert(a.drop_last() =~= Seq::<u8>::empty());
    }
}

/// The low bytes of a number spell it: the number is the first of them and 256
/// times what the others spell.
pub proof fn lemma_low_bytes(n: nat, count: nat)
    requires
        count > 0,
    ensures
        low_bytes(n, count).len() == count,
        low_bytes(n, count)[0] == n % 256,
        low_bytes(n, count).skip(1) == low_bytes(n / 256, (count - 1) as nat),
    decreases count,
{
    if count > 1 {
        lemma_low_bytes(n / 256, (count - 1) as nat);
    } else {
        reveal_with_fuel(low_bytes, 2);
    }
    assert(low_bytes(n, count).skip(1) =~= low_bytes(n / 256, (count - 1) as nat));
}

/// The letters of an id come from the alphabet, each picked by the low six bits
/// of the generator's next number, which the later letters go on from.
pub proof fn lemma_drawn(h: u64, n: nat)
    ensures
        drawn(h, 0).len() == 0,
        drawn(h, n + 1).len() == n + 1,
        drawn(h, n + 1)[0] == ALPHABET@[(shifted(h) % 64) as int],
        drawn(h, n + 1).skip(1) == drawn(shifted(h), n),
        shifted(h) == 0 <==> h == 0,
    decreases n,
{
    lemma_drawn_length(shifted(h), n);
    assert(drawn(h, n + 1).skip(1) =~= drawn(shifted(h), n));
    assert((h ^ (h << 13)) ^ ((h ^ (h << 13)) >> 7) ^ (((h ^ (h << 13)) ^ ((h ^ (h << 13)) >> 7))
        << 17) == 0 <==> h == 0) by (bit_vector);
}

proof fn lemma_drawn_length(h: u64, n: nat)
    ensures
        drawn(h, n).len() == n,
    decreases n,
{
    if n > 0 {
        lemma_drawn_length(shifted(h), (n - 1) as nat);
    }
}

/// The id of a seed and a number is drawn from the hash of the seed's bytes and
/// then the number's eight, begun from the FNV offset.
pub proof fn lemma_canned_id_drawn(seed: Seq<char>, i: nat)
    ensures
        canned_id(seed, i) == drawn(
            hash_bytes(
                14_695_981_039_346_656_037u64,
                vstd::utf8::encode_utf8(seed) + low_bytes(i, 8),
            ),
            11,
        ),
{
    lemma_hash_parts(
        14_695_981_039_346_656_037u64,
        vstd::utf8::encode_utf8(seed),
        low_bytes(i, 8),
    );
}

/// An eleven-character id, always the same for the same seed and number.
pub fn canned_video_id(seed: &str, i: usize) -> (id: String)
    ensures
        id@ == canned_id(seed@, i as nat),
{
    let bytes = seed.as_bytes();
    let mut h: u64 = 0xcbf2_9ce4_8422_2325;
    let mut k: usize = 0;
    assert(bytes@.take(0) =~= Seq::empty());
    while k < bytes.len()
        invariant
            k <= bytes@.len(),
            h == hash_bytes(0xcbf2_9ce4_8422_2325, bytes@.take(k as int)),
        decreases bytes@.len() - k,
    {
        assert(bytes@.take(k + 1).drop_last() =~= bytes@.take(k as int));
        h = (h ^ (bytes[k] as u64)).wrapping_mul(0x100_0000_01b3);
        k += 1;
    }
    assert(bytes@.take(bytes@.len() as int) =~= bytes@);
    let ghost seeded = h;
    let mut rest: u64 = i as u64;
    let mut left: u64 = 8;
    let ghost mut done: Seq<u8> = Seq::empty();
    assert(done + low_bytes(rest as nat, left as nat) =~= low_bytes(i as nat, 8));
    while left > 0
        invariant
            left <= 8,
            h == hash_bytes(seeded, done),
            done + low_bytes(rest as nat, left as nat) == low_bytes(i as nat, 8),
        decreases left,
    {
        let b: u8 = (rest % 256) as u8;
        proof {
            let next = done + seq![b];
            assert(next.drop_last() =~= done);
            assert(next + low_bytes(rest as nat / 256, (left - 1) as nat) =~= done + low_bytes(
                rest as nat,
                left as nat,
            ));
            done = next;
        }
        h = (h ^ (b as u64)).wrapping_mul(0x100_0000_01b3);
        rest = rest / 256;
        left = left - 1;
    }
    assert(done =~= low_bytes(i as nat, 8));
    let ghost begun = h;
    let mut id = String::new();
    let mut n: usize = 0;
    proof {
        reveal_strlit("abcdefghijklmnopqrstuvwxyzABCDEFGHIJKLMNOPQRSTUVWXYZ0123456789-_");
    }
    assert(id@ + drawn(h, 11) =~= drawn(begun, 11));
    while n < 11
        invariant
            n <= 11,
            ALPHABET@.len() == 64,
            id@ + drawn(h, (11 - n) as nat) == drawn(begun, 11),
        decreases 11 - n,
    {
        let ghost before = id@;
        let ghost start = h;
        h = h ^ (h << 13);
        h = h ^ (h >> 7);
        h = h ^ (h << 17);
        let c = ALPHABET.get_char((h % 64) as usize);
        id.push(c);
        assert(before + (seq![c] + drawn(h, (10 - n) as nat)) =~= id@ + drawn(h, (10 - n) as nat));
        n += 1;
    }
    assert(id@ + drawn(h, 0) =~= id@);
    id
}

/// The stand-in track of a seed and a number.
pub fn canned_track(seed: &str, i: usize) -> (t: Track)
    requires
        i * 37 <= usize::MAX,
        i < usize::MAX,
    ensures
        t@ == canned(seed@, i as nat),
{
    let mut title = seed.to_owned();
    if i == 0 {
        title.append(" (stand-in)");
    } else {
        title.append(" — take ");
        title.append(text::to_decimal((i + 1) as u64).as_str());
    }
    let secs: u64 = (150 + (i * 37) % 240) as u64;
    Track {
        video_id: canned_video_id(seed, i),
        title,
        artist: artist_name(i % 8).to_owned(),
        album: Some("Canned Results".to_owned()),
        duration_secs: Some(secs),
        thumb_url: None,
    }
}

/// Canned results for a query.
pub fn canned_search(query: &str, limit: usize) -> (tracks: Vec<Track>)
    requires
        limit * 37 <= usize::MAX,
    ensures
        tracks@.len() == limit,
        forall|i: int| 0 <= i < limit ==> (#[trigger] tracks@[i])@ == canned(query@, i as nat),
{
    let mut tracks: Vec<Track> = Vec::new();
    let mut i: usize = 0;
    while i < limit
        invariant
            i <= limit,
            limit * 37 <= usize::MAX,
            tracks@.len() == i,
            forall|k: int| 0 <= k < i ==> (#[trigger] tracks@[k])@ == canned(query@, k as nat),
        decreases limit - i,
    {
        tracks.push(canned_track(query, i));
        i += 1;
    }
    tracks
}

/// A canned radio for a video.
pub fn canned_radio(video_id: &str, limit: usize) -> (tracks: Vec<Track>)
    requires
        (limit + 100) * 37 <= usize::MAX,
    ensures
        tracks@.len() == limit,
        forall|i: int|
            0 <= i < limit ==> (#[trigger] tracks@[i])@ == canned(
                "radio:"@ + video_id@,
                (i + 100) as nat,
            ),
{
    let mut seed = "radio:".to_owned();
    seed.append(video_id);
    let mut tracks: Vec<Track> = Vec::new();
    let mut i: usize = 0;
    while i < limit
        invariant
            i <= limit,
            (limit + 100) * 37 <= usize::MAX,
            seed@ == "radio:"@ + video_id@,
            tracks@.len() == i,
            forall|k: int|
                0 <= k < i ==> (#[trigger] tracks@[k])@ == canned(
                    "radio:"@ + video_id@,
                    (k + 100) as nat,
                ),
        decreases limit - i,
    {
        tracks.push(canned_track(seed.as_str(), i + 100));
        i += 1;
    }
    tracks
}

} // verus!
