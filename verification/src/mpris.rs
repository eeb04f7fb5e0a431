//! What the desktop's media controls are told, and when.

use vstd::prelude::*;

use crate::bits::Double;
use crate::model;
use crate::model::{clone_track, PlaybackState, Track};
use crate::text;

verus! {

/// How often the position goes out while playing, in milliseconds.
pub const PLAYING_POSITION_INTERVAL_MS: u64 = 1000;

/// What every track's object path begins with.
pub const TRACK_OBJECT_PATH_PREFIX: &'static str = "/org/ytamp/Track/";

/// What the desktop asked of the player.
#[derive(Clone, Debug)]
pub enum MediaCommand {
    Play,
    Pause,
    PlayPause,
    Stop,
    Next,
    Previous,
    /// Seek relative to the position, in milliseconds.
    SeekBy(i64),
    /// Seek to a position, in milliseconds.
    SetPosition(u64),
    /// Volume, zero to one.
    SetVolume(Double),
    /// Bring the window forward.
    Raise,
    Quit,
}

/// Whether something plays, waits, or is not there.
#[derive(Clone, Copy, Debug, PartialEq, Eq, Structural)]
pub enum PlaybackStatus {
    Playing,
    Paused,
    Stopped,
}

/// What the desktop is told.
#[derive(Debug)]
pub struct MediaState {
    pub status: PlaybackStatus,
    pub track: Option<Track>,
    pub position_ms: u64,
    pub volume: Double,
}

/// The status that a playback state is.
pub open spec fn status_of(playing: bool, track: Option<Track>) -> PlaybackStatus {
    if playing {
        PlaybackStatus::Playing
    } else if track is Some {
        PlaybackStatus::Paused
    } else {
        PlaybackStatus::Stopped
    }
}

pub open spec fn track_view(t: Option<Track>) -> Option<model::TrackView> {
    match t {
        Some(x) => Some(x@),
        None => None,
    }
}

fn same_text(a: &Option<String>, b: &Option<String>) -> (yes: bool)
    ensures
        yes == (model::text_view(*a) == model::text_view(*b)),
{
    match (a, b) {
        (Some(x), Some(y)) => text::same(x.as_str(), y.as_str()),
        (None, None) => true,
        _ => false,
    }
}

/// Whether the two are the same track, field by field.
pub fn same_track(a: &Option<Track>, b: &Option<Track>) -> (yes: bool)
    ensures
        yes == (track_view(*a) == track_view(*b)),
{
    match (a, b) {
        (Some(x), Some(y)) => {
            let yes = text::same(x.video_id.as_str(), y.video_id.as_str()) && text::same(
                x.title.as_str(),
                y.title.as_str(),
            ) && text::same(x.artist.as_str(), y.artist.as_str()) && same_text(&x.album, &y.album)
                && x.duration_secs == y.duration_secs && same_text(&x.thumb_url, &y.thumb_url);
            assert(yes == (x@ == y@));
            yes
        },
        (None, None) => true,
        _ => false,
    }
}

impl Clone for MediaState {
    fn clone(&self) -> (s: Self)
        ensures
            s == *self,
    {
        MediaState {
            status: self.status,
            track: clone_track(&self.track),
            position_ms: self.position_ms,
            volume: self.volume,
        }
    }
}

impl MediaState {
    /// The state distilled from a playback state; the position in whole
    /// milliseconds and the volume in double width come with it.
    pub fn of(state: &PlaybackState, position_ms: u64, volume: Double) -> (m: Self)
        ensures
            m.status == status_of(state.playing, state.track),
            m.track == state.track,
            m.position_ms == position_ms,
            m.volume == volume,
    {
        MediaState {
            status: if state.playing {
                PlaybackStatus::Playing
            } else if state.track.is_some() {
                PlaybackStatus::Paused
            } else {
                PlaybackStatus::Stopped
            },
            track: clone_track(&state.track),
            position_ms,
            volume,
        }
    }
}

/// What was last told, and when.
pub struct Publisher {
    pub published: Option<MediaState>,
    pub last_position_update: Option<u64>,
}

/// Whether two states differ in nothing but the position. `volume_close` says
/// whether the volumes are within half a percent.
pub open spec fn same_but_position(a: MediaState, b: MediaState, volume_close: bool) -> bool {
    a.status == b.status && track_view(a.track) == track_view(b.track) && volume_close
}

/// Whether a state is worth telling: anything changed, or the position did and
/// its turn has come.
pub open spec fn worth_telling(
    p: Publisher,
    state: MediaState,
    volume_close: bool,
    now: u64,
) -> bool {
    match p.published {
        None => true,
        Some(last) => {
            ||| !same_but_position(last, state, volume_close)
            ||| last.position_ms != state.position_ms && (state.status != PlaybackStatus::Playing
                || match p.last_position_update {
                Some(at) => now >= at + PLAYING_POSITION_INTERVAL_MS,
                None => true,
            })
        },
    }
}

impl Publisher {
    pub fn new() -> (p: Self)
        ensures
            p.published is None,
            p.last_position_update is None,
    {
        Publisher { published: None, last_position_update: None }
    }

    /// Changes go out at once; the position once a second while playing, since
    /// clients reckon between updates. The result is what to send; `sent` says
    /// so afterwards.
    pub fn update(&self, state: &MediaState, volume_close: bool, now: u64) -> (send: bool)
        ensures
            send == worth_telling(*self, *state, volume_close, now),
    {
        match &self.published {
            None => true,
            Some(last) => {
                if last.status != state.status || !same_track(&last.track, &state.track)
                    || !volume_close {
                    return true;
                }
                if last.position_ms == state.position_ms {
                    return false;
                }
                let due = match self.last_position_update {
                    Some(at) => now >= at && now - at >= PLAYING_POSITION_INTERVAL_MS,
                    None => true,
                };
                state.status != PlaybackStatus::Playing || due
            },
        }
    }

    /// The state went out at `now`.
    pub fn sent(&mut self, state: MediaState, now: u64)
        ensures
            final(self).published == Some(state),
            final(self).last_position_update == Some(now),
    {
        self.published = Some(state);
        self.last_position_update = Some(now);
    }
}

/// Telling the same state again right away is never worth it.
pub proof fn lemma_told_once(state: MediaState, at: u64)
    ensures
        !worth_telling(
            Publisher { published: Some(state), last_position_update: Some(at) },
            state,
            true,
            at,
        ),
{
}

/// Which properties of the player change.
#[derive(Clone, Copy, Debug, PartialEq, Eq, Structural)]
pub struct PropertyChanges {
    pub status: bool,
    /// The metadata, and with it whether there is anything to seek in.
    pub metadata: bool,
    pub volume: bool,
}

/// The properties to set for `next` after `previous`; all of them at first.
pub fn property_changes(
    previous: &Option<MediaState>,
    next: &MediaState,
    volume_close: bool,
) -> (c: PropertyChanges)
    ensures
        match *previous {
            None => c.status && c.metadata && c.volume,
            Some(p) => {
                &&& c.status == (p.status != next.status)
                &&& c.metadata == (track_view(p.track) != track_view(next.track))
                &&& c.volume == !volume_close
            },
        },
{
    match previous {
        None => PropertyChanges { status: true, metadata: true, volume: true },
        Some(p) => PropertyChanges {
            status: p.status != next.status,
            metadata: !same_track(&p.track, &next.track),
            volume: !volume_close,
        },
    }
}

pub open spec fn is_word_char(c: char) -> bool {
    ('a' <= c && c <= 'z') || ('A' <= c && c <= 'Z') || ('0' <= c && c <= '9') || c == '_'
}

pub open spec fn is_word(s: Seq<char>) -> bool {
    s.len() > 0 && forall|i: int| 0 <= i < s.len() ==> is_word_char(#[trigger] s[i])
}

/// A D-Bus object path: a slash, then words of ASCII letters, digits and
/// underscores with single slashes between them.
pub open spec fn valid_path(p: Seq<char>) -> bool {
    &&& p.len() > 0
    &&& p[0] == '/'
    &&& p.len() == 1 || forall|i: int|
        0 <= i < text::split(p.drop_first(), '/').len() ==> is_word(
            #[trigger] text::split(p.drop_first(), '/')[i],
        )
}

/// `mpris_server::TrackId::try_from` on a text, handed back as text: the path
/// itself where it is a valid object path, nothing where it is not.
#[verifier::external_body]
fn track_id(path: &str) -> (id: Option<String>)
    ensures
        match id {
            Some(s) => valid_path(path@) && s@ == path@,
            None => !valid_path(path@),
        },
{
    mpris_server::TrackId::try_from(path).ok().map(|id| id.as_str().to_owned())
}

/// What stands for a character of a video id in an object path.
pub open spec fn escaped_char(c: char) -> Seq<char> {
    if c == '-' {
        "_h"@
    } else if c == '_' {
        "_u"@
    } else if is_word_char(c) {
        seq![c]
    } else {
        Seq::empty()
    }
}

/// A video id with only characters that an object path can have.
pub open spec fn escaped(id: Seq<char>) -> Seq<char>
    decreases id.len(),
{
    if id.len() == 0 {
        Seq::empty()
    } else {
        escaped(id.drop_last()) + escaped_char(id.last())
    }
}

/// The object path of a video id.
pub open spec fn path_of(id: Seq<char>) -> Seq<char> {
    TRACK_OBJECT_PATH_PREFIX@ + (if escaped(id).len() == 0 {
        "track"@
    } else {
        escaped(id)
    })
}

proof fn lemma_escaped_word(id: Seq<char>)
    ensures
        forall|i: int| 0 <= i < escaped(id).len() ==> is_word_char(#[trigger] escaped(id)[i]),
    decreases id.len(),
{
    if id.len() > 0 {
        lemma_escaped_word(id.drop_last());
        reveal_strlit("_h");
        reveal_strlit("_u");
        let before = escaped(id.drop_last());
        let here = escaped_char(id.last());
        assert forall|i: int| 0 <= i < escaped(id).len() implies is_word_char(
            #[trigger] escaped(id)[i],
        ) by {
            if i < before.len() {
                assert(is_word_char(before[i]));
            } else {
                assert(escaped(id)[i] == here[i - before.len()]);
            }
        }
    }
}

/// Every video id makes a valid object path.
pub proof fn lemma_paths_are_valid(id: Seq<char>)
    ensures
        valid_path(path_of(id)),
{
    lemma_escaped_word(id);
    reveal_strlit("/org/ytamp/Track/");
    reveal_strlit("track");
    let tail = if escaped(id).len() == 0 {
        "track"@
    } else {
        escaped(id)
    };
    assert(is_word(tail));
    let org = seq!['o', 'r', 'g'];
    let ytamp = seq!['y', 't', 'a', 'm', 'p'];
    let track = seq!['T', 'r', 'a', 'c', 'k'];
    let parts = seq![org, ytamp, track, tail];
    assert forall|i: int| 0 <= i < parts.len() implies !(#[trigger] parts[i]).contains('/') by {
        assert forall|k: int| 0 <= k < parts[i].len() implies parts[i][k] != '/' by {
            if i == 3 {
                assert(is_word_char(tail[k]));
            }
        }
    }
    text::lemma_split_join(parts, '/');
    let path = path_of(id);
    reveal_with_fuel(text::join, 5);
    let sep = seq!['/'];
    assert(parts.drop_last() =~= seq![org, ytamp, track]);
    assert(parts.drop_last().drop_last() =~= seq![org, ytamp]);
    assert(parts.drop_last().drop_last().drop_last() =~= seq![org]);
    assert(text::join(parts, sep) == org + sep + ytamp + sep + track + sep + tail);
    assert(path.drop_first() =~= text::join(parts, sep));
    assert forall|i: int| 0 <= i < parts.len() implies is_word(#[trigger] parts[i]) by {
        if i == 0 {
            assert(is_word(org));
        } else if i == 1 {
            assert(is_word(ytamp));
        } else if i == 2 {
            assert(is_word(track));
        }
    }
}

/// What plays is playing, what does not is paused while there is a track, and
/// without one everything is stopped.
pub proof fn lemma_status(playing: bool, track: Option<Track>)
    ensures
        status_of(playing, track) is Playing <==> playing,
        status_of(playing, track) is Paused <==> !playing && track is Some,
        status_of(playing, track) is Stopped <==> !playing && track is None,
{
}

/// The desktop hears of the first state, and of every change of status, track
/// or volume at once; of a new position at once while nothing plays, and a
/// second after the last word while something does; of an unchanged state
/// never.
pub proof fn lemma_when_told(last: MediaState, state: MediaState, at: u64, close: bool, now: u64)
    ensures
        ({
            let p = Publisher { published: Some(last), last_position_update: Some(at) };
            &&& last.status != state.status ==> worth_telling(p, state, close, now)
            &&& track_view(last.track) != track_view(state.track) ==> worth_telling(
                p,
                state,
                close,
                now,
            )
            &&& !close ==> worth_telling(p, state, close, now)
            &&& last.status == state.status && track_view(last.track) == track_view(state.track)
                && close ==> {
                &&& last.position_ms == state.position_ms ==> !worth_telling(p, state, close, now)
                &&& last.position_ms != state.position_ms && !(state.status is Playing)
                    ==> worth_telling(p, state, close, now)
                &&& last.position_ms != state.position_ms && state.status is Playing ==> (
                worth_telling(p, state, close, now) <==> now - at >= 1000)
            }
        }),
        worth_telling(
            Publisher { published: None, last_position_update: None },
            state,
            close,
            now,
        ),
{
}

/// In an object path letters and digits stand for themselves, `-` is written
/// `_h` and `_` is written `_u`, one character after another, behind the prefix
/// of all tracks.
pub proof fn lemma_escaped_parts(a: Seq<char>, b: Seq<char>, c: char)
    ensures
        escaped(a + b) == escaped(a) + escaped(b),
        escaped(seq!['-']) == seq!['_', 'h'],
        escaped(seq!['_']) == seq!['_', 'u'],
        ('a' <= c && c <= 'z') || ('A' <= c && c <= 'Z') || ('0' <= c && c <= '9') ==> escaped(seq![c]) == seq![c],
        escaped(a).len() > 0 ==> path_of(a) == "/org/ytamp/Track/"@ + escaped(a),
    decreases b.len(),
{
    reveal_strlit("_h");
    reveal_strlit("_u");
    reveal_with_fuel(escaped, 2);
    assert(seq![c].drop_last() =~= Seq::<char>::empty());
    assert(seq!['-'].drop_last() =~= Seq::<char>::empty());
    assert(seq!['_'].drop_last() =~= Seq::<char>::empty());
    assert(escaped(seq!['-']) =~= seq!['_', 'h']);
    assert(escaped(seq!['_']) =~= seq!['_', 'u']);
    assert(escaped(seq![c]) =~= escaped_char(c));
    if b.len() > 0 {
        lemma_escaped_parts(a, b.drop_last(), c);
        assert((a + b).drop_last() =~= a + b.drop_last());
        assert(escaped(a + b) =~= escaped(a) + escaped(b));
    } else {
        assert(a + b =~= a);
        assert(escaped(a) + escaped(b) =~= escaped(a));
    }
}

/// A video id as YouTube makes them: letters, digits, `-` and `_`.
pub open spec fn plain_id(id: Seq<char>) -> bool {
    forall|i: int| 0 <= i < id.len() ==> is_word_char(#[trigger] id[i]) || id[i] == '-'
}

proof fn lemma_escaped_injective(a: Seq<char>, b: Seq<char>)
    requires
        plain_id(a),
        plain_id(b),
        escaped(a) == escaped(b),
    ensures
        a == b,
    decreases a.len() + b.len(),
{
    reveal_strlit("_h");
    reveal_strlit("_u");
    if a.len() == 0 {
        if b.len() > 0 {
            assert(is_word_char(b[b.len() - 1]) || b[b.len() - 1] == '-');
            assert(escaped(b).len() > 0);
        }
        assert(a =~= b);
    } else if b.len() == 0 {
        assert(is_word_char(a[a.len() - 1]) || a[a.len() - 1] == '-');
        assert(escaped(a).len() > 0);
    } else {
        let x = a.last();
        let y = b.last();
        let a0 = a.drop_last();
        let b0 = b.drop_last();
        assert(is_word_char(a[a.len() - 1]) || a[a.len() - 1] == '-');
        assert(is_word_char(b[b.len() - 1]) || b[b.len() - 1] == '-');
        let e = escaped(a);
        lemma_escaped_before(a0);
        lemma_escaped_before(b0);
        // The last character tells the last piece apart: `h` and `u` stand
        // either for themselves or behind an underscore, and an underscore is
        // never the last character.
        assert(e == escaped(a0) + escaped_char(x));
        assert(e == escaped(b0) + escaped_char(y));
        if escaped_char(x).len() == escaped_char(y).len() {
            assert(escaped_char(x).last() == e.last() && escaped_char(y).last() == e.last());
            assert(x == y);
            assert(escaped(a0) =~= e.take(e.len() - escaped_char(x).len()));
            assert(escaped(b0) =~= e.take(e.len() - escaped_char(x).len()));
        } else if escaped_char(x).len() == 2 {
            assert(e[e.len() - 2] == '_');
            assert(escaped(b0).last() == e[e.len() - 2]);
            assert(false);
        } else {
            assert(e[e.len() - 2] == '_');
            assert(escaped(a0).last() == e[e.len() - 2]);
            assert(false);
        }
        assert forall|i: int| 0 <= i < a0.len() implies is_word_char(#[trigger] a0[i]) || a0[i]
            == '-' by {
            assert(is_word_char(a[i]) || a[i] == '-');
        }
        assert forall|i: int| 0 <= i < b0.len() implies is_word_char(#[trigger] b0[i]) || b0[i]
            == '-' by {
            assert(is_word_char(b[i]) || b[i] == '-');
        }
        lemma_escaped_injective(a0, b0);
        assert(a =~= a0.push(x));
        assert(b =~= b0.push(y));
    }
}

proof fn lemma_escaped_before(id: Seq<char>)
    ensures
        escaped(id).len() > 0 ==> escaped(id).last() != '_',
    decreases id.len(),
{
    reveal_strlit("_h");
    reveal_strlit("_u");
    if id.len() > 0 {
        lemma_escaped_before(id.drop_last());
        let here = escaped_char(id.last());
        if here.len() == 0 {
            assert(escaped(id) =~= escaped(id.drop_last()));
        } else {
            assert(escaped(id).last() == here.last());
        }
    }
}

/// Two video ids never share an object path.
pub proof fn lemma_paths_are_unique(a: Seq<char>, b: Seq<char>)
    requires
        plain_id(a),
        plain_id(b),
        a.len() > 0,
        b.len() > 0,
        path_of(a) == path_of(b),
    ensures
        a == b,
{
    reveal_strlit("_h");
    reveal_strlit("_u");
    assert(is_word_char(a[a.len() - 1]) || a[a.len() - 1] == '-');
    assert(is_word_char(b[b.len() - 1]) || b[b.len() - 1] == '-');
    let n = TRACK_OBJECT_PATH_PREFIX@.len() as int;
    assert(path_of(a).skip(n) =~= escaped(a));
    assert(path_of(b).skip(n) =~= escaped(b));
    lemma_escaped_injective(a, b);
}

/// A D-Bus object path for a video id: only letters, digits and `_` are
/// allowed, so `-` becomes `_h` and `_` becomes `_u`, which keeps it unique.
pub fn object_path_for(video_id: &str) -> (path: Option<String>)
    ensures
        path is Some,
        path->0@ == path_of(video_id@),
{
    let v = text::chars(video_id);
    let mut id = String::new();
    let mut i: usize = 0;
    assert(video_id@.take(0) =~= Seq::empty());
    while i < v.len()
        invariant
            v@ == video_id@,
            i <= v@.len(),
            id@ == escaped(video_id@.take(i as int)),
        decreases v@.len() - i,
    {
        assert(video_id@.take(i + 1).drop_last() =~= video_id@.take(i as int));
        let c = v[i];
        let ghost before = id@;
        if c == '-' {
            id.append("_h");
        } else if c == '_' {
            id.append("_u");
        } else if ('a' <= c && c <= 'z') || ('A' <= c && c <= 'Z') || ('0' <= c && c <= '9') {
            id.push(c);
            assert(id@ =~= before + seq![c]);
        } else {
            assert(id@ =~= before + Seq::<char>::empty());
        }
        i += 1;
    }
    assert(video_id@.take(v@.len() as int) =~= video_id@);
    let mut path = TRACK_OBJECT_PATH_PREFIX.to_owned();
    if id.as_str().is_empty() {
        path.append("track");
    } else {
        path.append(id.as_str());
    }
    proof {
        lemma_paths_are_valid(video_id@);
    }
    track_id(path.as_str())
}

/// What the desktop is told about a track.
#[derive(Debug)]
pub struct TrackMetadata {
    pub title: String,
    pub url: String,
    pub track_path: Option<String>,
    pub length_secs: Option<u64>,
    pub artist: Option<String>,
    pub album: Option<String>,
    pub art_url: Option<String>,
}

/// The metadata of a track; empty names are left out.
pub fn metadata(track: &Track) -> (m: TrackMetadata)
    ensures
        m.title@ == track.title@,
        m.url@ == "https://music.youtube.com/watch?v="@ + track.video_id@,
        model::text_view(m.track_path) == Some(path_of(track.video_id@)),
        m.length_secs == track.duration_secs,
        model::text_view(m.artist) == (if track.artist@.len() == 0 {
            None
        } else {
            Some(track.artist@)
        }),
        model::text_view(m.album) == (match track.album {
            Some(a) if a@.len() > 0 => Some(a@),
            _ => None,
        }),
        m.art_url == track.thumb_url,
{
    let mut url = "https://music.youtube.com/watch?v=".to_owned();
    url.append(track.video_id.as_str());
    TrackMetadata {
        title: track.title.clone(),
        url,
        track_path: object_path_for(track.video_id.as_str()),
        length_secs: track.duration_secs,
        artist: if track.artist.as_str().is_empty() {
            None
        } else {
            Some(track.artist.clone())
        },
        album: match &track.album {
            Some(a) => if a.as_str().is_empty() {
                None
            } else {
                Some(a.clone())
            },
            None => None,
        },
        art_url: model::clone_text(&track.thumb_url),
    }
}

} // verus!
