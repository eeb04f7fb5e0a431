//! The values that the window, the player and the network side pass around.

use vstd::prelude::*;

use crate::bits;
use crate::bits::{Double, Single};

verus! {

/// What a [`Track`] holds.
#[verifier::ext_equal]
pub struct TrackView {
    pub video_id: Seq<char>,
    pub title: Seq<char>,
    pub artist: Seq<char>,
    pub album: Option<Seq<char>>,
    pub duration_secs: Option<u64>,
    pub thumb_url: Option<Seq<char>>,
}

/// A playable YouTube Music track.
#[derive(Debug, PartialEq, Eq)]
pub struct Track {
    /// YouTube video id.
    pub video_id: String,
    pub title: String,
    pub artist: String,
    pub album: Option<String>,
    pub duration_secs: Option<u64>,
    pub thumb_url: Option<String>,
}

/// What an optional text holds.
pub open spec fn text_view(t: Option<String>) -> Option<Seq<char>> {
    match t {
        Some(s) => Some(s@),
        None => None,
    }
}

impl View for Track {
    type V = TrackView;

    open spec fn view(&self) -> TrackView {
        TrackView {
            video_id: self.video_id@,
            title: self.title@,
            artist: self.artist@,
            album: text_view(self.album),
            duration_secs: self.duration_secs,
            thumb_url: text_view(self.thumb_url),
        }
    }
}

/// What a list of tracks holds.
pub open spec fn track_views(tracks: Seq<Track>) -> Seq<TrackView> {
    Seq::new(tracks.len(), |i: int| tracks[i]@)
}

/// "Artist — Title", or the title alone without an artist.
pub open spec fn display_name(t: TrackView) -> Seq<char> {
    if t.artist.len() == 0 {
        t.title
    } else {
        t.artist + " — "@ + t.title
    }
}

/// A track is shown as its artist, a dash and its title, or as its title alone
/// where no artist is known.
pub proof fn lemma_display_name(t: TrackView)
    ensures
        t.artist.len() == 0 ==> display_name(t) == t.title,
        t.artist.len() > 0 ==> t.artist.is_prefix_of(display_name(t)) && t.title.is_suffix_of(
            display_name(t),
        ) && display_name(t).len() == t.artist.len() + " — "@.len() + t.title.len(),
{
    let n = display_name(t);
    if t.artist.len() > 0 {
        assert(n.subrange(0, t.artist.len() as int) =~= t.artist);
        assert(n.subrange(n.len() - t.title.len(), n.len() as int) =~= t.title);
    }
}

pub fn clone_text(t: &Option<String>) -> (c: Option<String>)
    ensures
        c == *t,
{
    match t {
        Some(s) => Some(s.clone()),
        None => None,
    }
}

impl Clone for Track {
    fn clone(&self) -> (t: Self)
        ensures
            t == *self,
    {
        Track {
            video_id: self.video_id.clone(),
            title: self.title.clone(),
            artist: self.artist.clone(),
            album: clone_text(&self.album),
            duration_secs: self.duration_secs,
            thumb_url: clone_text(&self.thumb_url),
        }
    }
}

impl Track {
    /// "Artist — Title" for displays.
    pub fn display(&self) -> (s: String)
        ensures
            s@ == display_name(self@),
    {
        if self.artist.as_str().is_empty() {
            self.title.clone()
        } else {
            let mut s = self.artist.clone();
            s.append(" — ");
            s.append(self.title.as_str());
            s
        }
    }
}

/// A copy of the tracks.
pub fn clone_tracks(tracks: &Vec<Track>) -> (copy: Vec<Track>)
    ensures
        copy@ == tracks@,
{
    let mut copy: Vec<Track> = Vec::new();
    let mut i: usize = 0;
    while i < tracks.len()
        invariant
            0 <= i <= tracks@.len(),
            copy@ == tracks@.take(i as int),
        decreases tracks@.len() - i,
    {
        assert(tracks@.take(i + 1) =~= tracks@.take(i as int).push(tracks@[i as int]));
        copy.push(tracks[i].clone());
        i += 1;
    }
    assert(tracks@.take(tracks@.len() as int) =~= tracks@);
    copy
}

/// What a [`Playlist`] holds.
#[verifier::ext_equal]
pub struct PlaylistView {
    pub browse_id: Seq<char>,
    pub title: Seq<char>,
    pub subtitle: Seq<char>,
}

/// A playlist of the signed-in account.
#[derive(Debug, PartialEq, Eq)]
pub struct Playlist {
    /// The id that opens it (`VL…`).
    pub browse_id: String,
    pub title: String,
    pub subtitle: String,
}

impl View for Playlist {
    type V = PlaylistView;

    open spec fn view(&self) -> PlaylistView {
        PlaylistView {
            browse_id: self.browse_id@,
            title: self.title@,
            subtitle: self.subtitle@,
        }
    }
}

/// What a list of playlists holds.
pub open spec fn playlist_views(playlists: Seq<Playlist>) -> Seq<PlaylistView> {
    Seq::new(playlists.len(), |i: int| playlists[i]@)
}

/// Commands from the window to the player.
#[derive(Clone, Debug)]
pub enum PlayerCommand {
    /// Jump to a queue index and play it.
    PlayAt(usize),
    /// Replace the queue; optionally start at an index.
    QueueReplace(Vec<Track>, Option<usize>),
    /// Append tracks to the queue.
    QueueAppend(Vec<Track>),
    Next,
    Prev,
    PlayPause,
    Pause,
    Resume,
    Stop,
    /// Seek to a fraction of the current track.
    SeekRatio(Double),
    /// Master volume, zero to one.
    SetVolume(Single),
    /// Ten-band equalizer settings, in decibels.
    SetEq { enabled: bool, gains_db: [Double; 10], preamp_db: Double },
}

/// Everything a window needs to draw.
#[derive(Clone, Debug)]
pub struct PlaybackState {
    pub playing: bool,
    pub track: Option<Track>,
    pub position_secs: Double,
    pub duration_secs: Option<Double>,
    pub volume: Single,
    pub queue: Vec<Track>,
    pub queue_index: Option<usize>,
}

impl Default for PlaybackState {
    fn default() -> (s: Self)
        ensures
            !s.playing,
            s.track is None,
            s.position_secs == bits::double_zero(),
            s.duration_secs is None,
            s.volume == bits::single_zero(),
            s.queue@.len() == 0,
            s.queue_index is None,
    {
        PlaybackState {
            playing: false,
            track: None,
            position_secs: Double::zero(),
            duration_secs: None,
            volume: Single::zero(),
            queue: Vec::new(),
            queue_index: None,
        }
    }
}

/// One frame of analyser output: magnitudes from zero to one, log-spaced.
#[derive(Clone, Debug)]
pub struct SpectrumFrame {
    pub bands: Vec<Single>,
}

/// Events from the player to the window.
#[derive(Clone, Debug)]
pub enum PlayerEvent {
    State(PlaybackState),
    Spectrum(SpectrumFrame),
    /// An error for people to read; never fatal.
    Error(String),
    Info(String),
}

pub fn clone_track(t: &Option<Track>) -> (c: Option<Track>)
    ensures
        c == *t,
{
    match t {
        Some(x) => Some(x.clone()),
        None => None,
    }
}

} // verus!
