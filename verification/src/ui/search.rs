//! The search page: a landing view before the first query, results after it.

use vstd::prelude::*;

use crate::app;
use crate::app::{SearchState, YtampApp};
use crate::model;
use crate::model::{PlayerCommand, Track};
use crate::settings;
use crate::text;
use crate::ui::winamp;
use crate::bits;

verus! {

/// Artist, then album where there is one.
pub open spec fn meta_of(t: model::TrackView) -> Seq<char> {
    match t.album {
        Some(album) if album.len() > 0 => t.artist + " · "@ + album,
        _ => t.artist,
    }
}

/// Artist, then album where there is one.
pub fn meta_line(track: &Track) -> (line: String)
    ensures
        line@ == meta_of(track@),
{
    let mut line = track.artist.clone();
    if let Some(album) = &track.album {
        if !album.as_str().is_empty() {
            line.append(" · ");
            line.append(album.as_str());
        }
    }
    line
}

/// A result's length as a clock, or nothing.
pub open spec fn length_of(secs: Option<u64>) -> Seq<char> {
    match secs {
        Some(s) => winamp::clock(bits::whole_of(bits::double_of(s as nat))),
        None => Seq::empty(),
    }
}

/// The line under a result is its artist, and behind a dot its album where it
/// has one with a name.
pub proof fn lemma_meta(t: model::TrackView)
    ensures
        t.album is None ==> meta_of(t) == t.artist,
        t.album matches Some(a) ==> a.len() == 0 ==> meta_of(t) == t.artist,
        t.album matches Some(a) ==> a.len() > 0 ==> t.artist.is_prefix_of(meta_of(t))
            && a.is_suffix_of(meta_of(t)) && meta_of(t) == t.artist + " · "@ + a,
{
    if let Some(a) = t.album {
        if a.len() > 0 {
            let m = meta_of(t);
            assert(m.subrange(0, t.artist.len() as int) =~= t.artist);
            assert(m.subrange(m.len() - a.len(), m.len() as int) =~= a);
        }
    }
}

/// A result's length is its seconds as a clock, and nothing where it has none.
pub proof fn lemma_length_shown(secs: u64)
    requires
        secs < 0x20_0000_0000_0000,
    ensures
        length_of(Some(secs)) == winamp::clock(secs as nat),
        length_of(None).len() == 0,
{
    bits::lemma_whole_round_trip(secs as nat);
}

pub fn length_label(track: &Track) -> (label: String)
    ensures
        label@ == length_of(track.duration_secs),
{
    match track.duration_secs {
        Some(secs) => winamp::format_duration(bits::Double::from_whole(secs)),
        None => String::new(),
    }
}

/// What the page shows.
#[derive(Clone, Copy, Debug, PartialEq, Eq, Structural)]
pub enum SearchPage {
    /// Nothing was searched for yet.
    Landing,
    /// A search is on its way and nothing is there to list.
    Waiting,
    /// The search found nothing.
    Nothing,
    Results,
}

/// Which page goes with the state of the search.
pub fn page(search: &SearchState) -> (p: SearchPage)
    ensures
        p == (if search.committed@.len() == 0 && !search.searching {
            SearchPage::Landing
        } else if search.results@.len() > 0 {
            SearchPage::Results
        } else if search.searching {
            SearchPage::Waiting
        } else {
            SearchPage::Nothing
        }),
{
    if search.committed.as_str().is_empty() && !search.searching {
        SearchPage::Landing
    } else if search.results.len() > 0 {
        SearchPage::Results
    } else if search.searching {
        SearchPage::Waiting
    } else {
        SearchPage::Nothing
    }
}

/// The query in quotes.
pub fn heading(search: &SearchState) -> (t: String)
    ensures
        t@ == "“"@ + search.committed@ + "”"@,
{
    let mut t = "“".to_owned();
    t.append(search.committed.as_str());
    t.append("”");
    t
}

/// What stands in place of results where there are none.
pub fn nothing_found(search: &SearchState) -> (t: String)
    ensures
        t@ == "No results for “"@ + search.committed@ + "”"@,
{
    let mut t = "No results for “".to_owned();
    t.append(search.committed.as_str());
    t.append("”");
    t
}

/// The clicks of one frame on the results: a play button or a double click
/// plays, a click selects. A row that had to be scrolled to has been.
pub fn clicks(
    app: &mut YtampApp,
    play: Option<usize>,
    double: Option<usize>,
    single: Option<usize>,
) -> (r: Option<(PlayerCommand, String)>)
    ensures
        ({
            let played = if play is Some {
                play
            } else {
                double
            };
            let plays = played is Some && played->0 < old(app).search.results@.len();
            &&& r is Some == plays
            &&& r matches Some((cmd, id)) ==> {
                &&& id@ == old(app).search.results@[played->0 as int].video_id@
                &&& cmd matches PlayerCommand::QueueReplace(tracks, start) && tracks@ == old(
                    app,
                ).search.results@ && start == played
            }
            &&& *final(app) == (YtampApp {
                search: SearchState {
                    selected: if plays {
                        played
                    } else if played is None && single is Some {
                        single
                    } else {
                        old(app).search.selected
                    },
                    scroll_to: None,
                    ..old(app).search
                },
                ..*old(app)
            })
        }),
{
    let played = if play.is_some() {
        play
    } else {
        double
    };
    app.search.scroll_to = None;
    match played {
        Some(index) => app.play_result(index),
        None => {
            if single.is_some() {
                app.search.selected = single;
            }
            None
        },
    }
}

/// A picked query of the history is searched for again.
pub fn pick_recent(app: &mut YtampApp, index: usize) -> (query: Option<String>)
    ensures
        match query {
            Some(q) => {
                &&& index < old(app).settings.search_history@.len()
                &&& q@ == text::trimmed(old(app).settings.search_history@[index as int]@)
                &&& q@.len() > 0
                &&& final(app).search.query@ == old(app).settings.search_history@[index as int]@
                &&& final(app).search.committed@ == q@
                &&& text::views(final(app).settings.search_history@)
                    == settings::remembered(
                    text::views(old(app).settings.search_history@),
                    q@,
                )
                &&& *final(app) == (YtampApp {
                    settings: settings::Settings {
                        search_history: final(app).settings.search_history,
                        ..old(app).settings
                    },
                    settings_dirty: true,
                    search: SearchState {
                        query: final(app).search.query,
                        committed: final(app).search.committed,
                        searching: true,
                        selected: None,
                        scroll_to: None,
                        ..old(app).search
                    },
                    page: app::Page::Search,
                    ..*old(app)
                })
            },
            None => if index < old(app).settings.search_history@.len() {
                &&& text::trimmed(old(app).settings.search_history@[index as int]@).len() == 0
                &&& final(app).search.query@ == old(app).settings.search_history@[index as int]@
                &&& *final(app) == (YtampApp {
                    search: SearchState { query: final(app).search.query, ..old(app).search },
                    ..*old(app)
                })
            } else {
                *final(app) == *old(app)
            },
        },
{
    if index >= app.settings.search_history.len() {
        return None;
    }
    app.search.query = app.settings.search_history[index].clone();
    app.begin_search()
}

} // verus!
