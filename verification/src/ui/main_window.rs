//! The main window: its keys, the bar that says what plays, and scrubbing.

use vstd::prelude::*;

use crate::app::{Page, SearchState, YtampApp};
use crate::bits;
use crate::bits::Double;
use crate::model::{PlaybackState, PlayerCommand};
use crate::settings;
use crate::settings::Settings;
use crate::text;
use crate::ui::keys;
use crate::ui::keys::{any_alone, any_with_ctrl, Key, KeyPress};
use crate::ui::winamp;

verus! {

/// What the keys of one frame ask for.
#[derive(Clone, Copy, Debug, PartialEq, Eq, Structural)]
pub struct Asked {
    pub focus_search: bool,
    pub toggle_queue: bool,
    pub play_pause: bool,
    pub next_result: bool,
    pub previous_result: bool,
    pub play_selected: bool,
}

pub open spec fn pressed_with_ctrl(presses: Seq<KeyPress>, key: Key) -> bool {
    exists|i: int| 0 <= i < presses.len() && keys::with_ctrl(#[trigger] presses[i], key)
}

pub open spec fn pressed_alone(presses: Seq<KeyPress>, key: Key) -> bool {
    exists|i: int| 0 <= i < presses.len() && keys::alone(#[trigger] presses[i], key)
}

/// A key counts wherever it stands among those of a frame, and as soon as it is
/// pressed once.
pub proof fn lemma_pressed(presses: Seq<KeyPress>, p: KeyPress, key: Key)
    ensures
        pressed_with_ctrl(presses.push(p), key) <==> pressed_with_ctrl(presses, key)
            || keys::with_ctrl(p, key),
        pressed_alone(presses.push(p), key) <==> pressed_alone(presses, key) || keys::alone(p, key),
        !pressed_with_ctrl(Seq::empty(), key),
        !pressed_alone(Seq::empty(), key),
{
    let more = presses.push(p);
    let n = presses.len() as int;
    assert(more[n] == p);
    if pressed_with_ctrl(presses, key) {
        let i = choose|i: int| 0 <= i < presses.len() && keys::with_ctrl(#[trigger] presses[i], key);
        assert(keys::with_ctrl(more[i], key));
    }
    if pressed_alone(presses, key) {
        let i = choose|i: int| 0 <= i < presses.len() && keys::alone(#[trigger] presses[i], key);
        assert(keys::alone(more[i], key));
    }
    if pressed_with_ctrl(more, key) {
        let i = choose|i: int| 0 <= i < more.len() && keys::with_ctrl(#[trigger] more[i], key);
        if i < n {
            assert(keys::with_ctrl(presses[i], key));
        }
    }
    if pressed_alone(more, key) {
        let i = choose|i: int| 0 <= i < more.len() && keys::alone(#[trigger] more[i], key);
        if i < n {
            assert(keys::alone(presses[i], key));
        }
    }
}

/// What the keys ask for: those with control always, the plain ones only while
/// nobody types.
pub fn read_keys(presses: &Vec<KeyPress>, typing: bool) -> (asked: Asked)
    ensures
        asked.focus_search == pressed_with_ctrl(presses@, Key::F),
        asked.toggle_queue == pressed_with_ctrl(presses@, Key::Q),
        asked.play_pause == (!typing && pressed_alone(presses@, Key::Space)),
        asked.next_result == (!typing && pressed_alone(presses@, Key::ArrowDown)),
        asked.previous_result == (!typing && pressed_alone(presses@, Key::ArrowUp)),
        asked.play_selected == (!typing && pressed_alone(presses@, Key::Enter)),
{
    Asked {
        focus_search: any_with_ctrl(presses, Key::F),
        toggle_queue: any_with_ctrl(presses, Key::Q),
        play_pause: !typing && any_alone(presses, Key::Space),
        next_result: !typing && any_alone(presses, Key::ArrowDown),
        previous_result: !typing && any_alone(presses, Key::ArrowUp),
        play_selected: !typing && any_alone(presses, Key::Enter),
    }
}

/// Where the selection goes among `len` results.
pub open spec fn moved_selection(selected: Option<usize>, len: int, asked: Asked) -> int {
    let from = match selected {
        Some(s) => s as int,
        None => 0,
    };
    let down = if !asked.next_result {
        from
    } else if from + 1 > len - 1 {
        len - 1
    } else {
        from + 1
    };
    if asked.previous_result && down > 0 {
        down - 1
    } else {
        down
    }
}

/// The arrows walk the results one at a time and stop at either end; nothing
/// else moves the selection, and the first result counts as selected where none
/// is.
pub proof fn lemma_selection_walks(s: usize, len: int, asked: Asked)
    requires
        0 <= s < len,
    ensures
        ({
            let down = asked.next_result && !asked.previous_result;
            let up = asked.previous_result && !asked.next_result;
            let at = moved_selection(Some(s), len, asked);
            &&& 0 <= at < len
            &&& down && s + 1 < len ==> at == s + 1
            &&& down && s + 1 == len ==> at == s
            &&& up && s > 0 ==> at == s - 1
            &&& up && s == 0 ==> at == 0
            &&& !asked.next_result && !asked.previous_result ==> at == s
        }),
        moved_selection(None, len, asked) == moved_selection(Some(0), len, asked),
{
}

/// What the keys lead to outside.
pub struct KeyEffects {
    /// The space bar.
    pub play_pause: bool,
    /// A result to play: its command, and the video whose radio follows.
    pub play: Option<(PlayerCommand, String)>,
    /// A query to search for.
    pub search: Option<String>,
}

impl YtampApp {
    /// Does what the keys ask for: the queue, walking the results, playing the
    /// selected one, or searching where there are none.
    pub fn apply_keys(&mut self, asked: Asked) -> (effects: KeyEffects)
        requires
            asked.next_result && old(self).search.results@.len() > 0 ==> old(
                self,
            ).search.selected != Some(usize::MAX),
        ensures
            effects.play_pause == asked.play_pause,
            ({
                let len = old(self).search.results@.len() as int;
                let at = moved_selection(old(self).search.selected, len, asked);
                let query = text::trimmed(old(self).search.query@);
                let flipped = old(self).show_queue != asked.toggle_queue;
                if len > 0 {
                    &&& effects.search is None
                    &&& *final(self) == (YtampApp {
                        search: SearchState {
                            selected: Some(at as usize),
                            scroll_to: if asked.next_result || asked.previous_result {
                                Some(at as usize)
                            } else {
                                old(self).search.scroll_to
                            },
                            ..old(self).search
                        },
                        show_queue: flipped,
                        ..*old(self)
                    })
                    &&& effects.play is Some == (asked.play_selected && at < len)
                    &&& effects.play matches Some((cmd, id)) ==> {
                        &&& id@ == old(self).search.results@[at].video_id@
                        &&& cmd matches PlayerCommand::QueueReplace(tracks, start) && tracks@
                            == old(self).search.results@ && start == Some(at as usize)
                    }
                } else if asked.play_selected && query.len() > 0 {
                    &&& effects.play is None
                    &&& effects.search matches Some(q) && q@ == query
                    &&& final(self).search.committed@ == query
                    &&& text::views(final(self).settings.search_history@) == settings::remembered(
                        text::views(old(self).settings.search_history@),
                        query,
                    )
                    &&& *final(self) == (YtampApp {
                        settings: Settings {
                            search_history: final(self).settings.search_history,
                            ..old(self).settings
                        },
                        settings_dirty: true,
                        search: SearchState {
                            committed: final(self).search.committed,
                            searching: true,
                            selected: None,
                            scroll_to: None,
                            ..old(self).search
                        },
                        page: Page::Search,
                        show_queue: flipped,
                        ..*old(self)
                    })
                } else {
                    &&& effects.play is None
                    &&& effects.search is None
                    &&& *final(self) == (YtampApp { show_queue: flipped, ..*old(self) })
                }
            }),
    {
        if asked.toggle_queue {
            self.show_queue = !self.show_queue;
        }
        let mut effects = KeyEffects { play_pause: asked.play_pause, play: None, search: None };
        let results: usize = self.search.results.len();
        if results > 0 {
            let mut selected: usize = match self.search.selected {
                Some(s) => s,
                None => 0,
            };
            if asked.next_result {
                selected = if selected + 1 > results - 1 {
                    results - 1
                } else {
                    selected + 1
                };
                self.search.scroll_to = Some(selected);
            }
            if asked.previous_result {
                if selected > 0 {
                    selected = selected - 1;
                }
                self.search.scroll_to = Some(selected);
            }
            self.search.selected = Some(selected);
            if asked.play_selected {
                effects.play = self.play_result(selected);
            }
        } else if asked.play_selected {
            effects.search = self.begin_search();
        }
        effects
    }

    /// The position slider was moved to so many seconds.
    pub fn scrub_to(&mut self, position: Double)
        ensures
            *final(self) == (YtampApp { scrub: Some(position), ..*old(self) }),
    {
        self.scrub = Some(position);
    }

    /// The position slider was let go at `position`, or clicked. The result is
    /// where to seek to, in seconds.
    pub fn release_scrub(&mut self, position: Double) -> (to: Option<Double>)
        ensures
            to == (if old(self).scrub is Some {
                old(self).scrub
            } else if scrubbable(old(self).state.duration_secs) {
                Some(position)
            } else {
                None
            }),
            *final(self) == (YtampApp { scrub: None, ..*old(self) }),
    {
        let held = self.scrub;
        self.scrub = None;
        if held.is_some() {
            held
        } else if can_scrub(&self.state) {
            Some(position)
        } else {
            None
        }
    }
}

/// A twentieth of a second: anything shorter is no length to scrub along.
pub open spec fn shortest() -> Double {
    Double { bits: 0x3fa9_9999_9999_999a }
}

/// Whether there is a length to scrub along.
pub open spec fn scrubbable(duration: Option<Double>) -> bool {
    match duration {
        Some(d) => shortest().below(d),
        None => false,
    }
}

/// Whether there is a length to scrub along.
pub fn can_scrub(state: &PlaybackState) -> (yes: bool)
    ensures
        yes == scrubbable(state.duration_secs),
{
    match state.duration_secs {
        Some(d) => Double { bits: 0x3fa9_9999_9999_999a }.less(d),
        None => false,
    }
}

/// The two lines that say what plays: title and artist.
pub fn now_playing(state: &PlaybackState) -> (lines: (String, String))
    ensures
        match state.track {
            Some(t) => lines.0@ == t.title@ && lines.1@ == t.artist@,
            None => lines.0@ == "Nothing playing"@ && lines.1@ == "search to fill the queue"@,
        },
{
    match &state.track {
        Some(t) => (t.title.clone(), t.artist.clone()),
        None => ("Nothing playing".to_owned(), "search to fill the queue".to_owned()),
    }
}

/// Where the bar stands: the scrub while there is one, else the player.
pub open spec fn bar_position(scrub: Option<Double>, position: Double) -> Double {
    match scrub {
        Some(s) => s,
        None => position,
    }
}

/// A track of a second or more can be scrubbed, one of no length or of unknown
/// length cannot.
pub proof fn lemma_scrubbable(secs: nat)
    requires
        0 < secs < 0x20_0000_0000_0000,
    ensures
        scrubbable(Some(bits::double_of(secs))),
        !scrubbable(Some(bits::double_of(0))),
        !scrubbable(None),
{
    bits::lemma_double_order(0, secs);
    bits::lemma_double_order(0, 1);
    if secs > 1 {
        bits::lemma_double_order(1, secs);
    }
}

/// The bar stands where it is held, and otherwise where the player is.
pub proof fn lemma_bar_position(held: Double, position: Double)
    ensures
        bar_position(Some(held), position) == held,
        bar_position(None, position) == position,
{
}

/// The clock beside the bar: position, slash, length.
pub fn clock_line(scrub: Option<Double>, state: &PlaybackState) -> (line: String)
    ensures
        line@ == winamp::clock(bits::whole_of(bar_position(scrub, state.position_secs))) + " / "@
            + winamp::clock(
            bits::whole_of(
                match state.duration_secs {
                    Some(d) => d,
                    None => bits::double_zero(),
                },
            ),
        ),
{
    let position = match scrub {
        Some(s) => s,
        None => state.position_secs,
    };
    let duration = match state.duration_secs {
        Some(d) => d,
        None => Double::zero(),
    };
    let mut line = winamp::format_duration(position);
    line.append(" / ");
    line.append(winamp::format_duration(duration).as_str());
    line
}

} // verus!
