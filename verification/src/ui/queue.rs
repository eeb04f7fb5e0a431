//! The queue beside the main window.

use vstd::prelude::*;

use crate::model;
use crate::model::{PlaybackState, PlayerCommand, Track};
use crate::text;

verus! {

/// What an empty queue says.
pub const EMPTY: &'static str = "Nothing queued.\nSearch and press play — a radio follows.";

/// A line of the queue.
pub struct QueueLine {
    pub label: String,
    pub current: bool,
}

/// What a [`QueueLine`] holds.
#[verifier::ext_equal]
pub struct QueueLineView {
    pub label: Seq<char>,
    pub current: bool,
}

impl View for QueueLine {
    type V = QueueLineView;

    open spec fn view(&self) -> QueueLineView {
        QueueLineView { label: self.label@, current: self.current }
    }
}

/// A queued track's name, marked while it is the current one.
pub open spec fn line_label(t: model::TrackView, current: bool) -> Seq<char> {
    if current {
        "▶ "@ + model::display_name(t)
    } else {
        model::display_name(t)
    }
}

/// A line of the queue is the track's name, with a mark before it for the
/// current one alone.
pub proof fn lemma_line_label(t: model::TrackView)
    ensures
        line_label(t, false) == model::display_name(t),
        line_label(t, true) == "▶ "@ + model::display_name(t),
{
}

/// The queue's lines, in its order.
pub fn queue_lines(state: &PlaybackState) -> (lines: Vec<QueueLine>)
    ensures
        lines@.len() == state.queue@.len(),
        forall|i: int|
            0 <= i < lines@.len() ==> (#[trigger] lines@[i])@ == (QueueLineView {
                label: line_label(state.queue@[i]@, state.queue_index == Some(i as usize)),
                current: state.queue_index == Some(i as usize),
            }),
{
    let mut lines: Vec<QueueLine> = Vec::new();
    let mut i: usize = 0;
    while i < state.queue.len()
        invariant
            i <= state.queue@.len(),
            lines@.len() == i,
            forall|k: int|
                0 <= k < i ==> (#[trigger] lines@[k])@ == (QueueLineView {
                    label: line_label(state.queue@[k]@, state.queue_index == Some(k as usize)),
                    current: state.queue_index == Some(k as usize),
                }),
        decreases state.queue@.len() - i,
    {
        let current = match state.queue_index {
            Some(at) => at == i,
            None => false,
        };
        let name = state.queue[i].display();
        let label = if current {
            let mut s = "▶ ".to_owned();
            s.append(name.as_str());
            s
        } else {
            name
        };
        lines.push(QueueLine { label, current });
        i += 1;
    }
    lines
}

/// How many tracks are queued, for the heading.
pub fn count_label(state: &PlaybackState) -> (label: String)
    ensures
        label@ == text::decimal(state.queue@.len()),
{
    text::to_decimal(state.queue.len() as u64)
}

/// What clearing the queue sends; an empty queue has nothing to clear.
pub fn clear_queue(state: &PlaybackState) -> (cmd: Option<PlayerCommand>)
    ensures
        match cmd {
            Some(c) => {
                &&& state.queue@.len() > 0
                &&& c matches PlayerCommand::QueueReplace(tracks, start)
                &&& tracks@.len() == 0
                &&& start is None
            },
            None => state.queue@.len() == 0,
        },
{
    if state.queue.len() > 0 {
        let none: Vec<Track> = Vec::new();
        Some(PlayerCommand::QueueReplace(none, None))
    } else {
        None
    }
}

/// A click on a line plays it.
pub fn jump(index: usize) -> (cmd: PlayerCommand)
    ensures
        cmd == PlayerCommand::PlayAt(index),
{
    PlayerCommand::PlayAt(index)
}

} // verus!
