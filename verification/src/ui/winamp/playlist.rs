//! The playlist window: its rows, scrolling and selection, its times and menus.

use std::collections::HashSet;

use vstd::prelude::*;

use crate::bits;
use crate::bits::Double;
use crate::layout;
use crate::layout::{tile_positions, Area};
use crate::model::{PlaybackState, PlayerCommand, Track};
use crate::text;
use crate::ui::winamp;
use crate::ui::winamp::HostCall;
use crate::winamp as state;
use crate::winamp::WinampState;

verus! {

/// One line of the list.
pub struct Row {
    /// Where the song is in the queue.
    pub index: usize,
    pub label: String,
    pub duration_secs: Option<u64>,
    pub current: bool,
}

/// What a [`Row`] holds.
#[verifier::ext_equal]
pub struct RowView {
    pub index: usize,
    pub label: Seq<char>,
    pub duration_secs: Option<u64>,
    pub current: bool,
}

impl View for Row {
    type V = RowView;

    open spec fn view(&self) -> RowView {
        RowView {
            index: self.index,
            label: self.label@,
            duration_secs: self.duration_secs,
            current: self.current,
        }
    }
}

/// The list's own area, between the tiles.
pub open spec fn area_of(height: int) -> (int, int, int, int) {
    (
        layout::PLAYLIST_LEFT_WIDTH as int,
        layout::PLAYLIST_TITLE_HEIGHT as int,
        layout::WINDOW_WIDTH - layout::PLAYLIST_LEFT_WIDTH - layout::PLAYLIST_RIGHT_WIDTH,
        height - layout::PLAYLIST_TITLE_HEIGHT - layout::PLAYLIST_BOTTOM_HEIGHT,
    )
}

/// How many whole rows the list has room for.
pub open spec fn visible_rows(height: int) -> int {
    (height - layout::PLAYLIST_TITLE_HEIGHT - layout::PLAYLIST_BOTTOM_HEIGHT)
        / layout::PLAYLIST_TRACK_HEIGHT as int
}

/// The height the playlist is drawn at.
pub fn drawn_height(s: &WinampState) -> (h: u32)
    ensures
        h == (if s.playlist_height < layout::PLAYLIST_MIN_HEIGHT {
            layout::PLAYLIST_MIN_HEIGHT
        } else {
            s.playlist_height
        }),
{
    if s.playlist_height < layout::PLAYLIST_MIN_HEIGHT {
        layout::PLAYLIST_MIN_HEIGHT
    } else {
        s.playlist_height
    }
}

/// The list's own area, between the tiles.
pub fn list_area(height: u32) -> (a: Area)
    requires
        height >= layout::PLAYLIST_TITLE_HEIGHT + layout::PLAYLIST_BOTTOM_HEIGHT,
    ensures
        (a.x as int, a.y as int, a.width as int, a.height as int) == area_of(height as int),
{
    Area::new(
        layout::PLAYLIST_LEFT_WIDTH,
        layout::PLAYLIST_TITLE_HEIGHT,
        layout::WINDOW_WIDTH - layout::PLAYLIST_LEFT_WIDTH - layout::PLAYLIST_RIGHT_WIDTH,
        height - layout::PLAYLIST_TITLE_HEIGHT - layout::PLAYLIST_BOTTOM_HEIGHT,
    )
}

/// How many whole rows the list has room for.
pub fn rows_visible(height: u32) -> (n: usize)
    requires
        height >= layout::PLAYLIST_TITLE_HEIGHT + layout::PLAYLIST_BOTTOM_HEIGHT,
    ensures
        n == visible_rows(height as int),
{
    (list_area(height).height / layout::PLAYLIST_TRACK_HEIGHT) as usize
}

/// A row's text: its number, then artist and title.
pub open spec fn row_label(number: nat, artist: Seq<char>, title: Seq<char>) -> Seq<char> {
    if artist.len() == 0 {
        text::decimal(number) + ". "@ + title
    } else {
        text::decimal(number) + ". "@ + artist + " - "@ + title
    }
}

/// A row's text: its number, then artist and title.
pub fn label(number: usize, artist: &str, title: &str) -> (s: String)
    ensures
        s@ == row_label(number as nat, artist@, title@),
{
    let mut s = text::to_decimal(number as u64);
    s.append(". ");
    if !artist.is_empty() {
        s.append(artist);
        s.append(" - ");
    }
    s.append(title);
    s
}

/// The row of a queued track.
pub open spec fn row_of(playback: PlaybackState, i: int) -> RowView {
    let t = playback.queue@[i];
    RowView {
        index: i as usize,
        label: row_label((i + 1) as nat, t.artist@, t.title@),
        duration_secs: t.duration_secs,
        current: playback.queue_index == Some(i as usize),
    }
}

/// The queue, numbered from one.
pub fn rows(playback: &PlaybackState) -> (rows: Vec<Row>)
    ensures
        rows@.len() == playback.queue@.len(),
        forall|i: int| 0 <= i < rows@.len() ==> (#[trigger] rows@[i])@ == row_of(*playback, i),
{
    let mut rows: Vec<Row> = Vec::new();
    let len: usize = playback.queue.len();
    let mut i: usize = 0;
    while i < len
        invariant
            i <= len,
            len == playback.queue@.len(),
            rows@.len() == i,
            forall|k: int| 0 <= k < i ==> (#[trigger] rows@[k])@ == row_of(*playback, k),
        decreases len - i,
    {
        let t = &playback.queue[i];
        let current = match playback.queue_index {
            Some(at) => at == i,
            None => false,
        };
        rows.push(
            Row {
                index: i,
                label: label(i + 1, t.artist.as_str(), t.title.as_str()),
                duration_secs: t.duration_secs,
                current,
            },
        );
        i += 1;
    }
    rows
}

/// How far a list of that many rows scrolls.
pub open spec fn most_of(rows: int, height: int) -> int {
    if rows > visible_rows(height) {
        rows - visible_rows(height)
    } else {
        0
    }
}

/// How far a list of that many rows scrolls.
pub fn most_scroll(rows: usize, height: u32) -> (most: usize)
    requires
        height >= layout::PLAYLIST_TITLE_HEIGHT + layout::PLAYLIST_BOTTOM_HEIGHT,
    ensures
        most == most_of(rows as int, height as int),
{
    let visible: usize = rows_visible(height);
    if rows > visible {
        rows - visible
    } else {
        0
    }
}

/// Which rows are in view: from the first, up to but without the second.
pub fn shown_rows(rows: usize, scroll: usize, height: u32) -> (shown: (usize, usize))
    requires
        height >= layout::PLAYLIST_TITLE_HEIGHT + layout::PLAYLIST_BOTTOM_HEIGHT,
    ensures
        shown.0 == if scroll < rows {
            scroll
        } else {
            rows
        },
        shown.1 == if scroll + visible_rows(height as int) < rows {
            scroll + visible_rows(height as int)
        } else {
            rows as int
        },
        shown.0 <= shown.1 <= rows,
{
    let visible: usize = rows_visible(height);
    let from: usize = if scroll < rows {
        scroll
    } else {
        rows
    };
    let to: usize = if visible < rows - from {
        from + visible
    } else {
        rows
    };
    (from, to)
}

/// The list fills the window between its frame: twelve pixels at the left,
/// twenty at the right, twenty at the top and thirty-eight at the bottom.
pub proof fn lemma_list_area(height: int)
    ensures
        ({
            let (x, y, width, rest) = area_of(height);
            &&& x == 12 && x + width + 20 == 275
            &&& y == 20 && y + rest + 38 == height
        }),
{
}

/// As many rows of thirteen pixels are visible as fit whole, and a list scrolls
/// until its last row is in view.
pub proof fn lemma_rows_fit(rows: int, height: int)
    requires
        height >= 58,
        rows >= 0,
    ensures
        13 * visible_rows(height) <= height - 58 < 13 * (visible_rows(height) + 1),
        rows <= visible_rows(height) ==> most_of(rows, height) == 0,
        rows > visible_rows(height) ==> most_of(rows, height) + visible_rows(height) == rows,
{
}

/// A row begins with its number and a dot and ends with the title; the artist,
/// where one is known, stands before it with a dash.
pub proof fn lemma_row_label(number: nat, artist: Seq<char>, title: Seq<char>)
    ensures
        (text::decimal(number) + ". "@).is_prefix_of(row_label(number, artist, title)),
        artist.len() == 0 ==> row_label(number, artist, title) == text::decimal(number) + ". "@
            + title,
        artist.len() > 0 ==> (artist + " - "@ + title).is_suffix_of(
            row_label(number, artist, title),
        ),
{
    let l = row_label(number, artist, title);
    let front = text::decimal(number) + ". "@;
    assert(l.subrange(0, front.len() as int) =~= front);
    if artist.len() > 0 {
        let back = artist + " - "@ + title;
        assert(l.subrange(l.len() - back.len(), l.len() as int) =~= back);
    }
}

/// The rows are the queue's entries, numbered from one; the one that plays is
/// marked, and no other.
pub proof fn lemma_row_of(playback: PlaybackState, i: int)
    requires
        0 <= i < playback.queue@.len() <= usize::MAX,
    ensures
        row_of(playback, i).index == i,
        row_of(playback, i).label == row_label(
            (i + 1) as nat,
            playback.queue@[i].artist@,
            playback.queue@[i].title@,
        ),
        row_of(playback, i).duration_secs == playback.queue@[i].duration_secs,
        row_of(playback, i).current <==> playback.queue_index == Some(i as usize),
{
}

/// Held within its ends, the list leaves no room empty while there are rows to
/// fill it.
pub proof fn lemma_list_is_full(rows: int, scroll: int, height: int)
    requires
        0 <= scroll <= most_of(rows, height),
        rows >= visible_rows(height) >= 0,
    ensures
        scroll + visible_rows(height) <= rows,
{
}

pub open spec fn between(x: int, low: int, high: int) -> int {
    if x < low {
        low
    } else if x > high {
        high
    } else {
        x
    }
}

/// Held between two ends, a number inside stays and one outside becomes the
/// nearer end.
pub proof fn lemma_between(x: int, low: int, high: int)
    requires
        low <= high,
    ensures
        low <= between(x, low, high) <= high,
        low <= x <= high ==> between(x, low, high) == x,
        x < low ==> between(x, low, high) == low,
        x > high ==> between(x, low, high) == high,
{
}

/// The seconds of the rows in a selection, or of all.
pub open spec fn total_secs(rows: Seq<RowView>, selection: Option<Set<usize>>) -> nat
    decreases rows.len(),
{
    if rows.len() == 0 {
        0
    } else {
        let before = total_secs(rows.drop_last(), selection);
        let counted = match selection {
            Some(s) => s.contains((rows.len() - 1) as usize),
            None => true,
        };
        match rows.last().duration_secs {
            Some(secs) if counted => before + secs as nat,
            _ => before,
        }
    }
}

pub open spec fn row_views(rows: Seq<Row>) -> Seq<RowView> {
    Seq::new(rows.len(), |i: int| rows[i]@)
}

/// What is selected never lasts longer than the whole list.
pub proof fn lemma_selected_at_most_total(rows: Seq<RowView>, selection: Set<usize>)
    ensures
        total_secs(rows, Some(selection)) <= total_secs(rows, None),
    decreases rows.len(),
{
    if rows.len() > 0 {
        lemma_selected_at_most_total(rows.drop_last(), selection);
    }
}

/// A list cut short lasts no longer.
proof fn lemma_total_grows(rows: Seq<RowView>, n: int)
    requires
        0 <= n <= rows.len(),
    ensures
        total_secs(rows.take(n), None) <= total_secs(rows, None),
    decreases rows.len(),
{
    if n < rows.len() {
        assert(rows.drop_last().take(n) =~= rows.take(n));
        lemma_total_grows(rows.drop_last(), n);
    } else {
        assert(rows.take(n) =~= rows);
    }
}

/// The time of the selected rows over that of all, as the window shows them.
pub fn running_time(rows: &Vec<Row>, selection: &HashSet<usize>) -> (t: String)
    requires
        total_secs(row_views(rows@), None) <= u64::MAX,
    ensures
        t@ == winamp::clock(
            bits::whole_of(
                bits::double_of(total_secs(row_views(rows@), Some(selection@))),
            ),
        ) + "/"@ + winamp::clock(
            bits::whole_of(bits::double_of(total_secs(row_views(rows@), None))),
        ),
{
    broadcast use vstd::std_specs::hash::group_hash_axioms;

    let ghost all = row_views(rows@);
    let mut total: u64 = 0;
    let mut selected: u64 = 0;
    let mut i: usize = 0;
    assert(all.take(0) =~= Seq::empty());
    while i < rows.len()
        invariant
            i <= rows@.len(),
            all == row_views(rows@),
            total_secs(all, None) <= u64::MAX,
            total == total_secs(all.take(i as int), None),
            selected == total_secs(all.take(i as int), Some(selection@)),
            selected <= total,
        decreases rows@.len() - i,
    {
        assert(all.take(i + 1).drop_last() =~= all.take(i as int));
        assert(all[i as int] == rows@[i as int]@);
        proof {
            lemma_total_grows(all, i + 1);
        }
        if let Some(secs) = rows[i].duration_secs {
            total = total + secs;
            if selection.contains(&i) {
                selected = selected + secs;
            }
        }
        proof {
            lemma_selected_at_most_total(all.take(i + 1), selection@);
        }
        i += 1;
    }
    assert(all.take(all.len() as int) =~= all);
    let mut t = winamp::format_duration(Double::from_whole(selected));
    t.append("/");
    t.append(winamp::format_duration(Double::from_whole(total)).as_str());
    t
}

/// The rows selected after one more is put in, or taken out where it was in.
pub open spec fn flipped(selection: Set<usize>, index: usize) -> Set<usize> {
    if selection.contains(index) {
        selection.remove(index)
    } else {
        selection.insert(index)
    }
}

/// Takes the index out where it is selected, and puts it in where it is not.
fn flip(selection: &mut HashSet<usize>, index: usize)
    ensures
        final(selection)@ == flipped(old(selection)@, index),
{
    broadcast use vstd::std_specs::hash::group_hash_axioms;

    if !selection.remove(&index) {
        selection.insert(index);
    }
}

/// The items of the menus along the bottom.
#[derive(Clone, Copy, Debug, PartialEq, Eq, Structural)]
pub enum MenuItem {
    /// Adding is the main window's search box.
    Search,
    ClearQueue,
    SelectAll,
    SelectNone,
    SelectInverse,
    /// The song is shown in the main window.
    SongInfo,
}

/// Whether a row is selected after a menu item.
pub open spec fn selected_after(item: MenuItem, was: bool, index: usize, rows: nat) -> bool {
    match item {
        MenuItem::ClearQueue | MenuItem::SelectNone => false,
        MenuItem::SelectAll => was || index < rows,
        MenuItem::SelectInverse => if index < rows {
            !was
        } else {
            was
        },
        MenuItem::Search | MenuItem::SongInfo => was,
    }
}

/// The time of a list is that of its rows added up: one row more adds its length
/// where it has one and is counted.
pub proof fn lemma_total_adds_up(rows: Seq<RowView>, row: RowView, selection: Set<usize>)
    requires
        rows.len() < usize::MAX,
    ensures
        total_secs(Seq::empty(), None) == 0,
        row.duration_secs matches Some(secs) ==> total_secs(rows.push(row), None) == total_secs(
            rows,
            None,
        ) + secs,
        row.duration_secs is None ==> total_secs(rows.push(row), None) == total_secs(rows, None),
        row.duration_secs matches Some(secs) ==> selection.contains(rows.len() as usize)
            ==> total_secs(rows.push(row), Some(selection)) == total_secs(rows, Some(selection))
            + secs,
        !selection.contains(rows.len() as usize) ==> total_secs(rows.push(row), Some(selection))
            == total_secs(rows, Some(selection)),
{
    assert(rows.push(row).drop_last() =~= rows);
}

/// Flipping a row changes whether it is selected, no other row, and done twice
/// nothing.
pub proof fn lemma_flipped(selection: Set<usize>, index: usize, other: usize)
    ensures
        flipped(selection, index).contains(index) != selection.contains(index),
        other != index ==> flipped(selection, index).contains(other) == selection.contains(other),
        flipped(flipped(selection, index), index) == selection,
{
    assert(flipped(flipped(selection, index), index) =~= selection);
}

/// What the menu does to the selection of a row of the list: all, none, or the
/// opposite; clearing the queue selects nothing, and the other items leave it.
pub proof fn lemma_menu_selects(was: bool, index: usize, rows: nat)
    requires
        index < rows,
    ensures
        selected_after(MenuItem::SelectAll, was, index, rows),
        !selected_after(MenuItem::SelectNone, was, index, rows),
        !selected_after(MenuItem::ClearQueue, was, index, rows),
        selected_after(MenuItem::SelectInverse, was, index, rows) != was,
        selected_after(MenuItem::Search, was, index, rows) == was,
        selected_after(MenuItem::SongInfo, was, index, rows) == was,
{
}

/// Inverting the selection twice leaves every row as it was.
pub proof fn lemma_inverse_twice(was: bool, index: usize, rows: nat)
    ensures
        selected_after(
            MenuItem::SelectInverse,
            selected_after(MenuItem::SelectInverse, was, index, rows),
            index,
            rows,
        ) == was,
{
}

impl WinampState {
    /// The wheel moved the list by whole rows, down where positive; the list
    /// goes no further than its ends.
    pub fn wheel(&mut self, rows_moved: i64, rows: usize, height: u32)
        requires
            height >= layout::PLAYLIST_TITLE_HEIGHT + layout::PLAYLIST_BOTTOM_HEIGHT,
        ensures
            final(self).playlist_scroll == between(
                old(self).playlist_scroll + rows_moved,
                0,
                most_of(rows as int, height as int),
            ),
            *final(self) == (WinampState {
                playlist_scroll: final(self).playlist_scroll,
                ..*old(self)
            }),
    {
        let most: usize = most_scroll(rows, height);
        let wanted: i128 = self.playlist_scroll as i128 + rows_moved as i128;
        self.playlist_scroll = if wanted < 0 {
            0
        } else if wanted > most as i128 {
            most
        } else {
            wanted as usize
        };
    }

    /// A click on a row selects it alone; with the command key it is put in or
    /// taken out.
    pub fn click_row(&mut self, index: usize, adding: bool)
        ensures
            final(self).playlist_selection@ == (if adding {
                flipped(old(self).playlist_selection@, index)
            } else {
                set![index]
            }),
            *final(self) == (WinampState {
                playlist_selection: final(self).playlist_selection,
                ..*old(self)
            }),
    {
        if adding {
            flip(&mut self.playlist_selection, index);
        } else {
            broadcast use vstd::std_specs::hash::group_hash_axioms;

            self.playlist_selection.clear();
            self.playlist_selection.insert(index);
        }
    }

    /// An item of the menus. The result is what it asks of the program around.
    pub fn menu(&mut self, item: MenuItem, rows: usize) -> (call: Option<HostCall>)
        ensures
            forall|k: usize|
                final(self).playlist_selection@.contains(k) == selected_after(
                    item,
                    old(self).playlist_selection@.contains(k),
                    k,
                    rows as nat,
                ),
            match item {
                MenuItem::Search | MenuItem::SongInfo => call == Some(HostCall::LeaveMiniPlayer),
                MenuItem::ClearQueue => call matches Some(
                    HostCall::Command(PlayerCommand::QueueReplace(tracks, start)),
                ) && tracks@.len() == 0 && start is None,
                _ => call is None,
            },
            *final(self) == (WinampState {
                playlist_selection: final(self).playlist_selection,
                ..*old(self)
            }),
    {
        broadcast use vstd::std_specs::hash::group_hash_axioms;

        match item {
            MenuItem::Search | MenuItem::SongInfo => Some(HostCall::LeaveMiniPlayer),
            MenuItem::ClearQueue => {
                self.playlist_selection.clear();
                let none: Vec<Track> = Vec::new();
                Some(HostCall::Command(PlayerCommand::QueueReplace(none, None)))
            },
            MenuItem::SelectNone => {
                self.playlist_selection.clear();
                None
            },
            MenuItem::SelectAll => {
                let mut i: usize = 0;
                while i < rows
                    invariant
                        i <= rows,
                        forall|k: usize|
                            self.playlist_selection@.contains(k) == (k < i || old(
                                self,
                            ).playlist_selection@.contains(k)),
                        *self == (WinampState {
                            playlist_selection: self.playlist_selection,
                            ..*old(self)
                        }),
                    decreases rows - i,
                {
                    self.playlist_selection.insert(i);
                    i += 1;
                }
                None
            },
            MenuItem::SelectInverse => {
                let mut i: usize = 0;
                while i < rows
                    invariant
                        i <= rows,
                        forall|k: usize|
                            self.playlist_selection@.contains(k) == (if k < i {
                                !old(self).playlist_selection@.contains(k)
                            } else {
                                old(self).playlist_selection@.contains(k)
                            }),
                        *self == (WinampState {
                            playlist_selection: self.playlist_selection,
                            ..*old(self)
                        }),
                    decreases rows - i,
                {
                    flip(&mut self.playlist_selection, i);
                    i += 1;
                }
                None
            },
        }
    }

    /// The corner was dragged by so many notches.
    pub fn stretch(&mut self, height: u32, steps: i64)
        ensures
            steps != 0 ==> final(self).playlist_height == state::clamped_height(
                height + steps * layout::PLAYLIST_RESIZE_STEP,
            ),
            steps == 0 ==> final(self).playlist_height == old(self).playlist_height,
            *final(self) == (WinampState {
                playlist_height: final(self).playlist_height,
                ..*old(self)
            }),
    {
        if steps != 0 {
            assert(steps * layout::PLAYLIST_RESIZE_STEP == steps * 29) by (nonlinear_arith)
                requires
                    layout::PLAYLIST_RESIZE_STEP == 29u32,
            ;
            let wanted: i128 = height as i128 + steps as i128 * layout::PLAYLIST_RESIZE_STEP as i128;
            self.playlist_height = if wanted < layout::PLAYLIST_MIN_HEIGHT as i128 {
                layout::PLAYLIST_MIN_HEIGHT
            } else if wanted > layout::PLAYLIST_MAX_HEIGHT as i128 {
                layout::PLAYLIST_MAX_HEIGHT
            } else {
                wanted as u32
            };
        }
    }
}

/// The space kept free beside a row's texts.
pub const ROW_PAD: u32 = 3;

/// The size of a drawn text.
#[derive(Clone, Copy, Debug, PartialEq, Eq, Structural)]
pub struct TextSize {
    pub width: u32,
    pub height: u32,
}

/// Where a row and its texts go.
#[derive(Clone, Copy, Debug, PartialEq, Eq, Structural)]
pub struct RowPlaces {
    pub line: Area,
    pub title: Area,
    pub duration: Option<Area>,
}

/// The `offset`th line of a list.
pub open spec fn line_of(area: Area, offset: int) -> Area {
    Area {
        x: area.x,
        y: (area.y + offset * layout::PLAYLIST_TRACK_HEIGHT) as u32,
        width: area.width,
        height: layout::PLAYLIST_TRACK_HEIGHT,
    }
}

/// How far down a text of that height stands to be in the middle of a row.
pub open spec fn centred(height: u32) -> int {
    if layout::PLAYLIST_TRACK_HEIGHT > height {
        (layout::PLAYLIST_TRACK_HEIGHT - height) / 2
    } else {
        0
    }
}

/// How wide a title may be beside a duration `taken` wide.
pub open spec fn title_room_of(width: u32, taken: u32) -> int {
    if width > 3 * ROW_PAD + taken {
        width - (3 * ROW_PAD + taken)
    } else {
        0
    }
}

/// How wide a row's title may be: what the duration and the space around both
/// leave of the line.
pub fn title_room(width: u32, taken: u32) -> (room: u32)
    requires
        3 * ROW_PAD + taken <= u32::MAX,
    ensures
        room == title_room_of(width, taken),
{
    let used: u32 = 3 * ROW_PAD + taken;
    if width > used {
        width - used
    } else {
        0
    }
}

fn middle(height: u32) -> (down: u32)
    ensures
        down == centred(height),
{
    if layout::PLAYLIST_TRACK_HEIGHT > height {
        (layout::PLAYLIST_TRACK_HEIGHT - height) / 2
    } else {
        0
    }
}

/// Where the `offset`th visible row goes in the list's area, and its texts in
/// it: the title at the left, cut to its room, the duration at the right.
pub fn row_places(
    area: Area,
    offset: u32,
    title: TextSize,
    room: u32,
    duration: Option<TextSize>,
) -> (p: RowPlaces)
    requires
        area.y + (offset + 2) * layout::PLAYLIST_TRACK_HEIGHT <= u32::MAX,
        area.x + area.width + ROW_PAD <= u32::MAX,
        duration matches Some(d) ==> ROW_PAD + d.width <= area.width,
    ensures
        p.line == line_of(area, offset as int),
        p.title == (Area {
            x: (area.x + ROW_PAD) as u32,
            y: (p.line.y + centred(title.height)) as u32,
            width: if title.width < room {
                title.width
            } else {
                room
            },
            height: title.height,
        }),
        match duration {
            Some(d) => p.duration == Some(
                Area {
                    x: (area.x + area.width - ROW_PAD - d.width) as u32,
                    y: (p.line.y + centred(d.height)) as u32,
                    width: d.width,
                    height: d.height,
                },
            ),
            None => p.duration is None,
        },
{
    let step: u32 = layout::PLAYLIST_TRACK_HEIGHT;
    assert(offset * step + 2 * step == (offset + 2) * step) by (nonlinear_arith);
    assert(offset * step >= 0) by (nonlinear_arith)
        requires
            offset >= 0,
            step >= 0,
    ;
    let line = Area::new(area.x, area.y + offset * step, area.width, step);
    let title_at = Area::new(
        line.x + ROW_PAD,
        line.y + middle(title.height),
        if title.width < room {
            title.width
        } else {
            room
        },
        title.height,
    );
    let duration_at = match duration {
        Some(d) => Some(
            Area::new(
                line.x + line.width - ROW_PAD - d.width,
                line.y + middle(d.height),
                d.width,
                d.height,
            ),
        ),
        None => None,
    };
    RowPlaces { line, title: title_at, duration: duration_at }
}

/// Rows are thirteen pixels high and stand one under the other, as wide as the
/// list; a text in one stands in its middle, a pixel above it where it cannot
/// stand exactly.
pub proof fn lemma_rows_stack(area: Area, offset: int, height: u32)
    requires
        0 <= offset,
        area.y + 13 * (offset + 1) <= u32::MAX,
    ensures
        line_of(area, 0).y == area.y,
        line_of(area, offset + 1).y == line_of(area, offset).y + 13,
        line_of(area, offset).height == 13,
        line_of(area, offset).x == area.x && line_of(area, offset).width == area.width,
        height <= 13 ==> 0 <= 13 - height - 2 * centred(height) <= 1,
        height > 13 ==> centred(height) == 0,
{
}

/// A title, its duration and three pixels at either end and between them fill a
/// row exactly; where they do not fit there is no room for the title.
pub proof fn lemma_title_room(width: u32, taken: u32)
    ensures
        width >= taken + 9 ==> title_room_of(width, taken) + taken + 9 == width,
        width < taken + 9 ==> title_room_of(width, taken) == 0,
{
}

/// The texts of a row do not run into each other: a title that is cut to its
/// room ends before its duration begins.
pub proof fn lemma_texts_apart(area: Area, title: TextSize, duration: TextSize)
    requires
        3 * ROW_PAD + duration.width <= area.width,
    ensures
        ({
            let room = title_room_of(area.width, duration.width);
            let width = if title.width < room {
                title.width as int
            } else {
                room
            };
            area.x + ROW_PAD + width <= area.x + area.width - ROW_PAD - duration.width
        }),
{
}

/// What a double click on a row sends.
pub fn double_click(row: &Row) -> (cmd: PlayerCommand)
    ensures
        cmd == PlayerCommand::PlayAt(row.index),
{
    PlayerCommand::PlayAt(row.index)
}

/// The longest cut of a text that is allowed: `fits[k]` says whether its first
/// `k` characters and an ellipsis fit.
pub open spec fn longest_cut(s: Seq<char>, fits: Seq<bool>, keep: int) -> Seq<char>
    decreases keep,
{
    if keep <= 0 {
        "…"@
    } else if fits[keep - 1] {
        s.take(keep - 1) + "…"@
    } else {
        longest_cut(s, fits, keep - 1)
    }
}

/// A text is cut after as many characters as fit: those that stay fit together
/// with the ellipsis, and one more never does.
pub proof fn lemma_longest_cut(s: Seq<char>, fits: Seq<bool>, k: int)
    requires
        0 <= k < s.len() <= fits.len(),
        fits[k],
        forall|j: int| k < j < s.len() ==> !#[trigger] fits[j],
    ensures
        longest_cut(s, fits, s.len() as int) == s.take(k) + "…"@,
{
    lemma_cut_from(s, fits, k, s.len() as int);
}

proof fn lemma_cut_from(s: Seq<char>, fits: Seq<bool>, k: int, keep: int)
    requires
        0 <= k < keep <= s.len() <= fits.len(),
        fits[k],
        forall|j: int| k < j < keep ==> !#[trigger] fits[j],
    ensures
        longest_cut(s, fits, keep) == s.take(k) + "…"@,
    decreases keep,
{
    if keep - 1 > k {
        assert(!fits[keep - 1]);
        lemma_cut_from(s, fits, k, keep - 1);
    }
}

/// Where not even the first character fits, the ellipsis stands alone.
pub proof fn lemma_cut_to_nothing(s: Seq<char>, fits: Seq<bool>, keep: int)
    requires
        0 <= keep <= s.len() <= fits.len(),
        forall|j: int| 0 <= j < keep ==> !#[trigger] fits[j],
    ensures
        longest_cut(s, fits, keep) == "…"@,
    decreases keep,
{
    if keep > 0 {
        assert(!fits[keep - 1]);
        lemma_cut_to_nothing(s, fits, keep - 1);
    }
}

/// A text cut to what fits, with an ellipsis where it had to be. `whole` says
/// whether all of it fits, and `fits[k]` whether its first `k` characters and
/// an ellipsis do.
pub fn fit(s: &str, whole: bool, fits: &Vec<bool>) -> (cut: String)
    requires
        fits@.len() >= s@.len(),
    ensures
        cut@ == (if whole {
            s@
        } else {
            longest_cut(s@, fits@, s@.len() as int)
        }),
{
    if whole {
        return s.to_owned();
    }
    let v = text::chars(s);
    let mut keep: usize = v.len();
    while keep > 0
        invariant
            keep <= v@.len(),
            v@ == s@,
            !whole,
            fits@.len() >= s@.len(),
            longest_cut(s@, fits@, s@.len() as int) == longest_cut(s@, fits@, keep as int),
        decreases keep,
    {
        keep -= 1;
        if fits[keep] {
            let mut cut = text::piece(&v, 0, keep);
            assert(cut@ =~= s@.take(keep as int));
            cut.append("…");
            assert(longest_cut(s@, fits@, keep + 1) == s@.take(keep as int) + "…"@);
            return cut;
        }
    }
    "…".to_owned()
}

/// Where the frame's tiles go.
pub struct FrameTiles {
    /// Along the top, left of the title and right of it.
    pub top_left: Vec<u32>,
    pub title: u32,
    pub top_right: Vec<u32>,
    /// Down both sides.
    pub sides: Vec<u32>,
    /// The bottom's top edge.
    pub bottom: u32,
}

/// The way that the tiles of a run cover: from `start` to `end` without a gap.
pub open spec fn covers(at: Seq<u32>, start: int, end: int, size: int) -> bool {
    &&& at.len() == layout::tile_count(start, end, size)
    &&& forall|k: int| 0 <= k < at.len() ==> #[trigger] at[k] == start + k * size
}

/// Where the frame's tiles go: the title in the middle, tiles out to the corners
/// on both sides of it, and tiles down to the bottom.
pub fn frame_tiles(height: u32) -> (f: FrameTiles)
    requires
        height >= layout::PLAYLIST_TITLE_HEIGHT + layout::PLAYLIST_BOTTOM_HEIGHT,
    ensures
        covers(f.top_left@, 25, 87, 25),
        f.title == 87,
        covers(f.top_right@, 187, 250, 25),
        covers(
            f.sides@,
            layout::PLAYLIST_TITLE_HEIGHT as int,
            height - layout::PLAYLIST_BOTTOM_HEIGHT,
            layout::PLAYLIST_TILE_HEIGHT as int,
        ),
        f.bottom == height - layout::PLAYLIST_BOTTOM_HEIGHT,
{
    let tile: u32 = layout::PLAYLIST_TILE_WIDTH;
    let inner: u32 = layout::WINDOW_WIDTH - 2 * tile - layout::PLAYLIST_TITLE_WIDTH;
    let left: u32 = inner / 2;
    let right: u32 = inner - left;
    let title: u32 = tile + left;
    let bottom: u32 = height - layout::PLAYLIST_BOTTOM_HEIGHT;
    FrameTiles {
        top_left: tile_positions(tile, title, tile),
        title,
        top_right: tile_positions(
            title + layout::PLAYLIST_TITLE_WIDTH,
            title + layout::PLAYLIST_TITLE_WIDTH + right,
            tile,
        ),
        sides: tile_positions(
            layout::PLAYLIST_TITLE_HEIGHT,
            bottom,
            layout::PLAYLIST_TILE_HEIGHT,
        ),
        bottom,
    }
}

/// What the rolled-up playlist says: the song and its time, and where both go.
pub struct ShadeLine {
    pub name: String,
    pub name_area: Area,
    pub time: String,
    pub time_area: Area,
}

/// A clock is never longer than the bar has room for.
proof fn lemma_clock_length(secs: nat)
    requires
        secs <= u64::MAX,
    ensures
        winamp::clock(secs).len() <= 23,
{
    text::lemma_decimal_length(secs / 60);
    text::lemma_decimal_length(secs % 60);
    reveal_strlit(":");
}

/// What the rolled-up playlist says, where something is loaded.
pub fn shade_line(playback: &PlaybackState) -> (line: Option<ShadeLine>)
    ensures
        line is Some == playback.track is Some,
        line matches Some(l) ==> {
            let time = winamp::clock(bits::whole_of(playback.position_secs));
            let x = layout::WINDOW_WIDTH - 30 - layout::GLYPH_WIDTH * time.len();
            let t = playback.track->0;
            &&& l.time@ == time
            &&& l.name@ == row_label(1, t.artist@, t.title@)
            &&& l.time_area.x == x
            &&& l.time_area.y == 4
            &&& l.time_area.width == layout::GLYPH_WIDTH * time.len()
            &&& l.time_area.height == 6
            &&& l.name_area == (Area { x: 5, y: 4, width: (x - 10) as u32, height: 6 })
        },
{
    match &playback.track {
        None => None,
        Some(t) => {
            let time = winamp::format_duration(playback.position_secs);
            let secs: u64 = playback.position_secs.to_whole();
            proof {
                lemma_clock_length(secs as nat);
            }
            let count: u32 = text::chars(time.as_str()).len() as u32;
            let width: u32 = layout::GLYPH_WIDTH * count;
            let x: u32 = layout::WINDOW_WIDTH - 30 - width;
            Some(
                ShadeLine {
                    name: label(1, t.artist.as_str(), t.title.as_str()),
                    name_area: Area::new(5, 4, x - 10, 6),
                    time,
                    time_area: Area::new(x, 4, width, 6),
                },
            )
        },
    }
}

} // verus!
