//! Search, radio and library responses read into tracks and playlists.
//!
//! YouTube nests its renderers several levels deep and changes the wrappers
//! around them, so the lookups walk the whole tree in document order instead
//! of following one fixed path.

use vstd::prelude::*;

use crate::json;
use crate::json::{all_under, find_all, Json};
use crate::model;
use crate::model::{Playlist, Track};
use crate::text;

verus! {

/// The text of one run, or nothing.
pub open spec fn run_text(run: json::Doc) -> Seq<char> {
    match json::text_member(run, "text"@) {
        Some(t) => t,
        None => Seq::empty(),
    }
}

pub open spec fn joined_texts(runs: Seq<json::Doc>) -> Seq<char>
    decreases runs.len(),
{
    if runs.len() == 0 {
        Seq::empty()
    } else {
        joined_texts(runs.drop_last()) + run_text(runs.last())
    }
}

/// The texts of all runs of a text object, one after another.
pub open spec fn joined_runs(value: json::Doc) -> Seq<char> {
    match json::array_member(value, "runs"@) {
        Some(runs) => joined_texts(runs),
        None => Seq::empty(),
    }
}

/// The texts of the runs between the runs that are a bullet.
pub open spec fn between_bullets(runs: Seq<json::Doc>) -> Seq<Seq<char>>
    decreases runs.len(),
{
    if runs.len() == 0 {
        seq![Seq::empty()]
    } else {
        let before = between_bullets(runs.drop_last());
        let t = run_text(runs.last());
        if text::trimmed(t) == "•"@ {
            before.push(Seq::empty())
        } else {
            before.drop_last().push(before.last() + t)
        }
    }
}

/// The trimmed parts of a text object, which bullets separate.
pub open spec fn bullet_parts(value: json::Doc) -> Seq<Seq<char>> {
    match json::array_member(value, "runs"@) {
        Some(runs) => between_bullets(runs).map_values(|p: Seq<char>| text::trimmed(p)),
        None => Seq::empty(),
    }
}

/// The numbers that the parts read as, if every one is a number.
pub open spec fn part_numbers(parts: Seq<Seq<char>>) -> Option<Seq<nat>>
    decreases parts.len(),
{
    if parts.len() == 0 {
        Some(Seq::empty())
    } else {
        match (
            part_numbers(parts.drop_last()),
            text::unsigned(text::trimmed(parts.last()), u64::MAX as nat),
        ) {
            (Some(ns), Some(n)) => Some(ns.push(n)),
            _ => None,
        }
    }
}

/// The number that `ns` are the base-60 digits of.
pub open spec fn base_sixty(ns: Seq<nat>) -> nat
    decreases ns.len(),
{
    if ns.len() == 0 {
        0
    } else {
        base_sixty(ns.drop_last()) * 60 + ns.last()
    }
}

/// The seconds that `"3:47"` or `"1:02:03"` stands for: one to three numbers
/// between colons, the total within 64 bits.
pub open spec fn duration_of(t: Seq<char>) -> Option<u64> {
    match part_numbers(text::split(text::trimmed(t), ':')) {
        Some(ns) if ns.len() <= 3 && base_sixty(ns) <= u64::MAX => Some(base_sixty(ns) as u64),
        _ => None,
    }
}

/// A thumbnail: its width (zero where none is given) and its address.
pub open spec fn thumb_of(t: json::Doc) -> Option<(i64, Seq<char>)> {
    match json::text_member(t, "url"@) {
        Some(url) => {
            let width = match json::member(t, "width"@) {
                Some(w) => match json::i64_value(w) {
                    Some(n) => n,
                    None => 0,
                },
                None => 0,
            };
            Some((width, url))
        },
        None => None,
    }
}

/// The first of the widest, with `best` standing before the items.
pub open spec fn widest(best: Option<(i64, Seq<char>)>, items: Seq<json::Doc>) -> Option<
    (i64, Seq<char>),
>
    decreases items.len(),
{
    if items.len() == 0 {
        best
    } else {
        let before = widest(best, items.drop_last());
        match (before, thumb_of(items.last())) {
            (Some(b), Some(t)) => if t.0 > b.0 {
                Some(t)
            } else {
                Some(b)
            },
            (None, t) => t,
            (b, None) => b,
        }
    }
}

pub open spec fn widest_of_lists(lists: Seq<json::Doc>) -> Option<(i64, Seq<char>)>
    decreases lists.len(),
{
    if lists.len() == 0 {
        None
    } else {
        let before = widest_of_lists(lists.drop_last());
        match json::array_value(lists.last()) {
            Some(items) => widest(before, items),
            None => before,
        }
    }
}

/// The address of the widest thumbnail anywhere below `value`; of several, the
/// first in document order.
pub open spec fn best_thumbnail(value: json::Doc) -> Option<Seq<char>> {
    match widest_of_lists(json::occurrences(value, "thumbnails"@)) {
        Some(b) => Some(b.1),
        None => None,
    }
}

/// The first text under `key` among the nodes.
pub open spec fn first_text(nodes: Seq<json::Doc>, key: Seq<char>) -> Option<Seq<char>>
    decreases nodes.len(),
{
    if nodes.len() == 0 {
        None
    } else {
        match first_text(nodes.drop_last(), key) {
            Some(t) => Some(t),
            None => json::text_member(nodes.last(), key),
        }
    }
}

/// The video that the first watch endpoint with one leads to.
pub open spec fn watched_video(node: json::Doc) -> Option<Seq<char>> {
    first_text(json::occurrences(node, "watchEndpoint"@), "videoId"@)
}

/// The page that the first browse endpoint with one leads to.
pub open spec fn browsed_page(node: json::Doc) -> Option<Seq<char>> {
    first_text(json::occurrences(node, "browseEndpoint"@), "browseId"@)
}

/// The last duration among the parts after the first.
pub open spec fn last_duration(parts: Seq<Seq<char>>) -> Option<u64>
    decreases parts.len(),
{
    if parts.len() <= 1 {
        None
    } else {
        match duration_of(parts.last()) {
            Some(d) => Some(d),
            None => last_duration(parts.drop_last()),
        }
    }
}

/// The last part after the first that is neither empty nor a duration.
pub open spec fn last_name(parts: Seq<Seq<char>>) -> Option<Seq<char>>
    decreases parts.len(),
{
    if parts.len() <= 1 {
        None
    } else if duration_of(parts.last()) is None && parts.last().len() > 0 {
        Some(parts.last())
    } else {
        last_name(parts.drop_last())
    }
}

/// The first duration that the text of one of the columns reads as.
pub open spec fn first_duration(columns: Seq<json::Doc>) -> Option<u64>
    decreases columns.len(),
{
    if columns.len() == 0 {
        None
    } else {
        match first_duration(columns.drop_last()) {
            Some(d) => Some(d),
            None => duration_of(joined_runs(json::member_or_null(columns.last(), "text"@))),
        }
    }
}

pub open spec fn item_video(item: json::Doc) -> Option<Seq<char>> {
    let named = match json::member(item, "playlistItemData"@) {
        Some(d) => json::text_member(d, "videoId"@),
        None => None,
    };
    if named is Some {
        named
    } else {
        watched_video(item)
    }
}

pub open spec fn column_text(columns: Seq<json::Doc>, i: int) -> Seq<char> {
    joined_runs(json::member_or_null(columns[i], "text"@))
}

/// The track that a search result or a playlist row stands for. It needs a
/// video and a title; the second column holds the artist and then, in any
/// order, album and duration; rows of a playlist keep the album in a third
/// column and the duration in a fixed one.
pub open spec fn search_item(item: json::Doc) -> Option<model::TrackView> {
    let columns = json::occurrences(item, "musicResponsiveListItemFlexColumnRenderer"@);
    match item_video(item) {
        Some(video_id) if video_id.len() > 0 && columns.len() > 0 && column_text(columns, 0).len()
            > 0 => {
            let parts = if columns.len() > 1 {
                bullet_parts(json::member_or_null(columns[1], "text"@))
            } else {
                Seq::empty()
            };
            let album = if last_name(parts) is Some {
                last_name(parts)
            } else if columns.len() > 2 && column_text(columns, 2).len() > 0 && duration_of(
                column_text(columns, 2),
            ) is None {
                Some(column_text(columns, 2))
            } else {
                None
            };
            let duration = if last_duration(parts) is Some {
                last_duration(parts)
            } else {
                first_duration(
                    json::occurrences(item, "musicResponsiveListItemFixedColumnRenderer"@),
                )
            };
            Some(
                model::TrackView {
                    video_id,
                    title: column_text(columns, 0),
                    artist: if parts.len() > 0 {
                        parts[0]
                    } else {
                        Seq::empty()
                    },
                    album,
                    duration_secs: duration,
                    thumb_url: best_thumbnail(json::member_or_null(item, "thumbnail"@)),
                },
            )
        },
        _ => None,
    }
}

/// The track that an entry of the radio queue stands for: a video, a title,
/// and a byline of artist, album and year.
pub open spec fn radio_item(item: json::Doc) -> Option<model::TrackView> {
    let title = joined_runs(json::member_or_null(item, "title"@));
    match json::text_member(item, "videoId"@) {
        Some(video_id) if video_id.len() > 0 && title.len() > 0 => {
            let parts = bullet_parts(json::member_or_null(item, "longBylineText"@));
            Some(
                model::TrackView {
                    video_id,
                    title,
                    artist: if parts.len() > 0 {
                        parts[0]
                    } else {
                        Seq::empty()
                    },
                    album: if parts.len() > 1 && parts[1].len() > 0 {
                        Some(parts[1])
                    } else {
                        None
                    },
                    duration_secs: duration_of(
                        joined_runs(json::member_or_null(item, "lengthText"@)),
                    ),
                    thumb_url: best_thumbnail(json::member_or_null(item, "thumbnail"@)),
                },
            )
        },
        _ => None,
    }
}

/// Whether one of the tracks plays that video.
pub open spec fn has_video(tracks: Seq<model::TrackView>, id: Seq<char>) -> bool {
    exists|i: int| 0 <= i < tracks.len() && (#[trigger] tracks[i]).video_id == id
}

/// The tracks of the items in order, each video once, at most `limit`.
pub open spec fn distinct_tracks(
    found: Seq<Option<model::TrackView>>,
    limit: nat,
) -> Seq<model::TrackView>
    decreases found.len(),
{
    if found.len() == 0 {
        Seq::empty()
    } else {
        let before = distinct_tracks(found.drop_last(), limit);
        match found.last() {
            Some(t) if before.len() < limit && !has_video(before, t.video_id) => before.push(t),
            _ => before,
        }
    }
}

/// The tracks of a search response.
pub open spec fn search_tracks(resp: json::Doc, limit: nat) -> Seq<model::TrackView> {
    distinct_tracks(
        json::occurrences(resp, "musicResponsiveListItemRenderer"@).map_values(
            |i: json::Doc| search_item(i),
        ),
        limit,
    )
}

/// The tracks of a radio response.
pub open spec fn radio_tracks(resp: json::Doc, limit: nat) -> Seq<model::TrackView> {
    distinct_tracks(
        json::occurrences(resp, "playlistPanelVideoRenderer"@).map_values(|i: json::Doc| radio_item(i)),
        limit,
    )
}

/// The id of the playlist that a card opens.
pub open spec fn playlist_id(item: json::Doc) -> Option<Seq<char>> {
    match browsed_page(item) {
        Some(id) if "VL"@.is_prefix_of(id) => Some(id),
        _ => None,
    }
}

/// The name on a playlist's card: its title, or the text of its first column.
pub open spec fn playlist_title(item: json::Doc) -> Seq<char> {
    let title = joined_runs(json::member_or_null(item, "title"@));
    let columns = json::occurrences(item, "musicResponsiveListItemFlexColumnRenderer"@);
    if title.len() > 0 {
        title
    } else if columns.len() > 0 {
        column_text(columns, 0)
    } else {
        Seq::empty()
    }
}

/// The ids met among the cards, each once, in order.
pub open spec fn ids_met(items: Seq<json::Doc>) -> Seq<Seq<char>>
    decreases items.len(),
{
    if items.len() == 0 {
        Seq::empty()
    } else {
        let before = ids_met(items.drop_last());
        match playlist_id(items.last()) {
            Some(id) if !before.contains(id) => before.push(id),
            _ => before,
        }
    }
}

/// The playlists of the cards in order. Only the first card with an id counts,
/// and only if it has a name.
pub open spec fn playlists_of(items: Seq<json::Doc>) -> Seq<model::PlaylistView>
    decreases items.len(),
{
    if items.len() == 0 {
        Seq::empty()
    } else {
        let item = items.last();
        let before = playlists_of(items.drop_last());
        match playlist_id(item) {
            Some(id) if !ids_met(items.drop_last()).contains(id) && playlist_title(item).len() > 0
                => before.push(
                model::PlaylistView {
                    browse_id: id,
                    title: playlist_title(item),
                    subtitle: joined_runs(json::member_or_null(item, "subtitle"@)),
                },
            ),
            _ => before,
        }
    }
}

/// The cards of a library page: the grid's, then the list's.
pub open spec fn playlist_cards(resp: json::Doc) -> Seq<json::Doc> {
    json::occurrences(resp, "musicTwoRowItemRenderer"@) + json::occurrences(
        resp,
        "musicResponsiveListItemRenderer"@,
    )
}

/// A parsed response never names a video twice and never passes the limit.
pub proof fn lemma_tracks_distinct(found: Seq<Option<model::TrackView>>, limit: nat)
    ensures
        distinct_tracks(found, limit).len() <= limit,
        forall|i: int, j: int|
            0 <= i < j < distinct_tracks(found, limit).len() ==> #[trigger] distinct_tracks(
                found,
                limit,
            )[i].video_id != #[trigger] distinct_tracks(found, limit)[j].video_id,
    decreases found.len(),
{
    if found.len() > 0 {
        lemma_tracks_distinct(found.drop_last(), limit);
    }
}

/// Every track of a parsed response comes from one of its items.
pub proof fn lemma_tracks_found(found: Seq<Option<model::TrackView>>, limit: nat)
    ensures
        forall|i: int|
            0 <= i < distinct_tracks(found, limit).len() ==> found.contains(
                Some(#[trigger] distinct_tracks(found, limit)[i]),
            ),
    decreases found.len(),
{
    if found.len() > 0 {
        let shorter = found.drop_last();
        lemma_tracks_found(shorter, limit);
        assert forall|i: int| 0 <= i < distinct_tracks(found, limit).len() implies found.contains(
            Some(#[trigger] distinct_tracks(found, limit)[i]),
        ) by {
            let t = distinct_tracks(found, limit)[i];
            if i < distinct_tracks(shorter, limit).len() {
                assert(shorter.contains(Some(distinct_tracks(shorter, limit)[i])));
                let k = choose|k: int| 0 <= k < shorter.len() && shorter[k] == Some(t);
                assert(found[k] == Some(t));
            } else {
                assert(found[found.len() - 1] == Some(t));
            }
        }
    }
}

/// Whether the text of a run is the bullet that separates the parts.
pub open spec fn is_bullet(run: json::Doc) -> bool {
    json::text_member(run, "text"@) matches Some(t) && text::trimmed(t) == "•"@
}

proof fn lemma_bullet_is_text(run: json::Doc)
    ensures
        is_bullet(run) <==> text::trimmed(run_text(run)) == "•"@,
{
    reveal_strlit("•");
    reveal_with_fuel(text::trim_start, 2);
    reveal_with_fuel(text::trim_end, 2);
    assert("•"@.len() == 1);
    assert(text::trimmed(Seq::<char>::empty()) =~= Seq::<char>::empty());
}

proof fn lemma_between_some(runs: Seq<json::Doc>)
    ensures
        between_bullets(runs).len() > 0,
    decreases runs.len(),
{
    if runs.len() > 0 {
        lemma_between_some(runs.drop_last());
    }
}

proof fn lemma_between_whole(runs: Seq<json::Doc>)
    requires
        forall|i: int| 0 <= i < runs.len() ==> !is_bullet(#[trigger] runs[i]),
    ensures
        between_bullets(runs) == seq![joined_texts(runs)],
    decreases runs.len(),
{
    if runs.len() > 0 {
        let shorter = runs.drop_last();
        assert forall|i: int| 0 <= i < shorter.len() implies !is_bullet(#[trigger] shorter[i]) by {
            assert(shorter[i] == runs[i]);
        }
        lemma_between_whole(shorter);
        assert(!is_bullet(runs[runs.len() - 1]));
        lemma_bullet_is_text(runs.last());
        assert(between_bullets(runs) =~= seq![joined_texts(runs)]);
    }
}

proof fn lemma_between_append(a: Seq<json::Doc>, bullet: json::Doc, b: Seq<json::Doc>)
    requires
        is_bullet(bullet),
    ensures
        between_bullets(a + seq![bullet] + b) == between_bullets(a) + between_bullets(b),
    decreases b.len(),
{
    let whole = a + seq![bullet] + b;
    lemma_bullet_is_text(bullet);
    if b.len() == 0 {
        assert(whole.drop_last() =~= a);
        assert(whole.last() == bullet);
        assert(between_bullets(whole) =~= between_bullets(a) + between_bullets(b));
    } else {
        lemma_between_append(a, bullet, b.drop_last());
        lemma_between_some(b.drop_last());
        assert(whole.drop_last() =~= a + seq![bullet] + b.drop_last());
        assert(whole.last() == b.last());
        assert(between_bullets(whole) =~= between_bullets(a) + between_bullets(b));
    }
}

/// The text of a text object is the texts of its runs in order: nothing for no
/// runs or for a run without text, the text itself for a single run, and for
/// runs in two groups the text of the one followed by the text of the other.
pub proof fn lemma_runs_text(whole: json::Doc, left: json::Doc, right: json::Doc, a: Seq<json::Doc>, b: Seq<json::Doc>)
    requires
        json::array_member(whole, "runs"@) == Some(a + b),
        json::array_member(left, "runs"@) == Some(a),
        json::array_member(right, "runs"@) == Some(b),
    ensures
        joined_runs(whole) == joined_runs(left) + joined_runs(right),
        a.len() == 0 ==> joined_runs(left).len() == 0,
        a.len() == 1 ==> joined_runs(left) == match json::text_member(a[0], "text"@) {
            Some(t) => t,
            None => Seq::empty(),
        },
    decreases b.len(),
{
    lemma_joined_append(a, b);
    reveal_with_fuel(joined_texts, 2);
    if a.len() == 1 {
        assert(a.drop_last() =~= Seq::<json::Doc>::empty());
        assert(joined_texts(a) =~= run_text(a[0]));
    }
}

proof fn lemma_joined_append(a: Seq<json::Doc>, b: Seq<json::Doc>)
    ensures
        joined_texts(a + b) == joined_texts(a) + joined_texts(b),
    decreases b.len(),
{
    if b.len() == 0 {
        assert(a + b =~= a);
        assert(joined_texts(a) + joined_texts(b) =~= joined_texts(a));
    } else {
        lemma_joined_append(a, b.drop_last());
        assert((a + b).drop_last() =~= a + b.drop_last());
        assert(joined_texts(a + b) =~= joined_texts(a) + joined_texts(b));
    }
}

/// Without a bullet there is one part, and nothing of the text is lost: it is
/// the whole text, trimmed.
pub proof fn lemma_one_part(value: json::Doc, runs: Seq<json::Doc>)
    requires
        json::array_member(value, "runs"@) == Some(runs),
        forall|i: int| 0 <= i < runs.len() ==> !is_bullet(#[trigger] runs[i]),
    ensures
        bullet_parts(value) == seq![text::trimmed(joined_runs(value))],
{
    lemma_between_whole(runs);
    assert(bullet_parts(value) =~= seq![text::trimmed(joined_runs(value))]);
}

/// A bullet parts what stands before it from what follows: the parts of the one
/// and then the parts of the other.
pub proof fn lemma_parts_of_both(
    whole: json::Doc,
    left: json::Doc,
    right: json::Doc,
    a: Seq<json::Doc>,
    bullet: json::Doc,
    b: Seq<json::Doc>,
)
    requires
        is_bullet(bullet),
        json::array_member(whole, "runs"@) == Some(a + seq![bullet] + b),
        json::array_member(left, "runs"@) == Some(a),
        json::array_member(right, "runs"@) == Some(b),
    ensures
        bullet_parts(whole) == bullet_parts(left) + bullet_parts(right),
{
    lemma_between_append(a, bullet, b);
    assert(bullet_parts(whole) =~= bullet_parts(left) + bullet_parts(right));
}

/// What is no text object has no parts, and one without runs has a single empty
/// one.
pub proof fn lemma_no_runs(value: json::Doc)
    ensures
        json::array_member(value, "runs"@) is None ==> bullet_parts(value).len() == 0
            && joined_runs(value).len() == 0,
        json::array_member(value, "runs"@) == Some(Seq::<json::Doc>::empty())
            ==> bullet_parts(value) == seq![Seq::<char>::empty()],
{
    if json::array_member(value, "runs"@) == Some(Seq::<json::Doc>::empty()) {
        lemma_one_part(value, Seq::empty());
        reveal_with_fuel(text::trim_start, 2);
        reveal_with_fuel(text::trim_end, 2);
    }
}

/// An entry of the radio queue with a video, a title and a byline: the first
/// part of the byline is the artist, the second, unless it is empty, the album,
/// and a byline of one part names no album. Video, title and length stand in
/// fields of their own.
pub proof fn lemma_radio_entry(item: json::Doc, video: Seq<char>, title: json::Doc, byline: json::Doc)
    requires
        json::text_member(item, "videoId"@) == Some(video),
        json::member(item, "title"@) == Some(title),
        json::member(item, "longBylineText"@) == Some(byline),
        video.len() > 0,
        joined_runs(title).len() > 0,
    ensures
        radio_item(item) is Some,
        radio_item(item)->0.video_id == video,
        radio_item(item)->0.title == joined_runs(title),
        bullet_parts(byline).len() >= 1 ==> radio_item(item)->0.artist == bullet_parts(byline)[0],
        bullet_parts(byline).len() >= 2 && bullet_parts(byline)[1].len() > 0
            ==> radio_item(item)->0.album == Some(bullet_parts(byline)[1]),
        bullet_parts(byline).len() >= 2 && bullet_parts(byline)[1].len() == 0
            ==> radio_item(item)->0.album is None,
        bullet_parts(byline).len() == 1 ==> radio_item(item)->0.album is None,
        bullet_parts(byline).len() == 0 ==> radio_item(item)->0.artist.len() == 0
            && radio_item(item)->0.album is None,
        json::member(item, "lengthText"@) matches Some(length) ==> radio_item(item)->0.duration_secs
            == duration_of(joined_runs(length)),
        json::member(item, "lengthText"@) is None ==> radio_item(item)->0.duration_secs is None,
        json::member(item, "thumbnail"@) matches Some(thumbnail) ==> radio_item(item)->0.thumb_url
            == best_thumbnail(thumbnail),
        json::member(item, "thumbnail"@) is None ==> radio_item(item)->0.thumb_url is None,
{
    lemma_nothing_in_null();
}

/// The byline "artist • album": the run before the bullet names the artist, the
/// run after it the album.
pub proof fn lemma_radio_byline(
    item: json::Doc,
    video: Seq<char>,
    title: json::Doc,
    byline: json::Doc,
    runs: Seq<json::Doc>,
    artist: Seq<char>,
    album: Seq<char>,
)
    requires
        json::text_member(item, "videoId"@) == Some(video),
        json::member(item, "title"@) == Some(title),
        json::member(item, "longBylineText"@) == Some(byline),
        video.len() > 0,
        joined_runs(title).len() > 0,
        json::array_member(byline, "runs"@) == Some(runs),
        runs.len() == 3,
        json::text_member(runs[0], "text"@) == Some(artist),
        is_bullet(runs[1]),
        json::text_member(runs[2], "text"@) == Some(album),
        !is_bullet(runs[0]),
        !is_bullet(runs[2]),
        text::trimmed(album).len() > 0,
    ensures
        radio_item(item) is Some,
        radio_item(item)->0.artist == text::trimmed(artist),
        radio_item(item)->0.album == Some(text::trimmed(album)),
{
    lemma_radio_entry(item, video, title, byline);
    let a = seq![runs[0]];
    let b = seq![runs[2]];
    assert(runs =~= a + seq![runs[1]] + b);
    lemma_between_append(a, runs[1], b);
    lemma_between_whole(a);
    lemma_between_whole(b);
    reveal_with_fuel(joined_texts, 2);
    assert(a.drop_last() =~= Seq::<json::Doc>::empty());
    assert(b.drop_last() =~= Seq::<json::Doc>::empty());
    assert(joined_texts(a) =~= artist);
    assert(joined_texts(b) =~= album);
    assert(between_bullets(runs) =~= seq![artist, album]);
}

proof fn lemma_nothing_in_null()
    ensures
        joined_runs(json::Doc::Null).len() == 0,
        bullet_parts(json::Doc::Null).len() == 0,
        duration_of(joined_runs(json::Doc::Null)) is None,
        best_thumbnail(json::Doc::Null) is None,
{
    lemma_no_duration_in_nothing();
}

/// No text is no duration.
pub proof fn lemma_no_duration_in_nothing()
    ensures
        duration_of(Seq::<char>::empty()) is None,
{
    let e = Seq::<char>::empty();
    reveal_with_fuel(text::trim_start, 2);
    reveal_with_fuel(text::trim_end, 2);
    reveal_with_fuel(part_numbers, 2);
    assert(text::trimmed(e) =~= e);
    assert(text::split(e, ':') =~= seq![e]);
    assert(seq![e].drop_last() =~= Seq::<Seq<char>>::empty());
    assert(text::natural(e) is None);
}

proof fn lemma_digits_stand(t: Seq<char>)
    requires
        text::natural(t) is Some,
    ensures
        t.len() > 0,
        text::trimmed(t) == t,
        !t.contains(':'),
        !text::is_white(t[0]),
        !text::is_white(t.last()),
        text::unsigned(t, u64::MAX as nat) == if text::natural(t)->0 <= u64::MAX {
            text::natural(t)
        } else {
            None
        },
{
    assert(text::is_digit(t[0]));
    assert(text::is_digit(t[t.len() - 1]));
    if t.contains(':') {
        let i = choose|i: int| 0 <= i < t.len() && t[i] == ':';
        assert(text::is_digit(t[i]));
    }
}

/// `"3:47"` is three minutes and forty-seven seconds: for all numbers of minutes
/// and seconds, however they are padded with zeros, the duration is sixty times
/// the one and the other; with hours before them, sixty times the minutes that
/// they make. A single number is seconds.
pub proof fn lemma_duration_reads(h: Seq<char>, m: Seq<char>, s: Seq<char>)
    requires
        text::natural(h) is Some,
        text::natural(m) is Some,
        text::natural(s) is Some,
        3600 * text::natural(h)->0 + 60 * text::natural(m)->0 + text::natural(s)->0 <= u64::MAX,
    ensures
        duration_of(s) == Some(text::natural(s)->0 as u64),
        duration_of(m + seq![':'] + s) == Some(
            (60 * text::natural(m)->0 + text::natural(s)->0) as u64,
        ),
        duration_of(h + seq![':'] + m + seq![':'] + s) == Some(
            (3600 * text::natural(h)->0 + 60 * text::natural(m)->0 + text::natural(s)->0) as u64,
        ),
{
    lemma_digits_stand(h);
    lemma_digits_stand(m);
    lemma_digits_stand(s);
    let hn = text::natural(h)->0;
    let mn = text::natural(m)->0;
    let sn = text::natural(s)->0;
    text::lemma_split_whole(h, ':');
    text::lemma_split_whole(m, ':');
    text::lemma_split_whole(s, ':');
    reveal_with_fuel(part_numbers, 4);
    reveal_with_fuel(base_sixty, 4);
    let none = Seq::<Seq<char>>::empty();
    let zero = Seq::<nat>::empty();
    let one = seq![s];
    assert(one.drop_last() =~= none);
    assert(part_numbers(one) == Some(zero.push(sn)));
    assert(zero.push(sn).drop_last() =~= zero);
    assert(base_sixty(zero.push(sn)) == sn);
    let ms = m + seq![':'] + s;
    text::lemma_split_append(m, s, ':');
    assert(text::split(ms, ':') =~= seq![m, s]);
    assert(ms[0] == m[0] && ms.last() == s.last());
    assert(text::trimmed(ms) == ms);
    assert(seq![m, s].drop_last() =~= seq![m]);
    assert(seq![m].drop_last() =~= none);
    assert(part_numbers(seq![m]) == Some(zero.push(mn)));
    assert(part_numbers(seq![m, s]) == Some(zero.push(mn).push(sn)));
    assert(zero.push(mn).push(sn).drop_last() =~= zero.push(mn));
    assert(zero.push(mn).drop_last() =~= zero);
    assert(base_sixty(zero.push(mn)) == mn);
    assert(base_sixty(zero.push(mn).push(sn)) == 60 * mn + sn);
    let hms = h + seq![':'] + m + seq![':'] + s;
    let hm = h + seq![':'] + m;
    text::lemma_split_append(h, m, ':');
    text::lemma_split_append(hm, s, ':');
    assert(text::split(hms, ':') =~= seq![h, m, s]);
    assert(hms[0] == h[0] && hms.last() == s.last());
    assert(text::trimmed(hms) == hms);
    assert(seq![h, m, s].drop_last() =~= seq![h, m]);
    assert(seq![h, m].drop_last() =~= seq![h]);
    assert(seq![h].drop_last() =~= none);
    assert(part_numbers(seq![h]) == Some(zero.push(hn)));
    assert(part_numbers(seq![h, m]) == Some(zero.push(hn).push(mn)));
    assert(part_numbers(seq![h, m, s]) == Some(zero.push(hn).push(mn).push(sn)));
    assert(zero.push(hn).push(mn).push(sn).drop_last() =~= zero.push(hn).push(mn));
    assert(zero.push(hn).push(mn).drop_last() =~= zero.push(hn));
    assert(zero.push(hn).drop_last() =~= zero);
    assert(base_sixty(zero.push(hn)) == hn);
    assert(base_sixty(zero.push(hn).push(mn)) == 60 * hn + mn);
    assert(base_sixty(zero.push(hn).push(mn).push(sn)) == 3600 * hn + 60 * mn + sn);
}

proof fn lemma_numbers_all(parts: Seq<Seq<char>>)
    ensures
        part_numbers(parts) is Some ==> part_numbers(parts)->0.len() == parts.len(),
        part_numbers(parts) is Some <==> forall|i: int|
            0 <= i < parts.len() ==> text::unsigned(
                text::trimmed(#[trigger] parts[i]),
                u64::MAX as nat,
            ) is Some,
    decreases parts.len(),
{
    if parts.len() > 0 {
        let shorter = parts.drop_last();
        lemma_numbers_all(shorter);
        if part_numbers(shorter) is None {
            let i = choose|i: int|
                0 <= i < shorter.len() && text::unsigned(
                    text::trimmed(#[trigger] shorter[i]),
                    u64::MAX as nat,
                ) is None;
            assert(parts[i] == shorter[i]);
        }
        assert(parts[parts.len() - 1] == parts.last());
        if part_numbers(parts) is Some {
            assert forall|i: int| 0 <= i < parts.len() implies text::unsigned(
                text::trimmed(#[trigger] parts[i]),
                u64::MAX as nat,
            ) is Some by {
                if i < shorter.len() {
                    assert(shorter[i] == parts[i]);
                }
            }
        }
    }
}

/// What has more than three pieces between its colons, or a piece that is no
/// number, is no duration.
pub proof fn lemma_no_duration(t: Seq<char>, i: int)
    requires
        0 <= i < text::split(text::trimmed(t), ':').len(),
        text::split(text::trimmed(t), ':').len() > 3 || text::unsigned(
            text::trimmed(text::split(text::trimmed(t), ':')[i]),
            u64::MAX as nat,
        ) is None,
    ensures
        duration_of(t) is None,
{
    lemma_numbers_all(text::split(text::trimmed(t), ':'));
}

/// The second column of a search result: what stands first in it is the artist,
/// and behind that, in whatever order, the one part that reads as a duration is
/// the length and the one that does not is the album. The video and the title
/// come from the row's own fields.
pub proof fn lemma_search_row(item: json::Doc, video: Seq<char>, columns: Seq<json::Doc>)
    requires
        columns == json::occurrences(item, "musicResponsiveListItemFlexColumnRenderer"@),
        json::text_member(json::member_or_null(item, "playlistItemData"@), "videoId"@) == Some(
            video,
        ),
        video.len() > 0,
        columns.len() >= 2,
        joined_runs(json::member_or_null(columns[0], "text"@)).len() > 0,
    ensures
        ({
            let parts = bullet_parts(json::member_or_null(columns[1], "text"@));
            let track = search_item(item)->0;
            &&& search_item(item) is Some
            &&& track.video_id == video
            &&& track.title == joined_runs(json::member_or_null(columns[0], "text"@))
            &&& parts.len() >= 1 ==> track.artist == parts[0]
            &&& parts.len() == 2 && parts[1].len() > 0 && duration_of(parts[1]) is None
                ==> track.album == Some(parts[1])
            &&& parts.len() == 2 && duration_of(parts[1]) is Some ==> track.duration_secs
                == duration_of(parts[1])
            &&& parts.len() == 3 && parts[1].len() > 0 && duration_of(parts[1]) is None
                && duration_of(parts[2]) is Some ==> track.album == Some(parts[1])
                && track.duration_secs == duration_of(parts[2])
            &&& parts.len() == 3 && duration_of(parts[1]) is Some && parts[2].len() > 0
                && duration_of(parts[2]) is None ==> track.album == Some(parts[2])
                && track.duration_secs == duration_of(parts[1])
        }),
{
    let parts = bullet_parts(json::member_or_null(columns[1], "text"@));
    reveal_with_fuel(last_name, 3);
    reveal_with_fuel(last_duration, 3);
    if parts.len() == 3 {
        assert(parts.drop_last().last() == parts[1]);
        assert(parts.drop_last().drop_last().len() == 1);
    }
    if parts.len() == 2 {
        assert(parts.drop_last().len() == 1);
    }
}

/// A playlist's row keeps the album in the third column and the length in a
/// fixed one: where the second column holds the artist alone, they are read
/// there.
pub proof fn lemma_playlist_row(item: json::Doc, columns: Seq<json::Doc>, fixed: Seq<json::Doc>)
    requires
        columns == json::occurrences(item, "musicResponsiveListItemFlexColumnRenderer"@),
        fixed == json::occurrences(item, "musicResponsiveListItemFixedColumnRenderer"@),
        search_item(item) is Some,
        columns.len() >= 3,
        bullet_parts(json::member_or_null(columns[1], "text"@)).len() <= 1,
        joined_runs(json::member_or_null(columns[2], "text"@)).len() > 0,
        duration_of(joined_runs(json::member_or_null(columns[2], "text"@))) is None,
        fixed.len() == 1,
    ensures
        search_item(item)->0.album == Some(joined_runs(json::member_or_null(columns[2], "text"@))),
        search_item(item)->0.duration_secs == duration_of(
            joined_runs(json::member_or_null(fixed[0], "text"@)),
        ),
{
    reveal_with_fuel(first_duration, 2);
    assert(fixed.drop_last() =~= Seq::<json::Doc>::empty());
}

/// A row without a video, without columns or without a title is no track.
pub proof fn lemma_no_search_row(item: json::Doc, columns: Seq<json::Doc>)
    requires
        columns == json::occurrences(item, "musicResponsiveListItemFlexColumnRenderer"@),
    ensures
        columns.len() == 0 ==> search_item(item) is None,
        columns.len() > 0 && joined_runs(json::member_or_null(columns[0], "text"@)).len() == 0
            ==> search_item(item) is None,
        item_video(item) is None ==> search_item(item) is None,
{
}

/// The text found first: that of the first node that has one under the key.
pub proof fn lemma_first_text(nodes: Seq<json::Doc>, key: Seq<char>)
    ensures
        match first_text(nodes, key) {
            Some(t) => exists|i: int|
                0 <= i < nodes.len() && json::text_member(#[trigger] nodes[i], key) == Some(t)
                    && forall|j: int|
                    0 <= j < i ==> json::text_member(#[trigger] nodes[j], key) is None,
            None => forall|i: int|
                0 <= i < nodes.len() ==> json::text_member(#[trigger] nodes[i], key) is None,
        },
    decreases nodes.len(),
{
    if nodes.len() > 0 {
        let shorter = nodes.drop_last();
        lemma_first_text(shorter, key);
        match first_text(shorter, key) {
            Some(t) => {
                let i = choose|i: int|
                    0 <= i < shorter.len() && json::text_member(#[trigger] shorter[i], key) == Some(
                        t,
                    ) && forall|j: int|
                        0 <= j < i ==> json::text_member(#[trigger] shorter[j], key) is None;
                assert(nodes[i] == shorter[i]);
                assert forall|j: int| 0 <= j < i implies json::text_member(
                    #[trigger] nodes[j],
                    key,
                ) is None by {
                    assert(nodes[j] == shorter[j]);
                }
            },
            None => {
                assert forall|j: int| 0 <= j < shorter.len() implies json::text_member(
                    #[trigger] nodes[j],
                    key,
                ) is None by {
                    assert(nodes[j] == shorter[j]);
                }
                assert(nodes[nodes.len() - 1] == nodes.last());
            },
        }
    }
}

/// The width that a thumbnail states, or zero.
pub open spec fn stated_width(t: json::Doc) -> int {
    match json::i64_value(json::member_or_null(t, "width"@)) {
        Some(n) => n as int,
        None => 0,
    }
}

/// The thumbnail taken from a list has an address, is at least as wide as every
/// other that has one, and is wider than those before it; none is taken only
/// where no entry has an address.
pub proof fn lemma_widest(items: Seq<json::Doc>)
    ensures
        match widest(None, items) {
            Some(b) => exists|i: int|
                0 <= i < items.len() && json::text_member(#[trigger] items[i], "url"@) == Some(b.1)
                    && stated_width(items[i]) == b.0 && forall|j: int|
                    0 <= j < items.len() && json::text_member(#[trigger] items[j], "url"@) is Some
                        ==> stated_width(items[j]) <= b.0 && (j < i ==> stated_width(items[j])
                        < b.0),
            None => forall|i: int|
                0 <= i < items.len() ==> json::text_member(#[trigger] items[i], "url"@) is None,
        },
    decreases items.len(),
{
    if items.len() > 0 {
        let shorter = items.drop_last();
        let n = items.len() - 1;
        lemma_widest(shorter);
        assert(items[n] == items.last());
        assert forall|j: int| 0 <= j < n implies #[trigger] items[j] == shorter[j] by {}
        match widest(None, shorter) {
            Some(b) => {
                let i = choose|i: int|
                    0 <= i < shorter.len() && json::text_member(#[trigger] shorter[i], "url"@)
                        == Some(b.1) && stated_width(shorter[i]) == b.0 && forall|j: int|
                        0 <= j < shorter.len() && json::text_member(
                            #[trigger] shorter[j],
                            "url"@,
                        ) is Some ==> stated_width(shorter[j]) <= b.0 && (j < i ==> stated_width(
                            shorter[j],
                        ) < b.0);
                assert(items[i] == shorter[i]);
                if json::text_member(items[n], "url"@) is Some && stated_width(items[n]) > b.0 {
                    assert(widest(None, items) == thumb_of(items[n]));
                    assert forall|j: int|
                        0 <= j < items.len() && json::text_member(
                            #[trigger] items[j],
                            "url"@,
                        ) is Some implies stated_width(items[j]) <= stated_width(items[n]) && (j < n
                        ==> stated_width(items[j]) < stated_width(items[n])) by {
                        if j < n {
                            assert(stated_width(shorter[j]) <= b.0);
                        }
                    }
                } else {
                    assert(widest(None, items) == Some(b));
                    assert forall|j: int|
                        0 <= j < items.len() && json::text_member(
                            #[trigger] items[j],
                            "url"@,
                        ) is Some implies stated_width(items[j]) <= b.0 && (j < i ==> stated_width(
                        items[j],
                    ) < b.0) by {
                        if j < n {
                            assert(stated_width(shorter[j]) <= b.0);
                        }
                    }
                }
            },
            None => {
                assert forall|j: int| 0 <= j < n implies json::text_member(
                    #[trigger] items[j],
                    "url"@,
                ) is None by {
                    assert(items[j] == shorter[j]);
                }
            },
        }
    }
}

/// The thumbnail of a value with one list of them is the widest of that list.
pub proof fn lemma_best_thumbnail(value: json::Doc, items: Seq<json::Doc>)
    requires
        json::occurrences(value, "thumbnails"@) == seq![json::Doc::Array(items)],
    ensures
        match widest(None, items) {
            Some(b) => best_thumbnail(value) == Some(b.1),
            None => best_thumbnail(value) is None,
        },
{
    let lists = seq![json::Doc::Array(items)];
    reveal_with_fuel(widest_of_lists, 2);
    assert(lists.drop_last() =~= Seq::<json::Doc>::empty());
}

/// Tracks that all differ come out as they went in, as far as the limit goes.
pub proof fn lemma_tracks_all_kept(found: Seq<Option<model::TrackView>>, limit: nat)
    requires
        forall|i: int| 0 <= i < found.len() ==> #[trigger] found[i] is Some,
        forall|i: int, j: int|
            0 <= i < j < found.len() ==> (#[trigger] found[i])->0.video_id != (
            #[trigger] found[j])->0.video_id,
        found.len() <= limit,
    ensures
        distinct_tracks(found, limit) == found.map_values(
            |t: Option<model::TrackView>| t->0,
        ),
    decreases found.len(),
{
    let kept = found.map_values(|t: Option<model::TrackView>| t->0);
    if found.len() > 0 {
        let shorter = found.drop_last();
        assert forall|i: int| 0 <= i < shorter.len() implies #[trigger] shorter[i] is Some by {
            assert(shorter[i] == found[i]);
        }
        assert forall|i: int, j: int| 0 <= i < j < shorter.len() implies (
        #[trigger] shorter[i])->0.video_id != (#[trigger] shorter[j])->0.video_id by {
            assert(shorter[i] == found[i] && shorter[j] == found[j]);
        }
        lemma_tracks_all_kept(shorter, limit);
        let before = distinct_tracks(shorter, limit);
        let n = found.len() - 1;
        assert(found[n] is Some);
        assert(before.len() == n);
        if has_video(before, found[n]->0.video_id) {
            let i = choose|i: int|
                0 <= i < before.len() && (#[trigger] before[i]).video_id == found[n]->0.video_id;
            assert(before[i] == shorter[i]->0);
            assert(shorter[i] == found[i]);
        }
        assert(distinct_tracks(found, limit) =~= kept);
    } else {
        assert(distinct_tracks(found, limit) =~= kept);
    }
}

/// One item more changes a parsed response by at most that item's track, put at
/// the end: an item that is no track, a video already there, and what comes
/// after the limit are left out, and every other one is taken.
pub proof fn lemma_one_track_more(
    found: Seq<Option<model::TrackView>>,
    next: Option<model::TrackView>,
    limit: nat,
)
    ensures
        next is None ==> distinct_tracks(found.push(next), limit) == distinct_tracks(found, limit),
        next matches Some(t) ==> {
            let before = distinct_tracks(found, limit);
            let there = exists|i: int|
                0 <= i < before.len() && (#[trigger] before[i]).video_id == t.video_id;
            &&& there || before.len() >= limit ==> distinct_tracks(found.push(next), limit)
                == before
            &&& !there && before.len() < limit ==> distinct_tracks(found.push(next), limit)
                == before + seq![t]
        },
{
    assert(found.push(next).drop_last() =~= found);
    if next is Some {
        let before = distinct_tracks(found, limit);
        assert(before.push(next->0) =~= before + seq![next->0]);
    }
}

/// One card more adds at most one playlist, at the end: the one that it opens,
/// if the address of its page begins with "VL", no card before it opened the
/// same, and it has a name.
pub proof fn lemma_one_card_more(items: Seq<json::Doc>, card: json::Doc, title: json::Doc, page: Seq<char>)
    requires
        first_text(json::occurrences(card, "browseEndpoint"@), "browseId"@) == Some(page),
        json::member(card, "title"@) == Some(title),
        joined_runs(title).len() > 0,
    ensures
        ({
            let met = exists|i: int|
                0 <= i < items.len() && first_text(
                    json::occurrences(#[trigger] items[i], "browseEndpoint"@),
                    "browseId"@,
                ) == Some(page);
            let before = playlists_of(items);
            let after = playlists_of(items.push(card));
            &&& !"VL"@.is_prefix_of(page) || met ==> after == before
            &&& "VL"@.is_prefix_of(page) && !met ==> after.len() == before.len() + 1
                && after.drop_last() == before && after.last().browse_id == page
                && after.last().title == joined_runs(title)
                && after.last().subtitle == joined_runs(json::member_or_null(card, "subtitle"@))
        }),
{
    assert(items.push(card).drop_last() =~= items);
    lemma_ids_met(items, page);
    assert(playlist_title(card) == joined_runs(title));
    if "VL"@.is_prefix_of(page) && !ids_met(items).contains(page) {
        assert(playlists_of(items.push(card)).drop_last() =~= playlists_of(items));
    }
}

proof fn lemma_ids_met(items: Seq<json::Doc>, page: Seq<char>)
    ensures
        ids_met(items).contains(page) <==> "VL"@.is_prefix_of(page) && exists|i: int|
            0 <= i < items.len() && first_text(
                json::occurrences(#[trigger] items[i], "browseEndpoint"@),
                "browseId"@,
            ) == Some(page),
    decreases items.len(),
{
    if items.len() > 0 {
        let shorter = items.drop_last();
        lemma_ids_met(shorter, page);
        let before = ids_met(shorter);
        let n = items.len() - 1;
        assert(items[n] == items.last());
        if ids_met(items).contains(page) {
            if before.contains(page) {
                let i = choose|i: int|
                    0 <= i < shorter.len() && first_text(
                        json::occurrences(#[trigger] shorter[i], "browseEndpoint"@),
                        "browseId"@,
                    ) == Some(page);
                assert(items[i] == shorter[i]);
            } else {
                let k = choose|k: int| 0 <= k < ids_met(items).len() && ids_met(items)[k] == page;
                assert(k == before.len()) by {
                    if k < before.len() {
                        assert(before[k] == page);
                    }
                }
                assert(playlist_id(items[n]) == Some(page));
            }
        }
        if "VL"@.is_prefix_of(page) && exists|i: int|
            0 <= i < items.len() && first_text(
                json::occurrences(#[trigger] items[i], "browseEndpoint"@),
                "browseId"@,
            ) == Some(page) {
            let i = choose|i: int|
                0 <= i < items.len() && first_text(
                    json::occurrences(#[trigger] items[i], "browseEndpoint"@),
                    "browseId"@,
                ) == Some(page);
            if i < n {
                assert(shorter[i] == items[i]);
                assert(before.contains(page));
                let k = choose|k: int| 0 <= k < before.len() && before[k] == page;
                assert(ids_met(items)[k] == page);
            } else {
                assert(playlist_id(items.last()) == Some(page));
                if !before.contains(page) {
                    assert(ids_met(items)[before.len() as int] == page);
                } else {
                    assert(ids_met(items) == before);
                }
            }
        }
    }
}

/// An entry of the radio queue without a video, with an empty one or without a
/// title is no track.
pub proof fn lemma_no_radio_entry(item: json::Doc)
    ensures
        json::text_member(item, "videoId"@) is None ==> radio_item(item) is None,
        json::text_member(item, "videoId"@) == Some(Seq::<char>::empty()) ==> radio_item(
            item,
        ) is None,
        json::member(item, "title"@) is None ==> radio_item(item) is None,
        json::member(item, "title"@) matches Some(title) ==> joined_runs(title).len() == 0
            ==> radio_item(item) is None,
{
    lemma_nothing_in_null();
}

/// The video of a row is the one that its playlist data names, and where they
/// name none the one that its first watch endpoint with a video leads to.
pub proof fn lemma_item_video(item: json::Doc, data: json::Doc)
    ensures
        json::member(item, "playlistItemData"@) == Some(data) && json::text_member(
            data,
            "videoId"@,
        ) is Some ==> item_video(item) == json::text_member(data, "videoId"@),
        json::member(item, "playlistItemData"@) is None ==> item_video(item) == first_text(
            json::occurrences(item, "watchEndpoint"@),
            "videoId"@,
        ),
        json::member(item, "playlistItemData"@) == Some(data) && json::text_member(
            data,
            "videoId"@,
        ) is None ==> item_video(item) == first_text(
            json::occurrences(item, "watchEndpoint"@),
            "videoId"@,
        ),
{
}

/// A response with one row, or one entry, has its track and no other; one
/// without any has none.
pub proof fn lemma_one_row(resp: json::Doc, item: json::Doc, limit: nat)
    requires
        limit > 0,
    ensures
        json::occurrences(resp, "musicResponsiveListItemRenderer"@) == seq![item] && search_item(
            item,
        ) is Some ==> search_tracks(resp, limit) == seq![search_item(item)->0],
        json::occurrences(resp, "playlistPanelVideoRenderer"@) == seq![item] && radio_item(
            item,
        ) is Some ==> radio_tracks(resp, limit) == seq![radio_item(item)->0],
        json::occurrences(resp, "musicResponsiveListItemRenderer"@).len() == 0 ==> search_tracks(
            resp,
            limit,
        ).len() == 0,
        json::occurrences(resp, "playlistPanelVideoRenderer"@).len() == 0 ==> radio_tracks(
            resp,
            limit,
        ).len() == 0,
{
    let none = Seq::<Option<model::TrackView>>::empty();
    let a = search_item(item);
    let b = radio_item(item);
    lemma_one_track_more(none, a, limit);
    lemma_one_track_more(none, b, limit);
    assert(distinct_tracks(none, limit).len() == 0);
    assert(seq![item].map_values(|i: json::Doc| search_item(i)) =~= none.push(a));
    assert(seq![item].map_values(|i: json::Doc| radio_item(i)) =~= none.push(b));
    if a is Some {
        assert(distinct_tracks(none.push(a), limit) =~= seq![a->0]);
    }
    if b is Some {
        assert(distinct_tracks(none.push(b), limit) =~= seq![b->0]);
    }
}

/// The playlists of a library page come from the cards of its grid and then
/// from the rows of its list.
pub proof fn lemma_library_cards(resp: json::Doc)
    ensures
        playlist_cards(resp) == json::occurrences(resp, "musicTwoRowItemRenderer"@)
            + json::occurrences(resp, "musicResponsiveListItemRenderer"@),
        playlists_of(Seq::empty()).len() == 0,
{
}

/// A card without a title of its own is named by the text of its first column.
pub proof fn lemma_card_title(card: json::Doc, columns: Seq<json::Doc>)
    requires
        columns == json::occurrences(card, "musicResponsiveListItemFlexColumnRenderer"@),
        json::member(card, "title"@) is None,
    ensures
        columns.len() > 0 ==> playlist_title(card) == joined_runs(
            json::member_or_null(columns[0], "text"@),
        ),
        columns.len() == 0 ==> playlist_title(card).len() == 0,
{
    lemma_nothing_in_null();
}

/// Album and length among any number of parts: the album is the last part after
/// the first that has a name and is no duration, the length the last that is
/// one.
pub proof fn lemma_last_parts(parts: Seq<Seq<char>>, part: Seq<char>)
    requires
        parts.len() > 0,
    ensures
        duration_of(part) is Some ==> last_duration(parts.push(part)) == duration_of(part)
            && last_name(parts.push(part)) == last_name(parts),
        duration_of(part) is None ==> last_duration(parts.push(part)) == last_duration(parts),
        duration_of(part) is None && part.len() > 0 ==> last_name(parts.push(part)) == Some(part),
        part.len() == 0 ==> last_name(parts.push(part)) == last_name(parts),
        parts.len() == 1 ==> last_name(parts) is None && last_duration(parts) is None,
{
    assert(parts.push(part).drop_last() =~= parts);
}

/// The length in the fixed columns is the first that reads as one.
pub proof fn lemma_first_duration(columns: Seq<json::Doc>, column: json::Doc)
    ensures
        first_duration(columns) is Some ==> first_duration(columns.push(column)) == first_duration(
            columns,
        ),
        first_duration(columns) is None ==> first_duration(columns.push(column)) == duration_of(
            joined_runs(json::member_or_null(column, "text"@)),
        ),
        first_duration(Seq::empty()) is None,
{
    assert(columns.push(column).drop_last() =~= columns);
}

/// Thumbnails in several lists compete as if they stood in one: a later list
/// only wins with a wider one.
pub proof fn lemma_widest_of_lists(lists: Seq<json::Doc>, items: Seq<json::Doc>)
    ensures
        widest_of_lists(lists.push(json::Doc::Array(items))) == widest(
            widest_of_lists(lists),
            items,
        ),
        widest_of_lists(Seq::empty()) is None,
{
    assert(lists.push(json::Doc::Array(items)).drop_last() =~= lists);
}

/// What was widest before a list stays so unless the list has a wider one.
pub proof fn lemma_widest_keeps(best: (i64, Seq<char>), items: Seq<json::Doc>)
    ensures
        widest(Some(best), items) matches Some(b) && b.0 >= best.0 && (b.0 == best.0 ==> b
            == best),
    decreases items.len(),
{
    if items.len() > 0 {
        lemma_widest_keeps(best, items.drop_last());
    }
}

proof fn lemma_base_sixty_grows(ns: Seq<nat>, k: int)
    requires
        0 <= k <= ns.len(),
    ensures
        base_sixty(ns.take(k)) <= base_sixty(ns),
    decreases ns.len(),
{
    if k < ns.len() {
        lemma_base_sixty_grows(ns.drop_last(), k);
        assert(ns.drop_last().take(k) =~= ns.take(k));
    } else {
        assert(ns.take(k) =~= ns);
    }
}

proof fn lemma_part_numbers(parts: Seq<Seq<char>>, k: int)
    requires
        0 <= k <= parts.len(),
    ensures
        part_numbers(parts) matches Some(ns) ==> {
            &&& ns.len() == parts.len()
            &&& part_numbers(parts.take(k)) == Some(ns.take(k))
        },
    decreases parts.len(),
{
    if parts.len() == 0 {
        assert(parts.take(k) =~= parts);
        assert(Seq::<nat>::empty().take(k) =~= Seq::empty());
    } else if k == parts.len() {
        lemma_part_numbers(parts.drop_last(), k - 1);
        assert(parts.take(k) =~= parts);
        if part_numbers(parts) is Some {
            assert(part_numbers(parts)->0.take(k) =~= part_numbers(parts)->0);
        }
    } else {
        lemma_part_numbers(parts.drop_last(), k);
        assert(parts.drop_last().take(k) =~= parts.take(k));
        if part_numbers(parts) is Some {
            assert(part_numbers(parts.drop_last())->0.take(k) =~= part_numbers(parts)->0.take(k));
        }
    }
}

/// The texts of all runs of a text object, one after another.
pub fn runs_text(value: &Json) -> (out: String)
    ensures
        out@ == joined_runs(value@),
{
    let mut out = String::new();
    match value.get_array("runs") {
        Some(runs) => {
            let ghost all = json::docs(runs@);
            let mut i: usize = 0;
            proof {
                json::lemma_docs(runs@);
                assert(all.take(0) =~= Seq::empty());
            }
            while i < runs.len()
                invariant
                    0 <= i <= runs@.len(),
                    all.len() == runs@.len(),
                    forall|k: int| 0 <= k < runs@.len() ==> #[trigger] all[k] == runs@[k]@,
                    out@ == joined_texts(all.take(i as int)),
                decreases runs@.len() - i,
            {
                assert(all.take(i + 1).drop_last() =~= all.take(i as int));
                assert(all[i as int] == runs@[i as int]@);
                if let Some(t) = runs[i].get_str("text") {
                    out.append(t);
                } else {
                    assert(out@ + Seq::<char>::empty() =~= out@);
                }
                i += 1;
            }
            assert(all.take(all.len() as int) =~= all);
        },
        None => {},
    }
    out
}

/// The text of the object under `key`.
fn text_under(node: &Json, key: &str) -> (out: String)
    ensures
        out@ == joined_runs(json::member_or_null(node@, key@)),
{
    match node.get(key) {
        Some(v) => runs_text(v),
        None => runs_text(&Json::Null),
    }
}

/// The trimmed parts of a text object, which bullets separate.
pub fn runs_parts(value: &Json) -> (parts: Vec<String>)
    ensures
        text::views(parts@) == bullet_parts(value@),
{
    let mut parts: Vec<String> = Vec::new();
    match value.get_array("runs") {
        Some(runs) => {
            let ghost trim_all = |p: Seq<char>| text::trimmed(p);
            let mut current = String::new();
            let ghost all = json::docs(runs@);
            let mut i: usize = 0;
            proof {
                json::lemma_docs(runs@);
                assert(all.take(0) =~= Seq::empty());
            }
            assert(between_bullets(all.take(0)) =~= seq![Seq::empty()]);
            assert(text::views(parts@) =~= between_bullets(all.take(0)).drop_last().map_values(
                trim_all,
            ));
            while i < runs.len()
                invariant
                    0 <= i <= runs@.len(),
                    all.len() == runs@.len(),
                    forall|k: int| 0 <= k < runs@.len() ==> #[trigger] all[k] == runs@[k]@,
                    trim_all == (|p: Seq<char>| text::trimmed(p)),
                    between_bullets(all.take(i as int)).len() > 0,
                    current@ == between_bullets(all.take(i as int)).last(),
                    text::views(parts@) == between_bullets(
                        all.take(i as int),
                    ).drop_last().map_values(trim_all),
                decreases runs@.len() - i,
            {
                let ghost before = between_bullets(all.take(i as int));
                let ghost after = between_bullets(all.take(i + 1));
                assert(all.take(i + 1).drop_last() =~= all.take(i as int));
                assert(all[i as int] == runs@[i as int]@);
                let ghost old_parts = parts@;
                let t = match runs[i].get_str("text") {
                    Some(t) => t.to_owned(),
                    None => String::new(),
                };
                if text::same(text::trim(t.as_str()).as_str(), "•") {
                    parts.push(text::trim(current.as_str()));
                    current = String::new();
                    assert(after.drop_last() =~= before);
                    assert(text::views(parts@) =~= text::views(old_parts).push(
                        text::trimmed(before.last()),
                    ));
                    assert(text::views(parts@) =~= after.drop_last().map_values(trim_all));
                } else {
                    current.append(t.as_str());
                    assert(after.drop_last() =~= before.drop_last());
                }
                i += 1;
            }
            assert(all.take(all.len() as int) =~= all);
            let ghost old_parts = parts@;
            let ghost pieces = between_bullets(all);
            parts.push(text::trim(current.as_str()));
            assert(text::views(parts@) =~= text::views(old_parts).push(text::trimmed(pieces.last())));
            assert(text::views(parts@) =~= pieces.map_values(trim_all));
        },
        None => {
            assert(text::views(parts@) =~= Seq::empty());
        },
    }
    parts
}

/// Reads `"3:47"` or `"1:02:03"` as seconds.
pub fn parse_duration(t: &str) -> (secs: Option<u64>)
    ensures
        secs == duration_of(t@),
{
    let parts = text::split_on(text::trim(t).as_str(), ':');
    let ghost pieces = text::split(text::trimmed(t@), ':');
    if parts.len() > 3 {
        proof {
            lemma_part_numbers(pieces, 0);
        }
        return None;
    }
    let mut total: u64 = 0;
    let mut i: usize = 0;
    let ghost mut ns: Seq<nat> = Seq::empty();
    assert(pieces.take(0) =~= Seq::empty());
    while i < parts.len()
        invariant
            0 <= i <= parts@.len() <= 3,
            text::views(parts@) == pieces,
            pieces == text::split(text::trimmed(t@), ':'),
            part_numbers(pieces.take(i as int)) == Some(ns),
            ns.len() == i,
            total == base_sixty(ns),
        decreases parts@.len() - i,
    {
        assert(pieces.take(i + 1).drop_last() =~= pieces.take(i as int));
        assert(pieces[i as int] == parts@[i as int]@);
        match text::parse_unsigned(text::trim(parts[i].as_str()).as_str(), u64::MAX) {
            Some(n) => {
                let ghost next = ns.push(n as nat);
                assert(next.drop_last() =~= ns);
                assert(part_numbers(pieces.take(i + 1)) == Some(next));
                assert(base_sixty(next) == total * 60 + n);
                if total > (u64::MAX - n) / 60 {
                    proof {
                        lemma_part_numbers(pieces, i + 1);
                        if part_numbers(pieces) is Some {
                            lemma_base_sixty_grows(part_numbers(pieces)->0, i + 1);
                        }
                    }
                    return None;
                }
                total = total * 60 + n;
                proof {
                    ns = next;
                }
            },
            None => {
                proof {
                    lemma_part_numbers(pieces, i + 1);
                }
                return None;
            },
        }
        i += 1;
    }
    assert(pieces.take(parts@.len() as int) =~= pieces);
    Some(total)
}

/// The address of the widest thumbnail below `value`.
pub fn best_thumb(value: &Json) -> (url: Option<String>)
    ensures
        model::text_view(url) == best_thumbnail(value@),
{
    let lists = all_under(value, "thumbnails");
    let ghost nodes = json::occurrences(value@, "thumbnails"@);
    let mut best: Option<(i64, String)> = None;
    let mut i: usize = 0;
    assert(nodes.take(0) =~= Seq::empty());
    while i < lists.len()
        invariant
            0 <= i <= lists@.len(),
            json::targets(lists@) == nodes,
            (match best {
                Some(b) => Some((b.0, b.1@)),
                None => None,
            }) == widest_of_lists(nodes.take(i as int)),
        decreases lists@.len() - i,
    {
        assert(nodes.take(i + 1).drop_last() =~= nodes.take(i as int));
        assert(nodes[i as int] == lists@[i as int]@);
        let ghost before = widest_of_lists(nodes.take(i as int));
        match lists[i].as_array() {
            Some(items) => {
                let ghost all = json::docs(items@);
                let mut k: usize = 0;
                proof {
                    json::lemma_docs(items@);
                    assert(all.take(0) =~= Seq::empty());
                }
                while k < items.len()
                    invariant
                        0 <= k <= items@.len(),
                        all.len() == items@.len(),
                        forall|j: int| 0 <= j < items@.len() ==> #[trigger] all[j] == items@[j]@,
                        (match best {
                            Some(b) => Some((b.0, b.1@)),
                            None => None,
                        }) == widest(before, all.take(k as int)),
                    decreases items@.len() - k,
                {
                    assert(all.take(k + 1).drop_last() =~= all.take(k as int));
                    assert(all[k as int] == items@[k as int]@);
                    let item = &items[k];
                    if let Some(url) = item.get_str("url") {
                        let w: i64 = match item.get("width") {
                            Some(w) => match w.as_i64() {
                                Some(n) => n,
                                None => 0,
                            },
                            None => 0,
                        };
                        let wider = match &best {
                            Some(b) => w > b.0,
                            None => true,
                        };
                        if wider {
                            best = Some((w, url.to_owned()));
                        }
                    }
                    k += 1;
                }
                assert(all.take(all.len() as int) =~= all);
            },
            None => {},
        }
        i += 1;
    }
    assert(nodes.take(nodes.len() as int) =~= nodes);
    match best {
        Some(b) => Some(b.1),
        None => None,
    }
}

fn first_text_under(nodes: &Vec<&Json>, key: &str) -> (t: Option<String>)
    ensures
        model::text_view(t) == first_text(json::targets(nodes@), key@),
{
    let ghost all = json::targets(nodes@);
    let mut i: usize = 0;
    let mut found: Option<String> = None;
    assert(all.take(0) =~= Seq::empty());
    while i < nodes.len()
        invariant
            0 <= i <= nodes@.len(),
            all == json::targets(nodes@),
            model::text_view(found) == first_text(all.take(i as int), key@),
        decreases nodes@.len() - i,
    {
        assert(all.take(i + 1).drop_last() =~= all.take(i as int));
        assert(all[i as int] == nodes@[i as int]@);
        if found.is_none() {
            if let Some(t) = nodes[i].get_str(key) {
                found = Some(t.to_owned());
            }
        }
        i += 1;
    }
    assert(all.take(all.len() as int) =~= all);
    found
}

/// The video that the first watch endpoint under `node` leads to.
pub fn watch_video_id(node: &Json) -> (id: Option<String>)
    ensures
        model::text_view(id) == watched_video(node@),
{
    first_text_under(&all_under(node, "watchEndpoint"), "videoId")
}

/// The page that the first browse endpoint under `node` leads to.
pub fn browse_id(node: &Json) -> (id: Option<String>)
    ensures
        model::text_view(id) == browsed_page(node@),
{
    first_text_under(&all_under(node, "browseEndpoint"), "browseId")
}

fn video_of_item(item: &Json) -> (id: Option<String>)
    ensures
        model::text_view(id) == item_video(item@),
{
    if let Some(d) = item.get("playlistItemData") {
        if let Some(id) = d.get_str("videoId") {
            return Some(id.to_owned());
        }
    }
    watch_video_id(item)
}

fn fixed_duration(item: &Json) -> (secs: Option<u64>)
    ensures
        secs == first_duration(
            json::occurrences(item@, "musicResponsiveListItemFixedColumnRenderer"@),
        ),
{
    let fixed = all_under(item, "musicResponsiveListItemFixedColumnRenderer");
    let ghost all = json::targets(fixed@);
    let mut found: Option<u64> = None;
    let mut i: usize = 0;
    assert(all.take(0) =~= Seq::empty());
    while i < fixed.len()
        invariant
            0 <= i <= fixed@.len(),
            all == json::targets(fixed@),
            found == first_duration(all.take(i as int)),
        decreases fixed@.len() - i,
    {
        assert(all.take(i + 1).drop_last() =~= all.take(i as int));
        assert(all[i as int] == fixed@[i as int]@);
        if found.is_none() {
            found = parse_duration(text_under(fixed[i], "text").as_str());
        }
        i += 1;
    }
    assert(all.take(all.len() as int) =~= all);
    found
}

fn album_and_duration(parts: &Vec<String>) -> (found: (Option<String>, Option<u64>))
    ensures
        model::text_view(found.0) == last_name(text::views(parts@)),
        found.1 == last_duration(text::views(parts@)),
{
    let ghost all = text::views(parts@);
    let mut album: Option<String> = None;
    let mut duration: Option<u64> = None;
    let mut i: usize = 1;
    if parts.len() == 0 {
        return (album, duration);
    }
    while i < parts.len()
        invariant
            1 <= i <= parts@.len(),
            all == text::views(parts@),
            model::text_view(album) == last_name(all.take(i as int)),
            duration == last_duration(all.take(i as int)),
        decreases parts@.len() - i,
    {
        assert(all.take(i + 1).drop_last() =~= all.take(i as int));
        assert(all[i as int] == parts@[i as int]@);
        match parse_duration(parts[i].as_str()) {
            Some(secs) => {
                duration = Some(secs);
            },
            None => {
                if !parts[i].as_str().is_empty() {
                    album = Some(parts[i].clone());
                }
            },
        }
        i += 1;
    }
    assert(all.take(all.len() as int) =~= all);
    (album, duration)
}

/// Reads one search result or playlist row.
pub fn parse_search_item(item: &Json) -> (track: Option<Track>)
    ensures
        (match track {
            Some(t) => Some(t@),
            None => None,
        }) == search_item(item@),
{
    let video_id = match video_of_item(item) {
        Some(id) => id,
        None => return None,
    };
    if video_id.as_str().is_empty() {
        return None;
    }
    let columns = all_under(item, "musicResponsiveListItemFlexColumnRenderer");
    let ghost cols = json::occurrences(item@, "musicResponsiveListItemFlexColumnRenderer"@);
    assert(cols.len() == columns@.len());
    if columns.len() == 0 {
        return None;
    }
    assert(cols[0] == columns@[0]@);
    let title = text_under(columns[0], "text");
    if title.as_str().is_empty() {
        return None;
    }
    let parts: Vec<String> = if columns.len() > 1 {
        assert(cols[1] == columns@[1]@);
        match columns[1].get("text") {
            Some(t) => runs_parts(t),
            None => runs_parts(&Json::Null),
        }
    } else {
        Vec::new()
    };
    let ghost named = if cols.len() > 1 {
        bullet_parts(json::member_or_null(cols[1], "text"@))
    } else {
        Seq::empty()
    };
    assert(text::views(parts@) =~= named);
    let artist = if parts.len() > 0 {
        assert(named[0] == parts@[0]@);
        parts[0].clone()
    } else {
        String::new()
    };
    let (mut album, mut duration_secs) = album_and_duration(&parts);
    if album.is_none() && columns.len() > 2 {
        assert(cols[2] == columns@[2]@);
        let t = text_under(columns[2], "text");
        if !t.as_str().is_empty() && parse_duration(t.as_str()).is_none() {
            album = Some(t);
        }
    }
    if duration_secs.is_none() {
        duration_secs = fixed_duration(item);
    }
    let thumb_url = match item.get("thumbnail") {
        Some(t) => best_thumb(t),
        None => best_thumb(&Json::Null),
    };
    Some(Track { video_id, title, artist, album, duration_secs, thumb_url })
}

/// Reads one entry of the radio queue.
pub fn parse_radio_item(item: &Json) -> (track: Option<Track>)
    ensures
        (match track {
            Some(t) => Some(t@),
            None => None,
        }) == radio_item(item@),
{
    let video_id = match item.get_str("videoId") {
        Some(id) => id.to_owned(),
        None => return None,
    };
    if video_id.as_str().is_empty() {
        return None;
    }
    let title = text_under(item, "title");
    if title.as_str().is_empty() {
        return None;
    }
    let parts = match item.get("longBylineText") {
        Some(t) => runs_parts(t),
        None => runs_parts(&Json::Null),
    };
    let ghost named = bullet_parts(json::member_or_null(item@, "longBylineText"@));
    assert(text::views(parts@) =~= named);
    let artist = if parts.len() > 0 {
        assert(named[0] == parts@[0]@);
        parts[0].clone()
    } else {
        String::new()
    };
    let mut album: Option<String> = None;
    if parts.len() > 1 {
        assert(named[1] == parts@[1]@);
        if !parts[1].as_str().is_empty() {
            album = Some(parts[1].clone());
        }
    }
    let duration_secs = parse_duration(text_under(item, "lengthText").as_str());
    let thumb_url = match item.get("thumbnail") {
        Some(t) => best_thumb(t),
        None => best_thumb(&Json::Null),
    };
    Some(Track { video_id, title, artist, album, duration_secs, thumb_url })
}

/// Whether one of the tracks plays that video.
pub fn plays(tracks: &Vec<Track>, id: &str) -> (yes: bool)
    ensures
        yes == has_video(model::track_views(tracks@), id@),
{
    let mut i: usize = 0;
    while i < tracks.len()
        invariant
            0 <= i <= tracks@.len(),
            forall|k: int|
                0 <= k < i ==> (#[trigger] model::track_views(tracks@)[k]).video_id != id@,
        decreases tracks@.len() - i,
    {
        if text::same(tracks[i].video_id.as_str(), id) {
            assert(model::track_views(tracks@)[i as int].video_id == id@);
            return true;
        }
        i += 1;
    }
    false
}

fn keep_track(tracks: &mut Vec<Track>, track: Option<Track>, limit: usize, found: Ghost<
    Seq<Option<model::TrackView>>,
>)
    requires
        found@.len() > 0,
        found@.last() == (match track {
            Some(t) => Some(t@),
            None => None,
        }),
        model::track_views(old(tracks)@) == distinct_tracks(found@.drop_last(), limit as nat),
        old(tracks)@.len() < limit,
    ensures
        model::track_views(final(tracks)@) == distinct_tracks(found@, limit as nat),
{
    if let Some(t) = track {
        if !plays(tracks, t.video_id.as_str()) {
            let ghost before = tracks@;
            let ghost view = t@;
            tracks.push(t);
            assert(model::track_views(tracks@) =~= model::track_views(before).push(view));
        }
    }
}

proof fn lemma_full(found: Seq<Option<model::TrackView>>, k: int, limit: nat)
    requires
        0 <= k <= found.len(),
        distinct_tracks(found.take(k), limit).len() >= limit,
    ensures
        distinct_tracks(found, limit) == distinct_tracks(found.take(k), limit),
    decreases found.len(),
{
    if k < found.len() {
        assert(found.drop_last().take(k) =~= found.take(k));
        lemma_full(found.drop_last(), k, limit);
    } else {
        assert(found.take(k) =~= found);
    }
}

/// Reads a search response: up to `limit` tracks in document order, each video
/// once.
pub fn parse_search_tracks(resp: &Json, limit: usize) -> (tracks: Vec<Track>)
    ensures
        model::track_views(tracks@) == search_tracks(resp@, limit as nat),
{
    let items = all_under(resp, "musicResponsiveListItemRenderer");
    let ghost found = json::targets(items@).map_values(|i: json::Doc| search_item(i));
    let mut tracks: Vec<Track> = Vec::new();
    let mut i: usize = 0;
    assert(found.take(0) =~= Seq::empty());
    assert(model::track_views(tracks@) =~= Seq::empty());
    while i < items.len() && tracks.len() < limit
        invariant
            0 <= i <= items@.len(),
            found == json::targets(items@).map_values(|i: json::Doc| search_item(i)),
            found.len() == items@.len(),
            model::track_views(tracks@) == distinct_tracks(found.take(i as int), limit as nat),
        decreases items@.len() - i,
    {
        assert(found.take(i + 1).drop_last() =~= found.take(i as int));
        assert(found[i as int] == search_item(items@[i as int]@));
        let track = parse_search_item(items[i]);
        keep_track(&mut tracks, track, limit, Ghost(found.take(i + 1)));
        i += 1;
    }
    proof {
        if i < items@.len() {
            lemma_full(found, i as int, limit as nat);
        } else {
            assert(found.take(i as int) =~= found);
        }
    }
    tracks
}

/// Reads a radio response: up to `limit` tracks in document order, each video
/// once.
pub fn parse_radio_tracks(resp: &Json, limit: usize) -> (tracks: Vec<Track>)
    ensures
        model::track_views(tracks@) == radio_tracks(resp@, limit as nat),
{
    let items = all_under(resp, "playlistPanelVideoRenderer");
    let ghost found = json::targets(items@).map_values(|i: json::Doc| radio_item(i));
    let mut tracks: Vec<Track> = Vec::new();
    let mut i: usize = 0;
    assert(found.take(0) =~= Seq::empty());
    assert(model::track_views(tracks@) =~= Seq::empty());
    while i < items.len() && tracks.len() < limit
        invariant
            0 <= i <= items@.len(),
            found == json::targets(items@).map_values(|i: json::Doc| radio_item(i)),
            found.len() == items@.len(),
            model::track_views(tracks@) == distinct_tracks(found.take(i as int), limit as nat),
        decreases items@.len() - i,
    {
        assert(found.take(i + 1).drop_last() =~= found.take(i as int));
        assert(found[i as int] == radio_item(items@[i as int]@));
        let track = parse_radio_item(items[i]);
        keep_track(&mut tracks, track, limit, Ghost(found.take(i + 1)));
        i += 1;
    }
    proof {
        if i < items@.len() {
            lemma_full(found, i as int, limit as nat);
        } else {
            assert(found.take(i as int) =~= found);
        }
    }
    tracks
}

fn title_of_card(item: &Json) -> (title: String)
    ensures
        title@ == playlist_title(item@),
{
    let title = text_under(item, "title");
    if !title.as_str().is_empty() {
        return title;
    }
    let columns = all_under(item, "musicResponsiveListItemFlexColumnRenderer");
    let ghost cols = json::occurrences(item@, "musicResponsiveListItemFlexColumnRenderer"@);
    assert(cols.len() == columns@.len());
    if columns.len() > 0 {
        assert(cols[0] == columns@[0]@);
        text_under(columns[0], "text")
    } else {
        assert(title@ =~= Seq::empty());
        title
    }
}

fn holds(list: &Vec<String>, s: &str) -> (yes: bool)
    ensures
        yes == text::views(list@).contains(s@),
{
    let mut i: usize = 0;
    while i < list.len()
        invariant
            0 <= i <= list@.len(),
            forall|k: int| 0 <= k < i ==> #[trigger] text::views(list@)[k] != s@,
        decreases list@.len() - i,
    {
        if text::same(list[i].as_str(), s) {
            assert(text::views(list@)[i as int] == s@);
            return true;
        }
        i += 1;
    }
    false
}

/// Reads the library's playlists: the cards whose page is a playlist (`VL…`).
/// The "New playlist" card has none and is skipped.
pub fn parse_playlists(resp: &Json) -> (playlists: Vec<Playlist>)
    ensures
        model::playlist_views(playlists@) == playlists_of(playlist_cards(resp@)),
{
    let mut items = all_under(resp, "musicTwoRowItemRenderer");
    find_all(resp, "musicResponsiveListItemRenderer", &mut items);
    let ghost cards = json::targets(items@);
    let mut seen: Vec<String> = Vec::new();
    let mut playlists: Vec<Playlist> = Vec::new();
    let mut i: usize = 0;
    assert(cards.take(0) =~= Seq::empty());
    assert(model::playlist_views(playlists@) =~= Seq::empty());
    assert(text::views(seen@) =~= Seq::empty());
    while i < items.len()
        invariant
            0 <= i <= items@.len(),
            cards == json::targets(items@),
            text::views(seen@) == ids_met(cards.take(i as int)),
            model::playlist_views(playlists@) == playlists_of(cards.take(i as int)),
        decreases items@.len() - i,
    {
        assert(cards.take(i + 1).drop_last() =~= cards.take(i as int));
        assert(cards[i as int] == items@[i as int]@);
        let item = items[i];
        if let Some(id) = browse_id(item) {
            if text::starts_with(id.as_str(), "VL") && !holds(&seen, id.as_str()) {
                let ghost old_seen = seen@;
                seen.push(id.clone());
                assert(text::views(seen@) =~= text::views(old_seen).push(id@));
                let title = title_of_card(item);
                if !title.as_str().is_empty() {
                    let subtitle = text_under(item, "subtitle");
                    let ghost before = playlists@;
                    let playlist = Playlist { browse_id: id, title, subtitle };
                    let ghost view = playlist@;
                    playlists.push(playlist);
                    assert(model::playlist_views(playlists@) =~= model::playlist_views(before).push(
                        view,
                    ));
                }
            }
        }
        i += 1;
    }
    assert(cards.take(cards.len() as int) =~= cards);
    playlists
}

} // verus!
