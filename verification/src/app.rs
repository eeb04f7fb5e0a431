//! The application's state and every change of it that is not drawing: searches
//! and what comes of them, skins, cookies, banners, the window's mode and title,
//! and when settings are saved.

use vstd::prelude::*;

use crate::bits;
use crate::bits::{Double, Single};
use crate::eq::EqSettings;
use crate::model;
use crate::model::{clone_tracks, PlaybackState, PlayerCommand, PlayerEvent, SpectrumFrame, Track};
use crate::settings;
use crate::settings::{join_path, Settings};
use crate::text;
use crate::yt::innertube::Failure;
use crate::yt::search;

pub mod mini_player;
pub mod standins;

verus! {

/// How long a banner stays, in milliseconds.
pub const TOAST_LIFETIME_MS: u64 = 4000;

/// How many banners are shown at most.
pub const TOAST_MAX: usize = 4;

/// How long to wait between two saves of the settings, in milliseconds.
pub const SAVE_PERIOD_MS: u64 = 1500;

/// How many results a search asks for, and a radio.
pub const SEARCH_LIMIT: usize = 30;

pub const RADIO_LIMIT: usize = 20;

/// A loaded skin.
#[derive(Debug)]
pub struct Skin {
    pub name: String,
}

/// Why a skin could not be loaded.
#[derive(Debug)]
pub struct SkinError(pub String);

/// What landed from a search or a radio.
#[derive(Debug)]
pub enum SearchOutcome {
    Results { query: String, tracks: Vec<Track> },
    Radio { video_id: String, tracks: Vec<Track> },
    Failed(String),
}

/// The search box and the results it lists.
pub struct SearchState {
    pub query: String,
    pub committed: String,
    pub searching: bool,
    pub results: Vec<Track>,
    pub selected: Option<usize>,
    /// Where the keyboard last went, to be scrolled into view.
    pub scroll_to: Option<usize>,
}

/// Which page the main window shows.
#[derive(Clone, Copy, Debug, PartialEq, Eq, Structural)]
pub enum Page {
    Search,
    Settings,
}

#[derive(Clone, Copy, Debug, PartialEq, Eq, Structural)]
pub enum ToastKind {
    Info,
    Error,
}

/// A banner that goes away by itself.
#[derive(Debug)]
pub struct Toast {
    pub kind: ToastKind,
    pub text: String,
    /// When it goes away, in milliseconds.
    pub until: u64,
}

/// What a [`Toast`] holds.
#[verifier::ext_equal]
pub struct ToastView {
    pub kind: ToastKind,
    pub text: Seq<char>,
    pub until: u64,
}

impl View for Toast {
    type V = ToastView;

    open spec fn view(&self) -> ToastView {
        ToastView { kind: self.kind, text: self.text@, until: self.until }
    }
}

pub open spec fn toast_views(toasts: Seq<Toast>) -> Seq<ToastView> {
    Seq::new(toasts.len(), |i: int| toasts[i]@)
}

/// The banners after one more: only the latest few stay.
pub open spec fn toasted(
    toasts: Seq<ToastView>,
    kind: ToastKind,
    t: Seq<char>,
    now: u64,
) -> Seq<ToastView> {
    let all = toasts.push(ToastView { kind, text: t, until: (now + TOAST_LIFETIME_MS) as u64 });
    if all.len() > TOAST_MAX {
        all.skip(all.len() - TOAST_MAX)
    } else {
        all
    }
}

/// The banners that are still shown at `now`.
pub open spec fn lasting(toasts: Seq<ToastView>, now: u64) -> Seq<ToastView>
    decreases toasts.len(),
{
    if toasts.len() == 0 {
        Seq::empty()
    } else if toasts.last().until > now {
        lasting(toasts.drop_last(), now).push(toasts.last())
    } else {
        lasting(toasts.drop_last(), now)
    }
}

/// There are never more banners than fit, and the newest is always among them.
pub proof fn lemma_toasts_bounded(toasts: Seq<ToastView>, kind: ToastKind, t: Seq<char>, now: u64)
    ensures
        0 < toasted(toasts, kind, t, now).len() <= TOAST_MAX,
        toasted(toasts, kind, t, now).last().text == t,
        toasted(toasts, kind, t, now).last().kind == kind,
{
}

/// A banner is gone once its time has passed.
pub proof fn lemma_toasts_expire(toasts: Seq<ToastView>, now: u64)
    ensures
        forall|i: int|
            0 <= i < lasting(toasts, now).len() ==> (#[trigger] lasting(toasts, now)[i]).until
                > now,
    decreases toasts.len(),
{
    if toasts.len() > 0 {
        lemma_toasts_expire(toasts.drop_last(), now);
    }
}

/// Whether the text is one of the extensions of a skin archive, whatever its
/// case.
pub open spec fn skin_extension(ext: Seq<char>) -> bool {
    let e = text::ascii_lower(ext);
    e == "wsz"@ || e == "wal"@ || e == "zip"@
}

/// The last dot of a name.
pub open spec fn last_dot(name: Seq<char>) -> Option<int>
    decreases name.len(),
{
    if name.len() == 0 {
        None
    } else if name.last() == '.' {
        Some(name.len() - 1)
    } else {
        last_dot(name.drop_last())
    }
}

/// A skin's file name without the extension of an archive.
pub open spec fn display_label(name: Seq<char>) -> Seq<char> {
    match last_dot(name) {
        Some(i) if skin_extension(name.skip(i + 1)) => name.take(i),
        _ => name,
    }
}

/// The parts of a path: what stands between slashes, without empty ones, and
/// without a dot but at the very start.
pub open spec fn path_parts(pieces: Seq<Seq<char>>) -> Seq<Seq<char>>
    decreases pieces.len(),
{
    if pieces.len() == 0 {
        Seq::empty()
    } else {
        let before = path_parts(pieces.drop_last());
        let p = pieces.last();
        if p.len() == 0 || (p == "."@ && pieces.len() > 1) {
            before
        } else {
            before.push(p)
        }
    }
}

pub open spec fn parts_of(path: Seq<char>) -> Seq<Seq<char>> {
    path_parts(text::split(path, '/'))
}

/// Whether the two lead to the same place by name.
pub open spec fn same_place(a: Seq<char>, b: Seq<char>) -> bool {
    is_absolute(a) == is_absolute(b) && parts_of(a) == parts_of(b)
}

pub open spec fn is_absolute(path: Seq<char>) -> bool {
    path.len() > 0 && path[0] == '/'
}

/// The last part of a path, if it is a name.
pub open spec fn file_name_of(path: Seq<char>) -> Option<Seq<char>> {
    let parts = parts_of(path);
    if parts.len() == 0 || parts.last() == "."@ || parts.last() == ".."@ {
        None
    } else {
        Some(parts.last())
    }
}

/// What follows the last dot of a file name, unless the dot begins it.
pub open spec fn extension_of(name: Seq<char>) -> Option<Seq<char>> {
    match last_dot(name) {
        Some(i) if i > 0 => Some(name.skip(i + 1)),
        _ => None,
    }
}

/// Whether the path is that of a skin archive.
pub open spec fn skin_path(path: Seq<char>) -> bool {
    match file_name_of(path) {
        Some(name) => match extension_of(name) {
            Some(ext) => skin_extension(ext),
            None => false,
        },
        None => false,
    }
}

/// Whether the bytes begin the way a zip archive does.
pub open spec fn looks_like_zip(bytes: Seq<u8>) -> bool {
    bytes.len() >= 4 && bytes[0] == 0x50 && bytes[1] == 0x4b
}

/// A banner stays for four seconds, below those that were there before; of more
/// than four the oldest goes.
pub proof fn lemma_toasted(toasts: Seq<ToastView>, kind: ToastKind, t: Seq<char>, now: u64)
    requires
        now + 4000 <= u64::MAX,
    ensures
        ({
            let banner = ToastView { kind, text: t, until: (now + 4000) as u64 };
            &&& toasts.len() < 4 ==> toasted(toasts, kind, t, now) == toasts + seq![banner]
            &&& toasts.len() == 4 ==> toasted(toasts, kind, t, now) == toasts.skip(1)
                + seq![banner]
        }),
{
    let banner = ToastView { kind, text: t, until: (now + 4000) as u64 };
    assert(toasts.push(banner) =~= toasts + seq![banner]);
    if toasts.len() == 4 {
        assert(toasts.push(banner).skip(1) =~= toasts.skip(1) + seq![banner]);
    }
}

/// Banners whose time has not passed stay, in their order.
pub proof fn lemma_lasting(toasts: Seq<ToastView>, banner: ToastView, now: u64)
    ensures
        banner.until > now ==> lasting(toasts.push(banner), now) == lasting(toasts, now) + seq![
            banner,
        ],
        banner.until <= now ==> lasting(toasts.push(banner), now) == lasting(toasts, now),
        lasting(Seq::empty(), now).len() == 0,
{
    assert(toasts.push(banner).drop_last() =~= toasts);
    if banner.until > now {
        assert(lasting(toasts, now).push(banner) =~= lasting(toasts, now) + seq![banner]);
    }
}

/// The extensions of a skin are wsz, wal and zip, in letters of either case.
pub proof fn lemma_skin_extensions(ext: Seq<char>)
    ensures
        skin_extension("wsz"@) && skin_extension("wal"@) && skin_extension("zip"@),
        skin_extension(text::ascii_lower(ext)) == skin_extension(ext),
        skin_extension(ext) ==> ext.len() == 3,
        skin_extension(ext) && text::ascii_lower(ext) == ext ==> ext == "wsz"@ || ext == "wal"@
            || ext == "zip"@,
{
    reveal_strlit("wsz");
    reveal_strlit("wal");
    reveal_strlit("zip");
    text::lemma_lower_twice(ext);
    assert(text::ascii_lower("wsz"@) =~= "wsz"@);
    assert(text::ascii_lower("wal"@) =~= "wal"@);
    assert(text::ascii_lower("zip"@) =~= "zip"@);
    assert(text::ascii_lower(ext).len() == ext.len());
}

proof fn lemma_last_dot(stem: Seq<char>, ext: Seq<char>)
    requires
        !ext.contains('.'),
    ensures
        last_dot(stem + seq!['.'] + ext) == Some(stem.len() as int),
        last_dot(ext) is None,
    decreases ext.len(),
{
    let name = stem + seq!['.'] + ext;
    if ext.len() > 0 {
        let shorter = ext.drop_last();
        assert(!shorter.contains('.')) by {
            if shorter.contains('.') {
                let i = choose|i: int| 0 <= i < shorter.len() && shorter[i] == '.';
                assert(ext[i] == '.');
            }
        }
        assert(ext.contains(ext.last()));
        assert(name.drop_last() =~= stem + seq!['.'] + shorter);
        lemma_last_dot(stem, shorter);
    } else {
        assert(name.last() == '.');
    }
}

/// A file name is parted at its last dot: what follows is the extension, unless
/// nothing stands before the dot, and the label of a skin is what stands before
/// the extension of an archive; any other name is its own label.
pub proof fn lemma_file_names(stem: Seq<char>, ext: Seq<char>)
    requires
        !ext.contains('.'),
    ensures
        stem.len() > 0 ==> extension_of(stem + seq!['.'] + ext) == Some(ext),
        extension_of(seq!['.'] + ext) is None,
        extension_of(ext) is None,
        skin_extension(ext) ==> display_label(stem + seq!['.'] + ext) == stem,
        !skin_extension(ext) ==> display_label(stem + seq!['.'] + ext) == stem + seq!['.'] + ext,
        display_label(ext) == ext,
{
    let name = stem + seq!['.'] + ext;
    lemma_last_dot(stem, ext);
    lemma_last_dot(Seq::empty(), ext);
    assert(Seq::<char>::empty() + seq!['.'] + ext =~= seq!['.'] + ext);
    assert(name.skip(stem.len() as int + 1) =~= ext);
    assert(name.take(stem.len() as int) =~= stem);
}

proof fn lemma_parts_append(a: Seq<Seq<char>>, p: Seq<char>)
    ensures
        path_parts(a.push(p)) == if p.len() == 0 || (p == "."@ && a.len() > 0) {
            path_parts(a)
        } else {
            path_parts(a).push(p)
        },
{
    assert(a.push(p).drop_last() =~= a);
}

/// The last part of a path is the file's name, whatever directories stand
/// before it and whether or not slashes follow it.
pub proof fn lemma_file_name(dir: Seq<char>, name: Seq<char>)
    requires
        name.len() > 0,
        !name.contains('/'),
        name != "."@,
        name != ".."@,
    ensures
        file_name_of(name) == Some(name),
        file_name_of(dir + seq!['/'] + name) == Some(name),
        file_name_of(dir + seq!['/'] + name + seq!['/']) == Some(name),
        skin_path(dir + seq!['/'] + name) == skin_path(name),
{
    text::lemma_split_whole(name, '/');
    text::lemma_split_append(dir, name, '/');
    let none = Seq::<Seq<char>>::empty();
    assert(none.push(name) =~= seq![name]);
    lemma_parts_append(none, name);
    let front = text::split(dir, '/');
    assert(front + seq![name] =~= front.push(name));
    lemma_parts_append(front, name);
    let path = dir + seq!['/'] + name;
    let e = Seq::<char>::empty();
    text::lemma_split_whole(e, '/');
    text::lemma_split_append(path, e, '/');
    assert(path + seq!['/'] + e =~= path + seq!['/']);
    assert(front.push(name) + seq![e] =~= front.push(name).push(e));
    lemma_parts_append(front.push(name), e);
}

/// A file is a skin if its name has a stem and the extension of an archive.
pub proof fn lemma_skin_file(dir: Seq<char>, stem: Seq<char>, ext: Seq<char>)
    requires
        stem.len() > 0,
        !stem.contains('/'),
        !ext.contains('/'),
        !ext.contains('.'),
        stem + seq!['.'] + ext != "."@,
        stem + seq!['.'] + ext != ".."@,
    ensures
        skin_path(dir + seq!['/'] + (stem + seq!['.'] + ext)) <==> skin_extension(ext),
        skin_path(stem + seq!['.'] + ext) <==> skin_extension(ext),
{
    let name = stem + seq!['.'] + ext;
    assert(!name.contains('/')) by {
        if name.contains('/') {
            let i = choose|i: int| 0 <= i < name.len() && name[i] == '/';
            if i < stem.len() {
                assert(stem[i] == '/');
            } else if i > stem.len() {
                assert(ext[i - stem.len() - 1] == '/');
            }
        }
    }
    lemma_file_name(dir, name);
    lemma_file_names(stem, ext);
}

/// Paths lead to the same place if they have the same parts and both begin at
/// the root or neither does: slashes at the end, or two where one would do, make
/// no difference.
pub proof fn lemma_same_place(a: Seq<char>, b: Seq<char>)
    ensures
        same_place(a, a),
        same_place(a, b) == same_place(b, a),
        a.len() > 0 ==> same_place(a, a + seq!['/']),
        is_absolute(seq!['/'] + a),
        a.len() > 0 && a[0] != '/' ==> !is_absolute(a) && !same_place(a, seq!['/'] + a),
        !is_absolute(Seq::empty()),
        parts_of(a) != parts_of(b) ==> !same_place(a, b),
{
    let e = Seq::<char>::empty();
    text::lemma_split_whole(e, '/');
    text::lemma_split_append(a, e, '/');
    assert(a + seq!['/'] + e =~= a + seq!['/']);
    let pieces = text::split(a, '/');
    assert(pieces + seq![e] =~= pieces.push(e));
    lemma_parts_append(pieces, e);
}

/// The parts of a path: a name after a slash is one more part, a dot and nothing
/// at all are none.
pub proof fn lemma_path_parts(dir: Seq<char>, name: Seq<char>)
    requires
        !name.contains('/'),
    ensures
        name.len() > 0 && name != "."@ ==> parts_of(dir + seq!['/'] + name) == parts_of(dir).push(
            name,
        ),
        name.len() == 0 || name == "."@ ==> parts_of(dir + seq!['/'] + name) == parts_of(dir),
        parts_of(Seq::empty()).len() == 0,
{
    text::lemma_split_append(dir, name, '/');
    text::lemma_split_whole(name, '/');
    let pieces = text::split(dir, '/');
    text::lemma_split_nonempty(dir, '/');
    assert(pieces + seq![name] =~= pieces.push(name));
    lemma_parts_append(pieces, name);
    let e = Seq::<char>::empty();
    let none = Seq::<Seq<char>>::empty();
    text::lemma_split_whole(e, '/');
    assert(seq![e] =~= none.push(e));
    lemma_parts_append(none, e);
}

/// The root, an empty path and a path that ends in two dots have no file name,
/// and a file name without a dot is no skin's.
pub proof fn lemma_no_file_name(dir: Seq<char>, name: Seq<char>)
    ensures
        file_name_of(Seq::empty()) is None,
        file_name_of(seq!['/']) is None,
        file_name_of(dir + seq!['/'] + ".."@) is None,
        name.len() > 0 && !name.contains('/') && !name.contains('.') ==> !skin_path(name)
            && file_name_of(name) == Some(name),
        !skin_path(Seq::empty()),
        !skin_path(dir + seq!['/'] + ".."@),
{
    reveal_strlit("..");
    reveal_strlit(".");
    let e = Seq::<char>::empty();
    assert(!".."@.contains('/'));
    lemma_path_parts(dir, ".."@);
    assert(!e.contains('/'));
    lemma_path_parts(e, e);
    assert(e + seq!['/'] + e =~= seq!['/']);
    if name.len() > 0 && !name.contains('/') && !name.contains('.') {
        assert("."@.contains('.')) by {
            assert("."@[0] == '.');
        }
        assert(".."@.contains('.')) by {
            assert(".."@[0] == '.');
        }
        lemma_file_name(e, name);
        lemma_last_dot(e, name);
    }
}

/// A skin goes by its file's name, and by a name for all where there is none.
pub proof fn lemma_loaded_name(dir: Seq<char>, name: Seq<char>)
    requires
        name.len() > 0,
        !name.contains('/'),
        name != "."@,
        name != ".."@,
    ensures
        loaded_name(dir + seq!['/'] + name) == name,
        loaded_name(Seq::empty()) == "skin"@,
{
    lemma_file_name(dir, name);
    lemma_no_file_name(dir, name);
}

/// Only what begins with the letters PK, and is at least four bytes long, is
/// taken for an archive.
pub proof fn lemma_zip_mark(bytes: Seq<u8>)
    ensures
        looks_like_zip(bytes) <==> bytes.len() >= 4 && bytes.take(2) == seq![
            'P' as u8,
            'K' as u8,
        ],
{
    if bytes.len() >= 4 {
        if bytes[0] == 0x50 && bytes[1] == 0x4b {
            assert(bytes.take(2) =~= seq!['P' as u8, 'K' as u8]);
        } else {
            assert(bytes.take(2)[0] == bytes[0] && bytes.take(2)[1] == bytes[1]);
        }
    }
}

fn has_skin_extension(ext: &str) -> (yes: bool)
    ensures
        yes == skin_extension(ext@),
{
    let e = text::to_ascii_lower(ext);
    text::same(e.as_str(), "wsz") || text::same(e.as_str(), "wal") || text::same(e.as_str(), "zip")
}

fn find_last_dot(v: &Vec<char>) -> (at: Option<usize>)
    ensures
        match at {
            Some(i) => i < v@.len() && last_dot(v@) == Some(i as int),
            None => last_dot(v@) is None,
        },
{
    let mut n: usize = v.len();
    assert(v@.take(n as int) =~= v@);
    while n > 0
        invariant
            n <= v@.len(),
            last_dot(v@) == last_dot(v@.take(n as int)),
        decreases n,
    {
        assert(v@.take(n as int).last() == v@[n - 1]);
        if v[n - 1] == '.' {
            return Some(n - 1);
        }
        assert(v@.take(n as int).drop_last() =~= v@.take(n - 1));
        n -= 1;
    }
    None
}

/// A skin's file name without its archive extension, for showing.
pub fn skin_display_label(name: &str) -> (label: String)
    ensures
        label@ == display_label(name@),
{
    let v = text::chars(name);
    let n: usize = v.len();
    if let Some(i) = find_last_dot(&v) {
        let ext = text::piece(&v, i + 1, n);
        assert(ext@ =~= name@.skip(i + 1));
        if has_skin_extension(ext.as_str()) {
            assert(v@.subrange(0, i as int) =~= name@.take(i as int));
            return text::piece(&v, 0, i);
        }
    }
    name.to_owned()
}

fn parts(path: &str) -> (out: Vec<String>)
    ensures
        text::views(out@) == parts_of(path@),
{
    let pieces = text::split_on(path, '/');
    let ghost all = text::split(path@, '/');
    let mut out: Vec<String> = Vec::new();
    let mut i: usize = 0;
    assert(all.take(0) =~= Seq::empty());
    assert(text::views(out@) =~= Seq::empty());
    while i < pieces.len()
        invariant
            i <= pieces@.len(),
            all == text::views(pieces@),
            text::views(out@) == path_parts(all.take(i as int)),
        decreases pieces@.len() - i,
    {
        assert(all.take(i + 1).drop_last() =~= all.take(i as int));
        assert(all[i as int] == pieces@[i as int]@);
        let p = &pieces[i];
        if !(p.as_str().is_empty() || (text::same(p.as_str(), ".") && i > 0)) {
            let ghost before = out@;
            out.push(p.clone());
            assert(text::views(out@) =~= text::views(before).push(p@));
        }
        i += 1;
    }
    assert(all.take(all.len() as int) =~= all);
    out
}

/// The last part of a path, if it is a name.
pub fn file_name(path: &str) -> (name: Option<String>)
    ensures
        model::text_view(name) == file_name_of(path@),
{
    let all = parts(path);
    let n: usize = all.len();
    assert(parts_of(path@).len() == n);
    if n == 0 {
        return None;
    }
    assert(parts_of(path@).last() == all@[n - 1]@);
    let last = &all[n - 1];
    if text::same(last.as_str(), ".") || text::same(last.as_str(), "..") {
        None
    } else {
        Some(last.clone())
    }
}

/// Whether the path is that of a `.wsz`, `.wal` or `.zip` skin archive.
pub fn is_skin_file(path: &str) -> (yes: bool)
    ensures
        yes == skin_path(path@),
{
    match file_name(path) {
        Some(name) => {
            let v = text::chars(name.as_str());
            let n: usize = v.len();
            match find_last_dot(&v) {
                Some(i) => {
                    if i == 0 {
                        return false;
                    }
                    let ext = text::piece(&v, i + 1, n);
                    assert(ext@ =~= name@.skip(i + 1));
                    has_skin_extension(ext.as_str())
                },
                None => false,
            }
        },
        None => false,
    }
}

fn absolute(path: &str) -> (yes: bool)
    ensures
        yes == is_absolute(path@),
{
    let v = text::chars(path);
    v.len() > 0 && v[0] == '/'
}

/// Whether the two paths lead to the same place by name.
pub fn same_path(a: &str, b: &str) -> (yes: bool)
    ensures
        yes == same_place(a@, b@),
{
    if absolute(a) != absolute(b) {
        return false;
    }
    let x = parts(a);
    let y = parts(b);
    let ghost xs = parts_of(a@);
    let ghost ys = parts_of(b@);
    assert(xs.len() == x@.len() && ys.len() == y@.len());
    if x.len() != y.len() {
        return false;
    }
    let mut i: usize = 0;
    while i < x.len()
        invariant
            i <= x@.len(),
            x@.len() == y@.len(),
            xs == text::views(x@),
            ys == text::views(y@),
            forall|k: int| 0 <= k < i ==> xs[k] == ys[k],
            xs == parts_of(a@),
            ys == parts_of(b@),
        decreases x@.len() - i,
    {
        assert(xs[i as int] == x@[i as int]@ && ys[i as int] == y@[i as int]@);
        if !text::same(x[i].as_str(), y[i].as_str()) {
            return false;
        }
        i += 1;
    }
    assert(xs =~= ys);
    true
}

impl Skin {
    /// The built-in look, worn when no archive is loaded.
    pub fn builtin() -> (s: Skin)
        ensures
            s.name@ == "built-in"@,
    {
        Skin { name: "built-in".to_owned() }
    }

    /// A skin from the bytes of an archive.
    pub fn from_archive(name: &str, bytes: &[u8]) -> (r: Result<Skin, SkinError>)
        ensures
            match r {
                Ok(s) => looks_like_zip(bytes@) && s.name@ == display_label(name@),
                Err(e) => !looks_like_zip(bytes@) && e.0@ == "not a zip archive (.wsz)"@,
            },
    {
        if bytes.len() < 4 || bytes[0] != 0x50 || bytes[1] != 0x4b {
            return Err(SkinError("not a zip archive (.wsz)".to_owned()));
        }
        Ok(Skin { name: skin_display_label(name) })
    }

    /// A skin from a file. `read` is what reading it gave: its bytes, or what
    /// went wrong.
    pub fn load(path: &str, read: Result<Vec<u8>, String>) -> (r: Result<Skin, SkinError>)
        ensures
            match read {
                Ok(bytes) => match r {
                    Ok(s) => looks_like_zip(bytes@) && s.name@ == display_label(
                        loaded_name(path@),
                    ),
                    Err(e) => !looks_like_zip(bytes@) && e.0@ == "not a zip archive (.wsz)"@,
                },
                Err(error) => r matches Err(e) && e.0@ == path@ + ": "@ + error@,
            },
    {
        let name = match file_name(path) {
            Some(n) => n,
            None => "skin".to_owned(),
        };
        match read {
            Ok(bytes) => Skin::from_archive(name.as_str(), bytes.as_slice()),
            Err(error) => {
                let mut m = path.to_owned();
                m.append(": ");
                m.append(error.as_str());
                Err(SkinError(m))
            },
        }
    }
}

/// The name that a skin of that path goes by.
pub open spec fn loaded_name(path: Seq<char>) -> Seq<char> {
    match file_name_of(path) {
        Some(n) => n,
        None => "skin"@,
    }
}

/// What landed from a search for the query. Of a failure only the message is
/// shown.
pub fn search_landed(query: String, found: Result<Vec<Track>, Failure>) -> (outcome: SearchOutcome)
    ensures
        match found {
            Ok(tracks) => outcome == (SearchOutcome::Results { query, tracks }),
            Err(failure) => outcome matches SearchOutcome::Failed(m) && m@ == "search failed: "@
                + failure.message@,
        },
{
    match found {
        Ok(tracks) => SearchOutcome::Results { query, tracks },
        Err(failure) => {
            let mut m = "search failed: ".to_owned();
            m.append(failure.message.as_str());
            SearchOutcome::Failed(m)
        },
    }
}

/// What landed from a radio for the video. Of a failure only the message is
/// shown.
pub fn radio_landed(video_id: String, found: Result<Vec<Track>, Failure>) -> (outcome: SearchOutcome)
    ensures
        match found {
            Ok(tracks) => outcome == (SearchOutcome::Radio { video_id, tracks }),
            Err(failure) => outcome matches SearchOutcome::Failed(m) && m@ == "radio failed: "@
                + failure.message@,
        },
{
    match found {
        Ok(tracks) => SearchOutcome::Radio { video_id, tracks },
        Err(failure) => {
            let mut m = "radio failed: ".to_owned();
            m.append(failure.message.as_str());
            SearchOutcome::Failed(m)
        },
    }
}

/// A text in lower case as `str::to_lowercase` makes it.
pub uninterp spec fn lower_case(s: Seq<char>) -> Seq<char>;

/// `str::to_lowercase`: the text with every character in lower case, after
/// Unicode.
#[verifier::external_body]
fn lowercase(s: &str) -> (t: String)
    ensures
        t@ == lower_case(s@),
{
    s.to_lowercase()
}

/// Whether `a` comes after `b`, character by character.
pub open spec fn comes_after(a: Seq<char>, b: Seq<char>) -> bool
    decreases a.len(),
{
    if a.len() == 0 {
        false
    } else if b.len() == 0 {
        true
    } else if a[0] != b[0] {
        a[0] > b[0]
    } else {
        comes_after(a.drop_first(), b.drop_first())
    }
}

/// A skin of the library: its file name and its path.
#[derive(Debug)]
pub struct LibrarySkin {
    pub name: String,
    pub path: String,
}

/// What a [`LibrarySkin`] holds.
#[verifier::ext_equal]
pub struct SkinEntry {
    pub name: Seq<char>,
    pub path: Seq<char>,
}

impl View for LibrarySkin {
    type V = SkinEntry;

    open spec fn view(&self) -> SkinEntry {
        SkinEntry { name: self.name@, path: self.path@ }
    }
}

pub open spec fn entries_of(skins: Seq<LibrarySkin>) -> Seq<SkinEntry> {
    Seq::new(skins.len(), |i: int| skins[i]@)
}

/// Whether `a` is listed after `b`: by name, whatever the case.
pub open spec fn listed_after(a: SkinEntry, b: SkinEntry) -> bool {
    comes_after(lower_case(a.name), lower_case(b.name))
}

/// The list with `x` put in behind everything that it does not come before.
pub open spec fn put_in(list: Seq<SkinEntry>, x: SkinEntry) -> Seq<SkinEntry>
    decreases list.len(),
{
    if list.len() > 0 && listed_after(list.last(), x) {
        put_in(list.drop_last(), x).push(list.last())
    } else {
        list.push(x)
    }
}

/// The skins among the files.
pub open spec fn skins_among(files: Seq<Seq<char>>) -> Seq<SkinEntry>
    decreases files.len(),
{
    if files.len() == 0 {
        Seq::empty()
    } else {
        let before = skins_among(files.drop_last());
        let path = files.last();
        if skin_path(path) {
            before.push(SkinEntry { name: file_name_of(path)->0, path })
        } else {
            before
        }
    }
}

/// The skins in order of their names; equal names stay as they were.
pub open spec fn sorted_skins(skins: Seq<SkinEntry>) -> Seq<SkinEntry>
    decreases skins.len(),
{
    if skins.len() == 0 {
        Seq::empty()
    } else {
        put_in(sorted_skins(skins.drop_last()), skins.last())
    }
}

/// Whether no skin comes after the one behind it.
pub open spec fn in_order(skins: Seq<SkinEntry>) -> bool {
    forall|i: int| 0 <= i < skins.len() - 1 ==> !listed_after(#[trigger] skins[i], skins[i + 1])
}

proof fn lemma_not_both_after(a: Seq<char>, b: Seq<char>)
    ensures
        !(comes_after(a, b) && comes_after(b, a)),
    decreases a.len(),
{
    if a.len() > 0 && b.len() > 0 {
        lemma_not_both_after(a.drop_first(), b.drop_first());
    }
}

proof fn lemma_put_in(list: Seq<SkinEntry>, x: SkinEntry)
    requires
        in_order(list),
    ensures
        in_order(put_in(list, x)),
        put_in(list, x).len() == list.len() + 1,
        put_in(list, x).to_multiset() == list.to_multiset().insert(x),
        put_in(list, x).last() == x || (list.len() > 0 && put_in(list, x).last() == list.last()),
    decreases list.len(),
{
    broadcast use vstd::seq_lib::group_to_multiset_ensures;

    if list.len() > 0 && listed_after(list.last(), x) {
        let shorter = list.drop_last();
        assert forall|i: int| 0 <= i < shorter.len() - 1 implies !listed_after(
            #[trigger] shorter[i],
            shorter[i + 1],
        ) by {
            assert(!listed_after(list[i], list[i + 1]));
        }
        lemma_put_in(shorter, x);
        let inner = put_in(shorter, x);
        let outer = put_in(list, x);
        lemma_not_both_after(lower_case(list.last().name), lower_case(x.name));
        assert forall|i: int| 0 <= i < outer.len() - 1 implies !listed_after(
            #[trigger] outer[i],
            outer[i + 1],
        ) by {
            if i < inner.len() - 1 {
                assert(!listed_after(inner[i], inner[i + 1]));
            } else {
                if inner.last() != x {
                    assert(list[list.len() - 2] == shorter.last());
                    assert(!listed_after(list[list.len() - 2], list[list.len() - 1]));
                }
            }
        }
        assert(list =~= shorter.push(list.last()));
    } else {
        let outer = list.push(x);
        assert forall|i: int| 0 <= i < outer.len() - 1 implies !listed_after(
            #[trigger] outer[i],
            outer[i + 1],
        ) by {
            if i < list.len() - 1 {
                assert(!listed_after(list[i], list[i + 1]));
            }
        }
    }
}

/// Sorting brings the skins in order and neither loses nor adds one.
pub proof fn lemma_sorted_skins(skins: Seq<SkinEntry>)
    ensures
        in_order(sorted_skins(skins)),
        sorted_skins(skins).to_multiset() == skins.to_multiset(),
    decreases skins.len(),
{
    broadcast use vstd::seq_lib::group_to_multiset_ensures;

    if skins.len() > 0 {
        lemma_sorted_skins(skins.drop_last());
        lemma_put_in(sorted_skins(skins.drop_last()), skins.last());
        assert(skins =~= skins.drop_last().push(skins.last()));
    }
}

fn after(a: &Vec<char>, b: &Vec<char>) -> (yes: bool)
    ensures
        yes == comes_after(a@, b@),
{
    let mut i: usize = 0;
    assert(a@.skip(0) =~= a@ && b@.skip(0) =~= b@);
    while i < a.len() && i < b.len()
        invariant
            i <= a@.len(),
            i <= b@.len(),
            comes_after(a@, b@) == comes_after(a@.skip(i as int), b@.skip(i as int)),
        decreases a@.len() - i,
    {
        assert(a@.skip(i as int).drop_first() =~= a@.skip(i + 1));
        assert(b@.skip(i as int).drop_first() =~= b@.skip(i + 1));
        if a[i] != b[i] {
            return a[i] > b[i];
        }
        i += 1;
    }
    a.len() > i
}

/// Puts a skin into a list behind everything that it does not come before.
fn put_skin(list: &mut Vec<LibrarySkin>, skin: LibrarySkin)
    ensures
        entries_of(final(list)@) == put_in(entries_of(old(list)@), skin@),
{
    let key = text::chars(lowercase(skin.name.as_str()).as_str());
    let ghost x = skin@;
    let ghost all = entries_of(list@);
    let mut at: usize = list.len();
    assert(all.take(at as int) =~= all);
    assert(all.skip(at as int) =~= Seq::empty());
    assert(put_in(all.take(at as int), x) + all.skip(at as int) =~= put_in(all, x));
    loop
        invariant
            at <= list@.len(),
            all == entries_of(list@),
            key@ == lower_case(x.name),
            put_in(all, x) == put_in(all.take(at as int), x) + all.skip(at as int),
            *list == *old(list),
        ensures
            at == 0 || !listed_after(all[at - 1], x),
        decreases at,
    {
        if at == 0 {
            break;
        }
        assert(all[at - 1] == list@[at - 1]@);
        let before = text::chars(lowercase(list[at - 1].name.as_str()).as_str());
        if !after(&before, &key) {
            break;
        }
        proof {
            let cut = all.take(at as int);
            assert(cut.last() == all[at - 1]);
            assert(cut.drop_last() =~= all.take(at - 1));
            assert(put_in(cut, x) + all.skip(at as int) =~= put_in(all.take(at - 1), x)
                + all.skip(at - 1));
        }
        at -= 1;
    }
    list.insert(at, skin);
    proof {
        let cut = all.take(at as int);
        if at > 0 {
            assert(cut.last() == all[at - 1]);
        }
        assert(put_in(cut, x) == cut.push(x));
        assert(entries_of(list@) =~= cut.push(x) + all.skip(at as int));
    }
}

/// The skins of the library, sorted for listing. `files` are the paths of its
/// regular files, in the order that the directory gave them.
pub fn list_skins(files: &Vec<String>) -> (skins: Vec<LibrarySkin>)
    ensures
        entries_of(skins@) == sorted_skins(skins_among(text::views(files@))),
{
    let ghost all = text::views(files@);
    let mut skins: Vec<LibrarySkin> = Vec::new();
    let mut i: usize = 0;
    assert(all.take(0) =~= Seq::empty());
    assert(entries_of(skins@) =~= Seq::empty());
    while i < files.len()
        invariant
            i <= files@.len(),
            all == text::views(files@),
            entries_of(skins@) == sorted_skins(skins_among(all.take(i as int))),
        decreases files@.len() - i,
    {
        assert(all.take(i + 1).drop_last() =~= all.take(i as int));
        assert(all[i as int] == files@[i as int]@);
        let path = &files[i];
        if is_skin_file(path.as_str()) {
            if let Some(name) = file_name(path.as_str()) {
                let ghost before = skins_among(all.take(i as int));
                let ghost entry = SkinEntry { name: name@, path: path@ };
                assert(before.push(entry).drop_last() =~= before);
                put_skin(&mut skins, LibrarySkin { name, path: path.clone() });
            }
        }
        i += 1;
    }
    assert(all.take(all.len() as int) =~= all);
    skins
}

/// The skins among the paths, in their order.
pub open spec fn skin_paths(paths: Seq<Seq<char>>) -> Seq<Seq<char>>
    decreases paths.len(),
{
    if paths.len() == 0 {
        Seq::empty()
    } else if skin_path(paths.last()) {
        skin_paths(paths.drop_last()).push(paths.last())
    } else {
        skin_paths(paths.drop_last())
    }
}

/// Of files dropped on the window, those to install.
pub fn dropped_skins(paths: &Vec<String>) -> (skins: Vec<String>)
    ensures
        text::views(skins@) == skin_paths(text::views(paths@)),
{
    let ghost all = text::views(paths@);
    let mut skins: Vec<String> = Vec::new();
    let mut i: usize = 0;
    assert(all.take(0) =~= Seq::empty());
    assert(text::views(skins@) =~= Seq::empty());
    while i < paths.len()
        invariant
            i <= paths@.len(),
            all == text::views(paths@),
            text::views(skins@) == skin_paths(all.take(i as int)),
        decreases paths@.len() - i,
    {
        assert(all.take(i + 1).drop_last() =~= all.take(i as int));
        assert(all[i as int] == paths@[i as int]@);
        let path = &paths[i];
        if is_skin_file(path.as_str()) {
            let ghost before = skins@;
            skins.push(path.clone());
            assert(text::views(skins@) =~= text::views(before).push(path@));
        }
        i += 1;
    }
    assert(all.take(all.len() as int) =~= all);
    skins
}

/// Texts are ordered by the first character in which they differ; where one
/// begins the other, the longer comes after; and of two that differ one always
/// comes after.
pub proof fn lemma_order(p: Seq<char>, x: char, y: char, a: Seq<char>, b: Seq<char>)
    ensures
        x != y ==> (comes_after(p + seq![x] + a, p + seq![y] + b) <==> x > y),
        comes_after(p + seq![x] + a, p),
        !comes_after(p, p + seq![x] + a),
        !comes_after(p, p),
    decreases p.len(),
{
    let s = p + seq![x] + a;
    let t = p + seq![y] + b;
    if p.len() > 0 {
        let q = p.drop_first();
        lemma_order(q, x, y, a, b);
        assert(s.drop_first() =~= q + seq![x] + a);
        assert(t.drop_first() =~= q + seq![y] + b);
    }
}

/// Of two skins whose names differ only in case neither is listed after the
/// other, and such skins stay in the order in which they were found.
pub proof fn lemma_equal_names_stay(list: Seq<SkinEntry>, x: SkinEntry)
    requires
        list.len() > 0,
        lower_case(list.last().name) == lower_case(x.name),
    ensures
        put_in(list, x) == list + seq![x],
{
    lemma_not_both_after(lower_case(x.name), lower_case(x.name));
    assert(list.push(x) =~= list + seq![x]);
}

/// One file more adds one skin at the end, with the file's name and its whole
/// path, or none where it is no skin.
pub proof fn lemma_skins_among(files: Seq<Seq<char>>, path: Seq<char>)
    ensures
        skin_path(path) ==> skins_among(files.push(path)) == skins_among(files) + seq![
            SkinEntry { name: file_name_of(path)->0, path },
        ],
        !skin_path(path) ==> skins_among(files.push(path)) == skins_among(files),
        skin_path(path) ==> skin_paths(files.push(path)) == skin_paths(files) + seq![path],
        !skin_path(path) ==> skin_paths(files.push(path)) == skin_paths(files),
        skins_among(Seq::empty()).len() == 0,
        skin_paths(Seq::empty()).len() == 0,
{
    assert(files.push(path).drop_last() =~= files);
    if skin_path(path) {
        let entry = SkinEntry { name: file_name_of(path)->0, path };
        assert(skins_among(files).push(entry) =~= skins_among(files) + seq![entry]);
        assert(skin_paths(files).push(path) =~= skin_paths(files) + seq![path]);
    }
}

/// What the mini player changed through its host, for the settings to keep.
#[derive(Clone, Copy, Debug)]
pub enum HostEcho {
    Volume(Single),
    Eq(EqSettings),
}

/// The echo of a command that the mini player sends.
pub fn echo_of(cmd: &PlayerCommand) -> (echo: Option<HostEcho>)
    ensures
        echo == (match *cmd {
            PlayerCommand::SetVolume(v) => Some(HostEcho::Volume(v)),
            PlayerCommand::SetEq { enabled, gains_db, preamp_db } => Some(
                HostEcho::Eq(EqSettings { enabled, gains_db, preamp_db }),
            ),
            _ => None,
        }),
{
    match cmd {
        PlayerCommand::SetVolume(v) => Some(HostEcho::Volume(*v)),
        PlayerCommand::SetEq { enabled, gains_db, preamp_db } => Some(
            HostEcho::Eq(
                EqSettings { enabled: *enabled, gains_db: *gains_db, preamp_db: *preamp_db },
            ),
        ),
        _ => None,
    }
}

/// What the settings keep of echoes, one after another.
pub open spec fn after_echoes(s: Settings, echoes: Seq<HostEcho>) -> Settings
    decreases echoes.len(),
{
    if echoes.len() == 0 {
        s
    } else {
        let before = after_echoes(s, echoes.drop_last());
        match echoes.last() {
            HostEcho::Volume(v) => Settings {
                volume: v.clamped(bits::single_zero(), bits::single_one()),
                ..before
            },
            HostEcho::Eq(eq) => Settings { eq, ..before },
        }
    }
}

/// The app as one frame of the mini player sees it: copies to draw from, and
/// what the frame asks for.
pub struct HostView {
    pub state: PlaybackState,
    pub spectrum: SpectrumFrame,
    pub eq: EqSettings,
    /// For the player.
    pub commands: Vec<PlayerCommand>,
    /// For the settings.
    pub echoes: Vec<HostEcho>,
    /// Skin files to install.
    pub skin_requests: Vec<String>,
}

impl HostView {
    /// Sends a command to the player. Turns of the volume and the equalizer
    /// also go back to the app, which keeps them.
    pub fn cmd(&mut self, command: PlayerCommand)
        ensures
            final(self).commands@ == old(self).commands@.push(command),
            final(self).echoes@ == (match command {
                PlayerCommand::SetVolume(v) => old(self).echoes@.push(HostEcho::Volume(v)),
                PlayerCommand::SetEq { enabled, gains_db, preamp_db } => old(self).echoes@.push(
                    HostEcho::Eq(EqSettings { enabled, gains_db, preamp_db }),
                ),
                _ => old(self).echoes@,
            }),
            *final(self) == (HostView {
                commands: final(self).commands,
                echoes: final(self).echoes,
                ..*old(self)
            }),
    {
        if let Some(echo) = echo_of(&command) {
            self.echoes.push(echo);
        }
        self.commands.push(command);
    }

    /// A skin file was dropped; it is installed after the frame.
    pub fn load_skin_file(&mut self, path: &str)
        ensures
            text::views(final(self).skin_requests@) == text::views(
                old(self).skin_requests@,
            ).push(path@),
            *final(self) == (HostView {
                skin_requests: final(self).skin_requests,
                ..*old(self)
            }),
    {
        let ghost before = self.skin_requests@;
        self.skin_requests.push(path.to_owned());
        assert(text::views(self.skin_requests@) =~= text::views(before).push(path@));
    }
}

fn copy_levels(levels: &Vec<Single>) -> (copy: Vec<Single>)
    ensures
        copy@ == levels@,
{
    let mut copy: Vec<Single> = Vec::new();
    let mut i: usize = 0;
    while i < levels.len()
        invariant
            i <= levels@.len(),
            copy@ == levels@.take(i as int),
        decreases levels@.len() - i,
    {
        assert(levels@.take(i + 1) =~= levels@.take(i as int).push(levels@[i as int]));
        copy.push(levels[i]);
        i += 1;
    }
    assert(levels@.take(levels@.len() as int) =~= levels@);
    copy
}

/// The text of a jar that has anything in it.
pub open spec fn usable(jar: Option<Seq<char>>) -> Option<Seq<char>> {
    match jar {
        Some(t) if text::trimmed(t).len() > 0 => Some(t),
        _ => None,
    }
}

/// The text of a cookie file, unless it is blank.
pub fn usable_cookies(jar: Option<String>) -> (cookies: Option<String>)
    ensures
        model::text_view(cookies) == usable(model::text_view(jar)),
{
    match jar {
        Some(t) => if text::trim(t.as_str()).as_str().is_empty() {
            None
        } else {
            Some(t)
        },
        None => None,
    }
}

/// Whatever a frame turns the volume to ends in the settings, within its range,
/// where the turn was no NaN.
pub proof fn lemma_echo_keeps_volume(s: Settings, echoes: Seq<HostEcho>, v: Single)
    requires
        !v.nan(),
    ensures
        ({
            let kept = after_echoes(s, echoes.push(HostEcho::Volume(v))).volume;
            &&& 0 <= kept.rank() <= bits::single_one().rank()
            &&& 0 <= v.rank() <= bits::single_one().rank() ==> kept == v
        }),
{
    assert(echoes.push(HostEcho::Volume(v)).drop_last() =~= echoes);
    bits::lemma_single_clamp(v, bits::single_zero(), bits::single_one());
}

/// An echo of the equalizer is what the settings keep of it; an echo of one
/// leaves the other, and everything else, as it was.
pub proof fn lemma_echoes_kept(s: Settings, echoes: Seq<HostEcho>, v: Single, eq: EqSettings)
    ensures
        ({
            let before = after_echoes(s, echoes);
            let turned = after_echoes(s, echoes.push(HostEcho::Volume(v)));
            let shaped = after_echoes(s, echoes.push(HostEcho::Eq(eq)));
            &&& shaped.eq == eq
            &&& shaped == (Settings { eq: shaped.eq, ..before })
            &&& turned == (Settings { volume: turned.volume, ..before })
        }),
        after_echoes(s, Seq::empty()) == s,
{
    assert(echoes.push(HostEcho::Volume(v)).drop_last() =~= echoes);
    assert(echoes.push(HostEcho::Eq(eq)).drop_last() =~= echoes);
}

/// A jar of nothing but white space is no jar; any other is used as it is.
pub proof fn lemma_usable(jar: Seq<char>, i: int)
    ensures
        0 <= i < jar.len() && !text::is_white(jar[i]) ==> usable(Some(jar)) == Some(jar),
        (forall|k: int| 0 <= k < jar.len() ==> text::is_white(#[trigger] jar[k])) ==> usable(
            Some(jar),
        ) is None,
        usable(None) is None,
{
    if forall|k: int| 0 <= k < jar.len() ==> text::is_white(#[trigger] jar[k]) {
        text::lemma_trimmed_is(jar, Seq::empty(), Seq::empty());
        assert(jar + Seq::<char>::empty() + Seq::<char>::empty() =~= jar);
    }
    if 0 <= i < jar.len() && !text::is_white(jar[i]) {
        text::lemma_trimmed_holds(jar, i);
    }
}

/// Where an installed skin goes.
pub struct InstallPlan {
    pub name: String,
    pub dest: String,
    /// Whether the file has to be copied there.
    pub copy: bool,
}

/// How a dropped file is installed, or the message that says why it is not.
pub fn plan_install(path: &str, is_file: bool, skins_dir: &str) -> (plan: Result<
    InstallPlan,
    String,
>)
    ensures
        match plan {
            Ok(p) => {
                &&& is_file
                &&& file_name_of(path@) == Some(p.name@)
                &&& p.dest@ == settings::joined_path(skins_dir@, p.name@)
                &&& p.copy == !same_place(p.dest@, path@)
            },
            Err(m) => if !is_file {
                m@ == path@ + " is not a file"@
            } else {
                file_name_of(path@) is None && m@ == path@ + " has no file name"@
            },
        },
{
    if !is_file {
        let mut m = path.to_owned();
        m.append(" is not a file");
        return Err(m);
    }
    match file_name(path) {
        Some(name) => {
            let dest = join_path(skins_dir, name.as_str());
            let copy = !same_path(dest.as_str(), path);
            Ok(InstallPlan { name, dest, copy })
        },
        None => {
            let mut m = path.to_owned();
            m.append(" has no file name");
            Err(m)
        },
    }
}

/// The tracks that the queue does not have yet.
pub open spec fn fresh_tracks(
    tracks: Seq<model::TrackView>,
    known: spec_fn(Seq<char>) -> bool,
) -> Seq<model::TrackView>
    decreases tracks.len(),
{
    if tracks.len() == 0 {
        Seq::empty()
    } else if known(tracks.last().video_id) {
        fresh_tracks(tracks.drop_last(), known)
    } else {
        fresh_tracks(tracks.drop_last(), known).push(tracks.last())
    }
}

/// Whether a radio track is one that is queued already, or the seed of a radio
/// started from the results.
pub open spec fn known_track(
    queue: Seq<model::TrackView>,
    results: Seq<model::TrackView>,
    seed: Seq<char>,
) -> spec_fn(Seq<char>) -> bool {
    |id: Seq<char>|
        search::has_video(queue, id) || (id == seed && search::has_video(results, seed))
}

/// No track that a radio adds is one that was queued.
pub proof fn lemma_radio_is_fresh(
    tracks: Seq<model::TrackView>,
    known: spec_fn(Seq<char>) -> bool,
)
    ensures
        forall|i: int|
            0 <= i < fresh_tracks(tracks, known).len() ==> !known(
                (#[trigger] fresh_tracks(tracks, known)[i]).video_id,
            ),
        fresh_tracks(tracks, known).len() <= tracks.len(),
    decreases tracks.len(),
{
    if tracks.len() > 0 {
        lemma_radio_is_fresh(tracks.drop_last(), known);
    }
}

/// One track more of a radio is queued behind the others unless its video is in
/// the queue already, or it is the seed itself and the seed came from the
/// results.
pub proof fn lemma_radio_adds(
    tracks: Seq<model::TrackView>,
    t: model::TrackView,
    queue: Seq<model::TrackView>,
    results: Seq<model::TrackView>,
    seed: Seq<char>,
)
    ensures
        ({
            let known = known_track(queue, results, seed);
            let queued = exists|i: int|
                0 <= i < queue.len() && (#[trigger] queue[i]).video_id == t.video_id;
            let listed = exists|i: int|
                0 <= i < results.len() && (#[trigger] results[i]).video_id == seed;
            let before = fresh_tracks(tracks, known);
            let after = fresh_tracks(tracks.push(t), known);
            &&& queued ==> after == before
            &&& t.video_id == seed && listed ==> after == before
            &&& !queued && (t.video_id != seed || !listed) ==> after == before + seq![t]
        }),
{
    assert(tracks.push(t).drop_last() =~= tracks);
    let known = known_track(queue, results, seed);
    let before = fresh_tracks(tracks, known);
    assert(before.push(t) =~= before + seq![t]);
}

fn keep_fresh(tracks: Vec<Track>, queue: &Vec<Track>, results: &Vec<Track>, seed: &str) -> (fresh:
    Vec<Track>)
    ensures
        model::track_views(fresh@) == fresh_tracks(
            model::track_views(tracks@),
            known_track(model::track_views(queue@), model::track_views(results@), seed@),
        ),
{
    let ghost all = model::track_views(tracks@);
    let ghost known = known_track(
        model::track_views(queue@),
        model::track_views(results@),
        seed@,
    );
    let seeded = search::plays(results, seed);
    let mut fresh: Vec<Track> = Vec::new();
    let mut i: usize = 0;
    assert(all.take(0) =~= Seq::empty());
    assert(model::track_views(fresh@) =~= Seq::empty());
    while i < tracks.len()
        invariant
            i <= tracks@.len(),
            all == model::track_views(tracks@),
            known == known_track(
                model::track_views(queue@),
                model::track_views(results@),
                seed@,
            ),
            seeded == search::has_video(model::track_views(results@), seed@),
            model::track_views(fresh@) == fresh_tracks(all.take(i as int), known),
        decreases tracks@.len() - i,
    {
        assert(all.take(i + 1).drop_last() =~= all.take(i as int));
        assert(all[i as int] == tracks@[i as int]@);
        let t = &tracks[i];
        let is_known = search::plays(queue, t.video_id.as_str()) || (seeded && text::same(
            t.video_id.as_str(),
            seed,
        ));
        if !is_known {
            let ghost before = fresh@;
            fresh.push(t.clone());
            assert(model::track_views(fresh@) =~= model::track_views(before).push(t@));
        }
        i += 1;
    }
    assert(all.take(all.len() as int) =~= all);
    fresh
}

/// The application: everything that any of its windows draws from.
pub struct YtampApp {
    pub settings: Settings,
    pub settings_dirty: bool,
    /// When the settings were last saved, in milliseconds.
    pub last_settings_save: Option<u64>,
    /// The latest state of the player.
    pub state: PlaybackState,
    pub spectrum: SpectrumFrame,
    /// What is to be said about the player, if anything.
    pub engine_note: Option<String>,
    pub search: SearchState,
    pub skin: Option<Skin>,
    pub mini: standins::WinampState,
    pub toasts: Vec<Toast>,
    /// The window is to be opened again as the other kind.
    pub switch_intent: bool,
    pub page: Page,
    pub eq_open: bool,
    /// Where the position slider is held, in seconds.
    pub scrub: Option<Double>,
    /// Whether the queue is shown beside the main window.
    pub show_queue: bool,
    /// The window title last set.
    pub window_title: String,
}

/// The window's title: the running track, or the app's name.
pub open spec fn title_for(playing: bool, track: Option<Track>) -> Seq<char> {
    if playing && track is Some {
        model::display_name(track->0@) + " — ytamp"@
    } else {
        "ytamp"@
    }
}

/// The app on its way from the main window to the mini player, or back: a mini
/// player that is left remembers where it was.
pub open spec fn flipped(app: YtampApp) -> YtampApp {
    YtampApp {
        settings: Settings { winamp_window: !app.settings.winamp_window, ..app.settings },
        mini: standins::WinampState {
            restore_pos: if app.settings.winamp_window && app.mini.last_pos is Some {
                app.mini.last_pos
            } else {
                app.mini.restore_pos
            },
            ..app.mini
        },
        settings_dirty: true,
        switch_intent: true,
        ..app
    }
}

/// Flipping twice is back in the window that was open, and the player, the
/// queue, the search and the banners are as they were.
pub proof fn lemma_flip_back(app: YtampApp)
    ensures
        flipped(flipped(app)).settings == app.settings,
        flipped(flipped(app)).state == app.state,
        flipped(flipped(app)).search == app.search,
        flipped(flipped(app)).toasts == app.toasts,
        flipped(flipped(app)).mini.scale == app.mini.scale,
        flipped(flipped(app)).switch_intent,
{
}

/// The scale that settings stand for.
pub open spec fn scale_in_range(scale: u8) -> u8 {
    if scale < 1 {
        1
    } else if scale > 4 {
        4
    } else {
        scale
    }
}

/// While a track plays its name stands in the window's title, before the app's;
/// otherwise the app's name stands alone.
pub proof fn lemma_title(playing: bool, track: Option<Track>)
    ensures
        !playing || track is None ==> title_for(playing, track) == "ytamp"@,
        track matches Some(t) ==> playing ==> title_for(playing, track) == model::display_name(t@)
            + " — ytamp"@,
{
}

/// Flipping opens the other kind of window, has the settings saved, and leaves a
/// mini player that was open with the place where it was seen last.
pub proof fn lemma_flip(app: YtampApp)
    ensures
        flipped(app).settings.winamp_window != app.settings.winamp_window,
        flipped(app).settings_dirty,
        flipped(app).switch_intent,
        flipped(app).settings == (Settings {
            winamp_window: flipped(app).settings.winamp_window,
            ..app.settings
        }),
        app.settings.winamp_window && app.mini.last_pos is Some ==> flipped(app).mini.restore_pos
            == app.mini.last_pos,
        !app.settings.winamp_window ==> flipped(app).mini == app.mini,
        flipped(app).state == app.state,
        flipped(app).search == app.search,
        flipped(app).toasts == app.toasts,
{
}

/// The scale is a whole number from one to four; what lies in between is taken.
pub proof fn lemma_scale(scale: u8)
    ensures
        1 <= scale_in_range(scale) <= 4,
        1 <= scale <= 4 ==> scale_in_range(scale) == scale,
        scale > 4 ==> scale_in_range(scale) == 4,
        scale == 0 ==> scale_in_range(scale) == 1,
{
}

pub fn clamp_scale(scale: u8) -> (s: u8)
    ensures
        s == scale_in_range(scale),
{
    if scale < 1 {
        1
    } else if scale > 4 {
        4
    } else {
        scale
    }
}

impl YtampApp {
    /// The app around loaded settings, and whether the player could be started.
    /// The second result are the commands that bring the player up to the
    /// settings.
    pub fn new(settings: Settings, engine: Result<(), String>) -> (r: (Self, Vec<PlayerCommand>))
        ensures
            r.0.settings == settings,
            !r.0.settings_dirty,
            r.0.last_settings_save is None,
            !r.0.state.playing,
            r.0.state.track is None,
            r.0.state.position_secs == bits::double_zero(),
            r.0.state.duration_secs is None,
            r.0.state.queue@.len() == 0,
            r.0.state.queue_index is None,
            r.0.state.volume == settings.volume,
            r.0.spectrum.bands@.len() == 0,
            model::text_view(r.0.engine_note) == Some(
                match engine {
                    Ok(_) => "offline (stand-in engine)"@,
                    Err(e) => "failed: "@ + e@,
                },
            ),
            r.0.search.query@.len() == 0,
            r.0.search.committed@.len() == 0,
            !r.0.search.searching,
            r.0.search.results@.len() == 0,
            r.0.search.selected is None,
            r.0.search.scroll_to is None,
            r.0.skin is None,
            r.0.mini.scale == scale_in_range(settings.skin_scale),
            !r.0.mini.time_remaining && !r.0.mini.eq_open,
            !r.0.mini.wants_exit && !r.0.mini.wants_eq,
            r.0.mini.restore_pos is None && r.0.mini.last_pos is None,
            !r.0.mini.eq_scratch.enabled,
            r.0.mini.eq_scratch.preamp_db == bits::double_zero(),
            forall|i: int| 0 <= i < 10 ==> #[trigger] r.0.mini.eq_scratch.gains_db@[i] == bits::double_zero(),
            r.0.toasts@.len() == 0,
            !r.0.switch_intent,
            r.0.page == Page::Search,
            !r.0.eq_open,
            r.0.scrub is None,
            r.0.show_queue,
            r.0.window_title@ == "ytamp"@,
            r.1@ == seq![
                PlayerCommand::SetVolume(settings.volume),
                PlayerCommand::SetEq {
                    enabled: settings.eq.enabled,
                    gains_db: settings.eq.gains_db,
                    preamp_db: settings.eq.preamp_db,
                },
            ],
    {
        let note = match engine {
            Ok(_) => "offline (stand-in engine)".to_owned(),
            Err(error) => {
                let mut note = "failed: ".to_owned();
                note.append(error.as_str());
                note
            },
        };
        let mut mini = standins::WinampState::default();
        mini.scale = clamp_scale(settings.skin_scale);
        let mut state = PlaybackState::default();
        state.volume = settings.volume;
        let mut commands: Vec<PlayerCommand> = Vec::new();
        commands.push(PlayerCommand::SetVolume(settings.volume));
        commands.push(settings.eq.command());
        let app = YtampApp {
            settings,
            settings_dirty: false,
            last_settings_save: None,
            state,
            spectrum: SpectrumFrame { bands: Vec::new() },
            engine_note: Some(note),
            search: SearchState {
                query: String::new(),
                committed: String::new(),
                searching: false,
                results: Vec::new(),
                selected: None,
                scroll_to: None,
            },
            skin: None,
            mini,
            toasts: Vec::new(),
            switch_intent: false,
            page: Page::Search,
            eq_open: false,
            scrub: None,
            show_queue: true,
            window_title: "ytamp".to_owned(),
        };
        (app, commands)
    }

    fn push_toast(&mut self, kind: ToastKind, t: &str, now: u64)
        requires
            now <= u64::MAX - TOAST_LIFETIME_MS,
        ensures
            toast_views(final(self).toasts@) == toasted(
                toast_views(old(self).toasts@),
                kind,
                t@,
                now,
            ),
            *final(self) == (YtampApp { toasts: final(self).toasts, ..*old(self) }),
    {
        let ghost before = toast_views(self.toasts@);
        let ghost all = before.push(ToastView { kind, text: t@, until: (now + TOAST_LIFETIME_MS) as u64 });
        self.toasts.push(Toast { kind, text: t.to_owned(), until: now + TOAST_LIFETIME_MS });
        assert(toast_views(self.toasts@) =~= all);
        assert(all.skip(0) =~= all);
        let ghost mut gone: int = 0;
        while self.toasts.len() > TOAST_MAX
            invariant
                0 <= gone <= all.len(),
                toast_views(self.toasts@) == all.skip(gone),
                gone > 0 ==> all.len() - gone >= TOAST_MAX,
                *self == (YtampApp { toasts: self.toasts, ..*old(self) }),
            decreases self.toasts@.len(),
        {
            let ghost shown = self.toasts@;
            assert(toast_views(shown).len() == shown.len());
            self.toasts.remove(0);
            proof {
                gone = gone + 1;
                assert forall|k: int| 0 <= k < self.toasts@.len() implies (
                #[trigger] self.toasts@[k])@ == all.skip(gone)[k] by {
                    assert(self.toasts@[k] == shown[k + 1]);
                    assert(toast_views(shown)[k + 1] == all.skip(gone - 1)[k + 1]);
                }
                assert(toast_views(self.toasts@) =~= all.skip(gone));
            }
        }
        assert(toast_views(self.toasts@).len() == self.toasts@.len());
    }

    pub fn toast(&mut self, t: &str, now: u64)
        requires
            now <= u64::MAX - TOAST_LIFETIME_MS,
        ensures
            toast_views(final(self).toasts@) == toasted(
                toast_views(old(self).toasts@),
                ToastKind::Info,
                t@,
                now,
            ),
            *final(self) == (YtampApp { toasts: final(self).toasts, ..*old(self) }),
    {
        self.push_toast(ToastKind::Info, t, now);
    }

    pub fn toast_error(&mut self, t: &str, now: u64)
        requires
            now <= u64::MAX - TOAST_LIFETIME_MS,
        ensures
            toast_views(final(self).toasts@) == toasted(
                toast_views(old(self).toasts@),
                ToastKind::Error,
                t@,
                now,
            ),
            *final(self) == (YtampApp { toasts: final(self).toasts, ..*old(self) }),
    {
        self.push_toast(ToastKind::Error, t, now);
    }

    /// Takes away the banners whose time has passed.
    pub fn tick_toasts(&mut self, now: u64)
        ensures
            toast_views(final(self).toasts@) == lasting(toast_views(old(self).toasts@), now),
            *final(self) == (YtampApp { toasts: final(self).toasts, ..*old(self) }),
    {
        let ghost all = toast_views(self.toasts@);
        let mut kept: Vec<Toast> = Vec::new();
        let mut i: usize = 0;
        assert(all.take(0) =~= Seq::empty());
        assert(toast_views(kept@) =~= Seq::empty());
        while i < self.toasts.len()
            invariant
                i <= self.toasts@.len(),
                all == toast_views(self.toasts@),
                toast_views(kept@) == lasting(all.take(i as int), now),
                *self == *old(self),
            decreases self.toasts@.len() - i,
        {
            assert(all.take(i + 1).drop_last() =~= all.take(i as int));
            assert(all[i as int] == self.toasts@[i as int]@);
            let t = &self.toasts[i];
            if t.until > now {
                let ghost before = kept@;
                kept.push(Toast { kind: t.kind, text: t.text.clone(), until: t.until });
                assert(toast_views(kept@) =~= toast_views(before).push(t@));
            }
            i += 1;
        }
        assert(all.take(all.len() as int) =~= all);
        self.toasts = kept;
    }

    /// Takes away a banner that was clicked.
    pub fn dismiss_toast(&mut self, index: usize)
        requires
            index < old(self).toasts@.len(),
        ensures
            final(self).toasts@ == old(self).toasts@.remove(index as int),
            *final(self) == (YtampApp { toasts: final(self).toasts, ..*old(self) }),
    {
        self.toasts.remove(index);
    }

    pub fn mark_dirty(&mut self)
        ensures
            *final(self) == (YtampApp { settings_dirty: true, ..*old(self) }),
    {
        self.settings_dirty = true;
    }

    /// Whether the settings are to be saved now: they changed, and the last
    /// save is long enough ago.
    pub fn save_due(&self, now: u64) -> (due: bool)
        ensures
            due == (self.settings_dirty && match self.last_settings_save {
                Some(at) => now >= at && now - at >= SAVE_PERIOD_MS,
                None => true,
            }),
    {
        self.settings_dirty && standins::is_due(self.last_settings_save, now, SAVE_PERIOD_MS)
    }

    /// The settings were saved.
    pub fn saved(&mut self, now: u64)
        ensures
            *final(self) == (YtampApp {
                settings_dirty: false,
                last_settings_save: Some(now),
                ..*old(self)
            }),
    {
        self.settings_dirty = false;
        self.last_settings_save = Some(now);
    }

    /// The command that hands the equalizer's settings to the player.
    pub fn send_eq(&self) -> (cmd: PlayerCommand)
        ensures
            cmd == (PlayerCommand::SetEq {
                enabled: self.settings.eq.enabled,
                gains_db: self.settings.eq.gains_db,
                preamp_db: self.settings.eq.preamp_db,
            }),
    {
        self.settings.eq.command()
    }

    pub fn set_volume(&mut self, volume: Single) -> (cmd: PlayerCommand)
        ensures
            cmd == PlayerCommand::SetVolume(final(self).settings.volume),
            *final(self) == (YtampApp {
                settings: Settings {
                    volume: volume.clamped(bits::single_zero(), bits::single_one()),
                    ..old(self).settings
                },
                settings_dirty: true,
                ..*old(self)
            }),
    {
        self.settings.volume = volume.clamp(Single::zero(), Single::one());
        self.settings_dirty = true;
        PlayerCommand::SetVolume(self.settings.volume)
    }

    /// Flips between the main window and the mini player. The window is then to
    /// be closed and opened again.
    pub fn toggle_mini(&mut self)
        ensures
            *final(self) == flipped(*old(self)),
    {
        if self.settings.winamp_window {
            self.mini.remember_position();
        }
        self.settings.winamp_window = !self.settings.winamp_window;
        self.settings_dirty = true;
        self.switch_intent = true;
    }

    /// A window was opened around the app. The result is where the mini player
    /// goes, where it is the one that opens and a place is remembered.
    pub fn attach(&mut self) -> (position: Option<(Single, Single)>)
        ensures
            position == (if old(self).settings.winamp_window {
                old(self).mini.restore_pos
            } else {
                None
            }),
            *final(self) == (YtampApp { switch_intent: false, ..*old(self) }),
    {
        self.switch_intent = false;
        if self.settings.winamp_window {
            self.mini.restore_pos
        } else {
            None
        }
    }

    /// A dropped file could not be copied into the library.
    pub fn copy_failed(&mut self, error: &str, now: u64)
        requires
            now <= u64::MAX - TOAST_LIFETIME_MS,
        ensures
            toast_views(final(self).toasts@) == toasted(
                toast_views(old(self).toasts@),
                ToastKind::Error,
                "could not copy skin into library: "@ + error@,
                now,
            ),
            *final(self) == (YtampApp { toasts: final(self).toasts, ..*old(self) }),
    {
        let mut m = "could not copy skin into library: ".to_owned();
        m.append(error);
        self.toast_error(m.as_str(), now);
    }

    /// Takes in the outcome of loading a skin of the library.
    pub fn skin_loaded(&mut self, name: &str, loaded: Result<Skin, SkinError>, now: u64)
        requires
            now <= u64::MAX - TOAST_LIFETIME_MS,
        ensures
            match loaded {
                Ok(s) => {
                    &&& final(self).skin == Some(s)
                    &&& model::text_view(final(self).settings.skin) == Some(name@)
                    &&& toast_views(final(self).toasts@) == toasted(
                        toast_views(old(self).toasts@),
                        ToastKind::Info,
                        "Skin: "@ + s.name@,
                        now,
                    )
                    &&& *final(self) == (YtampApp {
                        skin: final(self).skin,
                        settings: Settings {
                            skin: final(self).settings.skin,
                            ..old(self).settings
                        },
                        settings_dirty: true,
                        toasts: final(self).toasts,
                        ..*old(self)
                    })
                },
                Err(e) => {
                    &&& toast_views(final(self).toasts@) == toasted(
                        toast_views(old(self).toasts@),
                        ToastKind::Error,
                        "skin "@ + name@ + ": "@ + e.0@,
                        now,
                    )
                    &&& *final(self) == (YtampApp { toasts: final(self).toasts, ..*old(self) })
                },
            },
    {
        match loaded {
            Ok(skin) => {
                let mut m = "Skin: ".to_owned();
                m.append(skin.name.as_str());
                self.skin = Some(skin);
                self.settings.skin = Some(name.to_owned());
                self.settings_dirty = true;
                self.toast(m.as_str(), now);
            },
            Err(e) => {
                let mut m = "skin ".to_owned();
                m.append(name);
                m.append(": ");
                m.append(e.0.as_str());
                self.toast_error(m.as_str(), now);
            },
        }
    }

    /// Back to the built-in look.
    pub fn clear_skin(&mut self, now: u64)
        requires
            now <= u64::MAX - TOAST_LIFETIME_MS,
        ensures
            toast_views(final(self).toasts@) == toasted(
                toast_views(old(self).toasts@),
                ToastKind::Info,
                "Skin: built-in"@,
                now,
            ),
            *final(self) == (YtampApp {
                skin: None,
                settings: Settings { skin: None, ..old(self).settings },
                settings_dirty: true,
                toasts: final(self).toasts,
                ..*old(self)
            }),
    {
        self.skin = None;
        self.settings.skin = None;
        self.settings_dirty = true;
        self.toast("Skin: built-in", now);
    }

    /// Points the session at a cookie file or at none. `jar` is what the file
    /// holds, where it could be read. The result is the jar for the new session.
    pub fn set_cookie_path(&mut self, path: Option<String>, jar: Option<String>, now: u64) -> (
        cookies: Option<String>)
        requires
            now <= u64::MAX - TOAST_LIFETIME_MS,
        ensures
            model::text_view(cookies) == (if path is Some {
                usable(model::text_view(jar))
            } else {
                None
            }),
            toast_views(final(self).toasts@) == toasted(
                toast_views(old(self).toasts@),
                ToastKind::Info,
                match path {
                    Some(p) => if usable(model::text_view(jar)) is Some {
                        "Cookies loaded"@
                    } else {
                        "Cookie file empty or missing: "@ + p@
                    },
                    None => "Cookies cleared"@,
                },
                now,
            ),
            *final(self) == (YtampApp {
                settings: Settings { cookie_path: path, ..old(self).settings },
                settings_dirty: true,
                toasts: final(self).toasts,
                ..*old(self)
            }),
    {
        self.settings_dirty = true;
        match path {
            Some(p) => {
                let cookies = usable_cookies(jar);
                if cookies.is_some() {
                    self.toast("Cookies loaded", now);
                } else {
                    let mut m = "Cookie file empty or missing: ".to_owned();
                    m.append(p.as_str());
                    self.toast(m.as_str(), now);
                }
                self.settings.cookie_path = Some(p);
                cookies
            },
            None => {
                self.settings.cookie_path = None;
                self.toast("Cookies cleared", now);
                None
            },
        }
    }

    /// Commits the typed query. The result is what to search for.
    pub fn begin_search(&mut self) -> (query: Option<String>)
        ensures
            match query {
                Some(q) => {
                    &&& q@ == text::trimmed(old(self).search.query@)
                    &&& q@.len() > 0
                    &&& text::views(final(self).settings.search_history@) == settings::remembered(
                        text::views(old(self).settings.search_history@),
                        q@,
                    )
                    &&& final(self).search.committed@ == q@
                    &&& *final(self) == (YtampApp {
                        settings: Settings {
                            search_history: final(self).settings.search_history,
                            ..old(self).settings
                        },
                        settings_dirty: true,
                        search: SearchState {
                            committed: final(self).search.committed,
                            searching: true,
                            selected: None,
                            scroll_to: None,
                            ..old(self).search
                        },
                        page: Page::Search,
                        ..*old(self)
                    })
                },
                None => text::trimmed(old(self).search.query@).len() == 0 && *final(self) == *old(
                    self,
                ),
            },
    {
        let q = text::trim(self.search.query.as_str());
        if q.as_str().is_empty() {
            return None;
        }
        self.settings.remember_search(q.as_str());
        self.settings_dirty = true;
        self.search.committed = q.clone();
        self.search.searching = true;
        self.search.selected = None;
        self.search.scroll_to = None;
        self.page = Page::Search;
        Some(q)
    }

    /// Plays result `index`: the results become the queue. The result is the
    /// command, and the video whose radio is to follow.
    pub fn play_result(&mut self, index: usize) -> (r: Option<(PlayerCommand, String)>)
        ensures
            match r {
                Some((cmd, id)) => {
                    &&& index < old(self).search.results@.len()
                    &&& id@ == old(self).search.results@[index as int].video_id@
                    &&& cmd matches PlayerCommand::QueueReplace(tracks, start) && tracks@ == old(
                        self,
                    ).search.results@ && start == Some(index)
                    &&& *final(self) == (YtampApp {
                        search: SearchState { selected: Some(index), ..old(self).search },
                        ..*old(self)
                    })
                },
                None => index >= old(self).search.results@.len() && *final(self) == *old(self),
            },
    {
        if index >= self.search.results.len() {
            return None;
        }
        let id = self.search.results[index].video_id.clone();
        let tracks = clone_tracks(&self.search.results);
        self.search.selected = Some(index);
        Some((PlayerCommand::QueueReplace(tracks, Some(index)), id))
    }

    /// Takes in what landed from a search or a radio. The result is a command
    /// for the player, where there is one.
    pub fn apply_search_outcome(&mut self, outcome: SearchOutcome, now: u64) -> (cmd: Option<
        PlayerCommand,
    >)
        requires
            now <= u64::MAX - TOAST_LIFETIME_MS,
        ensures
            match outcome {
                SearchOutcome::Results { query, tracks } => {
                    &&& cmd is None
                    &&& if query@ != old(self).search.committed@ {
                        *final(self) == *old(self)
                    } else {
                        &&& toast_views(final(self).toasts@) == (if tracks@.len() == 0 {
                            toasted(
                                toast_views(old(self).toasts@),
                                ToastKind::Info,
                                "No results for “"@ + query@ + "”"@,
                                now,
                            )
                        } else {
                            toast_views(old(self).toasts@)
                        })
                        &&& *final(self) == (YtampApp {
                            search: SearchState {
                                searching: false,
                                results: tracks,
                                selected: if tracks@.len() > 0 {
                                    Some(0)
                                } else {
                                    None
                                },
                                scroll_to: None,
                                ..old(self).search
                            },
                            toasts: final(self).toasts,
                            ..*old(self)
                        })
                    }
                },
                SearchOutcome::Radio { video_id, tracks } => {
                    let fresh = fresh_tracks(
                        model::track_views(tracks@),
                        known_track(
                            model::track_views(old(self).state.queue@),
                            model::track_views(old(self).search.results@),
                            video_id@,
                        ),
                    );
                    &&& *final(self) == (YtampApp { toasts: final(self).toasts, ..*old(self) })
                    &&& if fresh.len() == 0 {
                        cmd is None && toast_views(final(self).toasts@) == toast_views(
                            old(self).toasts@,
                        )
                    } else {
                        &&& cmd matches Some(PlayerCommand::QueueAppend(added))
                            && model::track_views(added@) == fresh
                        &&& toast_views(final(self).toasts@) == toasted(
                            toast_views(old(self).toasts@),
                            ToastKind::Info,
                            "Radio: +"@ + text::decimal(fresh.len()) + " tracks"@,
                            now,
                        )
                    }
                },
                SearchOutcome::Failed(error) => {
                    &&& cmd is None
                    &&& toast_views(final(self).toasts@) == toasted(
                        toast_views(old(self).toasts@),
                        ToastKind::Error,
                        error@,
                        now,
                    )
                    &&& *final(self) == (YtampApp {
                        search: SearchState { searching: false, ..old(self).search },
                        toasts: final(self).toasts,
                        ..*old(self)
                    })
                },
            },
    {
        match outcome {
            SearchOutcome::Results { query, tracks } => {
                if !text::same(query.as_str(), self.search.committed.as_str()) {
                    return None;
                }
                self.search.searching = false;
                if tracks.len() == 0 {
                    let mut m = "No results for “".to_owned();
                    m.append(query.as_str());
                    m.append("”");
                    self.toast(m.as_str(), now);
                }
                self.search.selected = if tracks.len() > 0 {
                    Some(0)
                } else {
                    None
                };
                self.search.results = tracks;
                self.search.scroll_to = None;
                None
            },
            SearchOutcome::Radio { video_id, tracks } => {
                let fresh = keep_fresh(
                    tracks,
                    &self.state.queue,
                    &self.search.results,
                    video_id.as_str(),
                );
                assert(model::track_views(fresh@).len() == fresh@.len());
                if fresh.len() > 0 {
                    let mut m = "Radio: +".to_owned();
                    m.append(text::to_decimal(fresh.len() as u64).as_str());
                    m.append(" tracks");
                    self.toast(m.as_str(), now);
                    Some(PlayerCommand::QueueAppend(fresh))
                } else {
                    None
                }
            },
            SearchOutcome::Failed(error) => {
                self.search.searching = false;
                self.toast_error(error.as_str(), now);
                None
            },
        }
    }

    /// Takes in an event of the player.
    pub fn apply_event(&mut self, event: PlayerEvent, now: u64)
        requires
            now <= u64::MAX - TOAST_LIFETIME_MS,
        ensures
            match event {
                PlayerEvent::State(s) => *final(self) == (YtampApp { state: s, ..*old(self) }),
                PlayerEvent::Spectrum(f) => *final(self) == (YtampApp {
                    spectrum: f,
                    ..*old(self)
                }),
                PlayerEvent::Error(t) => toast_views(final(self).toasts@) == toasted(
                    toast_views(old(self).toasts@),
                    ToastKind::Error,
                    t@,
                    now,
                ) && *final(self) == (YtampApp { toasts: final(self).toasts, ..*old(self) }),
                PlayerEvent::Info(t) => toast_views(final(self).toasts@) == toasted(
                    toast_views(old(self).toasts@),
                    ToastKind::Info,
                    t@,
                    now,
                ) && *final(self) == (YtampApp { toasts: final(self).toasts, ..*old(self) }),
            },
    {
        match event {
            PlayerEvent::State(s) => {
                self.state = s;
            },
            PlayerEvent::Spectrum(f) => {
                self.spectrum = f;
            },
            PlayerEvent::Error(t) => self.toast_error(t.as_str(), now),
            PlayerEvent::Info(t) => self.toast(t.as_str(), now),
        }
    }

    /// The player is gone.
    pub fn engine_stopped(&mut self, now: u64)
        requires
            now <= u64::MAX - TOAST_LIFETIME_MS,
        ensures
            model::text_view(final(self).engine_note) == Some("engine stopped"@),
            toast_views(final(self).toasts@) == toasted(
                toast_views(old(self).toasts@),
                ToastKind::Error,
                "The audio engine stopped; playback is unavailable."@,
                now,
            ),
            *final(self) == (YtampApp {
                engine_note: final(self).engine_note,
                toasts: final(self).toasts,
                ..*old(self)
            }),
    {
        self.engine_note = Some("engine stopped".to_owned());
        self.toast_error("The audio engine stopped; playback is unavailable.", now);
    }

    /// Keeps what the mini player changed.
    pub fn apply_echo(&mut self, echo: HostEcho)
        ensures
            *final(self) == (YtampApp {
                settings: match echo {
                    HostEcho::Volume(v) => Settings {
                        volume: v.clamped(bits::single_zero(), bits::single_one()),
                        ..old(self).settings
                    },
                    HostEcho::Eq(eq) => Settings { eq, ..old(self).settings },
                },
                settings_dirty: true,
                ..*old(self)
            }),
    {
        match echo {
            HostEcho::Volume(v) => {
                self.settings.volume = v.clamp(Single::zero(), Single::one());
            },
            HostEcho::Eq(eq) => {
                self.settings.eq = eq;
            },
        }
        self.settings_dirty = true;
    }

    /// The app as one frame of the mini player sees it.
    pub fn host_snapshot(&self) -> (view: HostView)
        ensures
            standins::playback_view(view.state) == standins::playback_view(self.state),
            view.spectrum.bands@ == self.spectrum.bands@,
            view.eq == self.settings.eq,
            view.commands@.len() == 0,
            view.echoes@.len() == 0,
            view.skin_requests@.len() == 0,
    {
        HostView {
            state: PlaybackState {
                playing: self.state.playing,
                track: model::clone_track(&self.state.track),
                position_secs: self.state.position_secs,
                duration_secs: self.state.duration_secs,
                volume: self.state.volume,
                queue: clone_tracks(&self.state.queue),
                queue_index: self.state.queue_index,
            },
            spectrum: SpectrumFrame { bands: copy_levels(&self.spectrum.bands) },
            eq: self.settings.eq,
            commands: Vec::new(),
            echoes: Vec::new(),
            skin_requests: Vec::new(),
        }
    }

    /// Takes back what a frame of the mini player asked for. The result is
    /// what goes to the player, and the skins to install.
    pub fn absorb(&mut self, view: HostView) -> (asked: (Vec<PlayerCommand>, Vec<String>))
        ensures
            asked.0 == view.commands,
            asked.1 == view.skin_requests,
            *final(self) == (YtampApp {
                settings: after_echoes(old(self).settings, view.echoes@),
                settings_dirty: old(self).settings_dirty || view.echoes@.len() > 0,
                ..*old(self)
            }),
    {
        let ghost start = *self;
        let mut i: usize = 0;
        assert(view.echoes@.take(0) =~= Seq::empty());
        while i < view.echoes.len()
            invariant
                i <= view.echoes@.len(),
                *self == (YtampApp {
                    settings: after_echoes(start.settings, view.echoes@.take(i as int)),
                    settings_dirty: start.settings_dirty || i > 0,
                    ..start
                }),
            decreases view.echoes@.len() - i,
        {
            assert(view.echoes@.take(i + 1).drop_last() =~= view.echoes@.take(i as int));
            self.apply_echo(view.echoes[i]);
            i += 1;
        }
        assert(view.echoes@.take(view.echoes@.len() as int) =~= view.echoes@);
        (view.commands, view.skin_requests)
    }

    /// The window title to set, where it changed.
    pub fn sync_window_title(&mut self) -> (title: Option<String>)
        ensures
            final(self).window_title@ == title_for(old(self).state.playing, old(self).state.track),
            match title {
                Some(t) => t@ == final(self).window_title@ && t@ != old(self).window_title@,
                None => final(self).window_title@ == old(self).window_title@,
            },
            *final(self) == (YtampApp { window_title: final(self).window_title, ..*old(self) }),
    {
        let title = match &self.state.track {
            Some(track) => if self.state.playing {
                let mut t = track.display();
                t.append(" — ytamp");
                t
            } else {
                "ytamp".to_owned()
            },
            None => "ytamp".to_owned(),
        };
        if text::same(title.as_str(), self.window_title.as_str()) {
            return None;
        }
        self.window_title = title.clone();
        Some(title)
    }

    /// Before the mini player is drawn: its working copies.
    pub fn before_mini(&mut self, position: Option<(Single, Single)>)
        ensures
            *final(self) == (YtampApp {
                mini: standins::WinampState {
                    last_pos: if position is Some {
                        position
                    } else {
                        old(self).mini.last_pos
                    },
                    eq_open: old(self).eq_open,
                    eq_scratch: old(self).settings.eq,
                    ..old(self).mini
                },
                ..*old(self)
            }),
    {
        if position.is_some() {
            self.mini.last_pos = position;
        }
        self.mini.eq_open = self.eq_open;
        self.mini.eq_scratch = self.settings.eq;
    }

    /// After the mini player was drawn: what its buttons asked for. The result
    /// says whether the window is to be closed.
    pub fn after_mini(&mut self) -> (close: bool)
        ensures
            close == old(self).mini.wants_exit,
            ({
                let was = *old(self);
                let scale = scale_in_range(was.mini.scale);
                *final(self) == (YtampApp {
                    settings: Settings {
                        winamp_window: was.settings.winamp_window != was.mini.wants_exit,
                        skin_scale: scale,
                        ..was.settings
                    },
                    settings_dirty: was.settings_dirty || was.mini.wants_exit || scale
                        != was.settings.skin_scale,
                    mini: standins::WinampState {
                        scale: if scale != was.settings.skin_scale {
                            scale
                        } else {
                            was.mini.scale
                        },
                        restore_pos: if was.mini.wants_exit && was.settings.winamp_window
                            && was.mini.last_pos is Some {
                            was.mini.last_pos
                        } else {
                            was.mini.restore_pos
                        },
                        wants_exit: false,
                        wants_eq: false,
                        ..was.mini
                    },
                    switch_intent: was.switch_intent || was.mini.wants_exit,
                    eq_open: was.eq_open != was.mini.wants_eq,
                    ..was
                })
            }),
    {
        let exits = self.mini.wants_exit;
        if exits {
            self.mini.wants_exit = false;
            self.toggle_mini();
        }
        if self.mini.wants_eq {
            self.mini.wants_eq = false;
            self.eq_open = !self.eq_open;
        }
        let scale: u8 = clamp_scale(self.mini.scale);
        if scale != self.settings.skin_scale {
            self.mini.scale = scale;
            self.settings.skin_scale = scale;
            self.settings_dirty = true;
        }
        exits
    }

    /// After how many milliseconds the window is to be drawn again by itself.
    pub fn repaint_after(&self) -> (ms: Option<u64>)
        ensures
            ms == (if self.search.searching {
                Some(100u64)
            } else if self.state.playing || self.toasts@.len() > 0 {
                Some(250u64)
            } else {
                None
            }),
    {
        if self.search.searching {
            Some(100)
        } else if self.state.playing || self.toasts.len() > 0 {
            Some(250)
        } else {
            None
        }
    }
}

} // verus!
