//! What is kept between runs, and where files are kept.

use vstd::prelude::*;

use crate::bits;
use crate::bits::Single;
use crate::eq::EqSettings;
use crate::text;

verus! {

/// How many searches are remembered.
pub const HISTORY_MAX: usize = 12;

/// The band centres, in hertz, low to high.
pub const EQ_BAND_CENTERS_HZ: [u32; 10] = [
    60, 170, 310, 600, 1000, 3000, 6000, 12000, 14000, 16000,
];

/// Everything kept between runs.
#[derive(Clone, Debug)]
pub struct Settings {
    /// Master volume, zero to one.
    pub volume: Single,
    /// The ten-band equalizer.
    pub eq: EqSettings,
    /// The worn skin's file name, or `None` for the built-in look.
    pub skin: Option<String>,
    /// Mini player pixel scale, 1 to 4.
    pub skin_scale: u8,
    /// The mini player is the open window.
    pub winamp_window: bool,
    /// Path of a Netscape cookie jar, if any.
    pub cookie_path: Option<String>,
    /// Recent search terms, newest first.
    pub search_history: Vec<String>,
}

/// The history with `query` at its front and nowhere else, cut to its length.
/// A blank query changes nothing.
pub open spec fn remembered(history: Seq<Seq<char>>, query: Seq<char>) -> Seq<Seq<char>> {
    let q = text::trimmed(query);
    if q.len() == 0 {
        history
    } else {
        let all = seq![q] + others(history, q);
        if all.len() > HISTORY_MAX {
            all.take(HISTORY_MAX as int)
        } else {
            all
        }
    }
}

/// The entries that are not `q`, in order.
pub open spec fn others(history: Seq<Seq<char>>, q: Seq<char>) -> Seq<Seq<char>>
    decreases history.len(),
{
    if history.len() == 0 {
        Seq::empty()
    } else if history.last() == q {
        others(history.drop_last(), q)
    } else {
        others(history.drop_last(), q).push(history.last())
    }
}

pub open spec fn no_repeats(history: Seq<Seq<char>>) -> bool {
    forall|i: int, j: int|
        0 <= i < j < history.len() ==> #[trigger] history[i] != #[trigger] history[j]
}

proof fn lemma_others(history: Seq<Seq<char>>, q: Seq<char>)
    ensures
        others(history, q).len() <= history.len(),
        forall|i: int|
            0 <= i < others(history, q).len() ==> #[trigger] others(history, q)[i] != q
                && history.contains(others(history, q)[i]),
        no_repeats(history) ==> no_repeats(others(history, q)),
    decreases history.len(),
{
    if history.len() > 0 {
        let shorter = history.drop_last();
        lemma_others(shorter, q);
        assert forall|i: int| 0 <= i < others(history, q).len() implies #[trigger] others(
            history,
            q,
        )[i] != q && history.contains(others(history, q)[i]) by {
            if i < others(shorter, q).len() {
                let t = others(shorter, q)[i];
                assert(shorter.contains(t));
                let k = choose|k: int| 0 <= k < shorter.len() && shorter[k] == t;
                assert(history[k] == t);
            } else {
                assert(history[history.len() - 1] == history.last());
            }
        }
        if no_repeats(history) {
            assert forall|i: int, j: int| 0 <= i < j < shorter.len() implies #[trigger] shorter[i]
                != #[trigger] shorter[j] by {
                assert(history[i] != history[j]);
            }
            assert forall|i: int, j: int| 0 <= i < j < others(history, q).len() implies
                #[trigger] others(history, q)[i] != #[trigger] others(history, q)[j] by {
                if j == others(shorter, q).len() {
                    let t = others(shorter, q)[i];
                    assert(shorter.contains(t));
                    let k = choose|k: int| 0 <= k < shorter.len() && shorter[k] == t;
                    assert(history[k] != history[history.len() - 1]);
                }
            }
        }
    }
}

/// A remembered query stands first, no entry stands twice, and the history
/// stays within its length.
pub proof fn lemma_remembered(history: Seq<Seq<char>>, query: Seq<char>)
    requires
        no_repeats(history),
        history.len() <= HISTORY_MAX,
    ensures
        no_repeats(remembered(history, query)),
        remembered(history, query).len() <= HISTORY_MAX,
        text::trimmed(query).len() > 0 ==> remembered(history, query).len() > 0 && remembered(
            history,
            query,
        )[0] == text::trimmed(query),
{
    let q = text::trimmed(query);
    lemma_others(history, q);
    let all = seq![q] + others(history, q);
    assert forall|i: int, j: int| 0 <= i < j < all.len() implies #[trigger] all[i]
        != #[trigger] all[j] by {
        assert(all[j] == others(history, q)[j - 1]);
        if i > 0 {
            assert(all[i] == others(history, q)[i - 1]);
        }
    }
}

/// Remembering the same query again changes nothing.
pub proof fn lemma_remembered_twice(history: Seq<Seq<char>>, query: Seq<char>)
    requires
        no_repeats(history),
        history.len() <= HISTORY_MAX,
    ensures
        remembered(remembered(history, query), query) == remembered(history, query),
{
    let q = text::trimmed(query);
    let once = remembered(history, query);
    if q.len() > 0 {
        lemma_remembered(history, query);
        lemma_others_front(once, q);
        assert(seq![q] + once.drop_first() =~= once);
    }
}

proof fn lemma_others_front(list: Seq<Seq<char>>, q: Seq<char>)
    requires
        no_repeats(list),
        list.len() > 0,
        list[0] == q,
    ensures
        others(list, q) == list.drop_first(),
    decreases list.len(),
{
    if list.len() == 1 {
        assert(list.drop_last() =~= Seq::empty());
        assert(others(list.drop_last(), q) =~= Seq::empty());
        assert(list.drop_first() =~= Seq::empty());
    } else {
        let shorter = list.drop_last();
        assert forall|i: int, j: int| 0 <= i < j < shorter.len() implies #[trigger] shorter[i]
            != #[trigger] shorter[j] by {
            assert(list[i] != list[j]);
        }
        lemma_others_front(shorter, q);
        assert(list[0] != list[list.len() - 1]);
        assert(shorter.drop_first().push(list.last()) =~= list.drop_first());
    }
}

/// The other searches keep their order behind the newest one. A search that was
/// not among them pushes them down by one; one that was among them moves to the
/// front; and of more than twelve the oldest falls out.
pub proof fn lemma_remembered_order(history: Seq<Seq<char>>, query: Seq<char>, k: int)
    requires
        no_repeats(history),
        history.len() <= 12,
        text::trimmed(query).len() > 0,
    ensures
        !history.contains(text::trimmed(query)) && history.len() < 12 ==> remembered(
            history,
            query,
        ) == seq![text::trimmed(query)] + history,
        !history.contains(text::trimmed(query)) && history.len() == 12 ==> remembered(
            history,
            query,
        ) == seq![text::trimmed(query)] + history.take(11),
        0 <= k < history.len() && history[k] == text::trimmed(query) ==> remembered(history, query)
            == seq![text::trimmed(query)] + history.take(k) + history.skip(k + 1),
{
    let q = text::trimmed(query);
    if !history.contains(q) {
        lemma_others_all(history, q);
        let all = seq![q] + history;
        if history.len() == 12 {
            assert(all.take(12) =~= seq![q] + history.take(11));
        }
    }
    if 0 <= k < history.len() && history[k] == q {
        lemma_others_but(history, q, k);
        assert(seq![q] + (history.take(k) + history.skip(k + 1)) =~= seq![q] + history.take(k)
            + history.skip(k + 1));
    }
}

/// A blank query is not remembered.
pub proof fn lemma_blank_forgotten(history: Seq<Seq<char>>, query: Seq<char>)
    requires
        forall|i: int| 0 <= i < query.len() ==> text::is_white(#[trigger] query[i]),
    ensures
        remembered(history, query) == history,
{
    text::lemma_trimmed_is(query, Seq::empty(), Seq::empty());
    assert(query + Seq::<char>::empty() + Seq::<char>::empty() =~= query);
}

proof fn lemma_others_all(history: Seq<Seq<char>>, q: Seq<char>)
    requires
        !history.contains(q),
    ensures
        others(history, q) == history,
    decreases history.len(),
{
    if history.len() > 0 {
        let shorter = history.drop_last();
        assert(!shorter.contains(q)) by {
            if shorter.contains(q) {
                let i = choose|i: int| 0 <= i < shorter.len() && shorter[i] == q;
                assert(history[i] == q);
            }
        }
        assert(history.contains(history.last()));
        lemma_others_all(shorter, q);
        assert(shorter.push(history.last()) =~= history);
    }
}

proof fn lemma_others_but(history: Seq<Seq<char>>, q: Seq<char>, k: int)
    requires
        no_repeats(history),
        0 <= k < history.len(),
        history[k] == q,
    ensures
        others(history, q) == history.take(k) + history.skip(k + 1),
    decreases history.len(),
{
    let shorter = history.drop_last();
    if k == history.len() - 1 {
        assert(!shorter.contains(q)) by {
            if shorter.contains(q) {
                let i = choose|i: int| 0 <= i < shorter.len() && shorter[i] == q;
                assert(history[i] != history[k]);
            }
        }
        lemma_others_all(shorter, q);
        assert(history.take(k) + history.skip(k + 1) =~= shorter);
    } else {
        assert forall|i: int, j: int| 0 <= i < j < shorter.len() implies #[trigger] shorter[i]
            != #[trigger] shorter[j] by {
            assert(history[i] != history[j]);
        }
        lemma_others_but(shorter, q, k);
        assert(history[k] != history[history.len() - 1]);
        assert(others(history, q) =~= history.take(k) + history.skip(k + 1));
    }
}

impl Default for Settings {
    fn default() -> (s: Self)
        ensures
            s.volume == (Single { bits: 0x3f33_3333 }),
            !s.eq.enabled,
            s.eq.preamp_db == bits::double_zero(),
            forall|i: int| 0 <= i < 10 ==> #[trigger] s.eq.gains_db@[i] == bits::double_zero(),
            s.skin is None,
            s.skin_scale == 2,
            !s.winamp_window,
            s.cookie_path is None,
            s.search_history@.len() == 0,
    {
        Settings {
            // Seven tenths.
            volume: Single { bits: 0x3f33_3333 },
            eq: EqSettings::default(),
            skin: None,
            skin_scale: 2,
            winamp_window: false,
            cookie_path: None,
            search_history: Vec::new(),
        }
    }
}

impl Settings {
    /// Remembers a query, newest first, without duplicates, capped.
    pub fn remember_search(&mut self, query: &str)
        ensures
            text::views(final(self).search_history@) == remembered(
                text::views(old(self).search_history@),
                query@,
            ),
            final(self).volume == old(self).volume,
            final(self).eq == old(self).eq,
            final(self).skin == old(self).skin,
            final(self).skin_scale == old(self).skin_scale,
            final(self).winamp_window == old(self).winamp_window,
            final(self).cookie_path == old(self).cookie_path,
    {
        let q = text::trim(query);
        if q.as_str().is_empty() {
            return;
        }
        let ghost history = text::views(self.search_history@);
        let mut kept: Vec<String> = Vec::new();
        kept.push(q.clone());
        let mut i: usize = 0;
        assert(history.take(0) =~= Seq::empty());
        assert(text::views(kept@) =~= seq![q@] + others(history.take(0), q@));
        while i < self.search_history.len()
            invariant
                i <= self.search_history@.len(),
                history == text::views(self.search_history@),
                text::views(kept@) == seq![q@] + others(history.take(i as int), q@),
                *self == *old(self),
            decreases self.search_history@.len() - i,
        {
            assert(history.take(i + 1).drop_last() =~= history.take(i as int));
            assert(history[i as int] == self.search_history@[i as int]@);
            if !text::same(self.search_history[i].as_str(), q.as_str()) {
                let ghost before = kept@;
                kept.push(self.search_history[i].clone());
                assert(text::views(kept@) =~= text::views(before).push(history[i as int]));
                assert(text::views(kept@) =~= seq![q@] + others(history.take(i + 1), q@));
            }
            i += 1;
        }
        assert(history.take(history.len() as int) =~= history);
        let ghost all = text::views(kept@);
        if kept.len() > HISTORY_MAX {
            kept.truncate(HISTORY_MAX);
            assert(text::views(kept@) =~= all.take(HISTORY_MAX as int));
        }
        self.search_history = kept;
    }
}

/// A band centre as the equalizer labels it: `60`, `170`, …, `1k`, `16k`.
pub open spec fn band_label(hz: nat) -> Seq<char> {
    if hz >= 1000 && hz % 1000 == 0 {
        text::decimal(hz / 1000).push('k')
    } else {
        text::decimal(hz)
    }
}

pub fn eq_band_label(hz: u32) -> (label: String)
    ensures
        label@ == band_label(hz as nat),
{
    if hz >= 1000 && hz % 1000 == 0 {
        let mut label = text::to_decimal(hz as u64 / 1000);
        label.push('k');
        label
    } else {
        text::to_decimal(hz as u64)
    }
}

/// `name` inside the directory `base`.
pub open spec fn joined_path(base: Seq<char>, name: Seq<char>) -> Seq<char> {
    if name.len() > 0 && name[0] == '/' {
        name
    } else if base.len() == 0 || base.last() == '/' {
        base + name
    } else {
        base.push('/') + name
    }
}

/// Whole kilohertz are labelled with a `k`, everything else in hertz.
pub proof fn lemma_band_label(hz: nat)
    ensures
        hz > 0 ==> band_label(1000 * hz) == text::decimal(hz) + seq!['k'],
        hz < 1000 ==> band_label(hz) == text::decimal(hz),
        hz % 1000 != 0 ==> band_label(hz) == text::decimal(hz),
{
    if hz > 0 {
        assert(text::decimal(hz).push('k') =~= text::decimal(hz) + seq!['k']);
    }
}

/// A name is put below a directory with one slash between them; one that begins
/// at the root stands for itself.
pub proof fn lemma_joined_path(dir: Seq<char>, name: Seq<char>)
    requires
        dir.len() > 0,
        dir.last() != '/',
        name.len() > 0 ==> name[0] != '/',
    ensures
        joined_path(dir, name) == dir + seq!['/'] + name,
        joined_path(dir + seq!['/'], name) == dir + seq!['/'] + name,
        joined_path(dir, seq!['/'] + name) == seq!['/'] + name,
        joined_path(Seq::empty(), name) == name,
{
    assert(dir.push('/') =~= dir + seq!['/']);
    assert(Seq::<char>::empty() + name =~= name);
}

pub fn join_path(base: &str, name: &str) -> (path: String)
    ensures
        path@ == joined_path(base@, name@),
{
    let b = text::chars(base);
    let n = text::chars(name);
    if n.len() > 0 && n[0] == '/' {
        return name.to_owned();
    }
    let mut path = base.to_owned();
    if b.len() > 0 && b[b.len() - 1] != '/' {
        path.push('/');
    }
    path.append(name);
    path
}

/// The config home where the platform names none: `$XDG_CONFIG_HOME` or
/// `$HOME/.config`, then `ytamp`.
pub fn fallback_config_dir(xdg_config_home: Option<String>, home: Option<String>) -> (dir: String)
    ensures
        dir@ == joined_path(
            match (xdg_config_home, home) {
                (Some(x), _) => x@,
                (None, Some(h)) => joined_path(h@, ".config"@),
                (None, None) => "."@,
            },
            "ytamp"@,
        ),
{
    let base = match xdg_config_home {
        Some(x) => x,
        None => match home {
            Some(h) => join_path(h.as_str(), ".config"),
            None => ".".to_owned(),
        },
    };
    join_path(base.as_str(), "ytamp")
}

/// The user's skin library.
pub fn skins_dir(config_dir: &str) -> (dir: String)
    ensures
        dir@ == joined_path(config_dir@, "skins"@),
{
    join_path(config_dir, "skins")
}

/// Cover art and the like.
pub fn cache_dir(config_dir: &str) -> (dir: String)
    ensures
        dir@ == joined_path(config_dir@, "cache"@),
{
    join_path(config_dir, "cache")
}

/// Where a cookie jar lives by convention.
pub fn default_cookie_path(config_dir: &str) -> (path: String)
    ensures
        path@ == joined_path(config_dir@, "cookies.txt"@),
{
    join_path(config_dir, "cookies.txt")
}

} // verus!
