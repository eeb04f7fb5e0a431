//! From a video to a stream that can be fetched: choosing a format, asking one
//! client after another, and remembering the outcome for a while.

use vstd::prelude::*;

use crate::json;
use crate::json::Json;
use crate::model;
use crate::text;
use crate::yt::innertube;
use crate::yt::innertube::{client_chain, ClientCtx};

verus! {

/// What a [`StreamUrl`] holds.
#[verifier::ext_equal]
pub struct StreamView {
    pub url: Seq<char>,
    pub itag: u32,
    pub mime: Seq<char>,
    pub duration_secs: Option<u64>,
}

/// A resolved, directly fetchable audio stream.
#[derive(Debug)]
pub struct StreamUrl {
    pub url: String,
    pub itag: u32,
    pub mime: String,
    pub duration_secs: Option<u64>,
}

impl View for StreamUrl {
    type V = StreamView;

    open spec fn view(&self) -> StreamView {
        StreamView {
            url: self.url@,
            itag: self.itag,
            mime: self.mime@,
            duration_secs: self.duration_secs,
        }
    }
}

impl Clone for StreamUrl {
    fn clone(&self) -> (s: Self)
        ensures
            s == *self,
    {
        StreamUrl {
            url: self.url.clone(),
            itag: self.itag,
            mime: self.mime.clone(),
            duration_secs: self.duration_secs,
        }
    }
}

/// A format that could be played, with what it is ranked by.
#[derive(Debug)]
pub struct Candidate {
    pub stream: StreamUrl,
    pub bitrate: i64,
}

/// What a [`Candidate`] holds.
#[verifier::ext_equal]
pub struct CandidateView {
    pub stream: StreamView,
    pub bitrate: i64,
}

impl View for Candidate {
    type V = CandidateView;

    open spec fn view(&self) -> CandidateView {
        CandidateView { stream: self.stream@, bitrate: self.bitrate }
    }
}

/// Premium AAC at 256k, the first choice.
pub const ITAG_PREMIUM: u32 = 141;

/// AAC at 128k, the second choice.
pub const ITAG_STANDARD: u32 = 140;

/// How long a stream is remembered at most, in seconds.
pub const CACHE_TTL: u64 = 1200;

/// How many streams may be remembered before old ones are dropped.
pub const CACHE_MAX: usize = 256;

/// Whether the type is AAC audio, the only kind that can be decoded.
pub open spec fn aac_mime(mime: Seq<char>) -> bool {
    "audio/"@.is_prefix_of(mime) && text::has_infix(mime, "mp4a."@)
}

/// The low 32 bits.
pub open spec fn low_half(n: u64) -> u32 {
    (n % 0x1_0000_0000) as u32
}

/// The candidate that a format is: it has a direct address, an itag and an
/// AAC type.
pub open spec fn candidate_of(f: json::Doc) -> Option<CandidateView> {
    match (
        json::text_member(f, "url"@),
        json::member(f, "itag"@),
        json::text_member(f, "mimeType"@),
    ) {
        (Some(url), Some(itag), Some(mime)) => match json::u64_value(itag) {
            Some(n) if aac_mime(mime) => Some(
                CandidateView {
                    stream: StreamView {
                        url,
                        itag: low_half(n),
                        mime,
                        duration_secs: match json::text_member(f, "approxDurationMs"@) {
                            Some(ms) => match text::unsigned(ms, u64::MAX as nat) {
                                Some(n) => Some((n / 1000) as u64),
                                None => None,
                            },
                            None => None,
                        },
                    },
                    bitrate: match json::member(f, "bitrate"@) {
                        Some(b) => match json::i64_value(b) {
                            Some(n) => n,
                            None => 0,
                        },
                        None => 0,
                    },
                },
            ),
            _ => None,
        },
        _ => None,
    }
}

pub open spec fn candidates_of(formats: Seq<json::Doc>) -> Seq<CandidateView>
    decreases formats.len(),
{
    if formats.len() == 0 {
        Seq::empty()
    } else {
        let before = candidates_of(formats.drop_last());
        match candidate_of(formats.last()) {
            Some(c) => before.push(c),
            None => before,
        }
    }
}

/// The formats that a player response lists: the adaptive ones, then the rest.
pub open spec fn formats_in(resp: json::Doc) -> Seq<json::Doc> {
    let streaming = json::member_or_null(resp, "streamingData"@);
    let adaptive = match json::array_member(streaming, "adaptiveFormats"@) {
        Some(a) => a,
        None => Seq::empty(),
    };
    let plain = match json::array_member(streaming, "formats"@) {
        Some(a) => a,
        None => Seq::empty(),
    };
    adaptive + plain
}

/// The candidate of the highest bitrate among those with the itag (any, where
/// none is named); of several, the first.
pub open spec fn best_of(candidates: Seq<CandidateView>, itag: Option<u32>) -> Option<CandidateView>
    decreases candidates.len(),
{
    if candidates.len() == 0 {
        None
    } else {
        let before = best_of(candidates.drop_last(), itag);
        let c = candidates.last();
        if itag is Some && c.stream.itag != itag->0 {
            before
        } else {
            match before {
                Some(b) if b.bitrate >= c.bitrate => before,
                _ => Some(c),
            }
        }
    }
}

/// The format to play: 141 before 140 before any other AAC, then by bitrate.
pub open spec fn preferred(candidates: Seq<CandidateView>) -> Option<CandidateView> {
    if best_of(candidates, Some(ITAG_PREMIUM)) is Some {
        best_of(candidates, Some(ITAG_PREMIUM))
    } else if best_of(candidates, Some(ITAG_STANDARD)) is Some {
        best_of(candidates, Some(ITAG_STANDARD))
    } else {
        best_of(candidates, None)
    }
}

/// The best of some candidates is one of them, has the itag, and no other with
/// the itag has a higher bitrate.
pub proof fn lemma_best_is_best(candidates: Seq<CandidateView>, itag: Option<u32>)
    ensures
        match best_of(candidates, itag) {
            Some(b) => {
                &&& candidates.contains(b)
                &&& itag is Some ==> b.stream.itag == itag->0
                &&& forall|i: int|
                    0 <= i < candidates.len() && (itag is None || (
                    #[trigger] candidates[i]).stream.itag == itag->0) ==> candidates[i].bitrate
                        <= b.bitrate
            },
            None => forall|i: int|
                0 <= i < candidates.len() ==> itag is Some && (
                #[trigger] candidates[i]).stream.itag != itag->0,
        },
    decreases candidates.len(),
{
    if candidates.len() > 0 {
        let shorter = candidates.drop_last();
        lemma_best_is_best(shorter, itag);
        assert(candidates[candidates.len() - 1] == candidates.last());
        if let Some(b) = best_of(shorter, itag) {
            let k = choose|k: int| 0 <= k < shorter.len() && shorter[k] == b;
            assert(candidates[k] == b);
        }
        assert forall|i: int| 0 <= i < shorter.len() implies shorter[i] == candidates[i] by {}
        assert forall|i: int|
            0 <= i < candidates.len() && best_of(candidates, itag) is Some && (itag is None || (
            #[trigger] candidates[i]).stream.itag == itag->0) implies candidates[i].bitrate
            <= best_of(candidates, itag)->0.bitrate by {
            if i < shorter.len() {
                assert(shorter[i] == candidates[i]);
            }
        }
        assert forall|i: int| 0 <= i < candidates.len() && best_of(candidates, itag) is None implies
            itag is Some && (#[trigger] candidates[i]).stream.itag != itag->0 by {
            if i < shorter.len() {
                assert(shorter[i] == candidates[i]);
            }
        }
    }
}

/// `url` with every question mark turned into an ampersand.
pub open spec fn parameters(url: Seq<char>) -> Seq<char> {
    url.map_values(
        |c: char|
            if c == '?' {
                '&'
            } else {
                c
            },
    )
}

/// What follows `expire=` in the first parameter that begins with it.
pub open spec fn expire_in(parts: Seq<Seq<char>>) -> Option<Seq<char>>
    decreases parts.len(),
{
    if parts.len() == 0 {
        None
    } else {
        match expire_in(parts.drop_last()) {
            Some(v) => Some(v),
            None => if "expire="@.is_prefix_of(parts.last()) {
                Some(parts.last().skip("expire="@.len() as int))
            } else {
                None
            },
        }
    }
}

/// How many seconds the address stays good at `now`: until it expires, but
/// never more than the cache allows.
pub open spec fn ttl_of(url: Seq<char>, now: u64) -> u64 {
    match expire_in(text::split(parameters(url), '&')) {
        Some(v) => match text::unsigned(v, u64::MAX as nat) {
            Some(e) if e > now => if e - now < CACHE_TTL {
                (e - now) as u64
            } else {
                CACHE_TTL
            },
            _ => CACHE_TTL,
        },
        None => CACHE_TTL,
    }
}

/// An address is never good for nothing, nor for longer than the cap.
pub proof fn lemma_ttl_clamped(url: Seq<char>, now: u64)
    ensures
        0 < ttl_of(url, now) <= CACHE_TTL,
{
}

/// Where a stream is remembered.
pub open spec fn key_of(client: ClientCtx, video_id: Seq<char>) -> Seq<char> {
    client.key@ + ":"@ + video_id
}

proof fn lemma_keys_plain(i: int)
    requires
        0 <= i < innertube::player_clients().len(),
    ensures
        !innertube::player_clients()[i].key@.contains(':'),
{
    reveal_strlit("web_music");
    reveal_strlit("visionos");
    reveal_strlit("android_vr");
    reveal_strlit("ios");
    reveal_strlit("tv");
}

proof fn lemma_parted(a: Seq<char>, b: Seq<char>, v: Seq<char>, w: Seq<char>)
    requires
        !a.contains(':'),
        !b.contains(':'),
        a + seq![':'] + v == b + seq![':'] + w,
    ensures
        a == b,
        v == w,
{
    let x = a + seq![':'] + v;
    let y = b + seq![':'] + w;
    assert(x[a.len() as int] == ':' && y[b.len() as int] == ':');
    if a.len() < b.len() {
        assert(b[a.len() as int] == y[a.len() as int]);
        assert(b.contains(':'));
    }
    if b.len() < a.len() {
        assert(a[b.len() as int] == x[b.len() as int]);
        assert(a.contains(':'));
    }
    assert(a =~= x.take(a.len() as int));
    assert(b =~= y.take(b.len() as int));
    assert(v =~= x.skip(a.len() as int + 1));
    assert(w =~= y.skip(b.len() as int + 1));
}

/// No two clients and videos share a place in the cache.
pub proof fn lemma_keys_apart(a: ClientCtx, b: ClientCtx, v: Seq<char>, w: Seq<char>)
    requires
        innertube::chain(true).contains(a),
        innertube::chain(true).contains(b),
    ensures
        key_of(a, v) == key_of(b, w) <==> a.key@ == b.key@ && v == w,
{
    innertube::lemma_chain();
    let all = innertube::player_clients();
    let i = choose|i: int| 0 <= i < all.len() && all[i] == a;
    let j = choose|j: int| 0 <= j < all.len() && all[j] == b;
    lemma_keys_plain(i);
    lemma_keys_plain(j);
    reveal_strlit(":");
    assert(":"@ =~= seq![':']);
    if key_of(a, v) == key_of(b, w) {
        lemma_parted(a.key@, b.key@, v, w);
    }
}

/// A remembered stream and when it was put there, in milliseconds.
pub struct CacheEntry {
    pub key: String,
    pub stream: StreamUrl,
    pub at: u64,
}

/// The streams resolved lately, each under `client:video`.
pub struct StreamCache {
    pub entries: Vec<CacheEntry>,
}

pub open spec fn distinct_keys(entries: Seq<CacheEntry>) -> bool {
    forall|i: int, j: int|
        0 <= i < j < entries.len() ==> (#[trigger] entries[i]).key@ != (#[trigger] entries[j]).key@
}

pub open spec fn entries_map(entries: Seq<CacheEntry>) -> Map<Seq<char>, (StreamView, u64)>
    decreases entries.len(),
{
    if entries.len() == 0 {
        Map::empty()
    } else {
        let e = entries.last();
        entries_map(entries.drop_last()).insert(e.key@, (e.stream@, e.at))
    }
}

impl View for StreamCache {
    type V = Map<Seq<char>, (StreamView, u64)>;

    open spec fn view(&self) -> Map<Seq<char>, (StreamView, u64)> {
        entries_map(self.entries@)
    }
}

/// Whether a stream found in the cache can still be used.
pub open spec fn still_good(entry: (StreamView, u64), now_ms: u64, now_secs: u64) -> bool {
    innertube::elapsed(entry.1, now_ms) < ttl_of(entry.0.url, now_secs) * 1000
}

/// What the cache answers for a key.
pub open spec fn looked_up(
    cache: Map<Seq<char>, (StreamView, u64)>,
    key: Seq<char>,
    now_ms: u64,
    now_secs: u64,
) -> Option<StreamView> {
    if cache.contains_key(key) && still_good(cache[key], now_ms, now_secs) {
        Some(cache[key].0)
    } else {
        None
    }
}

/// The cache after that answer: an entry found to be stale is gone.
pub open spec fn after_lookup(
    cache: Map<Seq<char>, (StreamView, u64)>,
    key: Seq<char>,
    now_ms: u64,
    now_secs: u64,
) -> Map<Seq<char>, (StreamView, u64)> {
    if looked_up(cache, key, now_ms, now_secs) is Some {
        cache
    } else {
        cache.remove(key)
    }
}

/// The entries younger than the cap.
pub open spec fn young(cache: Map<Seq<char>, (StreamView, u64)>, now_ms: u64) -> Map<
    Seq<char>,
    (StreamView, u64),
> {
    cache.restrict(
        cache.dom().filter(
            |k: Seq<char>| innertube::elapsed(cache[k].1, now_ms) < CACHE_TTL * 1000,
        ),
    )
}

/// The cache after a stream was put there: a full one drops its old entries
/// first.
pub open spec fn after_put(
    cache: Map<Seq<char>, (StreamView, u64)>,
    key: Seq<char>,
    stream: StreamView,
    now_ms: u64,
) -> Map<Seq<char>, (StreamView, u64)> {
    let kept = if cache.dom().len() >= CACHE_MAX {
        young(cache, now_ms)
    } else {
        cache
    };
    kept.insert(key, (stream, now_ms))
}

/// A stream that was put into the cache is what a lookup finds, for as long as
/// its address is good.
pub proof fn lemma_cache_round_trip(
    cache: Map<Seq<char>, (StreamView, u64)>,
    key: Seq<char>,
    stream: StreamView,
    put_ms: u64,
    now_ms: u64,
    now_secs: u64,
)
    ensures
        innertube::elapsed(put_ms, now_ms) < ttl_of(stream.url, now_secs) * 1000 ==> looked_up(
            after_put(cache, key, stream, put_ms),
            key,
            now_ms,
            now_secs,
        ) == Some(stream),
        innertube::elapsed(put_ms, now_ms) >= CACHE_TTL * 1000 ==> looked_up(
            after_put(cache, key, stream, put_ms),
            key,
            now_ms,
            now_secs,
        ) is None,
{
}

/// Looking up one key leaves every other as it was.
pub proof fn lemma_lookup_leaves_others(
    cache: Map<Seq<char>, (StreamView, u64)>,
    key: Seq<char>,
    other: Seq<char>,
    now_ms: u64,
    now_secs: u64,
)
    requires
        other != key,
    ensures
        looked_up(after_lookup(cache, key, now_ms, now_secs), other, now_ms, now_secs) == looked_up(
            cache,
            other,
            now_ms,
            now_secs,
        ),
{
}

proof fn lemma_entries(entries: Seq<CacheEntry>)
    requires
        distinct_keys(entries),
    ensures
        forall|i: int|
            0 <= i < entries.len() ==> entries_map(entries).contains_key(
                (#[trigger] entries[i]).key@,
            ) && entries_map(entries)[entries[i].key@] == (entries[i].stream@, entries[i].at),
        forall|k: Seq<char>| #[trigger]
            entries_map(entries).contains_key(k) ==> exists|i: int|
                0 <= i < entries.len() && (#[trigger] entries[i]).key@ == k,
        entries_map(entries).dom().finite(),
        entries_map(entries).dom().len() == entries.len(),
    decreases entries.len(),
{
    if entries.len() > 0 {
        let shorter = entries.drop_last();
        assert forall|i: int, j: int| 0 <= i < j < shorter.len() implies (
        #[trigger] shorter[i]).key@ != (#[trigger] shorter[j]).key@ by {
            assert(entries[i].key@ != entries[j].key@);
        }
        lemma_entries(shorter);
        let last = entries.last();
        assert forall|i: int| 0 <= i < entries.len() implies entries_map(entries).contains_key(
            (#[trigger] entries[i]).key@,
        ) && entries_map(entries)[entries[i].key@] == (entries[i].stream@, entries[i].at) by {
            if i < shorter.len() {
                assert(shorter[i] == entries[i]);
                assert(entries[i].key@ != entries[entries.len() - 1].key@);
            }
        }
        assert forall|k: Seq<char>| #[trigger] entries_map(entries).contains_key(k) implies exists|
            i: int,
        |
            0 <= i < entries.len() && (#[trigger] entries[i]).key@ == k by {
            if k == last.key@ {
                assert(entries[entries.len() - 1].key@ == k);
            } else {
                assert(entries_map(shorter).contains_key(k));
                let i = choose|i: int| 0 <= i < shorter.len() && (#[trigger] shorter[i]).key@ == k;
                assert(entries[i].key@ == k);
            }
        }
        assert(!entries_map(shorter).contains_key(last.key@)) by {
            if entries_map(shorter).contains_key(last.key@) {
                let i = choose|i: int|
                    0 <= i < shorter.len() && (#[trigger] shorter[i]).key@ == last.key@;
                assert(entries[i].key@ != entries[entries.len() - 1].key@);
            }
        }
        assert(entries_map(entries).dom() =~= entries_map(shorter).dom().insert(last.key@));
    }
}

proof fn lemma_remove_entry(entries: Seq<CacheEntry>, at: int)
    requires
        distinct_keys(entries),
        0 <= at < entries.len(),
    ensures
        distinct_keys(entries.remove(at)),
        entries_map(entries.remove(at)) == entries_map(entries).remove(entries[at].key@),
{
    let rest = entries.remove(at);
    assert forall|i: int, j: int| 0 <= i < j < rest.len() implies (#[trigger] rest[i]).key@ != (
    #[trigger] rest[j]).key@ by {
        let a = if i < at {
            i
        } else {
            i + 1
        };
        let b = if j < at {
            j
        } else {
            j + 1
        };
        assert(rest[i] == entries[a] && rest[j] == entries[b]);
    }
    lemma_entries(entries);
    lemma_entries(rest);
    let key = entries[at].key@;
    assert forall|k: Seq<char>|
        entries_map(rest).contains_key(k) == entries_map(entries).remove(key).contains_key(k) && (
        entries_map(rest).contains_key(k) ==> entries_map(rest)[k] == entries_map(entries)[k]) by {
        if entries_map(rest).contains_key(k) {
            let i = choose|i: int| 0 <= i < rest.len() && (#[trigger] rest[i]).key@ == k;
            let a = if i < at {
                i
            } else {
                i + 1
            };
            assert(rest[i] == entries[a]);
            assert(entries_map(rest).contains_key(rest[i].key@));
            assert(entries_map(entries).contains_key(entries[a].key@));
            assert(entries[a].key@ != entries[at].key@);
        }
        if k != key && entries_map(entries).contains_key(k) {
            let a = choose|a: int| 0 <= a < entries.len() && (#[trigger] entries[a]).key@ == k;
            let i = if a < at {
                a
            } else {
                a - 1
            };
            assert(rest[i] == entries[a]);
            assert(entries_map(rest).contains_key(rest[i].key@));
        }
    }
    assert(entries_map(rest) =~= entries_map(entries).remove(key));
}

pub fn is_aac_mime(mime: &str) -> (yes: bool)
    ensures
        yes == aac_mime(mime@),
{
    text::starts_with(mime, "audio/") && text::contains(mime, "mp4a.")
}

fn read_candidate(f: &Json) -> (c: Option<Candidate>)
    ensures
        (match c {
            Some(x) => Some(x@),
            None => None,
        }) == candidate_of(f@),
{
    let url = match f.get_str("url") {
        Some(u) => u.to_owned(),
        None => return None,
    };
    let wide: u64 = match f.get("itag") {
        Some(n) => match n.as_u64() {
            Some(n) => n,
            None => return None,
        },
        None => return None,
    };
    let itag: u32 = (wide % 0x1_0000_0000) as u32;
    let mime = match f.get_str("mimeType") {
        Some(m) => m.to_owned(),
        None => return None,
    };
    if !is_aac_mime(mime.as_str()) {
        return None;
    }
    let bitrate: i64 = match f.get("bitrate") {
        Some(b) => match b.as_i64() {
            Some(n) => n,
            None => 0,
        },
        None => 0,
    };
    let duration_secs: Option<u64> = match f.get_str("approxDurationMs") {
        Some(ms) => match text::parse_unsigned(ms, u64::MAX) {
            Some(n) => Some(n / 1000),
            None => None,
        },
        None => None,
    };
    Some(Candidate { stream: StreamUrl { url, itag, mime, duration_secs }, bitrate })
}

spec fn candidate_views(cs: Seq<Candidate>) -> Seq<CandidateView> {
    Seq::new(cs.len(), |i: int| cs[i]@)
}

fn collect_candidates(formats: &Vec<Json>, out: &mut Vec<Candidate>, before: Ghost<Seq<json::Doc>>)
    requires
        candidate_views(old(out)@) == candidates_of(before@),
    ensures
        candidate_views(final(out)@) == candidates_of(before@ + json::docs(formats@)),
{
    let ghost all = json::docs(formats@);
    let mut i: usize = 0;
    proof {
        json::lemma_docs(formats@);
        assert(before@ + all.take(0) =~= before@);
    }
    while i < formats.len()
        invariant
            0 <= i <= formats@.len(),
            all.len() == formats@.len(),
            forall|k: int| 0 <= k < formats@.len() ==> #[trigger] all[k] == formats@[k]@,
            candidate_views(out@) == candidates_of(before@ + all.take(i as int)),
        decreases formats@.len() - i,
    {
        let ghost next = before@ + all.take(i + 1);
        assert(next.drop_last() =~= before@ + all.take(i as int));
        assert(next.last() == all[i as int]);
        if let Some(c) = read_candidate(&formats[i]) {
            let ghost kept = out@;
            let ghost view = c@;
            out.push(c);
            assert(candidate_views(out@) =~= candidate_views(kept).push(view));
        }
        i += 1;
    }
    assert(all.take(all.len() as int) =~= all);
}

fn best_index(candidates: &Vec<Candidate>, itag: Option<u32>) -> (at: Option<usize>)
    ensures
        match at {
            Some(i) => i < candidates@.len() && best_of(candidate_views(candidates@), itag) == Some(
                candidates@[i as int]@,
            ),
            None => best_of(candidate_views(candidates@), itag) is None,
        },
{
    let ghost all = candidate_views(candidates@);
    let mut at: Option<usize> = None;
    let mut i: usize = 0;
    assert(all.take(0) =~= Seq::empty());
    while i < candidates.len()
        invariant
            0 <= i <= candidates@.len(),
            all == candidate_views(candidates@),
            match at {
                Some(k) => k < i && best_of(all.take(i as int), itag) == Some(
                    candidates@[k as int]@,
                ),
                None => best_of(all.take(i as int), itag) is None,
            },
        decreases candidates@.len() - i,
    {
        assert(all.take(i + 1).drop_last() =~= all.take(i as int));
        assert(all[i as int] == candidates@[i as int]@);
        let wanted = match itag {
            Some(n) => candidates[i].stream.itag == n,
            None => true,
        };
        if wanted {
            let better = match at {
                Some(k) => candidates[i].bitrate > candidates[k].bitrate,
                None => true,
            };
            if better {
                at = Some(i);
            }
        }
        i += 1;
    }
    assert(all.take(all.len() as int) =~= all);
    at
}

/// The best directly fetchable audio format of a player response: itag 141,
/// then 140, then the AAC format of the highest bitrate. `None` when there is
/// nothing usable.
pub fn pick_audio_format(resp: &Json) -> (pick: Option<Candidate>)
    ensures
        (match pick {
            Some(c) => Some(c@),
            None => None,
        }) == preferred(candidates_of(formats_in(resp@))),
{
    let mut candidates: Vec<Candidate> = Vec::new();
    let ghost streaming = json::member_or_null(resp@, "streamingData"@);
    let ghost mut seen: Seq<json::Doc> = Seq::empty();
    assert(candidate_views(candidates@) =~= candidates_of(seen));
    if let Some(s) = resp.get("streamingData") {
        if let Some(list) = s.get_array("adaptiveFormats") {
            collect_candidates(list, &mut candidates, Ghost(seen));
            proof {
                seen = seen + json::docs(list@);
            }
        }
        if let Some(list) = s.get_array("formats") {
            collect_candidates(list, &mut candidates, Ghost(seen));
            proof {
                seen = seen + json::docs(list@);
            }
        }
    }
    assert(seen =~= formats_in(resp@));
    let at = match best_index(&candidates, Some(ITAG_PREMIUM)) {
        Some(i) => Some(i),
        None => match best_index(&candidates, Some(ITAG_STANDARD)) {
            Some(i) => Some(i),
            None => best_index(&candidates, None),
        },
    };
    match at {
        Some(i) => Some(candidates.swap_remove(i)),
        None => None,
    }
}

/// The key that a stream is remembered under.
pub fn cache_key(client: &ClientCtx, video_id: &str) -> (key: String)
    ensures
        key@ == key_of(*client, video_id@),
{
    let mut key = client.key.to_owned();
    key.append(":");
    key.append(video_id);
    key
}

fn ampersands(url: &str) -> (out: String)
    ensures
        out@ == parameters(url@),
{
    let v = text::chars(url);
    let mut out = String::new();
    let mut i: usize = 0;
    assert(parameters(url@).take(0) =~= Seq::empty());
    while i < v.len()
        invariant
            v@ == url@,
            0 <= i <= v@.len(),
            out@ == parameters(url@).take(i as int),
        decreases v@.len() - i,
    {
        assert(parameters(url@).take(i + 1) =~= parameters(url@).take(i as int).push(
            parameters(url@)[i as int],
        ));
        if v[i] == '?' {
            out.push('&');
        } else {
            out.push(v[i]);
        }
        i += 1;
    }
    assert(parameters(url@).take(v@.len() as int) =~= parameters(url@));
    out
}

/// How many seconds the address stays good at `now` (seconds since the epoch),
/// by its `expire=` parameter, at most [`CACHE_TTL`].
pub fn url_ttl(url: &str, now: u64) -> (secs: u64)
    ensures
        secs == ttl_of(url@, now),
{
    let parts = text::split_on(ampersands(url).as_str(), '&');
    let ghost all = text::split(parameters(url@), '&');
    let mut expire: Option<String> = None;
    let mut i: usize = 0;
    assert(all.take(0) =~= Seq::empty());
    while i < parts.len()
        invariant
            0 <= i <= parts@.len(),
            all == text::views(parts@),
            model::text_view(expire) == expire_in(all.take(i as int)),
        decreases parts@.len() - i,
    {
        assert(all.take(i + 1).drop_last() =~= all.take(i as int));
        assert(all[i as int] == parts@[i as int]@);
        if expire.is_none() {
            expire = text::strip_prefix(parts[i].as_str(), "expire=");
        }
        i += 1;
    }
    assert(all.take(all.len() as int) =~= all);
    match expire {
        Some(v) => match text::parse_unsigned(v.as_str(), u64::MAX) {
            Some(e) => if e > now && e - now < CACHE_TTL {
                e - now
            } else {
                CACHE_TTL
            },
            None => CACHE_TTL,
        },
        None => CACHE_TTL,
    }
}

fn age(at: u64, now: u64) -> (ms: u64)
    ensures
        ms == innertube::elapsed(at, now),
{
    if now > at {
        now - at
    } else {
        0
    }
}

impl StreamCache {
    /// No key stands twice.
    pub open spec fn wf(self) -> bool {
        distinct_keys(self.entries@)
    }

    pub fn new() -> (cache: Self)
        ensures
            cache.wf(),
            cache@ == Map::<Seq<char>, (StreamView, u64)>::empty(),
    {
        StreamCache { entries: Vec::new() }
    }

    fn position(&self, key: &str) -> (at: Option<usize>)
        requires
            self.wf(),
        ensures
            match at {
                Some(i) => {
                    &&& i < self.entries@.len()
                    &&& self.entries@[i as int].key@ == key@
                    &&& self@.contains_key(key@)
                    &&& self@[key@] == (
                        self.entries@[i as int].stream@,
                        self.entries@[i as int].at,
                    )
                },
                None => !self@.contains_key(key@),
            },
    {
        proof {
            lemma_entries(self.entries@);
        }
        let mut i: usize = 0;
        while i < self.entries.len()
            invariant
                0 <= i <= self.entries@.len(),
                self.wf(),
                forall|k: int| 0 <= k < i ==> (#[trigger] self.entries@[k]).key@ != key@,
            decreases self.entries@.len() - i,
        {
            if text::same(self.entries[i].key.as_str(), key) {
                proof {
                    assert(self.entries@[i as int].key@ == key@);
                    lemma_entries(self.entries@);
                }
                return Some(i);
            }
            i += 1;
        }
        proof {
            lemma_entries(self.entries@);
        }
        None
    }

    /// The stream under `key`, if its address is still good. A stale one is
    /// forgotten. `now_ms` is the clock that entries are stamped with,
    /// `now_secs` the time since the epoch.
    pub fn cache_get(&mut self, key: &str, now_ms: u64, now_secs: u64) -> (found: Option<StreamUrl>)
        requires
            old(self).wf(),
        ensures
            final(self).wf(),
            (match found {
                Some(s) => Some(s@),
                None => None,
            }) == looked_up(old(self)@, key@, now_ms, now_secs),
            final(self)@ == after_lookup(old(self)@, key@, now_ms, now_secs),
    {
        match self.position(key) {
            Some(i) => {
                let ttl: u64 = url_ttl(self.entries[i].stream.url.as_str(), now_secs);
                proof {
                    lemma_ttl_clamped(self.entries@[i as int].stream.url@, now_secs);
                }
                if age(self.entries[i].at, now_ms) < ttl * 1000 {
                    Some(self.entries[i].stream.clone())
                } else {
                    proof {
                        lemma_remove_entry(self.entries@, i as int);
                    }
                    self.entries.remove(i);
                    None
                }
            },
            None => {
                assert(self@.remove(key@) =~= self@);
                None
            },
        }
    }

    fn drop_old(&mut self, now_ms: u64)
        requires
            old(self).wf(),
        ensures
            final(self).wf(),
            final(self)@ == young(old(self)@, now_ms),
    {
        let ghost start = self@;
        let mut i: usize = 0;
        while i < self.entries.len()
            invariant
                0 <= i <= self.entries@.len(),
                self.wf(),
                forall|k: Seq<char>| #[trigger]
                    self@.contains_key(k) ==> start.contains_key(k) && self@[k] == start[k],
                forall|k: Seq<char>| #[trigger]
                    start.contains_key(k) && !self@.contains_key(k) ==> innertube::elapsed(
                        start[k].1,
                        now_ms,
                    ) >= CACHE_TTL * 1000,
                forall|j: int|
                    0 <= j < i ==> innertube::elapsed((#[trigger] self.entries@[j]).at, now_ms)
                        < CACHE_TTL * 1000,
            decreases self.entries@.len() - i,
        {
            proof {
                lemma_entries(self.entries@);
            }
            if age(self.entries[i].at, now_ms) < CACHE_TTL * 1000 {
                i += 1;
            } else {
                let ghost before = self@;
                let ghost gone = self.entries@[i as int].key@;
                proof {
                    lemma_remove_entry(self.entries@, i as int);
                }
                self.entries.remove(i);
                assert(self@ == before.remove(gone));
            }
        }
        proof {
            lemma_entries(self.entries@);
            assert forall|k: Seq<char>| #[trigger] self@.contains_key(k) implies innertube::elapsed(
                self@[k].1,
                now_ms,
            ) < CACHE_TTL * 1000 by {
                let j = choose|j: int|
                    0 <= j < self.entries@.len() && (#[trigger] self.entries@[j]).key@ == k;
                assert(self@[self.entries@[j].key@].1 == self.entries@[j].at);
            }
            assert(self@ =~= young(start, now_ms));
        }
    }

    /// Remembers a stream under `key` from `now_ms` on.
    pub fn cache_put(&mut self, key: &str, stream: &StreamUrl, now_ms: u64)
        requires
            old(self).wf(),
        ensures
            final(self).wf(),
            final(self)@ == after_put(old(self)@, key@, stream@, now_ms),
    {
        proof {
            lemma_entries(self.entries@);
        }
        if self.entries.len() >= CACHE_MAX {
            self.drop_old(now_ms);
        }
        let ghost kept = self@;
        if let Some(i) = self.position(key) {
            proof {
                lemma_remove_entry(self.entries@, i as int);
            }
            self.entries.remove(i);
        } else {
            assert(kept.remove(key@) =~= kept);
        }
        assert(self@ == kept.remove(key@));
        let ghost before = self.entries@;
        proof {
            lemma_entries(before);
        }
        self.entries.push(CacheEntry { key: key.to_owned(), stream: stream.clone(), at: now_ms });
        proof {
            assert(self.entries@.drop_last() =~= before);
            assert forall|i: int, j: int| 0 <= i < j < self.entries@.len() implies (
            #[trigger] self.entries@[i]).key@ != (#[trigger] self.entries@[j]).key@ by {
                if j == before.len() {
                    assert(entries_map(before).contains_key(before[i].key@));
                } else {
                    assert(before[i].key@ != before[j].key@);
                }
            }
            assert(self@ =~= kept.insert(key@, (stream@, now_ms)));
        }
    }
}

/// Only AAC with a direct address is ever chosen.
pub proof fn lemma_pick_is_aac(formats: Seq<json::Doc>)
    ensures
        preferred(candidates_of(formats)) matches Some(c) ==> aac_mime(c.stream.mime) && exists|
            i: int,
        |
            0 <= i < formats.len() && candidate_of(#[trigger] formats[i]) == Some(c),
{
    let cs = candidates_of(formats);
    lemma_best_is_best(cs, Some(ITAG_PREMIUM));
    lemma_best_is_best(cs, Some(ITAG_STANDARD));
    lemma_best_is_best(cs, None);
    if let Some(c) = preferred(cs) {
        lemma_candidates_found(formats, c);
    }
}

proof fn lemma_candidates_found(formats: Seq<json::Doc>, c: CandidateView)
    requires
        candidates_of(formats).contains(c),
    ensures
        exists|i: int| 0 <= i < formats.len() && candidate_of(#[trigger] formats[i]) == Some(c),
    decreases formats.len(),
{
    let shorter = formats.drop_last();
    let before = candidates_of(shorter);
    if before.contains(c) {
        lemma_candidates_found(shorter, c);
        let i = choose|i: int|
            0 <= i < shorter.len() && candidate_of(#[trigger] shorter[i]) == Some(c);
        assert(candidate_of(formats[i]) == Some(c));
    } else {
        let k = choose|k: int| 0 <= k < candidates_of(formats).len() && candidates_of(formats)[k] == c;
        if k < before.len() {
            assert(before[k] == c);
        }
        assert(candidate_of(formats[formats.len() - 1]) == Some(c));
    }
}

/// Where premium AAC is offered it is taken, and where it is not, standard AAC.
pub proof fn lemma_itag_order(candidates: Seq<CandidateView>, i: int)
    requires
        0 <= i < candidates.len(),
    ensures
        preferred(candidates) is Some,
        candidates[i].stream.itag == ITAG_PREMIUM ==> preferred(candidates)->0.stream.itag
            == ITAG_PREMIUM,
        candidates[i].stream.itag == ITAG_STANDARD ==> preferred(candidates)->0.stream.itag
            == ITAG_PREMIUM || preferred(candidates)->0.stream.itag == ITAG_STANDARD,
{
    lemma_best_is_best(candidates, Some(ITAG_PREMIUM));
    lemma_best_is_best(candidates, Some(ITAG_STANDARD));
    lemma_best_is_best(candidates, None);
}

/// The playability that a player response reports.
pub open spec fn playability(resp: json::Doc) -> Seq<char> {
    match json::member(resp, "playabilityStatus"@) {
        Some(s) => match json::text_member(s, "status"@) {
            Some(t) => t,
            None => "UNKNOWN"@,
        },
        None => "UNKNOWN"@,
    }
}

/// The note on a client that brought no stream.
pub open spec fn attempt_note(client: ClientCtx, reply: Result<Json, String>) -> Seq<char> {
    match reply {
        Ok(resp) => client.key@ + ": no direct AAC formats (status "@ + playability(resp@) + ")"@,
        Err(cause) => client.key@ + ": "@ + cause@,
    }
}

/// The stream that a client's reply brings.
pub open spec fn stream_in(reply: Result<Json, String>) -> Option<StreamView> {
    match reply {
        Ok(resp) => match preferred(candidates_of(formats_in(resp@))) {
            Some(c) => Some(c.stream),
            None => None,
        },
        Err(_) => None,
    }
}

/// What to do next for a video.
pub enum ResolveStep {
    /// The stream is known.
    Found(StreamUrl),
    /// Ask this client.
    Ask(ClientCtx),
    /// Every client failed; the message says how. Try yt-dlp.
    Fallback(String),
}

/// A search for the stream of one video: the clients still to ask and the notes
/// on those that failed.
pub struct Resolve {
    pub video_id: String,
    pub clients: Vec<ClientCtx>,
    pub at: usize,
    pub attempts: Vec<String>,
}

impl Resolve {
    pub open spec fn wf(self) -> bool {
        self.at <= self.clients@.len() && self.attempts@.len() == self.at
    }

    /// The notes on the failed clients, for a message.
    pub open spec fn notes(self) -> Seq<char> {
        text::join(text::views(self.attempts@), "; "@)
    }

    /// Starts the search, with the clients that the session can use.
    pub fn start(video_id: &str, has_cookies: bool) -> (r: Self)
        ensures
            r.wf(),
            r.video_id@ == video_id@,
            r.clients@ == innertube::chain(has_cookies),
            r.at == 0,
            r.attempts@.len() == 0,
    {
        Resolve {
            video_id: video_id.to_owned(),
            clients: client_chain(has_cookies),
            at: 0,
            attempts: Vec::new(),
        }
    }

    /// The next step: a remembered stream of the next client, a question to it,
    /// or the fallback after the last one.
    pub fn next(&self, cache: &mut StreamCache, now_ms: u64, now_secs: u64) -> (step: ResolveStep)
        requires
            self.wf(),
            old(cache).wf(),
        ensures
            final(cache).wf(),
            self.at < self.clients@.len() ==> {
                let client = self.clients@[self.at as int];
                let key = key_of(client, self.video_id@);
                &&& final(cache)@ == after_lookup(old(cache)@, key, now_ms, now_secs)
                &&& match looked_up(old(cache)@, key, now_ms, now_secs) {
                    Some(s) => step matches ResolveStep::Found(f) && f@ == s,
                    None => step == ResolveStep::Ask(client),
                }
            },
            self.at == self.clients@.len() ==> {
                &&& final(cache)@ == old(cache)@
                &&& step matches ResolveStep::Fallback(m) && m@ == "no client resolved "@
                    + self.video_id@ + " natively ("@ + self.notes() + "); trying yt-dlp"@
            },
    {
        if self.at < self.clients.len() {
            let client = self.clients[self.at];
            let key = cache_key(&client, self.video_id.as_str());
            match cache.cache_get(key.as_str(), now_ms, now_secs) {
                Some(s) => ResolveStep::Found(s),
                None => ResolveStep::Ask(client),
            }
        } else {
            let mut message = "no client resolved ".to_owned();
            message.append(self.video_id.as_str());
            message.append(" natively (");
            message.append(text::join_with(&self.attempts, "; ").as_str());
            message.append("); trying yt-dlp");
            ResolveStep::Fallback(message)
        }
    }

    /// Takes in the reply of the client that was asked. A usable format ends
    /// the search and is remembered; else a note is made and the next client's
    /// turn comes.
    pub fn answered(
        &mut self,
        cache: &mut StreamCache,
        reply: Result<Json, String>,
        now_ms: u64,
    ) -> (stream: Option<StreamUrl>)
        requires
            old(self).wf(),
            old(self).at < old(self).clients@.len(),
            old(cache).wf(),
        ensures
            final(self).wf(),
            final(cache).wf(),
            final(self).video_id == old(self).video_id,
            final(self).clients == old(self).clients,
            (match stream {
                Some(s) => Some(s@),
                None => None,
            }) == stream_in(reply),
            match stream_in(reply) {
                Some(s) => {
                    &&& final(self).at == old(self).at
                    &&& final(self).attempts == old(self).attempts
                    &&& final(cache)@ == after_put(
                        old(cache)@,
                        key_of(old(self).clients@[old(self).at as int], old(self).video_id@),
                        s,
                        now_ms,
                    )
                },
                None => {
                    &&& final(self).at == old(self).at + 1
                    &&& text::views(final(self).attempts@) == text::views(
                        old(self).attempts@,
                    ).push(attempt_note(old(self).clients@[old(self).at as int], reply))
                    &&& final(cache)@ == old(cache)@
                },
            },
    {
        let count: usize = self.clients.len();
        assert(self.at < count);
        let client = self.clients[self.at];
        let mut note = client.key.to_owned();
        match reply {
            Ok(resp) => {
                if let Some(c) = pick_audio_format(&resp) {
                    let key = cache_key(&client, self.video_id.as_str());
                    cache.cache_put(key.as_str(), &c.stream, now_ms);
                    return Some(c.stream);
                }
                let status = match resp.get("playabilityStatus") {
                    Some(s) => match s.get_str("status") {
                        Some(t) => t.to_owned(),
                        None => "UNKNOWN".to_owned(),
                    },
                    None => "UNKNOWN".to_owned(),
                };
                note.append(": no direct AAC formats (status ");
                note.append(status.as_str());
                note.append(")");
            },
            Err(cause) => {
                note.append(": ");
                note.append(cause.as_str());
            },
        }
        let ghost before = self.attempts@;
        let ghost view = note@;
        self.attempts.push(note);
        assert(text::views(self.attempts@) =~= text::views(before).push(view));
        self.at = self.at + 1;
        None
    }

    /// The end of the search after the fallback: its stream, or one message
    /// with everything that was tried.
    pub fn finish(&self, fallback: Result<StreamUrl, String>) -> (outcome: Result<
        StreamUrl,
        String,
    >)
        ensures
            match (fallback, outcome) {
                (Ok(s), Ok(o)) => o == s,
                (Err(cause), Err(m)) => m@ == "no stream for "@ + self.video_id@ + " ("@
                    + self.notes() + "). "@ + cause@,
                _ => false,
            },
    {
        match fallback {
            Ok(s) => Ok(s),
            Err(cause) => {
                let mut message = "no stream for ".to_owned();
                message.append(self.video_id.as_str());
                message.append(" (");
                message.append(text::join_with(&self.attempts, "; ").as_str());
                message.append("). ");
                message.append(cause.as_str());
                Err(message)
            },
        }
    }
}

/// How a run of yt-dlp ended.
pub enum DlpRun {
    TimedOut,
    /// There is no such program.
    Missing,
    LaunchFailed(String),
    /// It gave up: its exit status and what it wrote to the error stream.
    Exited { status: String, stderr: String },
    /// What it printed.
    Printed(Vec<u8>),
}

/// The stream that yt-dlp printed, if it has a secure address.
pub open spec fn dlp_stream(info: json::Doc) -> Option<StreamView> {
    match json::text_member(info, "url"@) {
        Some(url) if "https://"@.is_prefix_of(url) => Some(
            StreamView {
                url,
                itag: match json::text_member(info, "format_id"@) {
                    Some(id) => match text::unsigned(id, u32::MAX as nat) {
                        Some(n) => n as u32,
                        None => 0,
                    },
                    None => 0,
                },
                mime: "audio/"@ + match json::text_member(info, "ext"@) {
                    Some(ext) => ext,
                    None => "mp4"@,
                },
                duration_secs: match json::member(info, "duration"@) {
                    Some(d) => json::rounded_value(d),
                    None => None,
                },
            },
        ),
        _ => None,
    }
}

/// The message for a run that brought no stream.
pub open spec fn dlp_failure(run: DlpRun) -> Option<Seq<char>> {
    match run {
        DlpRun::TimedOut => Some("yt-dlp timed out after 90s"@),
        DlpRun::Missing => Some(
            "yt-dlp not found on PATH — install it for the fallback resolver (see https://github.com/yt-dlp/yt-dlp)"@,
        ),
        DlpRun::LaunchFailed(cause) => Some("failed to launch yt-dlp: "@ + cause@),
        DlpRun::Exited { status, stderr } => {
            let lines = text::lines(stderr@);
            let last = if lines.len() > 0 {
                lines.last()
            } else {
                "(no output)"@
            };
            Some("yt-dlp exited "@ + status@ + ": "@ + last)
        },
        DlpRun::Printed(output) => match json::parsed_bytes(output@) {
            Ok(info) => if dlp_stream(info) is Some {
                None
            } else {
                Some("yt-dlp returned no stream url"@)
            },
            Err(cause) => Some("yt-dlp output was not valid JSON: "@ + cause),
        },
    }
}

/// A format with a direct address, an itag and an AAC type can be played: its
/// address, itag and type are taken as they stand, its bitrate where it states
/// one, and its length in whole seconds from the milliseconds that it states.
pub proof fn lemma_playable_format(
    f: json::Doc,
    url: Seq<char>,
    itag: u32,
    mime: Seq<char>,
    secs: u64,
    ms: u64,
)
    requires
        ms < 1000,
        1000 * secs + ms <= u64::MAX,
        json::text_member(f, "url"@) == Some(url),
        json::member(f, "itag"@) == Some(json::Doc::Unsigned(itag as u64)),
        json::text_member(f, "mimeType"@) == Some(mime),
        "audio/"@.is_prefix_of(mime),
        text::has_infix(mime, "mp4a."@),
    ensures
        candidate_of(f) is Some,
        candidate_of(f)->0.stream.url == url,
        candidate_of(f)->0.stream.itag == itag,
        candidate_of(f)->0.stream.mime == mime,
        json::member(f, "bitrate"@) is None ==> candidate_of(f)->0.bitrate == 0,
        json::member(f, "bitrate"@) matches Some(json::Doc::Unsigned(n)) ==> n <= i64::MAX
            ==> candidate_of(f)->0.bitrate == n,
        json::text_member(f, "approxDurationMs"@) is None
            ==> candidate_of(f)->0.stream.duration_secs is None,
        json::text_member(f, "approxDurationMs"@) == Some(text::decimal((1000 * secs + ms) as nat))
            ==> candidate_of(f)->0.stream.duration_secs == Some(secs),
{
    text::lemma_unsigned_round_trip((1000 * secs + ms) as nat, u64::MAX as nat);
    assert((1000 * secs + ms) as nat / 1000 == secs);
}

/// A format without an address (a ciphered one), without a number for its itag
/// or with anything but AAC audio is never played.
pub proof fn lemma_unplayable_format(f: json::Doc)
    ensures
        json::text_member(f, "url"@) is None ==> candidate_of(f) is None,
        json::text_member(f, "mimeType"@) is None ==> candidate_of(f) is None,
        json::member(f, "itag"@) is None ==> candidate_of(f) is None,
        json::text_member(f, "mimeType"@) matches Some(mime) ==> (!"audio/"@.is_prefix_of(mime)
            || !text::has_infix(mime, "mp4a."@)) ==> candidate_of(f) is None,
{
}

/// The formats of a response are the adaptive ones and then the combined ones,
/// and the candidates among them keep that order.
pub proof fn lemma_formats_in_order(resp: json::Doc, streaming: json::Doc, a: Seq<json::Doc>, b: Seq<json::Doc>)
    requires
        json::member(resp, "streamingData"@) == Some(streaming),
        json::array_member(streaming, "adaptiveFormats"@) == Some(a),
        json::array_member(streaming, "formats"@) == Some(b),
    ensures
        formats_in(resp) == a + b,
        candidates_of(formats_in(resp)) == candidates_of(a) + candidates_of(b),
{
    lemma_candidates_append(a, b);
}

/// A response without streaming data offers no format.
pub proof fn lemma_no_formats(resp: json::Doc)
    requires
        json::member(resp, "streamingData"@) is None,
    ensures
        formats_in(resp).len() == 0,
        preferred(candidates_of(formats_in(resp))) is None,
{
    assert(formats_in(resp) =~= Seq::<json::Doc>::empty());
}

proof fn lemma_candidates_append(a: Seq<json::Doc>, b: Seq<json::Doc>)
    ensures
        candidates_of(a + b) == candidates_of(a) + candidates_of(b),
        a.len() == 1 ==> candidates_of(a) == match candidate_of(a[0]) {
            Some(c) => seq![c],
            None => Seq::empty(),
        },
    decreases b.len(),
{
    reveal_with_fuel(candidates_of, 2);
    if b.len() == 0 {
        assert(a + b =~= a);
        assert(candidates_of(a) + candidates_of(b) =~= candidates_of(a));
    } else {
        lemma_candidates_append(a, b.drop_last());
        assert((a + b).drop_last() =~= a + b.drop_last());
        assert(candidates_of(a + b) =~= candidates_of(a) + candidates_of(b));
    }
    if a.len() == 1 {
        assert(a.drop_last() =~= Seq::<json::Doc>::empty());
        assert(candidates_of(a) =~= match candidate_of(a[0]) {
            Some(c) => seq![c],
            None => Seq::empty(),
        });
    }
}

/// Of the formats offered, one of itag 141 is played before one of itag 140 and
/// that before any other; among those of the same standing, none has a higher
/// bitrate than the one played.
pub proof fn lemma_preferred(candidates: Seq<CandidateView>, i: int)
    requires
        0 <= i < candidates.len(),
    ensures
        preferred(candidates) is Some,
        candidates.contains(preferred(candidates)->0),
        candidates[i].stream.itag == 141 ==> preferred(candidates)->0.stream.itag == 141
            && candidates[i].bitrate <= preferred(candidates)->0.bitrate,
        candidates[i].stream.itag == 140 && preferred(candidates)->0.stream.itag != 141
            ==> preferred(candidates)->0.stream.itag == 140 && candidates[i].bitrate <= preferred(
            candidates,
        )->0.bitrate,
        preferred(candidates)->0.stream.itag != 141 && preferred(candidates)->0.stream.itag != 140
            ==> candidates[i].bitrate <= preferred(candidates)->0.bitrate,
{
    lemma_best_is_best(candidates, Some(141));
    lemma_best_is_best(candidates, Some(140));
    lemma_best_is_best(candidates, None);
}

/// Of several formats with the same bitrate the first is taken.
pub proof fn lemma_best_is_first(candidates: Seq<CandidateView>, itag: Option<u32>, more: CandidateView)
    ensures
        best_of(candidates, itag) matches Some(b) ==> more.bitrate <= b.bitrate ==> best_of(
            candidates.push(more),
            itag,
        ) == Some(b),
        best_of(candidates, itag) matches Some(b) ==> more.bitrate > b.bitrate && (itag is None
            || more.stream.itag == itag->0) ==> best_of(candidates.push(more), itag) == Some(more),
{
    assert(candidates.push(more).drop_last() =~= candidates);
}

proof fn lemma_expire_skips(parts: Seq<Seq<char>>, part: Seq<char>, rest: Seq<Seq<char>>)
    requires
        forall|i: int|
            0 <= i < parts.len() ==> !"expire="@.is_prefix_of(#[trigger] parts[i]),
        "expire="@.is_prefix_of(part),
    ensures
        expire_in(parts) is None,
        expire_in(parts + seq![part] + rest) == Some(part.skip("expire="@.len() as int)),
    decreases parts.len() + rest.len(),
{
    let all = parts + seq![part] + rest;
    if rest.len() > 0 {
        lemma_expire_skips(parts, part, rest.drop_last());
        assert(all.drop_last() =~= parts + seq![part] + rest.drop_last());
    } else {
        assert(all.drop_last() =~= parts);
        assert(all.last() == part);
        lemma_no_expire(parts);
    }
}

proof fn lemma_no_expire(parts: Seq<Seq<char>>)
    requires
        forall|i: int|
            0 <= i < parts.len() ==> !"expire="@.is_prefix_of(#[trigger] parts[i]),
    ensures
        expire_in(parts) is None,
    decreases parts.len(),
{
    if parts.len() > 0 {
        let shorter = parts.drop_last();
        assert forall|i: int| 0 <= i < shorter.len() implies !"expire="@.is_prefix_of(
            #[trigger] shorter[i],
        ) by {
            assert(shorter[i] == parts[i]);
        }
        lemma_no_expire(shorter);
        assert(parts[parts.len() - 1] == parts.last());
    }
}

/// An address that says when it expires is good until then, but for twenty
/// minutes at most; one that says nothing, or whose time has passed, is good
/// for twenty minutes. The first `expire=` counts, wherever it stands among the
/// parameters.
pub proof fn lemma_ttl(before: Seq<char>, sep: char, e: u64, after: Seq<char>, now: u64)
    requires
        sep == '?' || sep == '&',
        after.len() > 0 ==> after[0] == '&',
        forall|i: int|
            0 <= i < text::split(parameters(before), '&').len() ==> !"expire="@.is_prefix_of(
                #[trigger] text::split(parameters(before), '&')[i],
            ),
    ensures
        ({
            let url = before + seq![sep] + "expire="@ + text::decimal(e as nat) + after;
            &&& now < e < now + 1200 ==> ttl_of(url, now) == e - now
            &&& e >= now + 1200 ==> ttl_of(url, now) == 1200
            &&& e <= now ==> ttl_of(url, now) == 1200
        }),
        ttl_of(before, now) == 1200,
{
    let word = "expire="@;
    let digits = text::decimal(e as nat);
    let url = before + seq![sep] + word + digits + after;
    let front = text::split(parameters(before), '&');
    reveal_strlit("expire=");
    text::lemma_decimal_digits(e as nat);
    text::lemma_unsigned_round_trip(e as nat, u64::MAX as nat);
    let part = word + digits;
    assert(!part.contains('&')) by {
        if part.contains('&') {
            let i = choose|i: int| 0 <= i < part.len() && part[i] == '&';
            if i >= word.len() {
                assert(text::is_digit(digits[i - word.len()]));
            }
        }
    }
    assert(parameters(part) =~= part) by {
        assert forall|i: int| 0 <= i < part.len() implies parameters(part)[i] == part[i] by {
            if i >= word.len() {
                assert(text::is_digit(digits[i - word.len()]));
            }
        }
    }
    text::lemma_split_whole(part, '&');
    assert(part.subrange(0, word.len() as int) =~= word);
    assert(part.skip(word.len() as int) =~= digits);
    let head = parameters(before) + seq!['&'] + part;
    text::lemma_split_append(parameters(before), part, '&');
    if after.len() == 0 {
        assert(parameters(url) =~= head);
        lemma_expire_skips(front, part, Seq::empty());
        assert(front + seq![part] + Seq::<Seq<char>>::empty() =~= front + seq![part]);
    } else {
        let rest = parameters(after.drop_first());
        assert(parameters(url) =~= head + seq!['&'] + rest);
        text::lemma_split_append(head, rest, '&');
        lemma_expire_skips(front, part, text::split(rest, '&'));
        assert(text::split(parameters(url), '&') =~= front + seq![part] + text::split(rest, '&'));
    }
    lemma_no_expire(front);
}

/// Putting a stream into the cache keeps the others: all of them while fewer
/// than 256 are remembered, and of more those younger than twenty minutes.
pub proof fn lemma_put_keeps_others(
    cache: Map<Seq<char>, (StreamView, u64)>,
    key: Seq<char>,
    other: Seq<char>,
    stream: StreamView,
    now_ms: u64,
)
    requires
        other != key,
        cache.contains_key(other),
        cache.dom().finite(),
    ensures
        ({
            let after = after_put(cache, key, stream, now_ms);
            &&& after.contains_key(key) && after[key] == (stream, now_ms)
            &&& cache.dom().len() < 256 || now_ms < cache[other].1 + 1_200_000
                ==> after.contains_key(other) && after[other] == cache[other]
            &&& cache.dom().len() >= 256 && now_ms >= cache[other].1 + 1_200_000
                ==> !after.contains_key(other)
        }),
{
}

/// A remembered stream is given out while its address is good, counted from the
/// moment it was put there, and never after twenty minutes; what was never put
/// there is not found.
pub proof fn lemma_lookup(
    cache: Map<Seq<char>, (StreamView, u64)>,
    key: Seq<char>,
    now_ms: u64,
    now_secs: u64,
)
    ensures
        !cache.contains_key(key) ==> looked_up(cache, key, now_ms, now_secs) is None,
        cache.contains_key(key) && now_ms < cache[key].1 + 1000 * ttl_of(
            cache[key].0.url,
            now_secs,
        ) ==> looked_up(cache, key, now_ms, now_secs) == Some(cache[key].0),
        cache.contains_key(key) && now_ms >= cache[key].1 + 1000 * ttl_of(
            cache[key].0.url,
            now_secs,
        ) ==> looked_up(cache, key, now_ms, now_secs) is None,
        cache.contains_key(key) && now_ms >= cache[key].1 + 1_200_000 ==> looked_up(
            cache,
            key,
            now_ms,
            now_secs,
        ) is None,
{
    if cache.contains_key(key) {
        lemma_ttl_clamped(cache[key].0.url, now_secs);
    }
}

/// What yt-dlp describes is a stream if it has an https address: that address,
/// the format's number as the itag, `audio/` and the extension as the type, and
/// its duration in whole seconds.
pub proof fn lemma_dlp_stream(info: json::Doc, url: Seq<char>, id: u32, ext: Seq<char>, secs: u64)
    requires
        json::text_member(info, "url"@) == Some(url),
        json::text_member(info, "format_id"@) == Some(text::decimal(id as nat)),
        json::text_member(info, "ext"@) == Some(ext),
        json::member(info, "duration"@) == Some(json::Doc::Unsigned(secs)),
    ensures
        dlp_stream(info) is Some <==> "https://"@.is_prefix_of(url),
        dlp_stream(info) matches Some(s) ==> s.url == url && s.itag == id && s.mime == "audio/"@
            + ext && s.duration_secs == json::rounded_value(json::Doc::Unsigned(secs)),
{
    text::lemma_unsigned_round_trip(id as nat, u32::MAX as nat);
}

/// Where yt-dlp names no address there is no stream; where it names neither
/// format nor extension, the itag is zero and the type that of an mp4.
pub proof fn lemma_dlp_gaps(info: json::Doc)
    ensures
        json::text_member(info, "url"@) is None ==> dlp_stream(info) is None,
        dlp_stream(info) matches Some(s) ==> {
            &&& json::text_member(info, "format_id"@) is None ==> s.itag == 0
            &&& json::text_member(info, "ext"@) is None ==> s.mime == "audio/"@ + "mp4"@
            &&& json::member(info, "duration"@) is None ==> s.duration_secs is None
        },
{
}

/// The note on a client that brought nothing begins with the client's key, and
/// ends with what went wrong or with the playability that was reported.
pub proof fn lemma_attempt_note(client: ClientCtx, reply: Result<Json, String>)
    ensures
        (client.key@ + ": "@).is_prefix_of(attempt_note(client, reply)),
        reply matches Err(cause) ==> cause@.is_suffix_of(attempt_note(client, reply)),
        reply matches Ok(resp) ==> match json::text_member(
            json::member_or_null(resp@, "playabilityStatus"@),
            "status"@,
        ) {
            Some(status) => (status + ")"@).is_suffix_of(attempt_note(client, reply)),
            None => ("UNKNOWN"@ + ")"@).is_suffix_of(attempt_note(client, reply)),
        },
{
    let note = attempt_note(client, reply);
    let front = client.key@ + ": "@;
    reveal_strlit(": ");
    reveal_strlit(": no direct AAC formats (status ");
    match reply {
        Ok(resp) => {
            assert(note.subrange(0, front.len() as int) =~= front);
            let end = playability(resp@) + ")"@;
            assert(note.subrange(note.len() - end.len(), note.len() as int) =~= end);
        },
        Err(cause) => {
            assert(note.subrange(0, front.len() as int) =~= front);
            assert(note.subrange(note.len() - cause@.len(), note.len() as int) =~= cause@);
        },
    }
}

/// What is said of a run of yt-dlp that brought nothing: that it took too long,
/// is not there or would not start, its exit status and the last line it wrote,
/// or that what it printed is no JSON or names no address.
pub proof fn lemma_dlp_messages(run: DlpRun, line: Seq<char>)
    ensures
        run is TimedOut ==> dlp_failure(run) == Some("yt-dlp timed out after 90s"@),
        run is Missing ==> dlp_failure(run) == Some(
            "yt-dlp not found on PATH — install it for the fallback resolver (see https://github.com/yt-dlp/yt-dlp)"@,
        ),
        run matches DlpRun::LaunchFailed(cause) ==> dlp_failure(run) == Some(
            "failed to launch yt-dlp: "@ + cause@,
        ),
        run matches DlpRun::Exited { status, stderr } ==> {
            &&& stderr@.len() == 0 ==> dlp_failure(run) == Some(
                "yt-dlp exited "@ + status@ + ": "@ + "(no output)"@,
            )
            &&& stderr@ == line && line.len() > 0 && !line.contains('\n') ==> dlp_failure(run)
                == Some("yt-dlp exited "@ + status@ + ": "@ + line)
        },
        run matches DlpRun::Printed(output) ==> match json::parsed_bytes(output@) {
            Ok(info) => {
                &&& json::text_member(info, "url"@) is None ==> dlp_failure(run) == Some(
                    "yt-dlp returned no stream url"@,
                )
                &&& dlp_stream(info) is Some ==> dlp_failure(run) is None
            },
            Err(cause) => dlp_failure(run) == Some(
                "yt-dlp output was not valid JSON: "@ + cause,
            ),
        },
{
    if let DlpRun::Exited { status, stderr } = run {
        if stderr@.len() == 0 {
            assert(stderr@ =~= Seq::<char>::empty());
            text::lemma_lines(Seq::empty(), Seq::empty());
        }
        if stderr@ == line && line.len() > 0 && !line.contains('\n') {
            text::lemma_lines(line, Seq::empty());
        }
    }
}

/// The place of a stream in the cache is the client's key, a colon and the
/// video.
pub proof fn lemma_key_of(client: ClientCtx, video_id: Seq<char>)
    requires
        !client.key@.contains(':'),
    ensures
        text::split_once(key_of(client, video_id), ':') == Some((client.key@, video_id)),
{
    reveal_strlit(":");
    assert(":"@ =~= seq![':']);
    text::lemma_split_once(client.key@, ':', video_id);
}

/// A type is AAC audio if it begins as audio and names the codec, whatever
/// stands around that.
pub proof fn lemma_aac_mime(middle: Seq<char>, end: Seq<char>, mime: Seq<char>)
    ensures
        aac_mime("audio/"@ + middle + "mp4a."@ + end),
        !"audio/"@.is_prefix_of(mime) ==> !aac_mime(mime),
        aac_mime(mime) ==> text::has_infix(mime, "mp4a."@),
{
    let m = "audio/"@ + middle + "mp4a."@ + end;
    let a = "audio/"@;
    assert(m.subrange(0, a.len() as int) =~= a);
    let i = a.len() + middle.len() as int;
    let p = "mp4a."@;
    assert(m.subrange(i, i + p.len()) =~= p);
}

/// A stale entry leaves the cache when it is looked up, a good one stays, and
/// the other entries stay in either case.
pub proof fn lemma_lookup_tidies(
    cache: Map<Seq<char>, (StreamView, u64)>,
    key: Seq<char>,
    other: Seq<char>,
    now_ms: u64,
    now_secs: u64,
)
    ensures
        ({
            let after = after_lookup(cache, key, now_ms, now_secs);
            &&& looked_up(cache, key, now_ms, now_secs) is Some ==> after == cache
            &&& looked_up(cache, key, now_ms, now_secs) is None ==> !after.contains_key(key)
            &&& other != key && cache.contains_key(other) ==> after.contains_key(other)
                && after[other] == cache[other]
            &&& !cache.contains_key(other) ==> !after.contains_key(other)
        }),
{
}

/// The arguments that yt-dlp is run with.
pub fn yt_dlp_args(video_id: &str) -> (args: Vec<String>)
    ensures
        text::views(args@) == seq![
            "-J"@,
            "-f"@,
            "141/140/bestaudio[ext=m4a]/bestaudio"@,
            "--no-playlist"@,
            "https://www.youtube.com/watch?v="@ + video_id@,
        ],
{
    let mut url = "https://www.youtube.com/watch?v=".to_owned();
    url.append(video_id);
    let mut args: Vec<String> = Vec::new();
    args.push("-J".to_owned());
    args.push("-f".to_owned());
    args.push("141/140/bestaudio[ext=m4a]/bestaudio".to_owned());
    args.push("--no-playlist".to_owned());
    args.push(url);
    assert(text::views(args@) =~= seq![
        "-J"@,
        "-f"@,
        "141/140/bestaudio[ext=m4a]/bestaudio"@,
        "--no-playlist"@,
        "https://www.youtube.com/watch?v="@ + video_id@,
    ]);
    args
}

/// The stream that yt-dlp's description names, if it has a secure address.
pub fn stream_from_info(info: &Json) -> (stream: Option<StreamUrl>)
    ensures
        (match stream {
            Some(s) => Some(s@),
            None => None,
        }) == dlp_stream(info@),
{
    let url = match info.get_str("url") {
        Some(u) => u.to_owned(),
        None => return None,
    };
    if !text::starts_with(url.as_str(), "https://") {
        return None;
    }
    let itag: u32 = match info.get_str("format_id") {
        Some(id) => match text::parse_unsigned(id, u32::MAX as u64) {
            Some(n) => {
                assert(n <= u32::MAX);
                n as u32
            },
            None => 0,
        },
        None => 0,
    };
    let mut mime = "audio/".to_owned();
    match info.get_str("ext") {
        Some(ext) => mime.append(ext),
        None => mime.append("mp4"),
    }
    let duration_secs = match info.get("duration") {
        Some(d) => d.as_rounded(),
        None => None,
    };
    Some(StreamUrl { url, itag, mime, duration_secs })
}

/// The outcome of the fallback resolver.
pub fn yt_dlp_outcome(run: DlpRun) -> (outcome: Result<StreamUrl, String>)
    ensures
        match outcome {
            Ok(s) => match run {
                DlpRun::Printed(output) => match json::parsed_bytes(output@) {
                    Ok(info) => dlp_stream(info) == Some(s@),
                    Err(_) => false,
                },
                _ => false,
            },
            Err(m) => dlp_failure(run) == Some(m@),
        },
{
    match run {
        DlpRun::TimedOut => Err("yt-dlp timed out after 90s".to_owned()),
        DlpRun::Missing => Err(
            "yt-dlp not found on PATH — install it for the fallback resolver (see https://github.com/yt-dlp/yt-dlp)".to_owned(),
        ),
        DlpRun::LaunchFailed(cause) => {
            let mut m = "failed to launch yt-dlp: ".to_owned();
            m.append(cause.as_str());
            Err(m)
        },
        DlpRun::Exited { status, stderr } => {
            let lines = text::lines_of(stderr.as_str());
            let mut m = "yt-dlp exited ".to_owned();
            m.append(status.as_str());
            m.append(": ");
            assert(text::views(lines@).len() == lines@.len());
            if lines.len() > 0 {
                assert(text::lines(stderr@).last() == lines@[lines@.len() - 1]@);
                m.append(lines[lines.len() - 1].as_str());
            } else {
                m.append("(no output)");
            }
            Err(m)
        },
        DlpRun::Printed(output) => match json::parse_bytes(&output) {
            Ok(info) => match stream_from_info(&info) {
                Some(s) => Ok(s),
                None => Err("yt-dlp returned no stream url".to_owned()),
            },
            Err(cause) => {
                let mut m = "yt-dlp output was not valid JSON: ".to_owned();
                m.append(cause.as_str());
                Err(m)
            },
        },
    }
}

} // verus!
