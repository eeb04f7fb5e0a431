//! The InnerTube side of a session: the clients it speaks as, its cookies, and
//! what every request carries and every reply means.

use vstd::prelude::*;

use crate::json;
use crate::json::Json;
use crate::model;
use crate::model::Track;
use crate::text;
use crate::yt::resolver::StreamCache;
use crate::yt::search;

verus! {

/// One client that requests are made as.
#[derive(Clone, Copy, Debug)]
pub struct ClientCtx {
    /// Key in the cache and in messages.
    pub key: &'static str,
    /// Host the requests go to.
    pub host: &'static str,
    /// `context.client.clientName`.
    pub name: &'static str,
    /// `context.client.clientVersion`.
    pub version: &'static str,
    /// `X-YouTube-Client-Name` header.
    pub id: u32,
    /// `User-Agent` header.
    pub ua: &'static str,
    /// The device that the client says it runs on.
    pub device: Device,
    /// Whether the client belongs to music.youtube.com.
    pub music: bool,
    /// Whether the client is only tried with cookies.
    pub needs_cookies: bool,
}

/// The device identity that some clients add to their requests.
#[derive(Clone, Copy, Debug, PartialEq, Eq, Structural)]
pub enum Device {
    Unnamed,
    VisionPro,
    Quest,
    IPhone,
}

/// The plain web client, which only asks for a visitor id.
pub open spec fn web() -> ClientCtx {
    ClientCtx {
        key: "web",
        host: "www.youtube.com",
        name: "WEB",
        version: "2.20260707.00.00",
        id: 1,
        ua:
            "Mozilla/5.0 (Windows NT 10.0; Win64; x64) AppleWebKit/537.36 (KHTML, like Gecko) Chrome/131.0.0.0 Safari/537.36",
        device: Device::Unnamed,
        music: false,
        needs_cookies: false,
    }
}

/// The YouTube Music web client: searches, radios, and with cookies the
/// Premium streams.
pub open spec fn web_music() -> ClientCtx {
    ClientCtx {
        key: "web_music",
        host: "music.youtube.com",
        name: "WEB_REMIX",
        version: "1.20260707.12.00",
        id: 67,
        ua:
            "Mozilla/5.0 (Windows NT 10.0; Win64; x64) AppleWebKit/537.36 (KHTML, like Gecko) Chrome/131.0.0.0 Safari/537.36,gzip(gfe)",
        device: Device::Unnamed,
        music: true,
        needs_cookies: true,
    }
}

/// The first anonymous client: its addresses serve the whole file.
pub open spec fn visionos() -> ClientCtx {
    ClientCtx {
        key: "visionos",
        host: "www.youtube.com",
        name: "VISIONOS",
        version: "1.02",
        id: 101,
        ua:
            "Mozilla/5.0 (Macintosh; Intel Mac OS X 15_7_3) AppleWebKit/605.1.15 (KHTML, like Gecko) Version/26.0 Safari/605.1.15",
        device: Device::VisionPro,
        music: false,
        needs_cookies: false,
    }
}

/// The second anonymous client.
pub open spec fn android_vr() -> ClientCtx {
    ClientCtx {
        key: "android_vr",
        host: "www.youtube.com",
        name: "ANDROID_VR",
        version: "1.65.10",
        id: 28,
        ua:
            "com.google.android.apps.youtube.vr.oculus/1.65.10 (Linux; U; Android 12L; eureka-user Build/SQ3A.220605.009.A1) gzip",
        device: Device::Quest,
        music: false,
        needs_cookies: false,
    }
}

/// The third anonymous client.
pub open spec fn ios() -> ClientCtx {
    ClientCtx {
        key: "ios",
        host: "www.youtube.com",
        name: "IOS",
        version: "21.26.4",
        id: 5,
        ua: "com.google.ios.youtube/21.26.4 (iPhone16,2; U; CPU iOS 18_3_2 like Mac OS X;)",
        device: Device::IPhone,
        music: false,
        needs_cookies: false,
    }
}

/// The last anonymous client.
pub open spec fn tv() -> ClientCtx {
    ClientCtx {
        key: "tv",
        host: "www.youtube.com",
        name: "TVHTML5",
        version: "7.20260707.07.00",
        id: 7,
        ua:
            "Mozilla/5.0 (ChromiumStylePlatform) Cobalt/25.lts.30.1034943-gold (unlike Gecko), Unknown_TV_Unknown_0/Unknown (Unknown, Unknown)",
        device: Device::Unnamed,
        music: false,
        needs_cookies: false,
    }
}

/// The clients that are asked for a stream, in the order they are asked.
pub open spec fn player_clients() -> Seq<ClientCtx> {
    seq![web_music(), visionos(), android_vr(), ios(), tv()]
}

/// The clients of a session: all with cookies, else those that need none.
pub open spec fn chain(has_cookies: bool) -> Seq<ClientCtx> {
    player_clients().filter(|c: ClientCtx| has_cookies || !c.needs_cookies)
}

/// The YouTube Music search filter for songs.
pub const SEARCH_PARAMS_SONGS: &'static str = "EgWKAQIIAWoKEAkQBRAKEAMQBA%3D%3D";

/// How long a visitor id is used again, in milliseconds.
pub const VISITOR_TTL_MS: u64 = 3_600_000;

/// What a [`Cookie`] holds.
#[verifier::ext_equal]
pub struct CookieView {
    pub domain: Seq<char>,
    pub name: Seq<char>,
    pub value: Seq<char>,
    pub expiry: i64,
}

/// An entry of a Netscape `cookies.txt`.
#[derive(Debug, PartialEq, Eq)]
pub struct Cookie {
    pub domain: String,
    pub name: String,
    pub value: String,
    /// Seconds since the epoch; zero for a cookie of the session.
    pub expiry: i64,
}

impl View for Cookie {
    type V = CookieView;

    open spec fn view(&self) -> CookieView {
        CookieView {
            domain: self.domain@,
            name: self.name@,
            value: self.value@,
            expiry: self.expiry,
        }
    }
}

/// What a list of cookies holds.
pub open spec fn cookie_views(cookies: Seq<Cookie>) -> Seq<CookieView> {
    Seq::new(cookies.len(), |i: int| cookies[i]@)
}

/// `s` without the carriage returns at its end.
pub open spec fn without_returns(s: Seq<char>) -> Seq<char>
    decreases s.len(),
{
    if s.len() > 0 && s.last() == '\r' {
        without_returns(s.drop_last())
    } else {
        s
    }
}

/// A line without the mark of a cookie that scripts cannot read.
pub open spec fn unmarked(line: Seq<char>) -> Seq<char> {
    if "#HttpOnly_"@.is_prefix_of(line) {
        line.skip("#HttpOnly_"@.len() as int)
    } else {
        line
    }
}

/// Whether a cookie with that expiry is gone at `now`; zero never is.
pub open spec fn expired(expiry: i64, now: i64) -> bool {
    0 < expiry < now
}

pub open spec fn expiry_of(field: Seq<char>) -> i64 {
    match text::signed(text::trimmed(field), i64::MIN as int, i64::MAX as int) {
        Some(n) => n as i64,
        None => 0,
    }
}

/// The cookie on a line: seven fields between tabs, not a comment, not expired.
pub open spec fn cookie_on_line(line: Seq<char>, now: i64) -> Option<CookieView> {
    let entry = unmarked(without_returns(line));
    let fields = text::split(entry, '\t');
    if entry.len() == 0 || entry[0] == '#' || fields.len() < 7 || expired(
        expiry_of(fields[4]),
        now,
    ) {
        None
    } else {
        Some(
            CookieView {
                domain: fields[0],
                name: fields[5],
                value: fields[6],
                expiry: expiry_of(fields[4]),
            },
        )
    }
}

pub open spec fn cookies_on_lines(lines: Seq<Seq<char>>, now: i64) -> Seq<CookieView>
    decreases lines.len(),
{
    if lines.len() == 0 {
        Seq::empty()
    } else {
        let before = cookies_on_lines(lines.drop_last(), now);
        match cookie_on_line(lines.last(), now) {
            Some(c) => before.push(c),
            None => before,
        }
    }
}

/// The live cookies of a Netscape `cookies.txt`, in file order.
pub open spec fn cookies_in(jar: Seq<char>, now: i64) -> Seq<CookieView> {
    cookies_on_lines(text::lines(jar), now)
}

/// `s` without the dots at its start.
pub open spec fn without_dots(s: Seq<char>) -> Seq<char>
    decreases s.len(),
{
    if s.len() > 0 && s[0] == '.' {
        without_dots(s.drop_first())
    } else {
        s
    }
}

/// Whether a cookie of that domain is sent to YouTube.
pub open spec fn youtube_domain(domain: Seq<char>) -> bool {
    let d = without_dots(domain);
    d == "youtube.com"@ || d == "music.youtube.com"@ || ".youtube.com"@.is_suffix_of(d)
}

/// `name=value` of the cookies that go to YouTube, in order.
pub open spec fn header_pairs(cookies: Seq<CookieView>) -> Seq<Seq<char>>
    decreases cookies.len(),
{
    if cookies.len() == 0 {
        Seq::empty()
    } else {
        let before = header_pairs(cookies.drop_last());
        let c = cookies.last();
        if youtube_domain(c.domain) {
            before.push(c.name + "="@ + c.value)
        } else {
            before
        }
    }
}

/// The `Cookie` header, if any cookie goes to YouTube.
pub open spec fn header_of(cookies: Seq<CookieView>) -> Option<Seq<char>> {
    if header_pairs(cookies).len() == 0 {
        None
    } else {
        Some(text::join(header_pairs(cookies), "; "@))
    }
}

/// There is a `Cookie` header exactly where some cookie belongs to YouTube; those
/// of other domains never count.
pub proof fn lemma_header_needs_youtube(cookies: Seq<CookieView>)
    ensures
        header_of(cookies) is Some <==> exists|i: int|
            0 <= i < cookies.len() && youtube_domain(#[trigger] cookies[i].domain),
    decreases cookies.len(),
{
    if cookies.len() > 0 {
        let shorter = cookies.drop_last();
        lemma_header_needs_youtube(shorter);
        if exists|i: int| 0 <= i < cookies.len() && youtube_domain(#[trigger] cookies[i].domain) {
            let i = choose|i: int|
                0 <= i < cookies.len() && youtube_domain(#[trigger] cookies[i].domain);
            if i < shorter.len() {
                assert(shorter[i] == cookies[i]);
            }
        }
        if exists|i: int| 0 <= i < shorter.len() && youtube_domain(#[trigger] shorter[i].domain) {
            let i = choose|i: int|
                0 <= i < shorter.len() && youtube_domain(#[trigger] shorter[i].domain);
            assert(cookies[i] == shorter[i]);
        }
        if youtube_domain(cookies.last().domain) {
            assert(youtube_domain(cookies[cookies.len() - 1].domain));
        }
    }
}

/// A session without cookies asks no client that needs them, and one with
/// cookies asks every client, the music one first.
pub proof fn lemma_chain()
    ensures
        chain(true) == player_clients(),
        chain(false) == player_clients().skip(1),
        forall|i: int| 0 <= i < chain(false).len() ==> !(#[trigger] chain(false)[i]).needs_cookies,
{
    let all = player_clients();
    let any = |c: ClientCtx| true || !c.needs_cookies;
    let plain = |c: ClientCtx| false || !c.needs_cookies;
    reveal(Seq::filter);
    reveal_with_fuel(Seq::filter, 6);
    assert(all.drop_last() =~= all.take(4));
    assert(all.take(4).drop_last() =~= all.take(3));
    assert(all.take(3).drop_last() =~= all.take(2));
    assert(all.take(2).drop_last() =~= all.take(1));
    assert(all.take(1).drop_last() =~= Seq::empty());
    assert(chain(true) =~= all);
    assert(chain(false) =~= all.skip(1));
}

/// The `Cookie` header of a session that was given the text of a jar.
pub open spec fn session_header(jar: Option<Seq<char>>, now: i64) -> Option<Seq<char>> {
    match jar {
        Some(t) => header_of(cookies_in(t, now)),
        None => None,
    }
}

pub fn client_web() -> (c: ClientCtx)
    ensures
        c == web(),
{
    ClientCtx {
        key: "web",
        host: "www.youtube.com",
        name: "WEB",
        version: "2.20260707.00.00",
        id: 1,
        ua:
            "Mozilla/5.0 (Windows NT 10.0; Win64; x64) AppleWebKit/537.36 (KHTML, like Gecko) Chrome/131.0.0.0 Safari/537.36",
        device: Device::Unnamed,
        music: false,
        needs_cookies: false,
    }
}

pub fn client_web_music() -> (c: ClientCtx)
    ensures
        c == web_music(),
{
    ClientCtx {
        key: "web_music",
        host: "music.youtube.com",
        name: "WEB_REMIX",
        version: "1.20260707.12.00",
        id: 67,
        ua:
            "Mozilla/5.0 (Windows NT 10.0; Win64; x64) AppleWebKit/537.36 (KHTML, like Gecko) Chrome/131.0.0.0 Safari/537.36,gzip(gfe)",
        device: Device::Unnamed,
        music: true,
        needs_cookies: true,
    }
}

fn client_visionos() -> (c: ClientCtx)
    ensures
        c == visionos(),
{
    ClientCtx {
        key: "visionos",
        host: "www.youtube.com",
        name: "VISIONOS",
        version: "1.02",
        id: 101,
        ua:
            "Mozilla/5.0 (Macintosh; Intel Mac OS X 15_7_3) AppleWebKit/605.1.15 (KHTML, like Gecko) Version/26.0 Safari/605.1.15",
        device: Device::VisionPro,
        music: false,
        needs_cookies: false,
    }
}

fn client_android_vr() -> (c: ClientCtx)
    ensures
        c == android_vr(),
{
    ClientCtx {
        key: "android_vr",
        host: "www.youtube.com",
        name: "ANDROID_VR",
        version: "1.65.10",
        id: 28,
        ua:
            "com.google.android.apps.youtube.vr.oculus/1.65.10 (Linux; U; Android 12L; eureka-user Build/SQ3A.220605.009.A1) gzip",
        device: Device::Quest,
        music: false,
        needs_cookies: false,
    }
}

fn client_ios() -> (c: ClientCtx)
    ensures
        c == ios(),
{
    ClientCtx {
        key: "ios",
        host: "www.youtube.com",
        name: "IOS",
        version: "21.26.4",
        id: 5,
        ua: "com.google.ios.youtube/21.26.4 (iPhone16,2; U; CPU iOS 18_3_2 like Mac OS X;)",
        device: Device::IPhone,
        music: false,
        needs_cookies: false,
    }
}

fn client_tv() -> (c: ClientCtx)
    ensures
        c == tv(),
{
    ClientCtx {
        key: "tv",
        host: "www.youtube.com",
        name: "TVHTML5",
        version: "7.20260707.07.00",
        id: 7,
        ua:
            "Mozilla/5.0 (ChromiumStylePlatform) Cobalt/25.lts.30.1034943-gold (unlike Gecko), Unknown_TV_Unknown_0/Unknown (Unknown, Unknown)",
        device: Device::Unnamed,
        music: false,
        needs_cookies: false,
    }
}

/// The clients of a session in the order they are asked: every one with
/// cookies, only those that work without otherwise.
pub fn client_chain(has_cookies: bool) -> (clients: Vec<ClientCtx>)
    ensures
        clients@ == chain(has_cookies),
{
    let all: [ClientCtx; 5] = [
        client_web_music(),
        client_visionos(),
        client_android_vr(),
        client_ios(),
        client_tv(),
    ];
    let ghost wanted = |c: ClientCtx| has_cookies || !c.needs_cookies;
    let mut clients: Vec<ClientCtx> = Vec::new();
    let mut i: usize = 0;
    assert(all@ =~= player_clients());
    assert(all@.take(0).filter(wanted) =~= Seq::empty()) by {
        reveal(Seq::filter);
    }
    while i < 5
        invariant
            0 <= i <= 5,
            all@ == player_clients(),
            all@.len() == 5,
            wanted == (|c: ClientCtx| has_cookies || !c.needs_cookies),
            clients@ == all@.take(i as int).filter(wanted),
        decreases 5 - i,
    {
        assert(all@.take(i + 1).filter(wanted) == if wanted(all@[i as int]) {
            all@.take(i as int).filter(wanted).push(all@[i as int])
        } else {
            all@.take(i as int).filter(wanted)
        }) by {
            reveal(Seq::filter);
            assert(all@.take(i + 1).drop_last() =~= all@.take(i as int));
        }
        if has_cookies || !all[i].needs_cookies {
            clients.push(all[i]);
        }
        i += 1;
    }
    assert(all@.take(5) =~= all@);
    clients
}

fn trim_returns(v: &Vec<char>) -> (n: usize)
    ensures
        n <= v@.len(),
        v@.take(n as int) == without_returns(v@),
{
    let mut n: usize = v.len();
    assert(v@.take(n as int) =~= v@);
    while n > 0 && v[n - 1] == '\r'
        invariant
            n <= v@.len(),
            without_returns(v@.take(n as int)) == without_returns(v@),
        decreases n,
    {
        assert(v@.take(n as int).drop_last() =~= v@.take(n - 1));
        n -= 1;
    }
    assert(n > 0 ==> v@.take(n as int).last() == v@[n - 1]);
    n
}

fn parse_cookie_line(line: &str, now: i64) -> (cookie: Option<Cookie>)
    ensures
        (match cookie {
            Some(c) => Some(c@),
            None => None,
        }) == cookie_on_line(line@, now),
{
    let v = text::chars(line);
    let n = trim_returns(&v);
    let bare = text::piece(&v, 0, n);
    assert(bare@ =~= without_returns(line@));
    let entry = match text::strip_prefix(bare.as_str(), "#HttpOnly_") {
        Some(rest) => rest,
        None => bare,
    };
    assert(entry@ == unmarked(without_returns(line@)));
    let e = text::chars(entry.as_str());
    if e.len() == 0 || e[0] == '#' {
        return None;
    }
    let fields = text::split_on(entry.as_str(), '\t');
    let ghost parts = text::split(entry@, '\t');
    assert(parts.len() == fields@.len());
    if fields.len() < 7 {
        return None;
    }
    assert(parts[4] == fields@[4]@);
    let expiry: i64 = match text::parse_i64(text::trim(fields[4].as_str()).as_str()) {
        Some(n) => n,
        None => 0,
    };
    if expiry > 0 && expiry < now {
        return None;
    }
    assert(parts[0] == fields@[0]@ && parts[5] == fields@[5]@ && parts[6] == fields@[6]@);
    Some(
        Cookie {
            domain: fields[0].clone(),
            name: fields[5].clone(),
            value: fields[6].clone(),
            expiry,
        },
    )
}

/// Reads a Netscape `cookies.txt`, leaving out comments, malformed lines and
/// entries that are expired at `now`.
pub fn parse_netscape_cookies(jar: &str, now: i64) -> (cookies: Vec<Cookie>)
    ensures
        cookie_views(cookies@) == cookies_in(jar@, now),
{
    let lines = text::lines_of(jar);
    let ghost all = text::lines(jar@);
    let mut cookies: Vec<Cookie> = Vec::new();
    let mut i: usize = 0;
    assert(all.take(0) =~= Seq::empty());
    assert(cookie_views(cookies@) =~= Seq::empty());
    while i < lines.len()
        invariant
            0 <= i <= lines@.len(),
            all == text::views(lines@),
            cookie_views(cookies@) == cookies_on_lines(all.take(i as int), now),
        decreases lines@.len() - i,
    {
        assert(all.take(i + 1).drop_last() =~= all.take(i as int));
        assert(all[i as int] == lines@[i as int]@);
        if let Some(c) = parse_cookie_line(lines[i].as_str(), now) {
            let ghost before = cookies@;
            let ghost view = c@;
            cookies.push(c);
            assert(cookie_views(cookies@) =~= cookie_views(before).push(view));
        }
        i += 1;
    }
    assert(all.take(all.len() as int) =~= all);
    cookies
}

/// `s` without the dots at its start.
pub fn trim_dots(s: &str) -> (t: String)
    ensures
        t@ == without_dots(s@),
{
    let v = text::chars(s);
    let mut i: usize = 0;
    assert(s@.skip(0) =~= s@);
    while i < v.len() && v[i] == '.'
        invariant
            v@ == s@,
            0 <= i <= v@.len(),
            without_dots(s@) == without_dots(s@.skip(i as int)),
        decreases v@.len() - i,
    {
        assert(s@.skip(i as int).drop_first() =~= s@.skip(i + 1));
        i += 1;
    }
    assert(v@.subrange(i as int, v@.len() as int) =~= s@.skip(i as int));
    text::piece(&v, i, v.len())
}

pub fn is_youtube_domain(domain: &str) -> (yes: bool)
    ensures
        yes == youtube_domain(domain@),
{
    let d = trim_dots(domain);
    text::same(d.as_str(), "youtube.com") || text::same(d.as_str(), "music.youtube.com")
        || text::ends_with(d.as_str(), ".youtube.com")
}

/// The `Cookie` header made of the cookies that go to YouTube.
pub fn cookie_header(cookies: &Vec<Cookie>) -> (header: Option<String>)
    ensures
        model::text_view(header) == header_of(cookie_views(cookies@)),
{
    let ghost all = cookie_views(cookies@);
    let mut pairs: Vec<String> = Vec::new();
    let mut i: usize = 0;
    assert(all.take(0) =~= Seq::empty());
    assert(text::views(pairs@) =~= Seq::empty());
    while i < cookies.len()
        invariant
            0 <= i <= cookies@.len(),
            all == cookie_views(cookies@),
            text::views(pairs@) == header_pairs(all.take(i as int)),
        decreases cookies@.len() - i,
    {
        assert(all.take(i + 1).drop_last() =~= all.take(i as int));
        assert(all[i as int] == cookies@[i as int]@);
        if is_youtube_domain(cookies[i].domain.as_str()) {
            let mut pair = cookies[i].name.clone();
            pair.append("=");
            pair.append(cookies[i].value.as_str());
            let ghost before = pairs@;
            let ghost view = pair@;
            pairs.push(pair);
            assert(text::views(pairs@) =~= text::views(before).push(view));
        }
        i += 1;
    }
    assert(all.take(all.len() as int) =~= all);
    assert(text::views(pairs@).len() == pairs@.len());
    if pairs.len() == 0 {
        None
    } else {
        Some(text::join_with(&pairs, "; "))
    }
}

/// The fields that a device adds to the client's description.
pub open spec fn device_doc(device: Device) -> Seq<(Seq<char>, json::Doc)> {
    match device {
        Device::Unnamed => Seq::empty(),
        Device::VisionPro => seq![
            ("deviceMake"@, json::Doc::Text("Apple"@)),
            ("deviceModel"@, json::Doc::Text("RealityDevice17,1"@)),
            ("osName"@, json::Doc::Text("visionOS"@)),
            ("osVersion"@, json::Doc::Text("26.5.23O471"@)),
        ],
        Device::Quest => seq![
            ("deviceMake"@, json::Doc::Text("Oculus"@)),
            ("deviceModel"@, json::Doc::Text("Quest 3"@)),
            ("androidSdkVersion"@, json::Doc::Unsigned(32)),
            ("osName"@, json::Doc::Text("Android"@)),
            ("osVersion"@, json::Doc::Text("12L"@)),
        ],
        Device::IPhone => seq![
            ("deviceMake"@, json::Doc::Text("Apple"@)),
            ("deviceModel"@, json::Doc::Text("iPhone16,2"@)),
            ("osName"@, json::Doc::Text("iPhone"@)),
            ("osVersion"@, json::Doc::Text("18.3.2.22D82"@)),
        ],
    }
}

/// The `context` of a request: who is asking, from which device, and the
/// visitor id when there is one.
pub open spec fn context_doc(ctx: ClientCtx, visitor: Option<Seq<char>>) -> json::Doc {
    let who = seq![
        ("clientName"@, json::Doc::Text(ctx.name@)),
        ("clientVersion"@, json::Doc::Text(ctx.version@)),
        ("hl"@, json::Doc::Text("en"@)),
        ("gl"@, json::Doc::Text("US"@)),
    ];
    let known = match visitor {
        Some(v) => who.push(("visitorData"@, json::Doc::Text(v))),
        None => who,
    };
    json::Doc::Object(
        seq![("client"@, json::Doc::Object(known + device_doc(ctx.device)))],
    )
}

proof fn lemma_client_keys()
    ensures
        "clientName"@ != "clientVersion"@,
        "clientName"@ != "hl"@,
        "clientName"@ != "gl"@,
        "clientName"@ != "visitorData"@,
        "clientVersion"@ != "hl"@,
        "clientVersion"@ != "gl"@,
        "clientVersion"@ != "visitorData"@,
        "hl"@ != "gl"@,
        "hl"@ != "visitorData"@,
        "gl"@ != "visitorData"@,
        forall|i: int|
            0 <= i < 5 ==> !(#[trigger] device_keys()[i] == "clientName"@) && device_keys()[i]
                != "clientVersion"@ && device_keys()[i] != "hl"@ && device_keys()[i] != "gl"@
                && device_keys()[i] != "visitorData"@,
        forall|i: int, j: int|
            0 <= i < j < 5 ==> #[trigger] device_keys()[i] != #[trigger] device_keys()[j],
{
    reveal_strlit("clientName");
    reveal_strlit("clientVersion");
    reveal_strlit("hl");
    reveal_strlit("gl");
    reveal_strlit("visitorData");
    reveal_strlit("deviceMake");
    reveal_strlit("deviceModel");
    reveal_strlit("androidSdkVersion");
    reveal_strlit("osName");
    reveal_strlit("osVersion");
    assert("clientName"@.len() == 10 && "clientVersion"@.len() == 13 && "visitorData"@.len() == 11);
    assert("hl"@.len() == 2 && "gl"@.len() == 2);
    assert("deviceMake"@.len() == 10 && "deviceModel"@.len() == 11 && "androidSdkVersion"@.len()
        == 17 && "osName"@.len() == 6 && "osVersion"@.len() == 9);
    assert("hl"@[0] != "gl"@[0]);
    assert("clientName"@[0] != "deviceMake"@[0]);
    assert("visitorData"@[0] != "deviceModel"@[0]);
}

spec fn device_keys() -> Seq<Seq<char>> {
    seq!["deviceMake"@, "deviceModel"@, "androidSdkVersion"@, "osName"@, "osVersion"@]
}


/// A request says who is asking: read back, `context.client` gives the client's
/// name and version, English and the United States, and the visitor id exactly
/// when there is one.
pub proof fn lemma_context_reads_back(ctx: ClientCtx, visitor: Option<Seq<char>>)
    ensures
        ({
            let client = json::member_or_null(context_doc(ctx, visitor), "client"@);
            &&& json::text_member(client, "clientName"@) == Some(ctx.name@)
            &&& json::text_member(client, "clientVersion"@) == Some(ctx.version@)
            &&& json::text_member(client, "hl"@) == Some("en"@)
            &&& json::text_member(client, "gl"@) == Some("US"@)
            &&& json::text_member(client, "visitorData"@) == visitor
            &&& json::member(client, "visitorData"@) is Some <==> visitor is Some
        }),
{
    lemma_client_keys();
    let client = json::member_or_null(context_doc(ctx, visitor), "client"@);
    reveal_with_fuel(json::field, 2);
    let fields = client->Object_0;
    assert(fields[0].0 == "clientName"@);
    assert(fields[1].0 == "clientVersion"@);
    assert(fields[2].0 == "hl"@);
    assert(fields[3].0 == "gl"@);
    json::lemma_field_found(fields, "clientName"@, 0);
    json::lemma_field_found(fields, "clientVersion"@, 1);
    json::lemma_field_found(fields, "hl"@, 2);
    json::lemma_field_found(fields, "gl"@, 3);
    match visitor {
        Some(v) => {
            assert(fields[4].0 == "visitorData"@);
            json::lemma_field_found(fields, "visitorData"@, 4);
        },
        None => {
            let device = device_doc(ctx.device);
            assert forall|j: int| 0 <= j < fields.len() implies (#[trigger] fields[j]).0
                != "visitorData"@ by {
                if j >= 4 {
                    lemma_device_key(ctx.device, j - 4);
                    assert(fields[j] == device[j - 4]);
                }
            }
            json::lemma_field_missing(fields, "visitorData"@);
        },
    }
}

proof fn lemma_device_key(device: Device, j: int)
    requires
        0 <= j < device_doc(device).len(),
    ensures
        exists|k: int| 0 <= k < 5 && device_doc(device)[j].0 == #[trigger] device_keys()[k],
        device_doc(device)[j].0 != "clientName"@,
        device_doc(device)[j].0 != "clientVersion"@,
        device_doc(device)[j].0 != "hl"@,
        device_doc(device)[j].0 != "gl"@,
        device_doc(device)[j].0 != "visitorData"@,
{
    lemma_client_keys();
    let k: int = if device is Quest || j < 2 {
        j
    } else {
        j + 1
    };
    assert(device_doc(device)[j].0 == device_keys()[k]);
}

/// A request says what it runs on: the Apple headset, the Quest and the iPhone
/// give their maker, model and system, the Quest its Android level too; the
/// clients without a device give none of it.
pub proof fn lemma_context_device(ctx: ClientCtx, visitor: Option<Seq<char>>)
    ensures
        ({
            let client = json::member_or_null(context_doc(ctx, visitor), "client"@);
            let make = json::text_member(client, "deviceMake"@);
            let model = json::text_member(client, "deviceModel"@);
            let level = json::member(client, "androidSdkVersion"@);
            let system = json::text_member(client, "osName"@);
            let version = json::text_member(client, "osVersion"@);
            match ctx.device {
                Device::Unnamed => make is None && model is None && level is None && system is None
                    && version is None,
                Device::VisionPro => make == Some("Apple"@) && model == Some("RealityDevice17,1"@)
                    && level is None && system == Some("visionOS"@) && version == Some(
                    "26.5.23O471"@,
                ),
                Device::Quest => make == Some("Oculus"@) && model == Some("Quest 3"@) && level
                    == Some(json::Doc::Unsigned(32)) && system == Some("Android"@) && version
                    == Some("12L"@),
                Device::IPhone => make == Some("Apple"@) && model == Some("iPhone16,2"@)
                    && level is None && system == Some("iPhone"@) && version == Some(
                    "18.3.2.22D82"@,
                ),
            }
        }),
{
    lemma_client_keys();
    let client = json::member_or_null(context_doc(ctx, visitor), "client"@);
    reveal_with_fuel(json::field, 2);
    let fields = client->Object_0;
    let device = device_doc(ctx.device);
    let start: int = if visitor is Some {
        5
    } else {
        4
    };
    assert(fields.len() == start + device.len());
    assert forall|j: int| start <= j < fields.len() implies #[trigger] fields[j] == device[j
        - start] by {}
    let keys = device_keys();
    assert(keys[0] == "deviceMake"@ && keys[1] == "deviceModel"@ && keys[2] == "androidSdkVersion"@
        && keys[3] == "osName"@ && keys[4] == "osVersion"@);
    assert forall|j: int, k: int| 0 <= j < start && 0 <= k < 5 implies (#[trigger] fields[j]).0
        != #[trigger] keys[k] by {
        assert(fields[0].0 == "clientName"@);
        assert(fields[1].0 == "clientVersion"@);
        assert(fields[2].0 == "hl"@);
        assert(fields[3].0 == "gl"@);
        if start == 5 {
            assert(fields[4].0 == "visitorData"@);
        }
    }
    match ctx.device {
        Device::Unnamed => {
            json::lemma_field_missing(fields, keys[0]);
            json::lemma_field_missing(fields, keys[1]);
            json::lemma_field_missing(fields, keys[2]);
            json::lemma_field_missing(fields, keys[3]);
            json::lemma_field_missing(fields, keys[4]);
        },
        Device::Quest => {
            assert(fields[start].0 == keys[0]);
            assert(fields[start + 1].0 == keys[1]);
            assert(fields[start + 2].0 == keys[2]);
            assert(fields[start + 3].0 == keys[3]);
            assert(fields[start + 4].0 == keys[4]);
            json::lemma_field_found(fields, keys[0], start);
            json::lemma_field_found(fields, keys[1], start + 1);
            json::lemma_field_found(fields, keys[2], start + 2);
            json::lemma_field_found(fields, keys[3], start + 3);
            json::lemma_field_found(fields, keys[4], start + 4);
        },
        _ => {
            assert(fields[start].0 == keys[0]);
            assert(fields[start + 1].0 == keys[1]);
            assert(fields[start + 2].0 == keys[3]);
            assert(fields[start + 3].0 == keys[4]);
            json::lemma_field_found(fields, keys[0], start);
            json::lemma_field_found(fields, keys[1], start + 1);
            json::lemma_field_missing(fields, keys[2]);
            json::lemma_field_found(fields, keys[3], start + 2);
            json::lemma_field_found(fields, keys[4], start + 3);
        },
    }
}

/// The address of an endpoint on a client's host.
pub open spec fn endpoint_url(ctx: ClientCtx, endpoint: Seq<char>) -> Seq<char> {
    "https://"@ + ctx.host@ + "/youtubei/v1/"@ + endpoint + "?prettyPrint=false"@
}

/// The headers of a request, in order.
pub open spec fn headers_of(
    ctx: ClientCtx,
    visitor: Option<Seq<char>>,
    cookies: Option<Seq<char>>,
) -> Seq<(Seq<char>, Seq<char>)> {
    let fixed = seq![
        ("Content-Type"@, "application/json"@),
        ("X-YouTube-Client-Name"@, text::decimal(ctx.id as nat)),
        ("X-YouTube-Client-Version"@, ctx.version@),
        ("Origin"@, "https://"@ + ctx.host@),
        ("Accept"@, "*/*"@),
        ("User-Agent"@, ctx.ua@),
    ];
    let known = match visitor {
        Some(v) => fixed.push(("X-Goog-Visitor-Id"@, v)),
        None => fixed,
    };
    let referred = if ctx.music {
        known.push(("Referer"@, "https://music.youtube.com/"@))
    } else {
        known
    };
    match cookies {
        Some(c) => referred.push(("Cookie"@, c)),
        None => referred,
    }
}

/// An endpoint's address is on the client's host over https, below the API's
/// path, and asks for an answer without spaces.
pub proof fn lemma_endpoint_url(ctx: ClientCtx, endpoint: Seq<char>)
    ensures
        ("https://"@ + ctx.host@ + "/youtubei/v1/"@).is_prefix_of(endpoint_url(ctx, endpoint)),
        (endpoint + "?prettyPrint=false"@).is_suffix_of(endpoint_url(ctx, endpoint)),
        endpoint_url(ctx, endpoint).len() == "https://"@.len() + ctx.host@.len()
            + "/youtubei/v1/"@.len() + endpoint.len() + "?prettyPrint=false"@.len(),
{
    let url = endpoint_url(ctx, endpoint);
    let front = "https://"@ + ctx.host@ + "/youtubei/v1/"@;
    let back = endpoint + "?prettyPrint=false"@;
    assert(url =~= front + back);
    assert(url.subrange(0, front.len() as int) =~= front);
    assert(url.subrange(url.len() - back.len(), url.len() as int) =~= back);
}

/// Whether a header with that name and that value is sent, and no other one
/// with the name.
pub open spec fn sent(
    headers: Seq<(Seq<char>, Seq<char>)>,
    name: Seq<char>,
    value: Option<Seq<char>>,
) -> bool {
    match value {
        Some(v) => {
            &&& headers.contains((name, v))
            &&& forall|i: int|
                0 <= i < headers.len() && (#[trigger] headers[i]).0 == name ==> headers[i].1 == v
        },
        None => forall|i: int| 0 <= i < headers.len() ==> (#[trigger] headers[i]).0 != name,
    }
}

/// The headers that go with a request: JSON, the client's number, version and
/// user agent, its host as the origin, the visitor id and the cookies exactly
/// when there are some, and the music page as the referrer for the music client
/// alone.
#[verifier::rlimit(40)]
pub proof fn lemma_headers(
    ctx: ClientCtx,
    visitor: Option<Seq<char>>,
    cookies: Option<Seq<char>>,
)
    ensures
        ({
            let headers = headers_of(ctx, visitor, cookies);
            &&& sent(headers, "Content-Type"@, Some("application/json"@))
            &&& sent(headers, "X-YouTube-Client-Name"@, Some(text::decimal(ctx.id as nat)))
            &&& sent(headers, "X-YouTube-Client-Version"@, Some(ctx.version@))
            &&& sent(headers, "Origin"@, Some("https://"@ + ctx.host@))
            &&& sent(headers, "Accept"@, Some("*/*"@))
            &&& sent(headers, "User-Agent"@, Some(ctx.ua@))
            &&& sent(headers, "X-Goog-Visitor-Id"@, visitor)
            &&& sent(
                headers,
                "Referer"@,
                if ctx.music {
                    Some("https://music.youtube.com/"@)
                } else {
                    None
                },
            )
            &&& sent(headers, "Cookie"@, cookies)
        }),
{
    reveal_strlit("Content-Type");
    reveal_strlit("X-YouTube-Client-Name");
    reveal_strlit("X-YouTube-Client-Version");
    reveal_strlit("Origin");
    reveal_strlit("Accept");
    reveal_strlit("User-Agent");
    reveal_strlit("X-Goog-Visitor-Id");
    reveal_strlit("Referer");
    reveal_strlit("Cookie");
    assert("Content-Type"@.len() == 12 && "X-YouTube-Client-Name"@.len() == 21
        && "X-YouTube-Client-Version"@.len() == 24);
    assert("Origin"@.len() == 6 && "Accept"@.len() == 6 && "User-Agent"@.len() == 10);
    assert("X-Goog-Visitor-Id"@.len() == 17 && "Referer"@.len() == 7 && "Cookie"@.len() == 6);
    assert("Origin"@[0] == 'O' && "Accept"@[0] == 'A' && "Cookie"@[0] == 'C');
    let headers = headers_of(ctx, visitor, cookies);
    assert(headers[0].0 == "Content-Type"@);
    assert(headers[1].0 == "X-YouTube-Client-Name"@);
    assert(headers[2].0 == "X-YouTube-Client-Version"@);
    assert(headers[3].0 == "Origin"@);
    assert(headers[4].0 == "Accept"@);
    assert(headers[5].0 == "User-Agent"@);
    let at_visitor: int = 6;
    let at_referer: int = if visitor is Some {
        7
    } else {
        6
    };
    let at_cookie: int = if ctx.music {
        at_referer + 1
    } else {
        at_referer
    };
    if visitor is Some {
        assert(headers[at_visitor] == ("X-Goog-Visitor-Id"@, visitor->0));
    }
    if ctx.music {
        assert(headers[at_referer] == ("Referer"@, "https://music.youtube.com/"@));
    }
    if cookies is Some {
        assert(headers[at_cookie] == ("Cookie"@, cookies->0));
    }
}

/// The clients and how they present themselves. The music client alone belongs
/// to music.youtube.com and alone needs cookies; the headset and the phone
/// clients name their version in their user agent.
pub proof fn lemma_clients()
    ensures
        web().key@ == "web"@ && web().name@ == "WEB"@ && web().version@ == "2.20260707.00.00"@
            && web().id == 1 && web().host@ == "www.youtube.com"@,
        web_music().key@ == "web_music"@ && web_music().name@ == "WEB_REMIX"@
            && web_music().version@ == "1.20260707.12.00"@ && web_music().id == 67
            && web_music().host@ == "music.youtube.com"@,
        visionos().key@ == "visionos"@ && visionos().name@ == "VISIONOS"@ && visionos().version@
            == "1.02"@ && visionos().id == 101 && visionos().host@ == "www.youtube.com"@
            && visionos().device is VisionPro,
        android_vr().key@ == "android_vr"@ && android_vr().name@ == "ANDROID_VR"@
            && android_vr().version@ == "1.65.10"@ && android_vr().id == 28 && android_vr().host@
            == "www.youtube.com"@ && android_vr().device is Quest,
        ios().key@ == "ios"@ && ios().name@ == "IOS"@ && ios().version@ == "21.26.4"@ && ios().id
            == 5 && ios().host@ == "www.youtube.com"@ && ios().device is IPhone,
        tv().key@ == "tv"@ && tv().name@ == "TVHTML5"@ && tv().version@ == "7.20260707.07.00"@
            && tv().id == 7 && tv().host@ == "www.youtube.com"@,
        web().device is Unnamed && web_music().device is Unnamed && tv().device is Unnamed,
        web_music().music && web_music().needs_cookies,
        !web().music && !visionos().music && !android_vr().music && !ios().music && !tv().music,
        !web().needs_cookies && !visionos().needs_cookies && !android_vr().needs_cookies
            && !ios().needs_cookies && !tv().needs_cookies,
        text::has_infix(android_vr().ua@, "oculus/"@ + android_vr().version@),
        text::has_infix(ios().ua@, "youtube/"@ + ios().version@),
        chain(true).len() == 5 && chain(true)[0] == web_music(),
        chain(false) == seq![visionos(), android_vr(), ios(), tv()],
{
    lemma_chain();
    reveal_strlit("1.65.10");
    reveal_strlit("oculus/");
    reveal_strlit(
        "com.google.android.apps.youtube.vr.oculus/1.65.10 (Linux; U; Android 12L; eureka-user Build/SQ3A.220605.009.A1) gzip",
    );
    let a = "oculus/"@ + "1.65.10"@;
    assert(android_vr().ua@.subrange(35int, 35int + a.len()) =~= a);
    reveal_strlit("21.26.4");
    reveal_strlit("youtube/");
    reveal_strlit("com.google.ios.youtube/21.26.4 (iPhone16,2; U; CPU iOS 18_3_2 like Mac OS X;)");
    let b = "youtube/"@ + "21.26.4"@;
    assert(ios().ua@.subrange(15int, 15int + b.len()) =~= b);
}

proof fn lemma_returns_kept(s: Seq<char>)
    requires
        s.len() > 0 ==> s.last() != '\r',
    ensures
        without_returns(s) == s,
        without_returns(s.push('\r')) == s,
{
    assert(s.push('\r').drop_last() =~= s);
}

/// A line of a Netscape `cookies.txt` is seven fields between tabs: the domain
/// first, the expiry fifth, the name sixth and the value seventh. The mark of a
/// cookie that scripts cannot read and a carriage return at the end make no
/// difference; a cookie whose time has passed is left out, and zero never
/// passes.
pub proof fn lemma_cookie_line(fields: Seq<Seq<char>>, expiry: i64, now: i64)
    requires
        fields.len() == 7,
        forall|i: int| 0 <= i < 7 ==> !(#[trigger] fields[i]).contains('\t'),
        fields[0].len() > 0,
        fields[0][0] != '#',
        fields[6].len() > 0 ==> fields[6].last() != '\r',
        text::signed(text::trimmed(fields[4]), i64::MIN as int, i64::MAX as int) == Some(
            expiry as int,
        ),
    ensures
        ({
            let line = text::join(fields, seq!['\t']);
            let cookie = cookie_on_line(line, now);
            &&& cookie_on_line(line.push('\r'), now) == cookie
            &&& cookie_on_line("#HttpOnly_"@ + line, now) == cookie
            &&& cookie is None <==> 0 < expiry < now
            &&& cookie matches Some(c) ==> c.domain == fields[0] && c.name == fields[5] && c.value
                == fields[6] && c.expiry == expiry
        }),
{
    let tab = seq!['\t'];
    let line = text::join(fields, tab);
    text::lemma_split_join(fields, '\t');
    lemma_join_ends(fields);
    lemma_returns_kept(line);
    reveal_strlit("#HttpOnly_");
    let mark = "#HttpOnly_"@;
    assert(mark.len() == 10 && mark[0] == '#');
    assert(!mark.is_prefix_of(line)) by {
        if mark.is_prefix_of(line) {
            assert(line[0] == mark[0]);
        }
    }
    let marked = mark + line;
    assert(marked.last() == line.last());
    lemma_returns_kept(marked);
    assert(mark.is_prefix_of(marked)) by {
        assert(marked.subrange(0, 10) =~= mark);
    }
    assert(marked.skip(10) =~= line);
}

proof fn lemma_join_ends(fields: Seq<Seq<char>>)
    requires
        fields.len() == 7,
        fields[0].len() > 0,
        fields[6].len() > 0 ==> fields[6].last() != '\r',
    ensures
        ({
            let line = text::join(fields, seq!['\t']);
            &&& line.len() > 0
            &&& line[0] == fields[0][0]
            &&& line.last() != '\r'
        }),
{
    let tab = seq!['\t'];
    reveal_with_fuel(text::join, 8);
    let f6 = fields.drop_last();
    let f5 = f6.drop_last();
    let f4 = f5.drop_last();
    let f3 = f4.drop_last();
    let f2 = f3.drop_last();
    let f1 = f2.drop_last();
    assert(f1.len() == 1 && f1[0] == fields[0]);
    assert(text::join(f1, tab) == fields[0]);
    assert(text::join(f2, tab)[0] == fields[0][0]);
    assert(text::join(f3, tab)[0] == fields[0][0]);
    assert(text::join(f4, tab)[0] == fields[0][0]);
    assert(text::join(f5, tab)[0] == fields[0][0]);
    assert(text::join(f6, tab)[0] == fields[0][0]);
    let line = text::join(fields, tab);
    assert(line == text::join(f6, tab) + tab + fields[6]);
    if fields[6].len() == 0 {
        assert(line.last() == '\t');
    } else {
        assert(line.last() == fields[6].last());
    }
}

/// A comment, an empty line and a line of fewer than seven fields hold no
/// cookie.
pub proof fn lemma_no_cookie_line(line: Seq<char>, now: i64)
    requires
        line.len() > 0 ==> line.last() != '\r',
        line.len() == 0 || (line[0] == '#' && !"#HttpOnly_"@.is_prefix_of(line)) || (
        !"#HttpOnly_"@.is_prefix_of(line) && text::split(line, '\t').len() < 7),
    ensures
        cookie_on_line(line, now) is None,
{
    lemma_returns_kept(line);
    reveal_strlit("#HttpOnly_");
    assert("#HttpOnly_"@.len() == 10);
}

/// The cookies of a file are those of its lines in order.
pub proof fn lemma_cookies_in_order(lines: Seq<Seq<char>>, line: Seq<char>, now: i64)
    ensures
        cookies_on_lines(lines.push(line), now) == cookies_on_lines(lines, now) + match cookie_on_line(
            line,
            now,
        ) {
            Some(c) => seq![c],
            None => Seq::empty(),
        },
        cookies_on_lines(Seq::empty(), now).len() == 0,
{
    assert(lines.push(line).drop_last() =~= lines);
    match cookie_on_line(line, now) {
        Some(c) => {
            assert(cookies_on_lines(lines, now).push(c) =~= cookies_on_lines(lines, now) + seq![c]);
        },
        None => {
            assert(cookies_on_lines(lines, now) + Seq::<CookieView>::empty() =~= cookies_on_lines(
                lines,
                now,
            ));
        },
    }
}

proof fn lemma_dots_gone(dots: Seq<char>, bare: Seq<char>)
    requires
        forall|i: int| 0 <= i < dots.len() ==> #[trigger] dots[i] == '.',
        bare.len() > 0 ==> bare[0] != '.',
    ensures
        without_dots(dots + bare) == bare,
    decreases dots.len(),
{
    if dots.len() > 0 {
        assert(dots[0] == '.');
        assert((dots + bare).drop_first() =~= dots.drop_first() + bare);
        assert forall|i: int| 0 <= i < dots.drop_first().len() implies #[trigger] dots.drop_first()[i]
            == '.' by {
            assert(dots.drop_first()[i] == dots[i + 1]);
        }
        lemma_dots_gone(dots.drop_first(), bare);
    } else {
        assert(dots + bare =~= bare);
    }
}

/// Cookies go to YouTube for youtube.com and what lies below it, whatever dots
/// stand before it: not for a domain that only ends in the same letters, and
/// not for one that ends otherwise.
pub proof fn lemma_youtube_domain(dots: Seq<char>, bare: Seq<char>)
    requires
        forall|i: int| 0 <= i < dots.len() ==> #[trigger] dots[i] == '.',
        bare.len() > 0 ==> bare[0] != '.',
    ensures
        youtube_domain(dots + bare) <==> youtube_domain(bare),
        bare == "youtube.com"@ ==> youtube_domain(bare),
        youtube_domain(bare) ==> "youtube.com"@.is_suffix_of(bare),
        youtube_domain(bare) && bare.len() > "youtube.com"@.len() ==> bare[bare.len()
            - "youtube.com"@.len() - 1] == '.',
        "youtube.com"@.is_suffix_of(bare) && bare.len() > "youtube.com"@.len() && bare[bare.len()
            - "youtube.com"@.len() - 1] == '.' ==> youtube_domain(bare),
{
    lemma_dots_gone(dots, bare);
    lemma_dots_gone(Seq::empty(), bare);
    assert(Seq::<char>::empty() + bare =~= bare);
    reveal_strlit("youtube.com");
    reveal_strlit(".youtube.com");
    reveal_strlit("music.youtube.com");
    let yt = "youtube.com"@;
    let dotted = ".youtube.com"@;
    assert(yt.len() == 11 && dotted.len() == 12 && "music.youtube.com"@.len() == 17);
    assert(dotted =~= seq!['.'] + yt);
    if bare == "music.youtube.com"@ {
        assert(bare.subrange(6, 17) =~= yt);
        assert(bare.subrange(5, 17) =~= dotted);
    }
    if bare == yt {
        assert(bare.subrange(0, 11) =~= yt);
    }
    if dotted.is_suffix_of(bare) {
        let tail = bare.subrange(bare.len() - 12, bare.len() as int);
        assert(tail =~= dotted);
        assert(bare.subrange(bare.len() - 11, bare.len() as int) =~= tail.subrange(1, 12));
        assert(tail.subrange(1, 12) =~= yt);
        assert(bare[bare.len() - 12] == tail[0]);
    }
    if yt.is_suffix_of(bare) && bare.len() > 11 && bare[bare.len() - 12] == '.' {
        assert(bare.subrange(bare.len() - 12, bare.len() as int) =~= seq!['.'] + bare.subrange(
            bare.len() - 11,
            bare.len() as int,
        ));
    }
}

/// The `Cookie` header holds `name=value` of every cookie that goes to YouTube,
/// in order, and of no other.
pub proof fn lemma_cookie_pairs(cookies: Seq<CookieView>, c: CookieView)
    ensures
        youtube_domain(c.domain) ==> header_pairs(cookies.push(c)) == header_pairs(cookies).push(
            c.name + "="@ + c.value,
        ),
        !youtube_domain(c.domain) ==> header_pairs(cookies.push(c)) == header_pairs(cookies),
        header_pairs(Seq::empty()).len() == 0,
        youtube_domain(c.domain) ==> header_of(seq![c]) == Some(c.name + "="@ + c.value),
        youtube_domain(c.domain) && header_of(cookies) is Some ==> header_of(cookies.push(c))
            == Some(header_of(cookies)->0 + "; "@ + c.name + "="@ + c.value),
{
    assert(cookies.push(c).drop_last() =~= cookies);
    assert(seq![c].drop_last() =~= Seq::<CookieView>::empty());
    reveal_with_fuel(header_pairs, 2);
    if youtube_domain(c.domain) {
        let pair = c.name + "="@ + c.value;
        let pairs = header_pairs(cookies);
        assert(header_pairs(seq![c]) =~= seq![pair]);
        assert(pairs.push(pair).drop_last() =~= pairs);
        if pairs.len() > 0 {
            assert(text::join(pairs.push(pair), "; "@) =~= text::join(pairs, "; "@) + "; "@
                + c.name + "="@ + c.value);
        }
    }
}

/// A visitor id is used again for an hour after it was fetched, and no longer.
pub proof fn lemma_visitor_lasts(id: String, at: u64, now: u64)
    ensures
        now < at + 3_600_000 ==> fresh_visitor(Some((id, at)), now) == Some(id@),
        now >= at + 3_600_000 ==> fresh_visitor(Some((id, at)), now) is None,
        fresh_visitor(None, now) is None,
{
}

/// Only the statuses from 200 to 299 are answers; any other reply is a failure
/// that names the client and the endpoint.
pub proof fn lemma_failures_name_the_client(ctx: ClientCtx, endpoint: Seq<char>, reply: Reply)
    ensures
        failure_of(ctx, endpoint, reply) matches Some(m) ==> (ctx.key@ + " "@
            + endpoint).is_prefix_of(m),
        !(reply is Answered) ==> failure_of(ctx, endpoint, reply) is Some,
        reply matches Reply::Answered { status, status_text, body } ==> {
            &&& failure_of(ctx, endpoint, reply) is None <==> status / 100 == 2
                && json::parsed_text(body@) is Ok
            &&& status / 100 != 2 ==> status_text@.is_suffix_of(failure_of(ctx, endpoint, reply)->0)
        },
{
    let front = ctx.key@ + " "@ + endpoint;
    match failure_of(ctx, endpoint, reply) {
        Some(m) => {
            assert(m.subrange(0, front.len() as int) =~= front);
            if let Reply::Answered { status, status_text, body } = reply {
                if status / 100 != 2 {
                    assert(m.subrange(m.len() - status_text@.len(), m.len() as int)
                        =~= status_text@);
                }
            }
        },
        None => {},
    }
}

/// The messages for replies that bring nothing: what was being done, as which
/// client and at which endpoint, and why it failed; a body that is no JSON is
/// told with its size in bytes.
pub proof fn lemma_failure_messages(ctx: ClientCtx, endpoint: Seq<char>, reply: Reply)
    ensures
        reply matches Reply::SendFailed(cause) ==> failure_of(ctx, endpoint, reply) == Some(
            ctx.key@ + " "@ + endpoint + " request failed: "@ + cause@,
        ),
        reply matches Reply::ReadFailed(cause) ==> failure_of(ctx, endpoint, reply) == Some(
            ctx.key@ + " "@ + endpoint + ": reading body failed: "@ + cause@,
        ),
        reply matches Reply::Answered { status, status_text, body } ==> {
            &&& status < 200 || status >= 300 ==> failure_of(ctx, endpoint, reply) == Some(
                ctx.key@ + " "@ + endpoint + " returned HTTP "@ + status_text@,
            )
            &&& 200 <= status < 300 ==> match json::parsed_text(body@) {
                Ok(_) => failure_of(ctx, endpoint, reply) is None,
                Err(cause) => failure_of(ctx, endpoint, reply) == Some(
                    ctx.key@ + " "@ + endpoint + ": body is not JSON ("@ + text::decimal(
                        byte_count(body@),
                    ) + " bytes): "@ + cause,
                ),
            }
        },
{
}

/// An expiry that does not read as a number is that of a session: zero, which
/// never passes. White space around it makes no difference.
pub proof fn lemma_expiry(field: Seq<char>, n: i64, now: i64)
    ensures
        text::signed(text::trimmed(field), i64::MIN as int, i64::MAX as int) is None ==> expiry_of(
            field,
        ) == 0,
        expiry_of(text::signed_decimal(n as int)) == n,
        !expired(0, now),
        n > 0 ==> (expired(n, now) <==> n < now),
        n < 0 ==> !expired(n, now),
{
    let t = text::signed_decimal(n as int);
    text::lemma_signed_round_trip(n as int, i64::MIN as int, i64::MAX as int);
    let size = (if n < 0 {
        -n
    } else {
        n as int
    }) as nat;
    text::lemma_decimal_digits(size);
    let digits = text::decimal(size);
    assert(text::is_digit(digits[0]) && text::is_digit(digits[digits.len() - 1]));
    assert(t.last() == digits.last());
    let none = Seq::<char>::empty();
    text::lemma_trimmed_is(none, t, none);
    assert(none + t + none =~= t);
}

/// The visitor id of an answer stands in its response context.
pub proof fn lemma_visitor_in(resp: json::Doc, inner: json::Doc)
    ensures
        json::member(resp, "responseContext"@) is None ==> visitor_in(resp) is None,
        json::member(resp, "responseContext"@) == Some(inner) ==> visitor_in(resp)
            == json::text_member(inner, "visitorData"@),
{
}

/// Time passes forwards only: from a moment to a later one what lies between
/// them, to an earlier one nothing.
pub proof fn lemma_elapsed(at: u64, d: u64)
    ensures
        at + d <= u64::MAX ==> elapsed(at, (at + d) as u64) == d,
        d <= at ==> elapsed(at, (at - d) as u64) == 0,
{
}

/// What a list of headers holds.
pub open spec fn header_views(headers: Seq<(String, String)>) -> Seq<(Seq<char>, Seq<char>)> {
    Seq::new(headers.len(), |i: int| (headers[i].0@, headers[i].1@))
}

/// The time from `at` to `now`; none where `at` lies ahead.
pub open spec fn elapsed(at: u64, now: u64) -> nat {
    if now > at {
        (now - at) as nat
    } else {
        0
    }
}

/// What a kept visitor id holds.
pub open spec fn visitor_view(visitor: Option<(String, u64)>) -> Option<(Seq<char>, u64)> {
    match visitor {
        Some(v) => Some((v.0@, v.1)),
        None => None,
    }
}

/// The visitor id that can still be used at `now`.
pub open spec fn fresh_visitor(visitor: Option<(String, u64)>, now: u64) -> Option<Seq<char>> {
    match visitor {
        Some(v) if elapsed(v.1, now) < VISITOR_TTL_MS => Some(v.0@),
        _ => None,
    }
}

/// The visitor id in an answer.
pub open spec fn visitor_in(resp: json::Doc) -> Option<Seq<char>> {
    match json::member(resp, "responseContext"@) {
        Some(r) => json::text_member(r, "visitorData"@),
        None => None,
    }
}

/// What came back for a request.
pub enum Reply {
    /// The request could not be sent.
    SendFailed(String),
    /// The answer broke off.
    ReadFailed(String),
    /// An answer: its status, the status as text, and its body.
    Answered { status: u16, status_text: String, body: String },
}

/// Whether the status is one of success.
pub open spec fn is_success(status: u16) -> bool {
    200 <= status < 300
}

/// How many bytes a text takes.
pub open spec fn byte_count(t: Seq<char>) -> nat {
    (vstd::utf8::encode_utf8(t).len() as usize) as nat
}

/// The message for a reply that brings no JSON.
pub open spec fn failure_of(ctx: ClientCtx, endpoint: Seq<char>, reply: Reply) -> Option<
    Seq<char>,
> {
    match reply {
        Reply::SendFailed(cause) => Some(
            ctx.key@ + " "@ + endpoint + " request failed: "@ + cause@,
        ),
        Reply::ReadFailed(cause) => Some(
            ctx.key@ + " "@ + endpoint + ": reading body failed: "@ + cause@,
        ),
        Reply::Answered { status, status_text, body } => if !is_success(status) {
            Some(ctx.key@ + " "@ + endpoint + " returned HTTP "@ + status_text@)
        } else {
            match json::parsed_text(body@) {
                Ok(_) => None,
                Err(cause) => Some(
                    ctx.key@ + " "@ + endpoint + ": body is not JSON ("@ + text::decimal(
                        byte_count(body@),
                    ) + " bytes): "@ + cause,
                ),
            }
        },
    }
}

/// The text between double quotes with its special characters escaped, as
/// `format!("{:?}")` writes it.
pub uninterp spec fn quoted_text(s: Seq<char>) -> Seq<char>;

/// `format!("{:?}", s)`: the text quoted and escaped for a message.
#[verifier::external_body]
fn quoted(s: &str) -> (q: String)
    ensures
        q@ == quoted_text(s@),
{
    format!("{:?}", s)
}

fn put(fields: &mut Vec<(String, Json)>, key: &str, value: Json)
    ensures
        json::fields_docs(final(fields)@) == json::fields_docs(old(fields)@).push((key@, value@)),
{
    fields.push((key.to_owned(), value));
    assert(fields@.subrange(0, fields@.len() - 1) =~= old(fields)@);
}

fn text_json(s: &str) -> (j: Json)
    ensures
        j@ == json::Doc::Text(s@),
{
    Json::Text(s.to_owned())
}

fn put_device(fields: &mut Vec<(String, Json)>, device: Device)
    ensures
        json::fields_docs(final(fields)@) == json::fields_docs(old(fields)@) + device_doc(device),
{
    let ghost start = json::fields_docs(fields@);
    match device {
        Device::Unnamed => {},
        Device::VisionPro => {
            put(fields, "deviceMake", text_json("Apple"));
            put(fields, "deviceModel", text_json("RealityDevice17,1"));
            put(fields, "osName", text_json("visionOS"));
            put(fields, "osVersion", text_json("26.5.23O471"));
        },
        Device::Quest => {
            put(fields, "deviceMake", text_json("Oculus"));
            put(fields, "deviceModel", text_json("Quest 3"));
            put(fields, "androidSdkVersion", Json::Unsigned(32));
            put(fields, "osName", text_json("Android"));
            put(fields, "osVersion", text_json("12L"));
        },
        Device::IPhone => {
            put(fields, "deviceMake", text_json("Apple"));
            put(fields, "deviceModel", text_json("iPhone16,2"));
            put(fields, "osName", text_json("iPhone"));
            put(fields, "osVersion", text_json("18.3.2.22D82"));
        },
    }
    assert(json::fields_docs(fields@) =~= start + device_doc(device));
}

/// The `context` block of a client, with the visitor id when there is one.
pub fn context_for(ctx: &ClientCtx, visitor: &Option<String>) -> (context: Json)
    ensures
        context@ == context_doc(*ctx, model::text_view(*visitor)),
        ({
            let client = json::member_or_null(context@, "client"@);
            &&& json::text_member(client, "clientName"@) == Some(ctx.name@)
            &&& json::text_member(client, "clientVersion"@) == Some(ctx.version@)
            &&& json::text_member(client, "visitorData"@) == model::text_view(*visitor)
        }),
{
    proof {
        lemma_context_reads_back(*ctx, model::text_view(*visitor));
    }
    let mut client: Vec<(String, Json)> = Vec::new();
    put(&mut client, "clientName", text_json(ctx.name));
    put(&mut client, "clientVersion", text_json(ctx.version));
    put(&mut client, "hl", text_json("en"));
    put(&mut client, "gl", text_json("US"));
    let ghost who = seq![
        ("clientName"@, json::Doc::Text(ctx.name@)),
        ("clientVersion"@, json::Doc::Text(ctx.version@)),
        ("hl"@, json::Doc::Text("en"@)),
        ("gl"@, json::Doc::Text("US"@)),
    ];
    assert(json::fields_docs(client@) =~= who);
    if let Some(v) = visitor {
        put(&mut client, "visitorData", text_json(v.as_str()));
    }
    put_device(&mut client, ctx.device);
    let mut context: Vec<(String, Json)> = Vec::new();
    put(&mut context, "client", Json::Object(client));
    assert(json::fields_docs(context@) =~= seq![("client"@, json::Doc::Object(json::fields_docs(client@)))]);
    Json::Object(context)
}

proof fn lemma_body_keys()
    ensures
        "context"@ != "query"@,
        "context"@ != "params"@,
        "query"@ != "params"@,
        "context"@ != "videoId"@,
        "context"@ != "playlistId"@,
        "context"@ != "isAudioOnly"@,
        "context"@ != "contentCheckOk"@,
        "context"@ != "racyCheckOk"@,
        "videoId"@ != "playlistId"@,
        "videoId"@ != "isAudioOnly"@,
        "playlistId"@ != "isAudioOnly"@,
        "videoId"@ != "contentCheckOk"@,
        "videoId"@ != "racyCheckOk"@,
        "contentCheckOk"@ != "racyCheckOk"@,
{
    reveal_strlit("context");
    reveal_strlit("query");
    reveal_strlit("params");
    reveal_strlit("videoId");
    reveal_strlit("playlistId");
    reveal_strlit("isAudioOnly");
    reveal_strlit("contentCheckOk");
    reveal_strlit("racyCheckOk");
    assert("context"@.len() == 7 && "query"@.len() == 5 && "params"@.len() == 6);
    assert("videoId"@.len() == 7 && "playlistId"@.len() == 10 && "isAudioOnly"@.len() == 11);
    assert("contentCheckOk"@.len() == 14 && "racyCheckOk"@.len() == 11);
    assert("context"@[0] != "videoId"@[0]);
}

/// The body that asks for a visitor id.
pub fn visitor_body() -> (body: Json)
    ensures
        body@ == json::Doc::Object(seq![("context"@, context_doc(web(), None))]),
        json::member(body@, "context"@) == Some(context_doc(web(), None)),
{
    let mut fields: Vec<(String, Json)> = Vec::new();
    put(&mut fields, "context", context_for(&client_web(), &None));
    assert(json::fields_docs(fields@) =~= seq![("context"@, context_doc(web(), None))]);
    Json::Object(fields)
}

/// The body of a search for songs.
pub fn search_body(query: &str, visitor: &Option<String>) -> (body: Json)
    ensures
        body@ == json::Doc::Object(
            seq![
                ("context"@, context_doc(web_music(), model::text_view(*visitor))),
                ("query"@, json::Doc::Text(query@)),
                ("params"@, json::Doc::Text(SEARCH_PARAMS_SONGS@)),
            ],
        ),
        json::member(body@, "context"@) == Some(
            context_doc(web_music(), model::text_view(*visitor)),
        ),
        json::text_member(body@, "query"@) == Some(query@),
        json::text_member(body@, "params"@) == Some("EgWKAQIIAWoKEAkQBRAKEAMQBA%3D%3D"@),
{
    let mut fields: Vec<(String, Json)> = Vec::new();
    put(&mut fields, "context", context_for(&client_web_music(), visitor));
    put(&mut fields, "query", text_json(query));
    put(&mut fields, "params", text_json(SEARCH_PARAMS_SONGS));
    assert(json::fields_docs(fields@) =~= seq![
        ("context"@, context_doc(web_music(), model::text_view(*visitor))),
        ("query"@, json::Doc::Text(query@)),
        ("params"@, json::Doc::Text(SEARCH_PARAMS_SONGS@)),
    ]);
    proof {
        lemma_body_keys();
        reveal_with_fuel(json::field, 4);
    }
    Json::Object(fields)
}

/// The body that asks for the radio of a video.
pub fn radio_body(video_id: &str, visitor: &Option<String>) -> (body: Json)
    ensures
        body@ == json::Doc::Object(
            seq![
                ("context"@, context_doc(web_music(), model::text_view(*visitor))),
                ("videoId"@, json::Doc::Text(video_id@)),
                ("playlistId"@, json::Doc::Text("RDAMVM"@ + video_id@)),
                ("isAudioOnly"@, json::Doc::Bool(true)),
            ],
        ),
        json::member(body@, "context"@) == Some(
            context_doc(web_music(), model::text_view(*visitor)),
        ),
        json::text_member(body@, "videoId"@) == Some(video_id@),
        json::text_member(body@, "playlistId"@) == Some("RDAMVM"@ + video_id@),
        json::member(body@, "isAudioOnly"@) == Some(json::Doc::Bool(true)),
{
    let mut playlist = "RDAMVM".to_owned();
    playlist.append(video_id);
    let mut fields: Vec<(String, Json)> = Vec::new();
    put(&mut fields, "context", context_for(&client_web_music(), visitor));
    put(&mut fields, "videoId", text_json(video_id));
    put(&mut fields, "playlistId", text_json(playlist.as_str()));
    put(&mut fields, "isAudioOnly", Json::Bool(true));
    assert(json::fields_docs(fields@) =~= seq![
        ("context"@, context_doc(web_music(), model::text_view(*visitor))),
        ("videoId"@, json::Doc::Text(video_id@)),
        ("playlistId"@, json::Doc::Text("RDAMVM"@ + video_id@)),
        ("isAudioOnly"@, json::Doc::Bool(true)),
    ]);
    proof {
        lemma_body_keys();
        reveal_with_fuel(json::field, 5);
    }
    Json::Object(fields)
}

/// The body that asks for the streams of a video.
pub fn player_body(ctx: &ClientCtx, video_id: &str, visitor: &Option<String>) -> (body: Json)
    ensures
        body@ == json::Doc::Object(
            seq![
                ("context"@, context_doc(*ctx, model::text_view(*visitor))),
                ("videoId"@, json::Doc::Text(video_id@)),
                ("contentCheckOk"@, json::Doc::Bool(true)),
                ("racyCheckOk"@, json::Doc::Bool(true)),
            ],
        ),
        json::member(body@, "context"@) == Some(context_doc(*ctx, model::text_view(*visitor))),
        json::text_member(body@, "videoId"@) == Some(video_id@),
        json::member(body@, "contentCheckOk"@) == Some(json::Doc::Bool(true)),
        json::member(body@, "racyCheckOk"@) == Some(json::Doc::Bool(true)),
{
    let mut fields: Vec<(String, Json)> = Vec::new();
    put(&mut fields, "context", context_for(ctx, visitor));
    put(&mut fields, "videoId", text_json(video_id));
    put(&mut fields, "contentCheckOk", Json::Bool(true));
    put(&mut fields, "racyCheckOk", Json::Bool(true));
    assert(json::fields_docs(fields@) =~= seq![
        ("context"@, context_doc(*ctx, model::text_view(*visitor))),
        ("videoId"@, json::Doc::Text(video_id@)),
        ("contentCheckOk"@, json::Doc::Bool(true)),
        ("racyCheckOk"@, json::Doc::Bool(true)),
    ]);
    proof {
        lemma_body_keys();
        reveal_with_fuel(json::field, 5);
    }
    Json::Object(fields)
}

/// The address that a request for `endpoint` goes to.
pub fn request_url(ctx: &ClientCtx, endpoint: &str) -> (url: String)
    ensures
        url@ == endpoint_url(*ctx, endpoint@),
{
    let mut url = "https://".to_owned();
    url.append(ctx.host);
    url.append("/youtubei/v1/");
    url.append(endpoint);
    url.append("?prettyPrint=false");
    url
}

fn failure_text(ctx: &ClientCtx, endpoint: &str, what: &str, cause: &str) -> (message: String)
    ensures
        message@ == ctx.key@ + " "@ + endpoint@ + what@ + cause@,
{
    let mut message = ctx.key.to_owned();
    message.append(" ");
    message.append(endpoint);
    message.append(what);
    message.append(cause);
    message
}

/// The JSON of a reply, or the message that says why there is none.
pub fn read_reply(ctx: &ClientCtx, endpoint: &str, reply: Reply) -> (answer: Result<Json, String>)
    ensures
        match answer {
            Ok(j) => failure_of(*ctx, endpoint@, reply) is None && json::parsed_text(reply->body@)
                == Ok::<json::Doc, Seq<char>>(j@),
            Err(m) => failure_of(*ctx, endpoint@, reply) == Some(m@),
        },
{
    match reply {
        Reply::SendFailed(cause) => Err(
            failure_text(ctx, endpoint, " request failed: ", cause.as_str()),
        ),
        Reply::ReadFailed(cause) => Err(
            failure_text(ctx, endpoint, ": reading body failed: ", cause.as_str()),
        ),
        Reply::Answered { status, status_text, body } => {
            if !(200 <= status && status < 300) {
                return Err(failure_text(ctx, endpoint, " returned HTTP ", status_text.as_str()));
            }
            match json::parse(body.as_str()) {
                Ok(j) => Ok(j),
                Err(cause) => {
                    let number = text::to_decimal(body.as_str().len() as u64);
                    let mut message = failure_text(
                        ctx,
                        endpoint,
                        ": body is not JSON (",
                        number.as_str(),
                    );
                    message.append(" bytes): ");
                    message.append(cause.as_str());
                    Err(message)
                },
            }
        },
    }
}

/// Why a search or a radio brought no tracks: what people are told, and under
/// it what led to that.
#[derive(Debug, PartialEq, Eq)]
pub struct Failure {
    pub message: String,
    pub cause: Option<String>,
}

/// The tracks that a search found, or why there are none.
pub fn search_outcome(query: &str, limit: usize, answer: Result<Json, String>) -> (found: Result<
    Vec<Track>,
    Failure,
>)
    ensures
        match (answer, found) {
            (Ok(resp), Ok(tracks)) => tracks@.len() > 0 && model::track_views(tracks@)
                == search::search_tracks(resp@, limit as nat),
            (Ok(resp), Err(f)) => {
                &&& search::search_tracks(resp@, limit as nat).len() == 0
                &&& f.message@ == "no tracks found for "@ + quoted_text(query@)
                &&& f.cause is None
            },
            (Err(cause), Err(f)) => f.message@ == "YT Music search failed"@ && f.cause == Some(
                cause,
            ),
            (Err(_), Ok(_)) => false,
        },
{
    match answer {
        Ok(resp) => {
            let tracks = search::parse_search_tracks(&resp, limit);
            assert(model::track_views(tracks@).len() == tracks@.len());
            if tracks.len() == 0 {
                let mut message = "no tracks found for ".to_owned();
                message.append(quoted(query).as_str());
                Err(Failure { message, cause: None })
            } else {
                Ok(tracks)
            }
        },
        Err(cause) => Err(
            Failure { message: "YT Music search failed".to_owned(), cause: Some(cause) },
        ),
    }
}

/// The tracks of a video's radio, or why there are none.
pub fn radio_outcome(video_id: &str, limit: usize, answer: Result<Json, String>) -> (found: Result<
    Vec<Track>,
    Failure,
>)
    ensures
        match (answer, found) {
            (Ok(resp), Ok(tracks)) => tracks@.len() > 0 && model::track_views(tracks@)
                == search::radio_tracks(resp@, limit as nat),
            (Ok(resp), Err(f)) => {
                &&& search::radio_tracks(resp@, limit as nat).len() == 0
                &&& f.message@ == "radio for "@ + video_id@ + " returned no tracks"@
                &&& f.cause is None
            },
            (Err(cause), Err(f)) => f.message@ == "YT Music radio (next) failed"@ && f.cause
                == Some(cause),
            (Err(_), Ok(_)) => false,
        },
{
    match answer {
        Ok(resp) => {
            let tracks = search::parse_radio_tracks(&resp, limit);
            assert(model::track_views(tracks@).len() == tracks@.len());
            if tracks.len() == 0 {
                let mut message = "radio for ".to_owned();
                message.append(video_id);
                message.append(" returned no tracks");
                Err(Failure { message, cause: None })
            } else {
                Ok(tracks)
            }
        },
        Err(cause) => Err(
            Failure { message: "YT Music radio (next) failed".to_owned(), cause: Some(cause) },
        ),
    }
}

/// A session with YouTube Music: its cookies, its visitor id, and the streams
/// it has resolved lately. Anonymous without cookies.
pub struct YtClient {
    pub cookie_header: Option<String>,
    /// Resolved streams of the last minutes.
    pub stream_cache: StreamCache,
    /// The visitor id and when it was fetched, in milliseconds.
    pub visitor: Option<(String, u64)>,
}

impl YtClient {
    pub open spec fn wf(self) -> bool {
        self.stream_cache.wf()
    }

    /// A session. `cookies` is the text of a Netscape `cookies.txt`, `now` the
    /// time in seconds since the epoch.
    pub fn new(cookies: Option<String>, now: i64) -> (client: Self)
        ensures
            client.wf(),
            model::text_view(client.cookie_header) == session_header(model::text_view(cookies), now),
            client.stream_cache@ == Map::<Seq<char>, (crate::yt::resolver::StreamView, u64)>::empty(),
            client.visitor is None,
    {
        let cookie_header = match &cookies {
            Some(jar) => {
                let parsed = parse_netscape_cookies(jar.as_str(), now);
                self::cookie_header(&parsed)
            },
            None => None,
        };
        YtClient { cookie_header, stream_cache: StreamCache::new(), visitor: None }
    }

    /// Whether YouTube cookies were given and apply.
    pub fn has_cookies(&self) -> (yes: bool)
        ensures
            yes == self.cookie_header is Some,
    {
        self.cookie_header.is_some()
    }

    /// The visitor id, if it is still fresh at `now`.
    pub fn cached_visitor(&self, now: u64) -> (id: Option<String>)
        ensures
            model::text_view(id) == fresh_visitor(self.visitor, now),
    {
        match &self.visitor {
            Some(v) => {
                let age: u64 = if now > v.1 {
                    now - v.1
                } else {
                    0
                };
                if age < VISITOR_TTL_MS {
                    Some(v.0.clone())
                } else {
                    None
                }
            },
            None => None,
        }
    }

    /// Takes the visitor id out of an answer and keeps it from `now` on. An
    /// answer without one changes nothing.
    pub fn remember_visitor(&mut self, resp: &Json, now: u64) -> (id: Option<String>)
        ensures
            model::text_view(id) == visitor_in(resp@),
            final(self).cookie_header == old(self).cookie_header,
            final(self).stream_cache == old(self).stream_cache,
            match visitor_in(resp@) {
                Some(v) => visitor_view(final(self).visitor) == Some((v, now)),
                None => final(self).visitor == old(self).visitor,
            },
    {
        let id = match resp.get("responseContext") {
            Some(r) => match r.get_str("visitorData") {
                Some(v) => Some(v.to_owned()),
                None => None,
            },
            None => None,
        };
        if let Some(v) = &id {
            self.visitor = Some((v.clone(), now));
        }
        id
    }

    /// The headers of a request made as `ctx` at `now`.
    pub fn headers(&self, ctx: &ClientCtx, now: u64) -> (headers: Vec<(String, String)>)
        ensures
            header_views(headers@) == headers_of(
                *ctx,
                fresh_visitor(self.visitor, now),
                model::text_view(self.cookie_header),
            ),
    {
        let mut origin = "https://".to_owned();
        origin.append(ctx.host);
        let mut headers: Vec<(String, String)> = Vec::new();
        headers.push(("Content-Type".to_owned(), "application/json".to_owned()));
        headers.push(("X-YouTube-Client-Name".to_owned(), text::to_decimal(ctx.id as u64)));
        headers.push(("X-YouTube-Client-Version".to_owned(), ctx.version.to_owned()));
        headers.push(("Origin".to_owned(), origin));
        headers.push(("Accept".to_owned(), "*/*".to_owned()));
        headers.push(("User-Agent".to_owned(), ctx.ua.to_owned()));
        if let Some(v) = self.cached_visitor(now) {
            headers.push(("X-Goog-Visitor-Id".to_owned(), v));
        }
        if ctx.music {
            headers.push(("Referer".to_owned(), "https://music.youtube.com/".to_owned()));
        }
        if let Some(c) = &self.cookie_header {
            headers.push(("Cookie".to_owned(), c.clone()));
        }
        assert(header_views(headers@) =~= headers_of(
            *ctx,
            fresh_visitor(self.visitor, now),
            model::text_view(self.cookie_header),
        ));
        headers
    }
}

} // verus!
