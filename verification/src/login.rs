//! The cookie jar that a finished sign-in leaves behind.

use vstd::prelude::*;

use crate::settings;
use crate::settings::default_cookie_path;
use crate::text;
use crate::yt::innertube;
use crate::yt::innertube::trim_dots;

verus! {

/// Google's sign-in for YouTube Music, returning to the app afterwards.
pub const LOGIN_URL: &'static str =
    "https://accounts.google.com/ServiceLogin?service=youtube&uilel=3&passive=true&continue=https%3A%2F%2Fmusic.youtube.com%2F&hl=en";

/// A desktop Firefox, so the page is not turned away as an embedded browser.
pub const USER_AGENT: &'static str =
    "Mozilla/5.0 (X11; Linux x86_64; rv:132.0) Gecko/20100101 Firefox/132.0";

/// The cookie that proves an account is signed in.
pub const SIGNED_IN_COOKIE: &'static str = "SAPISID";

/// A cookie as the browser window reports it.
#[derive(Debug, PartialEq, Eq)]
pub struct WebCookie {
    pub name: String,
    pub value: String,
    pub domain: Option<String>,
    pub path: Option<String>,
    pub secure: Option<bool>,
    pub http_only: Option<bool>,
    /// Seconds since the epoch, where the cookie names a moment.
    pub expires: Option<i64>,
}

/// Whether `url` is a page of YouTube.
pub open spec fn youtube_page(url: Seq<char>) -> bool {
    "https://music.youtube.com"@.is_prefix_of(url) || "https://www.youtube.com"@.is_prefix_of(url)
}

/// Whether the cookie is the one of a signed-in account on YouTube, going by how
/// its domain ends.
pub open spec fn proves_account(c: WebCookie) -> bool {
    c.name@ == SIGNED_IN_COOKIE@ && match c.domain {
        Some(d) => "youtube.com"@.is_suffix_of(innertube::without_dots(d@)),
        None => false,
    }
}

/// Whether `bare` is `site` or a domain below it.
pub open spec fn within(bare: Seq<char>, site: Seq<char>) -> bool {
    bare == site || (seq!['.'] + site).is_suffix_of(bare)
}

/// Whether the jar keeps the cookies of that domain: YouTube's and Google's.
pub open spec fn kept_domain(bare: Seq<char>) -> bool {
    within(bare, "youtube.com"@) || within(bare, "google.com"@)
}

/// Whether the jar keeps the cookie.
pub open spec fn kept(c: WebCookie) -> bool {
    match c.domain {
        Some(d) => kept_domain(innertube::without_dots(d@)),
        None => false,
    }
}

pub open spec fn bare_domain(c: WebCookie) -> Seq<char> {
    match c.domain {
        Some(d) => innertube::without_dots(d@),
        None => Seq::empty(),
    }
}

pub open spec fn path_of(c: WebCookie) -> Seq<char> {
    match c.path {
        Some(p) => p@,
        None => "/"@,
    }
}

/// The expiry that is written: never negative, zero for a session cookie.
pub open spec fn expiry_of(c: WebCookie) -> i64 {
    match c.expires {
        Some(at) if at > 0 => at,
        _ => 0,
    }
}

pub open spec fn flag(b: bool) -> Seq<char> {
    if b {
        "TRUE"@
    } else {
        "FALSE"@
    }
}

/// The fields of the cookie's line.
pub open spec fn jar_fields(c: WebCookie) -> Seq<Seq<char>> {
    seq![
        "."@ + bare_domain(c),
        "TRUE"@,
        path_of(c),
        flag(c.secure == Some(true)),
        text::decimal(expiry_of(c) as nat),
        c.name@,
        c.value@,
    ]
}

/// The line that the jar holds for a kept cookie, without its line end.
pub open spec fn jar_line(c: WebCookie) -> Seq<char> {
    let mark = if c.http_only == Some(true) {
        "#HttpOnly_"@
    } else {
        Seq::empty()
    };
    mark + text::join(jar_fields(c), seq!['\t'])
}

pub open spec fn jar_heading() -> Seq<char> {
    "# Netscape HTTP Cookie File\n# Written by ytamp --login\n"@
}

/// The whole jar: two lines of comment, then a line for every kept cookie.
pub open spec fn jar_text(cookies: Seq<WebCookie>) -> Seq<char>
    decreases cookies.len(),
{
    if cookies.len() == 0 {
        jar_heading()
    } else {
        let before = jar_text(cookies.drop_last());
        if kept(cookies.last()) {
            before + jar_line(cookies.last()) + seq!['\n']
        } else {
            before
        }
    }
}

/// The cookie as a reader of the jar sees it.
pub open spec fn stored(c: WebCookie) -> innertube::CookieView {
    innertube::CookieView {
        domain: "."@ + bare_domain(c),
        name: c.name@,
        value: c.value@,
        expiry: expiry_of(c),
    }
}

/// The cookies that a jar written from `cookies` still holds at `now`.
pub open spec fn stored_live(cookies: Seq<WebCookie>, now: i64) -> Seq<innertube::CookieView>
    decreases cookies.len(),
{
    if cookies.len() == 0 {
        Seq::empty()
    } else {
        let before = stored_live(cookies.drop_last(), now);
        let c = cookies.last();
        if kept(c) && !innertube::expired(expiry_of(c), now) {
            before.push(stored(c))
        } else {
            before
        }
    }
}

/// Whether the text fits into one field of one line.
pub open spec fn fits_field(s: Seq<char>) -> bool {
    !s.contains('\t') && !s.contains('\n')
}

/// Whether the jar's format can hold the cookie at all: no field breaks the
/// line, and the line does not end in a carriage return.
pub open spec fn representable(c: WebCookie) -> bool {
    &&& fits_field(bare_domain(c))
    &&& fits_field(path_of(c))
    &&& fits_field(c.name@)
    &&& fits_field(c.value@)
    &&& c.value@.len() > 0 ==> c.value@.last() != '\r'
}

proof fn lemma_split_more(t: Seq<char>, s: Seq<char>, c: char)
    requires
        !s.contains(c),
    ensures
        text::split(t + s, c) == text::split(t, c).drop_last().push(text::split(t, c).last() + s),
    decreases s.len(),
{
    let before = text::split(t, c);
    text::lemma_split_nonempty(t, c);
    if s.len() == 0 {
        assert(t + s =~= t);
        assert(before.last() + s =~= before.last());
        assert(before =~= before.drop_last().push(before.last()));
    } else {
        let shorter = s.drop_last();
        assert(!shorter.contains(c)) by {
            if shorter.contains(c) {
                let j = choose|j: int| 0 <= j < shorter.len() && shorter[j] == c;
                assert(s[j] == c);
            }
        }
        lemma_split_more(t, shorter, c);
        assert((t + s).drop_last() =~= t + shorter);
        assert(s.contains(s.last()));
        assert((before.last() + shorter).push(s.last()) =~= before.last() + s);
        assert(text::split(t + s, c) =~= before.drop_last().push(before.last() + s));
    }
}

proof fn lemma_decimal_fits(n: nat)
    ensures
        fits_field(text::decimal(n)),
{
    text::lemma_decimal_digits(n);
    assert forall|i: int| 0 <= i < text::decimal(n).len() implies text::decimal(n)[i] != '\t'
        && text::decimal(n)[i] != '\n' by {
        assert(text::is_digit(text::decimal(n)[i]));
    }
}

proof fn lemma_fields_fit(c: WebCookie)
    requires
        representable(c),
    ensures
        forall|i: int| 0 <= i < 7 ==> fits_field(#[trigger] jar_fields(c)[i]),
{
    reveal_strlit(".");
    reveal_strlit("TRUE");
    reveal_strlit("FALSE");
    lemma_decimal_fits(expiry_of(c) as nat);
    let domain = "."@ + bare_domain(c);
    assert forall|i: int| 0 <= i < domain.len() implies domain[i] != '\t' && domain[i] != '\n' by {
        if i > 0 {
            assert(bare_domain(c).contains(bare_domain(c)[i - 1]));
        }
    }
    assert(!"TRUE"@.contains('\t') && !"TRUE"@.contains('\n'));
    assert(!"FALSE"@.contains('\t') && !"FALSE"@.contains('\n'));
}

proof fn lemma_join_fits(parts: Seq<Seq<char>>, c: char, sep: char)
    requires
        forall|i: int| 0 <= i < parts.len() ==> !(#[trigger] parts[i]).contains(c),
        sep != c,
    ensures
        !text::join(parts, seq![sep]).contains(c),
    decreases parts.len(),
{
    if parts.len() > 1 {
        lemma_join_fits(parts.drop_last(), c, sep);
        let before = text::join(parts.drop_last(), seq![sep]);
        let whole = before + seq![sep] + parts.last();
        assert(!parts[parts.len() - 1].contains(c));
        assert forall|i: int| 0 <= i < whole.len() implies whole[i] != c by {
            if i < before.len() {
                assert(before.contains(before[i]));
            } else if i > before.len() {
                assert(parts.last().contains(parts.last()[i - before.len() - 1]));
            }
        }
    }
}

/// A written line reads back as the cookie it was written for.
proof fn lemma_line_round_trip(c: WebCookie, now: i64)
    requires
        representable(c),
    ensures
        !jar_line(c).contains('\n'),
        text::without_return(jar_line(c)) == jar_line(c),
        innertube::cookie_on_line(jar_line(c), now) == (if innertube::expired(expiry_of(c), now) {
            None
        } else {
            Some(stored(c))
        }),
{
    let fields = jar_fields(c);
    let body = text::join(fields, seq!['\t']);
    let line = jar_line(c);
    let mark = if c.http_only == Some(true) {
        "#HttpOnly_"@
    } else {
        Seq::empty()
    };
    lemma_fields_fit(c);
    assert forall|i: int| 0 <= i < fields.len() implies !(#[trigger] fields[i]).contains('\t') by {
        assert(fits_field(jar_fields(c)[i]));
    }
    assert forall|i: int| 0 <= i < fields.len() implies !(#[trigger] fields[i]).contains('\n') by {
        assert(fits_field(jar_fields(c)[i]));
    }
    text::lemma_split_join(fields, '\t');
    lemma_join_fits(fields, '\n', '\t');
    reveal_strlit("#HttpOnly_");
    reveal_strlit(".");
    // The line begins with the mark and a dot and ends with the value.
    let front = fields.drop_last();
    assert(body == text::join(front, seq!['\t']) + seq!['\t'] + c.value@);
    lemma_join_front(fields);
    assert(body[0] == '.');
    assert forall|i: int| 0 <= i < line.len() implies line[i] != '\n' by {
        if i >= mark.len() {
            assert(body.contains(body[i - mark.len()]));
        }
    }
    assert(line.last() != '\r') by {
        if c.value@.len() > 0 {
            assert(line.last() == c.value@.last());
        } else {
            assert(body.last() == '\t');
            assert(line.last() == body.last());
        }
    }
    assert(innertube::without_returns(line) == line);
    assert(innertube::unmarked(line) =~= body) by {
        if c.http_only == Some(true) {
            assert(line.subrange(0, mark.len() as int) =~= mark);
            assert(mark.is_prefix_of(line));
            assert(line.skip(mark.len() as int) =~= body);
        } else {
            assert(line =~= body);
            assert(line[0] != "#HttpOnly_"@[0]);
        }
    }
    let e = expiry_of(c);
    text::lemma_decimal_digits(e as nat);
    let d = text::decimal(e as nat);
    assert(text::trimmed(d) == d) by {
        assert(text::is_digit(d[0]) && text::is_digit(d[d.len() - 1]));
    }
    text::lemma_signed_round_trip(e as int, i64::MIN as int, i64::MAX as int);
    assert(innertube::expiry_of(d) == e);
}

proof fn lemma_join_front(parts: Seq<Seq<char>>)
    requires
        parts.len() > 0,
        parts[0].len() > 0,
    ensures
        text::join(parts, seq!['\t']).len() > 0,
        text::join(parts, seq!['\t'])[0] == parts[0][0],
    decreases parts.len(),
{
    if parts.len() > 1 {
        lemma_join_front(parts.drop_last());
    }
}

/// The jar is whole lines: the heading's two, then those of the kept cookies.
spec fn jar_lines(cookies: Seq<WebCookie>) -> Seq<Seq<char>>
    decreases cookies.len(),
{
    if cookies.len() == 0 {
        seq!["# Netscape HTTP Cookie File"@, "# Written by ytamp --login"@]
    } else {
        let before = jar_lines(cookies.drop_last());
        if kept(cookies.last()) {
            before.push(jar_line(cookies.last()))
        } else {
            before
        }
    }
}

proof fn lemma_heading()
    ensures
        text::split(jar_heading(), '\n') == seq![
            "# Netscape HTTP Cookie File"@,
            "# Written by ytamp --login"@,
            Seq::empty(),
        ],
        !"# Netscape HTTP Cookie File"@.contains('\n'),
        !"# Written by ytamp --login"@.contains('\n'),
{
    let a = "# Netscape HTTP Cookie File"@;
    let b = "# Written by ytamp --login"@;
    reveal_strlit("# Netscape HTTP Cookie File");
    reveal_strlit("# Written by ytamp --login");
    reveal_strlit("# Netscape HTTP Cookie File\n# Written by ytamp --login\n");
    let none = Seq::<char>::empty();
    assert(jar_heading() =~= a + seq!['\n'] + (b + seq!['\n'] + none));
    text::lemma_split_whole(a, '\n');
    text::lemma_split_whole(b, '\n');
    text::lemma_split_whole(none, '\n');
    text::lemma_split_append(b, none, '\n');
    text::lemma_split_append(a, b + seq!['\n'] + none, '\n');
    assert(seq![a] + (seq![b] + seq![none]) =~= seq![a, b, none]);
}

proof fn lemma_jar_lines(cookies: Seq<WebCookie>, now: i64)
    requires
        forall|i: int|
            0 <= i < cookies.len() && kept(#[trigger] cookies[i]) ==> representable(cookies[i]),
    ensures
        text::split(jar_text(cookies), '\n') == jar_lines(cookies).push(Seq::empty()),
        forall|i: int|
            0 <= i < jar_lines(cookies).len() ==> text::without_return(
                #[trigger] jar_lines(cookies)[i],
            ) == jar_lines(cookies)[i],
        innertube::cookies_on_lines(jar_lines(cookies), now) == stored_live(cookies, now),
    decreases cookies.len(),
{
    if cookies.len() == 0 {
        lemma_heading();
        let a = "# Netscape HTTP Cookie File"@;
        let b = "# Written by ytamp --login"@;
        let none = Seq::<char>::empty();
        assert(jar_lines(cookies).push(none) =~= seq![a, b, none]);
        reveal_strlit("# Netscape HTTP Cookie File");
        reveal_strlit("# Written by ytamp --login");
        reveal_strlit("#HttpOnly_");
        assert(a[1] != "#HttpOnly_"@[1] && b[1] != "#HttpOnly_"@[1]);
        assert(innertube::without_returns(a) == a);
        assert(innertube::without_returns(b) == b);
        assert(innertube::unmarked(a) == a);
        assert(innertube::unmarked(b) == b);
        assert(innertube::cookie_on_line(a, now) is None);
        assert(innertube::cookie_on_line(b, now) is None);
        let two = jar_lines(cookies);
        assert(two.drop_last() =~= seq![a]);
        assert(seq![a].drop_last() =~= Seq::<Seq<char>>::empty());
        reveal_with_fuel(innertube::cookies_on_lines, 3);
    } else {
        let c = cookies.last();
        let shorter = cookies.drop_last();
        assert forall|i: int| 0 <= i < shorter.len() && kept(#[trigger] shorter[i]) implies
            representable(shorter[i]) by {
            assert(kept(cookies[i]));
        }
        lemma_jar_lines(shorter, now);
        if kept(c) {
            assert(representable(cookies[cookies.len() - 1]));
            lemma_line_round_trip(c, now);
            let t = jar_text(shorter);
            let line = jar_line(c);
            lemma_split_more(t, line, '\n');
            assert((t + line + seq!['\n']).drop_last() =~= t + line);
            assert(text::split(t, '\n').last() + line =~= line);
            assert(text::split(jar_text(cookies), '\n') =~= jar_lines(cookies).push(Seq::empty()));
            assert(jar_lines(cookies).drop_last() =~= jar_lines(shorter));
        }
    }
}

/// Reading a jar gives back the cookies it was written from: those of YouTube
/// and Google that have not expired, in the same order, with the same names,
/// values and expiry, provided the format can hold them.
pub proof fn lemma_jar_round_trip(cookies: Seq<WebCookie>, now: i64)
    requires
        forall|i: int|
            0 <= i < cookies.len() && kept(#[trigger] cookies[i]) ==> representable(cookies[i]),
    ensures
        innertube::cookies_in(jar_text(cookies), now) == stored_live(cookies, now),
{
    lemma_jar_lines(cookies, now);
    let lines = jar_lines(cookies);
    let parts = text::split(jar_text(cookies), '\n');
    assert(parts.drop_last() =~= lines);
    assert(lines.map_values(|p: Seq<char>| text::without_return(p)) =~= lines);
}

proof fn lemma_no_dot_first(s: Seq<char>)
    ensures
        innertube::without_dots(s).len() > 0 ==> innertube::without_dots(s)[0] != '.',
    decreases s.len(),
{
    if s.len() > 0 && s[0] == '.' {
        lemma_no_dot_first(s.drop_first());
    }
}

/// The cookie that proves an account, where YouTube or a domain below it set it,
/// is in the jar that is written for it, and a reader of the jar sends it to
/// YouTube.
pub proof fn lemma_account_is_kept(c: WebCookie)
    requires
        proves_account(c),
        within(bare_domain(c), "youtube.com"@),
    ensures
        kept(c),
        innertube::youtube_domain(stored(c).domain),
{
    let bare = bare_domain(c);
    lemma_no_dot_first(c.domain->0@);
    reveal_strlit(".");
    assert(("."@ + bare).drop_first() =~= bare);
    reveal_with_fuel(innertube::without_dots, 2);
    assert(innertube::without_dots("."@ + bare) == bare);
    reveal_strlit("youtube.com");
    reveal_strlit(".youtube.com");
    assert(seq!['.'] + "youtube.com"@ =~= ".youtube.com"@);
}

/// The line of a cookie in the jar: the domain with a dot before it, TRUE, the
/// path, whether the cookie is for secure requests only, the expiry, the name
/// and the value, between tabs; before a cookie that scripts cannot read stands
/// a mark. A cookie without a path is written for all of them, one without a
/// moment, or with one before the epoch, with zero.
pub proof fn lemma_jar_line(c: WebCookie, domain: String)
    requires
        c.domain == Some(domain),
    ensures
        ({
            let tab = seq!['\t'];
            let path = match c.path {
                Some(p) => p@,
                None => "/"@,
            };
            let secure = if c.secure == Some(true) {
                "TRUE"@
            } else {
                "FALSE"@
            };
            let expiry = match c.expires {
                Some(at) => if at > 0 {
                    at as nat
                } else {
                    0
                },
                None => 0,
            };
            let line = "."@ + innertube::without_dots(domain@) + tab + "TRUE"@ + tab + path + tab
                + secure + tab + text::decimal(expiry) + tab + c.name@ + tab + c.value@;
            &&& c.http_only == Some(true) ==> jar_line(c) == "#HttpOnly_"@ + line
            &&& c.http_only != Some(true) ==> jar_line(c) == line
        }),
{
    let tab = seq!['\t'];
    let f = jar_fields(c);
    reveal_with_fuel(text::join, 8);
    let f6 = f.drop_last();
    let f5 = f6.drop_last();
    let f4 = f5.drop_last();
    let f3 = f4.drop_last();
    let f2 = f3.drop_last();
    let f1 = f2.drop_last();
    assert(f1.len() == 1);
    assert(text::join(f1, tab) == f[0]);
    assert(text::join(f2, tab) == f[0] + tab + f[1]);
    assert(text::join(f3, tab) == f[0] + tab + f[1] + tab + f[2]);
    assert(text::join(f4, tab) == f[0] + tab + f[1] + tab + f[2] + tab + f[3]);
    assert(text::join(f5, tab) == f[0] + tab + f[1] + tab + f[2] + tab + f[3] + tab + f[4]);
    assert(text::join(f6, tab) == f[0] + tab + f[1] + tab + f[2] + tab + f[3] + tab + f[4] + tab
        + f[5]);
    assert(Seq::<char>::empty() + text::join(f, tab) =~= text::join(f, tab));
}

/// The jar begins with its two lines of comment and goes on with the line of
/// every cookie of YouTube or Google, in order, each on a line of its own;
/// cookies of other domains, and those without one, are left out.
pub proof fn lemma_jar_grows(cookies: Seq<WebCookie>, c: WebCookie)
    ensures
        jar_text(Seq::empty()) == "# Netscape HTTP Cookie File\n# Written by ytamp --login\n"@,
        kept(c) ==> jar_text(cookies.push(c)) == jar_text(cookies) + jar_line(c) + seq!['\n'],
        !kept(c) ==> jar_text(cookies.push(c)) == jar_text(cookies),
        c.domain is None ==> !kept(c),
{
    assert(cookies.push(c).drop_last() =~= cookies);
}

/// A cookie is kept for youtube.com, google.com and what lies below them,
/// whatever dots stand before the domain.
pub proof fn lemma_kept(c: WebCookie, domain: String, below: Seq<char>)
    requires
        c.domain == Some(domain),
        domain@.len() > 0 ==> domain@[0] != '.',
    ensures
        domain@ == "youtube.com"@ || domain@ == "google.com"@ ==> kept(c),
        domain@ == below + ".youtube.com"@ ==> kept(c),
        domain@ == below + ".google.com"@ ==> kept(c),
        kept(c) ==> "youtube.com"@.is_suffix_of(domain@) || "google.com"@.is_suffix_of(domain@),
{
    let d = domain@;
    reveal_strlit("youtube.com");
    reveal_strlit(".youtube.com");
    reveal_strlit("google.com");
    reveal_strlit(".google.com");
    let yt = "youtube.com"@;
    let goo = "google.com"@;
    assert(seq!['.'] + yt =~= ".youtube.com"@);
    assert(seq!['.'] + goo =~= ".google.com"@);
    assert(yt.len() == 11 && goo.len() == 10);
    if d == below + ".youtube.com"@ {
        assert(d.subrange(d.len() - 12, d.len() as int) =~= ".youtube.com"@);
    }
    if d == below + ".google.com"@ {
        assert(d.subrange(d.len() - 11, d.len() as int) =~= ".google.com"@);
    }
    if kept(c) {
        if d == yt || (seq!['.'] + yt).is_suffix_of(d) {
            assert(d.subrange(d.len() - 11, d.len() as int) =~= yt) by {
                if d != yt {
                    let tail = d.subrange(d.len() - 12, d.len() as int);
                    assert(tail =~= seq!['.'] + yt);
                    assert(tail.subrange(1, 12) =~= yt);
                    assert(d.subrange(d.len() - 11, d.len() as int) =~= tail.subrange(1, 12));
                } else {
                    assert(d.subrange(0, 11) =~= yt);
                }
            }
        } else {
            assert(d.subrange(d.len() - 10, d.len() as int) =~= goo) by {
                if d != goo {
                    let tail = d.subrange(d.len() - 11, d.len() as int);
                    assert(tail =~= seq!['.'] + goo);
                    assert(tail.subrange(1, 11) =~= goo);
                    assert(d.subrange(d.len() - 10, d.len() as int) =~= tail.subrange(1, 11));
                } else {
                    assert(d.subrange(0, 10) =~= goo);
                }
            }
        }
    }
}

/// The account is proved by the cookie named SAPISID, on a domain that ends in
/// youtube.com; by no other name and on no other domain.
pub proof fn lemma_account(c: WebCookie)
    ensures
        c.name@ != "SAPISID"@ ==> !proves_account(c),
        c.domain is None ==> !proves_account(c),
        c.domain matches Some(d) ==> c.name@ == "SAPISID"@ && (d@.len() > 0 ==> d@[0] != '.') ==> (
        proves_account(c) <==> "youtube.com"@.is_suffix_of(d@)),
{
}

/// The window looks for cookies on the pages of music.youtube.com and
/// www.youtube.com over https, and on no others.
pub proof fn lemma_youtube_page(rest: Seq<char>, url: Seq<char>)
    ensures
        youtube_page("https://music.youtube.com"@ + rest),
        youtube_page("https://www.youtube.com"@ + rest),
        youtube_page(url) ==> "https://"@.is_prefix_of(url),
        "https://accounts."@.is_prefix_of(url) ==> !youtube_page(url),
{
    let a = "https://music.youtube.com"@;
    let b = "https://www.youtube.com"@;
    let c = "https://accounts."@;
    assert((a + rest).subrange(0, a.len() as int) =~= a);
    assert((b + rest).subrange(0, b.len() as int) =~= b);
    reveal_strlit("https://music.youtube.com");
    reveal_strlit("https://www.youtube.com");
    reveal_strlit("https://");
    reveal_strlit("https://accounts.");
    assert(a.subrange(0, 8) =~= "https://"@);
    assert(b.subrange(0, 8) =~= "https://"@);
    if a.is_prefix_of(url) {
        assert(url.subrange(0, a.len() as int)[8] == 'm');
        assert(url.subrange(0, 8) =~= a.subrange(0, 8)) by {
            assert(url.subrange(0, 8) =~= url.subrange(0, a.len() as int).subrange(0, 8));
        }
    }
    if b.is_prefix_of(url) {
        assert(url.subrange(0, b.len() as int)[8] == 'w');
        assert(url.subrange(0, 8) =~= b.subrange(0, 8)) by {
            assert(url.subrange(0, 8) =~= url.subrange(0, b.len() as int).subrange(0, 8));
        }
    }
    if c.is_prefix_of(url) {
        assert(url.subrange(0, c.len() as int)[8] == 'a');
    }
}

/// Whether `url` is a page of YouTube.
pub fn on_youtube(url: &str) -> (yes: bool)
    ensures
        yes == youtube_page(url@),
{
    text::starts_with(url, "https://music.youtube.com") || text::starts_with(
        url,
        "https://www.youtube.com",
    )
}

/// Whether the cookies are those of a signed-in account.
pub fn signed_in(cookies: &Vec<WebCookie>) -> (yes: bool)
    ensures
        yes == exists|i: int| 0 <= i < cookies@.len() && proves_account(#[trigger] cookies@[i]),
{
    let mut i: usize = 0;
    while i < cookies.len()
        invariant
            0 <= i <= cookies@.len(),
            forall|k: int| 0 <= k < i ==> !proves_account(#[trigger] cookies@[k]),
        decreases cookies@.len() - i,
    {
        let c = &cookies[i];
        if text::same(c.name.as_str(), SIGNED_IN_COOKIE) {
            if let Some(d) = &c.domain {
                if text::ends_with(trim_dots(d.as_str()).as_str(), "youtube.com") {
                    assert(proves_account(cookies@[i as int]));
                    return true;
                }
            }
        }
        i += 1;
    }
    false
}

fn is_within(bare: &str, site: &str) -> (yes: bool)
    ensures
        yes == within(bare@, site@),
{
    let mut dotted = String::new();
    dotted.push('.');
    dotted.append(site);
    assert(dotted@ =~= seq!['.'] + site@);
    text::same(bare, site) || text::ends_with(bare, dotted.as_str())
}

fn flag_text(b: bool) -> (s: &'static str)
    ensures
        s@ == flag(b),
{
    if b {
        "TRUE"
    } else {
        "FALSE"
    }
}

fn line_of(c: &WebCookie, bare: &str) -> (line: String)
    requires
        bare@ == bare_domain(*c),
    ensures
        line@ == jar_line(*c),
{
    let mut domain = String::new();
    domain.append(".");
    domain.append(bare);
    assert(domain@ =~= "."@ + bare@);
    let path = match &c.path {
        Some(p) => p.clone(),
        None => "/".to_owned(),
    };
    let secure = match c.secure {
        Some(b) => b,
        None => false,
    };
    let expiry: u64 = match c.expires {
        Some(at) => if at > 0 {
            at as u64
        } else {
            0
        },
        None => 0,
    };
    let mut fields: Vec<String> = Vec::new();
    fields.push(domain);
    fields.push("TRUE".to_owned());
    fields.push(path);
    fields.push(flag_text(secure).to_owned());
    fields.push(text::to_decimal(expiry));
    fields.push(c.name.clone());
    fields.push(c.value.clone());
    assert(text::views(fields@) =~= jar_fields(*c));
    let mut tab = String::new();
    tab.push('\t');
    assert(tab@ =~= seq!['\t']);
    let body = text::join_with(&fields, tab.as_str());
    let marked = match c.http_only {
        Some(b) => b,
        None => false,
    };
    let mut line = String::new();
    if marked {
        line.append("#HttpOnly_");
        assert(line@ =~= "#HttpOnly_"@);
    }
    line.append(body.as_str());
    line
}

/// The cookies as a Netscape `cookies.txt`. Only Google and YouTube domains
/// are kept, and every cookie is written for the whole domain.
pub fn netscape_jar(cookies: &Vec<WebCookie>) -> (jar: String)
    ensures
        jar@ == jar_text(cookies@),
{
    let mut jar = "# Netscape HTTP Cookie File\n# Written by ytamp --login\n".to_owned();
    let mut i: usize = 0;
    assert(cookies@.take(0) =~= Seq::empty());
    while i < cookies.len()
        invariant
            0 <= i <= cookies@.len(),
            jar@ == jar_text(cookies@.take(i as int)),
        decreases cookies@.len() - i,
    {
        assert(cookies@.take(i + 1).drop_last() =~= cookies@.take(i as int));
        let c = &cookies[i];
        if let Some(d) = &c.domain {
            let bare = trim_dots(d.as_str());
            if is_within(bare.as_str(), "youtube.com") || is_within(bare.as_str(), "google.com") {
                let ghost before = jar@;
                jar.append(line_of(c, bare.as_str()).as_str());
                jar.push('\n');
                assert(jar@ =~= before + jar_line(*c) + seq!['\n']);
            }
        }
        i += 1;
    }
    assert(cookies@.take(cookies@.len() as int) =~= cookies@);
    jar
}

/// What the sign-in window does next.
#[derive(Debug)]
pub enum LoginStep {
    /// Goes on as before.
    Wait,
    /// Reads its cookies.
    ReadCookies,
    /// Writes this jar.
    WriteJar(String),
    /// Comes back into view: the page was left before anybody signed in.
    Show,
    /// Says this on the error stream and goes on.
    Report(String),
    /// Ends with a status, saying why where there is something to say.
    Exit(i32, Option<String>),
}

/// What happened to the sign-in window.
#[derive(Debug)]
pub enum LoginEvent {
    /// It was closed.
    Closed,
    /// A page is on its way or has loaded.
    Page(String),
    /// Its cookies, or why they could not be read.
    Cookies(Result<Vec<WebCookie>, String>),
    /// The jar was written to the path, or not.
    Written { path: String, result: Result<(), String> },
}

/// Some cookie is that of a signed-in account.
pub open spec fn account_in(cookies: Seq<WebCookie>) -> bool {
    exists|i: int| 0 <= i < cookies.len() && proves_account(#[trigger] cookies[i])
}

/// An account is signed in as soon as one of the cookies proves it, wherever
/// that cookie stands.
pub proof fn lemma_account_in(cookies: Seq<WebCookie>, c: WebCookie, i: int)
    ensures
        0 <= i < cookies.len() && proves_account(cookies[i]) ==> account_in(cookies),
        account_in(cookies.push(c)) <==> account_in(cookies) || proves_account(c),
        !account_in(Seq::empty()),
{
    let more = cookies.push(c);
    if account_in(cookies) {
        let k = choose|k: int| 0 <= k < cookies.len() && proves_account(#[trigger] cookies[k]);
        assert(proves_account(more[k]));
    }
    if proves_account(c) {
        assert(proves_account(more[cookies.len() as int]));
    }
    if account_in(more) {
        let k = choose|k: int| 0 <= k < more.len() && proves_account(#[trigger] more[k]);
        if k < cookies.len() {
            assert(proves_account(cookies[k]));
        }
    }
}

/// Whether the window goes out of view for a page: nobody needs to see
/// YouTube there.
pub fn hides_for(url: &str) -> (yes: bool)
    ensures
        yes == youtube_page(url@),
{
    on_youtube(url)
}

/// What the sign-in window does after an event. A jar is only written once a
/// cookie proves an account; status 0 says that it was, 1 that the window was
/// closed before, 2 that writing failed.
pub fn login_step(event: LoginEvent) -> (step: LoginStep)
    ensures
        match event {
            LoginEvent::Closed => step == LoginStep::Exit(1, None),
            LoginEvent::Page(url) => step == (if youtube_page(url@) {
                LoginStep::ReadCookies
            } else {
                LoginStep::Wait
            }),
            LoginEvent::Cookies(Ok(cookies)) => if account_in(cookies@) {
                step matches LoginStep::WriteJar(jar) && jar@ == jar_text(cookies@)
            } else {
                step == LoginStep::Show
            },
            LoginEvent::Cookies(Err(e)) => step matches LoginStep::Report(m) && m@
                == "ytamp: reading cookies: "@ + e@,
            LoginEvent::Written { path, result } => match result {
                Ok(_) => step == LoginStep::Exit(0, None),
                Err(e) => step matches LoginStep::Exit(status, Some(m)) && status == 2 && m@
                    == "ytamp: could not write "@ + path@ + ": "@ + e@,
            },
        },
{
    match event {
        LoginEvent::Closed => LoginStep::Exit(1, None),
        LoginEvent::Page(url) => if on_youtube(url.as_str()) {
            LoginStep::ReadCookies
        } else {
            LoginStep::Wait
        },
        LoginEvent::Cookies(read) => match read {
            Ok(cookies) => if signed_in(&cookies) {
                LoginStep::WriteJar(netscape_jar(&cookies))
            } else {
                LoginStep::Show
            },
            Err(e) => {
                let mut m = "ytamp: reading cookies: ".to_owned();
                m.append(e.as_str());
                LoginStep::Report(m)
            },
        },
        LoginEvent::Written { path, result } => match result {
            Ok(_) => LoginStep::Exit(0, None),
            Err(e) => {
                let mut m = "ytamp: could not write ".to_owned();
                m.append(path.as_str());
                m.append(": ");
                m.append(e.as_str());
                LoginStep::Exit(2, Some(m))
            },
        },
    }
}

/// Where the jar of a sign-in is written: where the app looks for one.
pub fn jar_path(config_dir: &str) -> (path: String)
    ensures
        path@ == settings::joined_path(config_dir@, "cookies.txt"@),
{
    default_cookie_path(config_dir)
}

} // verus!
