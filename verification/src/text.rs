//! Text as a sequence of characters: trimming, splitting, numbers.

use vstd::prelude::*;

verus! {

/// `String::push`: the character is appended, nothing else changes.
pub assume_specification[ String::push ](s: &mut String, c: char)
    ensures
        final(s)@ == old(s)@.push(c),
;

/// The characters with Unicode's `White_Space` property.
pub open spec fn is_white(c: char) -> bool {
    let n = c as u32;
    ||| 0x9 <= n <= 0xd
    ||| n == 0x20
    ||| n == 0x85
    ||| n == 0xa0
    ||| n == 0x1680
    ||| 0x2000 <= n <= 0x200a
    ||| n == 0x2028
    ||| n == 0x2029
    ||| n == 0x202f
    ||| n == 0x205f
    ||| n == 0x3000
}

pub open spec fn trim_start(s: Seq<char>) -> Seq<char>
    decreases s.len(),
{
    if s.len() > 0 && is_white(s[0]) {
        trim_start(s.drop_first())
    } else {
        s
    }
}

pub open spec fn trim_end(s: Seq<char>) -> Seq<char>
    decreases s.len(),
{
    if s.len() > 0 && is_white(s.last()) {
        trim_end(s.drop_last())
    } else {
        s
    }
}

/// `s` without the white space at either end.
pub open spec fn trimmed(s: Seq<char>) -> Seq<char> {
    trim_end(trim_start(s))
}

/// The views of a sequence of strings.
pub open spec fn views(v: Seq<String>) -> Seq<Seq<char>> {
    Seq::new(v.len(), |i: int| v[i]@)
}

/// The pieces of `s` between the occurrences of `c`; always at least one.
pub open spec fn split(s: Seq<char>, c: char) -> Seq<Seq<char>>
    decreases s.len(),
{
    if s.len() == 0 {
        seq![Seq::empty()]
    } else {
        let before = split(s.drop_last(), c);
        if s.last() == c {
            before.push(Seq::empty())
        } else {
            before.drop_last().push(before.last().push(s.last()))
        }
    }
}

/// The pieces one after another with `sep` between them.
pub open spec fn join(parts: Seq<Seq<char>>, sep: Seq<char>) -> Seq<char>
    decreases parts.len(),
{
    if parts.len() == 0 {
        Seq::empty()
    } else if parts.len() == 1 {
        parts[0]
    } else {
        join(parts.drop_last(), sep) + sep + parts.last()
    }
}

/// `s` up to the first `c`, and what follows it.
pub open spec fn split_once(s: Seq<char>, c: char) -> Option<(Seq<char>, Seq<char>)> {
    if s.contains(c) {
        let i = s.index_of_first(c)->0;
        Some((s.take(i), s.skip(i + 1)))
    } else {
        None
    }
}

/// `line` without one carriage return at its end.
pub open spec fn without_return(line: Seq<char>) -> Seq<char> {
    if line.len() > 0 && line.last() == '\r' {
        line.drop_last()
    } else {
        line
    }
}

/// The lines of `s`. A line ends at `\n` or `\r\n`; what follows the last line
/// end is a line of its own only if it is not empty.
pub open spec fn lines(s: Seq<char>) -> Seq<Seq<char>> {
    let parts = split(s, '\n');
    let ended = parts.drop_last().map_values(|p: Seq<char>| without_return(p));
    if parts.last().len() == 0 {
        ended
    } else {
        ended.push(parts.last())
    }
}

/// Whether `p` occurs somewhere in `s`.
pub open spec fn has_infix(s: Seq<char>, p: Seq<char>) -> bool {
    exists|i: int| 0 <= i <= s.len() - p.len() && #[trigger] s.subrange(i, i + p.len()) == p
}

pub open spec fn ascii_lower_char(c: char) -> char {
    if 'A' <= c && c <= 'Z' {
        ((c as u32) + 32) as char
    } else {
        c
    }
}

/// `s` with the letters A to Z in lower case.
pub open spec fn ascii_lower(s: Seq<char>) -> Seq<char> {
    s.map_values(|c: char| ascii_lower_char(c))
}

pub open spec fn digit(n: nat) -> char {
    ((48 + n) as u32) as char
}

/// `n` in decimal, without leading zeros.
pub open spec fn decimal(n: nat) -> Seq<char>
    decreases n,
{
    if n < 10 {
        seq![digit(n)]
    } else {
        decimal(n / 10).push(digit(n % 10))
    }
}

/// `n` in decimal, with a sign when it is negative.
pub open spec fn signed_decimal(n: int) -> Seq<char> {
    if n < 0 {
        seq!['-'] + decimal((-n) as nat)
    } else {
        decimal(n as nat)
    }
}

/// `n` in decimal, in at least two characters.
pub open spec fn two_digits(n: nat) -> Seq<char> {
    if n < 10 {
        seq!['0', digit(n)]
    } else {
        decimal(n)
    }
}

pub open spec fn is_digit(c: char) -> bool {
    '0' <= c && c <= '9'
}

pub open spec fn all_digits(s: Seq<char>) -> bool {
    forall|i: int| 0 <= i < s.len() ==> is_digit(#[trigger] s[i])
}

pub open spec fn number(s: Seq<char>) -> nat
    decreases s.len(),
{
    if s.len() == 0 {
        0
    } else {
        number(s.drop_last()) * 10 + ((s.last() as u32 - 48) as nat)
    }
}

/// What `s` reads as, if it is made of one or more decimal digits.
pub open spec fn natural(s: Seq<char>) -> Option<nat> {
    if s.len() > 0 && all_digits(s) {
        Some(number(s))
    } else {
        None
    }
}

/// What `s` reads as: an optional plus sign and decimal digits, at most `max`.
pub open spec fn unsigned(s: Seq<char>, max: nat) -> Option<nat> {
    let body = if s.len() > 0 && s[0] == '+' {
        s.drop_first()
    } else {
        s
    };
    match natural(body) {
        Some(n) if n <= max => Some(n),
        _ => None,
    }
}

/// What `s` reads as: an optional sign and decimal digits, in `min..=max`.
pub open spec fn signed(s: Seq<char>, min: int, max: int) -> Option<int> {
    if s.len() > 0 && s[0] == '-' {
        match natural(s.drop_first()) {
            Some(n) if min <= -n => Some(-n),
            _ => None,
        }
    } else {
        match unsigned(s, max as nat) {
            Some(n) => Some(n as int),
            None => None,
        }
    }
}

proof fn lemma_digit(n: nat)
    requires
        n < 10,
    ensures
        is_digit(digit(n)),
        digit(n) as u32 - 48 == n,
{
}

/// `decimal` writes digits only, and at least one.
pub proof fn lemma_decimal_digits(n: nat)
    ensures
        decimal(n).len() > 0,
        all_digits(decimal(n)),
    decreases n,
{
    lemma_digit(n % 10);
    if n >= 10 {
        lemma_decimal_digits(n / 10);
    } else {
        lemma_digit(n);
    }
}

/// A number of a machine word has twenty digits at most.
pub proof fn lemma_decimal_length(n: nat)
    requires
        n <= u64::MAX,
    ensures
        1 <= decimal(n).len() <= 20,
        n < 100 ==> decimal(n).len() <= 2,
{
    reveal_with_fuel(decimal, 20);
}

/// Reading what `decimal` wrote gives the number back.
pub proof fn lemma_decimal_round_trip(n: nat)
    ensures
        natural(decimal(n)) == Some(n),
    decreases n,
{
    lemma_decimal_digits(n);
    if n >= 10 {
        lemma_decimal_round_trip(n / 10);
        lemma_digit(n % 10);
        assert(decimal(n).drop_last() =~= decimal(n / 10));
    } else {
        lemma_digit(n);
        reveal_with_fuel(number, 2);
        assert(decimal(n).drop_last() =~= Seq::<char>::empty());
        assert(number(Seq::<char>::empty()) == 0);
    }
}

/// A number that fits is read back as an unsigned one.
pub proof fn lemma_unsigned_round_trip(n: nat, max: nat)
    requires
        n <= max,
    ensures
        unsigned(decimal(n), max) == Some(n),
{
    lemma_decimal_digits(n);
    lemma_decimal_round_trip(n);
    assert(is_digit(decimal(n)[0]));
}

/// A number that fits is read back as a signed one.
pub proof fn lemma_signed_round_trip(n: int, min: int, max: int)
    requires
        min <= n <= max,
        0 <= max,
    ensures
        signed(signed_decimal(n), min, max) == Some(n),
{
    if n < 0 {
        lemma_decimal_round_trip((-n) as nat);
        assert(signed_decimal(n).drop_first() =~= decimal((-n) as nat));
    } else {
        lemma_decimal_digits(n as nat);
        assert(is_digit(decimal(n as nat)[0]));
        lemma_unsigned_round_trip(n as nat, max as nat);
    }
}

proof fn lemma_number_prefix(s: Seq<char>, k: int)
    requires
        0 <= k <= s.len(),
        all_digits(s),
    ensures
        number(s.take(k)) <= number(s),
    decreases s.len(),
{
    if k < s.len() {
        lemma_number_prefix(s.drop_last(), k);
        assert(s.drop_last().take(k) =~= s.take(k));
    } else {
        assert(s.take(k) =~= s);
    }
}

pub proof fn lemma_split_nonempty(s: Seq<char>, c: char)
    ensures
        split(s, c).len() > 0,
    decreases s.len(),
{
    if s.len() > 0 {
        lemma_split_nonempty(s.drop_last(), c);
    }
}

/// No piece of a split holds the character it was split on.
pub proof fn lemma_split_pieces(s: Seq<char>, c: char)
    ensures
        forall|i: int| 0 <= i < split(s, c).len() ==> !(#[trigger] split(s, c)[i]).contains(c),
    decreases s.len(),
{
    lemma_split_nonempty(s, c);
    if s.len() > 0 {
        lemma_split_pieces(s.drop_last(), c);
        lemma_split_nonempty(s.drop_last(), c);
        let before = split(s.drop_last(), c);
        if s.last() != c {
            assert forall|j: int| 0 <= j < before.last().push(s.last()).len() implies
                before.last().push(s.last())[j] != c by {
                if j < before.last().len() {
                    assert(before[before.len() - 1].contains(before.last()[j]));
                }
            }
        }
    }
}

/// Text without the character is one piece.
pub proof fn lemma_split_whole(s: Seq<char>, c: char)
    requires
        !s.contains(c),
    ensures
        split(s, c) == seq![s],
    decreases s.len(),
{
    if s.len() > 0 {
        assert(!s.drop_last().contains(c)) by {
            if s.drop_last().contains(c) {
                let j = choose|j: int| 0 <= j < s.drop_last().len() && s.drop_last()[j] == c;
                assert(s[j] == c);
            }
        }
        assert(s.contains(s.last()));
        lemma_split_whole(s.drop_last(), c);
        assert(s.drop_last().push(s.last()) =~= s);
        assert(split(s, c) =~= seq![s]);
    } else {
        assert(s =~= Seq::empty());
    }
}

/// Splitting `a`, the character, `b` is splitting `a` and splitting `b`.
pub proof fn lemma_split_append(a: Seq<char>, b: Seq<char>, c: char)
    ensures
        split(a + seq![c] + b, c) == split(a, c) + split(b, c),
    decreases b.len(),
{
    let whole = a + seq![c] + b;
    lemma_split_nonempty(b, c);
    if b.len() == 0 {
        assert(whole.drop_last() =~= a);
        assert(split(whole, c) =~= split(a, c) + split(b, c));
    } else {
        lemma_split_append(a, b.drop_last(), c);
        lemma_split_nonempty(b.drop_last(), c);
        assert(whole.drop_last() =~= a + seq![c] + b.drop_last());
        assert(split(whole, c) =~= split(a, c) + split(b, c));
    }
}

/// Splitting joined pieces gives the pieces back, if none holds the separator.
pub proof fn lemma_split_join(parts: Seq<Seq<char>>, c: char)
    requires
        parts.len() > 0,
        forall|i: int| 0 <= i < parts.len() ==> !(#[trigger] parts[i]).contains(c),
    ensures
        split(join(parts, seq![c]), c) == parts,
    decreases parts.len(),
{
    if parts.len() == 1 {
        lemma_split_whole(parts[0], c);
        assert(parts =~= seq![parts[0]]);
    } else {
        lemma_split_join(parts.drop_last(), c);
        lemma_split_append(join(parts.drop_last(), seq![c]), parts.last(), c);
        assert(!parts[parts.len() - 1].contains(c));
        lemma_split_whole(parts.last(), c);
        assert(parts.drop_last() + seq![parts.last()] =~= parts);
    }
}

/// Joining the pieces of a split gives the text back.
pub proof fn lemma_join_split(s: Seq<char>, c: char)
    ensures
        join(split(s, c), seq![c]) == s,
    decreases s.len(),
{
    if s.len() > 0 {
        let before = split(s.drop_last(), c);
        let parts = split(s, c);
        lemma_split_nonempty(s.drop_last(), c);
        lemma_join_split(s.drop_last(), c);
        if s.last() == c {
            assert(parts.drop_last() =~= before);
            assert(join(parts, seq![c]) =~= s);
        } else {
            assert(parts.drop_last() =~= before.drop_last());
            assert(join(parts, seq![c]) =~= join(before, seq![c]).push(s.last()));
            assert(join(parts, seq![c]) =~= s);
        }
    }
}

proof fn lemma_trim_start_suffix(s: Seq<char>)
    ensures
        trim_start(s).len() <= s.len(),
        trim_start(s) == s.skip(s.len() - trim_start(s).len()),
        trim_start(s).len() > 0 ==> !is_white(trim_start(s)[0]),
    decreases s.len(),
{
    if s.len() > 0 && is_white(s[0]) {
        let t = s.drop_first();
        lemma_trim_start_suffix(t);
        assert(t.skip(t.len() - trim_start(t).len()) =~= s.skip(s.len() - trim_start(s).len()));
    } else {
        assert(s.skip(0) =~= s);
    }
}

proof fn lemma_trim_end_prefix(s: Seq<char>)
    ensures
        trim_end(s).len() <= s.len(),
        trim_end(s) == s.take(trim_end(s).len() as int),
        trim_end(s).len() > 0 ==> !is_white(trim_end(s).last()),
    decreases s.len(),
{
    if s.len() > 0 && is_white(s.last()) {
        let t = s.drop_last();
        lemma_trim_end_prefix(t);
        assert(t.take(trim_end(t).len() as int) =~= s.take(trim_end(s).len() as int));
    } else {
        assert(s.take(s.len() as int) =~= s);
    }
}

/// Trimmed text neither begins nor ends with white space.
pub proof fn lemma_trimmed_ends(s: Seq<char>)
    ensures
        trimmed(s).len() > 0 ==> !is_white(trimmed(s)[0]) && !is_white(trimmed(s).last()),
{
    lemma_trim_start_suffix(s);
    lemma_trim_end_prefix(trim_start(s));
    if trimmed(s).len() > 0 {
        assert(trimmed(s)[0] == trim_start(s)[0]);
    }
}

/// Trimming text that is already trimmed changes nothing.
pub proof fn lemma_trimmed_twice(s: Seq<char>)
    ensures
        trimmed(trimmed(s)) == trimmed(s),
{
    lemma_trimmed_ends(s);
}

/// White space is the tab, the line ends, the space and its wider and narrower
/// kinds: no letter, no digit, no mark.
pub proof fn lemma_white(c: char)
    ensures
        is_white(c) <==> c == '\t' || c == '\n' || c == '\u{b}' || c == '\u{c}' || c == '\r' || c
            == ' ' || c == '\u{85}' || c == '\u{a0}' || c == '\u{1680}' || ('\u{2000}' <= c && c
            <= '\u{200a}') || c == '\u{2028}' || c == '\u{2029}' || c == '\u{202f}' || c
            == '\u{205f}' || c == '\u{3000}',
{
}

/// Trimming takes the white space off both ends and nothing else: whatever
/// white space stands around a text that has none at its ends, trimming gives
/// the text itself.
pub proof fn lemma_trimmed_is(before: Seq<char>, s: Seq<char>, after: Seq<char>)
    requires
        forall|i: int| 0 <= i < before.len() ==> is_white(#[trigger] before[i]),
        forall|i: int| 0 <= i < after.len() ==> is_white(#[trigger] after[i]),
        s.len() > 0 ==> !is_white(s[0]) && !is_white(s.last()),
    ensures
        trimmed(before + s + after) == s,
    decreases before.len() + after.len(),
{
    let whole = before + s + after;
    if before.len() > 0 {
        assert(is_white(before[0]));
        assert(whole[0] == before[0]);
        assert(whole.drop_first() =~= before.drop_first() + s + after);
        assert forall|i: int| 0 <= i < before.drop_first().len() implies is_white(
            #[trigger] before.drop_first()[i],
        ) by {
            assert(before.drop_first()[i] == before[i + 1]);
        }
        lemma_trimmed_is(before.drop_first(), s, after);
    } else if s.len() == 0 {
        assert(whole =~= after);
        if after.len() > 0 {
            assert(is_white(after[0]));
            assert(whole.drop_first() =~= before + s + after.drop_first());
            assert forall|i: int| 0 <= i < after.drop_first().len() implies is_white(
                #[trigger] after.drop_first()[i],
            ) by {
                assert(after.drop_first()[i] == after[i + 1]);
            }
            lemma_trimmed_is(before, s, after.drop_first());
        } else {
            assert(whole =~= s);
        }
    } else {
        assert(whole[0] == s[0]);
        assert(trim_start(whole) == whole);
        lemma_trim_end_is(s, after);
        assert(whole =~= s + after);
    }
}

proof fn lemma_trim_end_is(s: Seq<char>, after: Seq<char>)
    requires
        forall|i: int| 0 <= i < after.len() ==> is_white(#[trigger] after[i]),
        s.len() > 0,
        !is_white(s.last()),
    ensures
        trim_end(s + after) == s,
    decreases after.len(),
{
    if after.len() > 0 {
        assert(is_white(after[after.len() - 1]));
        assert((s + after).drop_last() =~= s + after.drop_last());
        assert((s + after).last() == after.last());
        assert forall|i: int| 0 <= i < after.drop_last().len() implies is_white(
            #[trigger] after.drop_last()[i],
        ) by {
            assert(after.drop_last()[i] == after[i]);
        }
        lemma_trim_end_is(s, after.drop_last());
    } else {
        assert(s + after =~= s);
    }
}

/// A number with one digit more is ten times the number and the digit.
pub proof fn lemma_number_digit(s: Seq<char>, d: nat)
    requires
        d < 10,
    ensures
        number(s.push(digit(d))) == 10 * number(s) + d,
        digit(0) == '0',
        digit(9) == '9',
{
    assert(s.push(digit(d)).drop_last() =~= s);
}

/// Two digits are enough for every number below one hundred, and the first of
/// them is a zero below ten.
pub proof fn lemma_two_digits(n: nat)
    ensures
        n < 100 ==> two_digits(n).len() == 2,
        n < 10 ==> two_digits(n)[0] == '0',
        natural(two_digits(n)) == Some(n),
{
    lemma_decimal_round_trip(n);
    if n < 10 {
        lemma_digit(n);
        lemma_digit(0);
        let t = two_digits(n);
        assert(t.drop_last() =~= seq!['0']);
        assert(seq!['0'].drop_last() =~= Seq::<char>::empty());
        reveal_with_fuel(number, 3);
        assert(number(t) == n);
    } else if n < 100 {
        reveal_with_fuel(decimal, 3);
    }
}

/// The letters A to Z become a to z and no other character changes.
pub proof fn lemma_lower_letter(c: char)
    ensures
        'A' <= c && c <= 'Z' ==> ascii_lower_char(c) as u32 - 'a' as u32 == c as u32 - 'A' as u32,
        !('A' <= c && c <= 'Z') ==> ascii_lower_char(c) == c,
        ascii_lower_char(ascii_lower_char(c)) == ascii_lower_char(c),
{
}

/// What is in lower case already stays as it is.
pub proof fn lemma_lower_twice(s: Seq<char>)
    ensures
        ascii_lower(ascii_lower(s)) == ascii_lower(s),
        ascii_lower(s).len() == s.len(),
{
    assert forall|i: int| 0 <= i < s.len() implies ascii_lower(ascii_lower(s))[i] == ascii_lower(
        s,
    )[i] by {
        lemma_lower_letter(s[i]);
    }
    assert(ascii_lower(ascii_lower(s)) =~= ascii_lower(s));
}

/// The first line of a text and the lines of what follows it; a carriage return
/// before the line's end is no part of the line, and a line end at the end of
/// the text begins no line.
pub proof fn lemma_lines(line: Seq<char>, rest: Seq<char>)
    requires
        !line.contains('\n'),
    ensures
        lines(line + seq!['\n'] + rest) == seq![without_return(line)] + lines(rest),
        lines(Seq::empty()).len() == 0,
        line.len() > 0 ==> lines(line) == seq![line],
        without_return(line.push('\r')) == line,
        line.len() > 0 && line.last() != '\r' ==> without_return(line) == line,
{
    let text = line + seq!['\n'] + rest;
    lemma_split_whole(line, '\n');
    lemma_split_append(line, rest, '\n');
    lemma_split_nonempty(rest, '\n');
    let parts = split(text, '\n');
    let more = split(rest, '\n');
    assert(parts =~= seq![line] + more);
    assert(parts.last() == more.last());
    let f = |p: Seq<char>| without_return(p);
    assert(parts.drop_last() =~= seq![line] + more.drop_last());
    assert(parts.drop_last().map_values(f) =~= seq![without_return(line)]
        + more.drop_last().map_values(f));
    assert(lines(text) =~= seq![without_return(line)] + lines(rest));
    assert(line.push('\r').drop_last() =~= line);
    lemma_split_whole(Seq::empty(), '\n');
    assert(lines(Seq::empty()) =~= Seq::<Seq<char>>::empty());
    if line.len() > 0 {
        assert(seq![line].drop_last().map_values(f) =~= Seq::<Seq<char>>::empty());
        assert(lines(line) =~= seq![line]);
    }
}

/// A text is parted at the first place where the character stands.
pub proof fn lemma_split_once(a: Seq<char>, c: char, b: Seq<char>)
    requires
        !a.contains(c),
    ensures
        split_once(a + seq![c] + b, c) == Some((a, b)),
        split_once(a, c) is None,
{
    let s = a + seq![c] + b;
    assert(s[a.len() as int] == c);
    assert(s.contains(c));
    let i = s.index_of_first(c)->0;
    s.index_of_first_ensures(c);
    assert(i == a.len()) by {
        if i < a.len() {
            assert(a[i] == s[i]);
            assert(a.contains(c));
        }
    }
    assert(s.take(i) =~= a);
    assert(s.skip(i + 1) =~= b);
}

/// What holds a character that is no white space is not empty when trimmed.
pub proof fn lemma_trimmed_holds(s: Seq<char>, i: int)
    requires
        0 <= i < s.len(),
        !is_white(s[i]),
    ensures
        trimmed(s).len() > 0,
    decreases s.len(),
{
    if is_white(s[0]) {
        lemma_trimmed_holds(s.drop_first(), i - 1);
    } else {
        lemma_trim_end_holds(s, 0);
    }
}

proof fn lemma_trim_end_holds(s: Seq<char>, i: int)
    requires
        0 <= i < s.len(),
        !is_white(s[i]),
    ensures
        trim_end(s).len() > 0,
    decreases s.len(),
{
    if is_white(s.last()) {
        lemma_trim_end_holds(s.drop_last(), i);
    }
}

/// Only digits make a number, and at least one.
pub proof fn lemma_natural(s: Seq<char>, i: int)
    ensures
        natural(Seq::empty()) is None,
        0 <= i < s.len() && !('0' <= s[i] && s[i] <= '9') ==> natural(s) is None,
        s.len() > 0 && (forall|k: int| 0 <= k < s.len() ==> '0' <= #[trigger] s[k] && s[k] <= '9')
            ==> natural(s) is Some,
{
}

/// A number may have a plus sign before it, a signed one also a minus sign; one
/// beyond its limits does not read.
pub proof fn lemma_signs(n: nat, max: nat)
    ensures
        n <= max ==> unsigned(seq!['+'] + decimal(n), max) == Some(n),
        n > max ==> unsigned(decimal(n), max) is None,
        unsigned(seq!['-'] + decimal(n), max) is None,
        unsigned(Seq::empty(), max) is None,
        signed(seq!['-'] + decimal(n), -(max as int), max as int) == if n <= max {
            Some(-(n as int))
        } else {
            None
        },
{
    lemma_decimal_round_trip(n);
    lemma_decimal_digits(n);
    let d = decimal(n);
    assert(is_digit(d[0]));
    assert((seq!['+'] + d).drop_first() =~= d);
    assert((seq!['-'] + d).drop_first() =~= d);
    assert(!is_digit((seq!['-'] + d)[0]));
}

/// A text occurs in another exactly where the other can be parted into what
/// stands before it, the text itself, and what follows.
pub proof fn lemma_has_infix(a: Seq<char>, p: Seq<char>, b: Seq<char>, s: Seq<char>)
    ensures
        has_infix(a + p + b, p),
        has_infix(s, p) ==> exists|i: int|
            0 <= i <= s.len() - p.len() && s == #[trigger] s.take(i) + p + s.skip(i + p.len()),
        s.len() < p.len() ==> !has_infix(s, p),
{
    let whole = a + p + b;
    let at = a.len() as int;
    assert(whole.subrange(at, at + p.len()) =~= p);
    if has_infix(s, p) {
        let i = choose|i: int|
            0 <= i <= s.len() - p.len() && #[trigger] s.subrange(i, i + p.len()) == p;
        assert(s =~= s.take(i) + p + s.skip(i + p.len()));
    }
}

pub fn is_white_char(c: char) -> (white: bool)
    ensures
        white == is_white(c),
{
    let n: u32 = c as u32;
    (0x9 <= n && n <= 0xd) || n == 0x20 || n == 0x85 || n == 0xa0 || n == 0x1680 || (0x2000 <= n
        && n <= 0x200a) || n == 0x2028 || n == 0x2029 || n == 0x202f || n == 0x205f || n == 0x3000
}

/// The characters of `s`.
pub fn chars(s: &str) -> (v: Vec<char>)
    ensures
        v@ == s@,
{
    let mut v: Vec<char> = Vec::new();
    for c in it: s.chars()
        invariant
            it.seq() == s@,
            v@ == s@.take(it.index()),
    {
        assert(s@.take(it.index() + 1) =~= s@.take(it.index()).push(c));
        v.push(c);
    }
    assert(s@.take(s@.len() as int) =~= s@);
    v
}

/// The text made of `v[from..to]`.
pub fn piece(v: &Vec<char>, from: usize, to: usize) -> (s: String)
    requires
        from <= to <= v@.len(),
    ensures
        s@ == v@.subrange(from as int, to as int),
{
    let mut s = String::new();
    let mut i: usize = from;
    while i < to
        invariant
            from <= i <= to <= v@.len(),
            s@ == v@.subrange(from as int, i as int),
        decreases to - i,
    {
        assert(v@.subrange(from as int, i + 1) =~= v@.subrange(from as int, i as int).push(
            v@[i as int],
        ));
        s.push(v[i]);
        i += 1;
    }
    s
}

/// The text made of all of `v`.
pub fn from_chars(v: &Vec<char>) -> (s: String)
    ensures
        s@ == v@,
{
    assert(v@.subrange(0, v@.len() as int) =~= v@);
    piece(v, 0, v.len())
}

/// Whether the two texts are the same.
pub fn same(a: &str, b: &str) -> (equal: bool)
    ensures
        equal == (a@ == b@),
{
    a.to_owned() == b.to_owned()
}

pub fn trim(s: &str) -> (t: String)
    ensures
        t@ == trimmed(s@),
{
    let v = chars(s);
    let mut i: usize = 0;
    assert(s@.skip(0) =~= s@);
    while i < v.len() && is_white_char(v[i])
        invariant
            v@ == s@,
            0 <= i <= v@.len(),
            trim_start(s@) == trim_start(s@.skip(i as int)),
        decreases v@.len() - i,
    {
        assert(s@.skip(i as int).drop_first() =~= s@.skip(i + 1));
        i += 1;
    }
    let ghost t = s@.skip(i as int);
    assert(trim_start(s@) == t);
    let mut j: usize = v.len();
    assert(t.take(j - i) =~= t);
    while i < j && is_white_char(v[j - 1])
        invariant
            v@ == s@,
            i <= j <= v@.len(),
            t == s@.skip(i as int),
            trim_end(t) == trim_end(t.take(j - i)),
        decreases j - i,
    {
        assert(t.take(j - i).drop_last() =~= t.take(j - 1 - i));
        j -= 1;
    }
    assert(t.take(j - i) =~= v@.subrange(i as int, j as int));
    assert(trim_end(t) == t.take(j - i));
    piece(&v, i, j)
}

/// The pieces of `s` between the occurrences of `c`.
pub fn split_on(s: &str, c: char) -> (parts: Vec<String>)
    ensures
        views(parts@) == split(s@, c),
        parts@.len() > 0,
{
    let v = chars(s);
    let mut parts: Vec<String> = Vec::new();
    let mut current = String::new();
    let mut i: usize = 0;
    assert(s@.take(0) =~= Seq::empty());
    assert(views(parts@).push(current@) =~= split(s@.take(0), c));
    while i < v.len()
        invariant
            v@ == s@,
            0 <= i <= v@.len(),
            views(parts@).push(current@) == split(s@.take(i as int), c),
        decreases v@.len() - i,
    {
        let ghost before = split(s@.take(i as int), c);
        assert(s@.take(i + 1).drop_last() =~= s@.take(i as int));
        assert(before.last() == current@);
        assert(before.drop_last() =~= views(parts@));
        let ghost old_parts = parts@;
        let ghost old_current = current@;
        if v[i] == c {
            parts.push(current);
            current = String::new();
            assert(views(parts@) =~= views(old_parts).push(old_current));
        } else {
            current.push(v[i]);
        }
        assert(views(parts@).push(current@) =~= split(s@.take(i + 1), c));
        i += 1;
    }
    assert(s@.take(v@.len() as int) =~= s@);
    let ghost old_parts = parts@;
    let ghost last = current@;
    parts.push(current);
    assert(views(parts@) =~= views(old_parts).push(last));
    parts
}

/// The lines of `s`, without their line ends.
pub fn lines_of(s: &str) -> (out: Vec<String>)
    ensures
        views(out@) == lines(s@),
{
    let parts = split_on(s, '\n');
    let ghost pieces = split(s@, '\n');
    let mut out: Vec<String> = Vec::new();
    let mut i: usize = 0;
    let last: usize = parts.len() - 1;
    while i < last
        invariant
            views(parts@) == pieces,
            last == parts@.len() - 1,
            0 <= i <= last,
            out@.len() == i,
            forall|k: int| 0 <= k < i ==> #[trigger] out@[k]@ == without_return(pieces[k]),
        decreases last - i,
    {
        assert(pieces[i as int] == parts@[i as int]@);
        let line = chars(parts[i].as_str());
        let n: usize = line.len();
        if n > 0 && line[n - 1] == '\r' {
            assert(line@.subrange(0, n - 1) =~= line@.drop_last());
            out.push(piece(&line, 0, n - 1));
        } else {
            out.push(parts[i].clone());
        }
        i += 1;
    }
    let ghost ended = pieces.drop_last().map_values(|p: Seq<char>| without_return(p));
    assert(views(out@) =~= ended);
    assert(pieces.last() == parts@[last as int]@);
    if !parts[last].as_str().is_empty() {
        let ghost before = out@;
        out.push(parts[last].clone());
        assert(views(out@) =~= views(before).push(pieces.last()));
    }
    out
}

/// The pieces with `sep` between them.
pub fn join_with(parts: &Vec<String>, sep: &str) -> (s: String)
    ensures
        s@ == join(views(parts@), sep@),
{
    let mut s = String::new();
    let mut i: usize = 0;
    assert(views(parts@).take(0) =~= Seq::empty());
    while i < parts.len()
        invariant
            0 <= i <= parts@.len(),
            s@ == join(views(parts@).take(i as int), sep@),
        decreases parts@.len() - i,
    {
        let ghost next = views(parts@).take(i + 1);
        assert(next.drop_last() =~= views(parts@).take(i as int));
        assert(next.last() == parts@[i as int]@);
        if i > 0 {
            s.append(sep);
        } else {
            assert(s@ + parts@[0]@ =~= parts@[0]@);
        }
        s.append(parts[i].as_str());
        i += 1;
    }
    assert(views(parts@).take(parts@.len() as int) =~= views(parts@));
    s
}

/// Where `c` first occurs in `v`.
pub fn find(v: &Vec<char>, c: char) -> (at: Option<usize>)
    ensures
        match at {
            Some(i) => i < v@.len() && v@[i as int] == c && !v@.take(i as int).contains(c)
                && v@.index_of_first(c) == Some(i as int),
            None => !v@.contains(c),
        },
{
    let mut i: usize = 0;
    while i < v.len()
        invariant
            0 <= i <= v@.len(),
            forall|k: int| 0 <= k < i ==> v@[k] != c,
        decreases v@.len() - i,
    {
        if v[i] == c {
            proof {
                v@.index_of_first_ensures(c);
            }
            return Some(i);
        }
        i += 1;
    }
    None
}

/// `s` up to the first `c`, and what follows it.
pub fn split_at_first(s: &str, c: char) -> (parts: Option<(String, String)>)
    ensures
        match parts {
            Some((a, b)) => split_once(s@, c) == Some((a@, b@)),
            None => split_once(s@, c) is None,
        },
{
    let v = chars(s);
    let n: usize = v.len();
    match find(&v, c) {
        Some(i) => {
            assert(v@.subrange(0, i as int) =~= s@.take(i as int));
            assert(v@.subrange(i + 1, v@.len() as int) =~= s@.skip(i + 1));
            assert(s@.contains(c)) by {
                assert(s@[i as int] == c);
            }
            Some((piece(&v, 0, i), piece(&v, i + 1, n)))
        },
        None => None,
    }
}

fn matches_at(v: &Vec<char>, p: &Vec<char>, at: usize) -> (yes: bool)
    requires
        at + p@.len() <= v@.len(),
    ensures
        yes == (v@.subrange(at as int, at + p@.len()) == p@),
{
    let mut k: usize = 0;
    let n: usize = v.len();
    while k < p.len()
        invariant
            n == v@.len(),
            at + p@.len() <= n,
            0 <= k <= p@.len(),
            forall|j: int| 0 <= j < k ==> v@[at + j] == p@[j],
        decreases p@.len() - k,
    {
        if v[at + k] != p[k] {
            assert(v@.subrange(at as int, at + p@.len())[k as int] != p@[k as int]);
            return false;
        }
        k += 1;
    }
    assert(v@.subrange(at as int, at + p@.len()) =~= p@);
    true
}

/// Whether `s` begins with `p`.
pub fn starts_with(s: &str, p: &str) -> (yes: bool)
    ensures
        yes == p@.is_prefix_of(s@),
{
    let v = chars(s);
    let q = chars(p);
    q.len() <= v.len() && matches_at(&v, &q, 0)
}

/// Whether `s` ends with `p`.
pub fn ends_with(s: &str, p: &str) -> (yes: bool)
    ensures
        yes == p@.is_suffix_of(s@),
{
    let v = chars(s);
    let q = chars(p);
    q.len() <= v.len() && matches_at(&v, &q, v.len() - q.len())
}

/// Whether `p` occurs in `s`.
pub fn contains(s: &str, p: &str) -> (yes: bool)
    ensures
        yes == has_infix(s@, p@),
{
    let v = chars(s);
    let q = chars(p);
    if q.len() > v.len() {
        return false;
    }
    let last: usize = v.len() - q.len();
    let mut i: usize = 0;
    while i < last
        invariant
            v@ == s@,
            q@ == p@,
            last == v@.len() - q@.len(),
            0 <= i <= last,
            forall|k: int| 0 <= k < i ==> #[trigger] s@.subrange(k, k + p@.len()) != p@,
        decreases last - i,
    {
        if matches_at(&v, &q, i) {
            return true;
        }
        i += 1;
    }
    matches_at(&v, &q, last)
}

/// `s` without the prefix `p`, if it begins with it.
pub fn strip_prefix(s: &str, p: &str) -> (rest: Option<String>)
    ensures
        match rest {
            Some(r) => p@.is_prefix_of(s@) && r@ == s@.skip(p@.len() as int),
            None => !p@.is_prefix_of(s@),
        },
{
    let v = chars(s);
    let q = chars(p);
    if q.len() <= v.len() && matches_at(&v, &q, 0) {
        assert(v@.subrange(q@.len() as int, v@.len() as int) =~= s@.skip(p@.len() as int));
        Some(piece(&v, q.len(), v.len()))
    } else {
        None
    }
}

/// `s` with the letters A to Z in lower case.
pub fn to_ascii_lower(s: &str) -> (t: String)
    ensures
        t@ == ascii_lower(s@),
{
    let v = chars(s);
    let mut t = String::new();
    let mut i: usize = 0;
    while i < v.len()
        invariant
            v@ == s@,
            0 <= i <= v@.len(),
            t@ == ascii_lower(s@).take(i as int),
        decreases v@.len() - i,
    {
        let c = v[i];
        assert(ascii_lower(s@).take(i + 1) =~= ascii_lower(s@).take(i as int).push(
            ascii_lower_char(c),
        ));
        if 'A' <= c && c <= 'Z' {
            let low: u8 = (c as u32) as u8 + 32;
            t.push(low as char);
        } else {
            t.push(c);
        }
        i += 1;
    }
    assert(ascii_lower(s@).take(v@.len() as int) =~= ascii_lower(s@));
    t
}

fn digit_char(n: u64) -> (c: char)
    requires
        n < 10,
    ensures
        c == digit(n as nat),
{
    let byte: u8 = 48 + n as u8;
    byte as char
}

/// `n` in decimal.
pub fn to_decimal(n: u64) -> (s: String)
    ensures
        s@ == decimal(n as nat),
    decreases n,
{
    let mut s = if n < 10 {
        String::new()
    } else {
        to_decimal(n / 10)
    };
    s.push(digit_char(n % 10));
    assert(n < 10 ==> s@ =~= seq![digit(n as nat)]);
    s
}

/// `n` in decimal, in at least two characters.
pub fn to_two_digits(n: u64) -> (s: String)
    ensures
        s@ == two_digits(n as nat),
{
    if n < 10 {
        let mut s = String::new();
        s.push('0');
        s.push(digit_char(n));
        assert(s@ =~= seq!['0', digit(n as nat)]);
        s
    } else {
        to_decimal(n)
    }
}

/// `n` in decimal, with a sign when it is negative.
pub fn to_signed_decimal(n: i64) -> (s: String)
    ensures
        s@ == signed_decimal(n as int),
{
    if n < 0 {
        let mut s = String::new();
        s.push('-');
        assert(s@ =~= seq!['-']);
        let size: u64 = if n == i64::MIN {
            0x8000_0000_0000_0000
        } else {
            (-n) as u64
        };
        s.append(to_decimal(size).as_str());
        s
    } else {
        to_decimal(n as u64)
    }
}

fn parse_digits(v: &Vec<char>, from: usize, max: u64) -> (n: Option<u64>)
    requires
        from <= v@.len(),
    ensures
        match n {
            Some(k) => natural(v@.skip(from as int)) == Some(k as nat) && k <= max,
            None => natural(v@.skip(from as int)) is None || natural(v@.skip(from as int))->0 > max,
        },
{
    let ghost s = v@.skip(from as int);
    if from == v.len() {
        return None;
    }
    let mut n: u64 = 0;
    let mut i: usize = from;
    assert(s.take(0) =~= Seq::empty());
    while i < v.len()
        invariant
            from <= i <= v@.len(),
            s == v@.skip(from as int),
            n == number(s.take(i - from)),
            n <= max,
            forall|k: int| 0 <= k < i - from ==> is_digit(#[trigger] s[k]),
        decreases v@.len() - i,
    {
        let c = v[i];
        assert(s[i - from] == c);
        if !('0' <= c && c <= '9') {
            assert(!is_digit(s[i - from]));
            return None;
        }
        let d: u64 = c as u64 - 48;
        assert(s.take(i - from + 1).drop_last() =~= s.take(i - from));
        assert(number(s.take(i - from + 1)) == n * 10 + d);
        if n > (u64::MAX - d) / 10 || n * 10 + d > max {
            proof {
                if all_digits(s) {
                    lemma_number_prefix(s, i - from + 1);
                }
            }
            return None;
        }
        n = n * 10 + d;
        i += 1;
    }
    assert(s.take(v@.len() - from) =~= s);
    Some(n)
}

/// Reads an unsigned number of at most `max`.
pub fn parse_unsigned(s: &str, max: u64) -> (n: Option<u64>)
    ensures
        match n {
            Some(k) => unsigned(s@, max as nat) == Some(k as nat),
            None => unsigned(s@, max as nat) is None,
        },
{
    let v = chars(s);
    assert(s@.skip(0) =~= s@);
    if v.len() > 0 && v[0] == '+' {
        assert(s@.skip(1) =~= s@.drop_first());
        parse_digits(&v, 1, max)
    } else {
        parse_digits(&v, 0, max)
    }
}

/// Reads a 64-bit signed number.
pub fn parse_i64(s: &str) -> (n: Option<i64>)
    ensures
        match n {
            Some(k) => signed(s@, i64::MIN as int, i64::MAX as int) == Some(k as int),
            None => signed(s@, i64::MIN as int, i64::MAX as int) is None,
        },
{
    let v = chars(s);
    if v.len() > 0 && v[0] == '-' {
        assert(s@.skip(1) =~= s@.drop_first());
        match parse_digits(&v, 1, 0x8000_0000_0000_0000) {
            Some(n) => if n == 0x8000_0000_0000_0000 {
                Some(i64::MIN)
            } else {
                Some(-(n as i64))
            },
            None => None,
        }
    } else {
        match parse_unsigned(s, i64::MAX as u64) {
            Some(n) => Some(n as i64),
            None => None,
        }
    }
}

} // verus!
