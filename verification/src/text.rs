//! Text utilities over sequences of characters: character classes, searching,
//! trimming, splitting and ASCII case mapping.
use vstd::prelude::*;
use vstd::slice::slice_subrange;

verus! {

/// `char::is_whitespace`: the Unicode `White_Space` property.
pub open spec fn is_unicode_ws(c: char) -> bool {
    let x = c as u32;
    ||| 0x09 <= x <= 0x0d
    ||| x == 0x20
    ||| x == 0x85
    ||| x == 0xa0
    ||| x == 0x1680
    ||| 0x2000 <= x <= 0x200a
    ||| x == 0x2028
    ||| x == 0x2029
    ||| x == 0x202f
    ||| x == 0x205f
    ||| x == 0x3000
}

/// `char::is_ascii_whitespace`: space, tab, line feed, form feed, carriage return.
pub open spec fn is_ascii_ws(c: char) -> bool {
    let x = c as u32;
    x == 0x20 || x == 0x09 || x == 0x0a || x == 0x0c || x == 0x0d
}

pub open spec fn is_ascii_digit(c: char) -> bool {
    '0' <= c <= '9'
}

pub open spec fn is_ascii_alnum(c: char) -> bool {
    ||| '0' <= c <= '9'
    ||| 'a' <= c <= 'z'
    ||| 'A' <= c <= 'Z'
}

/// `char::to_ascii_lowercase`.
pub open spec fn ascii_lower(c: char) -> char {
    if 'A' <= c <= 'Z' {
        ((c as u32) + 32) as char
    } else {
        c
    }
}

/// `char::to_ascii_uppercase`.
pub open spec fn ascii_upper(c: char) -> char {
    if 'a' <= c <= 'z' {
        ((c as u32) - 32) as char
    } else {
        c
    }
}

pub open spec fn lower_seq(s: Seq<char>) -> Seq<char> {
    s.map_values(|c: char| ascii_lower(c))
}

pub open spec fn upper_seq(s: Seq<char>) -> Seq<char> {
    s.map_values(|c: char| ascii_upper(c))
}

/// Sets of characters that the scanners search for.
#[derive(Clone, Copy)]
pub enum CharClass {
    /// Unicode whitespace.
    Ws,
    /// ASCII whitespace.
    AsciiWs,
    /// Exactly this character.
    Is(char),
    /// Either of these two characters.
    Either(char, char),
    /// ASCII whitespace or one of `/ ? # : @ $ ^ | *`: what ends a leading domain.
    DomainEnd,
    /// ASCII whitespace or one of `/ ? # : | $`: what ends an URL host.
    HostEnd,
    /// ASCII whitespace or one of `^ $ / ? # :`: what ends a `||domain` in an exception.
    PatternEnd,
    /// One of `/ ? # :`: what an URL may not hold after its host.
    UrlPart,
}

pub open spec fn in_class(k: CharClass, c: char) -> bool {
    match k {
        CharClass::Ws => is_unicode_ws(c),
        CharClass::AsciiWs => is_ascii_ws(c),
        CharClass::Is(x) => c == x,
        CharClass::Either(x, y) => c == x || c == y,
        CharClass::DomainEnd => is_ascii_ws(c) || c == '/' || c == '?' || c == '#' || c == ':'
            || c == '@' || c == '$' || c == '^' || c == '|' || c == '*',
        CharClass::HostEnd => is_ascii_ws(c) || c == '/' || c == '?' || c == '#' || c == ':'
            || c == '|' || c == '$',
        CharClass::PatternEnd => is_ascii_ws(c) || c == '^' || c == '$' || c == '/' || c == '?'
            || c == '#' || c == ':',
        CharClass::UrlPart => c == '/' || c == '?' || c == '#' || c == ':',
    }
}

/// Index of the first character of `s` in class `k`, or `s.len()` when there is none.
pub open spec fn first_in(s: Seq<char>, k: CharClass) -> int
    decreases s.len(),
{
    if s.len() == 0 {
        0
    } else if in_class(k, s[0]) {
        0
    } else {
        1 + first_in(s.drop_first(), k)
    }
}

/// Whether some character of `s` is in class `k`.
pub open spec fn has_in(s: Seq<char>, k: CharClass) -> bool {
    exists|i: int| 0 <= i < s.len() && in_class(k, #[trigger] s[i])
}

/// `s` without its leading characters of class `k` (`trim_start_matches`).
pub open spec fn skip_leading(s: Seq<char>, k: CharClass) -> Seq<char>
    decreases s.len(),
{
    if s.len() > 0 && in_class(k, s[0]) {
        skip_leading(s.drop_first(), k)
    } else {
        s
    }
}

/// `s` without its trailing characters of class `k` (`trim_end_matches`).
pub open spec fn skip_trailing(s: Seq<char>, k: CharClass) -> Seq<char>
    decreases s.len(),
{
    if s.len() > 0 && in_class(k, s.last()) {
        skip_trailing(s.drop_last(), k)
    } else {
        s
    }
}

/// `str::trim`: leading and trailing Unicode whitespace removed.
pub open spec fn trim(s: Seq<char>) -> Seq<char> {
    skip_trailing(skip_leading(s, CharClass::Ws), CharClass::Ws)
}

/// The pieces of `s` between characters of class `k` (`str::split`): one more
/// piece than there are separators; pieces may be empty.
pub open spec fn split_on(s: Seq<char>, k: CharClass) -> Seq<Seq<char>>
    decreases s.len(),
{
    let i = first_in(s, k);
    if i >= s.len() {
        seq![s]
    } else {
        proof {
            lemma_first_in_bounds(s, k);
        }
        seq![s.subrange(0, i)] + split_on(s.subrange(i + 1, s.len() as int), k)
    }
}

pub open spec fn starts_with(s: Seq<char>, p: Seq<char>) -> bool {
    p.len() <= s.len() && s.subrange(0, p.len() as int) == p
}

pub open spec fn ends_with(s: Seq<char>, p: Seq<char>) -> bool {
    p.len() <= s.len() && s.subrange(s.len() - p.len(), s.len() as int) == p
}

/// Whether `p` occurs in `s` as a contiguous piece.
pub open spec fn contains_seq(s: Seq<char>, p: Seq<char>) -> bool {
    exists|i: int| 0 <= i <= s.len() - p.len() && #[trigger] s.subrange(i, i + p.len()) == p
}

/// The number of bytes of the UTF-8 encoding of `c`.
pub open spec fn utf8_width(c: char) -> int {
    let x = c as u32;
    if x < 0x80 {
        1
    } else if x < 0x800 {
        2
    } else if x < 0x1_0000 {
        3
    } else {
        4
    }
}

/// The number of bytes of the UTF-8 encoding of `s` (`str::len`).
pub open spec fn utf8_len(s: Seq<char>) -> int
    decreases s.len(),
{
    if s.len() == 0 {
        0
    } else {
        utf8_len(s.drop_last()) + utf8_width(s.last())
    }
}

pub proof fn lemma_first_in_bounds(s: Seq<char>, k: CharClass)
    ensures
        0 <= first_in(s, k) <= s.len(),
        first_in(s, k) < s.len() ==> in_class(k, s[first_in(s, k)]),
        forall|j: int| 0 <= j < first_in(s, k) ==> !in_class(k, #[trigger] s[j]),
    decreases s.len(),
{
    if s.len() > 0 && !in_class(k, s[0]) {
        lemma_first_in_bounds(s.drop_first(), k);
        assert forall|j: int| 0 <= j < first_in(s, k) implies !in_class(k, #[trigger] s[j]) by {
            if j > 0 {
                assert(s[j] == s.drop_first()[j - 1]);
            }
        }
    }
}

/// Characterises `first_in` by the index it returns.
pub proof fn lemma_first_in_is(s: Seq<char>, k: CharClass, i: int)
    requires
        0 <= i <= s.len(),
        forall|j: int| 0 <= j < i ==> !in_class(k, #[trigger] s[j]),
        i == s.len() || in_class(k, s[i]),
    ensures
        first_in(s, k) == i,
    decreases s.len(),
{
    if s.len() > 0 && i > 0 {
        assert(!in_class(k, s[0]));
        assert forall|j: int| 0 <= j < i - 1 implies !in_class(k, #[trigger] s.drop_first()[j]) by {
            assert(s.drop_first()[j] == s[j + 1]);
        }
        lemma_first_in_is(s.drop_first(), k, i - 1);
    }
}

/// Splitting at a separator: the pieces of the text before it, then those of
/// the text after it.
pub proof fn lemma_split_on_join(a: Seq<char>, sep: char, b: Seq<char>)
    ensures
        split_on(a + seq![sep] + b, CharClass::Is(sep)) == split_on(a, CharClass::Is(sep))
            + split_on(b, CharClass::Is(sep)),
    decreases a.len(),
{
    let k = CharClass::Is(sep);
    let s = a + seq![sep] + b;
    lemma_first_in_bounds(a, k);
    let i = first_in(a, k);
    if i >= a.len() {
        assert forall|j: int| 0 <= j < a.len() implies !in_class(k, #[trigger] s[j]) by {
            assert(s[j] == a[j]);
        }
        assert(s[a.len() as int] == sep);
        lemma_first_in_is(s, k, a.len() as int);
        assert(s.subrange(0, a.len() as int) =~= a);
        assert(s.subrange(a.len() as int + 1, s.len() as int) =~= b);
    } else {
        assert forall|j: int| 0 <= j < i implies !in_class(k, #[trigger] s[j]) by {
            assert(s[j] == a[j]);
        }
        assert(s[i] == a[i]);
        lemma_first_in_is(s, k, i);
        let rest = a.subrange(i + 1, a.len() as int);
        lemma_split_on_join(rest, sep, b);
        assert(s.subrange(0, i) =~= a.subrange(0, i));
        assert(s.subrange(i + 1, s.len() as int) =~= rest + seq![sep] + b);
        assert(seq![a.subrange(0, i)] + split_on(rest, k) + split_on(b, k) =~= seq![
            a.subrange(0, i),
        ] + (split_on(rest, k) + split_on(b, k)));
    }
}

/// A text without the separator is a single piece.
pub proof fn lemma_split_on_single(a: Seq<char>, sep: char)
    requires
        !a.contains(sep),
    ensures
        split_on(a, CharClass::Is(sep)) == seq![a],
{
    let k = CharClass::Is(sep);
    assert forall|j: int| 0 <= j < a.len() implies !in_class(k, #[trigger] a[j]) by {
        if a[j] == sep {
            assert(a.contains(sep));
        }
    }
    lemma_first_in_is(a, k, a.len() as int);
}

pub proof fn lemma_has_in_first(s: Seq<char>, k: CharClass)
    ensures
        has_in(s, k) <==> first_in(s, k) < s.len(),
{
    lemma_first_in_bounds(s, k);
}

/// Whether `c` is in class `k`.
pub fn class_contains(k: CharClass, c: char) -> (r: bool)
    ensures
        r == in_class(k, c),
{
    let x = c as u32;
    let ascii_ws = x == 0x20 || x == 0x09 || x == 0x0a || x == 0x0c || x == 0x0d;
    match k {
        CharClass::Ws => {
            (0x09 <= x && x <= 0x0d) || x == 0x20 || x == 0x85 || x == 0xa0 || x == 0x1680 || (
            0x2000 <= x && x <= 0x200a) || x == 0x2028 || x == 0x2029 || x == 0x202f || x
                == 0x205f || x == 0x3000
        },
        CharClass::AsciiWs => ascii_ws,
        CharClass::Is(y) => c == y,
        CharClass::Either(y, z) => c == y || c == z,
        CharClass::DomainEnd => ascii_ws || c == '/' || c == '?' || c == '#' || c == ':' || c
            == '@' || c == '$' || c == '^' || c == '|' || c == '*',
        CharClass::HostEnd => ascii_ws || c == '/' || c == '?' || c == '#' || c == ':' || c == '|'
            || c == '$',
        CharClass::PatternEnd => ascii_ws || c == '^' || c == '$' || c == '/' || c == '?' || c
            == '#' || c == ':',
        CharClass::UrlPart => c == '/' || c == '?' || c == '#' || c == ':',
    }
}

/// Index of the first character of `s` in class `k`, or `s.len()`.
pub fn find_first(s: &[char], k: CharClass) -> (r: usize)
    ensures
        r as int == first_in(s@, k),
        r <= s@.len(),
{
    let mut i: usize = 0;
    while i < s.len()
        invariant
            i <= s@.len(),
            forall|j: int| 0 <= j < i ==> !in_class(k, #[trigger] s@[j]),
        decreases s@.len() - i,
    {
        if class_contains(k, s[i]) {
            proof {
                lemma_first_in_is(s@, k, i as int);
            }
            return i;
        }
        i = i + 1;
    }
    proof {
        lemma_first_in_is(s@, k, i as int);
    }
    i
}

/// Whether some character of `s` is in class `k`.
pub fn contains_class(s: &[char], k: CharClass) -> (r: bool)
    ensures
        r == has_in(s@, k),
{
    let i = find_first(s, k);
    proof {
        lemma_has_in_first(s@, k);
    }
    i < s.len()
}

/// Index of the last character of `s` in class `k`, when there is one.
pub fn find_last(s: &[char], k: CharClass) -> (r: Option<usize>)
    ensures
        r matches Some(i) ==> i < s@.len() && in_class(k, s@[i as int]) && forall|j: int|
            i < j < s@.len() ==> !in_class(k, #[trigger] s@[j]),
        r is None ==> forall|j: int| 0 <= j < s@.len() ==> !in_class(k, #[trigger] s@[j]),
{
    let mut i: usize = s.len();
    while i > 0
        invariant
            i <= s@.len(),
            forall|j: int| i <= j < s@.len() ==> !in_class(k, #[trigger] s@[j]),
        decreases i,
    {
        if class_contains(k, s[i - 1]) {
            return Some(i - 1);
        }
        i = i - 1;
    }
    None
}

proof fn lemma_skip_leading_step(s: Seq<char>, k: CharClass, i: int)
    requires
        0 <= i < s.len(),
        in_class(k, s[i]),
    ensures
        skip_leading(s.subrange(i, s.len() as int), k) == skip_leading(
            s.subrange(i + 1, s.len() as int),
            k,
        ),
{
    assert(s.subrange(i, s.len() as int).drop_first() =~= s.subrange(i + 1, s.len() as int));
}

proof fn lemma_skip_trailing_step(s: Seq<char>, k: CharClass, i: int)
    requires
        0 < i <= s.len(),
        in_class(k, s[i - 1]),
    ensures
        skip_trailing(s.subrange(0, i), k) == skip_trailing(s.subrange(0, i - 1), k),
{
    assert(s.subrange(0, i).drop_last() =~= s.subrange(0, i - 1));
}

/// The index where `skip_leading(s, k)` starts.
pub fn skip_leading_index(s: &[char], k: CharClass) -> (r: usize)
    ensures
        r <= s@.len(),
        s@.subrange(r as int, s@.len() as int) == skip_leading(s@, k),
{
    let mut i: usize = 0;
    assert(s@.subrange(0, s@.len() as int) =~= s@);
    while i < s.len() && class_contains(k, s[i])
        invariant
            i <= s@.len(),
            skip_leading(s@.subrange(i as int, s@.len() as int), k) == skip_leading(s@, k),
        decreases s@.len() - i,
    {
        proof {
            lemma_skip_leading_step(s@, k, i as int);
        }
        i = i + 1;
    }
    i
}

/// The index where `skip_trailing(s, k)` ends.
pub fn skip_trailing_index(s: &[char], k: CharClass) -> (r: usize)
    ensures
        r <= s@.len(),
        s@.subrange(0, r as int) == skip_trailing(s@, k),
{
    let mut i: usize = s.len();
    assert(s@.subrange(0, s@.len() as int) =~= s@);
    while i > 0 && class_contains(k, s[i - 1])
        invariant
            i <= s@.len(),
            skip_trailing(s@.subrange(0, i as int), k) == skip_trailing(s@, k),
        decreases i,
    {
        proof {
            lemma_skip_trailing_step(s@, k, i as int);
        }
        i = i - 1;
    }
    i
}

/// `s` with leading characters of class `k` removed.
pub fn skip_leading_slice(s: &[char], k: CharClass) -> (r: &[char])
    ensures
        r@ == skip_leading(s@, k),
{
    let i = skip_leading_index(s, k);
    slice_subrange(s, i, s.len())
}

/// `s` with trailing characters of class `k` removed.
pub fn skip_trailing_slice(s: &[char], k: CharClass) -> (r: &[char])
    ensures
        r@ == skip_trailing(s@, k),
{
    let i = skip_trailing_index(s, k);
    slice_subrange(s, 0, i)
}

/// `str::trim`.
pub fn trim_slice(s: &[char]) -> (r: &[char])
    ensures
        r@ == trim(s@),
{
    let a = skip_leading_slice(s, CharClass::Ws);
    skip_trailing_slice(a, CharClass::Ws)
}

/// Whether `s` and `t` hold the same characters.
pub fn eq_chars(s: &[char], t: &[char]) -> (r: bool)
    ensures
        r == (s@ == t@),
{
    if s.len() != t.len() {
        return false;
    }
    let mut i: usize = 0;
    while i < s.len()
        invariant
            s@.len() == t@.len(),
            i <= s@.len(),
            forall|j: int| 0 <= j < i ==> s@[j] == t@[j],
        decreases s@.len() - i,
    {
        if s[i] != t[i] {
            return false;
        }
        i = i + 1;
    }
    assert(s@ =~= t@);
    true
}

/// Whether `s` begins with `p`.
pub fn starts_with_chars(s: &[char], p: &[char]) -> (r: bool)
    ensures
        r == starts_with(s@, p@),
{
    if p.len() > s.len() {
        return false;
    }
    eq_chars(slice_subrange(s, 0, p.len()), p)
}

/// Whether `s` ends with `p`.
pub fn ends_with_chars(s: &[char], p: &[char]) -> (r: bool)
    ensures
        r == ends_with(s@, p@),
{
    if p.len() > s.len() {
        return false;
    }
    eq_chars(slice_subrange(s, s.len() - p.len(), s.len()), p)
}

/// Whether `p` occurs in `s`.
pub fn contains_chars(s: &[char], p: &[char]) -> (r: bool)
    ensures
        r == contains_seq(s@, p@),
{
    if p.len() > s.len() {
        return false;
    }
    if p.len() == 0 {
        assert(s@.subrange(0int, 0int + p@.len()) =~= p@);
        return true;
    }
    let mut i: usize = 0;
    while i <= s.len() - p.len()
        invariant
            1 <= p@.len() <= s@.len(),
            i <= s@.len() - p@.len() + 1,
            forall|j: int| 0 <= j < i ==> #[trigger] s@.subrange(j, j + p@.len()) != p@,
        decreases s@.len() - p@.len() + 1 - i,
    {
        if eq_chars(slice_subrange(s, i, i + p.len()), p) {
            return true;
        }
        i = i + 1;
    }
    false
}

/// `str::to_ascii_lowercase`.
pub fn to_lower(s: &[char]) -> (r: Vec<char>)
    ensures
        r@ == lower_seq(s@),
{
    let mut r: Vec<char> = Vec::new();
    let mut i: usize = 0;
    while i < s.len()
        invariant
            i <= s@.len(),
            r@ == lower_seq(s@.subrange(0, i as int)),
        decreases s@.len() - i,
    {
        let c = s[i];
        let d = if 'A' <= c && c <= 'Z' {
            char_from_code((c as u32) + 32)
        } else {
            c
        };
        r.push(d);
        i = i + 1;
        assert(r@ =~= lower_seq(s@.subrange(0, i as int)));
    }
    assert(s@.subrange(0, s@.len() as int) =~= s@);
    r
}

/// `str::to_ascii_uppercase`.
pub fn to_upper(s: &[char]) -> (r: Vec<char>)
    ensures
        r@ == upper_seq(s@),
{
    let mut r: Vec<char> = Vec::new();
    let mut i: usize = 0;
    while i < s.len()
        invariant
            i <= s@.len(),
            r@ == upper_seq(s@.subrange(0, i as int)),
        decreases s@.len() - i,
    {
        let c = s[i];
        let d = if 'a' <= c && c <= 'z' {
            char_from_code((c as u32) - 32)
        } else {
            c
        };
        r.push(d);
        i = i + 1;
        assert(r@ =~= upper_seq(s@.subrange(0, i as int)));
    }
    assert(s@.subrange(0, s@.len() as int) =~= s@);
    r
}

/// The ASCII character with code `x`.
fn char_from_code(x: u32) -> (c: char)
    requires
        x < 128,
    ensures
        c as u32 == x,
        c == x as char,
{
    (x as u8) as char
}

/// Whether the UTF-8 encoding of `s` is shorter than `n` bytes.
pub fn utf8_len_below(s: &[char], n: usize) -> (r: bool)
    ensures
        r == (utf8_len(s@) < n),
{
    if n == 0 {
        proof {
            lemma_utf8_len_prefix_monotone(s@, 0);
            assert(s@.subrange(0, 0) =~= Seq::<char>::empty());
        }
        return false;
    }
    let mut total: usize = 0;
    let mut i: usize = 0;
    assert(s@.subrange(0, 0) =~= Seq::<char>::empty());
    while i < s.len()
        invariant
            i <= s@.len(),
            total == utf8_len(s@.subrange(0, i as int)),
            total < n,
        decreases s@.len() - i,
    {
        let x = s[i] as u32;
        let w: usize = if x < 0x80 {
            1
        } else if x < 0x800 {
            2
        } else if x < 0x1_0000 {
            3
        } else {
            4
        };
        assert(s@.subrange(0, i + 1).drop_last() =~= s@.subrange(0, i as int));
        proof {
            lemma_utf8_len_prefix_monotone(s@, i as int + 1);
        }
        if w >= n - total {
            return false;
        }
        total = total + w;
        i = i + 1;
    }
    assert(s@.subrange(0, s@.len() as int) =~= s@);
    true
}

proof fn lemma_utf8_width_pos(c: char)
    ensures
        1 <= utf8_width(c) <= 4,
{
}

/// Longer prefixes have longer encodings.
proof fn lemma_utf8_len_prefix_monotone(s: Seq<char>, i: int)
    requires
        0 <= i <= s.len(),
    ensures
        utf8_len(s.subrange(0, i)) <= utf8_len(s),
    decreases s.len() - i,
{
    if i < s.len() {
        lemma_utf8_len_prefix_monotone(s, i + 1);
        assert(s.subrange(0, i + 1).drop_last() =~= s.subrange(0, i));
        lemma_utf8_width_pos(s[i]);
    } else {
        assert(s.subrange(0, i) =~= s);
    }
}

/// The ranges of the pieces of `s` between characters of class `k`.
pub fn split_ranges(s: &[char], k: CharClass) -> (r: Vec<(usize, usize)>)
    ensures
        r@.len() == split_on(s@, k).len(),
        forall|j: int|
            0 <= j < r@.len() ==> #[trigger] r@[j].0 <= r@[j].1 <= s@.len() && s@.subrange(
                r@[j].0 as int,
                r@[j].1 as int,
            ) == split_on(s@, k)[j],
{
    let mut r: Vec<(usize, usize)> = Vec::new();
    let mut pos: usize = 0;
    let ghost mut done: Seq<Seq<char>> = seq![];
    assert(s@.subrange(0, s@.len() as int) =~= s@);
    loop
        invariant
            pos <= s@.len(),
            r@.len() == done.len(),
            forall|j: int|
                0 <= j < r@.len() ==> #[trigger] r@[j].0 <= r@[j].1 <= s@.len() && s@.subrange(
                    r@[j].0 as int,
                    r@[j].1 as int,
                ) == done[j],
            done + split_on(s@.subrange(pos as int, s@.len() as int), k) == split_on(s@, k),
        decreases s@.len() - pos,
    {
        let rest = slice_subrange(s, pos, s.len());
        let i = find_first(rest, k);
        if i >= rest.len() {
            r.push((pos, s.len()));
            proof {
                done = done.push(rest@);
                assert(split_on(rest@, k) == seq![rest@]);
                assert(done =~= split_on(s@, k));
            }
            return r;
        }
        r.push((pos, pos + i));
        proof {
            let piece = rest@.subrange(0, i as int);
            assert(piece =~= s@.subrange(pos as int, (pos + i) as int));
            assert(rest@.subrange(i + 1, rest@.len() as int) =~= s@.subrange(
                (pos + i + 1) as int,
                s@.len() as int,
            ));
            assert(split_on(rest@, k) == seq![piece] + split_on(
                rest@.subrange(i + 1, rest@.len() as int),
                k,
            ));
            done = done.push(piece);
            assert(done + split_on(s@.subrange((pos + i + 1) as int, s@.len() as int), k)
                =~= split_on(s@, k));
        }
        pos = pos + i + 1;
    }
}


/// `skip_leading` keeps a suffix, which starts outside the class.
pub proof fn lemma_skip_leading_shape(s: Seq<char>, k: CharClass)
    ensures
        skip_leading(s, k).len() <= s.len(),
        skip_leading(s, k) == s.subrange(s.len() - skip_leading(s, k).len(), s.len() as int),
        skip_leading(s, k).len() > 0 ==> !in_class(k, skip_leading(s, k)[0]),
    decreases s.len(),
{
    if s.len() > 0 && in_class(k, s[0]) {
        lemma_skip_leading_shape(s.drop_first(), k);
        let r = skip_leading(s.drop_first(), k);
        assert(s.drop_first().subrange(s.len() - 1 - r.len(), s.len() - 1) =~= s.subrange(
            s.len() - r.len(),
            s.len() as int,
        ));
    } else {
        assert(s.subrange(0, s.len() as int) =~= s);
    }
}

/// `skip_trailing` keeps a prefix, which ends outside the class.
pub proof fn lemma_skip_trailing_shape(s: Seq<char>, k: CharClass)
    ensures
        skip_trailing(s, k).len() <= s.len(),
        skip_trailing(s, k) == s.subrange(0, skip_trailing(s, k).len() as int),
        skip_trailing(s, k).len() > 0 ==> !in_class(k, skip_trailing(s, k).last()),
    decreases s.len(),
{
    if s.len() > 0 && in_class(k, s.last()) {
        lemma_skip_trailing_shape(s.drop_last(), k);
        let r = skip_trailing(s.drop_last(), k);
        assert(s.drop_last().subrange(0, r.len() as int) =~= s.subrange(0, r.len() as int));
    } else {
        assert(s.subrange(0, s.len() as int) =~= s);
    }
}

/// A sequence that neither starts nor ends in the class is left alone.
pub proof fn lemma_skip_noop(s: Seq<char>, k: CharClass)
    ensures
        (s.len() == 0 || !in_class(k, s[0])) ==> skip_leading(s, k) == s,
        (s.len() == 0 || !in_class(k, s.last())) ==> skip_trailing(s, k) == s,
{
}

/// ASCII lower-casing twice is lower-casing once.
pub proof fn lemma_lower_idempotent(s: Seq<char>)
    ensures
        lower_seq(lower_seq(s)) == lower_seq(s),
{
    assert(lower_seq(lower_seq(s)) =~= lower_seq(s));
}

/// ASCII upper-casing twice is upper-casing once.
pub proof fn lemma_upper_idempotent(s: Seq<char>)
    ensures
        upper_seq(upper_seq(s)) == upper_seq(s),
{
    assert(upper_seq(upper_seq(s)) =~= upper_seq(s));
}

/// ASCII upper-casing keeps whitespace whitespace and other characters not.
pub proof fn lemma_upper_keeps_ws(c: char)
    ensures
        is_unicode_ws(ascii_upper(c)) == is_unicode_ws(c),
{
}

/// A trimmed sequence that is not empty starts and ends outside whitespace.
pub proof fn lemma_trim_ends(s: Seq<char>)
    ensures
        trim(s).len() > 0 ==> !is_unicode_ws(trim(s)[0]) && !is_unicode_ws(trim(s).last()),
{
    let a = skip_leading(s, CharClass::Ws);
    lemma_skip_leading_shape(s, CharClass::Ws);
    lemma_skip_trailing_shape(a, CharClass::Ws);
    if trim(s).len() > 0 {
        assert(trim(s)[0] == a[0]);
    }
}

/// The characters of `s`, in order.
pub fn chars_of(s: &str) -> (r: Vec<char>)
    ensures
        r@ == s@,
{
    let mut v: Vec<char> = Vec::new();
    for c in it: s.chars()
        invariant
            v@ == it.seq().take(it.index()),
            it.seq() == s@,
    {
        broadcast use vstd::string::axiom_spec_iter;

        v.push(c);
    }
    v
}

/// Collects `chars` into a `String` (`String::from_iter`, std). Claimed: the
/// string holds exactly these characters in this order.
#[verifier::external_body]
pub(crate) fn string_from_chars(chars: &[char]) -> (r: String)
    ensures
        r@ == chars@,
{
    String::from_iter(chars.iter())
}

/// The characters that `String::from_utf8_lossy` decodes `bytes` into.
pub uninterp spec fn utf8_lossy(bytes: Seq<u8>) -> Seq<char>;

/// Decodes `bytes` with `String::from_utf8_lossy` (std), replacing each invalid
/// sequence with U+FFFD. Claimed: the result is that function of the bytes, and
/// valid UTF-8 is decoded as is.
#[verifier::external_body]
pub(crate) fn from_utf8_lossy(bytes: &[u8]) -> (r: String)
    ensures
        r@ == utf8_lossy(bytes@),
        vstd::utf8::valid_utf8(bytes@) ==> r@ == vstd::utf8::decode_utf8(bytes@),
{
    String::from_utf8_lossy(bytes).into_owned()
}

} // verus!
