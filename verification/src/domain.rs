//! DNS domain syntax: labels, dotted names, and the dotted-quad IPv4 form that
//! a domain may not take.
use vstd::prelude::*;
use vstd::slice::slice_subrange;

use crate::text::{
    ascii_lower, first_in, lemma_first_in_bounds, lemma_first_in_is, lemma_has_in_first, lower_seq,
    utf8_width, in_class, contains_class, ends_with, ends_with_chars, eq_chars, has_in, is_ascii_alnum, is_ascii_digit,
    split_on, split_ranges, utf8_len, utf8_len_below, CharClass,
};

verus! {

pub open spec fn is_label_char(c: char) -> bool {
    is_ascii_alnum(c) || c == '-'
}

/// A DNS label: 1 to 63 letters, digits or hyphens, starting and ending with a
/// letter or digit.
pub open spec fn valid_label(l: Seq<char>) -> bool {
    &&& 1 <= l.len() <= 63
    &&& is_ascii_alnum(l[0])
    &&& is_ascii_alnum(l.last())
    &&& forall|i: int| 0 <= i < l.len() ==> is_label_char(#[trigger] l[i])
}

/// The value of a string of decimal digits.
pub open spec fn decimal_value(l: Seq<char>) -> int
    decreases l.len(),
{
    if l.len() == 0 {
        0
    } else {
        decimal_value(l.drop_last()) * 10 + ((l.last() as u32) - ('0' as u32))
    }
}

/// One part of a dotted-quad IPv4 address as `Ipv4Addr`'s parser accepts it:
/// one to three digits, no leading zero unless the part is `0`, value at most 255.
pub open spec fn is_ipv4_part(l: Seq<char>) -> bool {
    &&& 1 <= l.len() <= 3
    &&& forall|i: int| 0 <= i < l.len() ==> is_ascii_digit(#[trigger] l[i])
    &&& (l.len() == 1 || l[0] != '0')
    &&& decimal_value(l) <= 255
}

/// Text that `str::parse::<Ipv4Addr>` accepts: four parts separated by dots.
pub open spec fn is_ipv4_text(s: Seq<char>) -> bool {
    let parts = split_on(s, CharClass::Is('.'));
    &&& parts.len() == 4
    &&& forall|i: int| 0 <= i < 4 ==> is_ipv4_part(#[trigger] parts[i])
}

/// A domain name: it holds a dot, is at most 253 bytes long, is not an IPv4
/// address, and every dot-separated piece is a valid label. (An IPv6 address
/// always holds a colon, which no label admits, so it can never pass.)
pub open spec fn valid_dns_domain(s: Seq<char>) -> bool {
    &&& has_in(s, CharClass::Is('.'))
    &&& utf8_len(s) <= 253
    &&& !is_ipv4_text(s)
    &&& forall|i: int|
        0 <= i < split_on(s, CharClass::Is('.')).len() ==> valid_label(
            #[trigger] split_on(s, CharClass::Is('.'))[i],
        )
}

/// A line that is nothing but a domain: no whitespace or rule syntax at all.
pub open spec fn bare_domain(s: Seq<char>) -> bool {
    !has_in(s, CharClass::DomainEnd) && valid_dns_domain(s)
}

/// `domain` is `base` or a name below it.
pub open spec fn equal_or_subdomain(domain: Seq<char>, base: Seq<char>) -> bool {
    ||| domain == base
    ||| (ends_with(domain, base) && ends_with(
        domain.subrange(0, domain.len() - base.len()),
        seq!['.'],
    ))
}

fn is_alnum(c: char) -> (r: bool)
    ensures
        r == is_ascii_alnum(c),
{
    ('0' <= c && c <= '9') || ('a' <= c && c <= 'z') || ('A' <= c && c <= 'Z')
}

fn label_ok(l: &[char]) -> (r: bool)
    ensures
        r == valid_label(l@),
{
    if l.len() < 1 || l.len() > 63 {
        return false;
    }
    if !is_alnum(l[0]) || !is_alnum(l[l.len() - 1]) {
        return false;
    }
    let mut i: usize = 0;
    while i < l.len()
        invariant
            i <= l@.len(),
            forall|j: int| 0 <= j < i ==> is_label_char(#[trigger] l@[j]),
        decreases l@.len() - i,
    {
        if !(is_alnum(l[i]) || l[i] == '-') {
            return false;
        }
        i = i + 1;
    }
    true
}

fn ipv4_part_ok(l: &[char]) -> (r: bool)
    ensures
        r == is_ipv4_part(l@),
{
    if l.len() < 1 || l.len() > 3 {
        return false;
    }
    let mut v: u32 = 0;
    let mut i: usize = 0;
    while i < l.len()
        invariant
            1 <= l@.len() <= 3,
            i <= l@.len(),
            forall|j: int| 0 <= j < i ==> is_ascii_digit(#[trigger] l@[j]),
            v == decimal_value(l@.subrange(0, i as int)),
            v < 1000,
            i == 0 ==> v == 0,
            i == 1 ==> v < 10,
            i == 2 ==> v < 100,
        decreases l@.len() - i,
    {
        let c = l[i];
        if !('0' <= c && c <= '9') {
            return false;
        }
        assert(l@.subrange(0, i + 1).drop_last() =~= l@.subrange(0, i as int));
        v = v * 10 + ((c as u32) - ('0' as u32));
        i = i + 1;
    }
    assert(l@.subrange(0, l@.len() as int) =~= l@);
    if l.len() > 1 && l[0] == '0' {
        return false;
    }
    v <= 255
}

/// Whether `str::parse::<Ipv4Addr>` accepts `s`.
pub fn ipv4_text(s: &[char]) -> (r: bool)
    ensures
        r == is_ipv4_text(s@),
{
    let parts = split_ranges(s, CharClass::Is('.'));
    if parts.len() != 4 {
        return false;
    }
    let mut i: usize = 0;
    while i < 4
        invariant
            parts@.len() == 4,
            split_on(s@, CharClass::Is('.')).len() == 4,
            i <= 4,
            forall|j: int|
                0 <= j < parts@.len() ==> #[trigger] parts@[j].0 <= parts@[j].1 <= s@.len()
                    && s@.subrange(parts@[j].0 as int, parts@[j].1 as int) == split_on(
                    s@,
                    CharClass::Is('.'),
                )[j],
            forall|j: int| 0 <= j < i ==> is_ipv4_part(#[trigger] split_on(s@, CharClass::Is('.'))[j]),
        decreases 4 - i,
    {
        let (a, b) = parts[i];
        if !ipv4_part_ok(slice_subrange(s, a, b)) {
            return false;
        }
        i = i + 1;
    }
    true
}

/// Whether `s` is a valid DNS domain name.
pub fn is_valid_dns_domain(s: &[char]) -> (r: bool)
    ensures
        r == valid_dns_domain(s@),
{
    if !contains_class(s, CharClass::Is('.')) {
        return false;
    }
    if !utf8_len_below(s, 254) {
        return false;
    }
    if ipv4_text(s) {
        return false;
    }
    let parts = split_ranges(s, CharClass::Is('.'));
    let mut i: usize = 0;
    while i < parts.len()
        invariant
            parts@.len() == split_on(s@, CharClass::Is('.')).len(),
            i <= parts@.len(),
            forall|j: int|
                0 <= j < parts@.len() ==> #[trigger] parts@[j].0 <= parts@[j].1 <= s@.len()
                    && s@.subrange(parts@[j].0 as int, parts@[j].1 as int) == split_on(
                    s@,
                    CharClass::Is('.'),
                )[j],
            forall|j: int| 0 <= j < i ==> valid_label(#[trigger] split_on(s@, CharClass::Is('.'))[j]),
        decreases parts@.len() - i,
    {
        let (a, b) = parts[i];
        if !label_ok(slice_subrange(s, a, b)) {
            return false;
        }
        i = i + 1;
    }
    true
}

/// Whether `s` is nothing but a domain name.
pub fn is_bare_domain(s: &[char]) -> (r: bool)
    ensures
        r == bare_domain(s@),
{
    if contains_class(s, CharClass::DomainEnd) {
        return false;
    }
    is_valid_dns_domain(s)
}

/// Whether `domain` equals `base` or lies below it.
pub fn domain_is_equal_or_subdomain(domain: &[char], base: &[char]) -> (r: bool)
    ensures
        r == equal_or_subdomain(domain@, base@),
{
    if eq_chars(domain, base) {
        return true;
    }
    if !ends_with_chars(domain, base) {
        return false;
    }
    let prefix = slice_subrange(domain, 0, domain.len() - base.len());
    let dot: [char; 1] = ['.'];
    assert(dot@ =~= seq!['.']);
    ends_with_chars(prefix, &dot)
}

/// ASCII lower-casing changes only the letters `A` to `Z`, into `a` to `z`.
proof fn lemma_ascii_lower_char(c: char)
    ensures
        'A' <= c <= 'Z' ==> 'a' <= ascii_lower(c) <= 'z',
        !('A' <= c <= 'Z') ==> ascii_lower(c) == c,
        utf8_width(ascii_lower(c)) == utf8_width(c),
{
    if 'A' <= c <= 'Z' {
        assert(('A' as u32) <= (c as u32) <= ('Z' as u32));
        let x = ((c as u32) + 32) as u32;
        assert(('a' as u32) <= x <= ('z' as u32));
        vstd::utf8::char_u32_cast(ascii_lower(c), x);
    }
}

proof fn lemma_lower_utf8_len(s: Seq<char>)
    ensures
        utf8_len(lower_seq(s)) == utf8_len(s),
    decreases s.len(),
{
    if s.len() > 0 {
        lemma_lower_utf8_len(s.drop_last());
        assert(lower_seq(s).drop_last() =~= lower_seq(s.drop_last()));
        lemma_ascii_lower_char(s.last());
    }
}

proof fn lemma_lower_first_dot(s: Seq<char>)
    ensures
        first_in(lower_seq(s), CharClass::Is('.')) == first_in(s, CharClass::Is('.')),
{
    let k = CharClass::Is('.');
    lemma_first_in_bounds(s, k);
    let i = first_in(s, k);
    let l = lower_seq(s);
    assert forall|j: int| 0 <= j < i implies !in_class(k, #[trigger] l[j]) by {
        lemma_ascii_lower_char(s[j]);
        assert(!in_class(k, s[j]));
    }
    if i < s.len() {
        lemma_ascii_lower_char(s[i]);
    }
    lemma_first_in_is(l, k, i);
}

/// Lower-casing a text lower-cases each of its dot-separated pieces.
proof fn lemma_lower_split(s: Seq<char>)
    ensures
        split_on(lower_seq(s), CharClass::Is('.')) == split_on(s, CharClass::Is('.')).map_values(
            |p: Seq<char>| lower_seq(p),
        ),
    decreases s.len(),
{
    let k = CharClass::Is('.');
    let l = lower_seq(s);
    lemma_lower_first_dot(s);
    lemma_first_in_bounds(s, k);
    let i = first_in(s, k);
    if i >= s.len() {
        assert(split_on(s, k).map_values(|p: Seq<char>| lower_seq(p)) =~= seq![l]);
    } else {
        let rest = s.subrange(i + 1, s.len() as int);
        lemma_lower_split(rest);
        assert(l.subrange(0, i) =~= lower_seq(s.subrange(0, i)));
        assert(l.subrange(i + 1, l.len() as int) =~= lower_seq(rest));
        assert(split_on(s, k).map_values(|p: Seq<char>| lower_seq(p)) =~= seq![
            lower_seq(s.subrange(0, i)),
        ] + split_on(rest, k).map_values(|p: Seq<char>| lower_seq(p)));
    }
}

proof fn lemma_lower_label(l: Seq<char>)
    requires
        valid_label(l),
    ensures
        valid_label(lower_seq(l)),
{
    let m = lower_seq(l);
    lemma_ascii_lower_char(l[0]);
    lemma_ascii_lower_char(l.last());
    assert forall|i: int| 0 <= i < m.len() implies is_label_char(#[trigger] m[i]) by {
        lemma_ascii_lower_char(l[i]);
        assert(is_label_char(l[i]));
    }
}

/// A piece whose lower case is all digits is already all digits.
proof fn lemma_lower_digits(p: Seq<char>)
    requires
        forall|i: int| 0 <= i < p.len() ==> is_ascii_digit(#[trigger] lower_seq(p)[i]),
    ensures
        lower_seq(p) == p,
{
    assert forall|i: int| 0 <= i < p.len() implies lower_seq(p)[i] == p[i] by {
        lemma_ascii_lower_char(p[i]);
        assert(is_ascii_digit(lower_seq(p)[i]));
    }
    assert(lower_seq(p) =~= p);
}

/// Lower-casing a valid domain name gives a valid domain name.
pub proof fn lemma_lower_valid_domain(d: Seq<char>)
    requires
        valid_dns_domain(d),
    ensures
        valid_dns_domain(lower_seq(d)),
{
    let k = CharClass::Is('.');
    let l = lower_seq(d);
    lemma_lower_split(d);
    lemma_lower_first_dot(d);
    lemma_has_in_first(d, k);
    lemma_has_in_first(l, k);
    lemma_lower_utf8_len(d);
    let ps = split_on(d, k);
    let ls = split_on(l, k);
    assert forall|i: int| 0 <= i < ls.len() implies valid_label(#[trigger] ls[i]) by {
        assert(valid_label(ps[i]));
        lemma_lower_label(ps[i]);
    }
    if is_ipv4_text(l) {
        assert forall|i: int| 0 <= i < 4 implies ls[i] == ps[i] by {
            assert(is_ipv4_part(ls[i]));
            assert forall|j: int| 0 <= j < ps[i].len() implies is_ascii_digit(
                #[trigger] lower_seq(ps[i])[j],
            ) by {
                assert(lower_seq(ps[i]) == ls[i]);
            }
            lemma_lower_digits(ps[i]);
        }
        assert forall|i: int| 0 <= i < 4 implies is_ipv4_part(#[trigger] ps[i]) by {
            assert(ls[i] == ps[i]);
            assert(is_ipv4_part(ls[i]));
        }
        assert(is_ipv4_text(d));
    }
}

} // verus!
