//! Conversion of AdGuard Home filter lists into geo-site domain entries.
//!
//! - `||domain^` (optionally with DNS-safe modifiers) gives a `Domain` entry;
//! - `0.0.0.0 domain` / `127.0.0.1 domain` / `:: domain` / `::1 domain` give `Full` entries;
//! - a bare `domain` line gives a `Domain` entry;
//! - `@@...` exceptions and `$badfilter` rules remove every overlapping entry;
//! - comments, short lines, cosmetic and regex rules, rules with paths, exact-URL
//!   rules and rules with context-dependent modifiers give nothing.
use vstd::prelude::*;
use vstd::slice::slice_subrange;

use crate::dns_rule::DomainMatchType;
use crate::geo::GeoSiteFileConfig;
use crate::domain::{lemma_lower_valid_domain, 
    bare_domain, domain_is_equal_or_subdomain, equal_or_subdomain, is_bare_domain,
    is_valid_dns_domain, valid_dns_domain,
};
use crate::text::{
    contains_chars, contains_seq, ends_with, ends_with_chars, find_first, find_last, first_in,
    has_in, in_class, lemma_first_in_bounds, lower_seq, skip_leading, skip_leading_slice,
    split_on, split_ranges, starts_with, starts_with_chars, to_lower, trim, trim_slice,
    utf8_len, utf8_len_below, CharClass, eq_chars, contains_class, chars_of, from_utf8_lossy,
    string_from_chars, utf8_lossy, lemma_lower_idempotent, lemma_split_on_join, lemma_split_on_single,
};

verus! {

/// A parsed candidate or exception: how it matches, and the lower-cased domain.
pub type RuleSpec = (DomainMatchType, Seq<char>);

pub open spec fn lit_badfilter() -> Seq<char> {
    seq!['b', 'a', 'd', 'f', 'i', 'l', 't', 'e', 'r']
}

pub open spec fn lit_important() -> Seq<char> {
    seq!['i', 'm', 'p', 'o', 'r', 't', 'a', 'n', 't']
}

pub open spec fn lit_reason() -> Seq<char> {
    seq!['r', 'e', 'a', 's', 'o', 'n']
}

pub open spec fn lit_noop() -> Seq<char> {
    seq!['n', 'o', 'o', 'p']
}

pub open spec fn lit_https() -> Seq<char> {
    seq!['h', 't', 't', 'p', 's', ':', '/', '/']
}

pub open spec fn lit_http() -> Seq<char> {
    seq!['h', 't', 't', 'p', ':', '/', '/']
}

/// The name of one `$` modifier: surrounding whitespace and a leading `$` and
/// `~` removed, everything from `=` on dropped, lower-cased; `None` when empty.
pub open spec fn modifier_name(m: Seq<char>) -> Option<Seq<char>> {
    let m4 = trim(
        skip_leading(skip_leading(trim(m), CharClass::Is('$')), CharClass::Is('~')),
    );
    if m4.len() == 0 {
        None
    } else {
        let name = trim(m4.subrange(0, first_in(m4, CharClass::Is('='))));
        if name.len() == 0 {
            None
        } else {
            Some(lower_seq(name))
        }
    }
}

/// The names of a comma-separated modifier list; `None` when one is empty.
pub open spec fn modifier_names_of(ms: Seq<char>) -> Option<Seq<Seq<char>>> {
    let pieces = split_on(ms, CharClass::Is(','));
    if forall|i: int| 0 <= i < pieces.len() ==> (#[trigger] modifier_name(pieces[i])) is Some {
        Some(pieces.map_values(|p: Seq<char>| modifier_name(p).unwrap()))
    } else {
        None
    }
}

/// The modifier list names `badfilter`.
pub open spec fn mods_contain_badfilter(ms: Seq<char>) -> bool {
    match modifier_names_of(ms) {
        Some(names) => names.contains(lit_badfilter()),
        None => false,
    }
}

/// Every modifier neither narrows the matched set nor changes the action:
/// only `important`, `reason` and `noop`.
pub open spec fn mods_dns_safe(ms: Seq<char>) -> bool {
    match modifier_names_of(ms) {
        Some(names) => forall|i: int|
            0 <= i < names.len() ==> #[trigger] names[i] == lit_important() || names[i]
                == lit_reason() || names[i] == lit_noop(),
        None => false,
    }
}

/// The text after the last `$`, when there is one.
pub open spec fn extract_modifiers(line: Seq<char>) -> Option<Seq<char>> {
    if has_in(line, CharClass::Is('$')) {
        let k = choose|k: int|
            0 <= k < line.len() && line[k] == '$' && forall|j: int|
                k < j < line.len() ==> #[trigger] line[j] != '$';
        Some(line.subrange(k + 1, line.len() as int))
    } else {
        None
    }
}

pub open spec fn line_has_badfilter(line: Seq<char>) -> bool {
    match extract_modifiers(line) {
        Some(ms) => mods_contain_badfilter(ms),
        None => false,
    }
}

pub open spec fn is_blocking_ip(p: Seq<char>) -> bool {
    ||| p == seq!['0', '.', '0', '.', '0', '.', '0']
    ||| p == seq!['1', '2', '7', '.', '0', '.', '0', '.', '1']
    ||| p == seq![':', ':']
    ||| p == seq![':', ':', '1']
}

/// The pieces of `pieces` that are valid domains, in order.
pub open spec fn keep_domains(pieces: Seq<Seq<char>>) -> Seq<Seq<char>>
    decreases pieces.len(),
{
    if pieces.len() == 0 {
        seq![]
    } else {
        keep_domains(pieces.drop_last()) + if valid_dns_domain(pieces.last()) {
            seq![pieces.last()]
        } else {
            seq![]
        }
    }
}

/// Domains of a hosts-format line `IP domain...` whose IP is a blocking address
/// (`0.0.0.0`, `127.0.0.1`, `::`, `::1`); a `#` starts a comment.
pub open spec fn hosts_line_domains(line: Seq<char>) -> Seq<Seq<char>> {
    let l = trim(line);
    let i = first_in(l, CharClass::AsciiWs);
    if i >= l.len() {
        seq![]
    } else if !is_blocking_ip(l.subrange(0, i)) {
        seq![]
    } else {
        let rest = l.subrange(i + 1, l.len() as int);
        let body = rest.subrange(0, first_in(rest, CharClass::Is('#')));
        keep_domains(split_on(body, CharClass::AsciiWs))
    }
}

/// A `||domain^...` rule: the domain and, when given, its modifiers.
/// Anything but `$modifiers` after the `^` makes the rule unusable.
pub open spec fn domain_rule(line: Seq<char>) -> Option<(Seq<char>, Option<Seq<char>>)> {
    if !starts_with(line, seq!['|', '|']) {
        None
    } else {
        let r = line.subrange(2, line.len() as int);
        let e = first_in(r, CharClass::Either('^', '$'));
        let d = r.subrange(0, e);
        if !valid_dns_domain(d) {
            None
        } else {
            let mods: Option<Option<Seq<char>>> = if e < r.len() && r[e] == '^' {
                let after = r.subrange(e + 1, r.len() as int);
                if after.len() == 0 {
                    Some(None)
                } else if after[0] == '$' {
                    Some(Some(after.subrange(1, after.len() as int)))
                } else {
                    None
                }
            } else if e < r.len() && r[e] == '$' {
                Some(Some(r.subrange(e + 1, r.len() as int)))
            } else {
                Some(None)
            };
            match mods {
                None => None,
                Some(m) => if m == Some(Seq::<char>::empty()) {
                    None
                } else {
                    Some((d, m))
                },
            }
        }
    }
}

/// The text after `https://` or, failing that, `http://`.
pub open spec fn strip_scheme(s: Seq<char>) -> Option<Seq<char>> {
    if starts_with(s, lit_https()) {
        Some(s.subrange(8, s.len() as int))
    } else if starts_with(s, lit_http()) {
        Some(s.subrange(7, s.len() as int))
    } else {
        None
    }
}

/// An exact-URL rule `|http(s)://domain|` whose URL is nothing but a host.
pub open spec fn full_rule(line: Seq<char>) -> Option<Seq<char>> {
    if !starts_with(line, seq!['|']) {
        None
    } else {
        match strip_scheme(line.subrange(1, line.len() as int)) {
            None => None,
            Some(b) => if !ends_with(b, seq!['|']) {
                None
            } else {
                let d = b.subrange(0, b.len() - 1);
                if has_in(d, CharClass::UrlPart) {
                    None
                } else if valid_dns_domain(d) {
                    Some(d)
                } else {
                    None
                }
            },
        }
    }
}

/// A bare `domain` line, optionally followed by `$modifiers`.
pub open spec fn bare_rule(line: Seq<char>) -> Option<(Seq<char>, Option<Seq<char>>)> {
    let k = first_in(line, CharClass::Is('$'));
    let split: Option<(Seq<char>, Option<Seq<char>>)> = if k < line.len() {
        let mods = line.subrange(k + 1, line.len() as int);
        if mods.len() == 0 {
            None
        } else {
            Some((line.subrange(0, k), Some(mods)))
        }
    } else {
        Some((line, None))
    };
    match split {
        None => None,
        Some((d, m)) => if bare_domain(d) {
            Some((d, m))
        } else {
            None
        },
    }
}

/// The domain that begins `line`, up to whitespace or rule syntax.
pub open spec fn leading_domain(line: Seq<char>) -> Option<Seq<char>> {
    let d = line.subrange(0, first_in(line, CharClass::DomainEnd));
    if valid_dns_domain(d) {
        Some(d)
    } else {
        None
    }
}

/// The host of an `http(s)://host...` rule, with an optional leading `|`.
pub open spec fn http_rule_host(line: Seq<char>) -> Option<Seq<char>> {
    let a = if starts_with(line, seq!['|']) {
        line.subrange(1, line.len() as int)
    } else {
        line
    };
    match strip_scheme(a) {
        None => None,
        Some(b) => {
            let h = b.subrange(0, first_in(b, CharClass::HostEnd));
            if valid_dns_domain(h) {
                Some(h)
            } else {
                None
            }
        },
    }
}

/// The domain an exception (`@@...`) or `$badfilter` rule covers, approximately:
/// `||domain` gives a `Domain` entry, an URL host a `Full` entry, and a leading
/// domain a `Domain` entry.
pub open spec fn negative_rule(line: Seq<char>) -> Option<RuleSpec> {
    let pattern: Option<RuleSpec> = if starts_with(line, seq!['|', '|']) {
        let r = line.subrange(2, line.len() as int);
        let d = r.subrange(0, first_in(r, CharClass::PatternEnd));
        if valid_dns_domain(d) {
            Some((DomainMatchType::Domain, lower_seq(d)))
        } else {
            None
        }
    } else {
        None
    };
    if pattern is Some {
        pattern
    } else {
        match full_rule(line) {
            Some(d) => Some((DomainMatchType::Full, lower_seq(d))),
            None => match http_rule_host(line) {
                Some(d) => Some((DomainMatchType::Full, lower_seq(d))),
                None => match leading_domain(line) {
                    Some(d) => Some((DomainMatchType::Domain, lower_seq(d))),
                    None => None,
                },
            },
        }
    }
}

/// Whether an exception removes a candidate: equal `Full` names, a `Full` name
/// under a `Domain`, or two `Domain`s one under the other.
pub open spec fn rules_overlap(c: RuleSpec, n: RuleSpec) -> bool {
    match (c.0, n.0) {
        (DomainMatchType::Full, DomainMatchType::Full) => c.1 == n.1,
        (DomainMatchType::Full, DomainMatchType::Domain) => equal_or_subdomain(c.1, n.1),
        (DomainMatchType::Domain, DomainMatchType::Full) => equal_or_subdomain(n.1, c.1),
        (DomainMatchType::Domain, DomainMatchType::Domain) => equal_or_subdomain(c.1, n.1)
            || equal_or_subdomain(n.1, c.1),
        _ => false,
    }
}

/// Modifiers that make a positive rule unusable at DNS level.
pub open spec fn mods_rejected(m: Option<Seq<char>>) -> bool {
    match m {
        Some(ms) => mods_contain_badfilter(ms) || !mods_dns_safe(ms),
        None => false,
    }
}

pub open spec fn opt_seq(o: Option<RuleSpec>) -> Seq<RuleSpec> {
    match o {
        Some(x) => seq![x],
        None => seq![],
    }
}

pub open spec fn full_entries(ds: Seq<Seq<char>>) -> Seq<RuleSpec> {
    ds.map_values(|d: Seq<char>| (DomainMatchType::Full, lower_seq(d)))
}

/// What one line contributes: its candidate entries and its exceptions.
pub open spec fn line_rules(raw: Seq<char>) -> (Seq<RuleSpec>, Seq<RuleSpec>) {
    let l = trim(raw);
    if l.len() == 0 || l[0] == '!' || l[0] == '#' || utf8_len(l) < 4 {
        (seq![], seq![])
    } else if starts_with(l, seq!['@', '@']) {
        (seq![], opt_seq(negative_rule(l.subrange(2, l.len() as int))))
    } else if line_has_badfilter(l) {
        (seq![], opt_seq(negative_rule(l)))
    } else if contains_seq(l, seq!['#', '#']) || contains_seq(l, seq!['#', '@', '#'])
        || contains_seq(l, seq!['#', '?', '#']) {
        (seq![], seq![])
    } else if l[0] == '/' && l.last() == '/' && utf8_len(l) > 2 {
        (seq![], seq![])
    } else if hosts_line_domains(l).len() > 0 {
        (full_entries(hosts_line_domains(l)), seq![])
    } else if domain_rule(l) is Some {
        let (d, m) = domain_rule(l).unwrap();
        if mods_rejected(m) {
            (seq![], seq![])
        } else {
            (seq![(DomainMatchType::Domain, lower_seq(d))], seq![])
        }
    } else if full_rule(l) is Some {
        (seq![], seq![])
    } else if bare_rule(l) is Some {
        let (d, m) = bare_rule(l).unwrap();
        if mods_rejected(m) {
            (seq![], seq![])
        } else {
            (seq![(DomainMatchType::Domain, lower_seq(d))], seq![])
        }
    } else {
        (seq![], seq![])
    }
}

/// Candidates and exceptions of `lines`, in line order.
pub open spec fn collect_rules(lines: Seq<Seq<char>>) -> (Seq<RuleSpec>, Seq<RuleSpec>)
    decreases lines.len(),
{
    if lines.len() == 0 {
        (seq![], seq![])
    } else {
        let prev = collect_rules(lines.drop_last());
        let cur = line_rules(lines.last());
        (prev.0 + cur.0, prev.1 + cur.1)
    }
}

pub open spec fn overlaps_any(c: RuleSpec, negs: Seq<RuleSpec>) -> bool {
    exists|i: int| 0 <= i < negs.len() && rules_overlap(c, #[trigger] negs[i])
}

/// The candidates that no exception overlaps, first occurrences only, in order.
pub open spec fn select_rules(cands: Seq<RuleSpec>, negs: Seq<RuleSpec>) -> Seq<RuleSpec>
    decreases cands.len(),
{
    if cands.len() == 0 {
        seq![]
    } else {
        let prev = select_rules(cands.drop_last(), negs);
        let c = cands.last();
        if overlaps_any(c, negs) || prev.contains(c) {
            prev
        } else {
            prev.push(c)
        }
    }
}

/// The entries that the lines of a filter list convert to.
pub open spec fn lines_entries(lines: Seq<Seq<char>>) -> Seq<RuleSpec> {
    select_rules(collect_rules(lines).0, collect_rules(lines).1)
}

/// The entries that a filter list (as text) converts to.
pub open spec fn adguard_entries(text: Seq<char>) -> Seq<RuleSpec> {
    lines_entries(split_on(text, CharClass::Is('\n')))
}

/// A line that adds nothing: after trimming it is empty, a comment (`!` or
/// `#`), shorter than 4 bytes, or, when it is neither an exception (`@@`) nor
/// a `$badfilter` rule, a cosmetic (`##`, `#@#`, `#?#`) or regex (`/.../`)
/// rule.
pub open spec fn inert_line(raw: Seq<char>) -> bool {
    let l = trim(raw);
    ||| l.len() == 0 || l[0] == '!' || l[0] == '#' || utf8_len(l) < 4
    ||| !starts_with(l, seq!['@', '@']) && !line_has_badfilter(l) && (contains_seq(
        l,
        seq!['#', '#'],
    ) || contains_seq(l, seq!['#', '@', '#']) || contains_seq(l, seq!['#', '?', '#']) || (l[0]
        == '/' && l.last() == '/' && utf8_len(l) > 2))
}

/// An exception line: an `@@` rule or a `$badfilter` rule that is not
/// skipped as a comment or as too short.
pub open spec fn exception_line(raw: Seq<char>) -> bool {
    let l = trim(raw);
    &&& !(l.len() == 0 || l[0] == '!' || l[0] == '#' || utf8_len(l) < 4)
    &&& starts_with(l, seq!['@', '@']) || line_has_badfilter(l)
}


pub open spec fn chars_view(v: Seq<Vec<char>>) -> Seq<Seq<char>> {
    v.map_values(|x: Vec<char>| x@)
}

/// The name of one modifier (see `modifier_name`).
fn adguard_modifier_name(modifier: &[char]) -> (r: Option<Vec<char>>)
    ensures
        match r {
            Some(v) => modifier_name(modifier@) == Some(v@),
            None => modifier_name(modifier@) is None,
        },
{
    let a = trim_slice(modifier);
    let b = skip_leading_slice(a, CharClass::Is('$'));
    let c = skip_leading_slice(b, CharClass::Is('~'));
    let d = trim_slice(c);
    if d.len() == 0 {
        return None;
    }
    let e = find_first(d, CharClass::Is('='));
    let name = trim_slice(slice_subrange(d, 0, e));
    if name.len() == 0 {
        return None;
    }
    Some(to_lower(name))
}

/// The names of a comma-separated modifier list (see `modifier_names_of`).
fn modifier_names(modifiers: &[char]) -> (r: Option<Vec<Vec<char>>>)
    ensures
        r is Some <==> modifier_names_of(modifiers@) is Some,
        r matches Some(v) ==> chars_view(v@) == modifier_names_of(modifiers@).unwrap(),
{
    let ranges = split_ranges(modifiers, CharClass::Is(','));
    let ghost pieces = split_on(modifiers@, CharClass::Is(','));
    let mut names: Vec<Vec<char>> = Vec::new();
    let mut i: usize = 0;
    while i < ranges.len()
        invariant
            ranges@.len() == pieces.len(),
            pieces == split_on(modifiers@, CharClass::Is(',')),
            forall|j: int|
                0 <= j < ranges@.len() ==> #[trigger] ranges@[j].0 <= ranges@[j].1
                    <= modifiers@.len() && modifiers@.subrange(
                    ranges@[j].0 as int,
                    ranges@[j].1 as int,
                ) == pieces[j],
            i <= ranges@.len(),
            names@.len() == i,
            forall|j: int|
                0 <= j < i ==> (#[trigger] modifier_name(pieces[j])) is Some && names@[j]@
                    == modifier_name(pieces[j]).unwrap(),
        decreases ranges@.len() - i,
    {
        let (a, b) = ranges[i];
        match adguard_modifier_name(slice_subrange(modifiers, a, b)) {
            None => {
                assert(modifier_name(pieces[i as int]) is None);
                return None;
            },
            Some(n) => {
                names.push(n);
            },
        }
        i = i + 1;
    }
    assert(chars_view(names@) =~= pieces.map_values(|p: Seq<char>| modifier_name(p).unwrap()));
    Some(names)
}

fn lit_vec_badfilter() -> (r: Vec<char>)
    ensures
        r@ == lit_badfilter(),
{
    let v = vec!['b', 'a', 'd', 'f', 'i', 'l', 't', 'e', 'r'];
    assert(v@ =~= lit_badfilter());
    v
}

/// Whether the modifier list names `badfilter`.
fn modifiers_contain_badfilter(modifiers: &[char]) -> (r: bool)
    ensures
        r == mods_contain_badfilter(modifiers@),
{
    let bad = lit_vec_badfilter();
    match modifier_names(modifiers) {
        None => false,
        Some(names) => {
            let ghost nv = chars_view(names@);
            let mut i: usize = 0;
            while i < names.len()
                invariant
                    nv == chars_view(names@),
                    modifier_names_of(modifiers@) is Some,
                    nv == modifier_names_of(modifiers@).unwrap(),
                    bad@ == lit_badfilter(),
                    i <= names@.len(),
                    forall|j: int| 0 <= j < i ==> nv[j] != lit_badfilter(),
                decreases names@.len() - i,
            {
                if eq_chars(names[i].as_slice(), bad.as_slice()) {
                    assert(nv[i as int] == lit_badfilter());
                    assert(nv.contains(lit_badfilter()));
                    return true;
                }
                i = i + 1;
            }
            assert(!nv.contains(lit_badfilter()));
            false
        },
    }
}

/// Whether every modifier is `important`, `reason` or `noop`.
fn modifiers_are_dns_safe(modifiers: &[char]) -> (r: bool)
    ensures
        r == mods_dns_safe(modifiers@),
{
    let important = vec!['i', 'm', 'p', 'o', 'r', 't', 'a', 'n', 't'];
    let reason = vec!['r', 'e', 'a', 's', 'o', 'n'];
    let noop = vec!['n', 'o', 'o', 'p'];
    assert(important@ =~= lit_important());
    assert(reason@ =~= lit_reason());
    assert(noop@ =~= lit_noop());
    match modifier_names(modifiers) {
        None => false,
        Some(names) => {
            let ghost nv = chars_view(names@);
            let mut i: usize = 0;
            while i < names.len()
                invariant
                    nv == chars_view(names@),
                    modifier_names_of(modifiers@) is Some,
                    nv == modifier_names_of(modifiers@).unwrap(),
                    important@ == lit_important(),
                    reason@ == lit_reason(),
                    noop@ == lit_noop(),
                    i <= names@.len(),
                    forall|j: int|
                        0 <= j < i ==> #[trigger] nv[j] == lit_important() || nv[j]
                            == lit_reason() || nv[j] == lit_noop(),
                decreases names@.len() - i,
            {
                let n = names[i].as_slice();
                if !(eq_chars(n, important.as_slice()) || eq_chars(n, reason.as_slice())
                    || eq_chars(n, noop.as_slice())) {
                    assert(!(nv[i as int] == lit_important() || nv[i as int] == lit_reason()
                        || nv[i as int] == lit_noop()));
                    return false;
                }
                i = i + 1;
            }
            true
        },
    }
}

/// The text after the last `$` of `line`.
fn extract_adguard_modifiers(line: &[char]) -> (r: Option<&[char]>)
    ensures
        match r {
            Some(m) => extract_modifiers(line@) == Some(m@),
            None => extract_modifiers(line@) is None,
        },
{
    match find_last(line, CharClass::Is('$')) {
        None => None,
        Some(k) => {
            assert(k < line@.len());
            let ghost kk = choose|k: int|
                0 <= k < line@.len() && line@[k] == '$' && forall|j: int|
                    k < j < line@.len() ==> #[trigger] line@[j] != '$';
            assert(in_class(CharClass::Is('$'), line@[k as int]));
            assert(has_in(line@, CharClass::Is('$')));
            assert(line@[k as int] == '$' && forall|j: int|
                k < j < line@.len() ==> #[trigger] line@[j] != '$') by {
                assert forall|j: int| k < j < line@.len() implies #[trigger] line@[j] != '$' by {
                    assert(!in_class(CharClass::Is('$'), line@[j]));
                }
            }
            proof {
                if kk < k {
                    assert(line@[k as int] != '$');
                }
                if kk > k {
                    assert(!in_class(CharClass::Is('$'), line@[kk]));
                }
            }
            let n = line.len();
            Some(slice_subrange(line, k + 1, n))
        },
    }
}

/// Whether the modifiers after the last `$` of `line` name `badfilter`.
fn line_contains_badfilter(line: &[char]) -> (r: bool)
    ensures
        r == line_has_badfilter(line@),
{
    match extract_adguard_modifiers(line) {
        Some(m) => modifiers_contain_badfilter(m),
        None => false,
    }
}

/// Whether `ip_part` is one of the addresses hosts files use to block a name.
fn is_blocking_hosts_ip(ip_part: &[char]) -> (r: bool)
    ensures
        r == is_blocking_ip(ip_part@),
{
    let a = ['0', '.', '0', '.', '0', '.', '0'];
    let b = ['1', '2', '7', '.', '0', '.', '0', '.', '1'];
    let c = [':', ':'];
    let d = [':', ':', '1'];
    assert(a@ =~= seq!['0', '.', '0', '.', '0', '.', '0']);
    assert(b@ =~= seq!['1', '2', '7', '.', '0', '.', '0', '.', '1']);
    assert(c@ =~= seq![':', ':']);
    assert(d@ =~= seq![':', ':', '1']);
    eq_chars(ip_part, &a) || eq_chars(ip_part, &b) || eq_chars(ip_part, &c) || eq_chars(
        ip_part,
        &d,
    )
}

/// The blocked domains of a hosts-format line (see `hosts_line_domains`).
fn parse_hosts_line_domains(line: &[char]) -> (r: Vec<&[char]>)
    ensures
        r@.map_values(|d: &[char]| d@) == hosts_line_domains(line@),
{
    let l = trim_slice(line);
    let i = find_first(l, CharClass::AsciiWs);
    if i >= l.len() {
        let r: Vec<&[char]> = Vec::new();
        assert(r@.map_values(|d: &[char]| d@) =~= hosts_line_domains(line@));
        return r;
    }
    if !is_blocking_hosts_ip(slice_subrange(l, 0, i)) {
        let r: Vec<&[char]> = Vec::new();
        assert(r@.map_values(|d: &[char]| d@) =~= hosts_line_domains(line@));
        return r;
    }
    let rest = slice_subrange(l, i + 1, l.len());
    let h = find_first(rest, CharClass::Is('#'));
    let body = slice_subrange(rest, 0, h);
    let ranges = split_ranges(body, CharClass::AsciiWs);
    let ghost pieces = split_on(body@, CharClass::AsciiWs);
    let mut r: Vec<&[char]> = Vec::new();
    let mut j: usize = 0;
    while j < ranges.len()
        invariant
            ranges@.len() == pieces.len(),
            pieces == split_on(body@, CharClass::AsciiWs),
            forall|k: int|
                0 <= k < ranges@.len() ==> #[trigger] ranges@[k].0 <= ranges@[k].1 <= body@.len()
                    && body@.subrange(ranges@[k].0 as int, ranges@[k].1 as int) == pieces[k],
            j <= ranges@.len(),
            r@.map_values(|d: &[char]| d@) == keep_domains(pieces.take(j as int)),
        decreases ranges@.len() - j,
    {
        let (a, b) = ranges[j];
        let piece = slice_subrange(body, a, b);
        let ghost before = r@.map_values(|d: &[char]| d@);
        assert(pieces.take(j + 1).drop_last() =~= pieces.take(j as int));
        if is_valid_dns_domain(piece) {
            r.push(piece);
            assert(r@.map_values(|d: &[char]| d@) =~= before.push(piece@));
        }
        j = j + 1;
        assert(r@.map_values(|d: &[char]| d@) =~= keep_domains(pieces.take(j as int)));
    }
    assert(pieces.take(ranges@.len() as int) =~= pieces);
    r
}


/// The `||domain^...` form (see `domain_rule`).
fn parse_adguard_domain_rule(line: &[char]) -> (r: Option<(&[char], Option<&[char]>)>)
    ensures
        match r {
            Some((d, m)) => domain_rule(line@) == Some(
                (
                    d@,
                    match m {
                        Some(x) => Some(x@),
                        None => None,
                    },
                ),
            ),
            None => domain_rule(line@) is None,
        },
{
    let pipes = ['|', '|'];
    assert(pipes@ =~= seq!['|', '|']);
    if !starts_with_chars(line, &pipes) {
        return None;
    }
    let r = slice_subrange(line, 2, line.len());
    let e = find_first(r, CharClass::Either('^', '$'));
    let d = slice_subrange(r, 0, e);
    if !is_valid_dns_domain(d) {
        return None;
    }
    let n = r.len();
    let modifiers: Option<&[char]> = if e < n && r[e] == '^' {
        let after = slice_subrange(r, e + 1, n);
        if after.len() == 0 {
            None
        } else if after[0] == '$' {
            let m = slice_subrange(after, 1, after.len());
            if m.len() == 0 {
                assert(m@ =~= Seq::<char>::empty());
                return None;
            }
            Some(m)
        } else {
            return None;
        }
    } else if e < n && r[e] == '$' {
        let m = slice_subrange(r, e + 1, n);
        if m.len() == 0 {
            assert(m@ =~= Seq::<char>::empty());
            return None;
        }
        Some(m)
    } else {
        None
    };
    proof {
        if let Some(m) = modifiers {
            assert(m@.len() > 0);
            assert(m@ != Seq::<char>::empty());
        }
    }
    Some((d, modifiers))
}

fn strip_url_scheme(s: &[char]) -> (r: Option<&[char]>)
    ensures
        match r {
            Some(b) => strip_scheme(s@) == Some(b@),
            None => strip_scheme(s@) is None,
        },
{
    let https = ['h', 't', 't', 'p', 's', ':', '/', '/'];
    let http = ['h', 't', 't', 'p', ':', '/', '/'];
    assert(https@ =~= lit_https());
    assert(http@ =~= lit_http());
    if starts_with_chars(s, &https) {
        Some(slice_subrange(s, 8, s.len()))
    } else if starts_with_chars(s, &http) {
        Some(slice_subrange(s, 7, s.len()))
    } else {
        None
    }
}

/// The `|http(s)://domain|` form (see `full_rule`).
fn parse_adguard_full_rule(line: &[char]) -> (r: Option<&[char]>)
    ensures
        match r {
            Some(d) => full_rule(line@) == Some(d@),
            None => full_rule(line@) is None,
        },
{
    let bar = ['|'];
    assert(bar@ =~= seq!['|']);
    if !starts_with_chars(line, &bar) {
        return None;
    }
    let b = match strip_url_scheme(slice_subrange(line, 1, line.len())) {
        Some(b) => b,
        None => {
            return None;
        },
    };
    if !ends_with_chars(b, &bar) {
        return None;
    }
    let d = slice_subrange(b, 0, b.len() - 1);
    if contains_class(d, CharClass::UrlPart) {
        return None;
    }
    if is_valid_dns_domain(d) {
        Some(d)
    } else {
        None
    }
}

/// A bare `domain` line with optional modifiers (see `bare_rule`).
fn parse_bare_domain_rule(line: &[char]) -> (r: Option<(&[char], Option<&[char]>)>)
    ensures
        match r {
            Some((d, m)) => bare_rule(line@) == Some(
                (
                    d@,
                    match m {
                        Some(x) => Some(x@),
                        None => None,
                    },
                ),
            ),
            None => bare_rule(line@) is None,
        },
{
    let k = find_first(line, CharClass::Is('$'));
    let n = line.len();
    let (domain, modifiers): (&[char], Option<&[char]>) = if k < n {
        let m = slice_subrange(line, k + 1, n);
        if m.len() == 0 {
            return None;
        }
        (slice_subrange(line, 0, k), Some(m))
    } else {
        assert(line@.subrange(0, n as int) =~= line@);
        (line, None)
    };
    if is_bare_domain(domain) {
        Some((domain, modifiers))
    } else {
        None
    }
}

/// The domain at the start of `line` (see `leading_domain`).
fn extract_leading_dns_domain(line: &[char]) -> (r: Option<&[char]>)
    ensures
        match r {
            Some(d) => leading_domain(line@) == Some(d@),
            None => leading_domain(line@) is None,
        },
{
    let e = find_first(line, CharClass::DomainEnd);
    let d = slice_subrange(line, 0, e);
    if is_valid_dns_domain(d) {
        Some(d)
    } else {
        None
    }
}

/// The host of an `http(s)://` rule (see `http_rule_host`).
fn extract_http_rule_host(line: &[char]) -> (r: Option<&[char]>)
    ensures
        match r {
            Some(h) => http_rule_host(line@) == Some(h@),
            None => http_rule_host(line@) is None,
        },
{
    let bar = ['|'];
    assert(bar@ =~= seq!['|']);
    let a = if starts_with_chars(line, &bar) {
        slice_subrange(line, 1, line.len())
    } else {
        line
    };
    let b = match strip_url_scheme(a) {
        Some(b) => b,
        None => {
            return None;
        },
    };
    let e = find_first(b, CharClass::HostEnd);
    let h = slice_subrange(b, 0, e);
    if is_valid_dns_domain(h) {
        Some(h)
    } else {
        None
    }
}

/// A candidate or exception entry.
struct ParsedAdguardRule {
    match_type: DomainMatchType,
    value: Vec<char>,
}

impl View for ParsedAdguardRule {
    type V = RuleSpec;

    closed spec fn view(&self) -> RuleSpec {
        (self.match_type, self.value@)
    }
}

/// The entry an exception or `$badfilter` rule removes (see `negative_rule`).
fn parse_adguard_negative_overlap_rule(line: &[char]) -> (r: Option<ParsedAdguardRule>)
    ensures
        match r {
            Some(x) => negative_rule(line@) == Some(x@),
            None => negative_rule(line@) is None,
        },
{
    let pipes = ['|', '|'];
    assert(pipes@ =~= seq!['|', '|']);
    if starts_with_chars(line, &pipes) {
        let r = slice_subrange(line, 2, line.len());
        let e = find_first(r, CharClass::PatternEnd);
        let d = slice_subrange(r, 0, e);
        if is_valid_dns_domain(d) {
            return Some(ParsedAdguardRule { match_type: DomainMatchType::Domain, value: to_lower(d) });
        }
    }
    match parse_adguard_full_rule(line) {
        Some(d) => {
            return Some(ParsedAdguardRule { match_type: DomainMatchType::Full, value: to_lower(d) });
        },
        None => {},
    }
    match extract_http_rule_host(line) {
        Some(d) => {
            return Some(ParsedAdguardRule { match_type: DomainMatchType::Full, value: to_lower(d) });
        },
        None => {},
    }
    match extract_leading_dns_domain(line) {
        Some(d) => Some(ParsedAdguardRule { match_type: DomainMatchType::Domain, value: to_lower(d) }),
        None => None,
    }
}

/// Whether the exception `negative` removes `candidate` (see `rules_overlap`).
fn adguard_rules_overlap(candidate: &ParsedAdguardRule, negative: &ParsedAdguardRule) -> (r: bool)
    ensures
        r == rules_overlap(candidate@, negative@),
{
    let c = candidate.value.as_slice();
    let n = negative.value.as_slice();
    match (candidate.match_type, negative.match_type) {
        (DomainMatchType::Full, DomainMatchType::Full) => eq_chars(c, n),
        (DomainMatchType::Full, DomainMatchType::Domain) => domain_is_equal_or_subdomain(c, n),
        (DomainMatchType::Domain, DomainMatchType::Full) => domain_is_equal_or_subdomain(n, c),
        (DomainMatchType::Domain, DomainMatchType::Domain) => domain_is_equal_or_subdomain(c, n)
            || domain_is_equal_or_subdomain(n, c),
        _ => false,
    }
}


spec fn rules_view(v: Seq<ParsedAdguardRule>) -> Seq<RuleSpec> {
    v.map_values(|r: ParsedAdguardRule| r@)
}

proof fn lemma_rules_view_push(v: Seq<ParsedAdguardRule>, x: ParsedAdguardRule)
    ensures
        rules_view(v.push(x)) == rules_view(v).push(x@),
{
    assert(rules_view(v.push(x)) =~= rules_view(v).push(x@));
}

/// Appends what one line contributes (see `line_rules`).
fn process_line(
    raw: &[char],
    cands: &mut Vec<ParsedAdguardRule>,
    negs: &mut Vec<ParsedAdguardRule>,
)
    ensures
        rules_view(final(cands)@) == rules_view(old(cands)@) + line_rules(raw@).0,
        rules_view(final(negs)@) == rules_view(old(negs)@) + line_rules(raw@).1,
{
    let ghost c0 = rules_view(cands@);
    let ghost n0 = rules_view(negs@);
    let line = trim_slice(raw);
    if line.len() == 0 || line[0] == '!' || line[0] == '#' || utf8_len_below(line, 4) {
        assert(c0 + seq![] =~= c0);
        assert(n0 + seq![] =~= n0);
        return;
    }
    let at_at = ['@', '@'];
    assert(at_at@ =~= seq!['@', '@']);
    if starts_with_chars(line, &at_at) {
        assert(c0 + seq![] =~= c0);
        match parse_adguard_negative_overlap_rule(slice_subrange(line, 2, line.len())) {
            Some(rule) => {
                proof {
                    lemma_rules_view_push(negs@, rule);
                }
                negs.push(rule);
                assert(n0.push(rule@) =~= n0 + seq![rule@]);
            },
            None => {
                assert(n0 + seq![] =~= n0);
            },
        }
        return;
    }
    if line_contains_badfilter(line) {
        assert(c0 + seq![] =~= c0);
        match parse_adguard_negative_overlap_rule(line) {
            Some(rule) => {
                proof {
                    lemma_rules_view_push(negs@, rule);
                }
                negs.push(rule);
                assert(n0.push(rule@) =~= n0 + seq![rule@]);
            },
            None => {
                assert(n0 + seq![] =~= n0);
            },
        }
        return;
    }
    assert(n0 + seq![] =~= n0);
    let hh = ['#', '#'];
    let hah = ['#', '@', '#'];
    let hqh = ['#', '?', '#'];
    assert(hh@ =~= seq!['#', '#']);
    assert(hah@ =~= seq!['#', '@', '#']);
    assert(hqh@ =~= seq!['#', '?', '#']);
    if contains_chars(line, &hh) || contains_chars(line, &hah) || contains_chars(line, &hqh) {
        assert(c0 + seq![] =~= c0);
        return;
    }
    if line[0] == '/' && line[line.len() - 1] == '/' && !utf8_len_below(line, 3) {
        assert(c0 + seq![] =~= c0);
        return;
    }
    let hosts = parse_hosts_line_domains(line);
    if hosts.len() > 0 {
        let ghost hv = hosts@.map_values(|d: &[char]| d@);
        let mut j: usize = 0;
        while j < hosts.len()
            invariant
                hv == hosts@.map_values(|d: &[char]| d@),
                j <= hosts@.len(),
                rules_view(cands@) == c0 + full_entries(hv.take(j as int)),
            decreases hosts@.len() - j,
        {
            let rule = ParsedAdguardRule {
                match_type: DomainMatchType::Full,
                value: to_lower(hosts[j]),
            };
            proof {
                lemma_rules_view_push(cands@, rule);
            }
            cands.push(rule);
            j = j + 1;
            assert(full_entries(hv.take(j as int)) =~= full_entries(hv.take(j - 1)).push(
                (DomainMatchType::Full, lower_seq(hv[j - 1])),
            ));
        }
        assert(hv.take(hosts@.len() as int) =~= hv);
        return;
    }
    match parse_adguard_domain_rule(line) {
        Some((domain, modifiers)) => {
            match modifiers {
                Some(mods) => {
                    if modifiers_contain_badfilter(mods) || !modifiers_are_dns_safe(mods) {
                        assert(c0 + seq![] =~= c0);
                        return;
                    }
                },
                None => {},
            }
            let rule = ParsedAdguardRule {
                match_type: DomainMatchType::Domain,
                value: to_lower(domain),
            };
            proof {
                lemma_rules_view_push(cands@, rule);
            }
            cands.push(rule);
            assert(c0.push(rule@) =~= c0 + seq![rule@]);
            return;
        },
        None => {},
    }
    if parse_adguard_full_rule(line).is_some() {
        assert(c0 + seq![] =~= c0);
        return;
    }
    match parse_bare_domain_rule(line) {
        Some((domain, modifiers)) => {
            match modifiers {
                Some(mods) => {
                    if modifiers_contain_badfilter(mods) || !modifiers_are_dns_safe(mods) {
                        assert(c0 + seq![] =~= c0);
                        return;
                    }
                },
                None => {},
            }
            let rule = ParsedAdguardRule {
                match_type: DomainMatchType::Domain,
                value: to_lower(domain),
            };
            proof {
                lemma_rules_view_push(cands@, rule);
            }
            cands.push(rule);
            assert(c0.push(rule@) =~= c0 + seq![rule@]);
        },
        None => {
            assert(c0 + seq![] =~= c0);
        },
    }
}

/// Whether `rules` holds an entry equal to `rule`.
fn holds_rule(rules: &Vec<ParsedAdguardRule>, rule: &ParsedAdguardRule) -> (r: bool)
    ensures
        r == rules_view(rules@).contains(rule@),
{
    let ghost rv = rules_view(rules@);
    let mut k: usize = 0;
    while k < rules.len()
        invariant
            rv == rules_view(rules@),
            k <= rules@.len(),
            forall|j: int| 0 <= j < k ==> rv[j] != rule@,
        decreases rules@.len() - k,
    {
        if rules[k].match_type == rule.match_type && eq_chars(
            rules[k].value.as_slice(),
            rule.value.as_slice(),
        ) {
            assert(rv[k as int] == rule@);
            return true;
        }
        k = k + 1;
    }
    false
}

/// Whether some exception in `negs` removes `rule`.
fn overlaps_some(rule: &ParsedAdguardRule, negs: &Vec<ParsedAdguardRule>) -> (r: bool)
    ensures
        r == overlaps_any(rule@, rules_view(negs@)),
{
    let ghost nv = rules_view(negs@);
    let mut k: usize = 0;
    while k < negs.len()
        invariant
            nv == rules_view(negs@),
            k <= negs@.len(),
            forall|j: int| 0 <= j < k ==> !rules_overlap(rule@, #[trigger] nv[j]),
        decreases negs@.len() - k,
    {
        if adguard_rules_overlap(rule, &negs[k]) {
            assert(rules_overlap(rule@, nv[k as int]));
            return true;
        }
        k = k + 1;
    }
    false
}

/// Converts a filter list, given as text, into domain entries (see `adguard_entries`).
pub fn parse_adguard_text(text: &[char]) -> (r: Vec<GeoSiteFileConfig>)
    ensures
        r@.map_values(|e: GeoSiteFileConfig| e.entry()) == adguard_entries(text@),
        forall|i: int| 0 <= i < r@.len() ==> (#[trigger] r@[i]).attributes@ == Set::<String>::empty(),
{
    let lines = split_ranges(text, CharClass::Is('\n'));
    let ghost segs = split_on(text@, CharClass::Is('\n'));
    let mut cands: Vec<ParsedAdguardRule> = Vec::new();
    let mut negs: Vec<ParsedAdguardRule> = Vec::new();
    let mut i: usize = 0;
    while i < lines.len()
        invariant
            lines@.len() == segs.len(),
            segs == split_on(text@, CharClass::Is('\n')),
            forall|k: int|
                0 <= k < lines@.len() ==> #[trigger] lines@[k].0 <= lines@[k].1 <= text@.len()
                    && text@.subrange(lines@[k].0 as int, lines@[k].1 as int) == segs[k],
            i <= lines@.len(),
            rules_view(cands@) == collect_rules(segs.take(i as int)).0,
            rules_view(negs@) == collect_rules(segs.take(i as int)).1,
        decreases lines@.len() - i,
    {
        let (a, b) = lines[i];
        process_line(slice_subrange(text, a, b), &mut cands, &mut negs);
        assert(segs.take(i + 1).drop_last() =~= segs.take(i as int));
        i = i + 1;
    }
    assert(segs.take(lines@.len() as int) =~= segs);
    let ghost cv = rules_view(cands@);
    let ghost nv = rules_view(negs@);
    let mut kept: Vec<ParsedAdguardRule> = Vec::new();
    let mut j: usize = 0;
    while j < cands.len()
        invariant
            cv == rules_view(cands@),
            nv == rules_view(negs@),
            j <= cands@.len(),
            rules_view(kept@) == select_rules(cv.take(j as int), nv),
        decreases cands@.len() - j,
    {
        let c = &cands[j];
        assert(cv.take(j + 1).drop_last() =~= cv.take(j as int));
        assert(cv.take(j + 1).last() == c@);
        if !overlaps_some(c, &negs) && !holds_rule(&kept, c) {
            let copy = ParsedAdguardRule { match_type: c.match_type, value: c.value.clone() };
            assert(copy@ == c@);
            proof {
                lemma_rules_view_push(kept@, copy);
            }
            kept.push(copy);
        }
        j = j + 1;
    }
    assert(cv.take(cands@.len() as int) =~= cv);
    let mut out: Vec<GeoSiteFileConfig> = Vec::new();
    let mut k: usize = 0;
    while k < kept.len()
        invariant
            k <= kept@.len(),
            out@.map_values(|e: GeoSiteFileConfig| e.entry()) == rules_view(kept@).take(k as int),
            forall|i: int| 0 <= i < out@.len() ==> (#[trigger] out@[i]).attributes@ == Set::<String>::empty(),
        decreases kept@.len() - k,
    {
        let entry = GeoSiteFileConfig {
            match_type: kept[k].match_type,
            value: string_from_chars(kept[k].value.as_slice()),
            attributes: std::collections::HashSet::new(),
        };
        let ghost before = out@.map_values(|e: GeoSiteFileConfig| e.entry());
        out.push(entry);
        assert(out@.map_values(|e: GeoSiteFileConfig| e.entry()) =~= before.push(entry.entry()));
        k = k + 1;
        assert(rules_view(kept@).take(k as int) =~= rules_view(kept@).take(k - 1).push(kept@[k - 1]@));
    }
    assert(rules_view(kept@).take(kept@.len() as int) =~= rules_view(kept@));
    out
}

/// Parses an AdGuard Home filter list into geo-site domain entries.
///
/// The bytes are decoded as UTF-8 (invalid sequences become U+FFFD) and the
/// text is converted as `parse_adguard_text` describes.
pub fn parse_adguard_rules(contents: &[u8]) -> (r: Vec<GeoSiteFileConfig>)
    ensures
        r@.map_values(|e: GeoSiteFileConfig| e.entry()) == adguard_entries(utf8_lossy(contents@)),
        vstd::utf8::valid_utf8(contents@) ==> r@.map_values(|e: GeoSiteFileConfig| e.entry())
            == adguard_entries(vstd::utf8::decode_utf8(contents@)),
        forall|i: int| 0 <= i < r@.len() ==> (#[trigger] r@[i]).attributes@ == Set::<String>::empty(),
{
    let text = from_utf8_lossy(contents);
    let chars = chars_of(text.as_str());
    parse_adguard_text(chars.as_slice())
}

/// Selected entries are distinct, come from the candidates, and overlap no
/// exception.
proof fn lemma_select_rules(cands: Seq<RuleSpec>, negs: Seq<RuleSpec>)
    ensures
        forall|i: int, j: int|
            0 <= i < j < select_rules(cands, negs).len() ==> select_rules(cands, negs)[i]
                != select_rules(cands, negs)[j],
        forall|i: int|
            0 <= i < select_rules(cands, negs).len() ==> cands.contains(
                #[trigger] select_rules(cands, negs)[i],
            ) && !overlaps_any(select_rules(cands, negs)[i], negs),
    decreases cands.len(),
{
    if cands.len() > 0 {
        let p = cands.drop_last();
        lemma_select_rules(p, negs);
        let prev = select_rules(p, negs);
        let c = cands.last();
        assert forall|i: int| 0 <= i < prev.len() implies cands.contains(#[trigger] prev[i]) by {
            let k = choose|k: int| 0 <= k < p.len() && p[k] == prev[i];
            assert(cands[k] == p[k]);
        }
        if !(overlaps_any(c, negs) || prev.contains(c)) {
            assert(cands[cands.len() - 1] == c);
            assert forall|i: int| 0 <= i < prev.len() implies prev[i] != c by {}
        }
    }
}

/// Every candidate of the lines has a lower-case domain.
proof fn lemma_candidates_lowercase(lines: Seq<Seq<char>>)
    ensures
        forall|i: int|
            0 <= i < collect_rules(lines).0.len() ==> lower_seq(
                (#[trigger] collect_rules(lines).0[i]).1,
            ) == collect_rules(lines).0[i].1,
    decreases lines.len(),
{
    if lines.len() > 0 {
        lemma_candidates_lowercase(lines.drop_last());
        let prev = collect_rules(lines.drop_last()).0;
        let cur = line_rules(lines.last()).0;
        assert forall|k: int| 0 <= k < cur.len() implies lower_seq((#[trigger] cur[k]).1) == cur[k].1 by {
            let l = trim(lines.last());
            if hosts_line_domains(l).len() > 0 && !(l.len() == 0 || l[0] == '!' || l[0] == '#'
                || utf8_len(l) < 4) {
                lemma_lower_idempotent(hosts_line_domains(l)[k]);
            }
            if domain_rule(l) is Some {
                lemma_lower_idempotent(domain_rule(l).unwrap().0);
            }
            if bare_rule(l) is Some {
                lemma_lower_idempotent(bare_rule(l).unwrap().0);
            }
        }
        let all = prev + cur;
        assert forall|i: int| 0 <= i < all.len() implies lower_seq((#[trigger] all[i]).1) == all[i].1 by {
            if i < prev.len() {
                assert(all[i] == prev[i]);
            } else {
                assert(all[i] == cur[i - prev.len()]);
            }
        }
    }
}

/// A candidate entry: a `Domain` or `Full` match of a valid domain name.
pub open spec fn well_formed_entry(e: RuleSpec) -> bool {
    (e.0 == DomainMatchType::Domain || e.0 == DomainMatchType::Full) && valid_dns_domain(e.1)
}

proof fn lemma_keep_domains_valid(pieces: Seq<Seq<char>>)
    ensures
        forall|i: int|
            0 <= i < keep_domains(pieces).len() ==> valid_dns_domain(#[trigger] keep_domains(pieces)[i]),
    decreases pieces.len(),
{
    if pieces.len() > 0 {
        lemma_keep_domains_valid(pieces.drop_last());
        let p = keep_domains(pieces.drop_last());
        let q: Seq<Seq<char>> = if valid_dns_domain(pieces.last()) {
            seq![pieces.last()]
        } else {
            seq![]
        };
        assert forall|i: int| 0 <= i < (p + q).len() implies valid_dns_domain(#[trigger] (p + q)[i]) by {
            if i < p.len() {
                assert((p + q)[i] == p[i]);
            } else {
                assert((p + q)[i] == q[i - p.len()]);
            }
        }
    }
}

/// Every candidate of the lines is a `Domain` or `Full` match of a valid
/// domain name.
proof fn lemma_candidates_well_formed(lines: Seq<Seq<char>>)
    ensures
        forall|i: int|
            0 <= i < collect_rules(lines).0.len() ==> well_formed_entry(
                #[trigger] collect_rules(lines).0[i],
            ),
    decreases lines.len(),
{
    if lines.len() > 0 {
        lemma_candidates_well_formed(lines.drop_last());
        let prev = collect_rules(lines.drop_last()).0;
        let cur = line_rules(lines.last()).0;
        let l = trim(lines.last());
        assert forall|k: int| 0 <= k < cur.len() implies well_formed_entry(#[trigger] cur[k]) by {
            if hosts_line_domains(l).len() > 0 && !(l.len() == 0 || l[0] == '!' || l[0] == '#'
                || utf8_len(l) < 4) {
                let hs = hosts_line_domains(l);
                let l2 = trim(l);
                let i = first_in(l2, CharClass::AsciiWs);
                lemma_first_in_bounds(l2, CharClass::AsciiWs);
                if k < hs.len() && i < l2.len() {
                    let rest = l2.subrange(i + 1, l2.len() as int);
                    lemma_first_in_bounds(rest, CharClass::Is('#'));
                    let body = rest.subrange(0, first_in(rest, CharClass::Is('#')));
                    lemma_keep_domains_valid(split_on(body, CharClass::AsciiWs));
                    assert(valid_dns_domain(hs[k]));
                    lemma_lower_valid_domain(hs[k]);
                }
            }
            if domain_rule(l) is Some {
                lemma_lower_valid_domain(domain_rule(l).unwrap().0);
            }
            if bare_rule(l) is Some {
                lemma_lower_valid_domain(bare_rule(l).unwrap().0);
            }
        }
        let all = prev + cur;
        assert forall|i: int| 0 <= i < all.len() implies well_formed_entry(#[trigger] all[i]) by {
            if i < prev.len() {
                assert(all[i] == prev[i]);
            } else {
                assert(all[i] == cur[i - prev.len()]);
            }
        }
    }
}

/// Every entry a filter list converts to is a `Domain` or `Full` match of a
/// valid, lower-case domain name.
pub proof fn lemma_adguard_entries_well_formed(text: Seq<char>)
    ensures
        forall|i: int|
            0 <= i < adguard_entries(text).len() ==> well_formed_entry(#[trigger] adguard_entries(text)[i])
                && lower_seq(adguard_entries(text)[i].1) == adguard_entries(text)[i].1,
{
    let lines = split_on(text, CharClass::Is('\n'));
    let (cands, negs) = collect_rules(lines);
    lemma_select_rules(cands, negs);
    lemma_candidates_well_formed(lines);
    lemma_adguard_entries(text);
    assert forall|i: int| 0 <= i < adguard_entries(text).len() implies well_formed_entry(
        #[trigger] adguard_entries(text)[i],
    ) by {
        let e = adguard_entries(text)[i];
        let k = choose|k: int| 0 <= k < cands.len() && cands[k] == e;
        assert(well_formed_entry(cands[k]));
    }
}

/// A filter list converts to distinct entries, none of which any exception or
/// `$badfilter` rule of the list overlaps, all with lower-case domains.
pub proof fn lemma_adguard_entries(text: Seq<char>)
    ensures
        forall|i: int, j: int|
            0 <= i < j < adguard_entries(text).len() ==> adguard_entries(text)[i]
                != adguard_entries(text)[j],
        forall|i: int|
            0 <= i < adguard_entries(text).len() ==> !overlaps_any(
                #[trigger] adguard_entries(text)[i],
                collect_rules(split_on(text, CharClass::Is('\n'))).1,
            ) && lower_seq(adguard_entries(text)[i].1) == adguard_entries(text)[i].1,
{
    let lines = split_on(text, CharClass::Is('\n'));
    let (cands, negs) = collect_rules(lines);
    lemma_select_rules(cands, negs);
    lemma_candidates_lowercase(lines);
    assert forall|i: int| 0 <= i < adguard_entries(text).len() implies lower_seq(
        (#[trigger] adguard_entries(text)[i]).1,
    ) == adguard_entries(text)[i].1 by {
        let e = adguard_entries(text)[i];
        let k = choose|k: int| 0 <= k < cands.len() && cands[k] == e;
        assert(lower_seq(cands[k].1) == cands[k].1);
    }
}

} // verus!

verus! {

/// The rules of two runs of lines are those of each, one after the other.
proof fn lemma_collect_append(a: Seq<Seq<char>>, b: Seq<Seq<char>>)
    ensures
        collect_rules(a + b).0 == collect_rules(a).0 + collect_rules(b).0,
        collect_rules(a + b).1 == collect_rules(a).1 + collect_rules(b).1,
    decreases b.len(),
{
    if b.len() == 0 {
        assert(a + b =~= a);
        assert(collect_rules(a).0 + collect_rules(b).0 =~= collect_rules(a).0);
        assert(collect_rules(a).1 + collect_rules(b).1 =~= collect_rules(a).1);
    } else {
        lemma_collect_append(a, b.drop_last());
        assert((a + b).drop_last() =~= a + b.drop_last());
        assert((a + b).last() == b.last());
        let pa = collect_rules(a);
        let pb = collect_rules(b.drop_last());
        let cur = line_rules(b.last());
        assert(pa.0 + pb.0 + cur.0 =~= pa.0 + (pb.0 + cur.0));
        assert(pa.1 + pb.1 + cur.1 =~= pa.1 + (pb.1 + cur.1));
    }
}

/// Whether a candidate overlaps an exception depends only on which exceptions
/// occur, not on their order or number.
proof fn lemma_overlaps_same_members(c: RuleSpec, n1: Seq<RuleSpec>, n2: Seq<RuleSpec>)
    requires
        forall|r: RuleSpec| n1.contains(r) <==> n2.contains(r),
    ensures
        overlaps_any(c, n1) == overlaps_any(c, n2),
{
    if overlaps_any(c, n1) {
        let i = choose|i: int| 0 <= i < n1.len() && rules_overlap(c, #[trigger] n1[i]);
        assert(n1.contains(n1[i]));
        let j = choose|j: int| 0 <= j < n2.len() && n2[j] == n1[i];
        assert(rules_overlap(c, n2[j]));
    }
    if overlaps_any(c, n2) {
        let i = choose|i: int| 0 <= i < n2.len() && rules_overlap(c, #[trigger] n2[i]);
        assert(n2.contains(n2[i]));
        let j = choose|j: int| 0 <= j < n1.len() && n1[j] == n2[i];
        assert(rules_overlap(c, n1[j]));
    }
}

proof fn lemma_select_same_members(cands: Seq<RuleSpec>, n1: Seq<RuleSpec>, n2: Seq<RuleSpec>)
    requires
        forall|r: RuleSpec| n1.contains(r) <==> n2.contains(r),
    ensures
        select_rules(cands, n1) == select_rules(cands, n2),
    decreases cands.len(),
{
    if cands.len() > 0 {
        lemma_select_same_members(cands.drop_last(), n1, n2);
        lemma_overlaps_same_members(cands.last(), n1, n2);
    }
}

proof fn lemma_inert_rules(x: Seq<char>)
    requires
        inert_line(x),
    ensures
        line_rules(x).0 == Seq::<RuleSpec>::empty(),
        line_rules(x).1 == Seq::<RuleSpec>::empty(),
{
}

proof fn lemma_exception_rules(x: Seq<char>)
    requires
        exception_line(x),
    ensures
        line_rules(x).0 == Seq::<RuleSpec>::empty(),
{
}

proof fn lemma_collect_single(x: Seq<char>)
    ensures
        collect_rules(seq![x]).0 == line_rules(x).0,
        collect_rules(seq![x]).1 == line_rules(x).1,
{
    assert(seq![x].drop_last() =~= Seq::<Seq<char>>::empty());
    assert(seq![x].last() == x);
    let z = Seq::<Seq<char>>::empty();
    assert(collect_rules(z).0 == Seq::<RuleSpec>::empty());
    assert(collect_rules(z).1 == Seq::<RuleSpec>::empty());
    assert(Seq::<RuleSpec>::empty() + line_rules(x).0 =~= line_rules(x).0);
    assert(Seq::<RuleSpec>::empty() + line_rules(x).1 =~= line_rules(x).1);
}

/// Swapping two middle runs of a sequence keeps its members.
proof fn lemma_members_swap(p: Seq<RuleSpec>, e: Seq<RuleSpec>, m: Seq<RuleSpec>, q: Seq<RuleSpec>)
    ensures
        forall|r: RuleSpec| (p + e + m + q).contains(r) <==> (p + m + e + q).contains(r),
{
    let a = p + e + m + q;
    let b = p + m + e + q;
    assert forall|r: RuleSpec| a.contains(r) <==> b.contains(r) by {
        let (lp, le, lm) = (p.len() as int, e.len() as int, m.len() as int);
        if a.contains(r) {
            let i = choose|i: int| 0 <= i < a.len() && a[i] == r;
            let j = if i < lp {
                i
            } else if i < lp + le {
                i + lm
            } else if i < lp + le + lm {
                i - le
            } else {
                i
            };
            assert(b[j] == r);
        }
        if b.contains(r) {
            let i = choose|i: int| 0 <= i < b.len() && b[i] == r;
            let j = if i < lp {
                i
            } else if i < lp + lm {
                i + le
            } else if i < lp + lm + le {
                i - lm
            } else {
                i
            };
            assert(a[j] == r);
        }
    }
}

/// A line that adds nothing (`inert_line`: blank, comment, too short,
/// cosmetic or regex) can be put anywhere in a filter list without changing
/// the candidates, the exceptions, or the entries the list converts to.
pub proof fn lemma_inert_line_adds_nothing(pre: Seq<Seq<char>>, x: Seq<char>, post: Seq<Seq<char>>)
    requires
        inert_line(x),
    ensures
        collect_rules(pre + seq![x] + post) == collect_rules(pre + post),
        lines_entries(pre + seq![x] + post) == lines_entries(pre + post),
{
    lemma_inert_rules(x);
    lemma_collect_single(x);
    lemma_collect_append(pre, seq![x]);
    lemma_collect_append(pre + seq![x], post);
    lemma_collect_append(pre, post);
    let c0 = collect_rules(pre + seq![x] + post);
    let c1 = collect_rules(pre + post);
    assert(c0.0 =~= c1.0);
    assert(c0.1 =~= c1.1);
}

/// An exception or `$badfilter` line acts wherever it stands: moving it
/// further down a filter list leaves the entries unchanged.
pub proof fn lemma_exception_anywhere(
    pre: Seq<Seq<char>>,
    x: Seq<char>,
    mid: Seq<Seq<char>>,
    post: Seq<Seq<char>>,
)
    requires
        exception_line(x),
    ensures
        lines_entries(pre + seq![x] + mid + post) == lines_entries(pre + mid + seq![x] + post),
{
    lemma_exception_rules(x);
    lemma_collect_single(x);
    let one = seq![x];
    lemma_collect_append(pre, one);
    lemma_collect_append(pre + one, mid);
    lemma_collect_append(pre + one + mid, post);
    lemma_collect_append(pre, mid);
    lemma_collect_append(pre + mid, one);
    lemma_collect_append(pre + mid + one, post);
    let a = collect_rules(pre + one + mid + post);
    let b = collect_rules(pre + mid + one + post);
    let (p, e, m, q) = (collect_rules(pre), collect_rules(one), collect_rules(mid), collect_rules(
        post,
    ));
    assert(a.0 =~= b.0);
    assert(a.1 == p.1 + e.1 + m.1 + q.1);
    assert(b.1 == p.1 + m.1 + e.1 + q.1);
    lemma_members_swap(p.1, e.1, m.1, q.1);
    lemma_select_same_members(a.0, a.1, b.1);
}

/// The text of a list of lines: the lines joined by line breaks.
pub open spec fn join_lines(ls: Seq<Seq<char>>) -> Seq<char>
    decreases ls.len(),
{
    if ls.len() == 0 {
        seq![]
    } else if ls.len() == 1 {
        ls[0]
    } else {
        join_lines(ls.drop_last()) + seq!['\n'] + ls.last()
    }
}

/// Lines that hold no line break.
pub open spec fn single_lines(ls: Seq<Seq<char>>) -> bool {
    forall|i: int| 0 <= i < ls.len() ==> !(#[trigger] ls[i]).contains('\n')
}

proof fn lemma_split_join(ls: Seq<Seq<char>>)
    requires
        ls.len() >= 1,
        single_lines(ls),
    ensures
        split_on(join_lines(ls), CharClass::Is('\n')) == ls,
    decreases ls.len(),
{
    if ls.len() == 1 {
        lemma_split_on_single(ls[0], '\n');
        assert(seq![ls[0]] =~= ls);
    } else {
        let p = ls.drop_last();
        assert(single_lines(p)) by {
            assert forall|i: int| 0 <= i < p.len() implies !(#[trigger] p[i]).contains('\n') by {
                assert(p[i] == ls[i]);
            }
        }
        lemma_split_join(p);
        assert(!ls[ls.len() - 1].contains('\n'));
        lemma_split_on_single(ls.last(), '\n');
        lemma_split_on_join(join_lines(p), '\n', ls.last());
        assert(p + seq![ls.last()] =~= ls);
    }
}

/// The text of a list of lines converts to the entries of those lines.
proof fn lemma_entries_of_join(ls: Seq<Seq<char>>)
    requires
        single_lines(ls),
    ensures
        adguard_entries(join_lines(ls)) == lines_entries(ls),
{
    if ls.len() >= 1 {
        lemma_split_join(ls);
    } else {
        let e = Seq::<char>::empty();
        lemma_split_on_single(e, '\n');
        assert(skip_leading(e, CharClass::Ws) == e);
        assert(trim(e) == e);
        lemma_inert_line_adds_nothing(ls, e, ls);
        assert(ls + seq![e] + ls =~= seq![e]);
        assert(ls + ls =~= ls);
    }
}

/// The byte form of a text decodes back to it.
proof fn lemma_bytes_of_text(t: Seq<char>)
    ensures
        vstd::utf8::valid_utf8(vstd::utf8::encode_utf8(t)),
        vstd::utf8::decode_utf8(vstd::utf8::encode_utf8(t)) == t,
{
    vstd::utf8::encode_utf8_valid_utf8(t);
    vstd::utf8::encode_utf8_decode_utf8(t);
}

/// A filter list, as text or as UTF-8 bytes: a line that adds nothing
/// (`inert_line`) can be put anywhere, first and last place included,
/// without changing the entries.
pub proof fn lemma_inert_line_in_list(pre: Seq<Seq<char>>, x: Seq<char>, post: Seq<Seq<char>>)
    requires
        inert_line(x),
        !x.contains('\n'),
        single_lines(pre),
        single_lines(post),
    ensures
        adguard_entries(join_lines(pre + seq![x] + post)) == adguard_entries(join_lines(pre + post)),
        vstd::utf8::valid_utf8(vstd::utf8::encode_utf8(join_lines(pre + seq![x] + post))),
        vstd::utf8::valid_utf8(vstd::utf8::encode_utf8(join_lines(pre + post))),
        adguard_entries(vstd::utf8::decode_utf8(vstd::utf8::encode_utf8(join_lines(pre + seq![x] + post))))
            == adguard_entries(vstd::utf8::decode_utf8(vstd::utf8::encode_utf8(join_lines(pre + post)))),
{
    let with = pre + seq![x] + post;
    let without = pre + post;
    assert(single_lines(with)) by {
        assert forall|i: int| 0 <= i < with.len() implies !(#[trigger] with[i]).contains('\n') by {
            if i < pre.len() {
                assert(with[i] == pre[i]);
            } else if i > pre.len() {
                assert(with[i] == post[i - pre.len() - 1]);
            }
        }
    }
    assert(single_lines(without)) by {
        assert forall|i: int| 0 <= i < without.len() implies !(#[trigger] without[i]).contains('\n') by {
            if i < pre.len() {
                assert(without[i] == pre[i]);
            } else {
                assert(without[i] == post[i - pre.len()]);
            }
        }
    }
    lemma_entries_of_join(with);
    lemma_entries_of_join(without);
    lemma_inert_line_adds_nothing(pre, x, post);
    lemma_bytes_of_text(join_lines(with));
    lemma_bytes_of_text(join_lines(without));
}

/// A filter list, as text or as UTF-8 bytes: an exception or `$badfilter`
/// line gives the same entries above a run of lines `mid` as below it, first
/// and last place included.
pub proof fn lemma_exception_anywhere_in_list(
    pre: Seq<Seq<char>>,
    x: Seq<char>,
    mid: Seq<Seq<char>>,
    post: Seq<Seq<char>>,
)
    requires
        exception_line(x),
        !x.contains('\n'),
        single_lines(pre),
        single_lines(mid),
        single_lines(post),
    ensures
        adguard_entries(join_lines(pre + seq![x] + mid + post)) == adguard_entries(
            join_lines(pre + mid + seq![x] + post),
        ),
        vstd::utf8::valid_utf8(vstd::utf8::encode_utf8(join_lines(pre + seq![x] + mid + post))),
        vstd::utf8::valid_utf8(vstd::utf8::encode_utf8(join_lines(pre + mid + seq![x] + post))),
        adguard_entries(
            vstd::utf8::decode_utf8(vstd::utf8::encode_utf8(join_lines(pre + seq![x] + mid + post))),
        ) == adguard_entries(
            vstd::utf8::decode_utf8(vstd::utf8::encode_utf8(join_lines(pre + mid + seq![x] + post))),
        ),
{
    let l1 = pre + seq![x] + mid + post;
    let l2 = pre + mid + seq![x] + post;
    let (a, m) = (pre.len() as int, mid.len() as int);
    assert(single_lines(l1)) by {
        assert forall|i: int| 0 <= i < l1.len() implies !(#[trigger] l1[i]).contains('\n') by {
            if i < a {
                assert(l1[i] == pre[i]);
            } else if a < i < a + 1 + m {
                assert(l1[i] == mid[i - a - 1]);
            } else if i >= a + 1 + m {
                assert(l1[i] == post[i - a - 1 - m]);
            }
        }
    }
    assert(single_lines(l2)) by {
        assert forall|i: int| 0 <= i < l2.len() implies !(#[trigger] l2[i]).contains('\n') by {
            if i < a {
                assert(l2[i] == pre[i]);
            } else if a <= i < a + m {
                assert(l2[i] == mid[i - a]);
            } else if i > a + m {
                assert(l2[i] == post[i - a - 1 - m]);
            }
        }
    }
    lemma_entries_of_join(l1);
    lemma_entries_of_join(l2);
    lemma_exception_anywhere(pre, x, mid, post);
    lemma_bytes_of_text(join_lines(l1));
    lemma_bytes_of_text(join_lines(l2));
}

/// `d` is the name `b` or a name under it (`x.b`).
pub open spec fn at_or_below(d: Seq<char>, b: Seq<char>) -> bool {
    ||| d == b
    ||| (b.len() < d.len() && d.subrange(d.len() - b.len(), d.len() as int) == b && d[d.len()
        - b.len() - 1] == '.')
}

proof fn lemma_at_or_below_overlaps(d: Seq<char>, b: Seq<char>)
    requires
        at_or_below(d, b),
    ensures
        equal_or_subdomain(d, b),
{
    if d != b {
        let x = d.subrange(0, d.len() - b.len());
        assert(x.subrange(x.len() - 1, x.len() as int) =~= seq!['.']);
    }
}

/// No entry of a filter list lies at or under a `Domain` exception of the
/// list; no `Domain` or `Full` exception lies at or under a `Domain` entry;
/// and no `Full` entry has a `Full` exception of the same name.
pub proof fn lemma_entries_clear_of_exceptions(text: Seq<char>)
    ensures
        forall|i: int, j: int|
            0 <= i < adguard_entries(text).len() && 0 <= j < collect_rules(
                split_on(text, CharClass::Is('\n')),
            ).1.len() ==> {
                let e = #[trigger] adguard_entries(text)[i];
                let n = #[trigger] collect_rules(split_on(text, CharClass::Is('\n'))).1[j];
                &&& n.0 == DomainMatchType::Domain ==> !at_or_below(e.1, n.1)
                &&& e.0 == DomainMatchType::Domain && (n.0 == DomainMatchType::Domain || n.0
                    == DomainMatchType::Full) ==> !at_or_below(n.1, e.1)
                &&& e.0 == DomainMatchType::Full && n.0 == DomainMatchType::Full ==> e.1 != n.1
            },
{
    let negs = collect_rules(split_on(text, CharClass::Is('\n'))).1;
    lemma_adguard_entries(text);
    lemma_adguard_entries_well_formed(text);
    assert forall|i: int, j: int|
        0 <= i < adguard_entries(text).len() && 0 <= j < negs.len() implies {
        let e = #[trigger] adguard_entries(text)[i];
        let n = #[trigger] negs[j];
        &&& n.0 == DomainMatchType::Domain ==> !at_or_below(e.1, n.1)
        &&& e.0 == DomainMatchType::Domain && (n.0 == DomainMatchType::Domain || n.0
            == DomainMatchType::Full) ==> !at_or_below(n.1, e.1)
        &&& e.0 == DomainMatchType::Full && n.0 == DomainMatchType::Full ==> e.1 != n.1
    } by {
        let e = adguard_entries(text)[i];
        let n = negs[j];
        assert(!overlaps_any(e, negs));
        assert(!rules_overlap(e, n));
        assert(well_formed_entry(e));
        if at_or_below(e.1, n.1) {
            lemma_at_or_below_overlaps(e.1, n.1);
        }
        if at_or_below(n.1, e.1) {
            lemma_at_or_below_overlaps(n.1, e.1);
        }
    }
}

} // verus!
