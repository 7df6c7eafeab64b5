//! Textual IP addresses, read the way `str::parse::<IpAddr>` reads them:
//! dotted-quad IPv4, and IPv6 as up to eight hexadecimal groups with an optional
//! `::` and an optional trailing dotted-quad.
use vstd::prelude::*;

use crate::net::IpAddress;

verus! {

/// The value of `c` as a digit of `radix` (10 or 16), like `char::to_digit`.
pub open spec fn digit_of(c: char, radix: nat) -> Option<nat> {
    if '0' <= c <= '9' {
        Some(((c as u32) - ('0' as u32)) as nat)
    } else if radix == 16 && 'a' <= c <= 'f' {
        Some(((c as u32) - ('a' as u32) + 10) as nat)
    } else if radix == 16 && 'A' <= c <= 'F' {
        Some(((c as u32) - ('A' as u32) + 10) as nat)
    } else {
        None
    }
}

/// End of the run of `radix` digits that starts at `pos`.
pub open spec fn run_end(s: Seq<char>, pos: int, radix: nat) -> int
    decreases s.len() - pos,
{
    if 0 <= pos < s.len() && digit_of(s[pos], radix) is Some {
        run_end(s, pos + 1, radix)
    } else {
        pos
    }
}

/// The value of the digits `s[from..to]` in `radix`.
pub open spec fn run_value(s: Seq<char>, from: int, to: int, radix: nat) -> nat
    decreases to - from,
{
    if to <= from {
        0
    } else {
        run_value(s, from, to - 1, radix) * radix + match digit_of(s[to - 1], radix) {
            Some(d) => d,
            None => 0,
        }
    }
}

/// A number at `pos`: the whole run of digits, one to `max_digits` of them,
/// without a leading zero unless allowed or alone. Gives the end and the value.
pub open spec fn read_number(
    s: Seq<char>,
    pos: int,
    radix: nat,
    max_digits: int,
    allow_zero_prefix: bool,
) -> Option<(int, nat)> {
    let end = run_end(s, pos, radix);
    let count = end - pos;
    if count <= 0 || count > max_digits {
        None
    } else if !allow_zero_prefix && s[pos] == '0' && count > 1 {
        None
    } else {
        Some((end, run_value(s, pos, end, radix)))
    }
}

/// A decimal octet (0 to 255) at `pos`.
pub open spec fn read_octet(s: Seq<char>, pos: int) -> Option<(int, nat)> {
    match read_number(s, pos, 10, 3, false) {
        Some((e, v)) => if v <= 255 {
            Some((e, v))
        } else {
            None
        },
        None => None,
    }
}

/// `c` at `pos`, then what `read_octet` reads after it.
pub open spec fn read_sep_octet(s: Seq<char>, pos: int, c: char) -> Option<(int, nat)> {
    if 0 <= pos < s.len() && s[pos] == c {
        read_octet(s, pos + 1)
    } else {
        None
    }
}

/// A dotted-quad IPv4 address at `pos`: its end and its 32-bit value.
pub open spec fn read_ipv4(s: Seq<char>, pos: int) -> Option<(int, nat)> {
    match read_octet(s, pos) {
        None => None,
        Some((p1, a)) => match read_sep_octet(s, p1, '.') {
            None => None,
            Some((p2, b)) => match read_sep_octet(s, p2, '.') {
                None => None,
                Some((p3, c)) => match read_sep_octet(s, p3, '.') {
                    None => None,
                    Some((p4, d)) => Some((p4, ((a * 256 + b) * 256 + c) * 256 + d)),
                },
            },
        },
    }
}

/// Where group number `i` starts: after a `:` unless it is the first group.
pub open spec fn group_start(s: Seq<char>, pos: int, i: int) -> int {
    if i == 0 {
        pos
    } else if 0 <= pos < s.len() && s[pos] == ':' {
        pos + 1
    } else {
        -1
    }
}

/// An embedded IPv4 address as group number `i`.
pub open spec fn read_group_ipv4(s: Seq<char>, pos: int, i: int) -> Option<(int, nat)> {
    let p = group_start(s, pos, i);
    if p < 0 {
        None
    } else {
        read_ipv4(s, p)
    }
}

/// A hexadecimal group (one to four digits) as group number `i`.
pub open spec fn read_group_hex(s: Seq<char>, pos: int, i: int) -> Option<(int, nat)> {
    let p = group_start(s, pos, i);
    if p < 0 {
        None
    } else {
        read_number(s, p, 16, 4, true)
    }
}

/// Groups `i..limit` read from `pos`, after the groups `acc`: where reading
/// stopped, all groups read, and whether the last two came from an IPv4 address
/// (which ends the groups).
pub open spec fn read_groups(s: Seq<char>, pos: int, i: int, limit: int, acc: Seq<nat>) -> (
    int,
    Seq<nat>,
    bool,
)
    decreases limit - i,
{
    if i >= limit {
        (pos, acc, false)
    } else if i < limit - 1 && read_group_ipv4(s, pos, i) is Some {
        let (p, v) = read_group_ipv4(s, pos, i).unwrap();
        (p, acc + seq![v / 65536, v % 65536], true)
    } else {
        match read_group_hex(s, pos, i) {
            Some((p, g)) => read_groups(s, p, i + 1, limit, acc.push(g)),
            None => (pos, acc, false),
        }
    }
}

/// An IPv6 address at the start of `s`: its end and its eight groups.
pub open spec fn read_ipv6(s: Seq<char>) -> Option<(int, Seq<nat>)> {
    let (p, head, head_ipv4) = read_groups(s, 0, 0, 8, seq![]);
    if head.len() == 8 {
        Some((p, head))
    } else if head_ipv4 {
        None
    } else if !(0 <= p && p + 1 < s.len() && s[p] == ':' && s[p + 1] == ':') {
        None
    } else {
        let limit = 8 - (head.len() + 1);
        let (q, tail, _) = read_groups(s, p + 2, 0, limit, seq![]);
        Some((q, head + Seq::new((8 - head.len() - tail.len()) as nat, |k: int| 0nat) + tail))
    }
}

/// The number whose big-endian 16-bit groups are `g`.
pub open spec fn groups_value(g: Seq<nat>) -> nat
    decreases g.len(),
{
    if g.len() == 0 {
        0
    } else {
        groups_value(g.drop_last()) * 65536 + g.last()
    }
}

/// The address `str::parse::<IpAddr>` reads from `s`: an IPv4 address when one
/// starts the text, otherwise an IPv6 address; the whole text must be consumed.
pub open spec fn parse_ip_text(s: Seq<char>) -> Option<IpAddress> {
    match read_ipv4(s, 0) {
        Some((e, v)) => if e == s.len() {
            Some(IpAddress::V4(v as u32))
        } else {
            None
        },
        None => match read_ipv6(s) {
            Some((e, g)) => if e == s.len() {
                Some(IpAddress::V6(groups_value(g) as u128))
            } else {
                None
            },
            None => None,
        },
    }
}

/// The number `str::parse::<u32>` reads from `s`: an optional `+`, then at
/// least one decimal digit and nothing else, at most `u32::MAX`.
pub open spec fn parse_u32_text(s: Seq<char>) -> Option<u32> {
    let d = if s.len() > 0 && s[0] == '+' {
        s.subrange(1, s.len() as int)
    } else {
        s
    };
    if d.len() > 0 && run_end(d, 0, 10) == d.len() && run_value(d, 0, d.len() as int, 10)
        <= u32::MAX {
        Some(run_value(d, 0, d.len() as int, 10) as u32)
    } else {
        None
    }
}

pub open spec fn radix_pow(radix: nat, n: nat) -> nat
    decreases n,
{
    if n == 0 {
        1
    } else {
        radix * radix_pow(radix, (n - 1) as nat)
    }
}

proof fn lemma_value_step(v: nat, d: nat, radix: nat, n: nat)
    requires
        v < radix_pow(radix, n),
        d < radix,
    ensures
        v * radix + d < radix_pow(radix, n + 1),
{
    assert(radix_pow(radix, n + 1) == radix * radix_pow(radix, n));
    assert(v * radix + d < radix * radix_pow(radix, n)) by (nonlinear_arith)
        requires
            v < radix_pow(radix, n),
            d < radix,
    ;
}

proof fn lemma_run_end_ge(s: Seq<char>, pos: int, radix: nat)
    ensures
        run_end(s, pos, radix) >= pos,
        0 <= pos ==> run_end(s, pos, radix) <= if pos <= s.len() {
            s.len() as int
        } else {
            pos
        },
    decreases s.len() - pos,
{
    if 0 <= pos < s.len() && digit_of(s[pos], radix) is Some {
        lemma_run_end_ge(s, pos + 1, radix);
    }
}

/// `char::to_digit` for radix 10 or 16.
fn to_digit(c: char, radix: u32) -> (r: Option<u32>)
    requires
        radix == 10 || radix == 16,
    ensures
        match r {
            Some(d) => digit_of(c, radix as nat) == Some(d as nat) && d < radix,
            None => digit_of(c, radix as nat) is None,
        },
{
    if '0' <= c && c <= '9' {
        Some((c as u32) - ('0' as u32))
    } else if radix == 16 && 'a' <= c && c <= 'f' {
        Some((c as u32) - ('a' as u32) + 10)
    } else if radix == 16 && 'A' <= c && c <= 'F' {
        Some((c as u32) - ('A' as u32) + 10)
    } else {
        None
    }
}

proof fn lemma_radix_pow_small(radix: nat)
    requires
        radix == 10 || radix == 16,
    ensures
        radix_pow(radix, 0) == 1,
        radix_pow(radix, 1) == radix,
        radix_pow(radix, 2) == radix * radix,
        radix_pow(radix, 3) == radix * radix * radix,
        radix_pow(radix, 4) == radix * radix * radix * radix,
        radix_pow(radix, 4) <= 65536,
{
    reveal_with_fuel(radix_pow, 5);
}

/// Whether `c` is a digit of `radix`.
fn is_digit(c: char, radix: u32) -> (r: bool)
    requires
        radix == 10 || radix == 16,
    ensures
        r == (digit_of(c, radix as nat) is Some),
{
    to_digit(c, radix).is_some()
}

/// See `read_number`.
fn number_at(s: &[char], pos: usize, radix: u32, max_digits: usize, allow_zero_prefix: bool) -> (r:
    Option<(usize, u32)>)
    requires
        radix == 10 || radix == 16,
        1 <= max_digits <= 4,
        pos <= s@.len(),
    ensures
        match r {
            Some((e, v)) => read_number(s@, pos as int, radix as nat, max_digits as int, allow_zero_prefix)
                == Some((e as int, v as nat)) && pos < e <= s@.len() && v < 65536,
            None => read_number(s@, pos as int, radix as nat, max_digits as int, allow_zero_prefix) is None,
        },
{
    let mut i = pos;
    let mut v: u32 = 0;
    proof {
        lemma_run_end_ge(s@, pos as int, radix as nat);
        lemma_radix_pow_small(radix as nat);
    }
    while i < s.len() && is_digit(s[i], radix)
        invariant
            radix == 10 || radix == 16,
            1 <= max_digits <= 4,
            pos <= i <= s@.len(),
            i - pos <= max_digits,
            run_end(s@, pos as int, radix as nat) == run_end(s@, i as int, radix as nat),
            v == run_value(s@, pos as int, i as int, radix as nat),
            v < radix_pow(radix as nat, (i - pos) as nat),
            radix_pow(radix as nat, (i - pos) as nat) <= radix_pow(radix as nat, 4),
            radix_pow(radix as nat, 4) <= 65536,
        decreases s@.len() - i,
    {
        let d = match to_digit(s[i], radix) {
            Some(d) => d,
            None => 0,
        };
        if i - pos == max_digits {
            proof {
                lemma_run_end_ge(s@, i + 1, radix as nat);
            }
            return None;
        }
        proof {
            lemma_value_step(v as nat, d as nat, radix as nat, (i - pos) as nat);
            lemma_radix_pow_small(radix as nat);
            let n = (i - pos) as nat;
            if n == 0 {
                assert(radix_pow(radix as nat, n + 1) == radix);
            } else if n == 1 {
                assert(radix_pow(radix as nat, n + 1) == radix * radix);
            } else if n == 2 {
                assert(radix_pow(radix as nat, n + 1) == radix * radix * radix);
            } else {
                assert(radix_pow(radix as nat, n + 1) == radix_pow(radix as nat, 4));
            }
            assert(radix * radix <= radix * radix * radix) by (nonlinear_arith)
                requires radix >= 10;
            assert(radix * radix * radix <= radix * radix * radix * radix) by (nonlinear_arith)
                requires radix >= 10;
        }
        v = v * radix + d;
        i = i + 1;
    }
    let count = i - pos;
    if count == 0 {
        return None;
    }
    if !allow_zero_prefix && s[pos] == '0' && count > 1 {
        return None;
    }
    Some((i, v))
}


fn octet_at(s: &[char], pos: usize) -> (r: Option<(usize, u32)>)
    requires
        pos <= s@.len(),
    ensures
        match r {
            Some((e, v)) => read_octet(s@, pos as int) == Some((e as int, v as nat)) && e <= s@.len(),
            None => read_octet(s@, pos as int) is None,
        },
{
    match number_at(s, pos, 10, 3, false) {
        Some((e, v)) => if v <= 255 {
            Some((e, v))
        } else {
            None
        },
        None => None,
    }
}

fn sep_octet_at(s: &[char], pos: usize, c: char) -> (r: Option<(usize, u32)>)
    requires
        pos <= s@.len(),
    ensures
        match r {
            Some((e, v)) => read_sep_octet(s@, pos as int, c) == Some((e as int, v as nat)) && e <= s@.len(),
            None => read_sep_octet(s@, pos as int, c) is None,
        },
{
    if pos < s.len() && s[pos] == c {
        octet_at(s, pos + 1)
    } else {
        None
    }
}

/// See `read_ipv4`.
fn ipv4_at(s: &[char], pos: usize) -> (r: Option<(usize, u32)>)
    requires
        pos <= s@.len(),
    ensures
        match r {
            Some((e, v)) => read_ipv4(s@, pos as int) == Some((e as int, v as nat)) && e <= s@.len(),
            None => read_ipv4(s@, pos as int) is None,
        },
{
    let (p1, a) = match octet_at(s, pos) {
        Some(x) => x,
        None => {
            return None;
        },
    };
    let (p2, b) = match sep_octet_at(s, p1, '.') {
        Some(x) => x,
        None => {
            return None;
        },
    };
    let (p3, c) = match sep_octet_at(s, p2, '.') {
        Some(x) => x,
        None => {
            return None;
        },
    };
    let (p4, d) = match sep_octet_at(s, p3, '.') {
        Some(x) => x,
        None => {
            return None;
        },
    };
    Some((p4, ((a * 256 + b) * 256 + c) * 256 + d))
}

/// See `group_start`.
fn group_start_at(s: &[char], pos: usize, i: usize) -> (r: Option<usize>)
    requires
        pos <= s@.len(),
    ensures
        match r {
            Some(p) => group_start(s@, pos as int, i as int) == p as int && p <= s@.len(),
            None => group_start(s@, pos as int, i as int) < 0,
        },
{
    if i == 0 {
        Some(pos)
    } else if pos < s.len() && s[pos] == ':' {
        Some(pos + 1)
    } else {
        None
    }
}

/// See `read_groups`: where reading stopped, the groups, whether an IPv4 address ended them.
fn groups_at(s: &[char], pos: usize, limit: usize) -> (r: (usize, Vec<u32>, bool))
    requires
        pos <= s@.len(),
        limit <= 8,
    ensures
        ({
            let (p, all, v4) = read_groups(s@, pos as int, 0, limit as int, seq![]);
            &&& r.0 as int == p
            &&& r.2 == v4
            &&& r.1@.map_values(|g: u32| g as nat) == all
            &&& r.0 <= s@.len()
            &&& forall|k: int| 0 <= k < r.1@.len() ==> #[trigger] r.1@[k] < 65536
        }),
{
    let mut groups: Vec<u32> = Vec::new();
    assert(groups@.map_values(|g: u32| g as nat) =~= Seq::<nat>::empty());
    let mut p = pos;
    let mut i: usize = 0;
    while i < limit
        invariant
            limit <= 8,
            i <= limit,
            p <= s@.len(),
            read_groups(s@, pos as int, 0, limit as int, seq![]) == read_groups(
                s@,
                p as int,
                i as int,
                limit as int,
                groups@.map_values(|g: u32| g as nat),
            ),
            forall|k: int| 0 <= k < groups@.len() ==> #[trigger] groups@[k] < 65536,
        decreases limit - i,
    {
        let ghost gv = groups@.map_values(|g: u32| g as nat);
        let start = group_start_at(s, p, i);
        let v4: Option<(usize, u32)> = if i + 1 < limit {
            match start {
                Some(q) => ipv4_at(s, q),
                None => None,
            }
        } else {
            None
        };
        assert(v4 is Some <==> (i < limit - 1 && read_group_ipv4(s@, p as int, i as int) is Some));
        match v4 {
            Some((e, v)) => {
                assert(read_group_ipv4(s@, p as int, i as int) == Some((e as int, v as nat)));
                groups.push(v / 65536);
                groups.push(v % 65536);
                assert(groups@.map_values(|g: u32| g as nat) =~= gv + seq![
                    (v as nat) / 65536,
                    (v as nat) % 65536,
                ]);
                return (e, groups, true);
            },
            None => {},
        }
        match start {
            None => {
                return (p, groups, false);
            },
            Some(q) => match number_at(s, q, 16, 4, true) {
                None => {
                    return (p, groups, false);
                },
                Some((e, g)) => {
                    groups.push(g);
                    assert(groups@.map_values(|g: u32| g as nat) =~= gv.push(g as nat));
                    p = e;
                },
            },
        }
        i = i + 1;
    }
    (p, groups, false)
}

/// See `read_ipv6`: the end and the eight groups.
fn ipv6_at(s: &[char]) -> (r: Option<(usize, Vec<u32>)>)
    ensures
        match r {
            Some((e, g)) => read_ipv6(s@) == Some((e as int, g@.map_values(|x: u32| x as nat)))
                && g@.len() == 8 && forall|k: int| 0 <= k < 8 ==> #[trigger] g@[k] < 65536,
            None => read_ipv6(s@) is None,
        },
{
    let (p, head, head_v4) = groups_at(s, 0, 8);
    proof {
        lemma_read_groups_len(s@, 0, 0, 8, seq![]);
    }
    if head.len() == 8 {
        return Some((p, head));
    }
    if head_v4 {
        return None;
    }
    if !(p < s.len() && p + 1 < s.len() && s[p] == ':' && s[p + 1] == ':') {
        return None;
    }
    let limit = 8 - (head.len() + 1);
    let (q, tail, _) = groups_at(s, p + 2, limit);
    proof {
        lemma_read_groups_len(s@, p + 2, 0, limit as int, seq![]);
    }
    let zeros = 8 - head.len() - tail.len();
    let ghost hv = head@.map_values(|x: u32| x as nat);
    let ghost tv = tail@.map_values(|x: u32| x as nat);
    let mut out = head;
    let mut k: usize = 0;
    while k < zeros
        invariant
            k <= zeros,
            out@.len() == hv.len() + k,
            out@.map_values(|x: u32| x as nat) == hv + Seq::new(k as nat, |j: int| 0nat),
            forall|j: int| 0 <= j < out@.len() ==> #[trigger] out@[j] < 65536,
        decreases zeros - k,
    {
        let ghost before = out@.map_values(|x: u32| x as nat);
        out.push(0);
        k = k + 1;
        assert(out@.map_values(|x: u32| x as nat) =~= before.push(0nat));
        assert(before.push(0nat) =~= hv + Seq::new(k as nat, |j: int| 0nat));
    }
    let ghost mid = out@.map_values(|x: u32| x as nat);
    let mut t: usize = 0;
    while t < tail.len()
        invariant
            tv == tail@.map_values(|x: u32| x as nat),
            t <= tail@.len(),
            out@.map_values(|x: u32| x as nat) == mid + tv.take(t as int),
            forall|j: int| 0 <= j < out@.len() ==> #[trigger] out@[j] < 65536,
            forall|j: int| 0 <= j < tail@.len() ==> #[trigger] tail@[j] < 65536,
        decreases tail@.len() - t,
    {
        let ghost before = out@.map_values(|x: u32| x as nat);
        out.push(tail[t]);
        t = t + 1;
        assert(out@.map_values(|x: u32| x as nat) =~= before.push(tail@[t - 1] as nat));
        assert(before.push(tail@[t - 1] as nat) =~= mid + tv.take(t as int));
    }
    assert(tv.take(tail@.len() as int) =~= tv);
    Some((q, out))
}

proof fn lemma_read_groups_len(s: Seq<char>, pos: int, i: int, limit: int, acc: Seq<nat>)
    requires
        0 <= i <= limit,
        acc.len() == i,
    ensures
        read_groups(s, pos, i, limit, acc).1.len() <= limit + 1,
        read_groups(s, pos, i, limit, acc).1.len() >= acc.len(),
        read_groups(s, pos, i, limit, acc).1.len() <= limit || read_groups(
            s,
            pos,
            i,
            limit,
            acc,
        ).2,
        read_groups(s, pos, i, limit, acc).2 ==> read_groups(s, pos, i, limit, acc).1.len() <= limit,
    decreases limit - i,
{
    if i < limit && !(i < limit - 1 && read_group_ipv4(s, pos, i) is Some) {
        match read_group_hex(s, pos, i) {
            Some((p, g)) => lemma_read_groups_len(s, p, i + 1, limit, acc.push(g)),
            None => {},
        }
    }
}

/// The number whose 16-bit groups are `g`.
fn groups_to_u128(g: &Vec<u32>) -> (r: u128)
    requires
        g@.len() == 8,
        forall|k: int| 0 <= k < 8 ==> #[trigger] g@[k] < 65536,
    ensures
        r as nat == groups_value(g@.map_values(|x: u32| x as nat)),
{
    let mut v: u128 = 0;
    let mut k: usize = 0;
    while k < 8
        invariant
            g@.len() == 8,
            forall|j: int| 0 <= j < 8 ==> #[trigger] g@[j] < 65536,
            k <= 8,
            v as nat == groups_value(g@.map_values(|x: u32| x as nat).take(k as int)),
            v < radix_pow(65536, k as nat),
        decreases 8 - k,
    {
        let ghost gv = g@.map_values(|x: u32| x as nat);
        assert(gv.take(k + 1).drop_last() =~= gv.take(k as int));
        proof {
            lemma_value_step(v as nat, g@[k as int] as nat, 65536, k as nat);
            lemma_pow_65536_bound(k as nat + 1);
        }
        v = v * 65536 + (g[k] as u128);
        k = k + 1;
    }
    assert(g@.map_values(|x: u32| x as nat).take(8) =~= g@.map_values(|x: u32| x as nat));
    v
}

proof fn lemma_pow_65536_bound(n: nat)
    requires
        n <= 8,
    ensures
        radix_pow(65536, n) <= 0x1_0000_0000_0000_0000_0000_0000_0000_0000,
{
    reveal_with_fuel(radix_pow, 9);
}

/// Parses an IPv4 or IPv6 address the way `str::parse::<IpAddr>` does.
pub fn parse_ip_addr(s: &[char]) -> (r: Option<IpAddress>)
    ensures
        r == parse_ip_text(s@),
{
    match ipv4_at(s, 0) {
        Some((e, v)) => if e == s.len() {
            Some(IpAddress::V4(v))
        } else {
            None
        },
        None => match ipv6_at(s) {
            Some((e, g)) => if e == s.len() {
                Some(IpAddress::V6(groups_to_u128(&g)))
            } else {
                None
            },
            None => None,
        },
    }
}

/// Parses a `u32` the way `str::parse::<u32>` does.
pub fn parse_u32(s: &[char]) -> (r: Option<u32>)
    ensures
        r == parse_u32_text(s@),
{
    let d = if s.len() > 0 && s[0] == '+' {
        vstd::slice::slice_subrange(s, 1, s.len())
    } else {
        s
    };
    if d.len() == 0 {
        return None;
    }
    let mut v: u64 = 0;
    let mut i: usize = 0;
    let ghost dd = if s@.len() > 0 && s@[0] == '+' {
        s@.subrange(1, s@.len() as int)
    } else {
        s@
    };
    assert(d@ == dd);
    while i < d.len()
        invariant
            d@ == dd,
            dd == (if s@.len() > 0 && s@[0] == '+' {
                s@.subrange(1, s@.len() as int)
            } else {
                s@
            }),
            d@.len() > 0,
            i <= d@.len(),
            run_end(d@, 0, 10) == run_end(d@, i as int, 10),
            v as nat == run_value(d@, 0, i as int, 10),
            v <= u32::MAX,
        decreases d@.len() - i,
    {
        match to_digit(d[i], 10) {
            None => {
                assert(run_end(d@, i as int, 10) == i);
                return None;
            },
            Some(x) => {
                if v > (u32::MAX as u64 - x as u64) / 10 {
                    assert(run_value(d@, 0, i as int + 1, 10) == v * 10 + x);
                    assert(v * 10 + x > u32::MAX) by (nonlinear_arith)
                        requires v > (u32::MAX as u64 - x as u64) / 10, x < 10;
                    proof {
                        if run_end(d@, 0, 10) == d@.len() {
                            assert(run_end(d@, i as int + 1, 10) == run_end(d@, i as int, 10));
                            lemma_run_value_monotone(d@, 0, i as int + 1, d@.len() as int);
                            assert(run_value(d@, 0, d@.len() as int, 10) > u32::MAX);
                        }
                    }
                    return None;
                }
                v = v * 10 + x as u64;
                i = i + 1;
            },
        }
    }
    Some(v as u32)
}

/// More digits never make a smaller number.
proof fn lemma_run_value_monotone(s: Seq<char>, from: int, to: int, to2: int)
    requires
        from <= to <= to2,
        run_end(s, to, 10) >= to2,
    ensures
        run_value(s, from, to, 10) <= run_value(s, from, to2, 10),
    decreases to2 - to,
{
    if to < to2 {
        lemma_run_value_monotone(s, from, to, to2 - 1);
        lemma_run_end_digits(s, to, to2 - 1);
    }
}

/// Every position inside the run holds a digit.
proof fn lemma_run_end_digits(s: Seq<char>, pos: int, k: int)
    requires
        pos <= k < run_end(s, pos, 10),
    ensures
        0 <= k < s.len(),
        digit_of(s[k], 10) is Some,
    decreases k - pos,
{
    if 0 <= pos < s.len() && digit_of(s[pos], 10) is Some {
        if k > pos {
            lemma_run_end_digits(s, pos + 1, k);
        }
    }
}

/// One to four hexadecimal digits: an IPv6 group as written.
pub open spec fn hex_group(g: Seq<char>) -> bool {
    &&& 1 <= g.len() <= 4
    &&& forall|i: int| 0 <= i < g.len() ==> digit_of(#[trigger] g[i], 16) is Some
}

/// The value of a written group.
pub open spec fn hex_value(g: Seq<char>) -> nat {
    run_value(g, 0, g.len() as int, 16)
}

/// A run of digits ends at the first position that is no digit.
proof fn lemma_run_end_at(s: Seq<char>, p: int, e: int, radix: nat)
    requires
        0 <= p <= e <= s.len(),
        forall|k: int| p <= k < e ==> digit_of(#[trigger] s[k], radix) is Some,
        e == s.len() || digit_of(s[e], radix) is None,
    ensures
        run_end(s, p, radix) == e,
    decreases e - p,
{
    if p < e {
        lemma_run_end_at(s, p + 1, e, radix);
    }
}

/// The value of digits depends only on those digits.
proof fn lemma_run_value_slice(s: Seq<char>, p: int, e: int, radix: nat)
    requires
        0 <= p <= e <= s.len(),
    ensures
        run_value(s, p, e, radix) == run_value(s.subrange(p, e), 0, e - p, radix),
    decreases e - p,
{
    if p < e {
        lemma_run_value_slice(s, p, e - 1, radix);
        let t = s.subrange(p, e);
        assert(t.subrange(0, e - 1 - p) =~= s.subrange(p, e - 1));
        lemma_run_value_prefix(t, e - 1 - p, radix);
        assert(t[e - 1 - p] == s[e - 1]);
    }
}

/// Digits before `n` read the same in a longer text.
proof fn lemma_run_value_prefix(t: Seq<char>, n: int, radix: nat)
    requires
        0 <= n < t.len(),
    ensures
        run_value(t, 0, n, radix) == run_value(t.subrange(0, n), 0, n, radix),
    decreases n,
{
    if n > 0 {
        lemma_run_value_prefix(t, n - 1, radix);
        let u = t.subrange(0, n);
        assert(u.subrange(0, n - 1) =~= t.subrange(0, n - 1));
        lemma_run_value_prefix(u, n - 1, radix);
        assert(u[n - 1] == t[n - 1]);
    }
}

/// A written group at `p`, ended by `:` or the end of the text: it reads as a
/// hexadecimal group, and no IPv4 address starts there.
proof fn lemma_group_at(s: Seq<char>, p: int, g: Seq<char>)
    requires
        hex_group(g),
        0 <= p,
        p + g.len() <= s.len(),
        s.subrange(p, p + g.len()) == g,
        p + g.len() == s.len() || s[p + g.len()] == ':',
    ensures
        read_number(s, p, 16, 4, true) == Some((p + g.len(), hex_value(g))),
        read_ipv4(s, p) is None,
{
    let e = p + g.len();
    assert forall|k: int| p <= k < e implies digit_of(#[trigger] s[k], 16) is Some by {
        assert(s[k] == g[k - p]);
    }
    lemma_run_end_at(s, p, e, 16);
    lemma_run_value_slice(s, p, e, 16);
    let d = run_end(s, p, 10);
    lemma_run_end_ge(s, p, 10);
    if d > e {
        lemma_run_end_digits(s, p, e);
    }
    if read_octet(s, p) is Some {
        let (p1, _) = read_octet(s, p).unwrap();
        assert(p1 == d);
        if p1 < e {
            assert(s[p1] == g[p1 - p]);
        }
        assert(read_sep_octet(s, p1, '.') is None);
    }
}

/// A `:` at `p` starts no group: neither digits nor an IPv4 address.
proof fn lemma_no_group_at(s: Seq<char>, p: int)
    requires
        0 <= p < s.len(),
        s[p] == ':',
    ensures
        read_number(s, p, 16, 4, true) is None,
        read_ipv4(s, p) is None,
{
    lemma_run_end_at(s, p, p, 16);
    lemma_run_end_at(s, p, p, 10);
}

proof fn lemma_one_zero_one_value(a: nat, b: nat)
    ensures
        groups_value(seq![a] + Seq::new(6, |k: int| 0nat) + seq![b]) == a
            * 0x1_0000_0000_0000_0000_0000_0000_0000 + b,
{
    let z = Seq::new(6, |k: int| 0nat);
    let g = seq![a] + z + seq![b];
    assert(g.drop_last() =~= seq![a] + z);
    let h = seq![a] + z;
    assert(h.take(1) =~= seq![a]);
    assert(groups_value(seq![a]) == a) by {
        assert(seq![a].drop_last() =~= Seq::<nat>::empty());
        assert(groups_value(Seq::<nat>::empty()) == 0);
        assert(seq![a].last() == a);
    }
    assert(h.take(2).drop_last() =~= h.take(1));
    assert(h.take(3).drop_last() =~= h.take(2));
    assert(h.take(4).drop_last() =~= h.take(3));
    assert(h.take(5).drop_last() =~= h.take(4));
    assert(h.take(6).drop_last() =~= h.take(5));
    assert(h.take(7).drop_last() =~= h.take(6));
    assert(h.take(7) =~= h);
    assert(groups_value(h.take(2)) == a * 65536);
    assert(groups_value(h.take(3)) == a * 65536 * 65536);
    assert(groups_value(h.take(4)) == a * 65536 * 65536 * 65536);
    assert(groups_value(h.take(5)) == a * 65536 * 65536 * 65536 * 65536);
    assert(groups_value(h.take(6)) == a * 65536 * 65536 * 65536 * 65536 * 65536);
    assert(groups_value(h.take(7)) == a * 65536 * 65536 * 65536 * 65536 * 65536 * 65536);
    assert(a * 65536 * 65536 * 65536 * 65536 * 65536 * 65536 * 65536 == a
        * 0x1_0000_0000_0000_0000_0000_0000_0000) by (nonlinear_arith);
}

/// In an IPv6 address written `g1::g2`, the group before `::` is the first
/// of the eight and the group after it is the last; the six between are zero.
pub proof fn lemma_ipv6_zero_fill_between(g1: Seq<char>, g2: Seq<char>)
    requires
        hex_group(g1),
        hex_group(g2),
    ensures
        parse_ip_text(g1 + seq![':', ':'] + g2) == Some(
            IpAddress::V6(
                (hex_value(g1) * 0x1_0000_0000_0000_0000_0000_0000_0000 + hex_value(g2)) as u128,
            ),
        ),
{
    let s = g1 + seq![':', ':'] + g2;
    let l1 = g1.len() as int;
    let n = s.len() as int;
    assert(s.subrange(0, l1) =~= g1);
    assert(s.subrange(l1 + 2, n) =~= g2);
    assert(s[l1] == ':' && s[l1 + 1] == ':');
    lemma_group_at(s, 0, g1);
    lemma_group_at(s, l1 + 2, g2);
    lemma_no_group_at(s, l1 + 1);
    let h1 = hex_value(g1);
    let h2 = hex_value(g2);
    assert(read_groups(s, l1, 1, 8, seq![h1]) == (l1, seq![h1], false));
    assert(read_groups(s, 0, 0, 8, seq![]) == (l1, seq![h1], false)) by {
        assert(seq![].push(h1) =~= seq![h1]);
    }
    assert(read_groups(s, n, 1, 6, seq![h2]) == (n, seq![h2], false));
    assert(read_groups(s, l1 + 2, 0, 6, seq![]) == (n, seq![h2], false)) by {
        assert(seq![].push(h2) =~= seq![h2]);
    }
    assert(read_ipv6(s) == Some((n, seq![h1] + Seq::new(6, |k: int| 0nat) + seq![h2])));
    lemma_one_zero_one_value(h1, h2);
}

/// In an IPv6 address written `::g`, the written group is the last of the
/// eight and all before it are zero.
pub proof fn lemma_ipv6_leading_zero_fill(g: Seq<char>)
    requires
        hex_group(g),
    ensures
        parse_ip_text(seq![':', ':'] + g) == Some(IpAddress::V6(hex_value(g) as u128)),
{
    let s = seq![':', ':'] + g;
    let n = s.len() as int;
    assert(s.subrange(2, n) =~= g);
    lemma_group_at(s, 2, g);
    lemma_no_group_at(s, 0);
    let h = hex_value(g);
    assert(read_groups(s, 0, 0, 8, seq![]) == (0int, Seq::<nat>::empty(), false));
    assert(read_groups(s, n, 1, 7, seq![h]) == (n, seq![h], false));
    assert(read_groups(s, 2, 0, 7, seq![]) == (n, seq![h], false)) by {
        assert(seq![].push(h) =~= seq![h]);
    }
    let g8 = Seq::<nat>::empty() + Seq::new(7, |k: int| 0nat) + seq![h];
    assert(read_ipv6(s) == Some((n, g8)));
    assert(read_ipv4(s, 0) is None);
    let z = Seq::new(7, |k: int| 0nat);
    assert(g8.drop_last() =~= z);
    assert forall|m: int| 0 <= m <= 7 implies #[trigger] groups_value(z.take(m)) == 0 by {
        lemma_zero_groups(z, m);
    }
    assert(z.take(7) =~= z);
    assert(groups_value(z) == 0);
    assert(g8.last() == h);
    assert(groups_value(g8) == h);
}

proof fn lemma_zero_groups(z: Seq<nat>, m: int)
    requires
        0 <= m <= z.len(),
        forall|i: int| 0 <= i < z.len() ==> z[i] == 0,
    ensures
        groups_value(z.take(m)) == 0,
    decreases m,
{
    if m > 0 {
        lemma_zero_groups(z, m - 1);
        assert(z.take(m).drop_last() =~= z.take(m - 1));
    }
}

/// Groups written each after a `:`.
pub open spec fn colon_groups(gs: Seq<Seq<char>>) -> Seq<char>
    decreases gs.len(),
{
    if gs.len() == 0 {
        seq![]
    } else {
        seq![':'] + gs[0] + colon_groups(gs.drop_first())
    }
}

/// Groups written with `:` between them.
pub open spec fn join_groups(gs: Seq<Seq<char>>) -> Seq<char> {
    if gs.len() == 0 {
        seq![]
    } else {
        gs[0] + colon_groups(gs.drop_first())
    }
}

pub open spec fn all_hex_groups(gs: Seq<Seq<char>>) -> bool {
    forall|k: int| 0 <= k < gs.len() ==> hex_group(#[trigger] gs[k])
}

/// Where no further group can start: the end of the text, a `:` at its end,
/// or `::`.
pub open spec fn groups_stop(s: Seq<char>, q: int) -> bool {
    ||| q == s.len()
    ||| (0 <= q < s.len() && s[q] == ':' && (q + 1 == s.len() || (q + 1 < s.len() && s[q + 1]
        == ':')))
}

proof fn lemma_nothing_at_stop(s: Seq<char>, q: int, i: int)
    requires
        0 <= q,
        groups_stop(s, q),
        i >= 1,
    ensures
        read_group_ipv4(s, q, i) is None,
        read_group_hex(s, q, i) is None,
{
    if q < s.len() {
        if q + 1 == s.len() {
            lemma_run_end_at(s, q + 1, q + 1, 16);
            lemma_run_end_at(s, q + 1, q + 1, 10);
        } else {
            lemma_no_group_at(s, q + 1);
        }
    }
}

proof fn lemma_read_colon_groups(
    s: Seq<char>,
    pos: int,
    i: int,
    limit: int,
    acc: Seq<nat>,
    gs: Seq<Seq<char>>,
)
    requires
        1 <= i,
        i + gs.len() <= limit,
        all_hex_groups(gs),
        0 <= pos,
        pos + colon_groups(gs).len() <= s.len(),
        s.subrange(pos, pos + colon_groups(gs).len()) == colon_groups(gs),
        groups_stop(s, pos + colon_groups(gs).len()),
    ensures
        read_groups(s, pos, i, limit, acc) == (
            pos + colon_groups(gs).len(),
            acc + gs.map_values(|g: Seq<char>| hex_value(g)),
            false,
        ),
    decreases gs.len(),
{
    let cg = colon_groups(gs);
    if gs.len() == 0 {
        assert(acc + gs.map_values(|g: Seq<char>| hex_value(g)) =~= acc);
        if i < limit {
            lemma_nothing_at_stop(s, pos, i);
        }
    } else {
        let g = gs[0];
        let rest = gs.drop_first();
        let cr = colon_groups(rest);
        assert(cg == seq![':'] + g + cr);
        assert(s[pos] == cg[0]);
        assert(s.subrange(pos + 1, pos + 1 + g.len()) =~= g) by {
            assert forall|k: int| 0 <= k < g.len() implies s.subrange(pos + 1, pos + 1 + g.len())[k]
                == g[k] by {
                assert(s[pos + 1 + k] == cg[1 + k]);
            }
        }
        let q = pos + 1 + g.len();
        assert(s.subrange(q, q + cr.len()) =~= cr) by {
            assert forall|k: int| 0 <= k < cr.len() implies s.subrange(q, q + cr.len())[k] == cr[k] by {
                assert(s[q + k] == cg[1 + g.len() + k]);
            }
        }
        if rest.len() > 0 {
            assert(cr[0] == ':');
            assert(s[q] == cr[0]);
        }
        assert(hex_group(g));
        lemma_group_at(s, pos + 1, g);
        assert forall|k: int| 0 <= k < rest.len() implies hex_group(#[trigger] rest[k]) by {
            assert(rest[k] == gs[k + 1]);
        }
        lemma_read_colon_groups(s, q, i + 1, limit, acc.push(hex_value(g)), rest);
        assert(acc.push(hex_value(g)) + rest.map_values(|x: Seq<char>| hex_value(x)) =~= acc
            + gs.map_values(|x: Seq<char>| hex_value(x)));
    }
}

proof fn lemma_read_joined_groups(
    s: Seq<char>,
    pos: int,
    limit: int,
    gs: Seq<Seq<char>>,
)
    requires
        gs.len() <= limit,
        all_hex_groups(gs),
        0 <= pos,
        pos + join_groups(gs).len() <= s.len(),
        s.subrange(pos, pos + join_groups(gs).len()) == join_groups(gs),
        groups_stop(s, pos + join_groups(gs).len()),
    ensures
        read_groups(s, pos, 0, limit, seq![]) == (
            pos + join_groups(gs).len(),
            gs.map_values(|g: Seq<char>| hex_value(g)),
            false,
        ),
{
    if gs.len() == 0 {
        assert(gs.map_values(|g: Seq<char>| hex_value(g)) =~= Seq::<nat>::empty());
        if limit > 0 {
            if pos < s.len() {
                lemma_no_group_at(s, pos);
            } else {
                lemma_run_end_at(s, pos, pos, 16);
                lemma_run_end_at(s, pos, pos, 10);
            }
        }
    } else {
        let g = gs[0];
        let rest = gs.drop_first();
        let cr = colon_groups(rest);
        let j = join_groups(gs);
        assert(j == g + cr);
        assert(s.subrange(pos, pos + g.len()) =~= g) by {
            assert forall|k: int| 0 <= k < g.len() implies s.subrange(pos, pos + g.len())[k] == g[k] by {
                assert(s[pos + k] == j[k]);
            }
        }
        let q = pos + g.len();
        assert(s.subrange(q, q + cr.len()) =~= cr) by {
            assert forall|k: int| 0 <= k < cr.len() implies s.subrange(q, q + cr.len())[k] == cr[k] by {
                assert(s[q + k] == j[g.len() + k]);
            }
        }
        if rest.len() > 0 {
            assert(cr[0] == ':');
            assert(s[q] == cr[0]);
        }
        assert(hex_group(g));
        lemma_group_at(s, pos, g);
        assert forall|k: int| 0 <= k < rest.len() implies hex_group(#[trigger] rest[k]) by {
            assert(rest[k] == gs[k + 1]);
        }
        lemma_read_colon_groups(s, q, 1, limit, seq![hex_value(g)], rest);
        assert(seq![].push(hex_value(g)) =~= seq![hex_value(g)]);
        assert(seq![hex_value(g)] + rest.map_values(|x: Seq<char>| hex_value(x)) =~= gs.map_values(
            |x: Seq<char>| hex_value(x),
        ));
    }
}

/// An IPv6 address written `h::t`, with `h` and `t` lists of hexadecimal
/// groups (seven at most together): its eight groups are those of `h`, then
/// zeros, then those of `t`, so the groups after `::` are the last ones.
pub proof fn lemma_ipv6_groups_around_zero_fill(h: Seq<Seq<char>>, t: Seq<Seq<char>>)
    requires
        all_hex_groups(h),
        all_hex_groups(t),
        h.len() + t.len() <= 7,
    ensures
        parse_ip_text(join_groups(h) + seq![':', ':'] + join_groups(t)) == Some(
            IpAddress::V6(
                groups_value(
                    h.map_values(|g: Seq<char>| hex_value(g)) + Seq::new(
                        (8 - h.len() - t.len()) as nat,
                        |k: int| 0nat,
                    ) + t.map_values(|g: Seq<char>| hex_value(g)),
                ) as u128,
            ),
        ),
{
    let jh = join_groups(h);
    let jt = join_groups(t);
    let s = jh + seq![':', ':'] + jt;
    let p = jh.len() as int;
    let n = s.len() as int;
    assert(s.subrange(0, p) =~= jh);
    assert(s.subrange(p + 2, n) =~= jt);
    assert(s[p] == ':' && s[p + 1] == ':');
    lemma_read_joined_groups(s, 0, 8, h);
    lemma_read_joined_groups(s, p + 2, 8 - (h.len() + 1), t);
    if h.len() > 0 {
        assert(hex_group(h[0]));
        let g = h[0];
        assert(jh == g + colon_groups(h.drop_first()));
        assert(s.subrange(0, g.len() as int) =~= g) by {
            assert forall|k: int| 0 <= k < g.len() implies s.subrange(0, g.len() as int)[k] == g[k] by {
                assert(s[k] == jh[k]);
            }
        }
        if h.len() > 1 {
            assert(colon_groups(h.drop_first())[0] == ':');
            assert(s[g.len() as int] == jh[g.len() as int]);
        }
        lemma_group_at(s, 0, g);
    } else {
        lemma_no_group_at(s, 0);
    }
    assert(h.map_values(|g: Seq<char>| hex_value(g)).len() == h.len());
}

} // verus!
