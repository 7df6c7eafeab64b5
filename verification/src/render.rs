//! Rendering numbers and addresses as text, the way Rust's `Display` and
//! `{:x}` formatting write them.
use vstd::prelude::*;

use crate::net::IpAddress;

verus! {

/// The digit for `d` (`0`-`9`, then `a`-`f`).
pub open spec fn digit_char(d: nat) -> char {
    if d < 10 {
        ((d + 48) as u32) as char
    } else {
        ((d + 87) as u32) as char
    }
}

/// `n` in base `radix` (2 to 16), without leading zeros; `0` is one digit.
pub open spec fn radix_text(n: nat, radix: nat) -> Seq<char>
    decreases n,
{
    if radix < 2 || n < radix {
        seq![digit_char(n)]
    } else {
        proof {
            assert(n / radix < n) by (nonlinear_arith)
                requires
                    radix >= 2,
                    n >= radix,
            ;
        }
        radix_text(n / radix, radix).push(digit_char(n % radix))
    }
}

/// `n` in decimal.
pub open spec fn dec_text(n: nat) -> Seq<char> {
    radix_text(n, 10)
}

/// `n` in lower-case hexadecimal.
pub open spec fn hex_text(n: nat) -> Seq<char> {
    radix_text(n, 16)
}

fn digit(d: u64) -> (c: char)
    requires
        d < 16,
    ensures
        c == digit_char(d as nat),
{
    let c = match d {
        0 => '0',
        1 => '1',
        2 => '2',
        3 => '3',
        4 => '4',
        5 => '5',
        6 => '6',
        7 => '7',
        8 => '8',
        9 => '9',
        10 => 'a',
        11 => 'b',
        12 => 'c',
        13 => 'd',
        14 => 'e',
        _ => 'f',
    };
    c
}

/// Appends `n` in base `radix`.
pub fn push_radix(out: &mut Vec<char>, n: u64, radix: u64)
    requires
        2 <= radix <= 16,
    ensures
        final(out)@ == old(out)@ + radix_text(n as nat, radix as nat),
    decreases n,
{
    if n >= radix {
        assert(n / radix < n) by (nonlinear_arith)
            requires
                radix >= 2,
                n >= radix,
        ;
        push_radix(out, n / radix, radix);
    }
    out.push(digit(n % radix));
    if n < radix {
        assert(n % radix == n) by (nonlinear_arith)
            requires
                n < radix,
        ;
    }
    assert(out@ =~= old(out)@ + radix_text(n as nat, radix as nat));
}

/// Appends `n` in decimal.
pub fn push_dec(out: &mut Vec<char>, n: u64)
    ensures
        final(out)@ == old(out)@ + dec_text(n as nat),
{
    push_radix(out, n, 10);
}

/// Appends the characters of `s`.
pub fn push_str(out: &mut Vec<char>, s: &str)
    ensures
        final(out)@ == old(out)@ + s@,
{
    let ghost start = out@;
    for c in it: s.chars()
        invariant
            out@ == start + it.seq().take(it.index()),
            it.seq() == s@,
    {
        broadcast use vstd::string::axiom_spec_iter;

        out.push(c);
        assert(out@ =~= start + it.seq().take(it.index() + 1));
    }
    assert(out@ =~= start + s@);
}

/// Appends the characters of `s`.
pub fn push_chars(out: &mut Vec<char>, s: &[char])
    ensures
        final(out)@ == old(out)@ + s@,
{
    let ghost start = out@;
    let mut i: usize = 0;
    while i < s.len()
        invariant
            i <= s@.len(),
            out@ == start + s@.take(i as int),
        decreases s@.len() - i,
    {
        out.push(s[i]);
        assert(s@.take(i + 1) =~= s@.take(i as int).push(s@[i as int]));
        i = i + 1;
    }
    assert(s@.take(i as int) =~= s@);
}

/// The dotted-decimal text of an IPv4 address.
pub open spec fn ipv4_text(x: u32) -> Seq<char> {
    dec_text((x / 0x100_0000) as nat) + seq!['.'] + dec_text(((x / 0x1_0000) % 256) as nat) + seq![
        '.',
    ] + dec_text(((x / 256) % 256) as nat) + seq!['.'] + dec_text((x % 256) as nat)
}

/// Appends the dotted-decimal text of an IPv4 address.
pub fn push_ipv4(out: &mut Vec<char>, x: u32)
    ensures
        final(out)@ == old(out)@ + ipv4_text(x),
{
    let ghost start = out@;
    push_dec(out, (x / 0x100_0000) as u64);
    out.push('.');
    push_dec(out, ((x / 0x1_0000) % 256) as u64);
    out.push('.');
    push_dec(out, ((x / 256) % 256) as u64);
    out.push('.');
    push_dec(out, (x % 256) as u64);
    assert(out@ =~= start + ipv4_text(x));
}

/// The eight 16-bit groups of an IPv6 address, most significant first.
pub open spec fn groups_of(x: nat, n: nat) -> Seq<nat>
    decreases n,
{
    if n == 0 {
        seq![]
    } else {
        groups_of(x / 65536, (n - 1) as nat).push(x % 65536)
    }
}

pub open spec fn v6_groups(x: u128) -> Seq<nat> {
    groups_of(x as nat, 8)
}

/// Scanning the groups from the left: the first longest run of zero groups so
/// far (start, length) and the run of zero groups that ends here (start, length).
pub open spec fn zero_runs(g: Seq<nat>, i: int) -> (int, int, int, int)
    decreases i,
{
    if i <= 0 {
        (0, 0, 0, 0)
    } else {
        let (ls, ll, cs, cl) = zero_runs(g, i - 1);
        if g[i - 1] == 0 {
            let s = if cl == 0 {
                i - 1
            } else {
                cs
            };
            if cl + 1 > ll {
                (s, cl + 1, s, cl + 1)
            } else {
                (ls, ll, s, cl + 1)
            }
        } else {
            (ls, ll, 0, 0)
        }
    }
}

/// Groups in hexadecimal, separated by colons.
pub open spec fn hex_groups(g: Seq<nat>) -> Seq<char>
    decreases g.len(),
{
    if g.len() == 0 {
        seq![]
    } else if g.len() == 1 {
        hex_text(g[0])
    } else {
        hex_groups(g.drop_last()) + seq![':'] + hex_text(g.last())
    }
}

/// Whether the address is an IPv4 address mapped into IPv6 (`::ffff:a.b.c.d`).
pub open spec fn is_v4_mapped(g: Seq<nat>) -> bool {
    g[0] == 0 && g[1] == 0 && g[2] == 0 && g[3] == 0 && g[4] == 0 && g[5] == 0xffff
}

/// The text of an IPv6 address: IPv4-mapped addresses as `::ffff:` and the
/// IPv4 text; otherwise the groups in hexadecimal, with the first longest run
/// of two or more zero groups written as `::`.
pub open spec fn ipv6_text(x: u128) -> Seq<char> {
    let g = v6_groups(x);
    if is_v4_mapped(g) {
        seq![':', ':', 'f', 'f', 'f', 'f', ':'] + ipv4_text((g[6] * 65536 + g[7]) as u32)
    } else {
        let (ls, ll, _cs, _cl) = zero_runs(g, 8);
        if ll > 1 {
            hex_groups(g.take(ls)) + seq![':', ':'] + hex_groups(g.skip(ls + ll))
        } else {
            hex_groups(g)
        }
    }
}

/// The text of an address.
pub open spec fn ip_text(ip: IpAddress) -> Seq<char> {
    match ip {
        IpAddress::V4(x) => ipv4_text(x),
        IpAddress::V6(x) => ipv6_text(x),
    }
}

proof fn lemma_groups_len(x: nat, n: nat)
    ensures
        groups_of(x, n).len() == n,
        forall|i: int| 0 <= i < n ==> #[trigger] groups_of(x, n)[i] < 65536,
    decreases n,
{
    if n > 0 {
        lemma_groups_len(x / 65536, (n - 1) as nat);
    }
}

/// The groups of `x`, computed from the least significant end.
fn groups(x: u128, n: usize) -> (r: Vec<u64>)
    requires
        n <= 8,
    ensures
        r@.len() == n,
        forall|i: int| 0 <= i < n ==> #[trigger] r@[i] as nat == groups_of(x as nat, n as nat)[i],
    decreases n,
{
    if n == 0 {
        return Vec::new();
    }
    let mut v = groups(x / 65536, n - 1);
    v.push((x % 65536) as u64);
    proof {
        lemma_groups_len(x as nat, n as nat);
    }
    v
}

proof fn lemma_zero_runs_bounds(g: Seq<nat>, i: int)
    requires
        0 <= i,
    ensures
        ({
            let (ls, ll, cs, cl) = zero_runs(g, i);
            0 <= ls && 0 <= ll && ls + ll <= i && 0 <= cs && 0 <= cl && cs + cl == (if cl == 0 {
                cs
            } else {
                i
            }) && cl <= ll
        }),
    decreases i,
{
    if i > 0 {
        lemma_zero_runs_bounds(g, i - 1);
    }
}

/// Appends groups in hexadecimal, separated by colons.
fn push_hex_groups(out: &mut Vec<char>, g: &[u64])
    requires
        forall|i: int| 0 <= i < g@.len() ==> #[trigger] g@[i] < 65536,
    ensures
        final(out)@ == old(out)@ + hex_groups(g@.map_values(|v: u64| v as nat)),
{
    let ghost start = out@;
    let ghost gs = g@.map_values(|v: u64| v as nat);
    let mut i: usize = 0;
    while i < g.len()
        invariant
            i <= g@.len(),
            gs == g@.map_values(|v: u64| v as nat),
            out@ == start + hex_groups(gs.take(i as int)),
        decreases g@.len() - i,
    {
        if i > 0 {
            out.push(':');
        }
        push_radix(out, g[i], 16);
        proof {
            let t = gs.take(i + 1);
            assert(t.drop_last() =~= gs.take(i as int));
            if i == 0 {
                assert(out@ =~= start + hex_groups(t));
            } else {
                assert(out@ =~= start + hex_groups(t));
            }
        }
        i = i + 1;
    }
    assert(gs.take(i as int) =~= gs);
}

/// Appends the text of an IPv6 address (see `ipv6_text`).
pub fn push_ipv6(out: &mut Vec<char>, x: u128)
    ensures
        final(out)@ == old(out)@ + ipv6_text(x),
{
    let ghost start = out@;
    let g = groups(x, 8);
    let ghost gs = g@.map_values(|v: u64| v as nat);
    proof {
        lemma_groups_len(x as nat, 8);
        assert(gs =~= v6_groups(x));
    }
    if g[0] == 0 && g[1] == 0 && g[2] == 0 && g[3] == 0 && g[4] == 0 && g[5] == 0xffff {
        push_str(out, "::ffff:");
        proof {
            reveal_strlit("::ffff:");
        }
        push_ipv4(out, (g[6] * 65536 + g[7]) as u32);
        assert(out@ =~= start + ipv6_text(x));
        return;
    }
    let mut ls: usize = 0;
    let mut ll: usize = 0;
    let mut cs: usize = 0;
    let mut cl: usize = 0;
    let mut i: usize = 0;
    while i < 8
        invariant
            i <= 8,
            g@.len() == 8,
            gs == g@.map_values(|v: u64| v as nat),
            (ls as int, ll as int, cs as int, cl as int) == zero_runs(gs, i as int),
        decreases 8 - i,
    {
        proof {
            lemma_zero_runs_bounds(gs, i as int);
        }
        if g[i] == 0 {
            if cl == 0 {
                cs = i;
            }
            cl = cl + 1;
            if cl > ll {
                ls = cs;
                ll = cl;
            }
        } else {
            cs = 0;
            cl = 0;
        }
        i = i + 1;
    }
    proof {
        lemma_zero_runs_bounds(gs, 8);
    }
    if ll > 1 {
        push_hex_groups(out, vstd::slice::slice_subrange(g.as_slice(), 0, ls));
        out.push(':');
        out.push(':');
        push_hex_groups(out, vstd::slice::slice_subrange(g.as_slice(), ls + ll, 8));
        proof {
            assert(g@.subrange(0, ls as int).map_values(|v: u64| v as nat) =~= gs.take(ls as int));
            assert(g@.subrange((ls + ll) as int, 8).map_values(|v: u64| v as nat) =~= gs.skip(
                (ls + ll) as int,
            ));
        }
        assert(out@ =~= start + ipv6_text(x));
    } else {
        push_hex_groups(out, g.as_slice());
        assert(out@ =~= start + ipv6_text(x));
    }
}

/// Appends the text of an address.
pub fn push_ip(out: &mut Vec<char>, ip: IpAddress)
    ensures
        final(out)@ == old(out)@ + ip_text(ip),
{
    match ip {
        IpAddress::V4(x) => push_ipv4(out, x),
        IpAddress::V6(x) => push_ipv6(out, x),
    }
}

} // verus!
