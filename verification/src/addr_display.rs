//! IP addresses and targets as text.

use crate::proto::{be16, ProxyAddr, Target};
use crate::text::{decimal, push_decimal};
use vstd::prelude::*;
use vstd::string::StringExecFns;

verus! {

/// The lower-case hexadecimal digit of a value below sixteen.
pub open spec fn hex_char(d: nat) -> char {
    if d < 10 {
        ('0' as nat + d) as char
    } else {
        ('a' as nat + d - 10) as char
    }
}

/// A number in lower-case hexadecimal, without leading zeros.
pub open spec fn hex(n: nat) -> Seq<char>
    decreases n,
{
    if n < 16 {
        seq![hex_char(n)]
    } else {
        hex(n / 16).push(hex_char(n % 16))
    }
}

/// Appends a number in hexadecimal.
pub fn push_hex(s: &mut String, n: u64)
    ensures
        final(s)@ == old(s)@ + hex(n as nat),
    decreases n,
{
    if n >= 16 {
        push_hex(s, n / 16);
    }
    let d: u8 = (n % 16) as u8;
    if d < 10 {
        s.push((48u8 + d) as char);
    } else {
        s.push((87u8 + d) as char);
    }
    assert(s@ =~= old(s)@ + hex(n as nat));
}

/// An IPv4 address in dotted decimal.
pub open spec fn ipv4_display(o: Seq<u8>) -> Seq<char> {
    decimal(o[0] as nat).push('.') + decimal(o[1] as nat).push('.') + decimal(o[2] as nat).push('.')
        + decimal(o[3] as nat)
}

/// Appends an IPv4 address.
pub fn push_ipv4(s: &mut String, a: u8, b: u8, c: u8, d: u8)
    ensures
        final(s)@ == old(s)@ + ipv4_display(seq![a, b, c, d]),
{
    push_decimal(s, a as u64);
    s.push('.');
    push_decimal(s, b as u64);
    s.push('.');
    push_decimal(s, c as u64);
    s.push('.');
    push_decimal(s, d as u64);
    assert(s@ =~= old(s)@ + ipv4_display(seq![a, b, c, d]));
}

/// The eight 16-bit groups of an IPv6 address.
pub open spec fn groups_of(o: Seq<u8>) -> Seq<u16> {
    Seq::new(8, |i: int| be16(o[2 * i], o[2 * i + 1]))
}

/// Groups in hexadecimal between colons.
pub open spec fn groups_display(g: Seq<u16>) -> Seq<char>
    decreases g.len(),
{
    if g.len() == 0 {
        Seq::empty()
    } else if g.len() == 1 {
        hex(g[0] as nat)
    } else {
        groups_display(g.drop_last()).push(':') + hex(g.last() as nat)
    }
}

/// How many groups of zeros stand in a row from `i` on.
pub open spec fn zeros_at(g: Seq<u16>, i: int) -> nat
    decreases g.len() - i,
{
    if i < g.len() && g[i] == 0 {
        1 + zeros_at(g, i + 1)
    } else {
        0
    }
}

/// The first place up to `i` from which the most groups of zeros stand in a
/// row.
pub open spec fn longest_zeros(g: Seq<u16>, i: int) -> int
    decreases i,
{
    if i <= 0 {
        0
    } else {
        let best = longest_zeros(g, i - 1);
        if zeros_at(g, i) > zeros_at(g, best) {
            i
        } else {
            best
        }
    }
}

/// Whether an IPv6 address stands for an IPv4 address.
pub open spec fn is_ipv4_mapped(g: Seq<u16>) -> bool {
    g[0] == 0 && g[1] == 0 && g[2] == 0 && g[3] == 0 && g[4] == 0 && g[5] == 0xffff
}

/// An IPv6 address: eight groups between colons, where the first of the longest
/// rows of two or more zeros becomes a double colon.  An address that stands
/// for an IPv4 address ends in that one.
pub open spec fn ipv6_display(o: Seq<u8>) -> Seq<char> {
    let g = groups_of(o);
    let z = longest_zeros(g, 7);
    let n = zeros_at(g, z);
    if is_ipv4_mapped(g) {
        "::ffff:"@ + ipv4_display(o.subrange(12, 16))
    } else if n > 1 {
        groups_display(g.take(z)).push(':').push(':') + groups_display(g.skip(z + n))
    } else {
        groups_display(g)
    }
}

/// Appends the groups from `from` up to `to`.
pub fn push_groups(s: &mut String, g: &Vec<u16>, from: usize, to: usize)
    requires
        from <= to <= g@.len(),
    ensures
        final(s)@ == old(s)@ + groups_display(g@.subrange(from as int, to as int)),
{
    let mut i: usize = from;
    assert(old(s)@ + groups_display(g@.subrange(from as int, from as int)) =~= old(s)@);
    while i < to
        invariant
            from <= i <= to <= g@.len(),
            s@ == old(s)@ + groups_display(g@.subrange(from as int, i as int)),
        decreases to - i,
    {
        let ghost done = g@.subrange(from as int, i as int);
        let ghost next = g@.subrange(from as int, i + 1);
        assert(next.drop_last() =~= done);
        if i > from {
            s.push(':');
        }
        push_hex(s, g[i] as u64);
        assert(s@ =~= old(s)@ + groups_display(next));
        i = i + 1;
    }
}

/// Counts the groups of zeros in a row from `from` on.
pub fn count_zeros(g: &Vec<u16>, from: usize) -> (res: usize)
    requires
        from <= g@.len(),
    ensures
        res == zeros_at(g@, from as int),
        from + res <= g@.len(),
{
    let mut i: usize = from;
    while i < g.len() && g[i] == 0
        invariant
            from <= i <= g@.len(),
            zeros_at(g@, from as int) == i - from + zeros_at(g@, i as int),
        decreases g@.len() - i,
    {
        i = i + 1;
    }
    i - from
}

/// Appends an IPv6 address.
pub fn push_ipv6(s: &mut String, o: &[u8; 16])
    ensures
        final(s)@ == old(s)@ + ipv6_display(o@),
{
    let mut g: Vec<u16> = Vec::new();
    let mut i: usize = 0;
    while i < 8
        invariant
            i <= 8,
            g@ == groups_of(o@).take(i as int),
        decreases 8 - i,
    {
        g.push((o[2 * i] as u16) * 256 + (o[2 * i + 1] as u16));
        i = i + 1;
        assert(g@ =~= groups_of(o@).take(i as int));
    }
    assert(g@ =~= groups_of(o@));
    if g[0] == 0 && g[1] == 0 && g[2] == 0 && g[3] == 0 && g[4] == 0 && g[5] == 0xffff {
        s.append("::ffff:");
        push_ipv4(s, o[12], o[13], o[14], o[15]);
        assert(o@.subrange(12, 16) =~= seq![o[12], o[13], o[14], o[15]]);
        assert(s@ =~= old(s)@ + ipv6_display(o@));
        return;
    }
    let mut z: usize = 0;
    let mut n: usize = count_zeros(&g, 0);
    let mut j: usize = 1;
    while j < 8
        invariant
            1 <= j <= 8,
            g@.len() == 8,
            z == longest_zeros(g@, j - 1),
            0 <= z < 8,
            n == zeros_at(g@, z as int),
            z + n <= 8,
        decreases 8 - j,
    {
        let m = count_zeros(&g, j);
        if m > n {
            z = j;
            n = m;
        }
        j = j + 1;
    }
    if n > 1 {
        push_groups(s, &g, 0, z);
        s.push(':');
        s.push(':');
        push_groups(s, &g, z + n, 8);
        assert(g@.subrange(0, z as int) =~= g@.take(z as int));
        assert(g@.subrange(z + n, 8) =~= g@.skip(z + n));
        assert(s@ =~= old(s)@ + ipv6_display(o@));
    } else {
        push_groups(s, &g, 0, 8);
        assert(g@.subrange(0, 8) =~= g@);
    }
}

/// A target as text: the address or the host, a colon and the port.
pub open spec fn target_display(t: Target) -> Seq<char> {
    match t {
        Target::Ipv4(o, port) => ipv4_display(o).push(':') + decimal(port as nat),
        Target::Ipv6(o, port) => seq!['['] + ipv6_display(o).push(']').push(':') + decimal(
            port as nat,
        ),
        Target::Domain(host, port) => host.push(':') + decimal(port as nat),
    }
}

impl ProxyAddr {
    /// The target as text.
    pub fn display(&self) -> (res: String)
        ensures
            res@ == target_display(self@),
    {
        let mut s = String::new();
        match self {
            ProxyAddr::Ipv4(o, port) => {
                push_ipv4(&mut s, o[0], o[1], o[2], o[3]);
                s.push(':');
                push_decimal(&mut s, *port as u64);
                assert(o@ =~= seq![o[0], o[1], o[2], o[3]]);
            },
            ProxyAddr::Ipv6(o, port) => {
                s.push('[');
                push_ipv6(&mut s, o);
                s.push(']');
                s.push(':');
                push_decimal(&mut s, *port as u64);
            },
            ProxyAddr::Domain(host, port) => {
                s.append(host.as_str());
                s.push(':');
                push_decimal(&mut s, *port as u64);
            },
        }
        assert(s@ =~= target_display(self@));
        s
    }
}

} // verus!
