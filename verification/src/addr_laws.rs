//! Laws of ports and addresses as text: what is written is read back.

use crate::addr_display::{
    groups_display, groups_of, hex, hex_char, ipv4_display, ipv6_display, is_ipv4_mapped,
    longest_zeros, zeros_at,
};
use crate::addr_text::{
    digit_value, find_pair, group_octets, group_text, groups_from, ipv4_text, ipv6_text, is_number,
    number, octet_text, port_text, side_groups, split_on,
};
use crate::proto::{be16, be16_bytes};
use crate::text::{decimal, digit_char};
use vstd::prelude::*;

verus! {

/// Whether a text is made of digits of the base only.
pub open spec fn digits_only(s: Seq<char>, base: nat) -> bool {
    forall|i: int| 0 <= i < s.len() ==> digit_value(#[trigger] s[i]) < base
}

/// Whether a character does not occur in a text.
pub open spec fn lacks(s: Seq<char>, c: char) -> bool {
    forall|i: int| 0 <= i < s.len() ==> #[trigger] s[i] != c
}

pub(crate) proof fn lemma_decimal(n: nat)
    ensures
        is_number(decimal(n), 10),
        number(decimal(n), 10) == n,
        n > 0 ==> decimal(n)[0] != '0',
        n < 10 ==> decimal(n).len() == 1,
    decreases n,
{
    let s = decimal(n);
    if n < 10 {
        assert(digit_value(digit_char(n)) == n);
        reveal_with_fuel(number, 2);
        assert(s.drop_last() =~= Seq::<char>::empty());
    } else {
        lemma_decimal(n / 10);
        let d = digit_char(n % 10);
        assert(digit_value(d) == n % 10);
        assert(s.drop_last() =~= decimal(n / 10));
        assert(s.last() == d);
        assert forall|i: int| 0 <= i < s.len() implies digit_value(#[trigger] s[i]) < 10 by {
            if i < s.len() - 1 {
                assert(s[i] == decimal(n / 10)[i]);
            }
        }
    }
}

pub(crate) proof fn lemma_hex(n: nat)
    ensures
        is_number(hex(n), 16),
        number(hex(n), 16) == n,
    decreases n,
{
    let s = hex(n);
    if n < 16 {
        assert(digit_value(hex_char(n)) == n);
        reveal_with_fuel(number, 2);
        assert(s.drop_last() =~= Seq::<char>::empty());
    } else {
        lemma_hex(n / 16);
        let d = hex_char(n % 16);
        assert(digit_value(d) == n % 16);
        assert(s.drop_last() =~= hex(n / 16));
        assert(s.last() == d);
        assert forall|i: int| 0 <= i < s.len() implies digit_value(#[trigger] s[i]) < 16 by {
            if i < s.len() - 1 {
                assert(s[i] == hex(n / 16)[i]);
            }
        }
    }
}

proof fn lemma_hex_len(n: nat)
    requires
        n < 65536,
    ensures
        hex(n).len() <= 4,
{
    reveal_with_fuel(hex, 4);
}

/// A port in decimal is read back.
pub proof fn law_port_is_read_back(port: u16)
    ensures
        port_text(decimal(port as nat)) == Some(port),
{
    lemma_decimal(port as nat);
    let s = decimal(port as nat);
    assert(digit_value(s[0]) < 10);
}

proof fn lemma_octet(n: u8)
    ensures
        octet_text(decimal(n as nat)) == Some(n),
{
    lemma_decimal(n as nat);
}

proof fn lemma_group(n: u16)
    ensures
        group_text(hex(n as nat)) == Some(n),
{
    lemma_hex(n as nat);
    lemma_hex_len(n as nat);
}

pub(crate) proof fn lemma_split_one(f: Seq<char>, sep: char)
    requires
        lacks(f, sep),
    ensures
        split_on(f, sep) == seq![f],
    decreases f.len(),
{
    if f.len() > 0 {
        let before = f.drop_last();
        assert forall|i: int| 0 <= i < before.len() implies #[trigger] before[i] != sep by {
            assert(before[i] == f[i]);
        }
        lemma_split_one(before, sep);
        assert(f.last() == f[f.len() - 1]);
        let fields = split_on(before, sep);
        assert(fields.last().push(f.last()) =~= f);
        assert(fields.drop_last().push(f) =~= seq![f]);
    } else {
        assert(f =~= Seq::<char>::empty());
    }
}

pub(crate) proof fn lemma_split_last(s: Seq<char>, f: Seq<char>, sep: char)
    requires
        lacks(f, sep),
    ensures
        split_on(s.push(sep) + f, sep) == split_on(s, sep).push(f),
    decreases f.len(),
{
    let whole = s.push(sep) + f;
    if f.len() > 0 {
        let before = f.drop_last();
        assert forall|i: int| 0 <= i < before.len() implies #[trigger] before[i] != sep by {
            assert(before[i] == f[i]);
        }
        lemma_split_last(s, before, sep);
        assert(whole.drop_last() =~= s.push(sep) + before);
        assert(whole.last() == f.last());
        assert(f.last() == f[f.len() - 1]);
        let fields = split_on(s.push(sep) + before, sep);
        assert(fields.last().push(f.last()) =~= f);
        assert(fields.drop_last() =~= split_on(s, sep));
    } else {
        assert(whole =~= s.push(sep));
        assert(s.push(sep).drop_last() =~= s);
        assert(f =~= Seq::<char>::empty());
    }
}

pub(crate) proof fn lemma_digits_lack(s: Seq<char>, base: nat, c: char)
    requires
        digits_only(s, base),
        base <= 16,
        digit_value(c) == 16,
    ensures
        lacks(s, c),
{
    assert forall|i: int| 0 <= i < s.len() implies #[trigger] s[i] != c by {
        assert(digit_value(s[i]) < base);
    }
}

/// An IPv4 address in dotted decimal is read back.
pub proof fn law_ipv4_is_read_back(o: Seq<u8>)
    requires
        o.len() == 4,
    ensures
        ipv4_text(ipv4_display(o)) == Some(o),
{
    let a = decimal(o[0] as nat);
    let b = decimal(o[1] as nat);
    let c = decimal(o[2] as nat);
    let d = decimal(o[3] as nat);
    lemma_decimal(o[0] as nat);
    lemma_decimal(o[1] as nat);
    lemma_decimal(o[2] as nat);
    lemma_decimal(o[3] as nat);
    lemma_octet(o[0]);
    lemma_octet(o[1]);
    lemma_octet(o[2]);
    lemma_octet(o[3]);
    lemma_digits_lack(a, 10, '.');
    lemma_digits_lack(b, 10, '.');
    lemma_digits_lack(c, 10, '.');
    lemma_digits_lack(d, 10, '.');
    let ab = a.push('.') + b;
    let abc = ab.push('.') + c;
    lemma_split_one(a, '.');
    lemma_split_last(a, b, '.');
    lemma_split_last(ab, c, '.');
    lemma_split_last(abc, d, '.');
    assert(ipv4_display(o) =~= abc.push('.') + d);
    let fields = split_on(ipv4_display(o), '.');
    assert(fields =~= seq![a, b, c, d]);
    assert forall|i: int| 0 <= i < 4 implies octet_text(#[trigger] fields[i]) == Some(o[i]) by {}
    assert(ipv4_text(ipv4_display(o))->0 =~= o);
}

/// The groups in hexadecimal.
spec fn hex_fields(g: Seq<u16>) -> Seq<Seq<char>> {
    Seq::new(g.len(), |i: int| hex(g[i] as nat))
}

/// Whether no two colons stand side by side.
spec fn spaced(s: Seq<char>) -> bool {
    forall|i: int| 0 <= i < s.len() - 1 ==> !(#[trigger] s[i] == ':' && s[i + 1] == ':')
}

proof fn lemma_groups_display(g: Seq<u16>)
    requires
        g.len() > 0,
    ensures
        split_on(groups_display(g), ':') == hex_fields(g),
        groups_display(g).len() > 0,
        groups_display(g)[0] != ':',
        groups_display(g).last() != ':',
        spaced(groups_display(g)),
    decreases g.len(),
{
    let s = groups_display(g);
    let last = hex(g.last() as nat);
    lemma_hex(g.last() as nat);
    lemma_digits_lack(last, 16, ':');
    assert(last[0] != ':');
    assert(last[last.len() - 1] != ':');
    if g.len() == 1 {
        lemma_split_one(last, ':');
        assert(hex_fields(g) =~= seq![last]);
        assert(s == last);
        assert forall|i: int| 0 <= i < s.len() - 1 implies !(#[trigger] s[i] == ':' && s[i + 1]
            == ':') by {}
    } else {
        let before = g.drop_last();
        lemma_groups_display(before);
        let head = groups_display(before);
        lemma_split_last(head, last, ':');
        assert(hex_fields(g) =~= hex_fields(before).push(last));
        assert(s[0] == head[0]);
        assert(s.last() == last[last.len() - 1]);
        assert forall|i: int| 0 <= i < s.len() - 1 implies !(#[trigger] s[i] == ':' && s[i + 1]
            == ':') by {
            if i < head.len() - 1 {
                assert(s[i] == head[i] && s[i + 1] == head[i + 1]);
            } else if i == head.len() - 1 {
                assert(s[i] == head.last());
            } else if i == head.len() {
                assert(s[i + 1] == last[0]);
            } else {
                assert(s[i] == last[i - head.len() - 1]);
            }
        }
    }
}

proof fn lemma_groups_from(g: Seq<u16>, i: int, v4: bool)
    requires
        0 <= i <= g.len(),
    ensures
        groups_from(hex_fields(g), i, v4) == Some(g.skip(i)),
    decreases g.len() - i,
{
    if i < g.len() {
        lemma_groups_from(g, i + 1, v4);
        lemma_group(g[i]);
        assert(hex_fields(g)[i] == hex(g[i] as nat));
        assert(seq![g[i]] + g.skip(i + 1) =~= g.skip(i));
    } else {
        assert(g.skip(i) =~= Seq::<u16>::empty());
    }
}

proof fn lemma_side(g: Seq<u16>, v4: bool)
    ensures
        side_groups(groups_display(g), v4) == Some(g),
{
    if g.len() > 0 {
        lemma_groups_display(g);
        lemma_groups_from(g, 0, v4);
        assert(g.skip(0) =~= g);
    } else {
        assert(g =~= Seq::<u16>::empty());
    }
}

pub(crate) proof fn lemma_find_pair(s: Seq<char>, a: char, b: char, from: int, k: int)
    requires
        0 <= from <= k,
        k + 1 < s.len(),
        s[k] == a,
        s[k + 1] == b,
        forall|i: int| from <= i < k ==> !(#[trigger] s[i] == a && s[i + 1] == b),
    ensures
        find_pair(s, a, b, from) == Some(k),
    decreases k - from,
{
    if from < k {
        assert(!(s[from] == a && s[from + 1] == b));
        lemma_find_pair(s, a, b, from + 1, k);
    }
}

pub(crate) proof fn lemma_no_pair(s: Seq<char>, a: char, b: char, from: int)
    requires
        0 <= from,
        forall|i: int| from <= i < s.len() - 1 ==> !(#[trigger] s[i] == a && s[i + 1] == b),
    ensures
        find_pair(s, a, b, from) is None,
    decreases s.len() - from,
{
    if from + 1 < s.len() {
        assert(!(s[from] == a && s[from + 1] == b));
        lemma_no_pair(s, a, b, from + 1);
    }
}

proof fn lemma_zeros_at(g: Seq<u16>, i: int)
    requires
        0 <= i <= g.len(),
    ensures
        i + zeros_at(g, i) <= g.len(),
        forall|j: int| i <= j < i + zeros_at(g, i) ==> #[trigger] g[j] == 0,
    decreases g.len() - i,
{
    if i < g.len() && g[i] == 0 {
        lemma_zeros_at(g, i + 1);
    }
}

proof fn lemma_longest_zeros(g: Seq<u16>, i: int)
    requires
        0 <= i < g.len(),
    ensures
        0 <= longest_zeros(g, i) <= i,
    decreases i,
{
    if i > 0 {
        lemma_longest_zeros(g, i - 1);
    }
}

pub(crate) proof fn lemma_octets_of_groups(o: Seq<u8>)
    requires
        o.len() == 16,
    ensures
        group_octets(groups_of(o)) == o,
{
    let g = groups_of(o);
    assert forall|i: int| 0 <= i < 16 implies #[trigger] group_octets(g)[i] == o[i] by {
        let k = i / 2;
        let (hi, lo) = (o[2 * k], o[2 * k + 1]);
        assert(g[k] == be16(hi, lo));
        let n = (hi * 256 + lo) as u16;
        assert(n / 256 == hi && n % 256 == lo);
        assert(be16_bytes(n) =~= seq![hi, lo]);
    }
    assert(group_octets(g) =~= o);
}

proof fn lemma_compressed(g: Seq<u16>, z: int, n: int)
    requires
        g.len() == 8,
        0 <= z,
        1 < n,
        z + n <= 8,
        forall|j: int| z <= j < z + n ==> #[trigger] g[j] == 0,
    ensures
        ipv6_text(
            groups_display(g.take(z)).push(':').push(':') + groups_display(g.skip(z + n)),
        ) == Some(group_octets(g)),
{
    let head = groups_display(g.take(z));
    let tail = groups_display(g.skip(z + n));
    let s = head.push(':').push(':') + tail;
    let k = head.len() as int;
    lemma_side(g.take(z), false);
    lemma_side(g.skip(z + n), true);
    if z > 0 {
        lemma_groups_display(g.take(z));
    }
    assert forall|i: int| 0 <= i < k implies !(#[trigger] s[i] == ':' && s[i + 1] == ':') by {
        if i < k - 1 {
            assert(s[i] == head[i] && s[i + 1] == head[i + 1]);
        } else {
            assert(s[i] == head.last());
        }
    }
    lemma_find_pair(s, ':', ':', 0, k);
    assert(s.take(k) =~= head);
    assert(s.skip(k + 2) =~= tail);
    let zeros = Seq::new(n as nat, |i: int| 0u16);
    assert(g.take(z) + zeros + g.skip(z + n) =~= g);
}

/// What stands behind the double colon of an address that stands for an IPv4
/// address makes three groups.
proof fn lemma_mapped_tail(o4: Seq<u8>)
    requires
        o4.len() == 4,
    ensures
        side_groups(seq!['f', 'f', 'f', 'f', ':'] + ipv4_display(o4), true) == Some(
            seq![0xffffu16, be16(o4[0], o4[1]), be16(o4[2], o4[3])],
        ),
{
    let v4 = ipv4_display(o4);
    let ffff = seq!['f', 'f', 'f', 'f'];
    let tail = seq!['f', 'f', 'f', 'f', ':'] + v4;
    law_ipv4_is_read_back(o4);
    lemma_ipv4_chars(o4);
    lemma_split_one(ffff, ':');
    lemma_split_last(ffff, v4, ':');
    assert(tail =~= ffff.push(':') + v4);
    let fields = split_on(tail, ':');
    assert(fields =~= seq![ffff, v4]);
    assert(group_text(ffff) == Some(0xffffu16)) by {
        lemma_group(0xffff);
        assert(hex(0xffff) =~= ffff) by {
            reveal_with_fuel(hex, 4);
        }
    }
    assert(group_text(v4) is None) by {
        let dot = decimal(o4[0] as nat).len() as int;
        assert(v4[dot] == '.');
        assert(digit_value(v4[dot]) == 16);
    }
    let last2 = seq![be16(o4[0], o4[1]), be16(o4[2], o4[3])];
    assert(groups_from(fields, 1, true) == Some(last2));
    assert(seq![0xffffu16] + last2 =~= seq![
        0xffffu16,
        be16(o4[0], o4[1]),
        be16(o4[2], o4[3]),
    ]);
}

proof fn lemma_mapped(o: Seq<u8>)
    requires
        o.len() == 16,
        is_ipv4_mapped(groups_of(o)),
    ensures
        ipv6_text("::ffff:"@ + ipv4_display(o.subrange(12, 16))) == Some(o),
{
    reveal_strlit("::ffff:");
    let g = groups_of(o);
    let o4 = o.subrange(12, 16);
    let s = "::ffff:"@ + ipv4_display(o4);
    lemma_mapped_tail(o4);
    lemma_find_pair(s, ':', ':', 0, 0);
    assert(s.take(0) =~= Seq::<char>::empty());
    assert(s.skip(2) =~= seq!['f', 'f', 'f', 'f', ':'] + ipv4_display(o4));
    let zeros = Seq::new(5, |i: int| 0u16);
    let groups = seq![0xffffu16, be16(o4[0], o4[1]), be16(o4[2], o4[3])];
    assert(Seq::<u16>::empty() + zeros + groups =~= g);
    lemma_octets_of_groups(o);
}

pub(crate) proof fn lemma_ipv4_chars(o: Seq<u8>)
    requires
        o.len() == 4,
    ensures
        forall|i: int|
            0 <= i < ipv4_display(o).len() ==> digit_value(#[trigger] ipv4_display(o)[i]) < 10
                || ipv4_display(o)[i] == '.',
        lacks(ipv4_display(o), ':'),
{
    lemma_decimal(o[0] as nat);
    lemma_decimal(o[1] as nat);
    lemma_decimal(o[2] as nat);
    lemma_decimal(o[3] as nat);
    let a = decimal(o[0] as nat).push('.');
    let b = decimal(o[1] as nat).push('.');
    let c = decimal(o[2] as nat).push('.');
    let d = decimal(o[3] as nat);
    let s = ipv4_display(o);
    assert forall|i: int| 0 <= i < s.len() implies digit_value(#[trigger] s[i]) < 10 || s[i]
        == '.' by {
        if i < a.len() {
            assert(s[i] == a[i]);
        } else if i < a.len() + b.len() {
            assert(s[i] == b[i - a.len()]);
        } else if i < a.len() + b.len() + c.len() {
            assert(s[i] == c[i - a.len() - b.len()]);
        } else {
            assert(s[i] == d[i - a.len() - b.len() - c.len()]);
        }
    }
    assert forall|i: int| 0 <= i < s.len() implies #[trigger] s[i] != ':' by {
        assert(digit_value(s[i]) < 10 || s[i] == '.');
    }
}

/// An IPv6 address, as it is written, is read back.
pub proof fn law_ipv6_is_read_back(o: Seq<u8>)
    requires
        o.len() == 16,
    ensures
        ipv6_text(ipv6_display(o)) == Some(o),
{
    let g = groups_of(o);
    let z = longest_zeros(g, 7);
    let n = zeros_at(g, z) as int;
    lemma_octets_of_groups(o);
    lemma_longest_zeros(g, 7);
    lemma_zeros_at(g, z);
    if is_ipv4_mapped(g) {
        lemma_mapped(o);
    } else if n > 1 {
        lemma_compressed(g, z, n);
    } else {
        let s = groups_display(g);
        lemma_groups_display(g);
        lemma_groups_from(g, 0, true);
        assert(g.skip(0) =~= g);
        lemma_no_pair(s, ':', ':', 0);
    }
}

/// Of the rows of zeros in an IPv6 address, the double colon stands for one that
/// no other exceeds, and for the first of those.
pub proof fn law_longest_zeros_are_shortened(g: Seq<u16>, i: int, j: int)
    requires
        0 <= j <= i < g.len(),
    ensures
        zeros_at(g, j) <= zeros_at(g, longest_zeros(g, i)),
        j < longest_zeros(g, i) ==> zeros_at(g, j) < zeros_at(g, longest_zeros(g, i)),
    decreases i,
{
    lemma_longest_zeros(g, i);
    if i > 0 {
        lemma_longest_zeros(g, i - 1);
        if j < i {
            law_longest_zeros_are_shortened(g, i - 1, j);
        } else {
            law_longest_zeros_are_shortened(g, i - 1, longest_zeros(g, i - 1));
        }
    }
}

/// A row of zeros ends where a group is not zero, or with the address.
pub proof fn law_zeros_are_counted(g: Seq<u16>, i: int)
    requires
        0 <= i <= g.len(),
    ensures
        i + zeros_at(g, i) <= g.len(),
        forall|j: int| i <= j < i + zeros_at(g, i) ==> #[trigger] g[j] == 0,
        i + zeros_at(g, i) < g.len() ==> g[i + zeros_at(g, i)] != 0,
    decreases g.len() - i,
{
    lemma_zeros_at(g, i);
    if i < g.len() && g[i] == 0 {
        law_zeros_are_counted(g, i + 1);
    }
}

} // verus!
