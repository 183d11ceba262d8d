//! The text of ports and IP addresses.

use crate::proto::{be16, be16_bytes};
use vstd::prelude::*;
use vstd::slice::{slice_subrange, slice_to_vec};

verus! {

/// The value of a digit in a base of at most sixteen; sixteen where the
/// character is no digit.
pub open spec fn digit_value(c: char) -> nat {
    if '0' <= c <= '9' {
        (c as nat - '0' as nat) as nat
    } else if 'a' <= c <= 'f' {
        (c as nat - 'a' as nat + 10) as nat
    } else if 'A' <= c <= 'F' {
        (c as nat - 'A' as nat + 10) as nat
    } else {
        16
    }
}

/// At least one digit, and nothing but digits of the base.
pub open spec fn is_number(s: Seq<char>, base: nat) -> bool {
    s.len() > 0 && forall|i: int| 0 <= i < s.len() ==> digit_value(#[trigger] s[i]) < base
}

/// The value of a sequence of digits.
pub open spec fn number(s: Seq<char>, base: nat) -> nat
    decreases s.len(),
{
    if s.len() == 0 {
        0
    } else {
        number(s.drop_last(), base) * base + digit_value(s.last())
    }
}

/// A number of at most sixteen bits in decimal, with an optional plus sign.
pub open spec fn port_text(s: Seq<char>) -> Option<u16> {
    let digits = if s.len() > 0 && s[0] == '+' {
        s.drop_first()
    } else {
        s
    };
    if is_number(digits, 10) && number(digits, 10) <= u16::MAX {
        Some(number(digits, 10) as u16)
    } else {
        None
    }
}

/// A number below 256 in decimal, without leading zeros.
pub open spec fn octet_text(s: Seq<char>) -> Option<u8> {
    if is_number(s, 10) && (s[0] == '0' ==> s.len() == 1) && number(s, 10) <= u8::MAX {
        Some(number(s, 10) as u8)
    } else {
        None
    }
}

/// A number of at most sixteen bits in one to four hexadecimal digits.
pub open spec fn group_text(s: Seq<char>) -> Option<u16> {
    if is_number(s, 16) && s.len() <= 4 {
        Some(number(s, 16) as u16)
    } else {
        None
    }
}

/// What stands between the separators.
pub open spec fn split_on(s: Seq<char>, sep: char) -> Seq<Seq<char>>
    decreases s.len(),
{
    if s.len() == 0 {
        seq![Seq::<char>::empty()]
    } else {
        let fields = split_on(s.drop_last(), sep);
        if s.last() == sep {
            fields.push(Seq::<char>::empty())
        } else {
            fields.drop_last().push(fields.last().push(s.last()))
        }
    }
}

/// The first place from `from` on where the two characters stand side by side.
pub open spec fn find_pair(s: Seq<char>, a: char, b: char, from: int) -> Option<int>
    decreases s.len() - from,
{
    if from + 1 >= s.len() {
        None
    } else if s[from] == a && s[from + 1] == b {
        Some(from)
    } else {
        find_pair(s, a, b, from + 1)
    }
}

/// The octets of an IPv4 address in dotted decimal.
pub open spec fn ipv4_text(s: Seq<char>) -> Option<Seq<u8>> {
    let fields = split_on(s, '.');
    if fields.len() == 4 && forall|i: int|
        0 <= i < 4 ==> octet_text(#[trigger] fields[i]) is Some {
        Some(Seq::new(4, |i: int| octet_text(fields[i])->0))
    } else {
        None
    }
}

/// The 16-bit groups in the fields from `i` on, each in hexadecimal.  Where
/// `v4` is set, the last field may also be an IPv4 address, which makes two
/// groups.
pub open spec fn groups_from(fields: Seq<Seq<char>>, i: int, v4: bool) -> Option<Seq<u16>>
    decreases fields.len() - i,
{
    if i >= fields.len() {
        Some(Seq::empty())
    } else if group_text(fields[i]) is Some {
        match groups_from(fields, i + 1, v4) {
            Some(rest) => Some(seq![group_text(fields[i])->0] + rest),
            None => None,
        }
    } else if v4 && i == fields.len() - 1 && ipv4_text(fields[i]) is Some {
        let o = ipv4_text(fields[i])->0;
        Some(seq![be16(o[0], o[1]), be16(o[2], o[3])])
    } else {
        None
    }
}

/// The groups on one side of a double colon, where there may be none.
pub open spec fn side_groups(s: Seq<char>, v4: bool) -> Option<Seq<u16>> {
    if s.len() == 0 {
        Some(Seq::empty())
    } else {
        groups_from(split_on(s, ':'), 0, v4)
    }
}

/// The octets of 16-bit groups, the high one of each group first.
pub open spec fn group_octets(groups: Seq<u16>) -> Seq<u8> {
    Seq::new(2 * groups.len(), |i: int| be16_bytes(groups[i / 2])[i % 2])
}

/// The octets of an IPv6 address: eight groups between colons, where a double
/// colon stands for one or more groups of zeros, and the last two groups may
/// be written as an IPv4 address.
pub open spec fn ipv6_text(s: Seq<char>) -> Option<Seq<u8>> {
    match find_pair(s, ':', ':', 0) {
        None => match groups_from(split_on(s, ':'), 0, true) {
            Some(groups) if groups.len() == 8 => Some(group_octets(groups)),
            _ => None,
        },
        Some(k) => match (side_groups(s.take(k), false), side_groups(s.skip(k + 2), true)) {
            (Some(head), Some(tail)) if head.len() + tail.len() <= 7 => {
                let zeros = Seq::new((8 - head.len() - tail.len()) as nat, |i: int| 0u16);
                Some(group_octets(head + zeros + tail))
            },
            _ => None,
        },
    }
}

/// Reads a digit.
pub fn read_digit(c: char) -> (res: u32)
    ensures
        res == digit_value(c),
{
    if '0' <= c && c <= '9' {
        c as u32 - '0' as u32
    } else if 'a' <= c && c <= 'f' {
        c as u32 - 'a' as u32 + 10
    } else if 'A' <= c && c <= 'F' {
        c as u32 - 'A' as u32 + 10
    } else {
        16
    }
}

/// Reads the digits from `from` on as a number of at most sixteen bits.
pub fn read_number(s: &Vec<char>, from: usize, base: u32) -> (res: Option<u16>)
    requires
        from <= s@.len(),
        2 <= base <= 16,
    ensures
        res is Some <==> is_number(s@.skip(from as int), base as nat) && number(
            s@.skip(from as int),
            base as nat,
        ) <= u16::MAX,
        res matches Some(n) ==> n == number(s@.skip(from as int), base as nat),
{
    let ghost t = s@.skip(from as int);
    if from == s.len() {
        return None;
    }
    // Past sixteen bits the value stays at the first one that does not fit.
    let mut acc: u32 = 0;
    let mut i: usize = from;
    while i < s.len()
        invariant
            from <= i <= s@.len(),
            2 <= base <= 16,
            t == s@.skip(from as int),
            acc <= 65536,
            acc < 65536 ==> acc == number(t.take(i - from), base as nat),
            acc == 65536 ==> number(t.take(i - from), base as nat) > u16::MAX,
            forall|j: int| 0 <= j < i - from ==> digit_value(#[trigger] t[j]) < base,
        decreases s@.len() - i,
    {
        let d = read_digit(s[i]);
        assert(t[i - from] == s@[i as int]);
        if d >= base {
            return None;
        }
        let ghost before = number(t.take(i - from), base as nat);
        assert(t.take(i + 1 - from).drop_last() =~= t.take(i - from));
        assert(number(t.take(i + 1 - from), base as nat) == before * base + d);
        if acc < 65536 {
            assert(acc * base <= 65535 * 16) by (nonlinear_arith)
                requires
                    acc <= 65535,
                    base <= 16,
            ;
            let next = acc * base + d;
            acc = if next > 65535 {
                65536
            } else {
                next
            };
        } else {
            assert(before * base >= before) by (nonlinear_arith)
                requires
                    base >= 2,
                    before >= 0,
            ;
        }
        i = i + 1;
    }
    assert(t.take(t.len() as int) =~= t);
    if acc > 65535 {
        None
    } else {
        Some(acc as u16)
    }
}

/// Reads a port.
pub fn parse_port(s: &Vec<char>) -> (res: Option<u16>)
    ensures
        res == port_text(s@),
{
    assert(s@.skip(0) =~= s@);
    if s.len() > 0 && s[0] == '+' {
        assert(s@.skip(1) =~= s@.drop_first());
        read_number(s, 1, 10)
    } else {
        read_number(s, 0, 10)
    }
}

/// Reads one number of an IPv4 address.
pub fn parse_octet(s: &Vec<char>) -> (res: Option<u8>)
    ensures
        res == octet_text(s@),
{
    assert(s@.skip(0) =~= s@);
    if s.len() > 1 && s[0] == '0' {
        return None;
    }
    match read_number(s, 0, 10) {
        Some(n) if n <= 255 => Some(n as u8),
        _ => None,
    }
}

pub(crate) proof fn lemma_four_digits_fit(s: Seq<char>)
    requires
        is_number(s, 16),
        s.len() <= 4,
    ensures
        number(s, 16) <= u16::MAX,
{
    reveal_with_fuel(number, 5);
    assert(s.len() > 1 ==> s.drop_last().last() == s[s.len() - 2]);
    assert(s.len() > 2 ==> s.drop_last().drop_last().last() == s[s.len() - 3]);
    assert(s.len() > 3 ==> s.drop_last().drop_last().drop_last().last() == s[s.len() - 4]);
}

/// Reads one group of an IPv6 address.
pub fn parse_group(s: &Vec<char>) -> (res: Option<u16>)
    ensures
        res == group_text(s@),
{
    assert(s@.skip(0) =~= s@);
    if s.len() > 4 {
        return None;
    }
    proof {
        if is_number(s@, 16) {
            lemma_four_digits_fit(s@);
        }
    }
    read_number(s, 0, 16)
}

/// Fields as mathematical values.
pub open spec fn fields_view(fields: Seq<Vec<char>>) -> Seq<Seq<char>> {
    Seq::new(fields.len(), |i: int| fields[i]@)
}

/// Splits a text at a separator.
pub fn split_fields(s: &Vec<char>, sep: char) -> (res: Vec<Vec<char>>)
    ensures
        fields_view(res@) == split_on(s@, sep),
{
    let mut fields: Vec<Vec<char>> = Vec::new();
    let mut field: Vec<char> = Vec::new();
    let mut i: usize = 0;
    assert(s@.take(0) =~= Seq::<char>::empty());
    assert(fields_view(fields@).push(field@) =~= split_on(s@.take(0), sep));
    while i < s.len()
        invariant
            i <= s@.len(),
            fields_view(fields@).push(field@) == split_on(s@.take(i as int), sep),
        decreases s@.len() - i,
    {
        let c = s[i];
        let ghost before = fields_view(fields@).push(field@);
        assert(s@.take(i + 1).drop_last() =~= s@.take(i as int));
        if c == sep {
            fields.push(field);
            field = Vec::new();
            assert(fields_view(fields@).push(field@) =~= before.push(Seq::<char>::empty()));
        } else {
            let ghost grown = field@.push(c);
            field.push(c);
            assert(before.drop_last() =~= fields_view(fields@));
            assert(fields_view(fields@).push(field@) =~= before.drop_last().push(grown));
        }
        i = i + 1;
    }
    assert(s@.take(s@.len() as int) =~= s@);
    let ghost last = field@;
    let ghost before = fields_view(fields@);
    fields.push(field);
    assert(fields_view(fields@) =~= before.push(last));
    fields
}

/// Finds the first place where two characters stand side by side.
pub fn find_side_by_side(s: &Vec<char>, a: char, b: char) -> (res: Option<usize>)
    ensures
        match res {
            Some(i) => find_pair(s@, a, b, 0) == Some(i as int),
            None => find_pair(s@, a, b, 0) is None,
        },
        res matches Some(i) ==> i + 1 < s@.len() && s@[i as int] == a && s@[i + 1] == b,
{
    let mut i: usize = 0;
    while i < s.len() && s.len() - i >= 2
        invariant
            i <= s@.len(),
            find_pair(s@, a, b, 0) == find_pair(s@, a, b, i as int),
        decreases s@.len() - i,
    {
        if s[i] == a && s[i + 1] == b {
            return Some(i);
        }
        i = i + 1;
    }
    None
}

/// Reads an IPv4 address in dotted decimal.
pub fn parse_ipv4(s: &Vec<char>) -> (res: Option<[u8; 4]>)
    ensures
        res is Some <==> ipv4_text(s@) is Some,
        res matches Some(octets) ==> Some(octets@) == ipv4_text(s@),
{
    let fields = split_fields(s, '.');
    let ghost f = split_on(s@, '.');
    if fields.len() != 4 {
        return None;
    }
    assert(fields[0]@ == f[0] && fields[1]@ == f[1] && fields[2]@ == f[2] && fields[3]@ == f[3]);
    match (
        parse_octet(&fields[0]),
        parse_octet(&fields[1]),
        parse_octet(&fields[2]),
        parse_octet(&fields[3]),
    ) {
        (Some(a), Some(b), Some(c), Some(d)) => {
            let octets: [u8; 4] = [a, b, c, d];
            assert(octets@ =~= ipv4_text(s@)->0);
            Some(octets)
        },
        _ => None,
    }
}

/// Reads the groups between colons.
pub fn parse_groups(fields: &Vec<Vec<char>>, v4: bool) -> (res: Option<Vec<u16>>)
    ensures
        res is Some <==> groups_from(fields_view(fields@), 0, v4) is Some,
        res matches Some(groups) ==> Some(groups@) == groups_from(fields_view(fields@), 0, v4),
{
    let ghost f = fields_view(fields@);
    let mut groups: Vec<u16> = Vec::new();
    let mut i: usize = 0;
    proof {
        if let Some(all) = groups_from(f, 0, v4) {
            assert(groups@ + all =~= all);
        }
    }
    while i < fields.len()
        invariant
            i <= fields@.len(),
            f == fields_view(fields@),
            groups_from(f, 0, v4) == (match groups_from(f, i as int, v4) {
                Some(rest) => Some(groups@ + rest),
                None => None,
            }),
        decreases fields@.len() - i,
    {
        assert(f[i as int] == fields@[i as int]@);
        let ghost before = groups@;
        match parse_group(&fields[i]) {
            Some(g) => {
                groups.push(g);
                proof {
                    if let Some(rest) = groups_from(f, i + 1, v4) {
                        assert(before + (seq![g] + rest) =~= groups@ + rest);
                    }
                }
            },
            None => {
                if v4 && i == fields.len() - 1 {
                    match parse_ipv4(&fields[i]) {
                        Some(o) => {
                            groups.push((o[0] as u16) * 256 + (o[1] as u16));
                            groups.push((o[2] as u16) * 256 + (o[3] as u16));
                            assert(groups@ =~= before + groups_from(f, i as int, v4)->0);
                            return Some(groups);
                        },
                        None => return None,
                    }
                } else {
                    return None;
                }
            },
        }
        i = i + 1;
    }
    assert(groups@ + Seq::<u16>::empty() =~= groups@);
    Some(groups)
}

/// The octets of eight groups.
pub fn octets_of(g: &Vec<u16>) -> (res: [u8; 16])
    requires
        g@.len() == 8,
    ensures
        res@ == group_octets(g@),
{
    let res: [u8; 16] = [
        (g[0] / 256) as u8,
        (g[0] % 256) as u8,
        (g[1] / 256) as u8,
        (g[1] % 256) as u8,
        (g[2] / 256) as u8,
        (g[2] % 256) as u8,
        (g[3] / 256) as u8,
        (g[3] % 256) as u8,
        (g[4] / 256) as u8,
        (g[4] % 256) as u8,
        (g[5] / 256) as u8,
        (g[5] % 256) as u8,
        (g[6] / 256) as u8,
        (g[6] % 256) as u8,
        (g[7] / 256) as u8,
        (g[7] % 256) as u8,
    ];
    assert(res@ =~= group_octets(g@));
    res
}

/// The characters from `from` up to `to`.
pub fn part(s: &Vec<char>, from: usize, to: usize) -> (res: Vec<char>)
    requires
        from <= to <= s@.len(),
    ensures
        res@ == s@.subrange(from as int, to as int),
{
    slice_to_vec(slice_subrange(s.as_slice(), from, to))
}

/// Reads the groups on one side of a double colon.
pub fn parse_side(s: &Vec<char>, v4: bool) -> (res: Option<Vec<u16>>)
    ensures
        res is Some <==> side_groups(s@, v4) is Some,
        res matches Some(groups) ==> Some(groups@) == side_groups(s@, v4),
{
    if s.len() == 0 {
        let none: Vec<u16> = Vec::new();
        assert(none@ =~= Seq::<u16>::empty());
        Some(none)
    } else {
        parse_groups(&split_fields(s, ':'), v4)
    }
}

/// Reads an IPv6 address.
pub fn parse_ipv6(s: &Vec<char>) -> (res: Option<[u8; 16]>)
    ensures
        res is Some <==> ipv6_text(s@) is Some,
        res matches Some(octets) ==> Some(octets@) == ipv6_text(s@),
{
    match find_side_by_side(s, ':', ':') {
        None => match parse_groups(&split_fields(s, ':'), true) {
            Some(groups) if groups.len() == 8 => Some(octets_of(&groups)),
            _ => None,
        },
        Some(k) => {
            let end = s.len();
            let head_text = part(s, 0, k);
            let tail_text = part(s, k + 2, end);
            assert(head_text@ =~= s@.take(k as int));
            assert(tail_text@ =~= s@.skip(k + 2));
            match (parse_side(&head_text, false), parse_side(&tail_text, true)) {
                (Some(head), Some(tail)) => {
                    if head.len() > 7 || tail.len() > 7 - head.len() {
                        return None;
                    }
                    let ghost gap = (8 - head@.len() - tail@.len()) as nat;
                    let ghost zeros = Seq::new(gap, |i: int| 0u16);
                    let ghost front = head@;
                    let mut groups = head;
                    let mut tail = tail;
                    let ghost back = tail@;
                    while groups.len() < 8 - tail.len()
                        invariant
                            tail@ == back,
                            front.len() + back.len() + gap == 8,
                            front.len() <= groups@.len() <= 8 - back.len(),
                            zeros == Seq::new(gap, |i: int| 0u16),
                            groups@ == front + zeros.take(groups@.len() - front.len()),
                        decreases 8 - groups@.len(),
                    {
                        let ghost n = groups@.len() - front.len();
                        groups.push(0);
                        assert(groups@ =~= front + zeros.take(n + 1));
                    }
                    assert(zeros.take(gap as int) =~= zeros);
                    groups.append(&mut tail);
                    assert(groups@ =~= front + zeros + back);
                    Some(octets_of(&groups))
                },
                _ => None,
            }
        },
    }
}

} // verus!
