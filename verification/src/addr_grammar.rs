//! What the texts of ports and addresses are.

use crate::addr_display::{groups_of, ipv4_display};
use crate::addr_laws::{
    lacks, law_ipv4_is_read_back, lemma_find_pair, lemma_ipv4_chars, lemma_no_pair,
    lemma_octets_of_groups, lemma_split_last, lemma_split_one,
};
use crate::addr_text::{
    digit_value, find_pair, group_octets, group_text, groups_from, ipv4_text, ipv6_text, is_number,
    lemma_four_digits_fit, number, octet_text, port_text, side_groups, split_on,
};
use crate::proto::be16;
use crate::text::{decimal, digit_char};
use crate::text_laws::{counts, is_decimal, lemma_positional_push, positional};
use vstd::prelude::*;

verus! {

proof fn lemma_number_is_positional(s: Seq<char>, base: nat)
    requires
        base <= 16,
        forall|i: int| 0 <= i < s.len() ==> digit_value(#[trigger] s[i]) < base,
    ensures
        number(s, base) == positional(s, base as int),
    decreases s.len(),
{
    if s.len() > 0 {
        let t = s.drop_last();
        assert forall|i: int| 0 <= i < t.len() implies digit_value(#[trigger] t[i]) < base by {
            assert(t[i] == s[i]);
        }
        lemma_number_is_positional(t, base);
        lemma_positional_push(t, s.last(), base as int);
        assert(t.push(s.last()) =~= s);
        assert(digit_value(s[s.len() - 1]) < base);
        assert(counts(s.last()) == digit_value(s.last()));
    }
}

/// Whether a text writes a port: decimal digits that stand for it, and perhaps a
/// plus sign in front of them.
pub open spec fn writes_port(s: Seq<char>, port: u16) -> bool {
    ||| is_decimal(s) && positional(s, 10) == port
    ||| s.len() > 0 && s[0] == '+' && is_decimal(s.drop_first()) && positional(s.drop_first(), 10)
        == port
}

proof fn lemma_decimal_digits(s: Seq<char>)
    ensures
        is_number(s, 10) <==> is_decimal(s),
{
    if is_number(s, 10) {
        assert forall|i: int| 0 <= i < s.len() implies '0' <= #[trigger] s[i] <= '9' by {
            assert(digit_value(s[i]) < 10);
        }
    }
    if is_decimal(s) {
        assert forall|i: int| 0 <= i < s.len() implies digit_value(#[trigger] s[i]) < 10 by {}
    }
}

/// A text is read as a port exactly if it writes that port.
pub proof fn law_port_is_what_its_digits_say(s: Seq<char>, port: u16)
    ensures
        port_text(s) == Some(port) <==> writes_port(s, port),
{
    lemma_decimal_digits(s);
    lemma_decimal_digits(s.drop_first());
    if is_number(s, 10) {
        lemma_number_is_positional(s, 10);
        assert('0' <= s[0] <= '9');
    }
    if s.len() > 0 && is_number(s.drop_first(), 10) {
        lemma_number_is_positional(s.drop_first(), 10);
    }
}

proof fn lemma_number_is_positive(s: Seq<char>)
    requires
        is_number(s, 10),
        s[0] != '0',
    ensures
        number(s, 10) > 0,
    decreases s.len(),
{
    assert(digit_value(s[0]) < 10);
    if s.len() > 1 {
        let t = s.drop_last();
        assert forall|i: int| 0 <= i < t.len() implies digit_value(#[trigger] t[i]) < 10 by {
            assert(t[i] == s[i]);
        }
        lemma_number_is_positive(t);
    } else {
        reveal_with_fuel(number, 2);
        assert(s.last() == s[0]);
    }
}

proof fn lemma_number_is_decimal(s: Seq<char>)
    requires
        is_number(s, 10),
        s[0] == '0' ==> s.len() == 1,
    ensures
        s == decimal(number(s, 10)),
    decreases s.len(),
{
    let n = number(s, 10);
    let c = s.last();
    assert(c == s[s.len() - 1]);
    assert(digit_value(c) < 10);
    assert(digit_char(digit_value(c)) == c);
    if s.len() == 1 {
        reveal_with_fuel(number, 2);
        assert(s.drop_last() =~= Seq::<char>::empty());
        assert(s =~= decimal(n));
    } else {
        let t = s.drop_last();
        assert forall|i: int| 0 <= i < t.len() implies digit_value(#[trigger] t[i]) < 10 by {
            assert(t[i] == s[i]);
        }
        lemma_number_is_decimal(t);
        lemma_number_is_positive(t);
        assert(n / 10 == number(t, 10) && n % 10 == digit_value(c));
        assert(s =~= decimal(n));
    }
}

/// Fields with a separator between them.
pub open spec fn join(fields: Seq<Seq<char>>, sep: char) -> Seq<char>
    decreases fields.len(),
{
    if fields.len() == 0 {
        Seq::empty()
    } else if fields.len() == 1 {
        fields[0]
    } else {
        join(fields.drop_last(), sep).push(sep) + fields.last()
    }
}

/// Splitting loses nothing, and leaves no separator in a field.
proof fn lemma_join_split(s: Seq<char>, sep: char)
    ensures
        split_on(s, sep).len() > 0,
        join(split_on(s, sep), sep) == s,
        forall|i: int|
            0 <= i < split_on(s, sep).len() ==> lacks(#[trigger] split_on(s, sep)[i], sep),
    decreases s.len(),
{
    let fields = split_on(s, sep);
    if s.len() == 0 {
        assert(s =~= Seq::<char>::empty());
    } else {
        let before = s.drop_last();
        let was = split_on(before, sep);
        let c = s.last();
        lemma_join_split(before, sep);
        assert(before.push(c) =~= s);
        if c == sep {
            assert(fields.drop_last() =~= was);
            assert(join(fields, sep) =~= s);
        } else {
            let last = was.last().push(c);
            assert(fields.drop_last() =~= was.drop_last());
            assert(fields.last() == last);
            assert(was.last() == was[was.len() - 1]);
            assert(join(fields, sep) =~= s);
            assert forall|i: int| 0 <= i < fields.len() implies lacks(
                #[trigger] fields[i],
                sep,
            ) by {
                if i < was.len() - 1 {
                    assert(fields[i] == was[i]);
                } else {
                    assert forall|j: int| 0 <= j < last.len() implies #[trigger] last[j] != sep by {
                        if j < last.len() - 1 {
                            assert(last[j] == was.last()[j]);
                        }
                    }
                }
            }
        }
    }
}

/// Fields without separators are what the joined text splits into.
proof fn lemma_split_join(fields: Seq<Seq<char>>, sep: char)
    requires
        fields.len() > 0,
        forall|i: int| 0 <= i < fields.len() ==> lacks(#[trigger] fields[i], sep),
    ensures
        split_on(join(fields, sep), sep) == fields,
    decreases fields.len(),
{
    if fields.len() == 1 {
        lemma_split_one(fields[0], sep);
        assert(fields =~= seq![fields[0]]);
    } else {
        let before = fields.drop_last();
        assert forall|i: int| 0 <= i < before.len() implies lacks(#[trigger] before[i], sep) by {
            assert(before[i] == fields[i]);
        }
        lemma_split_join(before, sep);
        assert(fields.last() == fields[fields.len() - 1]);
        lemma_split_last(join(before, sep), fields.last(), sep);
        assert(before.push(fields.last()) =~= fields);
    }
}

/// A text is read as an IPv4 address exactly if it is the dotted decimal of that
/// address; and then it holds decimal digits and dots only.
pub proof fn law_ipv4_is_its_dotted_decimal(s: Seq<char>, o: Seq<u8>)
    ensures
        ipv4_text(s) == Some(o) <==> o.len() == 4 && s == ipv4_display(o),
        ipv4_text(s) is Some ==> forall|i: int|
            0 <= i < s.len() ==> '0' <= #[trigger] s[i] <= '9' || s[i] == '.',
{
    if o.len() == 4 && s == ipv4_display(o) {
        law_ipv4_is_read_back(o);
    }
    if let Some(read) = ipv4_text(s) {
        let f = split_on(s, '.');
        lemma_join_split(s, '.');
        assert forall|i: int| 0 <= i < 4 implies f[i] == decimal(read[i] as nat) by {
            assert(octet_text(f[i]) is Some);
            lemma_number_is_decimal(f[i]);
        }
        let f3 = f.drop_last();
        let f2 = f3.drop_last();
        let f1 = f2.drop_last();
        assert(join(f1, '.') == f[0]);
        assert(join(f2, '.') == f[0].push('.') + f[1]);
        assert(join(f3, '.') == join(f2, '.').push('.') + f[2]);
        assert(join(f, '.') == join(f3, '.').push('.') + f[3]);
        assert(s =~= ipv4_display(read));
        lemma_ipv4_chars(read);
        assert forall|i: int| 0 <= i < s.len() implies '0' <= #[trigger] s[i] <= '9' || s[i]
            == '.' by {
            assert(digit_value(s[i]) < 10 || s[i] == '.');
        }
    }
}

/// Whether a text writes a group of an IPv6 address: one to four hexadecimal
/// digits, of either case, that stand for it.
pub open spec fn writes_group(f: Seq<char>, g: u16) -> bool {
    &&& 1 <= f.len() <= 4
    &&& forall|i: int| 0 <= i < f.len() ==> 0 <= counts(#[trigger] f[i]) < 16
    &&& positional(f, 16) == g
}

proof fn lemma_group_is_what_its_digits_say(f: Seq<char>, g: u16)
    ensures
        writes_group(f, g) <==> group_text(f) == Some(g),
{
    if is_number(f, 16) && f.len() <= 4 {
        lemma_number_is_positional(f, 16);
        lemma_four_digits_fit(f);
        assert forall|i: int| 0 <= i < f.len() implies 0 <= counts(#[trigger] f[i]) < 16 by {
            assert(digit_value(f[i]) < 16);
        }
    }
    if writes_group(f, g) {
        assert forall|i: int| 0 <= i < f.len() implies digit_value(#[trigger] f[i]) < 16 by {
            assert(0 <= counts(f[i]) < 16);
        }
        lemma_number_is_positional(f, 16);
    }
}

/// Whether fields write groups, one each; where `v4` is set, the last field may
/// be an IPv4 address, which writes two.
pub open spec fn fields_write(fields: Seq<Seq<char>>, v4: bool, g: Seq<u16>) -> bool {
    ||| fields.len() == g.len() && forall|i: int|
        0 <= i < g.len() ==> writes_group(#[trigger] fields[i], g[i])
    ||| v4 && fields.len() > 0 && fields.len() + 1 == g.len() && (forall|i: int|
        0 <= i < fields.len() - 1 ==> writes_group(#[trigger] fields[i], g[i])) && exists|
        o: Seq<u8>,
    |
        o.len() == 4 && fields.last() == #[trigger] ipv4_display(o) && g[g.len() - 2] == o[0] * 256
            + o[1] && g[g.len() - 1] == o[2] * 256 + o[3]
}

/// Whether a text writes groups: fields with colons between them.
pub open spec fn writes_groups(s: Seq<char>, v4: bool, g: Seq<u16>) -> bool {
    exists|fields: Seq<Seq<char>>|
        fields.len() > 0 && s == #[trigger] join(fields, ':') && fields_write(fields, v4, g)
}

proof fn lemma_ipv4_is_no_group(o: Seq<u8>)
    requires
        o.len() == 4,
    ensures
        group_text(ipv4_display(o)) is None,
        ipv4_display(o).len() > 0,
{
    let dot = decimal(o[0] as nat).len() as int;
    assert(ipv4_display(o)[dot] == '.');
    assert(digit_value(ipv4_display(o)[dot]) == 16);
}

proof fn lemma_groups_are_written(fields: Seq<Seq<char>>, i: int, v4: bool, g: Seq<u16>)
    requires
        0 <= i <= fields.len(),
        groups_from(fields, i, v4) == Some(g),
    ensures
        fields_write(fields.skip(i), v4, g),
    decreases fields.len() - i,
{
    let here = fields.skip(i);
    if i < fields.len() {
        let f = fields[i];
        if group_text(f) is Some {
            let x = group_text(f)->0;
            let rest = groups_from(fields, i + 1, v4)->0;
            let after = fields.skip(i + 1);
            lemma_groups_are_written(fields, i + 1, v4, rest);
            lemma_group_is_what_its_digits_say(f, x);
            assert(g =~= seq![x] + rest);
            assert(after =~= here.drop_first());
            if after.len() == rest.len() && forall|j: int|
                0 <= j < rest.len() ==> writes_group(#[trigger] after[j], rest[j]) {
                assert forall|j: int| 0 <= j < g.len() implies writes_group(
                    #[trigger] here[j],
                    g[j],
                ) by {
                    if j > 0 {
                        assert(here[j] == after[j - 1] && g[j] == rest[j - 1]);
                    }
                }
            } else {
                assert(here.last() == after.last());
                assert forall|j: int| 0 <= j < here.len() - 1 implies writes_group(
                    #[trigger] here[j],
                    g[j],
                ) by {
                    if j > 0 {
                        assert(here[j] == after[j - 1] && g[j] == rest[j - 1]);
                    }
                }
                assert(g[g.len() - 2] == rest[rest.len() - 2]);
                assert(g[g.len() - 1] == rest[rest.len() - 1]);
            }
        } else {
            let o = ipv4_text(f)->0;
            law_ipv4_is_its_dotted_decimal(f, o);
            assert(here.last() == f);
            assert(f == ipv4_display(o));
            assert(g[0] == o[0] * 256 + o[1] && g[1] == o[2] * 256 + o[3]);
        }
    }
}

proof fn lemma_written_groups_are_read(fields: Seq<Seq<char>>, i: int, v4: bool, g: Seq<u16>)
    requires
        0 <= i <= fields.len(),
        fields_write(fields.skip(i), v4, g),
    ensures
        groups_from(fields, i, v4) == Some(g),
    decreases fields.len() - i,
{
    let here = fields.skip(i);
    if i >= fields.len() {
        assert(g =~= Seq::<u16>::empty());
    } else {
        let f = fields[i];
        let after = fields.skip(i + 1);
        assert(here[0] == f);
        assert(after =~= here.drop_first());
        let plain = here.len() == g.len() && forall|j: int|
            0 <= j < g.len() ==> writes_group(#[trigger] here[j], g[j]);
        if !plain && here.len() == 1 {
            let o = choose|o: Seq<u8>|
                o.len() == 4 && here.last() == #[trigger] ipv4_display(o) && g[g.len() - 2] == o[0]
                    * 256 + o[1] && g[g.len() - 1] == o[2] * 256 + o[3];
            law_ipv4_is_its_dotted_decimal(f, o);
            lemma_ipv4_is_no_group(o);
            assert(g =~= seq![be16(o[0], o[1]), be16(o[2], o[3])]);
        } else {
            let rest = g.drop_first();
            assert(writes_group(here[0], g[0]));
            lemma_group_is_what_its_digits_say(f, g[0]);
            if plain {
                assert forall|j: int| 0 <= j < rest.len() implies writes_group(
                    #[trigger] after[j],
                    rest[j],
                ) by {
                    assert(after[j] == here[j + 1] && rest[j] == g[j + 1]);
                }
            } else {
                assert(after.last() == here.last());
                assert forall|j: int| 0 <= j < after.len() - 1 implies writes_group(
                    #[trigger] after[j],
                    rest[j],
                ) by {
                    assert(after[j] == here[j + 1] && rest[j] == g[j + 1]);
                }
                assert(g[g.len() - 2] == rest[rest.len() - 2]);
                assert(g[g.len() - 1] == rest[rest.len() - 1]);
            }
            assert(fields_write(after, v4, rest));
            lemma_written_groups_are_read(fields, i + 1, v4, rest);
            assert(seq![g[0]] + rest =~= g);
        }
    }
}

/// Fields that write groups are not empty and hold no colon.
proof fn lemma_written_fields(fields: Seq<Seq<char>>, v4: bool, g: Seq<u16>)
    requires
        fields_write(fields, v4, g),
    ensures
        forall|i: int|
            0 <= i < fields.len() ==> lacks(#[trigger] fields[i], ':') && fields[i].len() > 0,
{
    assert forall|i: int| 0 <= i < fields.len() implies lacks(#[trigger] fields[i], ':')
        && fields[i].len() > 0 by {
        let f = fields[i];
        let plain = fields.len() == g.len() && forall|j: int|
            0 <= j < g.len() ==> writes_group(#[trigger] fields[j], g[j]);
        if plain || i < fields.len() - 1 {
            assert(writes_group(f, g[i]));
            assert forall|j: int| 0 <= j < f.len() implies #[trigger] f[j] != ':' by {
                assert(0 <= counts(f[j]) < 16);
            }
        } else {
            let o = choose|o: Seq<u8>|
                o.len() == 4 && fields.last() == #[trigger] ipv4_display(o) && g[g.len() - 2]
                    == o[0] * 256 + o[1] && g[g.len() - 1] == o[2] * 256 + o[3];
            lemma_ipv4_chars(o);
            lemma_ipv4_is_no_group(o);
        }
    }
}

/// Between colon-free fields that are not empty, no two colons stand side by
/// side.
proof fn lemma_joined_is_spaced(fields: Seq<Seq<char>>)
    requires
        fields.len() > 0,
        forall|i: int|
            0 <= i < fields.len() ==> lacks(#[trigger] fields[i], ':') && fields[i].len() > 0,
    ensures
        ({
            let s = join(fields, ':');
            &&& s.len() > 0
            &&& s[0] != ':'
            &&& s.last() != ':'
            &&& forall|i: int| 0 <= i < s.len() - 1 ==> !(#[trigger] s[i] == ':' && s[i + 1] == ':')
        }),
    decreases fields.len(),
{
    let s = join(fields, ':');
    let last = fields[fields.len() - 1];
    assert(last[0] != ':' && last[last.len() - 1] != ':');
    if fields.len() == 1 {
        assert(s == last);
        assert forall|i: int| 0 <= i < s.len() - 1 implies !(#[trigger] s[i] == ':' && s[i + 1]
            == ':') by {}
    } else {
        let before = fields.drop_last();
        assert forall|i: int| 0 <= i < before.len() implies lacks(#[trigger] before[i], ':')
            && before[i].len() > 0 by {
            assert(before[i] == fields[i]);
        }
        lemma_joined_is_spaced(before);
        let head = join(before, ':');
        assert(s[0] == head[0]);
        assert(s.last() == last[last.len() - 1]);
        assert forall|i: int| 0 <= i < s.len() - 1 implies !(#[trigger] s[i] == ':' && s[i + 1]
            == ':') by {
            if i < head.len() - 1 {
                assert(s[i] == head[i] && s[i + 1] == head[i + 1]);
            } else if i == head.len() - 1 {
                assert(s[i] == head.last());
            } else if i == head.len() {
                assert(s[i + 1] == last[0]);
            } else {
                assert(s[i] == last[i - head.len() - 1]);
            }
        }
    }
}

/// Whether a text writes the groups on one side of a double colon, where there
/// may be none.
pub open spec fn writes_side(s: Seq<char>, v4: bool, g: Seq<u16>) -> bool {
    s.len() == 0 && g.len() == 0 || writes_groups(s, v4, g)
}

proof fn lemma_groups(s: Seq<char>, v4: bool, g: Seq<u16>)
    ensures
        groups_from(split_on(s, ':'), 0, v4) == Some(g) <==> writes_groups(s, v4, g),
        writes_groups(s, v4, g) ==> s.len() > 0,
{
    let fields = split_on(s, ':');
    lemma_join_split(s, ':');
    assert(fields.skip(0) =~= fields);
    if groups_from(fields, 0, v4) == Some(g) {
        lemma_groups_are_written(fields, 0, v4, g);
        assert(s == join(fields, ':'));
    }
    if writes_groups(s, v4, g) {
        let w = choose|w: Seq<Seq<char>>|
            w.len() > 0 && s == #[trigger] join(w, ':') && fields_write(w, v4, g);
        lemma_written_fields(w, v4, g);
        lemma_split_join(w, ':');
        lemma_joined_is_spaced(w);
        lemma_written_groups_are_read(fields, 0, v4, g);
    }
}

proof fn lemma_side(s: Seq<char>, v4: bool, g: Seq<u16>)
    ensures
        side_groups(s, v4) == Some(g) <==> writes_side(s, v4, g),
{
    lemma_groups(s, v4, g);
    if g.len() == 0 {
        assert(g =~= Seq::<u16>::empty());
    }
}

/// Whether a text writes an IPv6 address with a double colon, which stands for
/// one or more groups of zeros between two sides.
pub open spec fn writes_shortened(
    s: Seq<char>,
    o: Seq<u8>,
    head: Seq<char>,
    tail: Seq<char>,
    before: Seq<u16>,
    after: Seq<u16>,
) -> bool {
    &&& s == head + seq![':', ':'] + tail
    &&& writes_side(head, false, before)
    &&& writes_side(tail, true, after)
    &&& before.len() + after.len() < 8
    &&& groups_of(o) == before + Seq::new(
        (8 - before.len() - after.len()) as nat,
        |i: int| 0u16,
    ) + after
}

/// Whether a text writes an IPv6 address: its eight groups, or with a double
/// colon.
pub open spec fn writes_ipv6(s: Seq<char>, o: Seq<u8>) -> bool {
    o.len() == 16 && (writes_groups(s, true, groups_of(o)) || exists|
        head: Seq<char>,
        tail: Seq<char>,
        before: Seq<u16>,
        after: Seq<u16>,
    |
        writes_shortened(s, o, head, tail, before, after))
}

pub(crate) proof fn lemma_found_pair(s: Seq<char>, a: char, b: char, from: int)
    requires
        0 <= from,
    ensures
        find_pair(s, a, b, from) matches Some(k) ==> from <= k < s.len() - 1 && s[k] == a && s[k
            + 1] == b,
    decreases s.len() - from,
{
    if from + 1 < s.len() && !(s[from] == a && s[from + 1] == b) {
        lemma_found_pair(s, a, b, from + 1);
    }
}

proof fn lemma_groups_of_octets(g: Seq<u16>)
    requires
        g.len() == 8,
    ensures
        group_octets(g).len() == 16,
        groups_of(group_octets(g)) == g,
{
    let o = group_octets(g);
    assert forall|i: int| 0 <= i < 8 implies #[trigger] groups_of(o)[i] == g[i] by {
        assert((2 * i) / 2 == i && (2 * i) % 2 == 0);
        assert((2 * i + 1) / 2 == i && (2 * i + 1) % 2 == 1);
        let n = g[i];
        assert(o[2 * i] == (n / 256) as u8 && o[2 * i + 1] == (n % 256) as u8);
        assert(be16((n / 256) as u8, (n % 256) as u8) == n);
    }
    assert(groups_of(o) =~= g);
}

proof fn lemma_read_ipv6_is_written(s: Seq<char>, o: Seq<u8>)
    requires
        ipv6_text(s) == Some(o),
    ensures
        writes_ipv6(s, o),
{
    lemma_found_pair(s, ':', ':', 0);
    match find_pair(s, ':', ':', 0) {
        None => {
            let g = groups_from(split_on(s, ':'), 0, true)->0;
            lemma_groups(s, true, g);
            lemma_groups_of_octets(g);
        },
        Some(k) => {
            let head = s.take(k);
            let tail = s.skip(k + 2);
            let before = side_groups(head, false)->0;
            let after = side_groups(tail, true)->0;
            lemma_side(head, false, before);
            lemma_side(tail, true, after);
            let zeros = Seq::new((8 - before.len() - after.len()) as nat, |i: int| 0u16);
            lemma_groups_of_octets(before + zeros + after);
            assert(s =~= head + seq![':', ':'] + tail);
            assert(writes_shortened(s, o, head, tail, before, after));
        },
    }
}

proof fn lemma_written_ipv6_is_read(s: Seq<char>, o: Seq<u8>)
    requires
        writes_ipv6(s, o),
    ensures
        ipv6_text(s) == Some(o),
{
    lemma_octets_of_groups(o);
    if writes_groups(s, true, groups_of(o)) {
        lemma_groups(s, true, groups_of(o));
        let w = choose|w: Seq<Seq<char>>|
            w.len() > 0 && s == #[trigger] join(w, ':') && fields_write(w, true, groups_of(o));
        lemma_written_fields(w, true, groups_of(o));
        lemma_joined_is_spaced(w);
        lemma_no_pair(s, ':', ':', 0);
    } else {
        let (head, tail, before, after) = choose|
            head: Seq<char>,
            tail: Seq<char>,
            before: Seq<u16>,
            after: Seq<u16>,
        |
            writes_shortened(s, o, head, tail, before, after);
        let k = head.len() as int;
        lemma_side(head, false, before);
        lemma_side(tail, true, after);
        if k > 0 {
            let w = choose|w: Seq<Seq<char>>|
                w.len() > 0 && head == #[trigger] join(w, ':') && fields_write(w, false, before);
            lemma_written_fields(w, false, before);
            lemma_joined_is_spaced(w);
        }
        assert forall|i: int| 0 <= i < k implies !(#[trigger] s[i] == ':' && s[i + 1] == ':') by {
            if i < k - 1 {
                assert(s[i] == head[i] && s[i + 1] == head[i + 1]);
            } else {
                assert(s[i] == head.last());
            }
        }
        lemma_find_pair(s, ':', ':', 0, k);
        assert(s.take(k) =~= head);
        assert(s.skip(k + 2) =~= tail);
    }
}

/// A text is read as an IPv6 address exactly if it writes that address.
pub proof fn law_ipv6_is_what_its_groups_say(s: Seq<char>, o: Seq<u8>)
    ensures
        ipv6_text(s) == Some(o) <==> writes_ipv6(s, o),
{
    if ipv6_text(s) == Some(o) {
        lemma_read_ipv6_is_written(s, o);
    }
    if writes_ipv6(s, o) {
        lemma_written_ipv6_is_read(s, o);
    }
}

} // verus!
