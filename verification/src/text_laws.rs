//! Laws of numbers as text.

use crate::addr_display::{hex, hex_char};
use crate::text::{decimal, digit_char};
use vstd::arithmetic::power::{lemma_pow0, pow};
use vstd::prelude::*;

verus! {

/// What a digit counts, in bases up to sixteen; nothing for another character.
pub open spec fn counts(c: char) -> int {
    if '0' <= c <= '9' {
        c as int - '0' as int
    } else if 'a' <= c <= 'f' {
        c as int - 'a' as int + 10
    } else if 'A' <= c <= 'F' {
        c as int - 'A' as int + 10
    } else {
        -1
    }
}

/// The number that digits stand for: each counts as many times as its place says.
pub open spec fn positional(s: Seq<char>, base: int) -> int
    decreases s.len(),
{
    if s.len() == 0 {
        0
    } else {
        counts(s[0]) * pow(base, (s.len() - 1) as nat) + positional(s.drop_first(), base)
    }
}

/// Whether a text is a number in decimal: digits only, and at least one.
pub open spec fn is_decimal(s: Seq<char>) -> bool {
    s.len() > 0 && forall|i: int| 0 <= i < s.len() ==> '0' <= #[trigger] s[i] <= '9'
}

pub(crate) proof fn lemma_positional_push(s: Seq<char>, c: char, base: int)
    ensures
        positional(s.push(c), base) == positional(s, base) * base + counts(c),
    decreases s.len(),
{
    reveal(pow);
    let t = s.push(c);
    if s.len() == 0 {
        assert(t.drop_first() =~= Seq::<char>::empty());
        lemma_pow0(base);
        assert(positional(t.drop_first(), base) == 0);
        assert(counts(c) * 1 == counts(c));
        assert(positional(s, base) * base == 0) by (nonlinear_arith)
            requires
                positional(s, base) == 0,
        ;
    } else {
        let n = (s.len() - 1) as nat;
        lemma_positional_push(s.drop_first(), c, base);
        assert(t.drop_first() =~= s.drop_first().push(c));
        assert(t[0] == s[0]);
        let a = counts(s[0]);
        let p = pow(base, n);
        let q = positional(s.drop_first(), base);
        assert(pow(base, (n + 1) as nat) == base * p);
        assert(a * (base * p) + (q * base + counts(c)) == (a * p + q) * base + counts(c))
            by (nonlinear_arith);
    }
}

/// A number in decimal is made of decimal digits, has no zero in front of
/// others, and stands for the number.
pub proof fn law_decimal_stands_for_the_number(n: nat)
    ensures
        is_decimal(decimal(n)),
        positional(decimal(n), 10) == n,
        decimal(n).len() > 1 ==> decimal(n)[0] != '0',
    decreases n,
{
    let s = decimal(n);
    let none = Seq::<char>::empty();
    if n < 10 {
        lemma_positional_push(none, digit_char(n), 10);
        assert(none.push(digit_char(n)) =~= s);
    } else {
        law_decimal_stands_for_the_number(n / 10);
        let t = decimal(n / 10);
        lemma_positional_push(t, digit_char(n % 10), 10);
        assert(s == t.push(digit_char(n % 10)));
        assert forall|i: int| 0 <= i < s.len() implies '0' <= #[trigger] s[i] <= '9' by {
            if i < t.len() {
                assert(s[i] == t[i]);
            }
        }
        if t.len() == 1 && t[0] == '0' {
            lemma_positional_push(none, t[0], 10);
            assert(none.push(t[0]) =~= t);
        }
    }
}

/// A number in hexadecimal is made of lower-case digits, has no zero in front of
/// others, and stands for the number.
pub proof fn law_hex_stands_for_the_number(n: nat)
    ensures
        hex(n).len() > 0,
        forall|i: int|
            0 <= i < hex(n).len() ==> '0' <= #[trigger] hex(n)[i] <= '9' || 'a' <= hex(n)[i] <= 'f',
        positional(hex(n), 16) == n,
        hex(n).len() > 1 ==> hex(n)[0] != '0',
    decreases n,
{
    let s = hex(n);
    let none = Seq::<char>::empty();
    if n < 16 {
        lemma_positional_push(none, hex_char(n), 16);
        assert(none.push(hex_char(n)) =~= s);
    } else {
        law_hex_stands_for_the_number(n / 16);
        let t = hex(n / 16);
        lemma_positional_push(t, hex_char(n % 16), 16);
        assert(s == t.push(hex_char(n % 16)));
        assert forall|i: int| 0 <= i < s.len() implies '0' <= #[trigger] s[i] <= '9' || 'a' <= s[i]
            <= 'f' by {
            if i < t.len() {
                assert(s[i] == t[i]);
            }
        }
        if t.len() == 1 && t[0] == '0' {
            lemma_positional_push(none, t[0], 16);
            assert(none.push(t[0]) =~= t);
        }
    }
}

} // verus!
