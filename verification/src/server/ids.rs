//! Provider identifiers.
//!
//! An identifier is a UUID, held as its 128-bit number.

use crate::addr_display::hex_char;
use uuid::Uuid;
use vstd::arithmetic::power2::{lemma2_to64, lemma2_to64_rest, lemma_pow2_adds, pow2};
use vstd::prelude::*;

verus! {

/// Whether an identifier is a random UUID: version 4, of the RFC variant.
pub open spec fn is_random_uuid(id: u128) -> bool {
    &&& (id / 0x10000000000000000000) % 16 == 4
    &&& (id / 0x4000000000000000) % 4 == 2
}

/// `Uuid::new_v4` makes a random UUID.  Nothing else is stated of it; that two
/// differ is a matter of chance.  It panics where the operating system has no
/// random bytes to give.
#[verifier::external_body]
pub(crate) fn new_provider_id() -> (res: u128)
    ensures
        is_random_uuid(res),
{
    Uuid::new_v4().as_u128()
}

/// A number in lower-case hexadecimal, with so many digits.
pub open spec fn padded_hex(n: nat, digits: nat) -> Seq<char>
    decreases digits,
{
    if digits == 0 {
        Seq::empty()
    } else {
        padded_hex(n / 16, (digits - 1) as nat).push(hex_char(n % 16))
    }
}

/// The text of a UUID: thirty-two hexadecimal digits, in groups of eight, four,
/// four, four and twelve.
pub open spec fn uuid_text(id: u128) -> Seq<char> {
    let h = padded_hex(id as nat, 32);
    h.subrange(0, 8).push('-') + h.subrange(8, 12).push('-') + h.subrange(12, 16).push('-')
        + h.subrange(16, 20).push('-') + h.subrange(20, 32)
}

/// `Uuid` is displayed in lower-case hexadecimal digits, with hyphens.
#[verifier::external_body]
pub(crate) fn provider_id_text(id: u128) -> (res: String)
    ensures
        res@ == uuid_text(id),
{
    Uuid::from_u128(id).to_string()
}

proof fn lemma_hex_char(a: nat, b: nat)
    requires
        a < 16,
        b < 16,
        hex_char(a) == hex_char(b),
    ensures
        a == b,
{
}

proof fn lemma_padded_hex_len(n: nat, digits: nat)
    ensures
        padded_hex(n, digits).len() == digits,
    decreases digits,
{
    if digits > 0 {
        lemma_padded_hex_len(n / 16, (digits - 1) as nat);
    }
}

proof fn lemma_padded_hex(a: nat, b: nat, digits: nat)
    requires
        a < pow2(4 * digits),
        b < pow2(4 * digits),
        padded_hex(a, digits) == padded_hex(b, digits),
    ensures
        a == b,
    decreases digits,
{
    lemma2_to64();
    if digits > 0 {
        let fewer = (digits - 1) as nat;
        lemma_pow2_adds(4, 4 * fewer);
        let (x, y) = (padded_hex(a, digits), padded_hex(b, digits));
        assert(x.last() == y.last());
        assert(x.drop_last() =~= padded_hex(a / 16, fewer));
        assert(y.drop_last() =~= padded_hex(b / 16, fewer));
        lemma_hex_char(a % 16, b % 16);
        lemma_padded_hex(a / 16, b / 16, fewer);
    }
}

/// Different identifiers have different texts.
pub proof fn law_id_text_is_unique(a: u128, b: u128)
    ensures
        uuid_text(a) == uuid_text(b) ==> a == b,
{
    if uuid_text(a) == uuid_text(b) {
        let (x, y) = (padded_hex(a as nat, 32), padded_hex(b as nat, 32));
        lemma_padded_hex_len(a as nat, 32);
        lemma_padded_hex_len(b as nat, 32);
        let (s, t) = (uuid_text(a), uuid_text(b));
        assert(s.len() == 36 && t.len() == 36);
        assert forall|i: int| 0 <= i < 32 implies x[i] == y[i] by {
            let at = if i < 8 {
                i
            } else if i < 12 {
                i + 1
            } else if i < 16 {
                i + 2
            } else if i < 20 {
                i + 3
            } else {
                i + 4
            };
            assert(s[at] == x[i] && t[at] == y[i]);
        }
        assert(x =~= y);
        lemma2_to64();
        lemma2_to64_rest();
        lemma_pow2_adds(64, 64);
        assert(pow2(128) == 0x1_0000_0000_0000_0000_0000_0000_0000_0000int);
        lemma_padded_hex(a as nat, b as nat, 32);
    }
}

} // verus!
