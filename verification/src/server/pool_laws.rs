//! Laws of the provider pool.

use crate::server::pool::{has_turn, next_counter, place, ProviderHandle};
use vstd::arithmetic::div_mod::{
    lemma_basic_div, lemma_div_plus_one, lemma_fundamental_div_mod, lemma_mod_multiples_vanish,
    lemma_small_mod,
};
use vstd::prelude::*;
use vstd::seq_lib::{lemma_multiset_commutative, to_multiset_contains, to_multiset_len};
use vstd::set_lib::lemma_len_subset;

verus! {

/// The counter after a number of picks.
pub open spec fn counter_after(counter: usize, picks: nat) -> usize
    decreases picks,
{
    if picks == 0 {
        counter
    } else {
        next_counter(counter_after(counter, (picks - 1) as nat))
    }
}

/// Whether these are the providers that successive picks from one pool return,
/// from a counter on.
pub open spec fn picked(m: Map<u128, ProviderHandle>, counter: usize, ids: Seq<u128>) -> bool {
    forall|i: int|
        0 <= i < ids.len() ==> has_turn(m, counter_after(counter, i as nat), #[trigger] ids[i])
}

proof fn lemma_counter_after(counter: usize, picks: nat)
    requires
        counter + picks <= usize::MAX,
    ensures
        counter_after(counter, picks) == counter + picks,
    decreases picks,
{
    if picks > 0 {
        lemma_counter_after(counter, (picks - 1) as nat);
    }
}

/// No two providers have the same place, and there are as many places as
/// providers.
proof fn lemma_places(m: Map<u128, ProviderHandle>, a: u128, b: u128)
    requires
        m.dom().finite(),
        m.dom().contains(a),
        m.dom().contains(b),
    ensures
        place(m, a) < m.dom().len(),
        a < b ==> place(m, a) < place(m, b),
{
    let before_a = m.dom().filter(|k: u128| k < a);
    let before_b = m.dom().filter(|k: u128| k < b);
    lemma_len_subset(before_a, m.dom());
    lemma_len_subset(before_b, m.dom());
    lemma_len_subset(before_a.insert(a), m.dom());
    if a < b {
        lemma_len_subset(before_a.insert(a), before_b);
    }
}

proof fn lemma_same_place(m: Map<u128, ProviderHandle>, a: u128, b: u128)
    requires
        m.dom().finite(),
        m.dom().contains(a),
        m.dom().contains(b),
        place(m, a) == place(m, b),
    ensures
        a == b,
{
    lemma_places(m, a, b);
    lemma_places(m, b, a);
}

proof fn lemma_remainders_differ(x: int, y: int, n: int)
    requires
        0 <= x < y < x + n,
    ensures
        x % n != y % n,
{
    if x % n == y % n {
        lemma_fundamental_div_mod(x, n);
        lemma_fundamental_div_mod(y, n);
        let d = y / n - x / n;
        assert(n * (y / n) - n * (x / n) == n * d) by (nonlinear_arith)
            requires
                d == y / n - x / n,
        ;
        assert(0 < n * d < n);
        assert(false) by (nonlinear_arith)
            requires
                0 < n * d < n,
                n > 0,
        ;
    }
}

/// Among any `n` numbers in a row, one has a given remainder.
proof fn lemma_remainder_comes(x: int, n: int, r: int) -> (k: int)
    requires
        0 <= x,
        0 <= r < n,
    ensures
        0 <= k < n,
        (x + k) % n == r,
{
    let s = x % n;
    let q = x / n;
    lemma_fundamental_div_mod(x, n);
    lemma_small_mod(r as nat, n as nat);
    if r >= s {
        lemma_mod_multiples_vanish(q, r, n);
        r - s
    } else {
        assert(n * (q + 1) == n * q + n) by (nonlinear_arith);
        lemma_mod_multiples_vanish(q + 1, r, n);
        r + n - s
    }
}

/// While the counter does not start again, a pool of `n` providers that does not
/// change returns on any pick what it returned `n` picks before.
pub proof fn law_picks_repeat(
    m: Map<u128, ProviderHandle>,
    counter: usize,
    ids: Seq<u128>,
    i: int,
)
    requires
        m.dom().finite(),
        picked(m, counter, ids),
        counter + ids.len() - 1 <= usize::MAX,
        0 <= i,
        i + m.dom().len() < ids.len(),
    ensures
        ids[i + m.dom().len()] == ids[i],
{
    let n = m.dom().len() as int;
    let (a, b) = (ids[i], ids[i + n]);
    assert(has_turn(m, counter_after(counter, i as nat), a));
    assert(has_turn(m, counter_after(counter, (i + n) as nat), b));
    lemma_counter_after(counter, i as nat);
    lemma_counter_after(counter, (i + n) as nat);
    lemma_places(m, a, a);
    lemma_mod_multiples_vanish(1, counter + i, n);
    assert(n * 1 + (counter + i) == counter + (i + n));
    lemma_same_place(m, a, b);
}

proof fn lemma_picks_differ(
    m: Map<u128, ProviderHandle>,
    counter: usize,
    ids: Seq<u128>,
    i: int,
    j: int,
)
    requires
        m.dom().finite(),
        picked(m, counter, ids),
        counter + ids.len() - 1 <= usize::MAX,
        0 <= i < j < ids.len(),
        j < i + m.dom().len(),
    ensures
        ids[i] != ids[j],
{
    assert(has_turn(m, counter_after(counter, i as nat), ids[i]));
    assert(has_turn(m, counter_after(counter, j as nat), ids[j]));
    lemma_counter_after(counter, i as nat);
    lemma_counter_after(counter, j as nat);
    lemma_remainders_differ(counter + i, counter + j, m.dom().len() as int);
}

/// Selection is round-robin: while the counter does not start again, any `n`
/// picks in a row from a pool of `n` providers that does not change return each
/// provider once.
pub proof fn law_round_robin(
    m: Map<u128, ProviderHandle>,
    counter: usize,
    ids: Seq<u128>,
    start: int,
)
    requires
        m.dom().finite(),
        picked(m, counter, ids),
        counter + ids.len() - 1 <= usize::MAX,
        0 <= start,
        start + m.dom().len() <= ids.len(),
    ensures
        ids.subrange(start, start + m.dom().len()).no_duplicates(),
        ids.subrange(start, start + m.dom().len()).to_set() == m.dom(),
{
    let n = m.dom().len() as int;
    let window = ids.subrange(start, start + n);
    assert forall|i: int, j: int| 0 <= i < j < n implies window[i] != window[j] by {
        lemma_picks_differ(m, counter, ids, start + i, start + j);
    }
    assert forall|k: u128| window.contains(k) implies m.dom().contains(k) by {
        let i = choose|i: int| 0 <= i < n && window[i] == k;
        assert(ids[start + i] == k);
    }
    assert forall|k: u128| m.dom().contains(k) implies window.contains(k) by {
        lemma_places(m, k, k);
        let i = lemma_remainder_comes(counter + start, n, place(m, k) as int);
        let id = ids[start + i];
        assert(has_turn(m, counter_after(counter, (start + i) as nat), id));
        lemma_counter_after(counter, (start + i) as nat);
        lemma_same_place(m, id, k);
        assert(window[i] == k);
    }
    assert(window.to_set() =~= m.dom());
}

/// How often a provider was picked.
pub open spec fn times(ids: Seq<u128>, id: u128) -> nat {
    ids.to_multiset().count(id)
}

/// While the counter does not start again, a pool that does not change shares
/// the picks out evenly: of so many picks each provider gets its share, rounded
/// down or up.
pub proof fn law_picks_are_shared_evenly(
    m: Map<u128, ProviderHandle>,
    counter: usize,
    ids: Seq<u128>,
    id: u128,
)
    requires
        m.dom().finite(),
        m.dom().contains(id),
        picked(m, counter, ids),
        counter + ids.len() - 1 <= usize::MAX,
    ensures
        ids.len() / m.dom().len() <= times(ids, id),
        times(ids, id) <= (ids.len() + m.dom().len() - 1) / m.dom().len() as int,
    decreases ids.len(),
{
    let n = m.dom().len() as int;
    let len = ids.len() as int;
    lemma_places(m, id, id);
    if len < n {
        assert forall|i: int, j: int| 0 <= i < j < len implies ids[i] != ids[j] by {
            lemma_picks_differ(m, counter, ids, i, j);
        }
        ids.lemma_multiset_has_no_duplicates();
        to_multiset_len(ids);
        lemma_basic_div(len, n);
        if len == 0 {
            to_multiset_contains(ids, id);
            lemma_basic_div(n - 1, n);
        } else {
            lemma_div_plus_one(len - 1, n);
            lemma_basic_div(len - 1, n);
        }
    } else {
        let first = ids.take(len - n);
        let window = ids.subrange(len - n, len);
        assert forall|i: int| 0 <= i < first.len() implies has_turn(
            m,
            counter_after(counter, i as nat),
            #[trigger] first[i],
        ) by {
            assert(first[i] == ids[i]);
        }
        law_picks_are_shared_evenly(m, counter, first, id);
        law_round_robin(m, counter, ids, len - n);
        assert(window.to_set().contains(id));
        window.lemma_multiset_has_no_duplicates();
        to_multiset_contains(window, id);
        assert(first + window =~= ids);
        lemma_multiset_commutative(first, window);
        lemma_div_plus_one(len - n, n);
        lemma_div_plus_one(len - 1, n);
        assert(n + (len - n) == len);
        assert(n + (len - 1) == len + n - 1);
        assert(first.len() + n - 1 == len - 1);
    }
}

/// A provider that comes and goes leaves the pool as it was.
pub proof fn law_insert_then_remove(pool: Map<u128, ProviderHandle>, handle: ProviderHandle)
    requires
        !pool.dom().contains(handle.id),
    ensures
        pool.insert(handle.id, handle).remove(handle.id) == pool,
{
    assert(pool.insert(handle.id, handle).remove(handle.id) =~= pool);
}

/// Providers are picked in the order of their identifiers: a pick returns a
/// later one than the pick before, but where all have had their turn; then it
/// returns the first.
pub proof fn law_picks_go_up(m: Map<u128, ProviderHandle>, counter: usize, a: u128, b: u128)
    requires
        m.dom().finite(),
        counter < usize::MAX,
        has_turn(m, counter, a),
        has_turn(m, next_counter(counter), b),
    ensures
        a < b <==> (counter + 1) % m.dom().len() as int != 0,
        counter as int % m.dom().len() as int == 0 ==> forall|k: u128| #[trigger]
            m.dom().contains(k) ==> a <= k,
{
    let n = m.dom().len() as int;
    lemma_places(m, a, b);
    lemma_places(m, b, a);
    lemma_small_mod(0, n as nat);
    if n == 1 {
        lemma_small_mod(0, 1);
        assert((counter + 1) % 1 == 0);
    } else {
        lemma_remainder_of_next(counter as int, n);
    }
    assert forall|k: u128| counter as int % n == 0 && #[trigger] m.dom().contains(k) implies a
        <= k by {
        lemma_places(m, k, a);
    }
}

proof fn lemma_remainder_of_next(x: int, n: int)
    requires
        0 <= x,
        0 < n,
    ensures
        (x + 1) % n == if x % n == n - 1 {
            0
        } else {
            x % n + 1
        },
{
    let q = x / n;
    let r = x % n;
    lemma_fundamental_div_mod(x, n);
    if r == n - 1 {
        assert(n * (q + 1) == n * q + n) by (nonlinear_arith);
        lemma_mod_multiples_vanish(q + 1, 0, n);
        lemma_small_mod(0, n as nat);
    } else {
        lemma_mod_multiples_vanish(q, r + 1, n);
        lemma_small_mod((r + 1) as nat, n as nat);
    }
}

/// The counter comes by every number before it starts again: no two numbers are
/// followed by the same one.
pub proof fn law_counter_comes_by_every_number(a: usize, b: usize)
    ensures
        next_counter(a) == next_counter(b) ==> a == b,
        a < usize::MAX ==> next_counter(a) == a + 1,
{
}

} // verus!
