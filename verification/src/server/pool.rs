//! Provider connection pool.
//!
//! The pool knows each live provider by its identifier, and hands the
//! providers out in turn.

use crate::server::ids::{provider_id_text, uuid_text};
use dashmap::DashMap;
use std::sync::Arc;
use vstd::prelude::*;
use vstd::seq_lib::{to_multiset_build, to_multiset_insert, to_multiset_len};
use vstd::string::StringExecFns;

verus! {

/// A live provider connection.
#[derive(Debug)]
pub struct ProviderHandle {
    pub id: u128,
    pub label: Option<String>,
    pub geo: Option<String>,
}

impl ProviderHandle {
    pub fn new(id: u128, label: Option<String>, geo: Option<String>) -> (res: Arc<Self>)
        ensures
            res.id == id,
            res.label == label,
            res.geo == geo,
    {
        Arc::new(ProviderHandle { id, label, geo })
    }

    /// What comes of asking the provider's driver for a stream: the driver's
    /// reply, or why there is none.
    pub fn open_stream<T>(&self, outcome: Asked<T>) -> (res: Result<T, String>)
        ensures
            match outcome {
                Asked::Disconnected => res matches Err(e) && e@ == about(self.id, " disconnected"@),
                Asked::Dropped => res matches Err(e) && e@ == about(
                    self.id,
                    " driver dropped reply"@,
                ),
                Asked::Replied(reply) => res == reply,
            },
    {
        match outcome {
            Asked::Disconnected => Err(tell(self.id, " disconnected")),
            Asked::Dropped => Err(tell(self.id, " driver dropped reply")),
            Asked::Replied(reply) => reply,
        }
    }
}

/// What came of asking a provider's driver for a stream.
#[derive(Debug)]
pub enum Asked<T> {
    /// The driver is gone.
    Disconnected,
    /// The driver has gone without a reply.
    Dropped,
    /// The driver has replied.
    Replied(Result<T, String>),
}

/// A sentence about a provider.
pub open spec fn about(id: u128, what: Seq<char>) -> Seq<char> {
    "provider "@ + uuid_text(id) + what
}

fn tell(id: u128, what: &str) -> (res: String)
    ensures
        res@ == about(id, what@),
{
    let mut s = "provider ".to_owned();
    s.append(provider_id_text(id).as_str());
    s.append(what);
    s
}

/// `dashmap::DashMap`, a map that is safe to share.
#[verifier::external_type_specification]
#[verifier::external_body]
#[verifier::reject_recursive_types(K)]
#[verifier::reject_recursive_types(V)]
#[verifier::reject_recursive_types(S)]
pub struct ExDashMap<K, V, S>(DashMap<K, V, S>);

/// Providers by identifier.
pub type ProviderMap = DashMap<u128, Arc<ProviderHandle>>;

/// What a map holds.
pub uninterp spec fn entries(m: ProviderMap) -> Map<u128, ProviderHandle>;

/// `DashMap::new` makes an empty map.
#[verifier::external_body]
fn map_new() -> (res: ProviderMap)
    ensures
        entries(res).dom() == Set::<u128>::empty(),
{
    DashMap::new()
}

/// `DashMap::insert` puts the value under the key, in place of the one that
/// was there.
#[verifier::external_body]
fn map_insert(m: &mut ProviderMap, key: u128, value: Arc<ProviderHandle>)
    ensures
        entries(*final(m)) == entries(*old(m)).insert(key, *value),
{
    m.insert(key, value);
}

/// `DashMap::remove` takes the key and its value out, and returns the value.
#[verifier::external_body]
fn map_remove(m: &mut ProviderMap, key: &u128) -> (res: Option<Arc<ProviderHandle>>)
    ensures
        entries(*final(m)) == entries(*old(m)).remove(*key),
        res is Some <==> entries(*old(m)).dom().contains(*key),
        res matches Some(value) ==> *value == entries(*old(m))[*key],
{
    m.remove(key).map(|e| e.1)
}

/// `DashMap::len` counts the keys.
#[verifier::external_body]
fn map_len(m: &ProviderMap) -> (res: usize)
    ensures
        res == entries(*m).dom().len(),
{
    m.len()
}

/// `DashMap::is_empty` tells whether there is no key.
#[verifier::external_body]
fn map_is_empty(m: &ProviderMap) -> (res: bool)
    ensures
        res == (entries(*m).dom() == Set::<u128>::empty()),
{
    m.is_empty()
}

/// Whether a list holds every entry of a map once, in whatever order.
pub open spec fn lists(
    items: Seq<(u128, Arc<ProviderHandle>)>,
    m: Map<u128, ProviderHandle>,
) -> bool {
    &&& items.len() == m.dom().len()
    &&& forall|i: int, j: int|
        0 <= i < j < items.len() ==> (#[trigger] items[i]).0 != (#[trigger] items[j]).0
    &&& forall|i: int|
        0 <= i < items.len() ==> m.dom().contains((#[trigger] items[i]).0) && m[items[i].0]
            == *items[i].1
    &&& forall|k: u128| #[trigger]
        m.dom().contains(k) ==> exists|i: int| 0 <= i < items.len() && (#[trigger] items[i]).0 == k
}

/// `DashMap::iter` walks over the entries, each once, in an order that nothing
/// promises.
#[verifier::external_body]
fn map_items(m: &ProviderMap) -> (res: Vec<(u128, Arc<ProviderHandle>)>)
    ensures
        lists(res@, entries(*m)),
{
    m.iter().map(|e| (*e.key(), Arc::clone(e.value()))).collect()
}

/// Why the pool hands out no provider.
#[derive(Debug, Clone, Copy, PartialEq, Eq, Structural)]
pub enum PoolError {
    /// No provider is connected.
    NoProviders,
}

/// Pool of live provider connections.
pub struct ProviderPool {
    providers: ProviderMap,
    counter: usize,
}

impl View for ProviderPool {
    type V = Map<u128, ProviderHandle>;

    /// The live providers by identifier.
    closed spec fn view(&self) -> Map<u128, ProviderHandle> {
        entries(self.providers)
    }
}

/// Whose turn it is among `n` providers when `counter` picks have been made.
pub open spec fn turn(counter: usize, n: nat) -> int {
    counter as int % n as int
}

/// The number of picks after one more; it starts again at zero when it no
/// longer fits.
pub open spec fn next_counter(counter: usize) -> usize {
    if counter == usize::MAX {
        0
    } else {
        (counter + 1) as usize
    }
}

/// How many providers in a pool come before an identifier.
pub open spec fn place(m: Map<u128, ProviderHandle>, id: u128) -> nat {
    m.dom().filter(|k: u128| k < id).len()
}

/// Whether it is the turn of the provider with this identifier when `counter`
/// picks have been made: the providers take turns in the order of their
/// identifiers.
pub open spec fn has_turn(m: Map<u128, ProviderHandle>, counter: usize, id: u128) -> bool {
    m.dom().contains(id) && place(m, id) == turn(counter, m.dom().len())
}

/// Whether a list is in the order of the identifiers.
pub open spec fn ascending(items: Seq<(u128, Arc<ProviderHandle>)>) -> bool {
    forall|i: int, j: int|
        0 <= i < j < items.len() ==> (#[trigger] items[i]).0 <= (#[trigger] items[j]).0
}

/// Puts a list in the order of the identifiers.
pub fn sort_by_id(items: Vec<(u128, Arc<ProviderHandle>)>) -> (res: Vec<
    (u128, Arc<ProviderHandle>),
>)
    ensures
        ascending(res@),
        res@.to_multiset() == items@.to_multiset(),
{
    let ghost all = items@;
    let mut rest = items;
    let mut sorted: Vec<(u128, Arc<ProviderHandle>)> = Vec::new();
    proof {
        to_multiset_len(sorted@);
        assert(rest@.to_multiset().add(sorted@.to_multiset()) =~= all.to_multiset());
    }
    while rest.len() > 0
        invariant
            ascending(sorted@),
            rest@.to_multiset().add(sorted@.to_multiset()) == all.to_multiset(),
        decreases rest@.len(),
    {
        let ghost before = rest@;
        let ghost done = sorted@;
        let item = rest.pop().unwrap();
        let end = sorted.len();
        let mut at: usize = 0;
        while at < end && sorted[at].0 < item.0
            invariant
                at <= end,
                end == sorted@.len(),
                sorted@ == done,
                ascending(done),
                forall|i: int| 0 <= i < at ==> (#[trigger] done[i]).0 < item.0,
            decreases end - at,
        {
            at = at + 1;
        }
        sorted.insert(at, item);
        assert(ascending(sorted@)) by {
            assert forall|i: int, j: int| 0 <= i < j < sorted@.len() implies (#[trigger]
            sorted@[i]).0 <= (#[trigger] sorted@[j]).0 by {
                let was_i = if i < at { i } else { i - 1 };
                let was_j = if j < at { j } else { j - 1 };
                if i != at {
                    assert(sorted@[i] == done[was_i]);
                }
                if j != at {
                    assert(sorted@[j] == done[was_j]);
                }
                if i == at {
                    assert(done[at as int].0 >= item.0);
                }
            }
        }
        proof {
            assert(before =~= rest@.push(item));
            to_multiset_build(rest@, item);
            to_multiset_insert(done, at as int, item);
            assert(rest@.to_multiset().add(sorted@.to_multiset()) =~= before.to_multiset().add(
                done.to_multiset(),
            ));
        }
    }
    proof {
        to_multiset_len(rest@);
        assert(rest@.to_multiset().add(sorted@.to_multiset()) =~= sorted@.to_multiset());
    }
    sorted
}

/// A list of a pool's entries, put into another order, is one still.
proof fn lemma_lists_in_order(
    items: Seq<(u128, Arc<ProviderHandle>)>,
    sorted: Seq<(u128, Arc<ProviderHandle>)>,
    m: Map<u128, ProviderHandle>,
)
    requires
        lists(items, m),
        sorted.to_multiset() == items.to_multiset(),
    ensures
        lists(sorted, m),
{
    broadcast use vstd::seq_lib::group_to_multiset_ensures;

    to_multiset_len(items);
    to_multiset_len(sorted);
    assert(items.no_duplicates());
    items.lemma_multiset_has_no_duplicates();
    sorted.lemma_multiset_has_no_duplicates_conv();
    assert forall|i: int| 0 <= i < sorted.len() implies items.contains(#[trigger] sorted[i]) by {
        assert(sorted.contains(sorted[i]));
        assert(sorted.to_multiset().count(sorted[i]) > 0);
        assert(items.to_multiset().count(sorted[i]) > 0);
    }
    assert forall|i: int, j: int| 0 <= i < j < sorted.len() implies (#[trigger] sorted[i]).0 != (
    #[trigger] sorted[j]).0 by {
        let a = choose|a: int| 0 <= a < items.len() && items[a] == sorted[i];
        let b = choose|b: int| 0 <= b < items.len() && items[b] == sorted[j];
        assert(items.contains(sorted[i]) && items.contains(sorted[j]));
        assert(a != b);
    }
    assert forall|i: int| 0 <= i < sorted.len() implies m.dom().contains((#[trigger] sorted[i]).0)
        && m[sorted[i].0] == *sorted[i].1 by {
        assert(items.contains(sorted[i]));
    }
    assert forall|k: u128| #[trigger] m.dom().contains(k) implies exists|i: int|
        0 <= i < sorted.len() && (#[trigger] sorted[i]).0 == k by {
        let a = choose|a: int| 0 <= a < items.len() && (#[trigger] items[a]).0 == k;
        assert(items.contains(items[a]));
        assert(items.to_multiset().count(items[a]) > 0);
        assert(sorted.to_multiset().count(items[a]) > 0);
        assert(sorted.contains(items[a]));
    }
}

/// In a list in the order of the identifiers, each provider stands in its place.
proof fn lemma_place(items: Seq<(u128, Arc<ProviderHandle>)>, m: Map<u128, ProviderHandle>, r: int)
    requires
        lists(items, m),
        ascending(items),
        0 <= r < items.len(),
    ensures
        place(m, items[r].0) == r,
{
    let earlier = Seq::new(r as nat, |i: int| items[i].0);
    let before = m.dom().filter(|k: u128| k < items[r].0);
    assert(earlier.no_duplicates());
    earlier.unique_seq_to_set();
    assert forall|k: u128| before.contains(k) implies earlier.contains(k) by {
        let i = choose|i: int| 0 <= i < items.len() && (#[trigger] items[i]).0 == k;
        assert(i < r);
        assert(earlier[i] == k);
    }
    assert forall|k: u128| earlier.contains(k) implies before.contains(k) by {
        let i = choose|i: int| 0 <= i < earlier.len() && earlier[i] == k;
        assert(items[i].0 == k);
        assert(items[i].0 != items[r].0);
    }
    assert(earlier.to_set() =~= before);
}

/// The provider at whose turn it is in a list of providers.
pub fn pick_from(items: Vec<(u128, Arc<ProviderHandle>)>, counter: usize) -> (res: Arc<
    ProviderHandle,
>)
    requires
        items@.len() > 0,
    ensures
        res == items@[turn(counter, items@.len())].1,
{
    let mut items = items;
    let n = items.len();
    items.swap_remove(counter % n).1
}

impl ProviderPool {
    /// There are finitely many providers, each known by its own identifier.
    pub open spec fn wf(&self) -> bool {
        &&& self@.dom().finite()
        &&& forall|k: u128| #[trigger] self@.dom().contains(k) ==> self@[k].id == k
    }

    /// How many picks have been made.
    pub closed spec fn picks(&self) -> usize {
        self.counter
    }

    /// A pool without providers.
    pub fn new() -> (res: Self)
        ensures
            res.wf(),
            res@ == Map::<u128, ProviderHandle>::empty(),
            res.picks() == 0,
    {
        let pool = ProviderPool { providers: map_new(), counter: 0 };
        assert(pool@ =~= Map::<u128, ProviderHandle>::empty());
        pool
    }

    /// Adds a provider, in place of one with the same identifier.
    pub fn insert(&mut self, handle: Arc<ProviderHandle>)
        requires
            old(self).wf(),
        ensures
            final(self).wf(),
            final(self)@ == old(self)@.insert(handle.id, *handle),
            final(self).picks() == old(self).picks(),
    {
        map_insert(&mut self.providers, handle.id, handle);
    }

    /// Takes a provider out, and tells whether it was there.
    pub fn remove(&mut self, id: &u128) -> (res: bool)
        requires
            old(self).wf(),
        ensures
            final(self).wf(),
            final(self)@ == old(self)@.remove(*id),
            final(self).picks() == old(self).picks(),
            res == old(self)@.dom().contains(*id),
    {
        map_remove(&mut self.providers, id).is_some()
    }

    /// The number of providers.
    pub fn len(&self) -> (res: usize)
        ensures
            res == self@.dom().len(),
    {
        map_len(&self.providers)
    }

    /// Round-robin provider selection: the providers take turns, in the order
    /// of their identifiers.
    pub fn pick(&mut self) -> (res: Result<Arc<ProviderHandle>, PoolError>)
        requires
            old(self).wf(),
        ensures
            final(self).wf(),
            final(self)@ == old(self)@,
            res is Err <==> old(self)@.dom() == Set::<u128>::empty(),
            res is Err ==> final(self).picks() == old(self).picks(),
            res matches Ok(handle) ==> {
                &&& final(self).picks() == next_counter(old(self).picks())
                &&& old(self)@.dom().contains(handle.id)
                &&& old(self)@[handle.id] == *handle
                &&& has_turn(old(self)@, old(self).picks(), handle.id)
            },
    {
        if map_is_empty(&self.providers) {
            return Err(PoolError::NoProviders);
        }
        let idx = self.counter;
        self.counter = self.counter.wrapping_add(1);
        let items = map_items(&self.providers);
        proof {
            let k = choose|k: u128| self@.dom().contains(k);
            assert(self@.dom() =~= Set::<u128>::empty() || self@.dom().contains(k));
            assert(exists|i: int| 0 <= i < items@.len() && (#[trigger] items@[i]).0 == k);
        }
        let ghost listed = items@;
        let sorted = sort_by_id(items);
        proof {
            let n = listed.len();
            lemma_lists_in_order(listed, sorted@, self@);
            assert(0 <= turn(idx, n) < n);
            lemma_place(sorted@, self@, turn(idx, n));
        }
        Ok(pick_from(sorted, idx))
    }
}

impl Default for ProviderPool {
    fn default() -> (res: Self)
        ensures
            res.wf(),
            res@ == Map::<u128, ProviderHandle>::empty(),
            res.picks() == 0,
    {
        ProviderPool::new()
    }
}

} // verus!
