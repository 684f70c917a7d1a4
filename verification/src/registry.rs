//! The endpoint registry: which ingester endpoints exist and what health
//! state each carries.
//!
//! The registry is changed only by membership events and by probe results.
//! It keeps its endpoints in the order in which they were added, and holds
//! no address twice.

use crate::health::{
    evaluate, no_probes, record_probe, stats_after_probe, stats_wf, status_for, HealthStatus,
    ProbeStats,
};
use crate::search::{first_match, lemma_first_match, lemma_first_match_unique};
use vstd::prelude::*;

verus! {

/// An endpoint as a mathematical value.
pub struct EndpointModel {
    pub address: Seq<char>,
    pub status: HealthStatus,
    pub stats: ProbeStats,
}

/// An ingester endpoint: its network address, its health status and the
/// probe counters of its current window.
#[derive(Debug)]
pub struct IngesterEndpoint {
    pub address: String,
    pub status: HealthStatus,
    pub stats: ProbeStats,
}

impl View for IngesterEndpoint {
    type V = EndpointModel;

    open spec fn view(&self) -> EndpointModel {
        EndpointModel { address: self.address@, status: self.status, stats: self.stats }
    }
}

/// The models of `v`, in order.
pub open spec fn endpoint_views(v: Seq<IngesterEndpoint>) -> Seq<EndpointModel> {
    Seq::new(v.len(), |i: int| v[i]@)
}

/// A change of membership, as a mathematical value.
pub enum EventModel {
    Add(Seq<char>),
    Remove(Seq<char>),
}

/// A change of membership: an endpoint joins or leaves.
#[derive(Debug)]
pub enum MembershipEvent {
    Add(String),
    Remove(String),
}

impl View for MembershipEvent {
    type V = EventModel;

    open spec fn view(&self) -> EventModel {
        match self {
            MembershipEvent::Add(a) => EventModel::Add(a@),
            MembershipEvent::Remove(a) => EventModel::Remove(a@),
        }
    }
}

/// Position of the endpoint with `address`, or the number of endpoints
/// where there is none.
pub open spec fn address_position(endpoints: Seq<EndpointModel>, address: Seq<char>) -> int {
    first_match(endpoints, |e: EndpointModel| e.address == address)
}

/// An endpoint as it joins: not probed, status unknown.
pub open spec fn joined(address: Seq<char>) -> EndpointModel {
    EndpointModel {
        address,
        status: HealthStatus::Unknown,
        stats: ProbeStats { successes: 0, attempts: 0, window_start: 0 },
    }
}

/// The endpoints after a membership event. Adding a known address and
/// removing an unknown one change nothing.
pub open spec fn after_event(endpoints: Seq<EndpointModel>, event: EventModel) -> Seq<
    EndpointModel,
> {
    match event {
        EventModel::Add(a) => {
            if address_position(endpoints, a) < endpoints.len() {
                endpoints
            } else {
                endpoints.push(joined(a))
            }
        },
        EventModel::Remove(a) => {
            if 0 <= address_position(endpoints, a) < endpoints.len() {
                endpoints.remove(address_position(endpoints, a))
            } else {
                endpoints
            }
        },
    }
}

/// The endpoints after each of `addresses` joined in turn: every address
/// once, in order of first appearance.
pub open spec fn joined_all(addresses: Seq<Seq<char>>) -> Seq<EndpointModel>
    decreases addresses.len(),
{
    if addresses.len() == 0 {
        Seq::empty()
    } else {
        after_event(joined_all(addresses.drop_last()), EventModel::Add(addresses.last()))
    }
}

/// An endpoint after a probe at `now`.
pub open spec fn probed(e: EndpointModel, success: bool, now: u64, window: u64) -> EndpointModel {
    EndpointModel {
        address: e.address,
        status: status_for(stats_after_probe(e.stats, success, now, window)),
        stats: stats_after_probe(e.stats, success, now, window),
    }
}

/// The endpoints after a probe of `address` at `now`. A probe of an
/// unknown address changes nothing.
pub open spec fn after_probe(
    endpoints: Seq<EndpointModel>,
    address: Seq<char>,
    success: bool,
    now: u64,
    window: u64,
) -> Seq<EndpointModel> {
    let k = address_position(endpoints, address);
    if 0 <= k < endpoints.len() {
        endpoints.update(k, probed(endpoints[k], success, now, window))
    } else {
        endpoints
    }
}

/// No address occurs twice.
pub open spec fn distinct_addresses(endpoints: Seq<EndpointModel>) -> bool {
    forall|i: int, j: int|
        0 <= i < endpoints.len() && 0 <= j < endpoints.len() && i != j ==> (
        #[trigger] endpoints[i]).address != (#[trigger] endpoints[j]).address
}

/// Every endpoint's status is the one that follows from its counters,
/// and its counters are consistent.
pub open spec fn statuses_follow(endpoints: Seq<EndpointModel>) -> bool {
    forall|i: int|
        0 <= i < endpoints.len() ==> {
            &&& stats_wf((#[trigger] endpoints[i]).stats)
            &&& endpoints[i].status == status_for(endpoints[i].stats)
        }
}

/// The registry as a mathematical value.
pub struct RegistryModel {
    pub endpoints: Seq<EndpointModel>,
    pub window: u64,
}

/// A membership event keeps the addresses distinct and the statuses in
/// step with the counters.
pub proof fn lemma_event_keeps_wf(endpoints: Seq<EndpointModel>, event: EventModel)
    requires
        distinct_addresses(endpoints),
        statuses_follow(endpoints),
    ensures
        distinct_addresses(after_event(endpoints, event)),
        statuses_follow(after_event(endpoints, event)),
{
    let after = after_event(endpoints, event);
    match event {
        EventModel::Add(a) => {
            let p = |e: EndpointModel| e.address == a;
            lemma_first_match(endpoints, p);
            if !(address_position(endpoints, a) < endpoints.len()) {
                assert forall|i: int, j: int|
                    0 <= i < after.len() && 0 <= j < after.len() && i != j implies (
                #[trigger] after[i]).address != (#[trigger] after[j]).address by {
                    if i < endpoints.len() && j < endpoints.len() {
                        assert(endpoints[i].address != endpoints[j].address);
                    } else if i < endpoints.len() {
                        assert(!p(endpoints[i]));
                    } else {
                        assert(!p(endpoints[j]));
                    }
                }
            }
        },
        EventModel::Remove(a) => {
            let p = |e: EndpointModel| e.address == a;
            lemma_first_match(endpoints, p);
            let k = address_position(endpoints, a);
            if 0 <= k < endpoints.len() {
                assert forall|i: int, j: int|
                    0 <= i < after.len() && 0 <= j < after.len() && i != j implies (
                #[trigger] after[i]).address != (#[trigger] after[j]).address by {
                    let oi = if i < k {
                        i
                    } else {
                        i + 1
                    };
                    let oj = if j < k {
                        j
                    } else {
                        j + 1
                    };
                    assert(after[i] == endpoints[oi]);
                    assert(after[j] == endpoints[oj]);
                }
                assert forall|i: int| 0 <= i < after.len() implies {
                    &&& stats_wf((#[trigger] after[i]).stats)
                    &&& after[i].status == status_for(after[i].stats)
                } by {
                    let oi = if i < k {
                        i
                    } else {
                        i + 1
                    };
                    assert(after[i] == endpoints[oi]);
                }
            }
        },
    }
}

/// A removed address is gone, and an added one is there.
pub proof fn lemma_event_effect(endpoints: Seq<EndpointModel>, event: EventModel)
    requires
        distinct_addresses(endpoints),
    ensures
        event matches EventModel::Add(a) ==> address_position(after_event(endpoints, event), a)
            < after_event(endpoints, event).len(),
        event matches EventModel::Remove(a) ==> !(address_position(
            after_event(endpoints, event),
            a,
        ) < after_event(endpoints, event).len()),
{
    let after = after_event(endpoints, event);
    match event {
        EventModel::Add(a) => {
            let p = |e: EndpointModel| e.address == a;
            lemma_first_match(endpoints, p);
            lemma_first_match(after, p);
            if !(address_position(endpoints, a) < endpoints.len()) {
                if address_position(after, a) >= after.len() {
                    assert(p(after[endpoints.len() as int]));
                }
            }
        },
        EventModel::Remove(a) => {
            let p = |e: EndpointModel| e.address == a;
            lemma_first_match(endpoints, p);
            lemma_first_match(after, p);
            let k = address_position(endpoints, a);
            let m = address_position(after, a);
            if m < after.len() {
                if 0 <= k < endpoints.len() {
                    let om = if m < k {
                        m
                    } else {
                        m + 1
                    };
                    assert(after[m] == endpoints[om]);
                    assert(endpoints[om].address == endpoints[k].address);
                } else {
                    assert(p(endpoints[m]));
                }
            }
        },
    }
}

/// A probe keeps the addresses distinct and the statuses in step with the
/// counters.
pub proof fn lemma_probe_keeps_wf(
    endpoints: Seq<EndpointModel>,
    address: Seq<char>,
    success: bool,
    now: u64,
    window: u64,
)
    requires
        distinct_addresses(endpoints),
        statuses_follow(endpoints),
    ensures
        distinct_addresses(after_probe(endpoints, address, success, now, window)),
        statuses_follow(after_probe(endpoints, address, success, now, window)),
{
    let after = after_probe(endpoints, address, success, now, window);
    let k = address_position(endpoints, address);
    if 0 <= k < endpoints.len() {
        assert forall|i: int, j: int|
            0 <= i < after.len() && 0 <= j < after.len() && i != j implies (
        #[trigger] after[i]).address != (#[trigger] after[j]).address by {
            assert(after[i].address == endpoints[i].address);
            assert(after[j].address == endpoints[j].address);
        }
        assert forall|i: int| 0 <= i < after.len() implies {
            &&& stats_wf((#[trigger] after[i]).stats)
            &&& after[i].status == status_for(after[i].stats)
        } by {
            if i != k {
                assert(after[i] == endpoints[i]);
            } else {
                assert(stats_wf(endpoints[k].stats));
            }
        }
    }
}

/// The set of ingester endpoints with their health state.
#[derive(Debug)]
pub struct EndpointRegistry {
    endpoints: Vec<IngesterEndpoint>,
    window: u64,
}

impl View for EndpointRegistry {
    type V = RegistryModel;

    closed spec fn view(&self) -> RegistryModel {
        RegistryModel { endpoints: endpoint_views(self.endpoints@), window: self.window }
    }
}

impl EndpointRegistry {
    /// The registry's invariant: no address twice, every status in step
    /// with its counters.
    pub open spec fn wf(&self) -> bool {
        distinct_addresses(self@.endpoints) && statuses_follow(self@.endpoints)
    }

    /// A registry without endpoints, whose probe windows last `window`
    /// ticks.
    pub fn new(window: u64) -> (r: EndpointRegistry)
        ensures
            r@ == (RegistryModel { endpoints: Seq::empty(), window }),
            r.wf(),
    {
        let r = EndpointRegistry { endpoints: Vec::new(), window };
        assert(endpoint_views(r.endpoints@) =~= Seq::<EndpointModel>::empty());
        r
    }

    /// A registry of the endpoints at `addresses`, none probed yet. An
    /// address that is given twice is taken once.
    pub fn with_addresses(addresses: &Vec<String>, window: u64) -> (r: EndpointRegistry)
        ensures
            r@.endpoints == joined_all(
                Seq::new(addresses@.len(), |i: int| addresses@[i]@),
            ),
            r@.window == window,
            r.wf(),
    {
        let ghost all = Seq::new(addresses@.len(), |i: int| addresses@[i]@);
        let mut r = EndpointRegistry::new(window);
        let mut i: usize = 0;
        assert(all.take(0) =~= Seq::<Seq<char>>::empty());
        while i < addresses.len()
            invariant
                i <= addresses.len(),
                all == Seq::new(addresses@.len(), |i: int| addresses@[i]@),
                r@.endpoints == joined_all(all.take(i as int)),
                r@.window == window,
                r.wf(),
            decreases addresses.len() - i,
        {
            proof {
                let next = all.take(i as int + 1);
                assert(next.drop_last() =~= all.take(i as int));
                assert(next.last() == addresses@[i as int]@);
            }
            r.apply_membership_event(MembershipEvent::Add(addresses[i].clone()));
            i = i + 1;
        }
        assert(all.take(i as int) =~= all);
        r
    }

    /// Position of the endpoint with `address`, or the number of endpoints.
    fn find(&self, address: &String) -> (k: usize)
        ensures
            k == address_position(self@.endpoints, address@),
            k <= self.endpoints.len(),
    {
        let ghost all = endpoint_views(self.endpoints@);
        let ghost p = |e: EndpointModel| e.address == address@;
        let mut i: usize = 0;
        while i < self.endpoints.len()
            invariant
                i <= self.endpoints.len(),
                all == endpoint_views(self.endpoints@),
                p == |e: EndpointModel| e.address == address@,
                forall|j: int| 0 <= j < i ==> !p(#[trigger] all[j]),
            decreases self.endpoints.len() - i,
        {
            assert(all[i as int] == self.endpoints@[i as int]@);
            if self.endpoints[i].address == *address {
                proof {
                    lemma_first_match_unique(all, p, i as int);
                }
                return i;
            }
            i = i + 1;
        }
        proof {
            lemma_first_match_unique(all, p, i as int);
        }
        i
    }

    /// Number of endpoints.
    pub fn len(&self) -> (n: usize)
        ensures
            n == self@.endpoints.len(),
    {
        self.endpoints.len()
    }

    /// Whether an endpoint with `address` is registered.
    pub fn contains(&self, address: &String) -> (b: bool)
        ensures
            b == (address_position(self@.endpoints, address@) < self@.endpoints.len()),
    {
        self.find(address) < self.endpoints.len()
    }

    /// The address of the endpoint at `position`, if there is one.
    pub fn address_at(&self, position: usize) -> (a: Option<String>)
        ensures
            a is Some == (position < self@.endpoints.len()),
            a matches Some(address) ==> address@ == self@.endpoints[position as int].address,
    {
        if position < self.endpoints.len() {
            assert(endpoint_views(self.endpoints@)[position as int]
                == self.endpoints@[position as int]@);
            Some(self.endpoints[position].address.clone())
        } else {
            None
        }
    }

    /// The endpoints as they are now, in order. The copy does not change
    /// when the registry does.
    pub fn snapshot(&self) -> (snap: Vec<IngesterEndpoint>)
        ensures
            endpoint_views(snap@) == self@.endpoints,
    {
        let mut snap: Vec<IngesterEndpoint> = Vec::new();
        let mut i: usize = 0;
        while i < self.endpoints.len()
            invariant
                i <= self.endpoints.len(),
                snap.len() == i,
                forall|j: int| 0 <= j < i ==> snap@[j]@ == self.endpoints@[j]@,
            decreases self.endpoints.len() - i,
        {
            let e = &self.endpoints[i];
            snap.push(
                IngesterEndpoint { address: e.address.clone(), status: e.status, stats: e.stats },
            );
            i = i + 1;
        }
        assert(endpoint_views(snap@) =~= endpoint_views(self.endpoints@));
        snap
    }

    /// Applies a membership event: an added endpoint starts `Unknown` at
    /// the end of the list; a removed one leaves it.
    pub fn apply_membership_event(&mut self, event: MembershipEvent)
        ensures
            final(self)@.endpoints == after_event(old(self)@.endpoints, event@),
            final(self)@.window == old(self)@.window,
            old(self).wf() ==> final(self).wf(),
    {
        let ghost before = endpoint_views(self.endpoints@);
        proof {
            if self.wf() {
                lemma_event_keeps_wf(before, event@);
            }
        }
        match event {
            MembershipEvent::Add(address) => {
                let k = self.find(&address);
                if k == self.endpoints.len() {
                    self.endpoints.push(
                        IngesterEndpoint {
                            address,
                            status: HealthStatus::Unknown,
                            stats: no_probes(),
                        },
                    );
                    assert(endpoint_views(self.endpoints@) =~= before.push(joined(address@)));
                }
            },
            MembershipEvent::Remove(address) => {
                let k = self.find(&address);
                if k < self.endpoints.len() {
                    let _gone = self.endpoints.remove(k);
                    assert(endpoint_views(self.endpoints@) =~= before.remove(k as int));
                }
            },
        }
    }

    /// Counts the result of a probe of `address` made at `now` and sets the
    /// endpoint's status from its counters. Says whether the address is
    /// registered; a probe of an unknown address changes nothing.
    pub fn record_probe_result(&mut self, address: &String, success: bool, now: u64) -> (known:
        bool)
        ensures
            final(self)@.endpoints == after_probe(
                old(self)@.endpoints,
                address@,
                success,
                now,
                old(self)@.window,
            ),
            final(self)@.window == old(self)@.window,
            known == (address_position(old(self)@.endpoints, address@) < old(
                self,
            )@.endpoints.len()),
            old(self).wf() ==> final(self).wf(),
    {
        let ghost before = endpoint_views(self.endpoints@);
        proof {
            if self.wf() {
                lemma_probe_keeps_wf(before, address@, success, now, self.window);
            }
        }
        let k = self.find(address);
        if k == self.endpoints.len() {
            return false;
        }
        assert(before[k as int] == self.endpoints@[k as int]@);
        let stats = record_probe(self.endpoints[k].stats, success, now, self.window);
        let updated = IngesterEndpoint {
            address: self.endpoints[k].address.clone(),
            status: evaluate(stats),
            stats,
        };
        self.endpoints.set(k, updated);
        assert(endpoint_views(self.endpoints@) =~= before.update(
            k as int,
            probed(before[k as int], success, now, self.window),
        ));
        true
    }
}

} // verus!
