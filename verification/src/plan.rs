//! Choosing the endpoints of one write.
//!
//! The endpoints of a snapshot are looked at in round-robin order, starting
//! at a cursor. Healthy endpoints come first, endpoints of unknown health
//! after them; unhealthy endpoints are left out. Only where no endpoint is
//! healthy or unknown are the unhealthy ones taken, so that a write is
//! attempted rather than refused. The plan is the first `replicas` of
//! these candidates, or all of them where there are fewer.

use crate::health::HealthStatus;
use crate::registry::{distinct_addresses, endpoint_views, EndpointModel, IngesterEndpoint};
use vstd::prelude::*;

verus! {

/// The positions `0..n` in round-robin order from `start`: `start`,
/// `start + 1`, and so on to `n - 1`, then `0` up to `start - 1`.
pub open spec fn rotation(n: nat, start: nat) -> Seq<int> {
    Seq::new(
        n,
        |i: int|
            if start + i < n {
                start + i
            } else {
                start + i - n
            },
    )
}

/// The positions of `order` whose endpoint has status `want`, in the order
/// of `order`.
pub open spec fn pick(endpoints: Seq<EndpointModel>, order: Seq<int>, want: HealthStatus) -> Seq<
    int,
>
    decreases order.len(),
{
    if order.len() == 0 {
        Seq::empty()
    } else {
        let rest = pick(endpoints, order.drop_last(), want);
        if endpoints[order.last()].status == want {
            rest.push(order.last())
        } else {
            rest
        }
    }
}

/// The endpoints that a write may go to, best first: the healthy ones, then
/// those of unknown health; the unhealthy ones only where there is no
/// other.
pub open spec fn candidates(endpoints: Seq<EndpointModel>, start: nat) -> Seq<int> {
    let order = rotation(endpoints.len(), start);
    let eligible = pick(endpoints, order, HealthStatus::Healthy) + pick(
        endpoints,
        order,
        HealthStatus::Unknown,
    );
    if eligible.len() > 0 {
        eligible
    } else {
        pick(endpoints, order, HealthStatus::Unhealthy)
    }
}

/// The positions that a write is sent to: the first `replicas` candidates,
/// or all candidates where there are fewer.
pub open spec fn planned_positions(endpoints: Seq<EndpointModel>, start: nat, replicas: nat) -> Seq<
    int,
> {
    let c = candidates(endpoints, start);
    if replicas < c.len() {
        c.take(replicas as int)
    } else {
        c
    }
}

/// One endpoint of a plan, as a mathematical value.
pub struct PlannedModel {
    pub index: int,
    pub address: Seq<char>,
}

/// The plan of a write: the planned positions with the addresses found
/// there.
pub open spec fn plan_for(endpoints: Seq<EndpointModel>, start: nat, replicas: nat) -> Seq<
    PlannedModel,
> {
    let positions = planned_positions(endpoints, start, replicas);
    Seq::new(
        positions.len(),
        |i: int| PlannedModel { index: positions[i], address: endpoints[positions[i]].address },
    )
}

/// The cursor after a plan over `n` endpoints was made from `cursor`.
pub open spec fn next_cursor(cursor: nat, n: nat) -> nat {
    if n == 0 {
        cursor
    } else if cursor % n + 1 == n {
        0
    } else {
        cursor % n + 1
    }
}

/// A rotation holds every position once.
pub proof fn lemma_rotation(n: nat, start: nat)
    requires
        start < n,
    ensures
        rotation(n, start).len() == n,
        rotation(n, start).no_duplicates(),
        forall|i: int| 0 <= i < n ==> 0 <= #[trigger] rotation(n, start)[i] < n,
        forall|k: int| 0 <= k < n ==> rotation(n, start).contains(k),
{
    let r = rotation(n, start);
    assert forall|k: int| 0 <= k < n implies r.contains(k) by {
        let i = if k >= start {
            k - start
        } else {
            k - start + n
        };
        assert(r[i] == k);
    }
}

/// What `pick` picks: positions of `order` with the wanted status, all of
/// them, none twice where `order` holds none twice.
pub proof fn lemma_pick(endpoints: Seq<EndpointModel>, order: Seq<int>, want: HealthStatus)
    ensures
        pick(endpoints, order, want).len() <= order.len(),
        forall|j: int|
            0 <= j < pick(endpoints, order, want).len() ==> {
                &&& order.contains(#[trigger] pick(endpoints, order, want)[j])
                &&& endpoints[pick(endpoints, order, want)[j]].status == want
            },
        forall|i: int|
            0 <= i < order.len() && endpoints[#[trigger] order[i]].status == want ==> pick(
                endpoints,
                order,
                want,
            ).contains(order[i]),
        order.no_duplicates() ==> pick(endpoints, order, want).no_duplicates(),
    decreases order.len(),
{
    let p = pick(endpoints, order, want);
    if order.len() > 0 {
        let head = order.drop_last();
        let rest = pick(endpoints, head, want);
        lemma_pick(endpoints, head, want);
        assert forall|j: int| 0 <= j < p.len() implies {
            &&& order.contains(#[trigger] p[j])
            &&& endpoints[p[j]].status == want
        } by {
            if j < rest.len() {
                assert(p[j] == rest[j]);
                assert(head.contains(rest[j]));
                let w = choose|w: int| 0 <= w < head.len() && head[w] == rest[j];
                assert(order[w] == p[j]);
            } else {
                assert(order[order.len() - 1] == p[j]);
            }
        }
        assert forall|i: int|
            0 <= i < order.len() && endpoints[#[trigger] order[i]].status == want implies p.contains(
            order[i],
        ) by {
            if i < head.len() {
                assert(head[i] == order[i]);
                assert(rest.contains(head[i]));
                let w = choose|w: int| 0 <= w < rest.len() && rest[w] == head[i];
                assert(p[w] == order[i]);
            } else {
                assert(p[p.len() - 1] == order[i]);
            }
        }
        if order.no_duplicates() {
            assert forall|i: int, j: int| 0 <= i < head.len() && 0 <= j < head.len() && i
                != j implies head[i] != head[j] by {
                assert(head[i] == order[i] && head[j] == order[j]);
            }
            assert(rest.no_duplicates());
            if endpoints[order.last()].status == want {
                assert forall|i: int, j: int| 0 <= i < p.len() && 0 <= j < p.len() && i
                    != j implies p[i] != p[j] by {
                    if i < rest.len() && j < rest.len() {
                    } else {
                        let inner = if i < rest.len() {
                            i
                        } else {
                            j
                        };
                        assert(head.contains(rest[inner]));
                        let w = choose|w: int| 0 <= w < head.len() && head[w] == rest[inner];
                        assert(order[w] == rest[inner]);
                        assert(order[w] != order[order.len() - 1]);
                    }
                }
            }
        }
    }
}

/// The candidates are positions of the snapshot, none twice.
pub proof fn lemma_candidates(endpoints: Seq<EndpointModel>, start: nat)
    requires
        start < endpoints.len(),
    ensures
        candidates(endpoints, start).no_duplicates(),
        candidates(endpoints, start).len() <= endpoints.len(),
        forall|j: int|
            0 <= j < candidates(endpoints, start).len() ==> 0 <= #[trigger] candidates(
                endpoints,
                start,
            )[j] < endpoints.len(),
{
    let n = endpoints.len();
    let order = rotation(n, start);
    let h = pick(endpoints, order, HealthStatus::Healthy);
    let u = pick(endpoints, order, HealthStatus::Unknown);
    let x = pick(endpoints, order, HealthStatus::Unhealthy);
    let c = candidates(endpoints, start);
    lemma_rotation(n, start);
    lemma_pick(endpoints, order, HealthStatus::Healthy);
    lemma_pick(endpoints, order, HealthStatus::Unknown);
    lemma_pick(endpoints, order, HealthStatus::Unhealthy);
    assert forall|j: int| 0 <= j < c.len() implies 0 <= #[trigger] c[j] < n by {
        let v = c[j];
        if (h + u).len() > 0 {
            if j < h.len() {
                assert(v == h[j]);
            } else {
                assert(v == u[j - h.len()]);
            }
        } else {
            assert(v == x[j]);
        }
        assert(order.contains(v));
        let w = choose|w: int| 0 <= w < order.len() && order[w] == v;
        assert(0 <= order[w] < n);
    }
    if (h + u).len() > 0 {
        assert forall|i: int, j: int| 0 <= i < c.len() && 0 <= j < c.len() && i != j implies c[i]
            != c[j] by {
            if i < h.len() && j < h.len() {
                assert(c[i] == h[i] && c[j] == h[j]);
            } else if i >= h.len() && j >= h.len() {
                assert(c[i] == u[i - h.len()] && c[j] == u[j - h.len()]);
            } else if i < h.len() {
                assert(c[i] == h[i] && c[j] == u[j - h.len()]);
            } else {
                assert(c[j] == h[j] && c[i] == u[i - h.len()]);
            }
        }
        lemma_no_duplicates_len(c, n);
    } else {
        lemma_no_duplicates_len(c, n);
    }
}

/// A sequence of positions below `n`, none twice, is no longer than `n`.
pub proof fn lemma_no_duplicates_len(s: Seq<int>, n: nat)
    requires
        s.no_duplicates(),
        forall|j: int| 0 <= j < s.len() ==> 0 <= #[trigger] s[j] < n,
    ensures
        s.len() <= n,
{
    let all = Set::new(|k: int| 0 <= k < n);
    vstd::set_lib::lemma_int_range(0, n as int);
    assert(all =~= vstd::set_lib::set_int_range(0, n as int));
    s.unique_seq_to_set();
    assert(s.to_set().subset_of(all)) by {
        assert forall|v: int| s.to_set().contains(v) implies all.contains(v) by {
            let w = choose|w: int| 0 <= w < s.len() && s[w] == v;
            assert(0 <= s[w] < n);
        }
    }
    vstd::set_lib::lemma_len_subset(s.to_set(), all);
}

/// Plan laws: a plan holds at most `replicas` positions, as many as there
/// are candidates where those are fewer, all of the snapshot and none
/// twice.
pub proof fn lemma_plan_shape(endpoints: Seq<EndpointModel>, start: nat, replicas: nat)
    requires
        start < endpoints.len(),
    ensures
        planned_positions(endpoints, start, replicas).len() <= replicas,
        planned_positions(endpoints, start, replicas).len() <= endpoints.len(),
        planned_positions(endpoints, start, replicas).len() == if replicas < candidates(
            endpoints,
            start,
        ).len() {
            replicas
        } else {
            candidates(endpoints, start).len()
        },
        planned_positions(endpoints, start, replicas).no_duplicates(),
        forall|j: int|
            0 <= j < planned_positions(endpoints, start, replicas).len() ==> 0
                <= #[trigger] planned_positions(endpoints, start, replicas)[j] < endpoints.len(),
{
    let c = candidates(endpoints, start);
    let p = planned_positions(endpoints, start, replicas);
    lemma_candidates(endpoints, start);
    assert forall|j: int| 0 <= j < p.len() implies 0 <= #[trigger] p[j] < endpoints.len() by {
        assert(p[j] == c[j]);
    }
    assert forall|i: int, j: int| 0 <= i < p.len() && 0 <= j < p.len() && i != j implies p[i]
        != p[j] by {
        assert(p[i] == c[i] && p[j] == c[j]);
    }
}

/// A plan over a snapshot without repeated addresses names no address
/// twice.
pub proof fn lemma_plan_addresses_distinct(
    endpoints: Seq<EndpointModel>,
    start: nat,
    replicas: nat,
)
    requires
        start < endpoints.len(),
        distinct_addresses(endpoints),
    ensures
        forall|i: int, j: int|
            0 <= i < plan_for(endpoints, start, replicas).len() && 0 <= j < plan_for(
                endpoints,
                start,
                replicas,
            ).len() && i != j ==> (#[trigger] plan_for(endpoints, start, replicas)[i]).address != (
            #[trigger] plan_for(endpoints, start, replicas)[j]).address,
{
    let p = planned_positions(endpoints, start, replicas);
    let plan = plan_for(endpoints, start, replicas);
    lemma_plan_shape(endpoints, start, replicas);
    assert forall|i: int, j: int|
        0 <= i < plan.len() && 0 <= j < plan.len() && i != j implies (#[trigger] plan[i]).address
        != (#[trigger] plan[j]).address by {
        assert(p[i] != p[j]);
        assert(0 <= p[i] < endpoints.len());
        assert(0 <= p[j] < endpoints.len());
        assert(endpoints[p[i]].address != endpoints[p[j]].address);
    }
}

/// Where some endpoint is healthy or of unknown health, no unhealthy
/// endpoint is planned.
pub proof fn lemma_unhealthy_left_out(
    endpoints: Seq<EndpointModel>,
    start: nat,
    replicas: nat,
    k: int,
)
    requires
        start < endpoints.len(),
        0 <= k < endpoints.len(),
        endpoints[k].status != HealthStatus::Unhealthy,
    ensures
        forall|j: int|
            0 <= j < planned_positions(endpoints, start, replicas).len() ==> endpoints[
            #[trigger] planned_positions(endpoints, start, replicas)[j]].status
                != HealthStatus::Unhealthy,
{
    let n = endpoints.len();
    let order = rotation(n, start);
    let h = pick(endpoints, order, HealthStatus::Healthy);
    let u = pick(endpoints, order, HealthStatus::Unknown);
    let c = candidates(endpoints, start);
    let p = planned_positions(endpoints, start, replicas);
    lemma_rotation(n, start);
    lemma_pick(endpoints, order, HealthStatus::Healthy);
    lemma_pick(endpoints, order, HealthStatus::Unknown);
    assert(order.contains(k));
    let w = choose|w: int| 0 <= w < order.len() && order[w] == k;
    if endpoints[k].status == HealthStatus::Healthy {
        assert(h.contains(order[w]));
    } else {
        assert(u.contains(order[w]));
    }
    assert((h + u).len() > 0);
    assert forall|j: int| 0 <= j < p.len() implies endpoints[#[trigger] p[j]].status
        != HealthStatus::Unhealthy by {
        assert(p[j] == c[j]);
        if j < h.len() {
            assert(c[j] == h[j]);
        } else {
            assert(c[j] == u[j - h.len()]);
        }
    }
}

/// Healthy endpoints are preferred: where an endpoint that is not healthy
/// is planned, every healthy endpoint is planned too.
pub proof fn lemma_healthy_preferred(
    endpoints: Seq<EndpointModel>,
    start: nat,
    replicas: nat,
    j: int,
    k: int,
)
    requires
        start < endpoints.len(),
        0 <= j < planned_positions(endpoints, start, replicas).len(),
        endpoints[planned_positions(endpoints, start, replicas)[j]].status
            != HealthStatus::Healthy,
        0 <= k < endpoints.len(),
        endpoints[k].status == HealthStatus::Healthy,
    ensures
        planned_positions(endpoints, start, replicas).contains(k),
{
    let n = endpoints.len();
    let order = rotation(n, start);
    let h = pick(endpoints, order, HealthStatus::Healthy);
    let u = pick(endpoints, order, HealthStatus::Unknown);
    let c = candidates(endpoints, start);
    let p = planned_positions(endpoints, start, replicas);
    lemma_rotation(n, start);
    lemma_pick(endpoints, order, HealthStatus::Healthy);
    assert(order.contains(k));
    let w = choose|w: int| 0 <= w < order.len() && order[w] == k;
    assert(h.contains(order[w]));
    let hk = choose|hk: int| 0 <= hk < h.len() && h[hk] == k;
    assert((h + u).len() > 0);
    assert(p[j] == c[j]);
    if j < h.len() {
        assert(c[j] == h[j]);
    }
    assert(j >= h.len());
    assert(p[hk] == c[hk]);
    assert(c[hk] == h[hk]);
}

/// A write is attempted whenever it can be: with at least one endpoint
/// and at least one replica asked for, the plan is not empty, whatever the
/// health of the endpoints.
pub proof fn lemma_plan_not_empty(endpoints: Seq<EndpointModel>, start: nat, replicas: nat)
    requires
        start < endpoints.len(),
        replicas >= 1,
    ensures
        planned_positions(endpoints, start, replicas).len() >= 1,
{
    let n = endpoints.len();
    let order = rotation(n, start);
    let h = pick(endpoints, order, HealthStatus::Healthy);
    let u = pick(endpoints, order, HealthStatus::Unknown);
    let x = pick(endpoints, order, HealthStatus::Unhealthy);
    lemma_rotation(n, start);
    lemma_pick(endpoints, order, HealthStatus::Healthy);
    lemma_pick(endpoints, order, HealthStatus::Unknown);
    lemma_pick(endpoints, order, HealthStatus::Unhealthy);
    let k = order[0];
    match endpoints[k].status {
        HealthStatus::Healthy => {
            assert(h.contains(order[0]));
        },
        HealthStatus::Unknown => {
            assert(u.contains(order[0]));
        },
        HealthStatus::Unhealthy => {
            assert(x.contains(order[0]));
        },
    }
}

/// One endpoint of a plan: its position in the snapshot and its address.
#[derive(Debug)]
pub struct PlannedEndpoint {
    pub index: usize,
    pub address: String,
}

impl View for PlannedEndpoint {
    type V = PlannedModel;

    open spec fn view(&self) -> PlannedModel {
        PlannedModel { index: self.index as int, address: self.address@ }
    }
}

/// The models of `v`, in order.
pub open spec fn planned_views(v: Seq<PlannedEndpoint>) -> Seq<PlannedModel> {
    Seq::new(v.len(), |i: int| v[i]@)
}

/// The positions held by `v`, as integers.
pub open spec fn positions(v: Seq<usize>) -> Seq<int> {
    Seq::new(v.len(), |i: int| v[i] as int)
}

/// The plan made from a cursor that may be any number: empty for an empty
/// snapshot, else the plan that starts at the cursor's place in the round.
pub open spec fn plan_from_cursor(endpoints: Seq<EndpointModel>, cursor: nat, replicas: nat) -> Seq<
    PlannedModel,
> {
    if endpoints.len() == 0 {
        Seq::empty()
    } else {
        plan_for(endpoints, cursor % endpoints.len(), replicas)
    }
}

/// The endpoints that one write is sent to, in order. A plan is not
/// changed once it is made.
#[derive(Debug)]
pub struct ReplicationPlan {
    endpoints: Vec<PlannedEndpoint>,
}

impl View for ReplicationPlan {
    type V = Seq<PlannedModel>;

    closed spec fn view(&self) -> Seq<PlannedModel> {
        planned_views(self.endpoints@)
    }
}

impl ReplicationPlan {
    /// Number of planned endpoints.
    pub fn len(&self) -> (n: usize)
        ensures
            n == self@.len(),
    {
        self.endpoints.len()
    }

    /// The planned endpoints, in order.
    pub fn endpoints(&self) -> (e: &Vec<PlannedEndpoint>)
        ensures
            planned_views(e@) == self@,
    {
        &self.endpoints
    }
}

/// Appends to `out` the positions with status `want`, in round-robin order
/// from `start`.
fn collect(snapshot: &Vec<IngesterEndpoint>, start: usize, want: HealthStatus, out: &mut Vec<usize>)
    requires
        start < snapshot.len(),
    ensures
        positions(final(out)@) == positions(old(out)@) + pick(
            endpoint_views(snapshot@),
            rotation(snapshot.len() as nat, start as nat),
            want,
        ),
{
    let n = snapshot.len();
    let ghost eps = endpoint_views(snapshot@);
    let ghost order = rotation(n as nat, start as nat);
    let mut i: usize = 0;
    assert(positions(out@) + pick(eps, order.take(0), want) =~= positions(out@));
    while i < n
        invariant
            i <= n,
            n == snapshot.len(),
            start < n,
            eps == endpoint_views(snapshot@),
            order == rotation(n as nat, start as nat),
            positions(out@) == positions(old(out)@) + pick(eps, order.take(i as int), want),
        decreases n - i,
    {
        let k = if i < n - start {
            start + i
        } else {
            i - (n - start)
        };
        proof {
            let next = order.take(i as int + 1);
            assert(next.drop_last() =~= order.take(i as int));
            assert(next.last() == k);
            assert(eps[k as int] == snapshot@[k as int]@);
        }
        if snapshot[k].status == want {
            let ghost before = positions(out@);
            out.push(k);
            assert(positions(out@) =~= before.push(k as int));
            assert(positions(old(out)@) + pick(eps, order.take(i as int), want).push(k as int)
                =~= (positions(old(out)@) + pick(eps, order.take(i as int), want)).push(
                k as int,
            ));
        }
        i = i + 1;
    }
    assert(order.take(i as int) =~= order);
}

/// Makes the plan of one write over `snapshot`: up to `replicas` distinct
/// endpoints, healthy before unknown, unhealthy only where there is no
/// other, in round-robin order from `cursor`.
pub fn make_plan(snapshot: &Vec<IngesterEndpoint>, cursor: usize, replicas: usize) -> (plan:
    ReplicationPlan)
    ensures
        plan@ == plan_from_cursor(endpoint_views(snapshot@), cursor as nat, replicas as nat),
        plan@.len() <= replicas,
        plan@.len() <= snapshot.len(),
{
    let n = snapshot.len();
    let mut endpoints: Vec<PlannedEndpoint> = Vec::new();
    if n == 0 {
        assert(planned_views(endpoints@) =~= Seq::<PlannedModel>::empty());
        return ReplicationPlan { endpoints };
    }
    let start = cursor % n;
    let ghost eps = endpoint_views(snapshot@);
    let mut chosen: Vec<usize> = Vec::new();
    assert(positions(chosen@) =~= Seq::<int>::empty());
    collect(snapshot, start, HealthStatus::Healthy, &mut chosen);
    collect(snapshot, start, HealthStatus::Unknown, &mut chosen);
    if chosen.len() == 0 {
        collect(snapshot, start, HealthStatus::Unhealthy, &mut chosen);
    }
    let ghost c = candidates(eps, start as nat);
    assert(positions(chosen@) =~= c);
    let count = if replicas < chosen.len() {
        replicas
    } else {
        chosen.len()
    };
    let ghost p = planned_positions(eps, start as nat, replicas as nat);
    proof {
        lemma_plan_shape(eps, start as nat, replicas as nat);
        lemma_candidates(eps, start as nat);
    }
    let mut i: usize = 0;
    while i < count
        invariant
            i <= count,
            count <= chosen.len(),
            count == p.len(),
            eps == endpoint_views(snapshot@),
            positions(chosen@) == c,
            c == candidates(eps, start as nat),
            p == planned_positions(eps, start as nat, replicas as nat),
            forall|j: int| 0 <= j < c.len() ==> 0 <= #[trigger] c[j] < snapshot.len(),
            endpoints.len() == i,
            forall|j: int|
                0 <= j < i ==> (#[trigger] endpoints@[j])@ == (PlannedModel {
                    index: p[j],
                    address: eps[p[j]].address,
                }),
        decreases count - i,
    {
        let k = chosen[i];
        assert(positions(chosen@)[i as int] == k);
        assert(p[i as int] == c[i as int]);
        assert(eps[k as int] == snapshot@[k as int]@);
        endpoints.push(PlannedEndpoint { index: k, address: snapshot[k].address.clone() });
        i = i + 1;
    }
    assert(planned_views(endpoints@) =~= plan_for(eps, start as nat, replicas as nat));
    ReplicationPlan { endpoints }
}

} // verus!
