//! Admission control: a bound on the number of requests in flight and on
//! the bytes they hold.
//!
//! A request is admitted with a permit, or rejected at once. The permit is
//! handed back with `release` when the request is done, however it ended.
//! The controller's model is the list of the byte sizes of the permits
//! that are out; its two counters are the length and the sum of that list.

use crate::search::{first_match, lemma_first_match};
use vstd::prelude::*;

verus! {

/// Why a request is rejected.
#[derive(Clone, Copy, Debug, PartialEq, Eq, Structural)]
pub enum AdmissionRejected {
    /// One more request would pass the limit on concurrent requests.
    TooManyRequests,
    /// The request's bytes would take the bytes in flight past their limit.
    TooManyBytes,
}

/// The controller as a mathematical value: its limits and the byte sizes
/// of the permits that are out, in the order in which they were granted.
pub struct AdmissionModel {
    pub request_limit: nat,
    pub byte_limit: Option<nat>,
    pub outstanding: Seq<nat>,
}

/// Sum of `s`.
pub open spec fn total(s: Seq<nat>) -> nat
    decreases s.len(),
{
    if s.len() == 0 {
        0
    } else {
        total(s.drop_last()) + s.last()
    }
}

/// Position of the oldest permit of `size` bytes in `outstanding`, or the
/// length of `outstanding` where there is none.
pub open spec fn oldest(outstanding: Seq<nat>, size: nat) -> int {
    first_match(outstanding, has_size(size))
}

/// The test for a permit of `size` bytes.
pub open spec fn has_size(size: nat) -> spec_fn(nat) -> bool {
    |v: nat| v == size
}

/// The oldest permit of a size that is out is in the list, and has that
/// size.
pub proof fn lemma_oldest(outstanding: Seq<nat>, size: nat)
    requires
        outstanding.contains(size),
    ensures
        0 <= oldest(outstanding, size) < outstanding.len(),
        outstanding[oldest(outstanding, size)] == size,
{
    let p = has_size(size);
    lemma_first_match(outstanding, p);
    let k = first_match(outstanding, p);
    let w = choose|w: int| 0 <= w < outstanding.len() && outstanding[w] == size;
    if k >= outstanding.len() {
        assert(!p(outstanding[w]));
    } else {
        assert(p(outstanding[k]));
    }
}

impl AdmissionModel {
    /// The concurrent-request counter.
    pub open spec fn requests(self) -> nat {
        self.outstanding.len()
    }

    /// The in-flight-byte counter.
    pub open spec fn bytes(self) -> nat {
        total(self.outstanding)
    }

    /// Whether a request of `size` bytes is admitted: both counters stay
    /// within their limits after accounting for it. Without a byte limit
    /// the bytes are not bounded.
    pub open spec fn admits(self, size: nat) -> bool {
        &&& self.requests() + 1 <= self.request_limit
        &&& (self.byte_limit matches Some(limit) ==> self.bytes() + size <= limit)
    }

    /// Why a request of `size` bytes is rejected, if it is. The limit on
    /// requests is looked at first.
    pub open spec fn rejection(self, size: nat) -> Option<AdmissionRejected> {
        if self.requests() + 1 > self.request_limit {
            Some(AdmissionRejected::TooManyRequests)
        } else if self.byte_limit is Some && self.bytes() + size > self.byte_limit.unwrap() {
            Some(AdmissionRejected::TooManyBytes)
        } else {
            None
        }
    }

    /// The controller after a request of `size` bytes was admitted.
    pub open spec fn admitted(self, size: nat) -> AdmissionModel {
        AdmissionModel {
            request_limit: self.request_limit,
            byte_limit: self.byte_limit,
            outstanding: self.outstanding.push(size),
        }
    }

    /// Whether a permit of `size` bytes is out.
    pub open spec fn holds(self, size: nat) -> bool {
        self.outstanding.contains(size)
    }

    /// The controller after a permit of `size` bytes was released: the
    /// oldest permit of that size is struck from the list.
    pub open spec fn released(self, size: nat) -> AdmissionModel {
        AdmissionModel {
            request_limit: self.request_limit,
            byte_limit: self.byte_limit,
            outstanding: self.outstanding.remove(oldest(self.outstanding, size)),
        }
    }

    /// The controller after requests of `sizes` were admitted one after
    /// the other.
    pub open spec fn admitted_all(self, sizes: Seq<nat>) -> AdmissionModel
        decreases sizes.len(),
    {
        if sizes.len() == 0 {
            self
        } else {
            self.admitted_all(sizes.drop_last()).admitted(sizes.last())
        }
    }

    /// Whether permits of `sizes` can be released one after the other:
    /// each is out when its turn comes.
    pub open spec fn releasable(self, sizes: Seq<nat>) -> bool
        decreases sizes.len(),
    {
        if sizes.len() == 0 {
            true
        } else {
            self.releasable(sizes.drop_last()) && self.released_all(sizes.drop_last()).holds(
                sizes.last(),
            )
        }
    }

    /// The controller after permits of `sizes` were released one after the
    /// other.
    pub open spec fn released_all(self, sizes: Seq<nat>) -> AdmissionModel
        decreases sizes.len(),
    {
        if sizes.len() == 0 {
            self
        } else {
            self.released_all(sizes.drop_last()).released(sizes.last())
        }
    }
}

/// Appending a value adds it to the sum.
pub proof fn lemma_total_push(s: Seq<nat>, x: nat)
    ensures
        total(s.push(x)) == total(s) + x,
{
    assert(s.push(x).drop_last() =~= s);
}

/// Striking a value takes it off the sum.
pub proof fn lemma_total_remove(s: Seq<nat>, i: int)
    requires
        0 <= i < s.len(),
    ensures
        total(s.remove(i)) == total(s) - s[i],
    decreases s.len(),
{
    if i == s.len() - 1 {
        assert(s.remove(i) =~= s.drop_last());
    } else {
        lemma_total_remove(s.drop_last(), i);
        assert(s.remove(i).drop_last() =~= s.drop_last().remove(i));
        assert(s.remove(i).last() == s.last());
    }
}

/// A sum of values that are each at most `bound` is at most their number
/// times `bound`.
pub proof fn lemma_total_bound(s: Seq<nat>, bound: nat)
    requires
        forall|i: int| 0 <= i < s.len() ==> s[i] <= bound,
    ensures
        total(s) <= s.len() * bound,
    decreases s.len(),
{
    if s.len() > 0 {
        let head = s.drop_last();
        assert forall|i: int| 0 <= i < head.len() implies head[i] <= bound by {
            assert(head[i] == s[i]);
        }
        lemma_total_bound(head, bound);
        assert(s.last() <= bound);
        assert(total(s) <= s.len() * bound) by (nonlinear_arith)
            requires
                total(s) == total(head) + s.last(),
                total(head) <= head.len() * bound,
                s.last() <= bound,
                head.len() + 1 == s.len(),
        ;
    }
}

/// A request is admitted exactly when it is not rejected; a rejection for
/// requests means that limit is reached, one for bytes that the requests
/// pass and the bytes do not.
pub proof fn lemma_admits_iff_not_rejected(m: AdmissionModel, size: nat)
    ensures
        m.admits(size) <==> m.rejection(size) is None,
        m.rejection(size) == Some(AdmissionRejected::TooManyRequests) <==> m.requests() + 1
            > m.request_limit,
        m.rejection(size) == Some(AdmissionRejected::TooManyBytes) <==> m.requests() + 1
            <= m.request_limit && m.byte_limit is Some && m.bytes() + size
            > m.byte_limit.unwrap(),
{
}

/// Admitting adds one request and the request's bytes; releasing takes
/// them off again.
pub proof fn lemma_counters_step(m: AdmissionModel, size: nat)
    ensures
        m.admitted(size).requests() == m.requests() + 1,
        m.admitted(size).bytes() == m.bytes() + size,
        m.admitted(size).holds(size),
        m.holds(size) ==> m.released(size).requests() == m.requests() - 1,
        m.holds(size) ==> m.released(size).bytes() == m.bytes() - size,
        m.admitted(size).released(size).requests() == m.requests(),
        m.admitted(size).released(size).bytes() == m.bytes(),
{
    lemma_total_push(m.outstanding, size);
    let after = m.admitted(size);
    assert(after.outstanding[m.outstanding.len() as int] == size);
    lemma_released_counters(after, size);
    if m.holds(size) {
        lemma_released_counters(m, size);
    }
}

/// Releasing a permit that is out takes one request and the permit's
/// bytes off the counters.
pub proof fn lemma_released_counters(m: AdmissionModel, size: nat)
    requires
        m.holds(size),
    ensures
        m.released(size).requests() == m.requests() - 1,
        m.released(size).bytes() == m.bytes() - size,
{
    lemma_oldest(m.outstanding, size);
    lemma_total_remove(m.outstanding, oldest(m.outstanding, size));
}

/// The counters after a run of admissions.
pub proof fn lemma_admitted_all(m: AdmissionModel, sizes: Seq<nat>)
    ensures
        m.admitted_all(sizes).requests() == m.requests() + sizes.len(),
        m.admitted_all(sizes).bytes() == m.bytes() + total(sizes),
        m.admitted_all(sizes).request_limit == m.request_limit,
        m.admitted_all(sizes).byte_limit == m.byte_limit,
    decreases sizes.len(),
{
    if sizes.len() > 0 {
        lemma_admitted_all(m, sizes.drop_last());
        lemma_counters_step(m.admitted_all(sizes.drop_last()), sizes.last());
    }
}

/// The counters after a run of releases.
pub proof fn lemma_released_all(m: AdmissionModel, sizes: Seq<nat>)
    requires
        m.releasable(sizes),
    ensures
        m.released_all(sizes).requests() == m.requests() - sizes.len(),
        m.released_all(sizes).bytes() == m.bytes() - total(sizes),
        m.released_all(sizes).request_limit == m.request_limit,
        m.released_all(sizes).byte_limit == m.byte_limit,
    decreases sizes.len(),
{
    if sizes.len() > 0 {
        lemma_released_all(m, sizes.drop_last());
        lemma_released_counters(m.released_all(sizes.drop_last()), sizes.last());
    }
}

/// Round trip: after admitting requests and then releasing as many
/// permits of the same total size, in whatever order, both counters are
/// what they were before.
pub proof fn lemma_round_trip(m: AdmissionModel, admitted: Seq<nat>, released: Seq<nat>)
    requires
        released.len() == admitted.len(),
        total(released) == total(admitted),
        m.admitted_all(admitted).releasable(released),
    ensures
        m.admitted_all(admitted).released_all(released).requests() == m.requests(),
        m.admitted_all(admitted).released_all(released).bytes() == m.bytes(),
{
    lemma_admitted_all(m, admitted);
    lemma_released_all(m.admitted_all(admitted), released);
}

/// The sum of a list does not depend on its order.
pub proof fn lemma_total_of_permutation(a: Seq<nat>, b: Seq<nat>)
    requires
        a.to_multiset() == b.to_multiset(),
    ensures
        total(a) == total(b),
        a.len() == b.len(),
    decreases a.len(),
{
    a.to_multiset_ensures();
    b.to_multiset_ensures();
    if a.len() > 0 {
        let x = a.last();
        assert(a.contains(x)) by {
            assert(a[a.len() - 1] == x);
        }
        assert(a.to_multiset().count(x) > 0);
        assert(b.contains(x));
        let i = choose|i: int| 0 <= i < b.len() && b[i] == x;
        assert(a.remove(a.len() - 1) =~= a.drop_last());
        assert(a.remove(a.len() - 1).to_multiset() =~= a.to_multiset().remove(a[a.len() - 1]));
        assert(b.remove(i).to_multiset() =~= b.to_multiset().remove(b[i]));
        lemma_total_of_permutation(a.drop_last(), b.remove(i));
        lemma_total_remove(b, i);
    }
}

/// The permits that are out after a run of admissions: those that were
/// out before, and one for each admission.
pub proof fn lemma_admitted_all_outstanding(m: AdmissionModel, sizes: Seq<nat>)
    ensures
        m.admitted_all(sizes).outstanding.to_multiset() == m.outstanding.to_multiset().add(
            sizes.to_multiset(),
        ),
    decreases sizes.len(),
{
    broadcast use vstd::seq_lib::group_to_multiset_ensures;
    broadcast use vstd::multiset::group_multiset_axioms;

    if sizes.len() == 0 {
        assert(sizes.to_multiset() =~= vstd::multiset::Multiset::<nat>::empty());
        assert(m.outstanding.to_multiset().add(sizes.to_multiset())
            =~= m.outstanding.to_multiset());
    } else {
        let head = sizes.drop_last();
        lemma_admitted_all_outstanding(m, head);
        assert(head.push(sizes.last()) =~= sizes);
        assert(sizes.to_multiset() =~= head.to_multiset().insert(sizes.last()));
        assert(m.admitted_all(sizes).outstanding.to_multiset() =~= m.outstanding.to_multiset().add(
            sizes.to_multiset(),
        ));
    }
}

/// Permits that are out can be released in any order, and leave behind
/// the permits that are not among them.
pub proof fn lemma_release_in_any_order(
    m: AdmissionModel,
    sizes: Seq<nat>,
    others: vstd::multiset::Multiset<nat>,
)
    requires
        m.outstanding.to_multiset() == others.add(sizes.to_multiset()),
    ensures
        m.releasable(sizes),
        m.released_all(sizes).outstanding.to_multiset() == others,
        m.released_all(sizes).request_limit == m.request_limit,
        m.released_all(sizes).byte_limit == m.byte_limit,
    decreases sizes.len(),
{
    broadcast use vstd::seq_lib::group_to_multiset_ensures;
    broadcast use vstd::multiset::group_multiset_axioms;

    if sizes.len() == 0 {
        assert(sizes.to_multiset() =~= vstd::multiset::Multiset::<nat>::empty());
        assert(others.add(sizes.to_multiset()) =~= others);
    } else {
        let head = sizes.drop_last();
        let last = sizes.last();
        assert(head.push(last) =~= sizes);
        assert(sizes.to_multiset() =~= head.to_multiset().insert(last));
        assert(others.add(sizes.to_multiset()) =~= others.insert(last).add(head.to_multiset()));
        lemma_release_in_any_order(m, head, others.insert(last));
        let mid = m.released_all(head);
        assert(mid.outstanding.to_multiset().count(last) > 0);
        assert(mid.outstanding.contains(last));
        lemma_oldest(mid.outstanding, last);
        assert(mid.released(last).outstanding.to_multiset() =~= others);
    }
}

/// Round trip in any order: after admitting requests and then releasing
/// their permits, in whatever order, the permits that are out are those
/// that were out before, and both counters are what they were.
pub proof fn lemma_round_trip_any_order(m: AdmissionModel, admitted: Seq<nat>, released: Seq<nat>)
    requires
        released.to_multiset() == admitted.to_multiset(),
    ensures
        m.admitted_all(admitted).releasable(released),
        m.admitted_all(admitted).released_all(released).outstanding.to_multiset()
            == m.outstanding.to_multiset(),
        m.admitted_all(admitted).released_all(released).requests() == m.requests(),
        m.admitted_all(admitted).released_all(released).bytes() == m.bytes(),
{
    lemma_admitted_all_outstanding(m, admitted);
    lemma_release_in_any_order(m.admitted_all(admitted), released, m.outstanding.to_multiset());
    lemma_total_of_permutation(
        m.admitted_all(admitted).released_all(released).outstanding,
        m.outstanding,
    );
}

/// Proof that a request was admitted. It holds the request's byte size
/// and is given back with `release`.
#[derive(Debug)]
pub struct Permit {
    bytes: u64,
}

impl View for Permit {
    type V = nat;

    closed spec fn view(&self) -> nat {
        self.bytes as nat
    }
}

impl Permit {
    /// The byte size that the permit accounts for.
    pub fn bytes(&self) -> (b: u64)
        ensures
            b == self@,
    {
        self.bytes
    }
}

/// Decides which requests are let in, and counts those that are.
pub struct AdmissionController {
    request_limit: usize,
    byte_limit: Option<u64>,
    in_flight_requests: usize,
    in_flight_bytes: u128,
    outstanding: Ghost<Seq<nat>>,
}

impl View for AdmissionController {
    type V = AdmissionModel;

    closed spec fn view(&self) -> AdmissionModel {
        AdmissionModel {
            request_limit: self.request_limit as nat,
            byte_limit: match self.byte_limit {
                Some(limit) => Some(limit as nat),
                None => None,
            },
            outstanding: self.outstanding@,
        }
    }
}

impl AdmissionController {
    /// The controller's invariant: its counters are the number and the sum
    /// of the permits that are out, and the requests are within their
    /// limit.
    pub closed spec fn wf(&self) -> bool {
        &&& self.in_flight_requests == self.outstanding@.len()
        &&& self.in_flight_bytes == total(self.outstanding@)
        &&& self.in_flight_requests <= self.request_limit
        &&& forall|i: int| 0 <= i < self.outstanding@.len() ==> self.outstanding@[i] <= u64::MAX
    }

    /// A controller with nothing in flight. `byte_limit` of `None` puts no
    /// bound on the bytes.
    pub fn new(request_limit: usize, byte_limit: Option<u64>) -> (c: AdmissionController)
        ensures
            c.wf(),
            c@.request_limit == request_limit,
            c@.byte_limit == (match byte_limit {
                Some(limit) => Some(limit as nat),
                None => None,
            }),
            c@.outstanding == Seq::<nat>::empty(),
    {
        AdmissionController {
            request_limit,
            byte_limit,
            in_flight_requests: 0,
            in_flight_bytes: 0,
            outstanding: Ghost(Seq::empty()),
        }
    }

    /// Admits a request of `byte_size` bytes, or rejects it at once. A
    /// rejection changes nothing.
    pub fn try_admit(&mut self, byte_size: u64) -> (r: Result<Permit, AdmissionRejected>)
        requires
            old(self).wf(),
        ensures
            final(self).wf(),
            r is Ok <==> old(self)@.admits(byte_size as nat),
            match r {
                Ok(permit) => {
                    &&& permit@ == byte_size
                    &&& final(self)@ == old(self)@.admitted(byte_size as nat)
                    &&& final(self)@.holds(permit@)
                },
                Err(e) => {
                    &&& old(self)@.rejection(byte_size as nat) == Some(e)
                    &&& final(self)@ == old(self)@
                },
            },
    {
        if self.in_flight_requests >= self.request_limit {
            return Err(AdmissionRejected::TooManyRequests);
        }
        proof {
            lemma_total_bound(self.outstanding@, u64::MAX as nat);
            assert(total(self.outstanding@) + byte_size <= u128::MAX) by (nonlinear_arith)
                requires
                    total(self.outstanding@) <= self.outstanding@.len() * (u64::MAX as nat),
                    self.outstanding@.len() < usize::MAX,
                    usize::MAX <= u64::MAX,
                    byte_size <= u64::MAX,
                    u64::MAX == 0xffff_ffff_ffff_ffff,
                    u128::MAX == 0xffff_ffff_ffff_ffff_ffff_ffff_ffff_ffff,
            ;
            lemma_total_push(self.outstanding@, byte_size as nat);
        }
        let wanted: u128 = self.in_flight_bytes + byte_size as u128;
        match self.byte_limit {
            Some(limit) => {
                if wanted > limit as u128 {
                    return Err(AdmissionRejected::TooManyBytes);
                }
            },
            None => {},
        }
        self.in_flight_requests = self.in_flight_requests + 1;
        self.in_flight_bytes = wanted;
        self.outstanding = Ghost(self.outstanding@.push(byte_size as nat));
        assert(self.outstanding@[self.outstanding@.len() - 1] == byte_size as nat);
        Ok(Permit { bytes: byte_size })
    }

    /// Takes back a permit that this controller granted: one request and
    /// the permit's bytes leave the counters.
    pub fn release(&mut self, permit: Permit)
        requires
            old(self).wf(),
            old(self)@.holds(permit@),
        ensures
            final(self).wf(),
            final(self)@ == old(self)@.released(permit@),
            final(self)@.requests() == old(self)@.requests() - 1,
            final(self)@.bytes() == old(self)@.bytes() - permit@,
    {
        let ghost before = self.outstanding@;
        let ghost k = oldest(before, permit@);
        proof {
            lemma_released_counters(self@, permit@);
            lemma_oldest(before, permit@);
            lemma_total_remove(before, k);
        }
        self.in_flight_requests = self.in_flight_requests - 1;
        self.in_flight_bytes = self.in_flight_bytes - permit.bytes as u128;
        self.outstanding = Ghost(before.remove(k));
        proof {
            let after = before.remove(k);
            assert forall|i: int| 0 <= i < after.len() implies after[i] <= u64::MAX by {
                if i < k {
                    assert(after[i] == before[i]);
                } else {
                    assert(after[i] == before[i + 1]);
                }
            }
        }
    }

    /// The concurrent-request counter.
    pub fn in_flight_requests(&self) -> (n: usize)
        requires
            self.wf(),
        ensures
            n == self@.requests(),
    {
        self.in_flight_requests
    }

    /// The in-flight-byte counter.
    pub fn in_flight_bytes(&self) -> (n: u128)
        requires
            self.wf(),
        ensures
            n == self@.bytes(),
    {
        self.in_flight_bytes
    }

    /// The limit on concurrent requests.
    pub fn request_limit(&self) -> (n: usize)
        ensures
            n == self@.request_limit,
    {
        self.request_limit
    }

    /// The limit on bytes in flight, if there is one.
    pub fn byte_limit(&self) -> (limit: Option<u64>)
        ensures
            limit is Some == self@.byte_limit is Some,
            limit matches Some(l) ==> self@.byte_limit == Some(l as nat),
    {
        self.byte_limit
    }
}

} // verus!
