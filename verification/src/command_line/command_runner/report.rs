//! The report of the commands: what each of them put out, by the key of its
//! group.
use crate::grouped_collections::hashed_map::HashedMap;
use crate::grouped_collections::key::GroupKey;
use crate::grouped_collections::sorted_map::SortedMap;
use vstd::prelude::*;
use vstd::rwlock::RwLock;

verus! {

/// A collection that records one output for each key.
pub trait Report<K: GroupKey, V> {
    /// The outputs recorded, by key.
    spec fn reports(&self) -> Map<K::Model, V>;

    /// Records `output` as the report for `key`, in place of an earlier one.
    fn report(&mut self, key: K, output: V)
        ensures
            final(self).reports() == old(self).reports().insert(key.model(), output),
    ;

    /// Returns the report for `key`, if there is one.
    fn get(&self, key: &K) -> (output: Option<&V>)
        ensures
            match output {
                Some(v) => self.reports().contains_key(key.model()) && *v
                    == self.reports()[key.model()],
                None => !self.reports().contains_key(key.model()),
            },
    ;
}

impl<K: GroupKey, V> Report<K, V> for SortedMap<K, V> {
    open spec fn reports(&self) -> Map<K::Model, V> {
        self.entries()
    }

    fn report(&mut self, key: K, output: V) {
        self.insert(key, output);
    }

    fn get(&self, key: &K) -> (output: Option<&V>) {
        SortedMap::get(self, key)
    }
}

impl<K: GroupKey, V> Report<K, V> for HashedMap<K, V> {
    open spec fn reports(&self) -> Map<K::Model, V> {
        self.entries()
    }

    fn report(&mut self, key: K, output: V) {
        self.insert(key, output);
    }

    fn get(&self, key: &K) -> (output: Option<&V>) {
        HashedMap::get(self, key)
    }
}

/// A collection that records one output for each key, and that several
/// threads can report to at a time.
pub trait ReportInteriorMutable<K: GroupKey, V> {
    /// Whether the collection takes `output` as the report for `key`.
    spec fn accepts(&self, key: K::Model, output: V) -> bool;

    /// Records `output` as the report for `key`, in place of an earlier one.
    fn report(&self, key: K, output: V)
        requires
            self.accepts(key.model(), output),
    ;
}

/// Whether every report of `report` is one that `allowed` allows.
pub open spec fn holds_only<K: GroupKey, V, R: Report<K, V>>(
    allowed: spec_fn(K::Model, V) -> bool,
) -> spec_fn(R) -> bool {
    |report: R|
        forall|k: K::Model| #[trigger]
            report.reports().contains_key(k) ==> allowed(k, report.reports()[k])
}

/// A report behind a lock: whoever reports holds the report alone for the
/// time of the call.
///
/// A shared report says which reports it takes, and it never holds another.
#[verifier::reject_recursive_types(K)]
#[verifier::reject_recursive_types(V)]
#[verifier::reject_recursive_types(R)]
pub struct SharedReport<K: GroupKey, V, R: Report<K, V>> {
    lock: RwLock<R, spec_fn(R) -> bool>,
    allowed: Ghost<spec_fn(K::Model, V) -> bool>,
}

impl<K: GroupKey, V, R: Report<K, V>> SharedReport<K, V, R> {
    #[verifier::type_invariant]
    spec fn wf(&self) -> bool {
        self.lock.pred() == holds_only::<K, V, R>(self.allowed@)
    }

    /// Whether the report takes `output` as the report for `key`.
    pub closed spec fn allows(&self, key: K::Model, output: V) -> bool {
        (self.allowed@)(key, output)
    }

    /// Puts `report` behind a lock. The shared report takes every report.
    pub fn new(report: R) -> (shared: Self)
        ensures
            forall|k: K::Model, v: V| shared.allows(k, v),
    {
        let ghost allowed = |k: K::Model, v: V| true;
        Self::restricted(report, Ghost(allowed))
    }

    /// Puts `report` behind a lock. The shared report takes the reports that
    /// `allowed` allows, which must hold of the reports that `report` has.
    pub fn restricted(report: R, Ghost(allowed): Ghost<spec_fn(K::Model, V) -> bool>) -> (shared:
        Self)
        requires
            forall|k: K::Model| #[trigger]
                report.reports().contains_key(k) ==> allowed(k, report.reports()[k]),
        ensures
            forall|k: K::Model, v: V| shared.allows(k, v) == allowed(k, v),
    {
        let ghost pred = holds_only::<K, V, R>(allowed);
        assert(pred(report));
        SharedReport { lock: RwLock::new(report, Ghost(pred)), allowed: Ghost(allowed) }
    }

    /// Gives up the lock for the report. Every report that it holds is one
    /// that the shared report took.
    pub fn into_inner(self) -> (report: R)
        ensures
            forall|k: K::Model| #[trigger]
                report.reports().contains_key(k) ==> self.allows(k, report.reports()[k]),
    {
        proof {
            use_type_invariant(&self);
        }
        let report = self.lock.into_inner();
        assert(holds_only::<K, V, R>(self.allowed@)(report));
        report
    }
}

impl<K: GroupKey, V, R: Report<K, V>> ReportInteriorMutable<K, V> for SharedReport<K, V, R> {
    open spec fn accepts(&self, key: K::Model, output: V) -> bool {
        self.allows(key, output)
    }

    fn report(&self, key: K, output: V) {
        proof {
            use_type_invariant(self);
        }
        let (mut report, handle) = self.lock.acquire_write();
        assert(holds_only::<K, V, R>(self.allowed@)(report));
        report.report(key, output);
        assert(holds_only::<K, V, R>(self.allowed@)(report));
        handle.release_write(report);
    }
}

/// The reports after each pair of `pairs` has been reported, in turn.
pub open spec fn report_all<M, V>(reports: Map<M, V>, pairs: Seq<(M, V)>) -> Map<M, V>
    decreases pairs.len(),
{
    if pairs.len() == 0 {
        reports
    } else {
        report_all(reports, pairs.drop_last()).insert(pairs.last().0, pairs.last().1)
    }
}

/// Whether no key occurs twice in `pairs`.
pub open spec fn reported_once<M, V>(pairs: Seq<(M, V)>) -> bool {
    forall|i: int, j: int|
        0 <= i < j < pairs.len() ==> (#[trigger] pairs[i]).0 != (#[trigger] pairs[j]).0
}

/// After pairs with different keys have been reported, the report holds the
/// output of each pair under its key, and under every other key what it held
/// before.
pub proof fn lemma_report_all<M, V>(reports: Map<M, V>, pairs: Seq<(M, V)>)
    requires
        reported_once(pairs),
    ensures
        forall|i: int|
            0 <= i < pairs.len() ==> report_all(reports, pairs).contains_key(
                (#[trigger] pairs[i]).0,
            ) && report_all(reports, pairs)[pairs[i].0] == pairs[i].1,
        forall|k: M|
            (forall|i: int| 0 <= i < pairs.len() ==> (#[trigger] pairs[i]).0 != k) ==> (
            #[trigger] report_all(reports, pairs).contains_key(k) <==> reports.contains_key(k))
                && report_all(reports, pairs)[k] == reports[k],
    decreases pairs.len(),
{
    if pairs.len() > 0 {
        let front = pairs.drop_last();
        assert forall|i: int, j: int| 0 <= i < j < front.len() implies (#[trigger] front[i]).0 != (
        #[trigger] front[j]).0 by {
            assert(front[i] == pairs[i] && front[j] == pairs[j]);
        }
        lemma_report_all(reports, front);
        let before = report_all(reports, front);
        assert forall|i: int| 0 <= i < pairs.len() implies report_all(reports, pairs).contains_key(
            (#[trigger] pairs[i]).0,
        ) && report_all(reports, pairs)[pairs[i].0] == pairs[i].1 by {
            if i < front.len() {
                assert(front[i] == pairs[i]);
                assert(pairs[i].0 != pairs[pairs.len() - 1].0);
            }
        }
        assert forall|k: M|
            (forall|i: int| 0 <= i < pairs.len() ==> (#[trigger] pairs[i]).0 != k) implies (
        #[trigger] report_all(reports, pairs).contains_key(k) <==> reports.contains_key(k))
            && report_all(reports, pairs)[k] == reports[k] by {
            assert forall|i: int| 0 <= i < front.len() implies (#[trigger] front[i]).0 != k by {
                assert(front[i] == pairs[i]);
            }
            assert(pairs[pairs.len() - 1].0 != k);
        }
    }
}

/// The order of the reports does not matter: two runs that report the same
/// pairs, each key once, leave the same report, in whatever order each of
/// them reports.
pub proof fn lemma_report_order<M, V>(reports: Map<M, V>, one: Seq<(M, V)>, other: Seq<(M, V)>)
    requires
        reported_once(one),
        reported_once(other),
        forall|p: (M, V)| one.contains(p) <==> other.contains(p),
    ensures
        report_all(reports, one) == report_all(reports, other),
{
    lemma_report_all(reports, one);
    lemma_report_all(reports, other);
    let a = report_all(reports, one);
    let b = report_all(reports, other);
    assert forall|k: M| a.contains_key(k) == b.contains_key(k) && (a.contains_key(k) ==> a[k]
        == b[k]) by {
        if exists|i: int| 0 <= i < one.len() && (#[trigger] one[i]).0 == k {
            let i = choose|i: int| 0 <= i < one.len() && (#[trigger] one[i]).0 == k;
            assert(one.contains(one[i]));
            assert(other.contains(one[i]));
            let j = choose|j: int| 0 <= j < other.len() && other[j] == one[i];
            assert(other[j].0 == k);
        } else {
            assert forall|j: int| 0 <= j < other.len() implies (#[trigger] other[j]).0 != k by {
                assert(other.contains(other[j]));
                assert(one.contains(other[j]));
                let i = choose|i: int| 0 <= i < one.len() && one[i] == other[j];
                assert(one[i].0 == other[j].0);
            }
        }
    }
    assert(a =~= b);
}

} // verus!
