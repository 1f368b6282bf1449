//! The dispatch driver: takes in requests up to a concurrency limit, resolves
//! their outcomes, finalizes the records of delivered requests, and decides
//! when a run has completed or failed.
//!
//! The driver makes decisions only. Its owner pulls input, calls the request
//! builder and the transport, and reports back what happened; `next_action`
//! says what the driver waits for.

use vstd::prelude::*;
use vstd::seq_lib::{lemma_multiset_commutative, group_to_multiset_ensures};
use crate::batch::{Batch, BuildError, Request, build_request, build_result, filter_batch, parts, routed};
use crate::record::{BatcherSettings, Record, ids_of, record_ids};

verus! {

broadcast use {lemma_multiset_commutative, group_to_multiset_ensures};

/// The resolved outcome of one dispatched request.
#[derive(Clone, Copy, Debug, PartialEq, Eq, Structural)]
pub enum Outcome {
    /// The request was delivered: its records are finalized.
    Delivered,
    /// The request failed on its own: its records are not finalized, and
    /// the run goes on.
    Rejected,
    /// The transport failed in a way that ends the run.
    Fatal,
}

/// What the driver waits for next.
#[derive(Clone, Copy, Debug, PartialEq, Eq, Structural)]
pub enum Action {
    /// Pull the next batch from the input.
    Pull,
    /// Wait for the outcome of a request in flight.
    Await,
    /// The run is over: `true` for success, `false` for failure.
    Finish(bool),
}

/// The stage of a run.
#[derive(Clone, Copy, Debug, PartialEq, Eq, Structural)]
pub enum RunStatus {
    Idle,
    Running,
    Completed,
    Failed,
}

/// A request in flight, kept by its identity and its finalization handle.
pub struct InFlight {
    pub request_id: u64,
    pub records: Vec<u64>,
}

/// The history of a run, as record identities and counts.
pub struct RunLog {
    /// Every record taken into a request or discarded, in order.
    pub ingested: Seq<u64>,
    /// Records of batches whose key was absent.
    pub dropped: Seq<u64>,
    /// Records of batches whose request could not be built.
    pub discarded: Seq<u64>,
    /// Records of dispatched requests, in order of dispatch.
    pub dispatched: Seq<u64>,
    /// Records finalized, in order of finalization.
    pub finalized: Seq<u64>,
    /// Records of requests that resolved without delivery, or were abandoned.
    pub unfinalized: Seq<u64>,
    /// Build errors reported.
    pub reports: nat,
    /// Requests dispatched.
    pub submitted: nat,
    /// Requests whose outcome arrived.
    pub resolved: nat,
    /// Whether a fatal transport failure arrived.
    pub fatal: bool,
}

/// The state of one run: the requests in flight under the concurrency limit,
/// the next request identity, whether the input has ended or a fatal
/// failure arrived, and the run's history.
pub struct Driver {
    settings: BatcherSettings,
    limit: usize,
    in_flight: Vec<InFlight>,
    next_id: u64,
    started: bool,
    input_ended: bool,
    failed: bool,
    log: Ghost<RunLog>,
}

/// The records held by a sequence of requests in flight, in order.
pub open spec fn held(fs: Seq<InFlight>) -> Seq<u64>
    decreases fs.len(),
{
    if fs.len() == 0 {
        Seq::empty()
    } else {
        held(fs.drop_last()) + fs.last().records@
    }
}

/// The records held by requests in flight, given as identity and handle.
pub open spec fn held_by(p: Seq<(u64, Seq<u64>)>) -> Seq<u64>
    decreases p.len(),
{
    if p.len() == 0 {
        Seq::empty()
    } else {
        held_by(p.drop_last()) + p.last().1
    }
}

proof fn lemma_held_by_pending(fs: Seq<InFlight>)
    ensures
        held_by(fs.map_values(|f: InFlight| (f.request_id, f.records@))) == held(fs),
    decreases fs.len(),
{
    if fs.len() > 0 {
        lemma_held_by_pending(fs.drop_last());
        assert(fs.map_values(|f: InFlight| (f.request_id, f.records@)).drop_last()
            =~= fs.drop_last().map_values(|f: InFlight| (f.request_id, f.records@)));
    }
}

/// Taking a request out of a flight leaves the rest of its records.
proof fn lemma_held_remove(fs: Seq<InFlight>, i: int)
    requires
        0 <= i < fs.len(),
    ensures
        held(fs).to_multiset() =~= held(fs.remove(i)).to_multiset().add(fs[i].records@.to_multiset()),
    decreases fs.len(),
{
    if i == fs.len() - 1 {
        assert(fs.remove(i) =~= fs.drop_last());
    } else {
        lemma_held_remove(fs.drop_last(), i);
        assert(fs.remove(i).drop_last() =~= fs.drop_last().remove(i));
        assert(fs.remove(i).last() == fs.last());
    }
}

/// The action that a driver in the given state asks for.
pub open spec fn action_for(failed: bool, input_ended: bool, in_flight: nat, limit: nat) -> Action {
    if failed {
        Action::Finish(false)
    } else if input_ended && in_flight == 0 {
        Action::Finish(true)
    } else if !input_ended && in_flight < limit {
        Action::Pull
    } else {
        Action::Await
    }
}

impl Driver {
    pub closed spec fn settings(&self) -> BatcherSettings {
        self.settings
    }

    /// The largest number of requests in flight at once.
    pub closed spec fn limit(&self) -> nat {
        self.limit as nat
    }

    /// The requests in flight: identity and finalization handle.
    pub closed spec fn pending(&self) -> Seq<(u64, Seq<u64>)> {
        self.in_flight@.map_values(|f: InFlight| (f.request_id, f.records@))
    }

    /// The identity that the next request will carry.
    pub closed spec fn next_id(&self) -> u64 {
        self.next_id
    }

    pub closed spec fn started(&self) -> bool {
        self.started
    }

    pub closed spec fn input_ended(&self) -> bool {
        self.input_ended
    }

    pub closed spec fn failed(&self) -> bool {
        self.failed
    }

    pub closed spec fn log(&self) -> RunLog {
        self.log@
    }

    pub open spec fn spec_next_action(&self) -> Action {
        action_for(self.failed(), self.input_ended(), self.pending().len(), self.limit())
    }

    /// Whether the driver takes in a new batch now.
    pub open spec fn accepts_input(&self) -> bool {
        self.spec_next_action() == Action::Pull
    }

    pub open spec fn spec_status(&self) -> RunStatus {
        if self.failed() {
            RunStatus::Failed
        } else if self.input_ended() && self.pending().len() == 0 {
            RunStatus::Completed
        } else if self.started() {
            RunStatus::Running
        } else {
            RunStatus::Idle
        }
    }

    pub closed spec fn wf(&self) -> bool {
        let log = self.log@;
        &&& self.limit >= 1
        &&& self.in_flight@.len() <= self.limit
        &&& forall|i: int, j: int|
            0 <= i < j < self.in_flight@.len() ==> self.in_flight@[i].request_id
                != self.in_flight@[j].request_id
        &&& forall|i: int| 0 <= i < self.in_flight@.len() ==> self.in_flight@[i].request_id < self.next_id
        &&& log.ingested.to_multiset() =~= log.dropped.to_multiset().add(
            log.discarded.to_multiset(),
        ).add(log.dispatched.to_multiset())
        &&& forall|x: u64| log.finalized.contains(x) ==> log.dispatched.contains(x)
        &&& log.dispatched.to_multiset() =~= log.finalized.to_multiset().add(
            log.unfinalized.to_multiset(),
        ).add(held(self.in_flight@).to_multiset())
        &&& forall|i: int, x: u64|
            0 <= i < self.in_flight@.len() && #[trigger] self.in_flight@[i].records@.contains(x)
                ==> log.dispatched.contains(x)
        &&& log.fatal == self.failed
        &&& self.failed ==> self.in_flight@.len() == 0
        &&& !self.failed ==> log.submitted == log.resolved + self.in_flight@.len()
    }

    /// A driver for a run whose batches keep `settings` and with at most
    /// `limit` requests in flight at once.
    pub fn new(settings: BatcherSettings, limit: usize) -> (r: Driver)
        requires
            limit >= 1,
        ensures
            r.wf(),
            r.settings() == settings,
            r.limit() == limit,
            r.pending().len() == 0,
            r.next_id() == 0,
            !r.started(),
            !r.input_ended(),
            !r.failed(),
            r.spec_status() == RunStatus::Idle,
            r.log() == (RunLog {
                ingested: Seq::empty(),
                dropped: Seq::empty(),
                discarded: Seq::empty(),
                dispatched: Seq::empty(),
                finalized: Seq::empty(),
                unfinalized: Seq::empty(),
                reports: 0,
                submitted: 0,
                resolved: 0,
                fatal: false,
            }),
    {
        let r = Driver {
            settings,
            limit,
            in_flight: Vec::new(),
            next_id: 0,
            started: false,
            input_ended: false,
            failed: false,
            log: Ghost(
                RunLog {
                    ingested: Seq::empty(),
                    dropped: Seq::empty(),
                    discarded: Seq::empty(),
                    dispatched: Seq::empty(),
                    finalized: Seq::empty(),
                    unfinalized: Seq::empty(),
                    reports: 0,
                    submitted: 0,
                    resolved: 0,
                    fatal: false,
                },
            ),
        };
        assert(r.pending() =~= Seq::empty());
        r
    }

    /// What the driver waits for next.
    pub fn next_action(&self) -> (r: Action)
        ensures
            r == self.spec_next_action(),
    {
        if self.failed {
            Action::Finish(false)
        } else if self.input_ended && self.in_flight.len() == 0 {
            Action::Finish(true)
        } else if !self.input_ended && self.in_flight.len() < self.limit {
            Action::Pull
        } else {
            Action::Await
        }
    }

    /// Whether `submit` may be called now: the driver takes in input, and
    /// request identities are not used up.
    pub fn can_submit(&self) -> (r: bool)
        requires
            self.wf(),
        ensures
            r == (self.accepts_input() && self.next_id() < u64::MAX),
    {
        !self.failed && !self.input_ended && self.in_flight.len() < self.limit && self.next_id < u64::MAX
    }

    /// The stage the run is in.
    pub fn status(&self) -> (r: RunStatus)
        ensures
            r == self.spec_status(),
    {
        if self.failed {
            RunStatus::Failed
        } else if self.input_ended && self.in_flight.len() == 0 {
            RunStatus::Completed
        } else if self.started {
            RunStatus::Running
        } else {
            RunStatus::Idle
        }
    }

    /// Reports that the input is exhausted.
    pub fn end_input(&mut self)
        requires
            old(self).wf(),
        ensures
            final(self).wf(),
            final(self).input_ended(),
            final(self).started(),
            final(self).failed() == old(self).failed(),
            final(self).pending() == old(self).pending(),
            final(self).settings() == old(self).settings(),
            final(self).limit() == old(self).limit(),
            final(self).next_id() == old(self).next_id(),
            final(self).log() == old(self).log(),
    {
        self.input_ended = true;
        self.started = true;
    }

    /// The batch filter within a run: a batch whose key is present comes
    /// back for the request builder; one whose key is absent is dropped,
    /// with no report and without finalizing its records.
    pub fn route(&mut self, key: Option<u64>, records: Vec<Record>) -> (r: Option<Batch>)
        requires
            old(self).wf(),
        ensures
            final(self).wf(),
            r == routed(key, records),
            final(self).started(),
            final(self).input_ended() == old(self).input_ended(),
            final(self).failed() == old(self).failed(),
            final(self).pending() == old(self).pending(),
            final(self).settings() == old(self).settings(),
            final(self).limit() == old(self).limit(),
            final(self).next_id() == old(self).next_id(),
            key is Some ==> final(self).log() == old(self).log(),
            key is None ==> final(self).log() == (RunLog {
                ingested: old(self).log().ingested + ids_of(records@),
                dropped: old(self).log().dropped + ids_of(records@),
                ..old(self).log()
            }),
    {
        self.started = true;
        if key.is_none() {
            let ghost ids = ids_of(records@);
            proof {
                let log = self.log@;
                self.log@ = RunLog {
                    ingested: log.ingested + ids,
                    dropped: log.dropped + ids,
                    ..log
                };
            }
        }
        filter_batch(key, records)
    }

    /// The build-error filter within a run. `built` is the request builder's
    /// result on `batch`. Where the batch keeps its bounds and the builder
    /// succeeded, the request is put in flight and returned for dispatch;
    /// otherwise the error is returned for its one report and the batch is
    /// discarded, its records never finalized.
    pub fn submit(&mut self, batch: Batch, built: Result<Vec<u8>, String>) -> (r: Result<Request, BuildError>)
        requires
            old(self).wf(),
            old(self).accepts_input(),
            old(self).next_id() < u64::MAX,
        ensures
            final(self).wf(),
            match (r, build_result(old(self).next_id(), old(self).settings(), batch, built)) {
                (Ok(req), Ok(p)) => parts(req) == p,
                (Err(e), Err(f)) => e == f,
                _ => false,
            },
            final(self).started(),
            final(self).input_ended() == old(self).input_ended(),
            final(self).failed() == old(self).failed(),
            final(self).settings() == old(self).settings(),
            final(self).limit() == old(self).limit(),
            r is Ok ==> {
                &&& final(self).pending() == old(self).pending().push(
                    (old(self).next_id(), ids_of(batch.records@)),
                )
                &&& final(self).next_id() == old(self).next_id() + 1
                &&& final(self).log() == (RunLog {
                    ingested: old(self).log().ingested + ids_of(batch.records@),
                    dispatched: old(self).log().dispatched + ids_of(batch.records@),
                    submitted: old(self).log().submitted + 1,
                    ..old(self).log()
                })
            },
            r is Err ==> {
                &&& final(self).pending() == old(self).pending()
                &&& final(self).next_id() == old(self).next_id()
                &&& final(self).log() == (RunLog {
                    ingested: old(self).log().ingested + ids_of(batch.records@),
                    discarded: old(self).log().discarded + ids_of(batch.records@),
                    reports: old(self).log().reports + 1,
                    ..old(self).log()
                })
            },
    {
        self.started = true;
        let ghost ids = ids_of(batch.records@);
        let ghost log = self.log@;
        let r = build_request(self.next_id, &self.settings, &batch, built);
        match r {
            Ok(req) => {
                let handle = record_ids(&batch.records);
                let ghost pre = self.in_flight@;
                self.in_flight.push(InFlight { request_id: self.next_id, records: handle });
                self.next_id = self.next_id + 1;
                proof {
                    self.log@ = RunLog {
                        ingested: log.ingested + ids,
                        dispatched: log.dispatched + ids,
                        submitted: log.submitted + 1,
                        ..log
                    };
                    assert(self.pending() =~= old(self).pending().push((old(self).next_id(), ids)));
                    assert(self.in_flight@.drop_last() =~= pre);
                    assert(held(self.in_flight@) == held(pre) + ids);
                    assert forall|x: u64| self.log@.finalized.contains(x) implies self.log@.dispatched.contains(x) by {
                        assert(log.dispatched.contains(x));
                        let k = choose|k: int| 0 <= k < log.dispatched.len() && log.dispatched[k] == x;
                        assert(self.log@.dispatched[k] == x);
                    }
                    assert forall|i: int, x: u64|
                        0 <= i < self.in_flight@.len() && #[trigger] self.in_flight@[i].records@.contains(x)
                        implies self.log@.dispatched.contains(x) by {
                        if i < pre.len() {
                            assert(pre[i] == self.in_flight@[i]);
                            assert(log.dispatched.contains(x));
                            let k = choose|k: int| 0 <= k < log.dispatched.len() && log.dispatched[k] == x;
                            assert(self.log@.dispatched[k] == x);
                        } else {
                            let k = choose|k: int| 0 <= k < ids.len() && ids[k] == x;
                            assert(self.log@.dispatched[log.dispatched.len() + k] == x);
                        }
                    }
                }
                Ok(req)
            },
            Err(e) => {
                proof {
                    self.log@ = RunLog {
                        ingested: log.ingested + ids,
                        discarded: log.discarded + ids,
                        reports: log.reports + 1,
                        ..log
                    };
                }
                Err(e)
            },
        }
    }

    /// The position of the request in flight with identity `request_id`.
    fn position(&self, request_id: u64) -> (r: Option<usize>)
        ensures
            match r {
                Some(i) => i < self.in_flight@.len() && self.in_flight@[i as int].request_id == request_id,
                None => forall|i: int|
                    0 <= i < self.in_flight@.len() ==> self.in_flight@[i].request_id != request_id,
            },
    {
        let mut i: usize = 0;
        while i < self.in_flight.len()
            invariant
                i <= self.in_flight@.len(),
                forall|j: int| 0 <= j < i ==> self.in_flight@[j].request_id != request_id,
            decreases self.in_flight@.len() - i,
        {
            if self.in_flight[i].request_id == request_id {
                return Some(i);
            }
            i = i + 1;
        }
        None
    }

    /// Resolves the request in flight with identity `request_id` and returns
    /// the records to finalize. A delivered request's records are finalized
    /// and it leaves the flight; a rejected one leaves the flight with its
    /// records not finalized; a fatal outcome fails the run and abandons
    /// every request in flight. An identity not in flight changes nothing.
    pub fn on_outcome(&mut self, request_id: u64, outcome: Outcome) -> (r: Vec<u64>)
        requires
            old(self).wf(),
        ensures
            final(self).wf(),
            final(self).started() == old(self).started(),
            final(self).input_ended() == old(self).input_ended(),
            final(self).settings() == old(self).settings(),
            final(self).limit() == old(self).limit(),
            final(self).next_id() == old(self).next_id(),
            (forall|i: int| 0 <= i < old(self).pending().len() ==> old(self).pending()[i].0 != request_id)
                ==> {
                &&& r@ == Seq::<u64>::empty()
                &&& final(self).pending() == old(self).pending()
                &&& final(self).failed() == old(self).failed()
                &&& final(self).log() == old(self).log()
            },
            forall|i: int|
                0 <= i < old(self).pending().len() && (#[trigger] old(self).pending()[i]).0 == request_id
                ==> match outcome {
                Outcome::Delivered => {
                    &&& r@ == old(self).pending()[i].1
                    &&& final(self).pending() == old(self).pending().remove(i)
                    &&& final(self).failed() == old(self).failed()
                    &&& final(self).log() == (RunLog {
                        finalized: old(self).log().finalized + r@,
                        resolved: old(self).log().resolved + 1,
                        ..old(self).log()
                    })
                },
                Outcome::Rejected => {
                    &&& r@ == Seq::<u64>::empty()
                    &&& final(self).pending() == old(self).pending().remove(i)
                    &&& final(self).failed() == old(self).failed()
                    &&& final(self).log() == (RunLog {
                        unfinalized: old(self).log().unfinalized + old(self).pending()[i].1,
                        resolved: old(self).log().resolved + 1,
                        ..old(self).log()
                    })
                },
                Outcome::Fatal => {
                    &&& r@ == Seq::<u64>::empty()
                    &&& final(self).pending() == Seq::<(u64, Seq<u64>)>::empty()
                    &&& final(self).failed()
                    &&& final(self).log() == (RunLog {
                        unfinalized: old(self).log().unfinalized + held_by(old(self).pending()),
                        resolved: old(self).log().resolved + 1,
                        fatal: true,
                        ..old(self).log()
                    })
                },
            },
    {
        let pos = self.position(request_id);
        let i = match pos {
            Some(i) => i,
            None => {
                return Vec::new();
            },
        };
        let ghost log = self.log@;
        let ghost pre = self.in_flight@;
        assert(old(self).pending()[i as int].0 == request_id);
        assert(forall|j: int| 0 <= j < pre.len() && pre[j].request_id == request_id ==> j == i);
        match outcome {
            Outcome::Delivered => {
                let done = self.in_flight.remove(i);
                proof {
                    self.log@ = RunLog { finalized: log.finalized + done.records@, resolved: log.resolved + 1, ..log };
                    lemma_held_remove(pre, i as int);
                    assert(self.pending() =~= old(self).pending().remove(i as int));
                    assert forall|x: u64| self.log@.finalized.contains(x) implies log.dispatched.contains(x) by {
                        let k = choose|k: int| 0 <= k < self.log@.finalized.len() && self.log@.finalized[k] == x;
                        if k < log.finalized.len() {
                            assert(log.finalized[k] == x);
                        } else {
                            assert(done.records@[k - log.finalized.len()] == x);
                            assert(pre[i as int].records@.contains(x));
                        }
                    }
                    assert forall|j: int, x: u64|
                        0 <= j < self.in_flight@.len() && #[trigger] self.in_flight@[j].records@.contains(x)
                        implies log.dispatched.contains(x) by {
                        if j < i {
                            assert(pre[j] == self.in_flight@[j]);
                        } else {
                            assert(pre[j + 1] == self.in_flight@[j]);
                        }
                    }
                }
                done.records
            },
            Outcome::Rejected => {
                let done = self.in_flight.remove(i);
                proof {
                    self.log@ = RunLog { unfinalized: log.unfinalized + done.records@, resolved: log.resolved + 1, ..log };
                    lemma_held_remove(pre, i as int);
                    assert(self.pending() =~= old(self).pending().remove(i as int));
                    assert forall|j: int, x: u64|
                        0 <= j < self.in_flight@.len() && #[trigger] self.in_flight@[j].records@.contains(x)
                        implies log.dispatched.contains(x) by {
                        if j < i {
                            assert(pre[j] == self.in_flight@[j]);
                        } else {
                            assert(pre[j + 1] == self.in_flight@[j]);
                        }
                    }
                }
                Vec::new()
            },
            Outcome::Fatal => {
                self.in_flight = Vec::new();
                self.failed = true;
                proof {
                    self.log@ = RunLog { unfinalized: log.unfinalized + held(pre), resolved: log.resolved + 1, fatal: true, ..log };
                    lemma_held_by_pending(pre);
                    assert(self.pending() =~= Seq::<(u64, Seq<u64>)>::empty());
                }
                Vec::new()
            },
        }
    }
}

/// How often `x` occurs among the records that a run took in is the sum of
/// how often it occurs among the dropped, discarded and dispatched ones; where
/// no record was taken in twice, each of these holds it at most once.
proof fn lemma_one_place(d: &Driver, x: u64)
    requires
        d.wf(),
        d.log().ingested.no_duplicates(),
    ensures
        d.log().dropped.to_multiset().count(x) + d.log().discarded.to_multiset().count(x)
            + d.log().dispatched.to_multiset().count(x) <= 1,
{
    let log = d.log();
    log.ingested.lemma_multiset_has_no_duplicates();
    assert(log.ingested.to_multiset().count(x) == log.dropped.to_multiset().count(x)
        + log.discarded.to_multiset().count(x) + log.dispatched.to_multiset().count(x));
}

/// Where no record is taken in twice, a record that reached a dispatched
/// request reached exactly one, and was neither dropped nor discarded.
pub proof fn lemma_dispatched_once(d: &Driver, x: u64)
    requires
        d.wf(),
        d.log().ingested.no_duplicates(),
        d.log().dispatched.contains(x),
    ensures
        d.log().dispatched.to_multiset().count(x) == 1,
        !d.log().dropped.contains(x),
        !d.log().discarded.contains(x),
{
    lemma_one_place(d, x);
}

/// Where no record is taken in twice, no record is finalized twice.
pub proof fn lemma_finalized_at_most_once(d: &Driver)
    requires
        d.wf(),
        d.log().ingested.no_duplicates(),
    ensures
        d.log().finalized.no_duplicates(),
{
    let log = d.log();
    log.ingested.lemma_multiset_has_no_duplicates();
    assert forall|x: u64| log.finalized.to_multiset().contains(x) implies log.finalized.to_multiset().count(x)
        == 1 by {
        assert(log.dispatched.to_multiset().count(x) >= log.finalized.to_multiset().count(x));
        assert(log.ingested.to_multiset().count(x) >= log.dispatched.to_multiset().count(x));
    }
    log.finalized.lemma_multiset_has_no_duplicates_conv();
}

/// Where no record is taken in twice, a record of a batch whose key was
/// absent is in no request and is never finalized.
pub proof fn lemma_unrouted_never_finalized(d: &Driver, x: u64)
    requires
        d.wf(),
        d.log().ingested.no_duplicates(),
        d.log().dropped.contains(x),
    ensures
        !d.log().dispatched.contains(x),
        !d.log().finalized.contains(x),
        forall|i: int| 0 <= i < d.pending().len() ==> !(#[trigger] d.pending()[i].1.contains(x)),
{
    lemma_one_place(d, x);
    lemma_no_request_holds(d, x);
}

/// Where no record is taken in twice, a record of a batch whose request
/// could not be built is in no request and is never finalized.
pub proof fn lemma_discarded_never_finalized(d: &Driver, x: u64)
    requires
        d.wf(),
        d.log().ingested.no_duplicates(),
        d.log().discarded.contains(x),
    ensures
        !d.log().dispatched.contains(x),
        !d.log().finalized.contains(x),
        forall|i: int| 0 <= i < d.pending().len() ==> !(#[trigger] d.pending()[i].1.contains(x)),
{
    lemma_one_place(d, x);
    lemma_no_request_holds(d, x);
}

/// A record that no dispatched request holds is neither finalized nor held
/// by a request in flight.
proof fn lemma_no_request_holds(d: &Driver, x: u64)
    requires
        d.wf(),
        !d.log().dispatched.contains(x),
    ensures
        !d.log().finalized.contains(x),
        forall|i: int| 0 <= i < d.pending().len() ==> !(#[trigger] d.pending()[i].1.contains(x)),
{
    assert forall|i: int| 0 <= i < d.pending().len() implies !(#[trigger] d.pending()[i].1.contains(x)) by {
        assert(d.pending()[i].1 == d.in_flight@[i].records@);
    }
}

/// Never are more requests in flight than the concurrency limit.
pub proof fn lemma_concurrency_bounded(d: &Driver)
    requires
        d.wf(),
    ensures
        d.pending().len() <= d.limit(),
{
}

/// Where no fatal failure arrived, a run ends in success exactly when its
/// input is exhausted and every dispatched request has resolved.
pub proof fn lemma_success_iff_drained(d: &Driver)
    requires
        d.wf(),
        !d.log().fatal,
    ensures
        d.spec_next_action() == Action::Finish(true) <==> (d.input_ended() && d.log().resolved
            == d.log().submitted),
{
}

/// A run that received a fatal failure ends in failure.
pub proof fn lemma_fatal_fails(d: &Driver)
    requires
        d.wf(),
        d.log().fatal,
    ensures
        d.spec_next_action() == Action::Finish(false),
{
}

} // verus!
