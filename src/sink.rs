//! The sink: it owns the transport service, the request builder, the
//! partitioner and the batching policy for the lifetime of one input stream.

use vstd::prelude::*;
use crate::driver::{Driver, RunLog};
use crate::record::BatcherSettings;

verus! {

/// The capabilities and the batching policy of one pipeline run.
pub struct S3Sink<Svc, RB, P> {
    service: Svc,
    request_builder: RB,
    partitioner: P,
    batcher_settings: BatcherSettings,
}

impl<Svc, RB, P> S3Sink<Svc, RB, P> {
    pub closed spec fn spec_service(&self) -> Svc {
        self.service
    }

    pub closed spec fn spec_request_builder(&self) -> RB {
        self.request_builder
    }

    pub closed spec fn spec_partitioner(&self) -> P {
        self.partitioner
    }

    pub closed spec fn spec_batcher_settings(&self) -> BatcherSettings {
        self.batcher_settings
    }

    pub fn new(service: Svc, request_builder: RB, partitioner: P, batcher_settings: BatcherSettings) -> (r: Self)
        ensures
            r.spec_service() == service,
            r.spec_request_builder() == request_builder,
            r.spec_partitioner() == partitioner,
            r.spec_batcher_settings() == batcher_settings,
    {
        Self { partitioner, service, request_builder, batcher_settings }
    }

    pub fn batcher_settings(&self) -> (r: BatcherSettings)
        ensures
            r == self.spec_batcher_settings(),
    {
        self.batcher_settings
    }

    /// Starts a run: a driver that holds batches to this sink's policy and
    /// keeps at most `concurrency` requests in flight.
    pub fn start(&self, concurrency: usize) -> (r: Driver)
        requires
            concurrency >= 1,
        ensures
            r.wf(),
            r.settings() == self.spec_batcher_settings(),
            r.limit() == concurrency,
            r.pending().len() == 0,
            r.next_id() == 0,
            !r.started(),
            !r.input_ended(),
            !r.failed(),
            r.log() == (RunLog {
                ingested: Seq::empty(),
                dropped: Seq::empty(),
                discarded: Seq::empty(),
                dispatched: Seq::empty(),
                finalized: Seq::empty(),
                unfinalized: Seq::empty(),
                reports: 0,
                submitted: 0,
                resolved: 0,
                fatal: false,
            }),
    {
        Driver::new(self.batcher_settings, concurrency)
    }

    /// Takes the sink apart, for the run that consumes it.
    pub fn into_parts(self) -> (r: (Svc, RB, P, BatcherSettings))
        ensures
            r == (self.spec_service(), self.spec_request_builder(), self.spec_partitioner(),
                self.spec_batcher_settings()),
    {
        (self.service, self.request_builder, self.partitioner, self.batcher_settings)
    }
}

} // verus!
