//! The two filter stages: routing of keyed batches, and the conversion of a
//! routed batch into a request, where a failed conversion is reported and
//! the batch discarded.

use vstd::prelude::*;
use crate::record::{BatcherSettings, Record, check_bounds, ids_of, record_ids, within_bounds};

verus! {

/// A batch whose routing key is present: every record in it shares `key`.
#[derive(Debug)]
pub struct Batch {
    pub key: u64,
    pub records: Vec<Record>,
}

/// The transfer unit built from exactly one batch.
#[derive(Debug)]
pub struct Request {
    /// Identifies the request while it is in flight.
    pub id: u64,
    /// The routing key of the batch it was built from.
    pub key: u64,
    /// The finalization handle: the identities of the batch's records.
    pub records: Vec<u64>,
    /// What the request builder produced from the batch.
    pub payload: Vec<u8>,
}

/// Why a routed batch did not become a request.
#[derive(Debug)]
pub enum BuildError {
    /// The batch handed over by the batcher is empty or exceeds its bounds.
    OutOfBounds,
    /// The request builder failed, with its message.
    Builder(String),
}

/// What the batch filter makes of a batch with an optional key.
pub open spec fn routed(key: Option<u64>, records: Vec<Record>) -> Option<Batch> {
    match key {
        Some(k) => Some(Batch { key: k, records }),
        None => None,
    }
}

/// The batch filter: a batch whose key is present is passed on under that
/// key; one whose key is absent is dropped.
pub fn filter_batch(key: Option<u64>, records: Vec<Record>) -> (r: Option<Batch>)
    ensures
        r == routed(key, records),
{
    match key {
        Some(k) => Some(Batch { key: k, records }),
        None => None,
    }
}

/// What becomes of a routed batch, given the request builder's result on it
/// and the identity that the request is to carry.
pub open spec fn build_result(
    id: u64,
    settings: BatcherSettings,
    batch: Batch,
    built: Result<Vec<u8>, String>,
) -> Result<(u64, u64, Seq<u64>, Vec<u8>), BuildError> {
    if !within_bounds(settings, batch.records@) {
        Err(BuildError::OutOfBounds)
    } else {
        match built {
            Ok(payload) => Ok((id, batch.key, ids_of(batch.records@), payload)),
            Err(message) => Err(BuildError::Builder(message)),
        }
    }
}

/// The parts of a request, as `build_result` gives them.
pub open spec fn parts(r: Request) -> (u64, u64, Seq<u64>, Vec<u8>) {
    (r.id, r.key, r.records@, r.payload)
}

/// Turns a routed batch into a request. The batch must keep the bounds of
/// `settings` and the builder must have succeeded; the request's handle then
/// names exactly the batch's records, in order.
pub fn build_request(
    id: u64,
    settings: &BatcherSettings,
    batch: &Batch,
    built: Result<Vec<u8>, String>,
) -> (r: Result<Request, BuildError>)
    ensures
        match (r, build_result(id, *settings, *batch, built)) {
            (Ok(req), Ok(p)) => parts(req) == p,
            (Err(e), Err(f)) => e == f,
            _ => false,
        },
{
    if !check_bounds(settings, &batch.records) {
        return Err(BuildError::OutOfBounds);
    }
    match built {
        Ok(payload) => Ok(Request { id, key: batch.key, records: record_ids(&batch.records), payload }),
        Err(message) => Err(BuildError::Builder(message)),
    }
}

} // verus!
