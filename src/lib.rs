//! A partitioned batching dispatch pipeline: keyed batches of records are
//! filtered, turned into requests and dispatched under a concurrency limit,
//! and the records of delivered requests are finalized.

pub mod batch;
pub mod driver;
pub mod record;
pub mod sink;

pub use batch::{Batch, BuildError, Request, filter_batch};
pub use driver::{Action, Driver, Outcome, RunStatus};
pub use record::{BatcherSettings, Record, check_bounds, record_ids};
pub use sink::S3Sink;
