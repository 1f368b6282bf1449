use partition_dispatch::{
    check_bounds, filter_batch, record_ids, Action, BatcherSettings, BuildError, Driver, Outcome,
    Record, RunStatus, S3Sink,
};

fn settings(size_limit: usize, item_limit: usize) -> BatcherSettings {
    BatcherSettings { size_limit, item_limit, timeout_ms: 1000 }
}

/// Groups keyed records in arrival order, flushing a key's group once it
/// holds `per_flush` records and every group at the end of the input.
fn group(input: &[(Option<u64>, Record)], per_flush: usize) -> Vec<(Option<u64>, Vec<Record>)> {
    let mut open: Vec<(Option<u64>, Vec<Record>)> = Vec::new();
    let mut out = Vec::new();
    for (key, rec) in input {
        match open.iter().position(|(k, _)| k == key) {
            Some(i) => open[i].1.push(*rec),
            None => open.push((*key, vec![*rec])),
        }
        let i = open.iter().position(|(k, _)| k == key).unwrap();
        if open[i].1.len() == per_flush {
            out.push(open.remove(i));
        }
    }
    out.extend(open);
    out
}

struct RunReport {
    success: bool,
    finalized: Vec<u64>,
    reports: usize,
    dispatched: Vec<u64>,
    consumed: usize,
}

/// Drives a run to its end. `build` gives the builder's result for the n-th
/// routed batch; `outcome` the transport's outcome for the n-th request.
fn run(
    batches: Vec<(Option<u64>, Vec<Record>)>,
    limit: usize,
    build: &dyn Fn(usize) -> Result<Vec<u8>, String>,
    outcome: &dyn Fn(u64) -> Outcome,
) -> RunReport {
    let mut driver = Driver::new(settings(1000, 100), limit);
    let mut input = batches.into_iter();
    let mut in_flight: Vec<u64> = Vec::new();
    let mut report = RunReport {
        success: false,
        finalized: Vec::new(),
        reports: 0,
        dispatched: Vec::new(),
        consumed: 0,
    };
    let mut built_count = 0;
    loop {
        match driver.next_action() {
            Action::Pull => match input.next() {
                Some((key, records)) => {
                    report.consumed += 1;
                    if let Some(batch) = driver.route(key, records) {
                        let built = build(built_count);
                        built_count += 1;
                        match driver.submit(batch, built) {
                            Ok(req) => {
                                report.dispatched.push(req.id);
                                in_flight.push(req.id);
                                assert!(in_flight.len() <= limit);
                            }
                            Err(_) => report.reports += 1,
                        }
                    }
                }
                None => driver.end_input(),
            },
            Action::Await => {
                let id = in_flight.remove(0);
                report.finalized.extend(driver.on_outcome(id, outcome(id)));
            }
            Action::Finish(ok) => {
                report.success = ok;
                return report;
            }
        }
    }
}

fn rec(id: u64, byte_size: usize) -> Record {
    Record { id, byte_size }
}

#[test]
fn three_same_key_records_make_one_request() {
    let input = vec![(Some(1), rec(1, 10)), (Some(1), rec(2, 10)), (Some(1), rec(3, 10))];
    let batches = group(&input, 10);
    assert_eq!(batches.len(), 1);
    let r = run(batches, 4, &|_| Ok(vec![1]), &|_| Outcome::Delivered);
    assert_eq!(r.dispatched.len(), 1);
    assert_eq!(r.finalized, vec![1, 2, 3]);
    assert_eq!(r.reports, 0);
    assert!(r.success);
}

#[test]
fn alternating_keys_one_per_flush_make_four_requests() {
    let input = vec![
        (Some(1), rec(1, 5)),
        (Some(2), rec(2, 5)),
        (Some(1), rec(3, 5)),
        (Some(2), rec(4, 5)),
    ];
    let batches = group(&input, 1);
    assert_eq!(batches.len(), 4);
    let r = run(batches, 2, &|_| Ok(Vec::new()), &|_| Outcome::Delivered);
    assert_eq!(r.dispatched, vec![0, 1, 2, 3]);
    let mut fin = r.finalized.clone();
    fin.sort();
    assert_eq!(fin, vec![1, 2, 3, 4]);
    assert!(r.success);
}

#[test]
fn absent_key_record_is_never_finalized() {
    let input = vec![(None, rec(9, 5))];
    let r = run(group(&input, 10), 1, &|_| Ok(Vec::new()), &|_| Outcome::Delivered);
    assert!(r.dispatched.is_empty());
    assert!(r.finalized.is_empty());
    assert_eq!(r.reports, 0);
    assert!(r.success);
}

#[test]
fn one_build_failure_among_three_is_reported_once() {
    let input = vec![(Some(1), rec(1, 5)), (Some(2), rec(2, 5)), (Some(3), rec(3, 5))];
    let build = |n: usize| if n == 1 { Err("encoding failed".to_string()) } else { Ok(vec![0]) };
    let r = run(group(&input, 1), 1, &build, &|_| Outcome::Delivered);
    assert_eq!(r.reports, 1);
    assert_eq!(r.dispatched.len(), 2);
    assert_eq!(r.finalized, vec![1, 3]);
    assert!(r.success);
}

#[test]
fn fatal_transport_failure_ends_the_run() {
    let batches: Vec<(Option<u64>, Vec<Record>)> =
        (0..5u64).map(|i| (Some(i), vec![rec(i + 10, 5)])).collect();
    let outcome = |id: u64| if id == 1 { Outcome::Fatal } else { Outcome::Delivered };
    let r = run(batches, 1, &|_| Ok(Vec::new()), &outcome);
    assert!(!r.success);
    assert_eq!(r.finalized, vec![10]);
    assert_eq!(r.consumed, 2);
}

#[test]
fn rejected_request_is_not_finalized_and_run_succeeds() {
    let batches = vec![(Some(1), vec![rec(1, 5)]), (Some(1), vec![rec(2, 5)])];
    let outcome = |id: u64| if id == 0 { Outcome::Rejected } else { Outcome::Delivered };
    let r = run(batches, 2, &|_| Ok(Vec::new()), &outcome);
    assert_eq!(r.finalized, vec![2]);
    assert!(r.success);
}

#[test]
fn concurrency_limit_holds_back_input() {
    let mut d = Driver::new(settings(100, 10), 2);
    for i in 0..2u64 {
        assert_eq!(d.next_action(), Action::Pull);
        let b = d.route(Some(i), vec![rec(i, 1)]).unwrap();
        assert!(d.submit(b, Ok(Vec::new())).is_ok());
    }
    assert_eq!(d.next_action(), Action::Await);
    assert!(!d.can_submit());
    assert_eq!(d.on_outcome(0, Outcome::Delivered), vec![0]);
    assert!(d.can_submit());
    assert_eq!(d.next_action(), Action::Pull);
}

#[test]
fn status_moves_from_idle_to_completed() {
    let mut d = Driver::new(settings(100, 10), 1);
    assert_eq!(d.status(), RunStatus::Idle);
    let b = d.route(Some(4), vec![rec(1, 1)]).unwrap();
    assert_eq!(d.status(), RunStatus::Running);
    let req = d.submit(b, Ok(vec![7])).unwrap();
    d.end_input();
    assert_eq!(d.status(), RunStatus::Running);
    assert_eq!(d.next_action(), Action::Await);
    assert_eq!(d.on_outcome(req.id, Outcome::Delivered), vec![1]);
    assert_eq!(d.status(), RunStatus::Completed);
    assert_eq!(d.next_action(), Action::Finish(true));
}

#[test]
fn fatal_outcome_fails_the_run() {
    let mut d = Driver::new(settings(100, 10), 3);
    let b = d.route(Some(4), vec![rec(1, 1)]).unwrap();
    let req = d.submit(b, Ok(Vec::new())).unwrap();
    assert!(d.on_outcome(req.id, Outcome::Fatal).is_empty());
    assert_eq!(d.status(), RunStatus::Failed);
    assert_eq!(d.next_action(), Action::Finish(false));
}

#[test]
fn unknown_request_outcome_changes_nothing() {
    let mut d = Driver::new(settings(100, 10), 1);
    let b = d.route(Some(4), vec![rec(1, 1)]).unwrap();
    d.submit(b, Ok(Vec::new())).unwrap();
    assert!(d.on_outcome(5, Outcome::Delivered).is_empty());
    assert_eq!(d.next_action(), Action::Await);
}

#[test]
fn request_carries_batch_key_records_and_payload() {
    let mut d = Driver::new(settings(100, 10), 2);
    let b = d.route(Some(42), vec![rec(5, 10), rec(6, 20)]).unwrap();
    let req = d.submit(b, Ok(vec![1, 2, 3])).unwrap();
    assert_eq!(req.id, 0);
    assert_eq!(req.key, 42);
    assert_eq!(req.records, vec![5, 6]);
    assert_eq!(req.payload, vec![1, 2, 3]);
    let b = d.route(Some(43), vec![rec(7, 10)]).unwrap();
    assert_eq!(d.submit(b, Ok(Vec::new())).unwrap().id, 1);
}

#[test]
fn builder_error_is_returned_with_its_message() {
    let mut d = Driver::new(settings(100, 10), 1);
    let b = d.route(Some(1), vec![rec(1, 1)]).unwrap();
    match d.submit(b, Err("bad".to_string())) {
        Err(BuildError::Builder(m)) => assert_eq!(m, "bad"),
        other => panic!("unexpected {:?}", other),
    }
    assert_eq!(d.next_action(), Action::Pull);
}

#[test]
fn oversize_batch_is_out_of_bounds() {
    let mut d = Driver::new(settings(25, 10), 1);
    let b = d.route(Some(1), vec![rec(1, 10), rec(2, 16)]).unwrap();
    assert!(matches!(d.submit(b, Ok(Vec::new())), Err(BuildError::OutOfBounds)));
    let b = d.route(Some(1), vec![rec(3, 10), rec(4, 15)]).unwrap();
    assert!(d.submit(b, Ok(Vec::new())).is_ok());
}

#[test]
fn empty_or_too_long_batch_is_out_of_bounds() {
    let mut d = Driver::new(settings(100, 2), 1);
    let b = d.route(Some(1), Vec::new()).unwrap();
    assert!(matches!(d.submit(b, Ok(Vec::new())), Err(BuildError::OutOfBounds)));
    let b = d.route(Some(1), vec![rec(1, 1), rec(2, 1), rec(3, 1)]).unwrap();
    assert!(matches!(d.submit(b, Ok(Vec::new())), Err(BuildError::OutOfBounds)));
}

#[test]
fn check_bounds_exact_values() {
    let s = settings(30, 3);
    assert!(check_bounds(&s, &vec![rec(1, 10), rec(2, 20)]));
    assert!(!check_bounds(&s, &vec![rec(1, 10), rec(2, 21)]));
    assert!(!check_bounds(&s, &Vec::new()));
    assert!(!check_bounds(&s, &vec![rec(1, 1), rec(2, 1), rec(3, 1), rec(4, 1)]));
    assert!(check_bounds(&s, &vec![rec(1, 30)]));
    assert!(!check_bounds(&settings(usize::MAX, 3), &vec![rec(1, usize::MAX), rec(2, 1)]));
}

#[test]
fn filter_batch_keeps_present_keys_only() {
    let kept = filter_batch(Some(8), vec![rec(1, 2)]).unwrap();
    assert_eq!(kept.key, 8);
    assert_eq!(kept.records, vec![rec(1, 2)]);
    assert!(filter_batch(None, vec![rec(1, 2)]).is_none());
}

#[test]
fn record_ids_in_order() {
    assert_eq!(record_ids(&vec![rec(3, 1), rec(1, 1), rec(2, 1)]), vec![3, 1, 2]);
    assert!(record_ids(&Vec::new()).is_empty());
}

#[test]
fn sink_holds_its_parts() {
    let s = settings(10, 2);
    let sink = S3Sink::new("svc", 7u8, 'p', s);
    assert_eq!(sink.batcher_settings(), s);
    let d = sink.start(3);
    assert_eq!(d.next_action(), Action::Pull);
    assert_eq!(sink.into_parts(), ("svc", 7u8, 'p', s));
}

#[test]
fn second_outcome_for_a_request_finalizes_nothing() {
    let mut d = Driver::new(settings(100, 10), 1);
    let b = d.route(Some(2), vec![rec(1, 1), rec(2, 1)]).unwrap();
    let req = d.submit(b, Ok(Vec::new())).unwrap();
    assert_eq!(d.on_outcome(req.id, Outcome::Delivered), vec![1, 2]);
    assert!(d.on_outcome(req.id, Outcome::Delivered).is_empty());
}
