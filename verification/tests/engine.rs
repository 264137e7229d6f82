use sidekiq::codec::{Arg, ArgVal};
use sidekiq::middleware::{MiddlewareVerdict, ServerMiddleware};
use sidekiq::processor::{Processor, WorkFetcher};
use sidekiq::store::{RedisState, ZSetKey};
use sidekiq::worker::{JidSource, Worker, WorkerOpts};
use std::sync::{Arc, Mutex};

#[derive(Clone)]
struct TestWorker {
    did_process: Arc<Mutex<bool>>,
    calls: Arc<Mutex<u32>>,
}

impl TestWorker {
    fn new() -> TestWorker {
        TestWorker {
            did_process: Arc::new(Mutex::new(false)),
            calls: Arc::new(Mutex::new(0)),
        }
    }
}

impl Worker for TestWorker {
    fn perform(&self, _args: &Vec<Arg>) -> Result<(), String> {
        *self.did_process.lock().unwrap() = true;
        *self.calls.lock().unwrap() += 1;
        Ok(())
    }
}

struct NoopMiddleware;

impl ServerMiddleware for NoopMiddleware {
    fn call(&self, _job: &sidekiq::job::Job) -> MiddlewareVerdict {
        MiddlewareVerdict::Continue
    }
}

/// Middleware that halts any job whose first argument is the string
/// "USR-123-EXPIRED".
struct FilterExpiredUsersMiddleware;

impl ServerMiddleware for FilterExpiredUsersMiddleware {
    fn call(&self, job: &sidekiq::job::Job) -> MiddlewareVerdict {
        if let Some(Arg::Obj(fields)) = job.args.first() {
            for (k, v) in fields {
                if k == "user_guid" {
                    if let ArgVal::Str(s) = v {
                        if s == "USR-123-EXPIRED" {
                            return MiddlewareVerdict::Halt;
                        }
                    }
                }
            }
        }
        MiddlewareVerdict::Continue
    }
}

fn user_args(guid: &str) -> Vec<Arg> {
    vec![Arg::Obj(vec![(
        "user_guid".to_string(),
        ArgVal::Str(guid.to_string()),
    )])]
}

#[test]
fn can_create_and_process_an_unique_job_only_once_within_the_ttl() {
    let worker = TestWorker::new();
    let queue = "random123".to_string();
    let mut redis = RedisState::new();
    let mut jids = JidSource::new("client".to_string());
    let mut p: Processor<TestWorker, NoopMiddleware> = Processor::new(vec![queue.clone()]);
    p.register("TestWorker".to_string(), worker.clone());

    let opts = WorkerOpts::new().queue(queue.clone()).unique_for(5);
    opts.perform_async(&mut redis, &mut jids, "TestWorker".to_string(), vec![], 1000);

    assert_eq!(p.process_one_tick_once(&mut redis, 1000), WorkFetcher::Done);
    assert!(*worker.did_process.lock().unwrap());

    let opts2 = WorkerOpts::new().queue(queue).unique_for(5);
    opts2.perform_async(&mut redis, &mut jids, "TestWorker".to_string(), vec![], 1002);

    assert_eq!(
        p.process_one_tick_once(&mut redis, 1002),
        WorkFetcher::NoWorkFound
    );
}

#[test]
fn unique_job_runs_again_after_the_lock_expired() {
    let worker = TestWorker::new();
    let mut redis = RedisState::new();
    let mut jids = JidSource::new("client".to_string());
    let mut p: Processor<TestWorker, NoopMiddleware> =
        Processor::new(vec!["q".to_string()]);
    p.register("W".to_string(), worker.clone());

    let opts = WorkerOpts::new().queue("q".to_string()).unique_for(5);
    opts.perform_async(&mut redis, &mut jids, "W".to_string(), vec![], 1000);
    assert_eq!(p.process_one_tick_once(&mut redis, 1000), WorkFetcher::Done);

    // Lock expires at 1005; a duplicate enqueued after that is fresh work.
    opts.perform_async(&mut redis, &mut jids, "W".to_string(), vec![], 1006);
    assert_eq!(p.process_one_tick_once(&mut redis, 1006), WorkFetcher::Done);
    assert_eq!(*worker.calls.lock().unwrap(), 2);
}

#[test]
fn payment_report_worker_performs_exactly_once_and_empties_the_queue() {
    let worker = TestWorker::new();
    let mut redis = RedisState::new();
    let mut jids = JidSource::new("client".to_string());
    let mut p: Processor<TestWorker, NoopMiddleware> =
        Processor::new(vec!["yolo".to_string()]);
    p.register("PaymentReportWorker".to_string(), worker.clone());

    let opts = WorkerOpts::new().queue("yolo".to_string());
    opts.perform_async(
        &mut redis,
        &mut jids,
        "PaymentReportWorker".to_string(),
        user_args("USR-123"),
        2000,
    );

    assert_eq!(p.process_one_tick_once(&mut redis, 2000), WorkFetcher::Done);
    assert_eq!(*worker.calls.lock().unwrap(), 1);
    assert_eq!(redis.llen(&"queue:yolo".to_string()), 0);
}

#[test]
fn empty_queues_yield_no_work_found_and_fetch_none() {
    let worker = TestWorker::new();
    let mut redis = RedisState::new();
    let mut p: Processor<TestWorker, NoopMiddleware> =
        Processor::new(vec!["a".to_string(), "b".to_string()]);
    p.register("W".to_string(), worker.clone());
    assert!(p.fetch(&mut redis).is_none());
    assert_eq!(
        p.process_one_tick_once(&mut redis, 1000),
        WorkFetcher::NoWorkFound
    );
    assert!(!*worker.did_process.lock().unwrap());
}

#[test]
fn a_halting_middleware_link_prevents_perform_entirely() {
    let worker = TestWorker::new();
    let mut redis = RedisState::new();
    let mut jids = JidSource::new("client".to_string());
    let mut p: Processor<TestWorker, FilterExpiredUsersMiddleware> =
        Processor::new(vec!["yolo".to_string()]);
    p.register("PaymentReportWorker".to_string(), worker.clone());
    p.using(FilterExpiredUsersMiddleware);

    let opts = WorkerOpts::new().queue("yolo".to_string());
    opts.perform_async(
        &mut redis,
        &mut jids,
        "PaymentReportWorker".to_string(),
        user_args("USR-123-EXPIRED"),
        3000,
    );
    assert_eq!(p.process_one_tick_once(&mut redis, 3000), WorkFetcher::Done);
    assert!(!*worker.did_process.lock().unwrap());
    assert_eq!(*worker.calls.lock().unwrap(), 0);

    // A job the filter does not match still runs.
    opts.perform_async(
        &mut redis,
        &mut jids,
        "PaymentReportWorker".to_string(),
        user_args("USR-456"),
        3001,
    );
    assert_eq!(p.process_one_tick_once(&mut redis, 3001), WorkFetcher::Done);
    assert_eq!(*worker.calls.lock().unwrap(), 1);
}

#[test]
fn resolving_an_unregistered_class_is_an_unknown_worker_error() {
    let worker = TestWorker::new();
    let mut p: Processor<TestWorker, NoopMiddleware> =
        Processor::new(vec!["q".to_string()]);
    p.register("Known".to_string(), worker);
    assert!(p.resolve(&"Known".to_string()).is_ok());
    assert!(matches!(
        p.resolve(&"Unknown".to_string()),
        Err(sidekiq::JobError::UnknownWorker)
    ));
}

#[test]
fn an_unknown_class_is_dead_lettered_immediately() {
    let worker = TestWorker::new();
    let mut redis = RedisState::new();
    let mut jids = JidSource::new("client".to_string());
    let mut p: Processor<TestWorker, NoopMiddleware> =
        Processor::new(vec!["q".to_string()]);
    p.register("Known".to_string(), worker.clone());

    let opts = WorkerOpts::new().queue("q".to_string());
    opts.perform_async(&mut redis, &mut jids, "Unknown".to_string(), vec![], 4000);
    assert_eq!(p.process_one_tick_once(&mut redis, 4000), WorkFetcher::Done);
    assert!(!*worker.did_process.lock().unwrap());
    assert_eq!(redis.llen(&"dead".to_string()), 1);
    assert_eq!(redis.llen(&"queue:q".to_string()), 0);
}

#[derive(Clone)]
struct FailingWorker;

impl Worker for FailingWorker {
    fn perform(&self, _args: &Vec<Arg>) -> Result<(), String> {
        Err("boom".to_string())
    }
}

#[test]
fn a_failed_job_is_rescheduled_with_backoff_and_its_jid_kept() {
    let mut redis = RedisState::new();
    let mut jids = JidSource::new("client".to_string());
    let mut p: Processor<FailingWorker, NoopMiddleware> =
        Processor::new(vec!["q".to_string()]);
    p.register("F".to_string(), FailingWorker);

    let opts = WorkerOpts::new().queue("q".to_string());
    let jid = opts.perform_async(&mut redis, &mut jids, "F".to_string(), vec![], 5000);
    assert_eq!(p.process_one_tick_once(&mut redis, 5000), WorkFetcher::Done);

    // First failure: retry count becomes 1, due at now + 15 + 0^4.
    assert_eq!(redis.zlen(ZSetKey::Retry), 1);
    let job = sidekiq::job::Job {
        class: "F".to_string(),
        queue: "q".to_string(),
        args: vec![],
        jid: jid.clone(),
        created_at: 5000,
        enqueued_at: 5000,
        retry: sidekiq::job::RetryPolicy::Default,
        retry_count: 1,
        unique_for: None,
    };
    let wire = job.serialize();
    assert_eq!(redis.zscore(ZSetKey::Retry, &wire), Some(5015));
}

#[test]
fn a_job_with_retry_disabled_is_dead_lettered_on_failure() {
    let mut redis = RedisState::new();
    let mut jids = JidSource::new("client".to_string());
    let mut p: Processor<FailingWorker, NoopMiddleware> =
        Processor::new(vec!["q".to_string()]);
    p.register("F".to_string(), FailingWorker);

    let opts = WorkerOpts::new()
        .queue("q".to_string())
        .retry(sidekiq::job::RetryPolicy::Disabled);
    opts.perform_async(&mut redis, &mut jids, "F".to_string(), vec![], 6000);
    assert_eq!(p.process_one_tick_once(&mut redis, 6000), WorkFetcher::Done);
    assert_eq!(redis.zlen(ZSetKey::Retry), 0);
    assert_eq!(redis.llen(&"dead".to_string()), 1);
}

#[test]
fn promotion_moves_a_due_scheduled_job_into_its_ready_queue() {
    let worker = TestWorker::new();
    let mut redis = RedisState::new();
    let mut jids = JidSource::new("client".to_string());
    let mut p: Processor<TestWorker, NoopMiddleware> =
        Processor::new(vec!["q".to_string()]);
    p.register("W".to_string(), worker.clone());

    let opts = WorkerOpts::new().queue("q".to_string());
    opts.perform_in(&mut redis, &mut jids, "W".to_string(), vec![], 7000, 10);

    // Not due yet: nothing to fetch, nothing promoted.
    let s = sidekiq::scheduled::Scheduled::new();
    let sets = vec!["scheduled".to_string(), "retry".to_string()];
    assert_eq!(s.enqueue_jobs(&mut redis, 7005, &sets), Ok(0));
    assert_eq!(
        p.process_one_tick_once(&mut redis, 7005),
        WorkFetcher::NoWorkFound
    );

    // Due: promoted and processed.
    assert_eq!(s.enqueue_jobs(&mut redis, 7010, &sets), Ok(1));
    assert_eq!(redis.zlen(ZSetKey::Scheduled), 0);
    assert_eq!(p.process_one_tick_once(&mut redis, 7010), WorkFetcher::Done);
    assert!(*worker.did_process.lock().unwrap());
}

#[test]
fn promoting_an_absent_entry_is_a_no_op_and_no_error() {
    let mut redis = RedisState::new();
    let s = sidekiq::scheduled::Scheduled::new();
    let r = s.promote_one(&mut redis, ZSetKey::Scheduled, &"nowhere".to_string());
    assert!(matches!(r, Ok(false)));
    assert_eq!(redis.zlen(ZSetKey::Scheduled), 0);
}

#[test]
fn a_periodic_job_rescores_itself_to_the_next_minute_after_firing() {
    let mut redis = RedisState::new();
    let mut jids = JidSource::new("sched".to_string());

    // 1700000000 is 20 s past a minute boundary.
    let t0: i64 = 1700000000;
    let pj = sidekiq::periodic::builder("0 * * * * *".to_string())
        .name("payment report".to_string())
        .queue("yolo".to_string())
        .args(user_args("USR-123-PERIODIC"))
        .register(&mut redis, "PaymentReportWorker".to_string(), t0)
        .unwrap();
    let member = pj.serialize();
    assert_eq!(redis.zscore(ZSetKey::Periodic, &member), Some(1700000040));

    // One minute later the entry is due; the sweep fires it and re-scores
    // it to the following minute, not the same one.
    let s = sidekiq::scheduled::Scheduled::new();
    let now = 1700000040;
    let n = s.enqueue_periodic_jobs(&mut redis, now, &mut jids).unwrap();
    assert!(n >= 1);
    assert_eq!(redis.zscore(ZSetKey::Periodic, &member), Some(1700000100));
    assert_eq!(redis.llen(&"queue:yolo".to_string()), 1);
}

#[test]
fn destroy_all_clears_the_periodic_set() {
    let mut redis = RedisState::new();
    sidekiq::periodic::builder("0 * * * * *".to_string())
        .name("a".to_string())
        .queue("q".to_string())
        .register(&mut redis, "W".to_string(), 1700000000)
        .unwrap();
    assert_eq!(redis.zlen(ZSetKey::Periodic), 1);
    sidekiq::periodic::destroy_all(&mut redis);
    assert_eq!(redis.zlen(ZSetKey::Periodic), 0);
}

#[test]
fn fingerprints_ignore_the_job_id_but_not_the_arguments() {
    let mk = |jid: &str, guid: &str| sidekiq::job::Job {
        class: "W".to_string(),
        queue: "q".to_string(),
        args: user_args(guid),
        jid: jid.to_string(),
        created_at: 0,
        enqueued_at: 0,
        retry: sidekiq::job::RetryPolicy::Default,
        retry_count: 0,
        unique_for: Some(5),
    };
    assert_eq!(
        mk("jid-1", "USR-123").fingerprint(),
        mk("jid-2", "USR-123").fingerprint()
    );
    assert_ne!(
        mk("jid-1", "USR-123").fingerprint(),
        mk("jid-1", "USR-124").fingerprint()
    );
}

#[test]
fn a_malformed_scheduled_entry_is_dead_lettered_and_stops_the_sweep() {
    let mut redis = RedisState::new();
    let mut jids = JidSource::new("client".to_string());
    let s = sidekiq::scheduled::Scheduled::new();

    // A valid job due at 50, then an undecodable member due at 100.
    let opts = WorkerOpts::new().queue("q".to_string());
    opts.perform_in(&mut redis, &mut jids, "W".to_string(), vec![], 40, 10);
    redis.zadd(ZSetKey::Scheduled, 100, "garbage".to_string());

    let sets = vec!["scheduled".to_string()];
    let r = s.enqueue_jobs(&mut redis, 200, &sets);
    assert!(matches!(r, Err(sidekiq::JobError::MalformedJob)));

    // The valid job was promoted and stays promoted; the malformed entry
    // was moved to the dead-letter list, inspectable; the set is empty.
    assert_eq!(redis.llen(&"queue:q".to_string()), 1);
    assert_eq!(redis.llen(&"dead".to_string()), 1);
    assert_eq!(redis.zlen(ZSetKey::Scheduled), 0);
}

#[test]
fn a_repeated_set_name_sweeps_what_is_still_due() {
    let mut redis = RedisState::new();
    let mut jids = JidSource::new("client".to_string());
    let s = sidekiq::scheduled::Scheduled::new();
    let opts = WorkerOpts::new().queue("q".to_string());
    opts.perform_in(&mut redis, &mut jids, "W".to_string(), vec![], 40, 10);

    let sets = vec!["scheduled".to_string(), "scheduled".to_string()];
    assert_eq!(s.enqueue_jobs(&mut redis, 200, &sets), Ok(1));
    assert_eq!(redis.llen(&"queue:q".to_string()), 1);
    assert_eq!(redis.zlen(ZSetKey::Scheduled), 0);
}

#[test]
fn a_malformed_periodic_entry_stays_in_place_and_stops_the_sweep() {
    let mut redis = RedisState::new();
    let mut jids = JidSource::new("sched".to_string());
    let s = sidekiq::scheduled::Scheduled::new();
    redis.zadd(ZSetKey::Periodic, 100, "garbage".to_string());

    let r = s.enqueue_periodic_jobs(&mut redis, 200, &mut jids);
    assert!(matches!(r, Err(sidekiq::JobError::MalformedJob)));
    // The undecodable descriptor keeps its membership and score.
    assert_eq!(
        redis.zscore(ZSetKey::Periodic, &"garbage".to_string()),
        Some(100)
    );
    assert_eq!(jids.next, 0);
}
