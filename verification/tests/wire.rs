use sidekiq::JobError;
use sidekiq::codec::{Arg, ArgVal};
use sidekiq::job::{Job, RetryPolicy};

fn sample_job() -> Job {
    Job {
        class: "PaymentReportWorker".to_string(),
        queue: "yolo".to_string(),
        args: vec![
            Arg::Obj(vec![
                ("user_guid".to_string(), ArgVal::Str("USR-123".to_string())),
                ("attempts".to_string(), ArgVal::Int(-3)),
                ("active".to_string(), ArgVal::Bool(true)),
                ("note".to_string(), ArgVal::Null),
            ]),
            Arg::Scalar(ArgVal::Str("with \"quotes\" and \\slash".to_string())),
            Arg::Scalar(ArgVal::Int(9007199254740993)),
        ],
        jid: "jid-42".to_string(),
        created_at: 1700000000,
        enqueued_at: 1700000001,
        retry: RetryPolicy::Limit(7),
        retry_count: 2,
        unique_for: Some(30),
    }
}

#[test]
fn serialize_produces_the_canonical_wire_form() {
    let job = Job {
        class: "HelloWorker".to_string(),
        queue: "default".to_string(),
        args: vec![Arg::Scalar(ArgVal::Null)],
        jid: "jid-0".to_string(),
        created_at: 1700000000,
        enqueued_at: 1700000000,
        retry: RetryPolicy::Default,
        retry_count: 0,
        unique_for: None,
    };
    assert_eq!(
        job.serialize(),
        "{\"class\":\"HelloWorker\",\"queue\":\"default\",\"args\":[null],\
         \"jid\":\"jid-0\",\"created_at\":1700000000,\"enqueued_at\":1700000000,\
         \"retry\":null,\"retry_count\":0,\"unique_for\":null}"
    );
}

fn assert_jobs_equal(a: &Job, b: &Job) {
    assert_eq!(a.class, b.class);
    assert_eq!(a.queue, b.queue);
    assert_eq!(a.jid, b.jid);
    assert_eq!(a.created_at, b.created_at);
    assert_eq!(a.enqueued_at, b.enqueued_at);
    assert_eq!(a.retry_count, b.retry_count);
    assert_eq!(a.unique_for, b.unique_for);
    // The argument list round-trips with its ordering intact.
    assert_eq!(a.serialize(), b.serialize());
}

#[test]
fn deserialize_inverts_serialize_for_every_field_and_arg_order() {
    let job = sample_job();
    let wire = job.serialize();
    let back = Job::deserialize(wire.as_str()).unwrap();
    assert_jobs_equal(&job, &back);

    // Negative, boundary and escaped content survive a second trip too.
    let wire2 = back.serialize();
    assert_eq!(wire, wire2);
}

#[test]
fn extreme_integers_round_trip() {
    for n in [i64::MIN, i64::MIN + 1, -1, 0, 1, i64::MAX] {
        let job = Job {
            class: "W".to_string(),
            queue: "q".to_string(),
            args: vec![Arg::Scalar(ArgVal::Int(n))],
            jid: "j".to_string(),
            created_at: n,
            enqueued_at: 0,
            retry: RetryPolicy::Disabled,
            retry_count: u32::MAX,
            unique_for: Some(u32::MAX),
        };
        let back = Job::deserialize(job.serialize().as_str()).unwrap();
        assert_eq!(back.created_at, n);
        assert_eq!(back.retry_count, u32::MAX);
        assert_eq!(back.serialize(), job.serialize());
    }
}

#[test]
fn malformed_wire_strings_are_rejected() {
    for bad in [
        "",
        "{}",
        "not json at all",
        "{\"class\":\"W\"}",
        "{\"class\":\"W\",\"queue\":\"q\",\"args\":[],\"jid\":\"j\",\"created_at\":1,\
         \"enqueued_at\":1,\"retry\":null,\"retry_count\":0,\"unique_for\":null} ",
        "{\"class\":\"W\",\"queue\":\"q\",\"args\":[],\"jid\":\"j\",\"created_at\":1,\
         \"enqueued_at\":1,\"retry\":null,\"retry_count\":-1,\"unique_for\":null}",
    ] {
        assert!(matches!(Job::deserialize(bad), Err(JobError::MalformedJob)));
    }
}

#[test]
fn an_empty_args_array_and_empty_object_round_trip() {
    let job = Job {
        class: "W".to_string(),
        queue: "q".to_string(),
        args: vec![Arg::Obj(vec![])],
        jid: "j".to_string(),
        created_at: 0,
        enqueued_at: 0,
        retry: RetryPolicy::Default,
        retry_count: 0,
        unique_for: None,
    };
    let wire = job.serialize();
    assert!(wire.contains("\"args\":[{}]"));
    let back = Job::deserialize(wire.as_str()).unwrap();
    assert_eq!(back.serialize(), wire);

    let none = Job { args: vec![], ..job };
    let wire2 = none.serialize();
    assert!(wire2.contains("\"args\":[]"));
    assert_eq!(Job::deserialize(wire2.as_str()).unwrap().serialize(), wire2);
}

#[test]
fn periodic_descriptors_round_trip_through_their_member_string() {
    let pj = sidekiq::periodic::PeriodicJob {
        name: "payment report".to_string(),
        cron: "0 * * * * *".to_string(),
        class: "PaymentReportWorker".to_string(),
        queue: "yolo".to_string(),
        args: vec![Arg::Scalar(ArgVal::Str("USR-123-PERIODIC".to_string()))],
    };
    let member = pj.serialize();
    let back = sidekiq::periodic::PeriodicJob::from_periodic_job_string(member.clone()).unwrap();
    assert_eq!(back.serialize(), member);
    assert_eq!(back.name, "payment report");
    assert_eq!(back.cron, "0 * * * * *");
}

#[test]
fn unit_of_work_decodes_a_stored_string_and_keeps_the_queue() {
    let job = sample_job();
    let wire = job.serialize();
    let work = sidekiq::job::UnitOfWork::from_job_string(wire.clone()).unwrap();
    assert_eq!(work.queue, "yolo");
    assert_eq!(work.job.serialize(), wire);

    let bad = sidekiq::job::UnitOfWork::from_job_string("nope".to_string());
    assert!(matches!(bad, Err(JobError::MalformedJob)));
}
