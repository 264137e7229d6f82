//! Worker abstraction and the producer-side enqueue paths.
//!
//! A worker is registered under a class-name string and performs the job's
//! arguments.  `WorkerOpts` carries the per-class configuration (queue,
//! retry policy, uniqueness window) resolved once at registration time; its
//! builder methods mirror the enqueue options producers use.
use crate::codec::{Arg, ArgV, args_view, enc_nat, push_nat, str_to_chars, string_from_chars};
use crate::job::{
    Job, JobV, RetryPolicy, UnitOfWork, enc_job, fp_of, lock_key, queue_key,
};
use crate::store::RedisState;
use vstd::prelude::*;

verus! {

/// Clock readings are bounded so that adding a backoff or a TTL to a
/// timestamp cannot overflow a 64-bit score.
pub const MAX_NOW: i64 = 0x4000000000000000;

/// A polymorphic executor, keyed by a class-name string at registration.
/// Implementations report failure through their result; the processor
/// treats any error as transient and routes it through retry scheduling.
pub trait Worker {
    fn perform(&self, args: &Vec<Arg>) -> Result<(), String>;
}

/// Deterministic source of job ids: a prefix chosen by the host process
/// plus a counter, so every id drawn from one source is distinct.
pub struct JidSource {
    pub prefix: String,
    pub next: u64,
}

/// The id built from a prefix and a counter value.
pub open spec fn jid_str(prefix: Seq<char>, n: int) -> Seq<char> {
    prefix + "-"@ + enc_nat(n)
}

impl JidSource {
    pub fn new(prefix: String) -> (r: JidSource)
        ensures
            r.prefix@ == prefix@,
            r.next == 0,
    {
        JidSource { prefix, next: 0 }
    }

    pub fn new_jid(&mut self) -> (r: String)
        requires
            old(self).next < u64::MAX,
        ensures
            r@ == jid_str(old(self).prefix@, old(self).next as int),
            final(self).next == old(self).next + 1,
            final(self).prefix == old(self).prefix,
    {
        let mut out = str_to_chars(self.prefix.as_str());
        out.push('-');
        push_nat(&mut out, self.next);
        self.next = self.next + 1;
        let r = string_from_chars(out);
        proof {
            reveal_strlit("-");
            assert(r@ =~= jid_str(old(self).prefix@, old(self).next as int));
        }
        r
    }
}

/// The job a producer enqueue builds from its options.
pub open spec fn built_job(
    class: Seq<char>,
    queue: Seq<char>,
    args: Seq<ArgV>,
    jid: Seq<char>,
    now: int,
    retry: RetryPolicy,
    unique_for: Option<int>,
) -> JobV {
    JobV {
        class,
        queue,
        args,
        jid,
        created_at: now,
        enqueued_at: now,
        retry,
        retry_count: 0,
        unique_for,
    }
}

/// Per-worker-class options, immutable once resolved.
#[derive(Debug, Clone)]
pub struct WorkerOpts {
    pub queue: String,
    pub retry: RetryPolicy,
    pub unique_for: Option<u32>,
}

pub open spec fn uf_v(u: Option<u32>) -> Option<int> {
    match u {
        Some(n) => Some(n as int),
        None => None,
    }
}

impl WorkerOpts {
    /// Defaults: the `default` queue, default retry policy, no uniqueness.
    pub fn new() -> (r: WorkerOpts)
        ensures
            r.queue@ == "default"@,
            r.retry == RetryPolicy::Default,
            r.unique_for is None,
    {
        WorkerOpts { queue: String::from_str("default"), retry: RetryPolicy::Default, unique_for: None }
    }

    pub fn queue(self, queue: String) -> (r: WorkerOpts)
        ensures
            r.queue == queue,
            r.retry == self.retry,
            r.unique_for == self.unique_for,
    {
        WorkerOpts { queue, retry: self.retry, unique_for: self.unique_for }
    }

    pub fn retry(self, retry: RetryPolicy) -> (r: WorkerOpts)
        ensures
            r.retry == retry,
            r.queue == self.queue,
            r.unique_for == self.unique_for,
    {
        WorkerOpts { queue: self.queue, retry, unique_for: self.unique_for }
    }

    /// Guard this job's fingerprint with a lock for `secs` seconds from
    /// enqueue.
    pub fn unique_for(self, secs: u32) -> (r: WorkerOpts)
        ensures
            r.unique_for == Some(secs),
            r.queue == self.queue,
            r.retry == self.retry,
    {
        WorkerOpts { queue: self.queue, retry: self.retry, unique_for: Some(secs) }
    }

    /// Enqueue a job for immediate execution.  When a uniqueness window is
    /// set, the fingerprint lock is taken at enqueue time if no live lock
    /// exists; the job is pushed either way and the dispatcher decides.
    pub fn perform_async(
        &self,
        redis: &mut RedisState,
        jids: &mut JidSource,
        class: String,
        args: Vec<Arg>,
        now: i64,
    ) -> (jid: String)
        requires
            old(redis).wf(),
            0 <= now < MAX_NOW,
            old(jids).next < u64::MAX,
        ensures
            final(redis).wf(),
            final(jids).next == old(jids).next + 1,
            final(jids).prefix == old(jids).prefix,
            jid@ == jid_str(old(jids).prefix@, old(jids).next as int),
            ({
                let j = built_job(
                    class@,
                    self.queue@,
                    args_view(args@),
                    jid@,
                    now as int,
                    self.retry,
                    uf_v(self.unique_for),
                );
                let lk = lock_key(fp_of(class@, self.queue@, args_view(args@)));
                &&& final(redis).list_at(queue_key(self.queue@)) == seq![enc_job(j)] + old(redis).list_at(queue_key(self.queue@))
                &&& final(redis).lists_same_except(*old(redis), queue_key(self.queue@))
                &&& final(redis).zsets_same(*old(redis))
                &&& (match self.unique_for {
                    Some(t) => {
                        &&& final(redis).locks_same_except(*old(redis), lk)
                        &&& (!old(redis).lock_live(lk, now) ==> final(redis).lock_at(lk) == Some(
                            (jid@, (now + t) as i64),
                        ))
                        &&& (old(redis).lock_live(lk, now) ==> final(redis).locks_same(
                            *old(redis),
                        ))
                    },
                    None => final(redis).locks_same(*old(redis)),
                })
            }),
    {
        let jid = jids.new_jid();
        let job = Job {
            class,
            queue: self.queue.clone(),
            args,
            jid: jid.clone(),
            created_at: now,
            enqueued_at: now,
            retry: self.retry,
            retry_count: 0,
            unique_for: self.unique_for,
        };
        if let Some(t) = self.unique_for {
            let fp = job.fingerprint();
            let lk = crate::job::lock_key_x(&fp);
            let _ = redis.lock_set_nx(&lk, &job.jid, now + (t as i64), now);
        }
        let uow = UnitOfWork::from_job(job);
        uow.enqueue_direct(redis);
        jid
    }

    /// Enqueue a job to become ready `delay_secs` from `now`: it is scored
    /// into the `scheduled` sorted set and promoted when due.
    pub fn perform_in(
        &self,
        redis: &mut RedisState,
        jids: &mut JidSource,
        class: String,
        args: Vec<Arg>,
        now: i64,
        delay_secs: u32,
    ) -> (jid: String)
        requires
            old(redis).wf(),
            0 <= now < MAX_NOW,
            old(jids).next < u64::MAX,
        ensures
            final(redis).wf(),
            final(jids).next == old(jids).next + 1,
            final(jids).prefix == old(jids).prefix,
            jid@ == jid_str(old(jids).prefix@, old(jids).next as int),
            ({
                let j = built_job(
                    class@,
                    self.queue@,
                    args_view(args@),
                    jid@,
                    now as int,
                    self.retry,
                    uf_v(self.unique_for),
                );
                let w = enc_job(j);
                &&& final(redis).zv(crate::store::ZSetKey::Scheduled) == crate::store::z_insert(
                    crate::store::z_remove(
                        old(redis).zv(crate::store::ZSetKey::Scheduled),
                        w,
                    ),
                    (now + delay_secs) as i64,
                    w,
                )
                &&& final(redis).zsets_same_except(
                    *old(redis),
                    crate::store::ZSetKey::Scheduled,
                )
                &&& final(redis).lists_same(*old(redis))
                &&& final(redis).locks_same(*old(redis))
            }),
    {
        let jid = jids.new_jid();
        let job = Job {
            class,
            queue: self.queue.clone(),
            args,
            jid: jid.clone(),
            created_at: now,
            enqueued_at: now,
            retry: self.retry,
            retry_count: 0,
            unique_for: self.unique_for,
        };
        let wire = job.serialize();
        redis.zadd(crate::store::ZSetKey::Scheduled, now + (delay_secs as i64), wire);
        jid
    }
}

} // verus!
