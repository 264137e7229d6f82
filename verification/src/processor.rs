//! The processor: fetch, lock check, middleware chain, dispatch, ack/retry.
//!
//! Queues are polled in the fixed order they were configured: the fetcher
//! takes the oldest entry of the first non-empty ready list (lists are
//! pushed on the left and popped on the right, so each queue is FIFO), and
//! returns nothing at all when every configured queue is empty — it never
//! blocks.  One tick is the minimal observable unit: fetch once, then
//! dispatch what was found.
use crate::store::strs_v;
use crate::job::{
    Job, JobV, RetryPolicy, UnitOfWork, dead_key, dead_key_x, enc_job, fp_of, lock_key,
    lock_key_x, p_job, queue_key, queue_key_x,
};
use crate::middleware::{MiddlewareVerdict, ServerMiddleware};
use crate::store::{RedisState, ZSetKey, z_insert, z_remove};
use crate::worker::{MAX_NOW, Worker};
use vstd::prelude::*;

verus! {

/// Outcome of one tick: work was processed, or nothing was dispatched.
#[derive(Debug, Clone, Copy, PartialEq, Eq, Structural)]
pub enum WorkFetcher {
    Done,
    NoWorkFound,
}

/// Default retry budget when the envelope carries the default policy.
pub const DEFAULT_MAX_RETRIES: u32 = 25;

/// The retry budget of a job.
pub open spec fn budget(j: JobV) -> int {
    match j.retry {
        RetryPolicy::Default => DEFAULT_MAX_RETRIES as int,
        RetryPolicy::Disabled => 0,
        RetryPolicy::Limit(n) => n as int,
    }
}

/// Exponential backoff before the next attempt, in seconds, capped so the
/// due timestamp always fits alongside a bounded clock.
pub open spec fn backoff(rc: int) -> int {
    let c = if rc < 30 {
        rc
    } else {
        30
    };
    15 + c * c * c * c
}

/// The same job with one more recorded attempt; identity (`jid`) preserved.
pub open spec fn bump_rc(j: JobV) -> JobV {
    JobV { retry_count: j.retry_count + 1, ..j }
}

/// Index of the first configured queue whose ready list is non-empty.
pub open spec fn first_ready(r: RedisState, qs: Seq<Seq<char>>) -> Option<int>
    decreases qs.len(),
{
    if qs.len() == 0 {
        None
    } else if r.list_at(queue_key(qs[0])).len() > 0 {
        Some(0)
    } else {
        match first_ready(r, qs.drop_first()) {
            Some(i) => Some(i + 1),
            None => None,
        }
    }
}

proof fn lemma_first_ready_at(r: RedisState, qs: Seq<Seq<char>>, i: int)
    requires
        0 <= i < qs.len(),
        forall|m: int| 0 <= m < i ==> r.list_at(queue_key(qs[m])).len() == 0,
        r.list_at(queue_key(qs[i])).len() > 0,
    ensures
        first_ready(r, qs) == Some(i),
    decreases i,
{
    if i > 0 {
        assert forall|m: int| 0 <= m < i - 1 implies r.list_at(
            queue_key(qs.drop_first()[m]),
        ).len() == 0 by {
            assert(qs.drop_first()[m] == qs.subrange(1, qs.len() as int)[m]);
        }
        assert(qs.drop_first()[i - 1] == qs.subrange(1, qs.len() as int)[i - 1]);
        lemma_first_ready_at(r, qs.drop_first(), i - 1);
    }
}

proof fn lemma_first_ready_none(r: RedisState, qs: Seq<Seq<char>>)
    requires
        forall|m: int| 0 <= m < qs.len() ==> r.list_at(queue_key(qs[m])).len() == 0,
    ensures
        first_ready(r, qs) is None,
    decreases qs.len(),
{
    if qs.len() > 0 {
        assert forall|m: int| 0 <= m < qs.drop_first().len() implies r.list_at(
            queue_key(qs.drop_first()[m]),
        ).len() == 0 by {
            assert(qs.drop_first()[m] == qs.subrange(1, qs.len() as int)[m]);
        }
        lemma_first_ready_none(r, qs.drop_first());
    }
}

/// The engine: per-process registry of workers and middleware plus the
/// ordered queue list.  Built once at startup; several processors can
/// coexist, each against its own or a shared store.
pub struct Processor<W, M> {
    queues: Vec<String>,
    workers: Vec<(String, W)>,
    chain: Vec<M>,
}

impl<W: Worker, M: ServerMiddleware> Processor<W, M> {
    /// The configured queue names, in polling order.
    pub closed spec fn queues_v(self) -> Seq<Seq<char>> {
        strs_v(self.queues@)
    }

    /// Whether a worker is registered under class name `c`.
    pub closed spec fn has_worker(self, c: Seq<char>) -> bool {
        exists|i: int| 0 <= i < self.workers@.len() && self.workers@[i].0@ == c
    }

    pub closed spec fn chain_v(self) -> Seq<M> {
        self.chain@
    }

    pub open spec fn chain_len(self) -> int {
        self.chain_v().len() as int
    }

    pub fn new(queues: Vec<String>) -> (r: Processor<W, M>)
        ensures
            r.queues_v() == strs_v(queues@),
            forall|c: Seq<char>| !r.has_worker(c),
            r.chain_len() == 0,
    {
        Processor { queues, workers: Vec::new(), chain: Vec::new() }
    }

    /// Register `worker` under `class`; registering the same class again
    /// overwrites the earlier worker.
    #[verifier::loop_isolation(false)]
    pub fn register(&mut self, class: String, worker: W)
        ensures
            final(self).has_worker(class@),
            forall|c: Seq<char>| c != class@ ==> final(self).has_worker(c) == old(self).has_worker(c),
            final(self).queues_v() == old(self).queues_v(),
            final(self).chain_v() == old(self).chain_v(),
    {
        let n = self.workers.len();
        let mut i: usize = 0;
        while i < n
            invariant
                i <= n,
                *self == *old(self),
                n == self.workers@.len(),
                forall|m: int| 0 <= m < i ==> self.workers@[m].0@ != class@,
            decreases n - i,
        {
            if self.workers[i].0 == class {
                let ghost w0 = self.workers@;
                let _ = self.workers.remove(i);
                self.workers.insert(i, (class, worker));
                proof {
                    w0.remove_ensures(i as int);
                    w0.remove(i as int).insert_ensures(i as int, self.workers@[i as int]);
                    let wn = self.workers@;
                    assert(wn[i as int].0@ == w0[i as int].0@);
                    assert forall|a: int| 0 <= a < wn.len() && a != i as int implies wn[a]
                        == w0[a] by {
                        if a > i as int {
                            assert(w0.remove(i as int).insert(i as int, wn[i as int])[a]
                                == w0.remove(i as int)[a - 1]);
                        }
                    }
                    assert(final(self).has_worker(class@));
                    assert forall|c: Seq<char>| c != class@ implies final(self).has_worker(c)
                        == old(self).has_worker(c) by {
                        if old(self).has_worker(c) {
                            let a = choose|a: int|
                                0 <= a < w0.len() && w0[a].0@ == c;
                            assert(wn[a].0@ == c);
                        }
                        if final(self).has_worker(c) {
                            let a = choose|a: int|
                                0 <= a < wn.len() && wn[a].0@ == c;
                            assert(w0[a].0@ == c);
                        }
                    }
                }
                return;
            }
            i = i + 1;
        }
        let ghost w0 = self.workers@;
        self.workers.push((class, worker));
        proof {
            let wn = self.workers@;
            assert(wn[n as int].0@ == class@);
            assert(final(self).has_worker(class@));
            assert forall|c: Seq<char>| c != class@ implies final(self).has_worker(c) == old(self).has_worker(c) by {
                if old(self).has_worker(c) {
                    let a = choose|a: int| 0 <= a < w0.len() && w0[a].0@ == c;
                    assert(wn[a].0@ == c);
                }
                if final(self).has_worker(c) {
                    let a = choose|a: int| 0 <= a < wn.len() && wn[a].0@ == c;
                    assert(a != n as int);
                    assert(w0[a].0@ == c);
                }
            }
        }
    }

    /// Append a middleware link; links run in the order they were added.
    pub fn using(&mut self, link: M)
        ensures
            final(self).chain_v() == old(self).chain_v().push(link),
            final(self).queues_v() == old(self).queues_v(),
            forall|c: Seq<char>| final(self).has_worker(c) == old(self).has_worker(c),
    {
        self.chain.push(link);
        proof {
            assert forall|c: Seq<char>| final(self).has_worker(c) == old(self).has_worker(
                c,
            ) by {
                if old(self).has_worker(c) {
                    let a = choose|a: int|
                        0 <= a < old(self).workers@.len() && old(self).workers@[a].0@ == c;
                    assert(self.workers@[a].0@ == c);
                }
                if final(self).has_worker(c) {
                    let a = choose|a: int|
                        0 <= a < self.workers@.len() && self.workers@[a].0@ == c;
                    assert(old(self).workers@[a].0@ == c);
                }
            }
        }
    }

    /// Resolve the worker registered under `class`; an unregistered class
    /// is the configuration error `UnknownWorker`.
    pub fn resolve(&self, class: &String) -> (r: Result<&W, crate::JobError>)
        ensures
            r is Ok <==> self.has_worker(class@),
            r is Err ==> r->Err_0 == crate::JobError::UnknownWorker,
    {
        match self.find_worker(class) {
            Some(w) => Ok(w),
            None => Err(crate::JobError::UnknownWorker),
        }
    }

    #[verifier::loop_isolation(false)]
    fn find_worker(&self, class: &String) -> (r: Option<&W>)
        ensures
            r is Some <==> self.has_worker(class@),
    {
        let n = self.workers.len();
        let mut i: usize = 0;
        while i < n
            invariant
                i <= n,
                n == self.workers@.len(),
                forall|m: int| 0 <= m < i ==> self.workers@[m].0@ != class@,
            decreases n - i,
    {
            if self.workers[i].0 == *class {
                return Some(&self.workers[i].1);
            }
            i = i + 1;
        }
        None
    }

    /// Pull the next ready unit of work, polling the configured queues in
    /// order.  Returns nothing when every queue is empty (never blocks) —
    /// and also when the first ready entry does not parse, in which case
    /// that entry has been moved to the dead-letter list.
    #[verifier::loop_isolation(false)]
    pub fn fetch(&self, redis: &mut RedisState) -> (r: Option<UnitOfWork>)
        requires
            old(redis).wf(),
        ensures
            final(redis).wf(),
            final(redis).zsets_same(*old(redis)),
            final(redis).locks_same(*old(redis)),
            (match first_ready(*old(redis), self.queues_v()) {
                None => r is None && final(redis).lists_same(*old(redis)),
                Some(qi) => ({
                    let qk = queue_key(self.queues_v()[qi]);
                    let m = old(redis).list_at(qk).last();
                    &&& final(redis).list_at(qk) == old(redis).list_at(qk).drop_last()
                    &&& (match r {
                        Some(u) => p_job(m) == Some(u.job@) && u.queue@ == self.queues_v()[qi]
                            && final(redis).lists_same_except(*old(redis), qk)
                        ,
                        None => p_job(m) is None && final(redis).list_at(dead_key()) == seq![m]
                            + old(redis).list_at(dead_key()) && qk != dead_key() && (
                        forall|k: Seq<char>|
                            k != qk && k != dead_key() ==> final(redis).list_at(k) == old(redis).list_at(k)),
                    })
                }),
            }),
    {
        let n = self.queues.len();
        let mut i: usize = 0;
        while i < n
            invariant
                i <= n,
                n == self.queues@.len(),
                redis.wf(),
                redis.lists_same(*old(redis)),
                redis.zsets_same(*old(redis)),
                redis.locks_same(*old(redis)),
                forall|m: int| 0 <= m < i ==> redis.list_at(
                    queue_key(self.queues_v()[m]),
                ).len() == 0,
            decreases n - i,
        {
            let qk = queue_key_x(&self.queues[i]);
            match redis.rpop(&qk) {
                Some(m) => {
                    proof {
                        lemma_first_ready_at(*old(redis), self.queues_v(), i as int);
                    }
                    match Job::deserialize(m.as_str()) {
                        Ok(job) => {
                            let queue = self.queues[i].clone();
                            return Some(UnitOfWork { queue, job });
                        },
                        Err(_e) => {
                            let dk = dead_key_x();
                            proof {
                                reveal_strlit("dead");
                                reveal_strlit("queue:");
                                assert(queue_key(self.queues_v()[i as int])[0] == 'q');
                                assert(dead_key()[0] == 'd');
                            }
                            redis.lpush(&dk, m);
                            return None;
                        },
                    }
                },
                None => {
                },
            }
            i = i + 1;
        }
        proof {
            lemma_first_ready_none(*old(redis), self.queues_v());
        }
        None
    }

    /// One fetch-and-maybe-dispatch attempt.
    ///
    /// Exactly one of the following happens, and the result reports it:
    /// every configured queue is empty (`NoWorkFound`, nothing changes);
    /// the first ready entry is malformed (`NoWorkFound`, the entry is
    /// dead-lettered); the job's uniqueness lock is held by another job
    /// (`NoWorkFound`, the entry is consumed and nothing runs); otherwise
    /// the job is dispatched (`Done`): an unknown class is dead-lettered,
    /// a middleware link may halt the chain, a worker failure is re-scored
    /// into the retry set with backoff until its budget is spent, after
    /// which it is dead-lettered.
    #[verifier::loop_isolation(false)]
    pub fn process_one_tick_once(&self, redis: &mut RedisState, now: i64) -> (r: WorkFetcher)
        requires
            old(redis).wf(),
            0 <= now < MAX_NOW,
        ensures
            final(redis).wf(),
            (match first_ready(*old(redis), self.queues_v()) {
                None => r == WorkFetcher::NoWorkFound && final(redis).lists_same(*old(redis))
                    && final(redis).zsets_same(*old(redis)) && final(redis).locks_same(
                    *old(redis),
                ),
                Some(qi) => ({
                    let qk = queue_key(self.queues_v()[qi]);
                    let m = old(redis).list_at(qk).last();
                    &&& final(redis).list_at(qk) == old(redis).list_at(qk).drop_last()
                    &&& (match p_job(m) {
                        None => r == WorkFetcher::NoWorkFound && final(redis).list_at(
                            dead_key(),
                        ) == seq![m] + old(redis).list_at(dead_key()) && final(redis).zsets_same(*old(redis)) && final(redis).locks_same(*old(redis)) && (
                        forall|k: Seq<char>|
                            k != qk && k != dead_key() ==> final(redis).list_at(k) == old(redis).list_at(k)),
                        Some(j) => ({
                            let lk = lock_key(fp_of(j.class, j.queue, j.args));
                            let skipped = j.unique_for is Some && old(redis).lock_live(lk, now)
                                && old(redis).lock_at(lk)->Some_0.0 != j.jid;
                            &&& (skipped ==> r == WorkFetcher::NoWorkFound && final(redis).lists_same_except(*old(redis), qk) && final(redis).zsets_same(
                                *old(redis),
                            ) && final(redis).locks_same(*old(redis)))
                            &&& (!skipped ==> ({
                                &&& r == WorkFetcher::Done
                                &&& (j.unique_for is None ==> final(redis).locks_same(
                                    *old(redis),
                                ))
                                &&& (j.unique_for is Some ==> final(redis).locks_same_except(
                                    *old(redis),
                                    lk,
                                ) && (!old(redis).lock_live(lk, now) ==> final(redis).lock_at(
                                    lk,
                                ) == Some((j.jid, (now + j.unique_for->Some_0) as i64))) && (old(redis).lock_live(lk, now) ==> final(redis).locks_same(*old(redis))))
                                &&& final(redis).zsets_same_except(*old(redis), ZSetKey::Retry)
                                &&& (final(redis).zv(ZSetKey::Retry) == old(redis).zv(
                                    ZSetKey::Retry,
                                ) || (j.retry_count < budget(j) && final(redis).zv(
                                    ZSetKey::Retry,
                                ) == z_insert(
                                    z_remove(old(redis).zv(ZSetKey::Retry), enc_job(bump_rc(j))),
                                    (now + backoff(j.retry_count)) as i64,
                                    enc_job(bump_rc(j)),
                                )))
                                &&& (final(redis).list_at(dead_key()) == old(redis).list_at(
                                    dead_key(),
                                ) || (qk != dead_key() && final(redis).list_at(dead_key())
                                    == seq![enc_job(j)] + old(redis).list_at(dead_key())))
                                &&& (forall|k: Seq<char>|
                                    k != qk && k != dead_key() ==> final(redis).list_at(k)
                                        == old(redis).list_at(k))
                                &&& (!self.has_worker(j.class) ==> final(redis).list_at(
                                    dead_key(),
                                ) == seq![enc_job(j)] + old(redis).list_at(dead_key()) && final(redis).zsets_same(*old(redis)) && (forall|k: Seq<char>|
                                    k != qk && k != dead_key() ==> final(redis).list_at(k)
                                        == old(redis).list_at(k)))
                            }))
                        }),
                    })
                }),
            }),
    {
        let fetched = self.fetch(redis);
        let uow = match fetched {
            None => {
                return WorkFetcher::NoWorkFound;
            },
            Some(u) => u,
        };
        let ghost mid1 = *redis;
        let ghost j = uow.job@;
        let ghost qi = first_ready(*old(redis), self.queues_v())->Some_0;
        let ghost qk = queue_key(self.queues_v()[qi]);
        proof {
            crate::job::lemma_queue_key_not_dead(self.queues_v()[qi]);
        }

        // Unique-job lock: skip without retry when another job's lock is
        // live; take the lock at dispatch when none is.
        if let Some(t) = uow.job.unique_for {
            let fp = uow.job.fingerprint();
            let lk = lock_key_x(&fp);
            match redis.lock_get(&lk, now) {
                Some(holder) => {
                    if holder != uow.job.jid {
                        return WorkFetcher::NoWorkFound;
                    }
                },
                None => {
                    let _ = redis.lock_set_nx(&lk, &uow.job.jid, now + (t as i64), now);
                },
            }
        }
        let ghost mid2 = *redis;

        // Resolve the worker; an unregistered class is a configuration
        // error: dead-letter immediately, never retry.
        let worker = match self.resolve(&uow.job.class) {
            Ok(w) => w,
            Err(_unknown) => {
                let dk = dead_key_x();
                let wire = uow.job.serialize();
                proof {
                    reveal_strlit("dead");
                    reveal_strlit("queue:");
                    assert(qk[0] == 'q');
                    assert(dead_key()[0] == 'd');
                }
                redis.lpush(&dk, wire);
                return WorkFetcher::Done;
            },
        };

        // Run the middleware chain; a link that halts has handled the job.
        let n = self.chain.len();
        let mut i: usize = 0;
        while i < n
            invariant
                i <= n,
                n == self.chain@.len(),
                *redis == mid2,
            decreases n - i,
        {
            match self.chain[i].call(&uow.job) {
                MiddlewareVerdict::Halt => {
                    return WorkFetcher::Done;
                },
                MiddlewareVerdict::Continue => {},
            }
            i = i + 1;
        }

        // The terminal link: the worker itself.
        match worker.perform(&uow.job.args) {
            Ok(()) => WorkFetcher::Done,
            Err(_e) => {
                let bud: u32 = match uow.job.retry {
                    RetryPolicy::Default => DEFAULT_MAX_RETRIES,
                    RetryPolicy::Disabled => 0,
                    RetryPolicy::Limit(n2) => n2,
                };
                if uow.job.retry_count < bud {
                    let rc = uow.job.retry_count;
                    let mut retry_job = uow.job;
                    retry_job.retry_count = rc + 1;
                    proof {
                        assert(retry_job@ == bump_rc(j));
                    }
                    let c: u32 = if rc < 30 {
                        rc
                    } else {
                        30
                    };
                    let c64: i64 = c as i64;
                    proof {
                        assert(c64 * c64 <= 900 && c64 * c64 >= 0 && c64 * c64 * c64 <= 27000
                            && c64 * c64 * c64 >= 0 && c64 * c64 * c64 * c64 <= 810000
                            && c64 * c64 * c64 * c64 >= 0) by (nonlinear_arith)
                            requires
                                0 <= c64 <= 30,
                        ;
                    }
                    let delay: i64 = 15 + c64 * c64 * c64 * c64;
                    proof {
                        assert(delay == backoff(j.retry_count));
                    }
                    let wire = retry_job.serialize();
                    redis.zadd(ZSetKey::Retry, now + delay, wire);
                    WorkFetcher::Done
                } else {
                    let dk = dead_key_x();
                    let wire = uow.job.serialize();
                    proof {
                        reveal_strlit("dead");
                        reveal_strlit("queue:");
                        assert(qk[0] == 'q');
                        assert(dead_key()[0] == 'd');
                    }
                    redis.lpush(&dk, wire);
                    WorkFetcher::Done
                }
            },
        }
    }
}

} // verus!
