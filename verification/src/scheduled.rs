//! The scheduled promoter: moves due entries from the time-ordered sorted
//! sets into ready queues.
//!
//! Each sweep takes up to a bounded batch (100) of entries scored at or
//! before `now` from each named set, removes each entry conditionally and,
//! when the removal won — a removal can be lost to another promoter
//! instance racing on the same set — pushes the decoded job onto the ready
//! list of its queue through the single write path.  A lost removal is
//! silently skipped, which is what makes promotion safe under concurrent
//! promoters.  An entry that does not decode is moved to the dead-letter
//! list, where it stays inspectable, and stops the sweep.  The count
//! returned is the number of entries observed, not the number moved.
//!
//! The whole effect of a sweep — the sets after, every ready-list push in
//! order, the observed count, and whether it succeeded — is the `sweep`
//! function below, threaded through the named sets in order, so a name
//! listed twice simply sweeps what is still due.
use crate::JobError;
use crate::job::{JobV, RetryPolicy, UnitOfWork, dead_key, dead_key_x, enc_job, p_job, queue_key};
use crate::periodic::{CRON_TS_MAX, cron_next, p_pjob};
use crate::store::{RedisState, ZSetKey, due_n, strs_v, z_distinct, z_has, z_remove};
use crate::worker::{JidSource, jid_str};
use vstd::prelude::*;

verus! {

/// Promotion batch bound per set and sweep.
pub const PROMOTE_BATCH: usize = 100;

/// Which engine sorted set a configured name denotes.
pub open spec fn zkey_of(name: Seq<char>) -> Option<ZSetKey> {
    if name == "scheduled"@ {
        Some(ZSetKey::Scheduled)
    } else if name == "retry"@ {
        Some(ZSetKey::Retry)
    } else if name == "periodic"@ {
        Some(ZSetKey::Periodic)
    } else {
        None
    }
}

pub fn zkey_of_x(name: &String) -> (r: Option<ZSetKey>)
    ensures
        r == zkey_of(name@),
{
    if *name == String::from_str("scheduled") {
        Some(ZSetKey::Scheduled)
    } else if *name == String::from_str("retry") {
        Some(ZSetKey::Retry)
    } else if *name == String::from_str("periodic") {
        Some(ZSetKey::Periodic)
    } else {
        None
    }
}

// ---------------------------------------------------------------------------
// What a sweep does, as one specification value
// ---------------------------------------------------------------------------

/// The names of a configured set list.
pub open spec fn strs_of(v: Seq<String>) -> Seq<Seq<char>> {
    Seq::new(v.len(), |i: int| v[i]@)
}

/// How many entries one sweep observes in one set.
pub open spec fn batch_n(z: Seq<(i64, Seq<char>)>, now: int) -> int {
    vstd::math::min(PROMOTE_BATCH as int, due_n(z, now as i64))
}

/// The three sorted sets as one value, threaded through a sweep.
#[verifier::ext_equal]
pub struct Zs {
    pub sched: Seq<(i64, Seq<char>)>,
    pub retr: Seq<(i64, Seq<char>)>,
    pub peri: Seq<(i64, Seq<char>)>,
}

pub open spec fn zs_of(r: RedisState) -> Zs {
    Zs {
        sched: r.zv(ZSetKey::Scheduled),
        retr: r.zv(ZSetKey::Retry),
        peri: r.zv(ZSetKey::Periodic),
    }
}

pub open spec fn zs_at(zs: Zs, w: ZSetKey) -> Seq<(i64, Seq<char>)> {
    match w {
        ZSetKey::Scheduled => zs.sched,
        ZSetKey::Retry => zs.retr,
        ZSetKey::Periodic => zs.peri,
    }
}

pub open spec fn zs_set(zs: Zs, w: ZSetKey, v: Seq<(i64, Seq<char>)>) -> Zs {
    match w {
        ZSetKey::Scheduled => Zs { sched: v, ..zs },
        ZSetKey::Retry => Zs { retr: v, ..zs },
        ZSetKey::Periodic => Zs { peri: v, ..zs },
    }
}

/// Index of the first entry in the due batch that does not decode as a
/// job, or the batch size when all decode.
pub open spec fn first_bad_from(z: Seq<(i64, Seq<char>)>, bn: int, i: int) -> int
    decreases bn - i,
    when i <= bn
{
    if i >= bn {
        bn
    } else if p_job(z[i].1) is None {
        i
    } else {
        first_bad_from(z, bn, i + 1)
    }
}

pub open spec fn first_bad(z: Seq<(i64, Seq<char>)>, bn: int) -> int {
    first_bad_from(z, bn, 0)
}

/// The ready-list pushes promoting the first `upto` batch entries makes,
/// in order: each decoded job's wire form goes to its queue's key.
pub open spec fn batch_pushes(z: Seq<(i64, Seq<char>)>, upto: int) -> Seq<(Seq<char>, Seq<char>)> {
    Seq::new(
        upto as nat,
        |i: int|
            (queue_key(p_job(z[i].1)->Some_0.queue), enc_job(p_job(z[i].1)->Some_0)),
    )
}

/// One set's sweep at `now`: entries observed, the set after, the pushes
/// made (a failing entry goes to the dead-letter list), and whether every
/// observed entry decoded.
pub struct SetSweep {
    pub n: int,
    pub z: Seq<(i64, Seq<char>)>,
    pub pushes: Seq<(Seq<char>, Seq<char>)>,
    pub ok: bool,
}

pub open spec fn sweep_set(z: Seq<(i64, Seq<char>)>, now: int) -> SetSweep {
    let bn = batch_n(z, now);
    let fb = first_bad(z, bn);
    if fb == bn {
        SetSweep { n: bn, z: z.skip(bn), pushes: batch_pushes(z, bn), ok: true }
    } else {
        SetSweep {
            n: bn,
            z: z.skip(fb + 1),
            pushes: batch_pushes(z, fb) + seq![(dead_key(), z[fb].1)],
            ok: false,
        }
    }
}

/// The whole sweep across the named sets, processed in order; the first
/// entry that does not decode stops it, with everything before kept.
pub struct Sweep {
    pub count: int,
    pub zs: Zs,
    pub pushes: Seq<(Seq<char>, Seq<char>)>,
    pub ok: bool,
}

pub open spec fn sweep(names: Seq<Seq<char>>, zs: Zs, now: int) -> Sweep
    decreases names.len(),
{
    if names.len() == 0 {
        Sweep { count: 0, zs, pushes: Seq::empty(), ok: true }
    } else {
        match zkey_of(names[0]) {
            None => sweep(names.drop_first(), zs, now),
            Some(w) => {
                let s1 = sweep_set(zs_at(zs, w), now);
                let zs1 = zs_set(zs, w, s1.z);
                if !s1.ok {
                    Sweep { count: s1.n, zs: zs1, pushes: s1.pushes, ok: false }
                } else {
                    let rest = sweep(names.drop_first(), zs1, now);
                    Sweep {
                        count: s1.n + rest.count,
                        zs: rest.zs,
                        pushes: s1.pushes + rest.pushes,
                        ok: rest.ok,
                    }
                }
            },
        }
    }
}

/// The content of list `k` after performing `pushes` in order on `base`.
pub open spec fn pushed(
    pushes: Seq<(Seq<char>, Seq<char>)>,
    k: Seq<char>,
    base: Seq<Seq<char>>,
) -> Seq<Seq<char>>
    decreases pushes.len(),
{
    if pushes.len() == 0 {
        base
    } else {
        pushed(
            pushes.drop_first(),
            k,
            if pushes[0].0 == k {
                seq![pushes[0].1] + base
            } else {
                base
            },
        )
    }
}

proof fn lemma_pushed_concat(
    a: Seq<(Seq<char>, Seq<char>)>,
    b: Seq<(Seq<char>, Seq<char>)>,
    k: Seq<char>,
    base: Seq<Seq<char>>,
)
    ensures
        pushed(a + b, k, base) == pushed(b, k, pushed(a, k, base)),
    decreases a.len(),
{
    if a.len() == 0 {
        assert(a + b =~= b);
    } else {
        assert((a + b)[0] == a[0]);
        assert((a + b).drop_first() =~= a.drop_first() + b);
        lemma_pushed_concat(
            a.drop_first(),
            b,
            k,
            if a[0].0 == k {
                seq![a[0].1] + base
            } else {
                base
            },
        );
    }
}

proof fn lemma_first_bad_from_range(z: Seq<(i64, Seq<char>)>, bn: int, i: int)
    requires
        0 <= i <= bn,
    ensures
        i <= first_bad_from(z, bn, i) <= bn,
    decreases bn - i,
{
    if i < bn && p_job(z[i].1) is Some {
        lemma_first_bad_from_range(z, bn, i + 1);
    }
}

proof fn lemma_first_bad_step(z: Seq<(i64, Seq<char>)>, bn: int, i: int)
    requires
        0 <= i <= bn,
        forall|m: int| 0 <= m < i ==> p_job(z[m].1) is Some,
    ensures
        first_bad(z, bn) == first_bad_from(z, bn, i),
    decreases i,
{
    if i > 0 {
        lemma_first_bad_step(z, bn, i - 1);
        assert(first_bad_from(z, bn, i - 1) == first_bad_from(z, bn, i));
    }
}


// ---------------------------------------------------------------------------
// What a periodic sweep does, as one specification value
// ---------------------------------------------------------------------------

/// A periodic member the sweep can fire: it decodes, and the cron
/// collaborator can schedule its expression after `now`.
pub open spec fn p_ok(m: Seq<char>, now: int) -> bool {
    &&& p_pjob(m) is Some
    &&& cron_next(p_pjob(m)->Some_0.cron, now) is Some
}

/// The next fire time of a fireable member.
pub open spec fn p_next(m: Seq<char>, now: int) -> int {
    cron_next(p_pjob(m)->Some_0.cron, now)->Some_0
}

/// Index of the first due periodic entry the sweep cannot fire, or the
/// batch size.
pub open spec fn p_first_bad_from(z: Seq<(i64, Seq<char>)>, now: int, bn: int, i: int) -> int
    decreases bn - i,
    when i <= bn
{
    if i >= bn {
        bn
    } else if !p_ok(z[i].1, now) {
        i
    } else {
        p_first_bad_from(z, now, bn, i + 1)
    }
}

proof fn lemma_p_first_bad_from_range(z: Seq<(i64, Seq<char>)>, now: int, bn: int, i: int)
    requires
        0 <= i <= bn,
    ensures
        i <= p_first_bad_from(z, now, bn, i) <= bn,
    decreases bn - i,
{
    if i < bn && p_ok(z[i].1, now) {
        lemma_p_first_bad_from_range(z, now, bn, i + 1);
    }
}

proof fn lemma_p_first_bad_step(z: Seq<(i64, Seq<char>)>, now: int, bn: int, i: int)
    requires
        0 <= i <= bn,
        forall|m: int| 0 <= m < i ==> p_ok(z[m].1, now),
    ensures
        p_first_bad_from(z, now, bn, 0) == p_first_bad_from(z, now, bn, i),
    decreases i,
{
    if i > 0 {
        lemma_p_first_bad_step(z, now, bn, i - 1);
    }
}

/// The job a fired periodic entry enqueues, under the given id at `now`.
pub open spec fn fired_job(m: Seq<char>, jid: Seq<char>, now: int) -> JobV {
    let pj = p_pjob(m)->Some_0;
    JobV {
        class: pj.class,
        queue: pj.queue,
        args: pj.args,
        jid,
        created_at: now,
        enqueued_at: now,
        retry: RetryPolicy::Default,
        retry_count: 0,
        unique_for: None,
    }
}

/// The ready-list pushes firing the first `upto` due periodic entries
/// makes, with ids drawn in order from a source at counter `next0`.
pub open spec fn peri_pushes(
    z: Seq<(i64, Seq<char>)>,
    now: int,
    upto: int,
    prefix: Seq<char>,
    next0: int,
) -> Seq<(Seq<char>, Seq<char>)> {
    Seq::new(
        upto as nat,
        |i: int|
            (
                queue_key(p_pjob(z[i].1)->Some_0.queue),
                enc_job(fired_job(z[i].1, jid_str(prefix, next0 + i), now)),
            ),
    )
}

/// The periodic set after the first `upto` due entries are re-scored to
/// their next fire times, in order.
pub open spec fn peri_z(pz: Seq<(i64, Seq<char>)>, now: int, upto: int) -> Seq<(i64, Seq<char>)>
    decreases upto,
{
    if upto <= 0 {
        pz
    } else {
        let prev = peri_z(pz, now, upto - 1);
        let m = pz[upto - 1].1;
        crate::store::z_insert(crate::store::z_remove(prev, m), p_next(m, now) as i64, m)
    }
}

/// After a periodic sweep at `now`, the `i`-th observed entry has been
/// re-scored to its cron expression's next fire time.
pub open spec fn rescored(pz: Seq<(i64, Seq<char>)>, zv: Seq<(i64, Seq<char>)>, i: int, now: int) -> bool {
    &&& p_pjob(pz[i].1) is Some
    &&& cron_next(p_pjob(pz[i].1)->Some_0.cron, now) is Some
    &&& crate::store::z_score(zv, pz[i].1) == Some(p_next(pz[i].1, now) as i64)
}


/// A list no push targets is left exactly as it was.
pub proof fn lemma_pushed_other(
    pushes: Seq<(Seq<char>, Seq<char>)>,
    k: Seq<char>,
    base: Seq<Seq<char>>,
)
    requires
        forall|i: int| 0 <= i < pushes.len() ==> (#[trigger] pushes[i]).0 != k,
    ensures
        pushed(pushes, k, base) == base,
    decreases pushes.len(),
{
    if pushes.len() > 0 {
        assert forall|i: int| 0 <= i < pushes.drop_first().len() implies (#[trigger] pushes.drop_first()[i]).0 != k by {
            assert(pushes.drop_first()[i] == pushes.subrange(1, pushes.len() as int)[i]);
        }
        lemma_pushed_other(pushes.drop_first(), k, base);
    }
}

/// A periodic member the sweep did not fire keeps its score (and so its
/// membership) across the re-scoring of the fired ones.
pub proof fn lemma_peri_z_score_other(
    pz: Seq<(i64, Seq<char>)>,
    now: int,
    upto: int,
    m: Seq<char>,
)
    requires
        0 <= upto <= pz.len(),
        forall|i: int| 0 <= i < upto ==> pz[i].1 != m,
    ensures
        crate::store::z_score(peri_z(pz, now, upto), m) == crate::store::z_score(pz, m),
    decreases upto,
{
    if upto > 0 {
        lemma_peri_z_score_other(pz, now, upto - 1, m);
        let prev = peri_z(pz, now, upto - 1);
        let m2 = pz[upto - 1].1;
        crate::store::lemma_z_score_remove_other(prev, m2, m);
        crate::store::lemma_z_score_insert_other(
            crate::store::z_remove(prev, m2),
            (p_next(m2, now) as i64),
            m2,
            m,
        );
    }
}

/// The promoter.  It holds no connection of its own: the store handle and
/// the clock come in with every sweep.
pub struct Scheduled {
}

impl Scheduled {
    pub fn new() -> (r: Scheduled) {
        Scheduled {  }
    }

    /// Move one entry out of `w` and, if this promoter won the removal,
    /// push the decoded job onto its ready queue.  Promoting an entry that
    /// is no longer present is a no-op, not an error.  An entry that does
    /// not decode is moved to the dead-letter list, where it stays
    /// inspectable, and reported as malformed.
    pub fn promote_one(&self, redis: &mut RedisState, w: ZSetKey, member: &String) -> (r: Result<
        bool,
        JobError,
    >)
        requires
            old(redis).wf(),
        ensures
            final(redis).wf(),
            final(redis).locks_same(*old(redis)),
            final(redis).zsets_same_except(*old(redis), w),
            final(redis).zv(w) == z_remove(old(redis).zv(w), member@),
            (match r {
                Ok(true) => z_has(old(redis).zv(w), member@) && (match p_job(member@) {
                    Some(j) => final(redis).list_at(queue_key(j.queue)) == seq![enc_job(j)]
                        + old(redis).list_at(queue_key(j.queue)) && final(redis).lists_same_except(
                        *old(redis),
                        queue_key(j.queue),
                    ),
                    None => false,
                }),
                Ok(false) => !z_has(old(redis).zv(w), member@) && final(redis).lists_same(
                    *old(redis),
                ) && final(redis).zsets_same(*old(redis)),
                Err(e) => e == JobError::MalformedJob && p_job(member@) is None && z_has(
                    old(redis).zv(w),
                    member@,
                ) && final(redis).list_at(dead_key()) == seq![member@] + old(redis).list_at(
                    dead_key(),
                ) && final(redis).lists_same_except(*old(redis), dead_key()),
            }),
    {
        if redis.zrem(w, member) {
            match UnitOfWork::from_job_string(member.clone()) {
                Ok(work) => {
                    work.enqueue_direct(redis);
                    proof {
                        assert(work.queue@ == p_job(member@)->Some_0.queue);
                    }
                    Ok(true)
                },
                Err(e) => {
                    let dk = dead_key_x();
                    redis.lpush(&dk, member.clone());
                    Err(e)
                },
            }
        } else {
            proof {
                crate::store::lemma_z_remove_absent_pub(old(redis).zv(w), member@);
            }
            Ok(false)
        }
    }

    /// Sweep one set: observe its due batch and promote each entry in
    /// order, stopping at (and dead-lettering) the first that does not
    /// decode.
    #[verifier::loop_isolation(false)]
    #[verifier::rlimit(100)]
    #[verifier::spinoff_prover]
    fn sweep_one(&self, redis: &mut RedisState, w: ZSetKey, now: i64) -> (r: Result<
        usize,
        JobError,
    >)
        requires
            old(redis).wf(),
        ensures
            final(redis).wf(),
            final(redis).locks_same(*old(redis)),
            final(redis).zsets_same_except(*old(redis), w),
            ({
                let s1 = sweep_set(old(redis).zv(w), now as int);
                &&& (r is Ok <==> s1.ok)
                &&& (match r {
                    Ok(n) => n == s1.n,
                    Err(e) => e == JobError::MalformedJob,
                })
                &&& final(redis).zv(w) == s1.z
                &&& (forall|k: Seq<char>|
                    final(redis).list_at(k) == pushed(s1.pushes, k, old(redis).list_at(k)))
            }),
    {
        let batch = redis.zrangebyscore_limit(w, now, PROMOTE_BATCH);
        let bn = batch.len();
        let ghost pz = redis.zv(w);
        let ghost s1 = sweep_set(pz, now as int);
        proof {
            crate::store::lemma_due_n_nonneg(pz, now);
            crate::store::lemma_due_n_le_len(pz, now);
            crate::store::lemma_wf_zv(*redis, w);
            assert(strs_v(batch@).len() == batch@.len());
            assert(bn == batch_n(pz, now as int));
            assert(pz.skip(0) =~= pz);
            assert forall|m2: int| 0 <= m2 < bn implies pz[m2].1 == batch@[m2]@ by {
                assert(strs_v(batch@)[m2] == batch@[m2]@);
            }
            assert(s1.pushes.skip(0) =~= s1.pushes);
            if first_bad(pz, bn as int) == bn as int {
                assert(s1.pushes.len() == bn as int);
            } else {
                lemma_first_bad_from_range(pz, bn as int, 0);
                assert(s1.pushes.len() == first_bad(pz, bn as int) + 1);
            }
        }
        let mut bi: usize = 0;
        while bi < bn
            invariant
                bi <= bn,
                bn == batch@.len(),
                bn <= pz.len(),
                redis.wf(),
                redis.locks_same(*old(redis)),
                redis.zsets_same_except(*old(redis), w),
                redis.zv(w) == pz.skip(bi as int),
                z_distinct(pz),
                forall|m2: int| 0 <= m2 < bn ==> pz[m2].1 == batch@[m2]@,
                forall|m: int| 0 <= m < bi ==> p_job(pz[m].1) is Some,
                bi <= s1.pushes.len(),
                forall|k: Seq<char>|
                    pushed(s1.pushes, k, old(redis).list_at(k)) == pushed(
                        s1.pushes.skip(bi as int),
                        k,
                        redis.list_at(k),
                    ),
            decreases bn - bi,
        {
            let ghost zcur = redis.zv(w);
            let ghost pre_step = *redis;
            proof {
                assert(zcur[0] == pz[bi as int]) by {
                    assert(pz.skip(bi as int)[0] == pz.subrange(bi as int, pz.len() as int)[0]);
                }
                assert(z_has(zcur, batch@[bi as int]@)) by {
                    assert(0 <= 0 < zcur.len() && zcur[0].1 == batch@[bi as int]@);
                }
                lemma_first_bad_step(pz, bn as int, bi as int);
                lemma_first_bad_from_range(pz, bn as int, bi as int);
            }
            match self.promote_one(redis, w, &batch[bi]) {
                Ok(moved) => {
                    proof {
                        assert(moved);
                        crate::store::lemma_z_remove_head(zcur, batch@[bi as int]@);
                        assert(zcur.drop_first() =~= pz.skip(bi as int + 1));
                        lemma_first_bad_step(pz, bn as int, bi as int + 1);
                        lemma_first_bad_from_range(pz, bn as int, bi as int + 1);
                        let fb = first_bad(pz, bn as int);
                        assert(fb >= bi as int + 1);
                        assert(bi as int + 1 <= s1.pushes.len()) by {
                            if fb == bn as int {
                                assert(s1.pushes.len() == bn as int);
                            } else {
                                assert(s1.pushes.len() == fb + 1);
                            }
                        }
                        let j = p_job(pz[bi as int].1)->Some_0;
                        assert(s1.pushes[bi as int] == (queue_key(j.queue), enc_job(j))) by {
                            if fb == bn as int {
                                assert(s1.pushes == batch_pushes(pz, bn as int));
                            } else {
                                assert(s1.pushes[bi as int] == batch_pushes(pz, fb)[bi as int]);
                            }
                        }
                        let rem = s1.pushes.skip(bi as int);
                        assert(rem[0] == s1.pushes[bi as int]) by {
                            assert(s1.pushes.skip(bi as int)[0] == s1.pushes.subrange(
                                bi as int,
                                s1.pushes.len() as int,
                            )[0]);
                        }
                        assert(rem.drop_first() =~= s1.pushes.skip(bi as int + 1));
                        assert forall|k: Seq<char>|
                            pushed(s1.pushes, k, old(redis).list_at(k)) == pushed(
                                s1.pushes.skip(bi as int + 1),
                                k,
                                redis.list_at(k),
                            ) by {
                            assert(pushed(rem, k, pre_step.list_at(k)) == pushed(
                                rem.drop_first(),
                                k,
                                if rem[0].0 == k {
                                    seq![rem[0].1] + pre_step.list_at(k)
                                } else {
                                    pre_step.list_at(k)
                                },
                            ));
                            assert(redis.list_at(k) == (if s1.pushes[bi as int].0 == k {
                                seq![s1.pushes[bi as int].1] + pre_step.list_at(k)
                            } else {
                                pre_step.list_at(k)
                            }));
                        }
                    }
                },
                Err(e) => {
                    proof {
                        crate::store::lemma_z_remove_head(zcur, batch@[bi as int]@);
                        assert(zcur.drop_first() =~= pz.skip(bi as int + 1));
                        let fb = first_bad(pz, bn as int);
                        assert(fb == bi as int);
                        assert(!s1.ok);
                        assert(s1.z == pz.skip(bi as int + 1));
                        assert(s1.pushes == batch_pushes(pz, bi as int) + seq![
                            (dead_key(), pz[bi as int].1),
                        ]);
                        assert(s1.pushes.len() == bi as int + 1);
                        assert(s1.pushes[bi as int] == (dead_key(), pz[bi as int].1)) by {
                            assert(s1.pushes[bi as int] == seq![(dead_key(), pz[bi as int].1)][0]);
                        }
                        let rem = s1.pushes.skip(bi as int);
                        assert(rem =~= seq![(dead_key(), pz[bi as int].1)]);
                        assert(rem.drop_first() =~= Seq::<(Seq<char>, Seq<char>)>::empty());
                        assert forall|k: Seq<char>|
                            redis.list_at(k) == pushed(s1.pushes, k, old(redis).list_at(k)) by {
                            assert(pushed(rem, k, pre_step.list_at(k)) == pushed(
                                rem.drop_first(),
                                k,
                                if rem[0].0 == k {
                                    seq![rem[0].1] + pre_step.list_at(k)
                                } else {
                                    pre_step.list_at(k)
                                },
                            ));
                            assert(redis.list_at(k) == (if dead_key() == k {
                                seq![pz[bi as int].1] + pre_step.list_at(k)
                            } else {
                                pre_step.list_at(k)
                            }));
                        }
                    }
                    return Err(e);
                },
            }
            bi = bi + 1;
        }
        proof {
            lemma_first_bad_step(pz, bn as int, bn as int);
            assert(first_bad(pz, bn as int) == bn as int);
            assert(s1.ok);
            assert(s1.pushes.skip(bn as int) =~= Seq::<(Seq<char>, Seq<char>)>::empty());
        }
        Ok(bn)
    }

    /// One promotion sweep: for each named set, observe the due batch and
    /// promote each entry.  Returns the number of entries observed.  The
    /// result, the sets after, and every ready-list push are exactly what
    /// the `sweep` function gives; on an entry that does not decode the
    /// sweep stops with `MalformedJob`, the entry dead-lettered and
    /// everything promoted before it kept.  The observed count is returned
    /// in a machine word, which bounds how many set names one call takes.
    #[verifier::loop_isolation(false)]
    pub fn enqueue_jobs(
        &self,
        redis: &mut RedisState,
        now: i64,
        sorted_sets: &Vec<String>,
    ) -> (r: Result<usize, JobError>)
        requires
            old(redis).wf(),
            sorted_sets@.len() * 100 <= usize::MAX,
        ensures
            final(redis).wf(),
            final(redis).locks_same(*old(redis)),
            ({
                let out = sweep(strs_of(sorted_sets@), zs_of(*old(redis)), now as int);
                &&& (r is Ok <==> out.ok)
                &&& (match r {
                    Ok(n) => n == out.count,
                    Err(e) => e == JobError::MalformedJob,
                })
                &&& (forall|w: ZSetKey| final(redis).zv(w) == zs_at(out.zs, w))
                &&& (forall|k: Seq<char>|
                    final(redis).list_at(k) == pushed(out.pushes, k, old(redis).list_at(k)))
            }),
    {
        let ghost names = strs_of(sorted_sets@);
        let ghost out_full = sweep(names, zs_of(*old(redis)), now as int);
        proof {
            lemma_sweep_count_bound(names, zs_of(*old(redis)), now as int);
        }
        let mut n: usize = 0;
        let mut si: usize = 0;
        let ns = sorted_sets.len();
        proof {
            assert(names.skip(0) =~= names);
        }
        while si < ns
            invariant
                si <= ns,
                ns == sorted_sets@.len(),
                n <= 100 * si,
                redis.wf(),
                redis.locks_same(*old(redis)),
                ({
                    let rest = sweep(names.skip(si as int), zs_of(*redis), now as int);
                    &&& out_full.ok == rest.ok
                    &&& out_full.zs == rest.zs
                    &&& out_full.count == n + rest.count
                    &&& (forall|k: Seq<char>|
                        pushed(out_full.pushes, k, old(redis).list_at(k)) == pushed(
                            rest.pushes,
                            k,
                            redis.list_at(k),
                        ))
                }),
            decreases ns - si,
        {
            let ghost pre = *redis;
            let ghost rest_pre = sweep(names.skip(si as int), zs_of(pre), now as int);
            proof {
                assert(names.skip(si as int)[0] == names[si as int]) by {
                    assert(names.skip(si as int)[0] == names.subrange(
                        si as int,
                        names.len() as int,
                    )[0]);
                }
                assert(names.skip(si as int).drop_first() =~= names.skip(si as int + 1));
                assert(names[si as int] == sorted_sets@[si as int]@);
            }
            let wopt = zkey_of_x(&sorted_sets[si]);
            match wopt {
                None => {
                },
                Some(w) => {
                    let ghost s1 = sweep_set(zs_at(zs_of(pre), w), now as int);
                    proof {
                        assert(zs_at(zs_of(pre), w) == pre.zv(w));
                        lemma_sweep_set_count(pre.zv(w), now as int);
                    }
                    match self.sweep_one(redis, w, now) {
                        Ok(bn) => {
                            proof {
                                assert(zs_of(*redis) =~= zs_set(zs_of(pre), w, s1.z)) by {
                                    assert(redis.zv(ZSetKey::Scheduled) == zs_at(
                                        zs_set(zs_of(pre), w, s1.z),
                                        ZSetKey::Scheduled,
                                    ));
                                    assert(redis.zv(ZSetKey::Retry) == zs_at(
                                        zs_set(zs_of(pre), w, s1.z),
                                        ZSetKey::Retry,
                                    ));
                                    assert(redis.zv(ZSetKey::Periodic) == zs_at(
                                        zs_set(zs_of(pre), w, s1.z),
                                        ZSetKey::Periodic,
                                    ));
                                }
                                let rest_new = sweep(
                                    names.skip(si as int + 1),
                                    zs_of(*redis),
                                    now as int,
                                );
                                assert(rest_pre.count == s1.n + rest_new.count);
                                assert(rest_pre.pushes == s1.pushes + rest_new.pushes);
                                lemma_sweep_count_nonneg(
                                    names.skip(si as int + 1),
                                    zs_of(*redis),
                                    now as int,
                                );
                                assert forall|k: Seq<char>|
                                    pushed(out_full.pushes, k, old(redis).list_at(k)) == pushed(
                                        rest_new.pushes,
                                        k,
                                        redis.list_at(k),
                                    ) by {
                                    lemma_pushed_concat(
                                        s1.pushes,
                                        rest_new.pushes,
                                        k,
                                        pre.list_at(k),
                                    );
                                }
                            }
                            n = n + bn;
                        },
                        Err(e) => {
                            proof {
                                assert(zs_of(*redis) =~= zs_set(zs_of(pre), w, s1.z)) by {
                                    assert(redis.zv(ZSetKey::Scheduled) == zs_at(
                                        zs_set(zs_of(pre), w, s1.z),
                                        ZSetKey::Scheduled,
                                    ));
                                    assert(redis.zv(ZSetKey::Retry) == zs_at(
                                        zs_set(zs_of(pre), w, s1.z),
                                        ZSetKey::Retry,
                                    ));
                                    assert(redis.zv(ZSetKey::Periodic) == zs_at(
                                        zs_set(zs_of(pre), w, s1.z),
                                        ZSetKey::Periodic,
                                    ));
                                }
                                assert(!rest_pre.ok);
                                assert(rest_pre.zs == zs_of(*redis));
                                assert(rest_pre.pushes == s1.pushes);
                                assert forall|w2: ZSetKey|
                                    redis.zv(w2) == zs_at(out_full.zs, w2) by {
                                }
                            }
                            return Err(e);
                        },
                    }
                },
            }
            si = si + 1;
        }
        proof {
            assert(names.skip(ns as int) =~= Seq::<Seq<char>>::empty());
            let rest = sweep(names.skip(ns as int), zs_of(*redis), now as int);
            assert(rest.count == 0 && rest.ok && rest.pushes =~= Seq::<(Seq<char>, Seq<char>)>::empty());
            assert forall|w2: ZSetKey| redis.zv(w2) == zs_at(out_full.zs, w2) by {
            }
        }
        Ok(n)
    }

    /// One periodic sweep: observe the due batch of the periodic set; for
    /// each entry, recompute its next fire time from its cron expression,
    /// conditionally re-score the same member (a lost race is skipped), and
    /// when the update won, push the job the descriptor fires onto its
    /// ready queue under a fresh id.  Returns the number of entries
    /// observed.  An entry that does not decode, or whose expression the
    /// collaborator cannot schedule, stops the sweep before touching that
    /// entry: it stays in the set, inspectable, and everything fired before
    /// it is kept.
    #[verifier::loop_isolation(false)]
    #[verifier::rlimit(100)]
    #[verifier::spinoff_prover]
    pub fn enqueue_periodic_jobs(
        &self,
        redis: &mut RedisState,
        now: i64,
        jids: &mut JidSource,
    ) -> (r: Result<usize, JobError>)
        requires
            old(redis).wf(),
            0 <= now <= CRON_TS_MAX,
            old(jids).next < u64::MAX - 100,
        ensures
            final(redis).wf(),
            final(redis).locks_same(*old(redis)),
            final(redis).zsets_same_except(*old(redis), ZSetKey::Periodic),
            final(jids).prefix == old(jids).prefix,
            ({
                let pz = old(redis).zv(ZSetKey::Periodic);
                let bn = batch_n(pz, now as int);
                let fb = p_first_bad_from(pz, now as int, bn, 0);
                let pp = peri_pushes(pz, now as int, fb, old(jids).prefix@, old(jids).next as int);
                &&& (r is Ok <==> fb == bn)
                &&& (match r {
                    Ok(n) => n == bn,
                    Err(e) => e == JobError::MalformedJob,
                })
                &&& final(redis).zv(ZSetKey::Periodic) == peri_z(pz, now as int, fb)
                &&& final(jids).next == old(jids).next + fb
                &&& (forall|k: Seq<char>|
                    final(redis).list_at(k) == pushed(pp, k, old(redis).list_at(k)))
                &&& (forall|i: int| 0 <= i < fb ==> p_next(pz[i].1, now as int) > now)
                &&& (r is Ok ==> forall|i: int|
                    0 <= i < bn ==> rescored(pz, final(redis).zv(ZSetKey::Periodic), i, now as int))
            }),
    {
        let batch = redis.zrangebyscore_limit(ZSetKey::Periodic, now, PROMOTE_BATCH);
        let bn = batch.len();
        let ghost pz = redis.zv(ZSetKey::Periodic);
        let ghost fb = p_first_bad_from(pz, now as int, bn as int, 0);
        let ghost pp = peri_pushes(pz, now as int, fb, jids.prefix@, jids.next as int);
        let ghost next0 = jids.next;
        proof {
            crate::store::lemma_due_n_nonneg(pz, now);
            crate::store::lemma_due_n_le_len(pz, now);
            crate::store::lemma_wf_zv(*redis, ZSetKey::Periodic);
            lemma_p_first_bad_from_range(pz, now as int, bn as int, 0);
            assert(strs_v(batch@).len() == batch@.len());
            assert(bn == batch_n(pz, now as int));
            assert forall|m2: int| 0 <= m2 < bn implies pz[m2].1 == batch@[m2]@ by {
                assert(strs_v(batch@)[m2] == batch@[m2]@);
            }
            assert forall|m2: int| 0 <= m2 < bn implies crate::store::z_score(pz, pz[m2].1)
                == Some(pz[m2].0) by {
                crate::store::lemma_z_score_of_entry(pz, m2);
            }
            assert(pp.skip(0) =~= pp);
        }
        let mut bi: usize = 0;
        while bi < bn
            invariant
                bi <= bn,
                bn == batch@.len(),
                bn <= pz.len(),
                redis.wf(),
                redis.locks_same(*old(redis)),
                redis.zsets_same_except(*old(redis), ZSetKey::Periodic),
                jids.prefix == old(jids).prefix,
                jids.next == next0 + bi,
                forall|m2: int| 0 <= m2 < bn ==> pz[m2].1 == batch@[m2]@,
                forall|m: int| 0 <= m < bi ==> p_ok(pz[m].1, now as int),
                forall|m: int| 0 <= m < bi ==> p_next(pz[m].1, now as int) > now,
                bi <= fb,
                redis.zv(ZSetKey::Periodic) == peri_z(pz, now as int, bi as int),
                forall|k: Seq<char>|
                    pushed(pp, k, old(redis).list_at(k)) == pushed(
                        pp.skip(bi as int),
                        k,
                        redis.list_at(k),
                    ),
                forall|i: int| 0 <= i < bi ==> rescored(pz, redis.zv(ZSetKey::Periodic), i, now as int),
                forall|j: int|
                    bi <= j < bn ==> crate::store::z_score(redis.zv(ZSetKey::Periodic), pz[j].1)
                        == Some(pz[j].0),
                z_distinct(pz),
            decreases bn - bi,
        {
            let member = batch[bi].clone();
            proof {
                lemma_p_first_bad_step(pz, now as int, bn as int, bi as int);
            }
            let pj = match crate::periodic::PeriodicJob::from_periodic_job_string(
                member.clone(),
            ) {
                Ok(p) => p,
                Err(e) => {
                    proof {
                        assert(!p_ok(pz[bi as int].1, now as int));
                        assert(fb == bi as int);
                        assert(pp.skip(bi as int) =~= Seq::<(Seq<char>, Seq<char>)>::empty());
                    }
                    return Err(e);
                },
            };
            let next_at = match pj.next_fire_after(now) {
                Some(n2) => n2,
                None => {
                    proof {
                        assert(!p_ok(pz[bi as int].1, now as int));
                        assert(fb == bi as int);
                        assert(pp.skip(bi as int) =~= Seq::<(Seq<char>, Seq<char>)>::empty());
                    }
                    return Err(JobError::MalformedJob);
                },
            };
            proof {
                assert(p_ok(pz[bi as int].1, now as int));
                lemma_p_first_bad_step(pz, now as int, bn as int, bi as int + 1);
                lemma_p_first_bad_from_range(pz, now as int, bn as int, bi as int + 1);
                assert(fb >= bi as int + 1);
                assert(next_at as int == p_next(pz[bi as int].1, now as int));
            }
            let ghost zpre = redis.zv(ZSetKey::Periodic);
            proof {
                crate::store::lemma_z_score_has(zpre, pz[bi as int].1);
            }
            let ghost pjv = pj@;
            if pj.update(redis, &member, next_at) {
                let ghost zupd = redis.zv(ZSetKey::Periodic);
                proof {
                    crate::store::lemma_z_remove_not_has_pub(zpre, member@);
                    crate::store::lemma_z_score_insert_self(
                        crate::store::z_remove(zpre, member@),
                        next_at,
                        member@,
                    );
                    assert(zupd == peri_z(pz, now as int, bi as int + 1));
                    assert forall|j: int|
                        0 <= j < bn && j != bi as int implies crate::store::z_score(
                            zupd,
                            pz[j].1,
                        ) == crate::store::z_score(zpre, pz[j].1) by {
                        crate::store::lemma_z_score_remove_other(zpre, member@, pz[j].1);
                        crate::store::lemma_z_score_insert_other(
                            crate::store::z_remove(zpre, member@),
                            next_at,
                            member@,
                            pz[j].1,
                        );
                    }
                }
                let ghost pre_step = *redis;
                let jid = jids.new_jid();
                let job = pj.into_job(jid, now);
                let work = UnitOfWork::from_job(job);
                work.enqueue_direct(redis);
                proof {
                    assert(redis.zv(ZSetKey::Periodic) == zupd);
                    assert(crate::store::z_score(zupd, pz[bi as int].1) == Some(next_at));
                    assert(p_pjob(pz[bi as int].1) == Some(pjv));
                    assert(rescored(pz, zupd, bi as int, now as int));
                    assert forall|i: int| 0 <= i < bi implies rescored(
                        pz,
                        zupd,
                        i,
                        now as int,
                    ) by {
                        assert(rescored(pz, zpre, i, now as int));
                        assert(crate::store::z_score(zupd, pz[i].1) == crate::store::z_score(
                            zpre,
                            pz[i].1,
                        ));
                    }
                    assert(work.job@ == fired_job(
                        pz[bi as int].1,
                        jid_str(old(jids).prefix@, next0 as int + bi as int),
                        now as int,
                    ));
                    assert(pp[bi as int] == (
                        queue_key(work.job@.queue),
                        enc_job(work.job@),
                    ));
                    let rem = pp.skip(bi as int);
                    assert(rem[0] == pp[bi as int]) by {
                        assert(pp.skip(bi as int)[0] == pp.subrange(
                            bi as int,
                            pp.len() as int,
                        )[0]);
                    }
                    assert(rem.drop_first() =~= pp.skip(bi as int + 1));
                    assert forall|k: Seq<char>|
                        pushed(pp, k, old(redis).list_at(k)) == pushed(
                            pp.skip(bi as int + 1),
                            k,
                            redis.list_at(k),
                        ) by {
                        assert(pushed(rem, k, pre_step.list_at(k)) == pushed(
                            rem.drop_first(),
                            k,
                            if rem[0].0 == k {
                                seq![rem[0].1] + pre_step.list_at(k)
                            } else {
                                pre_step.list_at(k)
                            },
                        ));
                        assert(redis.list_at(k) == (if pp[bi as int].0 == k {
                            seq![pp[bi as int].1] + pre_step.list_at(k)
                        } else {
                            pre_step.list_at(k)
                        }));
                    }
                }
            }
            bi = bi + 1;
        }
        proof {
            lemma_p_first_bad_step(pz, now as int, bn as int, bn as int);
            assert(fb == bn as int);
            assert(pp.skip(bn as int) =~= Seq::<(Seq<char>, Seq<char>)>::empty());
        }
        Ok(bn)
    }
}

proof fn lemma_sweep_set_count(z: Seq<(i64, Seq<char>)>, now: int)
    ensures
        0 <= sweep_set(z, now).n <= 100,
{
    crate::store::lemma_due_n_nonneg(z, now as i64);
}

proof fn lemma_sweep_count_nonneg(names: Seq<Seq<char>>, zs: Zs, now: int)
    ensures
        sweep(names, zs, now).count >= 0,
    decreases names.len(),
{
    if names.len() > 0 {
        match zkey_of(names[0]) {
            None => {
                lemma_sweep_count_nonneg(names.drop_first(), zs, now);
            },
            Some(w) => {
                lemma_sweep_set_count(zs_at(zs, w), now);
                let s1 = sweep_set(zs_at(zs, w), now);
                if s1.ok {
                    lemma_sweep_count_nonneg(names.drop_first(), zs_set(zs, w, s1.z), now);
                }
            },
        }
    }
}

proof fn lemma_sweep_count_bound(names: Seq<Seq<char>>, zs: Zs, now: int)
    ensures
        0 <= sweep(names, zs, now).count <= 100 * names.len(),
    decreases names.len(),
{
    if names.len() > 0 {
        match zkey_of(names[0]) {
            None => {
                lemma_sweep_count_bound(names.drop_first(), zs, now);
            },
            Some(w) => {
                lemma_sweep_set_count(zs_at(zs, w), now);
                let s1 = sweep_set(zs_at(zs, w), now);
                if s1.ok {
                    lemma_sweep_count_bound(names.drop_first(), zs_set(zs, w, s1.z), now);
                }
            },
        }
    }
}

} // verus!
