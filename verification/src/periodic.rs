//! Periodic (cron-scheduled) jobs.
//!
//! A periodic job descriptor carries a cron expression, a name and a job
//! template.  It lives as a member of the `periodic` sorted set, scored by
//! its next fire time; after every promotion the promoter recomputes the
//! next fire time and re-scores the same member, so recurrence is an
//! artifact of re-insertion, not of a separate daemon.  The cron expression
//! itself is evaluated by an outside collaborator: the engine only needs
//! "given a cron expression and a reference time, the next fire time".
use crate::JobError;
use crate::codec::{
    Arg, ArgV, args_view, enc_args, enc_str, p_args, p_lit, p_str, push_args, push_lit,
    push_str_enc, str_to_chars, string_from_chars, x_args, x_lit, x_str,
};
use crate::job::{Job, RetryPolicy};
use crate::store::{RedisState, ZSetKey};
use vstd::prelude::*;

verus! {

/// What the cron collaborator answers for an expression and a reference
/// time: the next matching UTC timestamp, a function of the two alone.
pub uninterp spec fn cron_next(expr: Seq<char>, ts: int) -> Option<int>;

/// Greatest reference time handed to the cron collaborator: the first
/// second of year 2100, the last year its schedule data covers.  The bound
/// also keeps the search's one-second step far from the calendar maximum at
/// which the underlying date arithmetic aborts instead of returning.
pub const CRON_TS_MAX: i64 = 4102444800;

/// Relies on `cron::Schedule::from_str` and `Schedule::after` (with
/// `chrono::DateTime::from_timestamp` converting the reference time): for a
/// well-formed expression the iterator yields the next matching UTC time,
/// strictly after the given one; the answer depends on the expression and
/// the timestamp alone.  The search begins one second past the reference
/// time, and `chrono`'s addition aborts past its calendar maximum, so
/// reference times beyond `CRON_TS_MAX` are excluded.
#[verifier::external_body]
fn cron_next_after(expr: &str, ts: i64) -> (r: Option<i64>)
    requires
        0 <= ts <= CRON_TS_MAX,
    ensures
        (match r {
            Some(n) => cron_next(expr@, ts as int) == Some(n as int) && n > ts,
            None => cron_next(expr@, ts as int) is None,
        }),
{
    let schedule = match <cron::Schedule as core::str::FromStr>::from_str(expr) {
        Ok(s) => s,
        Err(_) => {
            return None;
        },
    };
    let dt = match chrono::DateTime::<chrono::Utc>::from_timestamp(ts, 0) {
        Some(d) => d,
        None => {
            return None;
        },
    };
    schedule.after(&dt).next().map(|d| d.timestamp())
}

/// A registered periodic job.
#[derive(Debug, Clone)]
pub struct PeriodicJob {
    pub name: String,
    pub cron: String,
    pub class: String,
    pub queue: String,
    pub args: Vec<Arg>,
}

/// Specification-level mirror of `PeriodicJob`.
pub struct PeriodicJobV {
    pub name: Seq<char>,
    pub cron: Seq<char>,
    pub class: Seq<char>,
    pub queue: Seq<char>,
    pub args: Seq<ArgV>,
}

impl View for PeriodicJob {
    type V = PeriodicJobV;

    open spec fn view(&self) -> PeriodicJobV {
        PeriodicJobV {
            name: self.name@,
            cron: self.cron@,
            class: self.class@,
            queue: self.queue@,
            args: args_view(self.args@),
        }
    }
}

/// The member string a periodic job is stored under.
pub open spec fn enc_pjob(p: PeriodicJobV) -> Seq<char> {
    "{\"name\":"@ + enc_str(p.name) + ",\"cron\":"@ + enc_str(p.cron) + ",\"class\":"@ + enc_str(
        p.class,
    ) + ",\"queue\":"@ + enc_str(p.queue) + ",\"args\":"@ + enc_args(p.args) + "}"@
}

/// Parse a whole member string as a periodic job descriptor.
pub open spec fn p_pjob(s: Seq<char>) -> Option<PeriodicJobV> {
    match p_lit(s, 0, "{\"name\":"@) {
        None => None,
        Some(i1) => match p_str(s, i1) {
            None => None,
            Some((name, i2)) => match p_lit(s, i2, ",\"cron\":"@) {
                None => None,
                Some(i3) => match p_str(s, i3) {
                    None => None,
                    Some((cron, i4)) => match p_lit(s, i4, ",\"class\":"@) {
                        None => None,
                        Some(i5) => match p_str(s, i5) {
                            None => None,
                            Some((class, i6)) => match p_lit(s, i6, ",\"queue\":"@) {
                                None => None,
                                Some(i7) => match p_str(s, i7) {
                                    None => None,
                                    Some((queue, i8)) => match p_lit(s, i8, ",\"args\":"@) {
                                        None => None,
                                        Some(i9) => match p_args(s, i9) {
                                            None => None,
                                            Some((args, i10)) => match p_lit(s, i10, "}"@) {
                                                None => None,
                                                Some(i11) => if i11 == s.len() {
                                                    Some(
                                                        PeriodicJobV {
                                                            name,
                                                            cron,
                                                            class,
                                                            queue,
                                                            args,
                                                        },
                                                    )
                                                } else {
                                                    None
                                                },
                                            },
                                        },
                                    },
                                },
                            },
                        },
                    },
                },
            },
        },
    }
}

fn x_pjob(s: &Vec<char>) -> (r: Option<PeriodicJob>)
    ensures
        (match (r, p_pjob(s@)) {
            (Some(p), Some(sp)) => p@ == sp,
            (None, None) => true,
            _ => false,
        }),
{
    let i1 = match x_lit(s, 0, "{\"name\":") {
        Some(i) => i,
        None => {
            return None;
        },
    };
    let (name, i2) = match x_str(s, i1) {
        Some(p) => p,
        None => {
            return None;
        },
    };
    let i3 = match x_lit(s, i2, ",\"cron\":") {
        Some(i) => i,
        None => {
            return None;
        },
    };
    let (cron, i4) = match x_str(s, i3) {
        Some(p) => p,
        None => {
            return None;
        },
    };
    let i5 = match x_lit(s, i4, ",\"class\":") {
        Some(i) => i,
        None => {
            return None;
        },
    };
    let (class, i6) = match x_str(s, i5) {
        Some(p) => p,
        None => {
            return None;
        },
    };
    let i7 = match x_lit(s, i6, ",\"queue\":") {
        Some(i) => i,
        None => {
            return None;
        },
    };
    let (queue, i8) = match x_str(s, i7) {
        Some(p) => p,
        None => {
            return None;
        },
    };
    let i9 = match x_lit(s, i8, ",\"args\":") {
        Some(i) => i,
        None => {
            return None;
        },
    };
    let (args, i10) = match x_args(s, i9) {
        Some(p) => p,
        None => {
            return None;
        },
    };
    let i11 = match x_lit(s, i10, "}") {
        Some(i) => i,
        None => {
            return None;
        },
    };
    if i11 == s.len() {
        Some(PeriodicJob { name, cron, class, queue, args })
    } else {
        None
    }
}

impl PeriodicJob {
    /// The canonical member string of this descriptor.
    pub fn serialize(&self) -> (r: String)
        ensures
            r@ == enc_pjob(self@),
    {
        let mut out: Vec<char> = Vec::new();
        push_lit(&mut out, "{\"name\":");
        push_str_enc(&mut out, &self.name);
        push_lit(&mut out, ",\"cron\":");
        push_str_enc(&mut out, &self.cron);
        push_lit(&mut out, ",\"class\":");
        push_str_enc(&mut out, &self.class);
        push_lit(&mut out, ",\"queue\":");
        push_str_enc(&mut out, &self.queue);
        push_lit(&mut out, ",\"args\":");
        push_args(&mut out, &self.args);
        push_lit(&mut out, "}");
        proof {
            assert(out@ =~= enc_pjob(self@));
        }
        string_from_chars(out)
    }

    /// Decode a stored member string.
    pub fn from_periodic_job_string(s: String) -> (r: Result<PeriodicJob, JobError>)
        ensures
            (match r {
                Ok(p) => p_pjob(s@) == Some(p@),
                Err(e) => p_pjob(s@) is None && e == JobError::MalformedJob,
            }),
    {
        let cs = str_to_chars(s.as_str());
        match x_pjob(&cs) {
            Some(p) => Ok(p),
            None => Err(JobError::MalformedJob),
        }
    }

    /// The next fire time of this descriptor after `ts`, from the cron
    /// collaborator.
    pub fn next_fire_after(&self, ts: i64) -> (r: Option<i64>)
        requires
            0 <= ts <= CRON_TS_MAX,
        ensures
            (match r {
                Some(n) => cron_next(self.cron@, ts as int) == Some(n as int) && n > ts,
                None => cron_next(self.cron@, ts as int) is None,
            }),
    {
        cron_next_after(self.cron.as_str(), ts)
    }

    /// Conditional re-score keyed by the original member string: remove it,
    /// and only if this instance won the removal, re-insert it under the
    /// new score.  A lost race is reported as `false` and changes nothing.
    pub fn update(&self, redis: &mut RedisState, member: &String, next_at: i64) -> (r: bool)
        requires
            old(redis).wf(),
        ensures
            final(redis).wf(),
            final(redis).lists_same(*old(redis)),
            final(redis).locks_same(*old(redis)),
            final(redis).zsets_same_except(*old(redis), ZSetKey::Periodic),
            r == crate::store::z_has(old(redis).zv(ZSetKey::Periodic), member@),
            r ==> final(redis).zv(ZSetKey::Periodic) == crate::store::z_insert(
                crate::store::z_remove(old(redis).zv(ZSetKey::Periodic), member@),
                next_at,
                member@,
            ),
            !r ==> final(redis).zv(ZSetKey::Periodic) == old(redis).zv(ZSetKey::Periodic),
    {
        if redis.zrem(ZSetKey::Periodic, member) {
            redis.zadd(ZSetKey::Periodic, next_at, member.clone());
            proof {
                crate::store::lemma_z_remove_not_has_pub(
                    old(redis).zv(ZSetKey::Periodic),
                    member@,
                );
                crate::store::lemma_z_remove_absent_pub(
                    crate::store::z_remove(old(redis).zv(ZSetKey::Periodic), member@),
                    member@,
                );
            }
            true
        } else {
            proof {
                crate::store::lemma_z_remove_absent_pub(
                    old(redis).zv(ZSetKey::Periodic),
                    member@,
                );
            }
            false
        }
    }

    /// The job this descriptor fires, under a fresh id at time `now`.
    pub fn into_job(self, jid: String, now: i64) -> (r: Job)
        ensures
            r.class@ == self.class@,
            r.queue@ == self.queue@,
            r.args == self.args,
            r.jid == jid,
            r.created_at == now,
            r.enqueued_at == now,
            r.retry == RetryPolicy::Default,
            r.retry_count == 0,
            r.unique_for is None,
    {
        Job {
            class: self.class,
            queue: self.queue,
            args: self.args,
            jid,
            created_at: now,
            enqueued_at: now,
            retry: RetryPolicy::Default,
            retry_count: 0,
            unique_for: None,
        }
    }
}

/// Start building a periodic job from a cron expression.
pub fn builder(cron: String) -> (r: PeriodicBuilder)
    ensures
        r.cron@ == cron@,
{
    PeriodicBuilder {
        cron,
        name: String::new(),
        queue: String::from_str("default"),
        args: Vec::new(),
    }
}

/// Builder for a periodic job registration.
pub struct PeriodicBuilder {
    pub cron: String,
    pub name: String,
    pub queue: String,
    pub args: Vec<Arg>,
}

impl PeriodicBuilder {
    pub fn name(self, name: String) -> (r: PeriodicBuilder)
        ensures
            r.name == name,
            r.cron == self.cron,
            r.queue == self.queue,
            r.args == self.args,
    {
        PeriodicBuilder { name, ..self }
    }

    pub fn queue(self, queue: String) -> (r: PeriodicBuilder)
        ensures
            r.queue == queue,
            r.cron == self.cron,
            r.name == self.name,
            r.args == self.args,
    {
        PeriodicBuilder { queue, ..self }
    }

    pub fn args(self, args: Vec<Arg>) -> (r: PeriodicBuilder)
        ensures
            r.args == args,
            r.cron == self.cron,
            r.name == self.name,
            r.queue == self.queue,
    {
        PeriodicBuilder { args, ..self }
    }

    /// Register the periodic job for `class`: score it into the periodic
    /// set at its first fire time after `now`.  An expression the cron
    /// collaborator cannot schedule is rejected.
    pub fn register(self, redis: &mut RedisState, class: String, now: i64) -> (r: Result<
        PeriodicJob,
        JobError,
    >)
        requires
            old(redis).wf(),
            0 <= now <= CRON_TS_MAX,
        ensures
            final(redis).wf(),
            final(redis).lists_same(*old(redis)),
            final(redis).locks_same(*old(redis)),
            final(redis).zsets_same_except(*old(redis), ZSetKey::Periodic),
            (match r {
                Ok(p) => ({
                    &&& p@.cron == self.cron@ && p@.name == self.name@ && p@.queue == self.queue@
                        && p@.class == class@ && p@.args == args_view(self.args@)
                    &&& cron_next(self.cron@, now as int) is Some
                    &&& final(redis).zv(ZSetKey::Periodic) == crate::store::z_insert(
                        crate::store::z_remove(
                            old(redis).zv(ZSetKey::Periodic),
                            enc_pjob(p@),
                        ),
                        cron_next(self.cron@, now as int)->Some_0 as i64,
                        enc_pjob(p@),
                    )
                }),
                Err(e) => e == JobError::MalformedJob && cron_next(self.cron@, now as int)
                    is None && final(redis).zsets_same(*old(redis)),
            }),
    {
        let pj = PeriodicJob {
            name: self.name,
            cron: self.cron,
            class,
            queue: self.queue,
            args: self.args,
        };
        match pj.next_fire_after(now) {
            Some(at) => {
                let wire = pj.serialize();
                redis.zadd(ZSetKey::Periodic, at, wire);
                Ok(pj)
            },
            None => Err(JobError::MalformedJob),
        }
    }
}

/// Administrative reset: clear the periodic set entirely.
pub fn destroy_all(redis: &mut RedisState)
    requires
        old(redis).wf(),
    ensures
        final(redis).wf(),
        final(redis).zv(ZSetKey::Periodic) == Seq::<(i64, Seq<char>)>::empty(),
        final(redis).zsets_same_except(*old(redis), ZSetKey::Periodic),
        final(redis).lists_same(*old(redis)),
        final(redis).locks_same(*old(redis)),
{
    redis.zclear(ZSetKey::Periodic);
}

} // verus!
