//! The job envelope: the canonical serializable record of one unit of work.
//!
//! A job's wire form is a JSON object with a fixed key order:
//! `class`, `queue`, `args`, `jid`, `created_at`, `enqueued_at`, `retry`,
//! `retry_count`, `unique_for`.  Timestamps are whole seconds since the
//! epoch.  `retry` is `null` (default policy), `false` (disabled) or a
//! count; `unique_for` is `null` or a number of seconds.  `serialize` and
//! `deserialize` are exact inverses of each other, which is proved in the
//! laws module.
use crate::codec::{
    Arg, ArgV, args_view, args_wf, enc_args, enc_int, enc_nat, enc_str, follows, is_digit,
    is_digit_x, lemma_follows_concat, lemma_p_args_complete, lemma_p_int_complete,
    lemma_p_str_complete, p_args, p_digits, p_int, p_lit, p_str, push_args, push_int, push_lit,
    push_nat, push_str_enc, str_to_chars, string_from_chars, x_args, x_digits, x_int, x_lit,
    x_str,
};
use crate::store::RedisState;
use vstd::prelude::*;

verus! {

/// Retry policy carried in the envelope.
#[derive(Debug, Clone, Copy, PartialEq, Eq, Structural)]
pub enum RetryPolicy {
    /// Use the engine's default budget.
    Default,
    /// Never retry.
    Disabled,
    /// Retry at most this many times.
    Limit(u32),
}

/// One unit of work, immutable once enqueued.
#[derive(Debug, Clone)]
pub struct Job {
    pub class: String,
    pub queue: String,
    pub args: Vec<Arg>,
    pub jid: String,
    pub created_at: i64,
    pub enqueued_at: i64,
    pub retry: RetryPolicy,
    pub retry_count: u32,
    pub unique_for: Option<u32>,
}

/// Specification-level mirror of `Job`.
pub struct JobV {
    pub class: Seq<char>,
    pub queue: Seq<char>,
    pub args: Seq<ArgV>,
    pub jid: Seq<char>,
    pub created_at: int,
    pub enqueued_at: int,
    pub retry: RetryPolicy,
    pub retry_count: int,
    pub unique_for: Option<int>,
}

impl View for Job {
    type V = JobV;

    open spec fn view(&self) -> JobV {
        JobV {
            class: self.class@,
            queue: self.queue@,
            args: args_view(self.args@),
            jid: self.jid@,
            created_at: self.created_at as int,
            enqueued_at: self.enqueued_at as int,
            retry: self.retry,
            retry_count: self.retry_count as int,
            unique_for: match self.unique_for {
                Some(n) => Some(n as int),
                None => None,
            },
        }
    }
}

// ---------------------------------------------------------------------------
// Wire encoding of the envelope
// ---------------------------------------------------------------------------

pub open spec fn enc_retry(r: RetryPolicy) -> Seq<char> {
    match r {
        RetryPolicy::Default => "null"@,
        RetryPolicy::Disabled => "false"@,
        RetryPolicy::Limit(n) => enc_nat(n as int),
    }
}

pub open spec fn enc_opt_nat(u: Option<int>) -> Seq<char> {
    match u {
        None => "null"@,
        Some(n) => enc_nat(n),
    }
}

/// The canonical wire form of a job.
pub open spec fn enc_job(j: JobV) -> Seq<char> {
    "{\"class\":"@ + enc_str(j.class) + ",\"queue\":"@ + enc_str(j.queue) + ",\"args\":"@
        + enc_args(j.args) + ",\"jid\":"@ + enc_str(j.jid) + ",\"created_at\":"@ + enc_int(
        j.created_at,
    ) + ",\"enqueued_at\":"@ + enc_int(j.enqueued_at) + ",\"retry\":"@ + enc_retry(j.retry)
        + ",\"retry_count\":"@ + enc_nat(j.retry_count) + ",\"unique_for\":"@ + enc_opt_nat(
        j.unique_for,
    ) + "}"@
}

// ---------------------------------------------------------------------------
// Wire parsing of the envelope
// ---------------------------------------------------------------------------

/// A decimal number that fits in `u32`.
pub open spec fn p_u32(s: Seq<char>, i: int) -> Option<(int, int)>
    recommends 0 <= i <= s.len(),
{
    if i < s.len() && is_digit(s[i]) {
        match p_digits(s, i, 0) {
            Some((m, j)) => if m <= u32::MAX as int {
                Some((m, j))
            } else {
                None
            },
            None => None,
        }
    } else {
        None
    }
}

pub open spec fn p_retry(s: Seq<char>, i: int) -> Option<(RetryPolicy, int)>
    recommends 0 <= i <= s.len(),
{
    match p_lit(s, i, "null"@) {
        Some(j) => Some((RetryPolicy::Default, j)),
        None => match p_lit(s, i, "false"@) {
            Some(j) => Some((RetryPolicy::Disabled, j)),
            None => match p_u32(s, i) {
                Some((n, j)) => Some((RetryPolicy::Limit(n as u32), j)),
                None => None,
            },
        },
    }
}

pub open spec fn p_opt_nat(s: Seq<char>, i: int) -> Option<(Option<int>, int)>
    recommends 0 <= i <= s.len(),
{
    match p_lit(s, i, "null"@) {
        Some(j) => Some((None, j)),
        None => match p_u32(s, i) {
            Some((n, j)) => Some((Some(n), j)),
            None => None,
        },
    }
}

/// Parse a whole wire string as a job; the entire input must be consumed.
pub open spec fn p_job(s: Seq<char>) -> Option<JobV> {
    match p_lit(s, 0, "{\"class\":"@) {
        None => None,
        Some(i1) => match p_str(s, i1) {
            None => None,
            Some((class, i2)) => match p_lit(s, i2, ",\"queue\":"@) {
                None => None,
                Some(i3) => match p_str(s, i3) {
                    None => None,
                    Some((queue, i4)) => match p_lit(s, i4, ",\"args\":"@) {
                        None => None,
                        Some(i5) => match p_args(s, i5) {
                            None => None,
                            Some((args, i6)) => match p_lit(s, i6, ",\"jid\":"@) {
                                None => None,
                                Some(i7) => match p_str(s, i7) {
                                    None => None,
                                    Some((jid, i8)) => match p_lit(s, i8, ",\"created_at\":"@) {
                                        None => None,
                                        Some(i9) => match p_int(s, i9) {
                                            None => None,
                                            Some((created, i10)) => p_job_tail(
                                                s,
                                                i10,
                                                class,
                                                queue,
                                                args,
                                                jid,
                                                created,
                                            ),
                                        },
                                    },
                                },
                            },
                        },
                    },
                },
            },
        },
    }
}

/// The back half of the envelope, split out to keep each function readable.
pub open spec fn p_job_tail(
    s: Seq<char>,
    i: int,
    class: Seq<char>,
    queue: Seq<char>,
    args: Seq<ArgV>,
    jid: Seq<char>,
    created: int,
) -> Option<JobV>
    recommends 0 <= i <= s.len(),
{
    match p_lit(s, i, ",\"enqueued_at\":"@) {
        None => None,
        Some(i11) => match p_int(s, i11) {
            None => None,
            Some((enq, i12)) => match p_lit(s, i12, ",\"retry\":"@) {
                None => None,
                Some(i13) => match p_retry(s, i13) {
                    None => None,
                    Some((retry, i14)) => match p_lit(s, i14, ",\"retry_count\":"@) {
                        None => None,
                        Some(i15) => match p_u32(s, i15) {
                            None => None,
                            Some((rc, i16)) => match p_lit(s, i16, ",\"unique_for\":"@) {
                                None => None,
                                Some(i17) => match p_opt_nat(s, i17) {
                                    None => None,
                                    Some((uf, i18)) => match p_lit(s, i18, "}"@) {
                                        None => None,
                                        Some(i19) => if i19 == s.len() {
                                            Some(
                                                JobV {
                                                    class,
                                                    queue,
                                                    args,
                                                    jid,
                                                    created_at: created,
                                                    enqueued_at: enq,
                                                    retry,
                                                    retry_count: rc,
                                                    unique_for: uf,
                                                },
                                            )
                                        } else {
                                            None
                                        },
                                    },
                                },
                            },
                        },
                    },
                },
            },
        },
    }
}

// ---------------------------------------------------------------------------
// Executable parser pieces for the envelope
// ---------------------------------------------------------------------------

fn x_u32(s: &Vec<char>, i: usize) -> (r: Option<(u32, usize)>)
    requires
        i <= s@.len(),
    ensures
        (match (r, p_u32(s@, i as int)) {
            (Some((v, j)), Some((sv, sj))) => v as int == sv && j as int == sj && j <= s@.len(),
            (None, None) => true,
            _ => false,
        }),
{
    if i < s.len() && is_digit_x(s[i]) {
        match x_digits(s, i, 0) {
            Some((m, j)) => {
                if m <= 4294967295u64 {
                    Some((m as u32, j))
                } else {
                    None
                }
            },
            None => None,
        }
    } else {
        None
    }
}

fn x_retry(s: &Vec<char>, i: usize) -> (r: Option<(RetryPolicy, usize)>)
    requires
        i <= s@.len(),
    ensures
        (match (r, p_retry(s@, i as int)) {
            (Some((v, j)), Some((sv, sj))) => v == sv && j as int == sj && j <= s@.len(),
            (None, None) => true,
            _ => false,
        }),
{
    match x_lit(s, i, "null") {
        Some(j) => Some((RetryPolicy::Default, j)),
        None => match x_lit(s, i, "false") {
            Some(j) => Some((RetryPolicy::Disabled, j)),
            None => match x_u32(s, i) {
                Some((n, j)) => Some((RetryPolicy::Limit(n), j)),
                None => None,
            },
        },
    }
}

fn x_opt_nat(s: &Vec<char>, i: usize) -> (r: Option<(Option<u32>, usize)>)
    requires
        i <= s@.len(),
    ensures
        (match (r, p_opt_nat(s@, i as int)) {
            (Some((v, j)), Some((sv, sj))) => j as int == sj && j <= s@.len() && (match (v, sv) {
                (Some(a), Some(b)) => a as int == b,
                (None, None) => true,
                _ => false,
            }),
            (None, None) => true,
            _ => false,
        }),
{
    match x_lit(s, i, "null") {
        Some(j) => Some((None, j)),
        None => match x_u32(s, i) {
            Some((n, j)) => Some((Some(n), j)),
            None => None,
        },
    }
}

/// Parse a whole wire string as a job.
fn x_job(s: &Vec<char>) -> (r: Option<Job>)
    ensures
        (match (r, p_job(s@)) {
            (Some(j), Some(sj)) => j@ == sj,
            (None, None) => true,
            _ => false,
        }),
{
    let i1 = match x_lit(s, 0, "{\"class\":") {
        Some(i) => i,
        None => {
            return None;
        },
    };
    let (class, i2) = match x_str(s, i1) {
        Some(p) => p,
        None => {
            return None;
        },
    };
    let i3 = match x_lit(s, i2, ",\"queue\":") {
        Some(i) => i,
        None => {
            return None;
        },
    };
    let (queue, i4) = match x_str(s, i3) {
        Some(p) => p,
        None => {
            return None;
        },
    };
    let i5 = match x_lit(s, i4, ",\"args\":") {
        Some(i) => i,
        None => {
            return None;
        },
    };
    let (args, i6) = match x_args(s, i5) {
        Some(p) => p,
        None => {
            return None;
        },
    };
    let i7 = match x_lit(s, i6, ",\"jid\":") {
        Some(i) => i,
        None => {
            return None;
        },
    };
    let (jid, i8) = match x_str(s, i7) {
        Some(p) => p,
        None => {
            return None;
        },
    };
    let i9 = match x_lit(s, i8, ",\"created_at\":") {
        Some(i) => i,
        None => {
            return None;
        },
    };
    let (created, i10) = match x_int(s, i9) {
        Some(p) => p,
        None => {
            return None;
        },
    };
    let i11 = match x_lit(s, i10, ",\"enqueued_at\":") {
        Some(i) => i,
        None => {
            return None;
        },
    };
    let (enq, i12) = match x_int(s, i11) {
        Some(p) => p,
        None => {
            return None;
        },
    };
    let i13 = match x_lit(s, i12, ",\"retry\":") {
        Some(i) => i,
        None => {
            return None;
        },
    };
    let (retry, i14) = match x_retry(s, i13) {
        Some(p) => p,
        None => {
            return None;
        },
    };
    let i15 = match x_lit(s, i14, ",\"retry_count\":") {
        Some(i) => i,
        None => {
            return None;
        },
    };
    let (rc, i16) = match x_u32(s, i15) {
        Some(p) => p,
        None => {
            return None;
        },
    };
    let i17 = match x_lit(s, i16, ",\"unique_for\":") {
        Some(i) => i,
        None => {
            return None;
        },
    };
    let (uf, i18) = match x_opt_nat(s, i17) {
        Some(p) => p,
        None => {
            return None;
        },
    };
    let i19 = match x_lit(s, i18, "}") {
        Some(i) => i,
        None => {
            return None;
        },
    };
    if i19 == s.len() {
        Some(
            Job {
                class,
                queue,
                args,
                jid,
                created_at: created,
                enqueued_at: enq,
                retry,
                retry_count: rc,
                unique_for: uf,
            },
        )
    } else {
        None
    }
}

impl Job {
    /// The canonical wire string of this job.
    pub fn serialize(&self) -> (r: String)
        ensures
            r@ == enc_job(self@),
    {
        let mut out: Vec<char> = Vec::new();
        push_lit(&mut out, "{\"class\":");
        push_str_enc(&mut out, &self.class);
        push_lit(&mut out, ",\"queue\":");
        push_str_enc(&mut out, &self.queue);
        push_lit(&mut out, ",\"args\":");
        push_args(&mut out, &self.args);
        push_lit(&mut out, ",\"jid\":");
        push_str_enc(&mut out, &self.jid);
        push_lit(&mut out, ",\"created_at\":");
        push_int(&mut out, self.created_at);
        push_lit(&mut out, ",\"enqueued_at\":");
        push_int(&mut out, self.enqueued_at);
        push_lit(&mut out, ",\"retry\":");
        match &self.retry {
            RetryPolicy::Default => push_lit(&mut out, "null"),
            RetryPolicy::Disabled => push_lit(&mut out, "false"),
            RetryPolicy::Limit(n) => push_nat(&mut out, *n as u64),
        }
        push_lit(&mut out, ",\"retry_count\":");
        push_nat(&mut out, self.retry_count as u64);
        push_lit(&mut out, ",\"unique_for\":");
        match &self.unique_for {
            None => push_lit(&mut out, "null"),
            Some(n) => push_nat(&mut out, *n as u64),
        }
        push_lit(&mut out, "}");
        proof {
            assert(out@ =~= enc_job(self@));
        }
        string_from_chars(out)
    }

    /// Parse a wire string; structurally invalid input is a `MalformedJob`.
    pub fn deserialize(s: &str) -> (r: Result<Job, crate::JobError>)
        ensures
            (match r {
                Ok(j) => p_job(s@) == Some(j@),
                Err(e) => p_job(s@) is None && e == crate::JobError::MalformedJob,
            }),
    {
        let cs = str_to_chars(s);
        match x_job(&cs) {
            Some(j) => Ok(j),
            None => Err(crate::JobError::MalformedJob),
        }
    }
}


// ---------------------------------------------------------------------------
// Keys, fingerprint, unit of work
// ---------------------------------------------------------------------------

/// Redis key of the ready list for queue `name`.
pub open spec fn queue_key(name: Seq<char>) -> Seq<char> {
    "queue:"@ + name
}

/// Redis key of the unique-job lock for fingerprint `fp`.
pub open spec fn lock_key(fp: Seq<char>) -> Seq<char> {
    "unique:"@ + fp
}

/// Key of the terminal dead-letter list.
pub open spec fn dead_key() -> Seq<char> {
    "dead"@
}


/// A ready-queue key can never collide with the dead-letter key.
pub proof fn lemma_queue_key_not_dead(q: Seq<char>)
    ensures
        queue_key(q) != dead_key(),
{
    reveal_strlit("queue:");
    reveal_strlit("dead");
    assert(queue_key(q)[0] == 'q');
    assert(dead_key()[0] == 'd');
}

pub fn queue_key_x(name: &String) -> (r: String)
    ensures
        r@ == queue_key(name@),
{
    let mut out = str_to_chars("queue:");
    push_lit(&mut out, name.as_str());
    let r = string_from_chars(out);
    proof {
        assert(r@ =~= queue_key(name@));
    }
    r
}


pub fn lock_key_x(fp: &String) -> (r: String)
    ensures
        r@ == lock_key(fp@),
{
    let mut out = str_to_chars("unique:");
    push_lit(&mut out, fp.as_str());
    let r = string_from_chars(out);
    proof {
        assert(r@ =~= lock_key(fp@));
    }
    r
}

pub fn dead_key_x() -> (r: String)
    ensures
        r@ == dead_key(),
{
    String::from_str("dead")
}

/// FNV-1a over a character sequence (each character taken as its code).
pub open spec fn fnv_step(h: u64, c: char) -> u64 {
    (((h ^ ((c as u32) as u64)) as nat * 0x100000001b3nat) % 0x10000000000000000nat) as u64
}

pub open spec fn fnv1a(s: Seq<char>, h: u64) -> u64
    decreases s.len(),
{
    if s.len() == 0 {
        h
    } else {
        fnv1a(s.drop_first(), fnv_step(h, s[0]))
    }
}

/// What the uniqueness fingerprint is computed over: class, queue and the
/// canonical encoding of the arguments, independent of the job id.
pub open spec fn fp_seed(class: Seq<char>, queue: Seq<char>, args: Seq<ArgV>) -> Seq<char> {
    class + seq!['|'] + queue + seq!['|'] + enc_args(args)
}

pub open spec fn hex_digit(d: int) -> char {
    if d == 0 { '0' }
    else if d == 1 { '1' }
    else if d == 2 { '2' }
    else if d == 3 { '3' }
    else if d == 4 { '4' }
    else if d == 5 { '5' }
    else if d == 6 { '6' }
    else if d == 7 { '7' }
    else if d == 8 { '8' }
    else if d == 9 { '9' }
    else if d == 10 { 'a' }
    else if d == 11 { 'b' }
    else if d == 12 { 'c' }
    else if d == 13 { 'd' }
    else if d == 14 { 'e' }
    else { 'f' }
}

/// `k` hexadecimal digits of `n`, most significant first.
pub open spec fn hex_of(n: int, k: nat) -> Seq<char>
    decreases k,
{
    if k == 0 {
        Seq::empty()
    } else {
        hex_of(n / 16, (k - 1) as nat).push(hex_digit(n % 16))
    }
}

/// The stable uniqueness fingerprint of (class, queue, args).
pub open spec fn fp_of(class: Seq<char>, queue: Seq<char>, args: Seq<ArgV>) -> Seq<char> {
    hex_of(fnv1a(fp_seed(class, queue, args), 0xcbf29ce484222325u64) as int, 16)
}

fn hex_digit_x(d: u64) -> (c: char)
    requires
        d < 16,
    ensures
        c == hex_digit(d as int),
{
    if d == 0 { '0' }
    else if d == 1 { '1' }
    else if d == 2 { '2' }
    else if d == 3 { '3' }
    else if d == 4 { '4' }
    else if d == 5 { '5' }
    else if d == 6 { '6' }
    else if d == 7 { '7' }
    else if d == 8 { '8' }
    else if d == 9 { '9' }
    else if d == 10 { 'a' }
    else if d == 11 { 'b' }
    else if d == 12 { 'c' }
    else if d == 13 { 'd' }
    else if d == 14 { 'e' }
    else { 'f' }
}

fn push_hex(out: &mut Vec<char>, n: u64, k: usize)
    ensures
        final(out)@ == old(out)@ + hex_of(n as int, k as nat),
    decreases k,
{
    if k > 0 {
        push_hex(out, n / 16, k - 1);
        out.push(hex_digit_x(n % 16));
        assert(final(out)@ =~= old(out)@ + hex_of(n as int, k as nat));
    } else {
        assert(hex_of(n as int, 0) =~= Seq::<char>::empty());
        assert(final(out)@ =~= old(out)@);
    }
}

#[verifier::loop_isolation(false)]
fn fnv_over(s: &Vec<char>) -> (r: u64)
    ensures
        r == fnv1a(s@, 0xcbf29ce484222325u64),
{
    let mut h: u64 = 0xcbf29ce484222325u64;
    let mut i: usize = 0;
    let n = s.len();
    proof {
        assert(s@.skip(0) =~= s@);
    }
    while i < n
        invariant
            i <= n,
            fnv1a(s@, 0xcbf29ce484222325u64) == fnv1a(s@.skip(i as int), h),
        decreases n - i,
    {
        let c = s[i];
        let ghost h0 = h;
        proof {
            let t = s@.skip(i as int);
            assert(t[0] == s@[i as int]);
            assert(t.drop_first() =~= s@.skip(i as int + 1));
        }
        h = (h ^ ((c as u32) as u64)).wrapping_mul(0x100000001b3u64);
        proof {
            assert(h == fnv_step(h0, s@[i as int]));
        }
        i = i + 1;
    }
    proof {
        assert(s@.skip(n as int) =~= Seq::<char>::empty());
    }
    h
}

impl Job {
    /// The uniqueness fingerprint of this job, independent of its id.
    pub fn fingerprint(&self) -> (r: String)
        ensures
            r@ == fp_of(self.class@, self.queue@, args_view(self.args@)),
    {
        let mut seed = str_to_chars(self.class.as_str());
        seed.push('|');
        push_lit(&mut seed, self.queue.as_str());
        seed.push('|');
        push_args(&mut seed, &self.args);
        proof {
            assert(seed@ =~= fp_seed(self.class@, self.queue@, args_view(self.args@)));
        }
        let h = fnv_over(&seed);
        let mut out: Vec<char> = Vec::new();
        push_hex(&mut out, h, 16);
        string_from_chars(out)
    }
}

/// The envelope pairing a job with its destination queue; the unit that
/// crosses the store boundary.
#[derive(Debug, Clone)]
pub struct UnitOfWork {
    pub queue: String,
    pub job: Job,
}

impl UnitOfWork {
    pub fn from_job(job: Job) -> (r: UnitOfWork)
        ensures
            r.job == job,
            r.queue@ == job.queue@,
    {
        let queue = job.queue.clone();
        UnitOfWork { queue, job }
    }

    /// Decode a stored wire string into a unit of work.
    pub fn from_job_string(s: String) -> (r: Result<UnitOfWork, crate::JobError>)
        ensures
            (match r {
                Ok(u) => p_job(s@) == Some(u.job@) && u.queue@ == u.job.queue@,
                Err(e) => p_job(s@) is None && e == crate::JobError::MalformedJob,
            }),
    {
        match Job::deserialize(s.as_str()) {
            Ok(job) => Ok(UnitOfWork::from_job(job)),
            Err(e) => Err(e),
        }
    }

    /// Push this work onto the ready list of its queue.  This is the single
    /// write path to a ready queue, used by producers and by the promoter,
    /// so the on-wire form is identical regardless of origin.
    pub fn enqueue_direct(&self, redis: &mut RedisState)
        requires
            old(redis).wf(),
        ensures
            final(redis).wf(),
            final(redis).list_at(queue_key(self.queue@)) == seq![enc_job(self.job@)] + old(redis).list_at(queue_key(self.queue@)),
            final(redis).lists_same_except(*old(redis), queue_key(self.queue@)),
            final(redis).zsets_same(*old(redis)),
            final(redis).locks_same(*old(redis)),
    {
        let key = queue_key_x(&self.queue);
        let wire = self.job.serialize();
        redis.lpush(&key, wire);
    }
}


// ---------------------------------------------------------------------------
// Round trip: parsing inverts serialization
// ---------------------------------------------------------------------------

/// Values an envelope's fields can take on the wire.
pub open spec fn jv_wf(j: JobV) -> bool {
    &&& args_wf(j.args)
    &&& i64::MIN <= j.created_at <= i64::MAX
    &&& i64::MIN <= j.enqueued_at <= i64::MAX
    &&& 0 <= j.retry_count <= u32::MAX
    &&& (match j.unique_for {
        Some(n) => 0 <= n <= u32::MAX,
        None => true,
    })
}

proof fn lemma_p_u32_complete(s: Seq<char>, i: int, v: int)
    requires
        follows(s, i, enc_nat(v)),
        0 <= v <= u32::MAX,
        i + enc_nat(v).len() == s.len() || !is_digit(s[i + enc_nat(v).len()]),
    ensures
        p_u32(s, i) == Some((v, i + enc_nat(v).len())),
{
    crate::codec::lemma_enc_nat_digits_pub(v);
    assert(s[i + 0] == enc_nat(v)[0]);
    assert(is_digit(s[i]));
    crate::codec::lemma_p_digits_scan_pub(s, i, enc_nat(v), 0);
}

proof fn lemma_not_follows_null(s: Seq<char>, i: int)
    requires
        0 <= i < s.len(),
        s[i] != 'n',
    ensures
        p_lit(s, i, "null"@) is None,
{
    reveal_strlit("null");
    if follows(s, i, "null"@) {
        assert(s[i + 0] == "null"@[0]);
    }
}

proof fn lemma_not_follows_false(s: Seq<char>, i: int)
    requires
        0 <= i < s.len(),
        s[i] != 'f',
    ensures
        p_lit(s, i, "false"@) is None,
{
    reveal_strlit("false");
    if follows(s, i, "false"@) {
        assert(s[i + 0] == "false"@[0]);
    }
}

proof fn lemma_p_retry_complete(s: Seq<char>, i: int, r: RetryPolicy)
    requires
        follows(s, i, enc_retry(r)),
        i + enc_retry(r).len() == s.len() || !is_digit(s[i + enc_retry(r).len()]),
    ensures
        p_retry(s, i) == Some((r, i + enc_retry(r).len())),
{
    match r {
        RetryPolicy::Default => {
            assert(p_lit(s, i, "null"@) == Some(i + "null"@.len()));
        },
        RetryPolicy::Disabled => {
            reveal_strlit("false");
            assert(s[i + 0] == "false"@[0]);
            lemma_not_follows_null(s, i);
            assert(p_lit(s, i, "false"@) == Some(i + "false"@.len()));
        },
        RetryPolicy::Limit(n) => {
            crate::codec::lemma_enc_nat_digits_pub(n as int);
            assert(s[i + 0] == enc_nat(n as int)[0]);
            assert(is_digit(s[i]));
            lemma_not_follows_null(s, i);
            lemma_not_follows_false(s, i);
            lemma_p_u32_complete(s, i, n as int);
        },
    }
}

proof fn lemma_p_opt_nat_complete(s: Seq<char>, i: int, u: Option<int>)
    requires
        follows(s, i, enc_opt_nat(u)),
        (match u {
            Some(n) => 0 <= n <= u32::MAX,
            None => true,
        }),
        i + enc_opt_nat(u).len() == s.len() || !is_digit(s[i + enc_opt_nat(u).len()]),
    ensures
        p_opt_nat(s, i) == Some((u, i + enc_opt_nat(u).len())),
{
    match u {
        None => {
            assert(p_lit(s, i, "null"@) == Some(i + "null"@.len()));
        },
        Some(n) => {
            crate::codec::lemma_enc_nat_digits_pub(n);
            assert(s[i + 0] == enc_nat(n)[0]);
            assert(is_digit(s[i]));
            lemma_not_follows_null(s, i);
            lemma_p_u32_complete(s, i, n);
        },
    }
}

/// Parsing inverts serialization: the canonical wire form of any
/// well-formed envelope parses back to exactly that envelope, every field
/// and the argument order included.
#[verifier::rlimit(100)]
#[verifier::spinoff_prover]
pub proof fn lemma_wire_round_trip_v(j: JobV)
    requires
        jv_wf(j),
    ensures
        p_job(enc_job(j)) == Some(j),
{
    let s = enc_job(j);
    let g1 = "{\"class\":"@;
    let g2 = enc_str(j.class);
    let g3 = ",\"queue\":"@;
    let g4 = enc_str(j.queue);
    let g5 = ",\"args\":"@;
    let g6 = enc_args(j.args);
    let g7 = ",\"jid\":"@;
    let g8 = enc_str(j.jid);
    let g9 = ",\"created_at\":"@;
    let g10 = enc_int(j.created_at);
    let g11 = ",\"enqueued_at\":"@;
    let g12 = enc_int(j.enqueued_at);
    let g13 = ",\"retry\":"@;
    let g14 = enc_retry(j.retry);
    let g15 = ",\"retry_count\":"@;
    let g16 = enc_nat(j.retry_count);
    let g17 = ",\"unique_for\":"@;
    let g18 = enc_opt_nat(j.unique_for);
    let g19 = "}"@;
    let l1 = g1;
    let l2 = l1 + g2;
    let l3 = l2 + g3;
    let l4 = l3 + g4;
    let l5 = l4 + g5;
    let l6 = l5 + g6;
    let l7 = l6 + g7;
    let l8 = l7 + g8;
    let l9 = l8 + g9;
    let l10 = l9 + g10;
    let l11 = l10 + g11;
    let l12 = l11 + g12;
    let l13 = l12 + g13;
    let l14 = l13 + g14;
    let l15 = l14 + g15;
    let l16 = l15 + g16;
    let l17 = l16 + g17;
    let l18 = l17 + g18;
    let l19 = l18 + g19;
    assert(s == l19);
    assert(follows(s, 0, l19)) by {
        assert forall|k: int| 0 <= k < l19.len() implies s[0 + k] == l19[k] by {
            assert(s[k] == l19[k]);
        }
    }
    lemma_follows_concat(s, 0, l18, g19);
    lemma_follows_concat(s, 0, l17, g18);
    lemma_follows_concat(s, 0, l16, g17);
    lemma_follows_concat(s, 0, l15, g16);
    lemma_follows_concat(s, 0, l14, g15);
    lemma_follows_concat(s, 0, l13, g14);
    lemma_follows_concat(s, 0, l12, g13);
    lemma_follows_concat(s, 0, l11, g12);
    lemma_follows_concat(s, 0, l10, g11);
    lemma_follows_concat(s, 0, l9, g10);
    lemma_follows_concat(s, 0, l8, g9);
    lemma_follows_concat(s, 0, l7, g8);
    lemma_follows_concat(s, 0, l6, g7);
    lemma_follows_concat(s, 0, l5, g6);
    lemma_follows_concat(s, 0, l4, g5);
    lemma_follows_concat(s, 0, l3, g4);
    lemma_follows_concat(s, 0, l2, g3);
    lemma_follows_concat(s, 0, l1, g2);
    let o1 = 0int;
    let o2 = o1 + g1.len();
    assert(o2 == l1.len());
    let o3 = o2 + g2.len();
    assert(o3 == l2.len());
    let o4 = o3 + g3.len();
    assert(o4 == l3.len());
    let o5 = o4 + g4.len();
    assert(o5 == l4.len());
    let o6 = o5 + g5.len();
    assert(o6 == l5.len());
    let o7 = o6 + g6.len();
    assert(o7 == l6.len());
    let o8 = o7 + g7.len();
    assert(o8 == l7.len());
    let o9 = o8 + g8.len();
    assert(o9 == l8.len());
    let o10 = o9 + g9.len();
    assert(o10 == l9.len());
    let o11 = o10 + g10.len();
    assert(o11 == l10.len());
    let o12 = o11 + g11.len();
    assert(o12 == l11.len());
    let o13 = o12 + g12.len();
    assert(o13 == l12.len());
    let o14 = o13 + g13.len();
    assert(o14 == l13.len());
    let o15 = o14 + g14.len();
    assert(o15 == l14.len());
    let o16 = o15 + g15.len();
    assert(o16 == l15.len());
    let o17 = o16 + g16.len();
    assert(o17 == l16.len());
    let o18 = o17 + g17.len();
    assert(o18 == l17.len());
    let o19 = o18 + g18.len();
    assert(o19 == l18.len());
    assert(follows(s, o1, g1));
    reveal_strlit("{\"class\":");
    reveal_strlit(",\"queue\":");
    reveal_strlit(",\"args\":");
    reveal_strlit(",\"jid\":");
    reveal_strlit(",\"created_at\":");
    reveal_strlit(",\"enqueued_at\":");
    reveal_strlit(",\"retry\":");
    reveal_strlit(",\"retry_count\":");
    reveal_strlit(",\"unique_for\":");
    reveal_strlit("}");
    // Boundary characters: the first character after each numeric field is
    // part of the next skeleton literal and is never a digit.
    assert(s[o11 + 0] == g11[0]);
    assert(s[o11] == ',');
    assert(s[o13 + 0] == g13[0]);
    assert(s[o13] == ',');
    assert(s[o15 + 0] == g15[0]);
    assert(s[o15] == ',');
    assert(s[o17 + 0] == g17[0]);
    assert(s[o17] == ',');
    assert(s[o19 + 0] == g19[0]);
    assert(s[o19] == '}');
    assert(!is_digit(',') && !is_digit('}')) by {
        assert(',' as int == 44 && '}' as int == 125);
    }

    assert(p_lit(s, 0, "{\"class\":"@) == Some(o2));
    lemma_p_str_complete(s, o2, j.class);
    assert(p_lit(s, o3, ",\"queue\":"@) == Some(o4));
    lemma_p_str_complete(s, o4, j.queue);
    assert(p_lit(s, o5, ",\"args\":"@) == Some(o6));
    lemma_p_args_complete(s, o6, j.args);
    assert(p_lit(s, o7, ",\"jid\":"@) == Some(o8));
    lemma_p_str_complete(s, o8, j.jid);
    assert(p_lit(s, o9, ",\"created_at\":"@) == Some(o10));
    lemma_p_int_complete(s, o10, j.created_at);
    assert(p_lit(s, o11, ",\"enqueued_at\":"@) == Some(o12));
    lemma_p_int_complete(s, o12, j.enqueued_at);
    assert(p_lit(s, o13, ",\"retry\":"@) == Some(o14));
    lemma_p_retry_complete(s, o14, j.retry);
    assert(p_lit(s, o15, ",\"retry_count\":"@) == Some(o16));
    lemma_p_u32_complete(s, o16, j.retry_count);
    assert(p_lit(s, o17, ",\"unique_for\":"@) == Some(o18));
    lemma_p_opt_nat_complete(s, o18, j.unique_for);
    assert(p_lit(s, o19, "}"@) == Some(o19 + 1));
    assert(o19 + 1 == s.len());
    assert(p_job(s) == Some(
        JobV {
            class: j.class,
            queue: j.queue,
            args: j.args,
            jid: j.jid,
            created_at: j.created_at,
            enqueued_at: j.enqueued_at,
            retry: j.retry,
            retry_count: j.retry_count,
            unique_for: j.unique_for,
        },
    ));
}

/// The round trip stated of the executable envelope type: any job's wire
/// string parses back to the job's own view.
pub proof fn lemma_wire_round_trip(job: Job)
    ensures
        p_job(enc_job(job@)) == Some(job@),
{
    let j = job@;
    assert(args_wf(j.args)) by {
        assert forall|k: int| 0 <= k < j.args.len() implies crate::codec::arg_wf(
            #[trigger] j.args[k],
        ) by {
            assert(j.args[k] == job.args@[k]@);
            match job.args@[k] {
                Arg::Scalar(_v) => {},
                Arg::Obj(ps) => {
                    let o = job.args@[k]@;
                    assert forall|m: int| 0 <= m < o->Obj_0.len() implies
                        crate::codec::scalar_wf(#[trigger] o->Obj_0[m].1) by {
                        assert(o->Obj_0[m] == (ps@[m].0@, ps@[m].1@));
                    }
                },
            }
        }
    }
    lemma_wire_round_trip_v(j);
}

} // verus!
