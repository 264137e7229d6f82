//! In-memory model of the slice of a Redis keyspace the engine uses.
//!
//! All cross-process state of the engine lives in Redis: ready queues are
//! lists (push left, pop right, so each queue is FIFO), the `scheduled`,
//! `retry` and `periodic` collections are sorted sets scored by due
//! timestamp, and unique-job locks are keys with an expiry time.  This
//! module gives each primitive an exact contract; the engine is verified
//! against these contracts, and a host process may replay the same
//! operations against a real Redis connection.
//!
//! Time never advances by itself here: every time-dependent operation takes
//! the current clock reading as an argument, so lock expiry is a comparison
//! against the caller's clock, exactly as a Redis TTL is against the
//! server's.
use vstd::prelude::*;

verus! {

/// View of a list entry table.
pub open spec fn strs_v(v: Seq<String>) -> Seq<Seq<char>> {
    Seq::new(v.len(), |i: int| v[i]@)
}

/// View of one sorted set: (score, member) in score order.
pub open spec fn zents_v(v: Seq<(i64, String)>) -> Seq<(i64, Seq<char>)> {
    Seq::new(v.len(), |i: int| (v[i].0, v[i].1@))
}

/// The three time-ordered sorted sets the engine owns.
#[derive(Clone, Copy, Debug, PartialEq, Eq, Structural)]
pub enum ZSetKey {
    Scheduled,
    Retry,
    Periodic,
}

pub struct RedisState {
    lists: Vec<(String, Vec<String>)>,
    scheduled: Vec<(i64, String)>,
    retry: Vec<(i64, String)>,
    periodic: Vec<(i64, String)>,
    locks: Vec<(String, (String, i64))>,
}

// -- association-list lookup (spec) -----------------------------------------

pub open spec fn list_find(l: Seq<(String, Vec<String>)>, k: Seq<char>) -> Option<Seq<Seq<char>>>
    decreases l.len(),
{
    if l.len() == 0 {
        None
    } else if l[0].0@ == k {
        Some(strs_v(l[0].1@))
    } else {
        list_find(l.drop_first(), k)
    }
}

pub open spec fn lock_find(l: Seq<(String, (String, i64))>, k: Seq<char>) -> Option<(Seq<char>, i64)>
    decreases l.len(),
{
    if l.len() == 0 {
        None
    } else if l[0].0@ == k {
        Some((l[0].1.0@, l[0].1.1))
    } else {
        lock_find(l.drop_first(), k)
    }
}

// -- sorted-set helpers (spec) ----------------------------------------------

pub open spec fn z_sorted(z: Seq<(i64, Seq<char>)>) -> bool {
    forall|a: int, b: int| 0 <= a < b < z.len() ==> z[a].0 <= z[b].0
}

pub open spec fn z_distinct(z: Seq<(i64, Seq<char>)>) -> bool {
    forall|a: int, b: int| 0 <= a < b < z.len() ==> z[a].1 != z[b].1
}

pub open spec fn z_has(z: Seq<(i64, Seq<char>)>, m: Seq<char>) -> bool {
    exists|i: int| 0 <= i < z.len() && z[i].1 == m
}

/// The set with every occurrence of member `m` removed.
pub open spec fn z_remove(z: Seq<(i64, Seq<char>)>, m: Seq<char>) -> Seq<(i64, Seq<char>)>
    decreases z.len(),
{
    if z.len() == 0 {
        z
    } else if z[0].1 == m {
        z_remove(z.drop_first(), m)
    } else {
        seq![z[0]] + z_remove(z.drop_first(), m)
    }
}

/// Insert a member at its score position, after any entries of equal score.
pub open spec fn z_insert(z: Seq<(i64, Seq<char>)>, sc: i64, m: Seq<char>) -> Seq<(i64, Seq<char>)>
    decreases z.len(),
{
    if z.len() == 0 {
        seq![(sc, m)]
    } else if z[0].0 <= sc {
        seq![z[0]] + z_insert(z.drop_first(), sc, m)
    } else {
        seq![(sc, m)] + z
    }
}

/// How many leading entries are due (score at most `max`).
pub open spec fn due_n(z: Seq<(i64, Seq<char>)>, max: i64) -> int
    decreases z.len(),
{
    if z.len() == 0 {
        0
    } else if z[0].0 <= max {
        1 + due_n(z.drop_first(), max)
    } else {
        0
    }
}

/// The score of member `m`, if present.
pub open spec fn z_score(z: Seq<(i64, Seq<char>)>, m: Seq<char>) -> Option<i64>
    decreases z.len(),
{
    if z.len() == 0 {
        None
    } else if z[0].1 == m {
        Some(z[0].0)
    } else {
        z_score(z.drop_first(), m)
    }
}




/// A well-formed store keeps every sorted set ordered and duplicate-free.
pub proof fn lemma_wf_zv(r: RedisState, w: ZSetKey)
    requires
        r.wf(),
    ensures
        z_sorted(r.zv(w)),
        z_distinct(r.zv(w)),
{
}


/// A member has a score exactly when it is present.
pub proof fn lemma_z_score_has(z: Seq<(i64, Seq<char>)>, m: Seq<char>)
    ensures
        z_score(z, m) is Some <==> z_has(z, m),
    decreases z.len(),
{
    if z.len() > 0 {
        lemma_z_score_has(z.drop_first(), m);
        if z[0].1 == m {
        } else {
            assert forall|a: int| 0 <= a < z.drop_first().len() implies z.drop_first()[a]
                == z[a + 1] by {
                assert(z.drop_first()[a] == z.subrange(1, z.len() as int)[a]);
            }
            if z_has(z, m) {
                let x = choose|x: int| 0 <= x < z.len() && z[x].1 == m;
                assert(z.drop_first()[x - 1].1 == m);
                assert(z_has(z.drop_first(), m));
            }
        }
    }
}

/// The score of the `i`-th entry of a duplicate-free set.
pub proof fn lemma_z_score_of_entry(z: Seq<(i64, Seq<char>)>, i: int)
    requires
        z_distinct(z),
        0 <= i < z.len(),
    ensures
        z_score(z, z[i].1) == Some(z[i].0),
{
    lemma_z_score_at(z, i);
}

/// Inserting a fresh member gives it exactly the inserted score.
pub proof fn lemma_z_score_insert_self(z: Seq<(i64, Seq<char>)>, sc: i64, m: Seq<char>)
    requires
        !z_has(z, m),
    ensures
        z_score(z_insert(z, sc, m), m) == Some(sc),
    decreases z.len(),
{
    let zi = z_insert(z, sc, m);
    if z.len() == 0 {
        assert(zi == seq![(sc, m)]);
    } else if z[0].0 <= sc {
        assert(z[0].1 != m);
        assert forall|a: int| 0 <= a < z.drop_first().len() implies z.drop_first()[a]
            == z[a + 1] by {
            assert(z.drop_first()[a] == z.subrange(1, z.len() as int)[a]);
        }
        assert(!z_has(z.drop_first(), m));
        lemma_z_score_insert_self(z.drop_first(), sc, m);
        assert(zi == seq![z[0]] + z_insert(z.drop_first(), sc, m));
        assert(zi[0] == z[0]);
        assert(zi.drop_first() =~= z_insert(z.drop_first(), sc, m));
    } else {
        assert(zi == seq![(sc, m)] + z);
        assert(zi[0] == (sc, m));
    }
}


/// After removal a member is gone.
pub proof fn lemma_z_remove_not_has_pub(z: Seq<(i64, Seq<char>)>, m: Seq<char>)
    ensures
        !z_has(z_remove(z, m), m),
{
    lemma_z_remove_not_has(z, m);
}

/// Removing an absent member changes nothing.
pub proof fn lemma_z_remove_absent_pub(z: Seq<(i64, Seq<char>)>, m: Seq<char>)
    requires
        !z_has(z, m),
    ensures
        z_remove(z, m) == z,
{
    lemma_z_remove_absent(z, m);
}

/// Removing the head member of a duplicate-free set drops exactly the head.
pub proof fn lemma_z_remove_head(z: Seq<(i64, Seq<char>)>, m: Seq<char>)
    requires
        z_distinct(z),
        z.len() > 0,
        z[0].1 == m,
    ensures
        z_remove(z, m) == z.drop_first(),
{
    assert forall|a: int| 0 <= a < z.drop_first().len() implies z.drop_first()[a].1 != m by {
        assert(z.drop_first()[a] == z.subrange(1, z.len() as int)[a]);
    }
    assert(!z_has(z.drop_first(), m));
    lemma_z_remove_absent(z.drop_first(), m);
}

/// Removing one member leaves every other member's score unchanged.
pub proof fn lemma_z_score_remove_other(z: Seq<(i64, Seq<char>)>, m2: Seq<char>, m: Seq<char>)
    requires
        m != m2,
    ensures
        z_score(z_remove(z, m2), m) == z_score(z, m),
    decreases z.len(),
{
    if z.len() > 0 {
        lemma_z_score_remove_other(z.drop_first(), m2, m);
        if z[0].1 == m2 {
        } else {
            let zr = z_remove(z, m2);
            assert(zr == seq![z[0]] + z_remove(z.drop_first(), m2));
            assert(zr[0] == z[0]);
            assert(zr.drop_first() =~= z_remove(z.drop_first(), m2));
        }
    }
}

/// Inserting one member leaves every other member's score unchanged.
pub proof fn lemma_z_score_insert_other(z: Seq<(i64, Seq<char>)>, sc: i64, m2: Seq<char>, m: Seq<char>)
    requires
        m != m2,
    ensures
        z_score(z_insert(z, sc, m2), m) == z_score(z, m),
    decreases z.len(),
{
    let zi = z_insert(z, sc, m2);
    if z.len() == 0 {
        assert(zi == seq![(sc, m2)]);
        assert(zi[0].1 != m);
        assert(zi.drop_first() =~= Seq::<(i64, Seq<char>)>::empty());
        assert(z_score(zi, m) == z_score(zi.drop_first(), m));
        assert(z_score(zi, m) is None);
    } else if z[0].0 <= sc {
        lemma_z_score_insert_other(z.drop_first(), sc, m2, m);
        assert(zi == seq![z[0]] + z_insert(z.drop_first(), sc, m2));
        assert(zi[0] == z[0]);
        assert(zi.drop_first() =~= z_insert(z.drop_first(), sc, m2));
        if z[0].1 == m {
            assert(z_score(zi, m) == Some(zi[0].0));
            assert(z_score(z, m) == Some(z[0].0));
        } else {
            assert(z_score(zi, m) == z_score(zi.drop_first(), m));
            assert(z_score(z, m) == z_score(z.drop_first(), m));
        }
    } else {
        assert(zi == seq![(sc, m2)] + z);
        assert(zi[0].1 != m);
        assert(zi.drop_first() =~= z);
        assert(z_score(zi, m) == z_score(zi.drop_first(), m));
    }
}

impl RedisState {
    // -- views ---------------------------------------------------------------

    /// The contents of the ready list under key `k` (absent keys read empty,
    /// as in Redis).
    pub closed spec fn list_at(self, k: Seq<char>) -> Seq<Seq<char>> {
        match list_find(self.lists@, k) {
            Some(v) => v,
            None => Seq::empty(),
        }
    }

    pub closed spec fn zv(self, w: ZSetKey) -> Seq<(i64, Seq<char>)> {
        match w {
            ZSetKey::Scheduled => zents_v(self.scheduled@),
            ZSetKey::Retry => zents_v(self.retry@),
            ZSetKey::Periodic => zents_v(self.periodic@),
        }
    }

    pub closed spec fn lock_at(self, k: Seq<char>) -> Option<(Seq<char>, i64)> {
        lock_find(self.locks@, k)
    }

    /// A lock key is held at time `now` if it exists and has not expired.
    pub open spec fn lock_live(self, k: Seq<char>, now: i64) -> bool {
        match self.lock_at(k) {
            Some((_h, exp)) => exp > now,
            None => false,
        }
    }

    // -- well-formedness -----------------------------------------------------

    pub closed spec fn wf(self) -> bool {
        &&& forall|i: int, j: int|
            0 <= i < j < self.lists@.len() ==> self.lists@[i].0@ != self.lists@[j].0@
        &&& forall|i: int, j: int|
            0 <= i < j < self.locks@.len() ==> self.locks@[i].0@ != self.locks@[j].0@
        &&& z_sorted(self.zv(ZSetKey::Scheduled)) && z_distinct(self.zv(ZSetKey::Scheduled))
        &&& z_sorted(self.zv(ZSetKey::Retry)) && z_distinct(self.zv(ZSetKey::Retry))
        &&& z_sorted(self.zv(ZSetKey::Periodic)) && z_distinct(self.zv(ZSetKey::Periodic))
    }

    // -- frame helpers -------------------------------------------------------

    pub open spec fn lists_same(self, o: RedisState) -> bool {
        forall|k: Seq<char>| self.list_at(k) == o.list_at(k)
    }

    pub open spec fn lists_same_except(self, o: RedisState, k0: Seq<char>) -> bool {
        forall|k: Seq<char>| k != k0 ==> self.list_at(k) == o.list_at(k)
    }

    pub open spec fn zsets_same(self, o: RedisState) -> bool {
        forall|w: ZSetKey| self.zv(w) == o.zv(w)
    }

    pub open spec fn zsets_same_except(self, o: RedisState, w0: ZSetKey) -> bool {
        forall|w: ZSetKey| w != w0 ==> self.zv(w) == o.zv(w)
    }

    pub open spec fn locks_same(self, o: RedisState) -> bool {
        forall|k: Seq<char>| self.lock_at(k) == o.lock_at(k)
    }

    pub open spec fn locks_same_except(self, o: RedisState, k0: Seq<char>) -> bool {
        forall|k: Seq<char>| k != k0 ==> self.lock_at(k) == o.lock_at(k)
    }

    // -- construction --------------------------------------------------------

    /// An empty keyspace.
    pub fn new() -> (r: RedisState)
        ensures
            r.wf(),
            forall|k: Seq<char>| r.list_at(k) == Seq::<Seq<char>>::empty(),
            forall|w: ZSetKey| r.zv(w) == Seq::<(i64, Seq<char>)>::empty(),
            forall|k: Seq<char>| r.lock_at(k) is None,
    {
        let r = RedisState {
            lists: Vec::new(),
            scheduled: Vec::new(),
            retry: Vec::new(),
            periodic: Vec::new(),
            locks: Vec::new(),
        };
        proof {
            assert(zents_v(r.scheduled@) =~= Seq::<(i64, Seq<char>)>::empty());
            assert(zents_v(r.retry@) =~= Seq::<(i64, Seq<char>)>::empty());
            assert(zents_v(r.periodic@) =~= Seq::<(i64, Seq<char>)>::empty());
        }
        r
    }
}


// -- lemmas about association-list lookup ------------------------------------

proof fn lemma_list_find_absent(l: Seq<(String, Vec<String>)>, k: Seq<char>)
    requires
        forall|m: int| 0 <= m < l.len() ==> l[m].0@ != k,
    ensures
        list_find(l, k) is None,
    decreases l.len(),
{
    if l.len() > 0 {
        assert(l[0].0@ != k);
        assert forall|m: int| 0 <= m < l.drop_first().len() implies l.drop_first()[m].0@ != k by {
            assert(l.drop_first()[m] == l.subrange(1, l.len() as int)[m]);
        }
        lemma_list_find_absent(l.drop_first(), k);
    }
}

proof fn lemma_list_find_hit(l: Seq<(String, Vec<String>)>, i: int)
    requires
        0 <= i < l.len(),
        forall|m: int| 0 <= m < i ==> l[m].0@ != l[i].0@,
    ensures
        list_find(l, l[i].0@) == Some(strs_v(l[i].1@)),
    decreases i,
{
    if i > 0 {
        assert(l[0].0@ != l[i].0@);
        assert(l.drop_first()[i - 1] == l.subrange(1, l.len() as int)[i - 1]);
        assert(l.drop_first()[i - 1] == l[i]);
        assert forall|m: int| 0 <= m < i - 1 implies l.drop_first()[m] == l[m + 1] by {
            assert(l.drop_first()[m] == l.subrange(1, l.len() as int)[m]);
        }
        lemma_list_find_hit(l.drop_first(), i - 1);
    }
}

proof fn lemma_list_find_update(l: Seq<(String, Vec<String>)>, i: int, e: (String, Vec<String>), k: Seq<char>)
    requires
        0 <= i < l.len(),
        e.0@ == l[i].0@,
        forall|a: int, b: int| 0 <= a < b < l.len() ==> l[a].0@ != l[b].0@,
    ensures
        list_find(l.update(i, e), k) == if k == l[i].0@ {
            Some(strs_v(e.1@))
        } else {
            list_find(l, k)
        },
    decreases i,
{
    let lu = l.update(i, e);
    if i == 0 {
        assert(lu[0] == e);
        assert(lu.drop_first() =~= l.drop_first());
        if k == l[0].0@ {
        } else {
        }
    } else {
        assert(lu[0] == l[0]);
        assert(lu.drop_first() =~= l.drop_first().update(i - 1, e));
        assert forall|m: int| 0 <= m < l.drop_first().len() implies l.drop_first()[m] == l[m + 1] by {
            assert(l.drop_first()[m] == l.subrange(1, l.len() as int)[m]);
        }
        lemma_list_find_update(l.drop_first(), i - 1, e, k);
        if k == l[i].0@ {
            assert(l[0].0@ != l[i].0@);
        }
    }
}

proof fn lemma_list_find_push(l: Seq<(String, Vec<String>)>, e: (String, Vec<String>), k: Seq<char>)
    requires
        forall|m: int| 0 <= m < l.len() ==> l[m].0@ != e.0@,
    ensures
        list_find(l.push(e), k) == if k == e.0@ {
            Some(strs_v(e.1@))
        } else {
            list_find(l, k)
        },
    decreases l.len(),
{
    let lp = l.push(e);
    if l.len() == 0 {
        assert(lp[0] == e);
        assert(lp.drop_first() =~= Seq::<(String, Vec<String>)>::empty());
    } else {
        assert(lp[0] == l[0]);
        assert(lp.drop_first() =~= l.drop_first().push(e));
        assert forall|m: int| 0 <= m < l.drop_first().len() implies l.drop_first()[m].0@ != e.0@ by {
            assert(l.drop_first()[m] == l.subrange(1, l.len() as int)[m]);
        }
        lemma_list_find_push(l.drop_first(), e, k);
        assert(list_find(lp.drop_first(), k) == list_find(l.drop_first().push(e), k));
        if k == e.0@ {
            assert(l[0].0@ != e.0@);
        }
    }
}

proof fn lemma_lock_find_absent(l: Seq<(String, (String, i64))>, k: Seq<char>)
    requires
        forall|m: int| 0 <= m < l.len() ==> l[m].0@ != k,
    ensures
        lock_find(l, k) is None,
    decreases l.len(),
{
    if l.len() > 0 {
        assert(l[0].0@ != k);
        assert forall|m: int| 0 <= m < l.drop_first().len() implies l.drop_first()[m].0@ != k by {
            assert(l.drop_first()[m] == l.subrange(1, l.len() as int)[m]);
        }
        lemma_lock_find_absent(l.drop_first(), k);
    }
}

proof fn lemma_lock_find_hit(l: Seq<(String, (String, i64))>, i: int)
    requires
        0 <= i < l.len(),
        forall|m: int| 0 <= m < i ==> l[m].0@ != l[i].0@,
    ensures
        lock_find(l, l[i].0@) == Some((l[i].1.0@, l[i].1.1)),
    decreases i,
{
    if i > 0 {
        assert(l[0].0@ != l[i].0@);
        assert(l.drop_first()[i - 1] == l.subrange(1, l.len() as int)[i - 1]);
        assert(l.drop_first()[i - 1] == l[i]);
        assert forall|m: int| 0 <= m < i - 1 implies l.drop_first()[m] == l[m + 1] by {
            assert(l.drop_first()[m] == l.subrange(1, l.len() as int)[m]);
        }
        lemma_lock_find_hit(l.drop_first(), i - 1);
    }
}

proof fn lemma_lock_find_update(l: Seq<(String, (String, i64))>, i: int, e: (String, (String, i64)), k: Seq<char>)
    requires
        0 <= i < l.len(),
        e.0@ == l[i].0@,
        forall|a: int, b: int| 0 <= a < b < l.len() ==> l[a].0@ != l[b].0@,
    ensures
        lock_find(l.update(i, e), k) == if k == l[i].0@ {
            Some((e.1.0@, e.1.1))
        } else {
            lock_find(l, k)
        },
    decreases i,
{
    let lu = l.update(i, e);
    if i == 0 {
        assert(lu[0] == e);
        assert(lu.drop_first() =~= l.drop_first());
    } else {
        assert(lu[0] == l[0]);
        assert(lu.drop_first() =~= l.drop_first().update(i - 1, e));
        assert forall|m: int| 0 <= m < l.drop_first().len() implies l.drop_first()[m] == l[m + 1] by {
            assert(l.drop_first()[m] == l.subrange(1, l.len() as int)[m]);
        }
        lemma_lock_find_update(l.drop_first(), i - 1, e, k);
        if k == l[i].0@ {
            assert(l[0].0@ != l[i].0@);
        }
    }
}

proof fn lemma_lock_find_push(l: Seq<(String, (String, i64))>, e: (String, (String, i64)), k: Seq<char>)
    requires
        forall|m: int| 0 <= m < l.len() ==> l[m].0@ != e.0@,
    ensures
        lock_find(l.push(e), k) == if k == e.0@ {
            Some((e.1.0@, e.1.1))
        } else {
            lock_find(l, k)
        },
    decreases l.len(),
{
    let lp = l.push(e);
    if l.len() == 0 {
        assert(lp[0] == e);
        assert(lp.drop_first() =~= Seq::<(String, (String, i64))>::empty());
    } else {
        assert(lp[0] == l[0]);
        assert(lp.drop_first() =~= l.drop_first().push(e));
        assert forall|m: int| 0 <= m < l.drop_first().len() implies l.drop_first()[m].0@ != e.0@ by {
            assert(l.drop_first()[m] == l.subrange(1, l.len() as int)[m]);
        }
        lemma_lock_find_push(l.drop_first(), e, k);
        assert(lock_find(lp.drop_first(), k) == lock_find(l.drop_first().push(e), k));
        if k == e.0@ {
            assert(l[0].0@ != e.0@);
        }
    }
}

// -- lemmas about sorted sets ------------------------------------------------


proof fn lemma_zents_idx(v: Seq<(i64, String)>, i: int)
    requires
        0 <= i < v.len(),
    ensures
        zents_v(v)[i] == (v[i].0, v[i].1@),
{
}

proof fn lemma_z_remove_absent(z: Seq<(i64, Seq<char>)>, m: Seq<char>)
    requires
        !z_has(z, m),
    ensures
        z_remove(z, m) == z,
    decreases z.len(),
{
    if z.len() > 0 {
        assert(z[0].1 != m);
        assert forall|i: int| 0 <= i < z.drop_first().len() implies z.drop_first()[i] == z[i + 1] by {
            assert(z.drop_first()[i] == z.subrange(1, z.len() as int)[i]);
        }
        assert(!z_has(z.drop_first(), m));
        lemma_z_remove_absent(z.drop_first(), m);
        assert(z_remove(z, m) =~= z);
    }
}

proof fn lemma_z_remove_at(z: Seq<(i64, Seq<char>)>, i: int)
    requires
        0 <= i < z.len(),
        forall|a: int| 0 <= a < z.len() && a != i ==> z[a].1 != z[i].1,
    ensures
        z_remove(z, z[i].1) == z.remove(i),
    decreases i,
{
    let m = z[i].1;
    assert forall|a: int| 0 <= a < z.drop_first().len() implies z.drop_first()[a] == z[a + 1] by {
            assert(z.drop_first()[a] == z.subrange(1, z.len() as int)[a]);
        }
    if i == 0 {
        assert(!z_has(z.drop_first(), m));
        lemma_z_remove_absent(z.drop_first(), m);
        assert(z.remove(0) =~= z.drop_first());
    } else {
        assert(z[0].1 != m);
        lemma_z_remove_at(z.drop_first(), i - 1);
        assert(z.drop_first().remove(i - 1) =~= z.remove(i).drop_first());
        assert(z_remove(z, m) =~= z.remove(i));
    }
}


proof fn lemma_z_remove_not_has(z: Seq<(i64, Seq<char>)>, m: Seq<char>)
    ensures
        !z_has(z_remove(z, m), m),
    decreases z.len(),
{
    if z.len() > 0 {
        lemma_z_remove_not_has(z.drop_first(), m);
        if z[0].1 != m {
            let zr = z_remove(z, m);
            let zr1 = z_remove(z.drop_first(), m);
            assert(zr == seq![z[0]] + zr1);
            assert forall|i: int| 0 <= i < zr.len() implies zr[i].1 != m by {
                if i > 0 {
                    assert(zr[i] == zr1[i - 1]);
                }
            }
        }
    }
}

proof fn lemma_z_insert_at(z: Seq<(i64, Seq<char>)>, sc: i64, m: Seq<char>, p: int)
    requires
        0 <= p <= z.len(),
        forall|a: int| 0 <= a < p ==> z[a].0 <= sc,
        p < z.len() ==> z[p].0 > sc,
    ensures
        z_insert(z, sc, m) == z.insert(p, (sc, m)),
    decreases p,
{
    if z.len() == 0 {
        assert(z_insert(z, sc, m) =~= z.insert(0, (sc, m)));
    } else if p == 0 {
        assert(z_insert(z, sc, m) =~= z.insert(0, (sc, m)));
    } else {
        assert forall|a: int| 0 <= a < z.drop_first().len() implies z.drop_first()[a] == z[a + 1] by {
            assert(z.drop_first()[a] == z.subrange(1, z.len() as int)[a]);
        }
        assert(z[0].0 <= sc);
        lemma_z_insert_at(z.drop_first(), sc, m, p - 1);
        assert(z.drop_first().insert(p - 1, (sc, m)) =~= z.insert(p, (sc, m)).drop_first());
        assert(z_insert(z, sc, m) =~= z.insert(p, (sc, m)));
    }
}

proof fn lemma_due_n_prefix(z: Seq<(i64, Seq<char>)>, max: i64, k: int)
    requires
        0 <= k <= z.len(),
        forall|m: int| 0 <= m < k ==> z[m].0 <= max,
        k < z.len() ==> z[k].0 > max,
    ensures
        due_n(z, max) == k,
    decreases k,
{
    if z.len() == 0 {
    } else if k == 0 {
    } else {
        assert forall|a: int| 0 <= a < k - 1 implies z.drop_first()[a].0 <= max by {
            assert(z.drop_first()[a] == z.subrange(1, z.len() as int)[a]);
        }
        if k - 1 < z.drop_first().len() {
            assert(z.drop_first()[k - 1] == z.subrange(1, z.len() as int)[k - 1]);
        }
        assert(z[0].0 <= max);
        lemma_due_n_prefix(z.drop_first(), max, k - 1);
    }
}


/// A due count never exceeds the set's size.
pub proof fn lemma_due_n_le_len(z: Seq<(i64, Seq<char>)>, max: i64)
    ensures
        due_n(z, max) <= z.len(),
    decreases z.len(),
{
    if z.len() > 0 && z[0].0 <= max {
        lemma_due_n_le_len(z.drop_first(), max);
    }
}

pub proof fn lemma_due_n_nonneg(z: Seq<(i64, Seq<char>)>, max: i64)
    ensures
        due_n(z, max) >= 0,
    decreases z.len(),
{
    if z.len() > 0 && z[0].0 <= max {
        lemma_due_n_nonneg(z.drop_first(), max);
    }
}

proof fn lemma_due_n_lower(z: Seq<(i64, Seq<char>)>, max: i64, k: int)
    requires
        0 <= k <= z.len(),
        forall|m: int| 0 <= m < k ==> z[m].0 <= max,
    ensures
        due_n(z, max) >= k,
    decreases k,
{
    lemma_due_n_nonneg(z, max);
    if k > 0 {
        assert forall|a: int| 0 <= a < k - 1 implies z.drop_first()[a].0 <= max by {
            assert(z.drop_first()[a] == z.subrange(1, z.len() as int)[a]);
        }
        assert(z[0].0 <= max);
        lemma_due_n_lower(z.drop_first(), max, k - 1);
        assert(due_n(z, max) == 1 + due_n(z.drop_first(), max));
    }
}

proof fn lemma_z_score_absent(z: Seq<(i64, Seq<char>)>, m: Seq<char>)
    requires
        !z_has(z, m),
    ensures
        z_score(z, m) is None,
    decreases z.len(),
{
    if z.len() > 0 {
        assert(z[0].1 != m);
        assert forall|a: int| 0 <= a < z.drop_first().len() implies z.drop_first()[a] == z[a + 1] by {
            assert(z.drop_first()[a] == z.subrange(1, z.len() as int)[a]);
        }
        assert(!z_has(z.drop_first(), m));
        lemma_z_score_absent(z.drop_first(), m);
    }
}

proof fn lemma_z_score_at(z: Seq<(i64, Seq<char>)>, i: int)
    requires
        0 <= i < z.len(),
        forall|a: int| 0 <= a < i ==> z[a].1 != z[i].1,
    ensures
        z_score(z, z[i].1) == Some(z[i].0),
    decreases i,
{
    if i > 0 {
        assert(z[0].1 != z[i].1);
        assert forall|a: int| 0 <= a < z.drop_first().len() implies z.drop_first()[a] == z[a + 1] by {
            assert(z.drop_first()[a] == z.subrange(1, z.len() as int)[a]);
        }
        lemma_z_score_at(z.drop_first(), i - 1);
    }
}

// -- sorted-set operations on one vector -------------------------------------

/// Remove `member` if present; result says whether it was.
#[verifier::loop_isolation(false)]
fn zrem_vec(v: &mut Vec<(i64, String)>, member: &String) -> (r: bool)
    requires
        z_sorted(zents_v(old(v)@)),
        z_distinct(zents_v(old(v)@)),
    ensures
        z_sorted(zents_v(final(v)@)),
        z_distinct(zents_v(final(v)@)),
        r == z_has(zents_v(old(v)@), member@),
        zents_v(final(v)@) == z_remove(zents_v(old(v)@), member@),
{
    let ghost z0 = zents_v(old(v)@);
    let n = v.len();
    let mut i: usize = 0;
    while i < n
        invariant
            v@ == old(v)@,
            i <= n,
            n == v@.len(),
            forall|m: int| 0 <= m < i ==> zents_v(v@)[m].1 != member@,
        decreases n - i,
    {
        if v[i].1 == *member {
            proof {
                lemma_zents_idx(v@, i as int);
                assert(z0[i as int].1 == member@);
                assert forall|a: int| 0 <= a < z0.len() && a != i as int implies z0[a].1
                    != z0[i as int].1 by {
                }
                lemma_z_remove_at(z0, i as int);
            }
            let ghost vpre = v@;
            v.remove(i);
            proof {
                let zr = z0.remove(i as int);
                vpre.remove_ensures(i as int);
                z0.remove_ensures(i as int);
                assert forall|a: int| 0 <= a < zents_v(v@).len() implies zents_v(v@)[a]
                    == zr[a] by {
                    lemma_zents_idx(v@, a);
                    if a < i as int {
                        lemma_zents_idx(vpre, a);
                    } else {
                        lemma_zents_idx(vpre, a + 1);
                    }
                }
                assert(zents_v(v@) =~= zr);
                assert(z_has(z0, member@));
                assert forall|a: int, b: int| 0 <= a < b < zr.len() implies zr[a].0
                    <= zr[b].0 by {
                }
                assert forall|a: int, b: int| 0 <= a < b < zr.len() implies zr[a].1
                    != zr[b].1 by {
                }
            }
            return true;
        }
        proof {
            lemma_zents_idx(v@, i as int);
        }
        i = i + 1;
    }
    proof {
        assert(!z_has(z0, member@));
        lemma_z_remove_absent(z0, member@);
    }
    false
}

/// Insert `member` at its score position (member must be absent).
#[verifier::loop_isolation(false)]
fn zins_vec(v: &mut Vec<(i64, String)>, score: i64, member: String)
    requires
        z_sorted(zents_v(old(v)@)),
        z_distinct(zents_v(old(v)@)),
        !z_has(zents_v(old(v)@), member@),
    ensures
        z_sorted(zents_v(final(v)@)),
        z_distinct(zents_v(final(v)@)),
        zents_v(final(v)@) == z_insert(zents_v(old(v)@), score, member@),
{
    let ghost z0 = zents_v(old(v)@);
    let n = v.len();
    let mut p: usize = 0;
    while p < n && v[p].0 <= score
        invariant
            v@ == old(v)@,
            p <= n,
            n == v@.len(),
            forall|m: int| 0 <= m < p ==> zents_v(v@)[m].0 <= score,
        decreases n - p,
    {
        proof {
            lemma_zents_idx(v@, p as int);
        }
        p = p + 1;
    }
    proof {
        if (p as int) < z0.len() {
            lemma_zents_idx(v@, p as int);
        }
        lemma_z_insert_at(z0, score, member@, p as int);
    }
    let ghost vpre = v@;
    v.insert(p, (score, member));
    proof {
        let e = (score, member@);
        let zi = z0.insert(p as int, e);
        vpre.insert_ensures(p as int, (score, member));
        z0.insert_ensures(p as int, e);
        assert forall|a: int| 0 <= a < zents_v(v@).len() implies zents_v(v@)[a] == zi[a] by {
            lemma_zents_idx(v@, a);
            if a < p as int {
                lemma_zents_idx(vpre, a);
                assert(vpre.insert(p as int, (score, member))[a] == vpre[a]);
            } else if a > p as int {
                lemma_zents_idx(vpre, a - 1);
                assert(vpre.insert(p as int, (score, member))[a] == vpre[a - 1]);
            }
        }
        assert(zents_v(v@) =~= zi);
        assert forall|a: int, b: int| 0 <= a < b < zi.len() implies zi[a].0 <= zi[b].0 by {
            if b < p as int {
            } else if a < p as int && b == p as int {
                assert(zi[a] == z0[a]);
            } else if a < p as int && b > p as int {
                assert(zi[a] == z0[a]);
                assert(zi[b] == z0[b - 1]);
            } else if a == p as int && b > p as int {
                assert(zi[b] == z0[b - 1]);
                assert(z0[p as int].0 > score);
                assert(z0[p as int].0 <= z0[b - 1].0);
            } else {
                assert(zi[a] == z0[a - 1]);
                assert(zi[b] == z0[b - 1]);
            }
        }
        assert forall|a: int, b: int| 0 <= a < b < zi.len() implies zi[a].1 != zi[b].1 by {
            if a == p as int {
                assert(zi[b] == z0[b - 1]);
                assert(!z_has(z0, member@));
                assert(z0[b - 1].1 != member@);
            } else if b == p as int {
                assert(zi[a] == z0[a]);
                assert(z0[a].1 != member@);
            }
        }
    }
}

#[verifier::loop_isolation(false)]
fn zdue_vec(v: &Vec<(i64, String)>, max: i64, limit: usize) -> (r: Vec<String>)
    requires
        z_sorted(zents_v(v@)),
    ensures
        strs_v(r@) == Seq::new(
            vstd::math::min(limit as int, due_n(zents_v(v@), max)) as nat,
            |i: int| zents_v(v@)[i].1,
        ),
{
    let ghost z = zents_v(v@);
    let n = v.len();
    let mut r: Vec<String> = Vec::new();
    let mut i: usize = 0;
    while i < n && i < limit && v[i].0 <= max
        invariant
            i <= n,
            i <= limit,
            n == v@.len(),
            z == zents_v(v@),
            z_sorted(z),
            r@.len() == i,
            forall|m: int| 0 <= m < i ==> z[m].0 <= max,
            forall|m: int| 0 <= m < i ==> r@[m]@ == z[m].1,
        decreases n - i,
    {
        proof {
            lemma_zents_idx(v@, i as int);
        }
        r.push(v[i].1.clone());
        i = i + 1;
    }
    proof {
        let k = i as int;
        if k < z.len() {
            lemma_zents_idx(v@, k);
        }
        if i < n && i < limit {
            lemma_due_n_prefix(z, max, k);
        } else if i == n {
            lemma_due_n_prefix(z, max, k);
        } else {
            lemma_due_n_lower(z, max, k);
        }
        assert(strs_v(r@) =~= Seq::new(
            vstd::math::min(limit as int, due_n(z, max)) as nat,
            |i: int| z[i].1,
        ));
    }
    r
}

#[verifier::loop_isolation(false)]
fn zscore_vec(v: &Vec<(i64, String)>, member: &String) -> (r: Option<i64>)
    requires
        z_distinct(zents_v(v@)),
    ensures
        r == z_score(zents_v(v@), member@),
{
    let ghost z = zents_v(v@);
    let n = v.len();
    let mut i: usize = 0;
    while i < n
        invariant
            i <= n,
            n == v@.len(),
            z == zents_v(v@),
            z_distinct(z),
            forall|m: int| 0 <= m < i ==> z[m].1 != member@,
        decreases n - i,
    {
        proof {
            lemma_zents_idx(v@, i as int);
        }
        if v[i].1 == *member {
            proof {
                lemma_z_score_at(z, i as int);
            }
            return Some(v[i].0);
        }
        i = i + 1;
    }
    proof {
        assert(!z_has(z, member@));
        lemma_z_score_absent(z, member@);
    }
    None
}

impl RedisState {
    // -- list operations -----------------------------------------------------

    /// LPUSH: prepend `val` to the list under `key`.
    #[verifier::loop_isolation(false)]
pub fn lpush(&mut self, key: &String, val: String)
        requires
            old(self).wf(),
        ensures
            final(self).wf(),
            final(self).list_at(key@) == seq![val@] + old(self).list_at(key@),
            final(self).lists_same_except(*old(self), key@),
            final(self).zsets_same(*old(self)),
            final(self).locks_same(*old(self)),
    {
        let ghost l0 = old(self).lists@;
        let n = self.lists.len();
        let mut i: usize = 0;
        while i < n
            invariant
                *self == *old(self),
                i <= n,
                n == self.lists@.len(),
                self.lists@ == l0,
                forall|m: int| 0 <= m < i ==> self.lists@[m].0@ != key@,
            decreases n - i,
        {
            if self.lists[i].0 == *key {
                let ghost vi = strs_v(l0[i as int].1@);
                let mut entry = self.lists.remove(i);
                entry.1.insert(0, val);
                let ghost e = entry;
                self.lists.insert(i, entry);
                proof {
                    l0.remove_ensures(i as int);
                    l0.remove(i as int).insert_ensures(i as int, e);
                    assert forall|a: int| 0 <= a < self.lists@.len() implies self.lists@[a]
                        == l0.update(i as int, e)[a] by {
                        if a > i as int {
                            assert(l0.remove(i as int).insert(i as int, e)[a]
                                == l0.remove(i as int)[a - 1]);
                        }
                    }
                    assert(self.lists@ =~= l0.update(i as int, e));
                    assert(strs_v(e.1@) =~= seq![val@] + vi);
                    lemma_list_find_hit(l0, i as int);
                    assert forall|k: Seq<char>|
                        list_find(self.lists@, k) == if k == l0[i as int].0@ {
                            Some(strs_v(e.1@))
                        } else {
                            list_find(l0, k)
                        } by {
                        lemma_list_find_update(l0, i as int, e, k);
                    }
                }
                return;
            }
            i = i + 1;
        }
        let e = (key.clone(), vec![val]);
        let ghost ev = e;
        self.lists.push(e);
        proof {
            assert(self.lists@ =~= l0.push(ev));
            lemma_list_find_absent(l0, key@);
            assert(strs_v(ev.1@) =~= seq![ev.1@[0]@]);
            assert forall|k: Seq<char>|
                list_find(self.lists@, k) == if k == key@ {
                    Some(strs_v(ev.1@))
                } else {
                    list_find(l0, k)
                } by {
                lemma_list_find_push(l0, ev, k);
            }
            assert(self.list_at(key@) =~= seq![val@] + old(self).list_at(key@));
        }
    }

    /// RPOP: take the oldest entry (the right end) of the list under `key`.
    #[verifier::loop_isolation(false)]
pub fn rpop(&mut self, key: &String) -> (r: Option<String>)
        requires
            old(self).wf(),
        ensures
            final(self).wf(),
            (match r {
                Some(v) => old(self).list_at(key@).len() > 0 && v@ == old(self).list_at(
                    key@,
                ).last() && final(self).list_at(key@) == old(self).list_at(key@).drop_last(),
                None => old(self).list_at(key@).len() == 0 && final(self).list_at(key@) == old(self).list_at(key@),
            }),
            final(self).lists_same_except(*old(self), key@),
            final(self).zsets_same(*old(self)),
            final(self).locks_same(*old(self)),
    {
        let ghost l0 = old(self).lists@;
        let n = self.lists.len();
        let mut i: usize = 0;
        while i < n
            invariant
                *self == *old(self),
                i <= n,
                n == self.lists@.len(),
                self.lists@ == l0,
                forall|m: int| 0 <= m < i ==> self.lists@[m].0@ != key@,
            decreases n - i,
        {
            if self.lists[i].0 == *key {
                proof {
                    lemma_list_find_hit(l0, i as int);
                }
                if self.lists[i].1.len() == 0 {
                    return None;
                }
                let ghost vi = strs_v(l0[i as int].1@);
                let mut entry = self.lists.remove(i);
                let out = entry.1.pop();
                let ghost e = entry;
                self.lists.insert(i, entry);
                proof {
                    l0.remove_ensures(i as int);
                    l0.remove(i as int).insert_ensures(i as int, e);
                    assert forall|a: int| 0 <= a < self.lists@.len() implies self.lists@[a]
                        == l0.update(i as int, e)[a] by {
                        if a > i as int {
                            assert(l0.remove(i as int).insert(i as int, e)[a]
                                == l0.remove(i as int)[a - 1]);
                        }
                    }
                    assert(self.lists@ =~= l0.update(i as int, e));
                    assert(strs_v(e.1@) =~= vi.drop_last());
                    assert forall|k: Seq<char>|
                        list_find(self.lists@, k) == if k == l0[i as int].0@ {
                            Some(strs_v(e.1@))
                        } else {
                            list_find(l0, k)
                        } by {
                        lemma_list_find_update(l0, i as int, e, k);
                    }
                }
                return out;
            }
            i = i + 1;
        }
        proof {
            lemma_list_find_absent(l0, key@);
        }
        None
    }

    /// LLEN: length of the list under `key`.
    #[verifier::loop_isolation(false)]
pub fn llen(&self, key: &String) -> (r: usize)
        requires
            self.wf(),
        ensures
            r == self.list_at(key@).len(),
    {
        let ghost l0 = self.lists@;
        let n = self.lists.len();
        let mut i: usize = 0;
        while i < n
            invariant
                i <= n,
                n == self.lists@.len(),
                self.lists@ == l0,
                forall|m: int| 0 <= m < i ==> self.lists@[m].0@ != key@,
            decreases n - i,
        {
            if self.lists[i].0 == *key {
                proof {
                    lemma_list_find_hit(l0, i as int);
                }
                return self.lists[i].1.len();
            }
            i = i + 1;
        }
        proof {
            lemma_list_find_absent(l0, key@);
        }
        0
    }

    // -- sorted-set operations -----------------------------------------------

    /// ZADD: put `member` under `score` (replacing any previous score).
    pub fn zadd(&mut self, w: ZSetKey, score: i64, member: String)
        requires
            old(self).wf(),
        ensures
            final(self).wf(),
            final(self).zv(w) == z_insert(z_remove(old(self).zv(w), member@), score, member@),
            final(self).zsets_same_except(*old(self), w),
            final(self).lists_same(*old(self)),
            final(self).locks_same(*old(self)),
    {
        proof {
            lemma_z_remove_not_has(old(self).zv(w), member@);
        }
        match w {
            ZSetKey::Scheduled => {
                let _ = zrem_vec(&mut self.scheduled, &member);
                zins_vec(&mut self.scheduled, score, member);
            },
            ZSetKey::Retry => {
                let _ = zrem_vec(&mut self.retry, &member);
                zins_vec(&mut self.retry, score, member);
            },
            ZSetKey::Periodic => {
                let _ = zrem_vec(&mut self.periodic, &member);
                zins_vec(&mut self.periodic, score, member);
            },
        }
    }

    /// ZREM: remove `member`; reports whether it was present.
    pub fn zrem(&mut self, w: ZSetKey, member: &String) -> (r: bool)
        requires
            old(self).wf(),
        ensures
            final(self).wf(),
            r == z_has(old(self).zv(w), member@),
            final(self).zv(w) == z_remove(old(self).zv(w), member@),
            final(self).zsets_same_except(*old(self), w),
            final(self).lists_same(*old(self)),
            final(self).locks_same(*old(self)),
    {
        match w {
            ZSetKey::Scheduled => zrem_vec(&mut self.scheduled, member),
            ZSetKey::Retry => zrem_vec(&mut self.retry, member),
            ZSetKey::Periodic => zrem_vec(&mut self.periodic, member),
        }
    }

    /// ZRANGEBYSCORE with LIMIT: the members of the first `limit` entries
    /// whose score is at most `max`, in score order.
    pub fn zrangebyscore_limit(&self, w: ZSetKey, max: i64, limit: usize) -> (r: Vec<String>)
        requires
            self.wf(),
        ensures
            strs_v(r@) == Seq::new(
                vstd::math::min(limit as int, due_n(self.zv(w), max)) as nat,
                |i: int| self.zv(w)[i].1,
            ),
    {
        let v: &Vec<(i64, String)> = match w {
            ZSetKey::Scheduled => &self.scheduled,
            ZSetKey::Retry => &self.retry,
            ZSetKey::Periodic => &self.periodic,
        };
        zdue_vec(v, max, limit)
    }

    /// ZSCORE: the score of `member`, if present.
    pub fn zscore(&self, w: ZSetKey, member: &String) -> (r: Option<i64>)
        requires
            self.wf(),
        ensures
            r == z_score(self.zv(w), member@),
    {
        let v: &Vec<(i64, String)> = match w {
            ZSetKey::Scheduled => &self.scheduled,
            ZSetKey::Retry => &self.retry,
            ZSetKey::Periodic => &self.periodic,
        };
        zscore_vec(v, member)
    }

    /// ZCARD: the number of entries.
    pub fn zlen(&self, w: ZSetKey) -> (r: usize)
        ensures
            r == self.zv(w).len(),
    {
        match w {
            ZSetKey::Scheduled => self.scheduled.len(),
            ZSetKey::Retry => self.retry.len(),
            ZSetKey::Periodic => self.periodic.len(),
        }
    }


    /// DEL on one sorted set: drop all its entries.
    pub fn zclear(&mut self, w: ZSetKey)
        requires
            old(self).wf(),
        ensures
            final(self).wf(),
            final(self).zv(w) == Seq::<(i64, Seq<char>)>::empty(),
            final(self).zsets_same_except(*old(self), w),
            final(self).lists_same(*old(self)),
            final(self).locks_same(*old(self)),
    {
        match w {
            ZSetKey::Scheduled => {
                self.scheduled = Vec::new();
                proof {
                    assert(zents_v(self.scheduled@) =~= Seq::<(i64, Seq<char>)>::empty());
                }
            },
            ZSetKey::Retry => {
                self.retry = Vec::new();
                proof {
                    assert(zents_v(self.retry@) =~= Seq::<(i64, Seq<char>)>::empty());
                }
            },
            ZSetKey::Periodic => {
                self.periodic = Vec::new();
                proof {
                    assert(zents_v(self.periodic@) =~= Seq::<(i64, Seq<char>)>::empty());
                }
            },
        }
    }

    // -- lock operations -----------------------------------------------------

    /// SET NX with expiry: take the lock unless a live one exists.
    #[verifier::loop_isolation(false)]
pub fn lock_set_nx(&mut self, key: &String, holder: &String, expires_at: i64, now: i64) -> (r:
        bool)
        requires
            old(self).wf(),
        ensures
            final(self).wf(),
            r == !old(self).lock_live(key@, now),
            r ==> final(self).lock_at(key@) == Some((holder@, expires_at)),
            !r ==> *final(self) == *old(self),
            final(self).locks_same_except(*old(self), key@),
            final(self).lists_same(*old(self)),
            final(self).zsets_same(*old(self)),
    {
        let ghost l0 = self.locks@;
        let n = self.locks.len();
        let mut i: usize = 0;
        while i < n
            invariant
                *self == *old(self),
                i <= n,
                n == self.locks@.len(),
                self.locks@ == l0,
                forall|m: int| 0 <= m < i ==> self.locks@[m].0@ != key@,
            decreases n - i,
        {
            if self.locks[i].0 == *key {
                proof {
                    lemma_lock_find_hit(l0, i as int);
                }
                if self.locks[i].1.1 > now {
                    return false;
                }
                let mut entry = self.locks.remove(i);
                entry.1 = (holder.clone(), expires_at);
                let ghost e = entry;
                self.locks.insert(i, entry);
                proof {
                    l0.remove_ensures(i as int);
                    l0.remove(i as int).insert_ensures(i as int, e);
                    assert forall|a: int| 0 <= a < self.locks@.len() implies self.locks@[a]
                        == l0.update(i as int, e)[a] by {
                        if a > i as int {
                            assert(l0.remove(i as int).insert(i as int, e)[a]
                                == l0.remove(i as int)[a - 1]);
                        }
                    }
                    assert(self.locks@ =~= l0.update(i as int, e));
                    assert forall|k: Seq<char>|
                        lock_find(self.locks@, k) == if k == l0[i as int].0@ {
                            Some((e.1.0@, e.1.1))
                        } else {
                            lock_find(l0, k)
                        } by {
                        lemma_lock_find_update(l0, i as int, e, k);
                    }
                }
                return true;
            }
            i = i + 1;
        }
        let e = (key.clone(), (holder.clone(), expires_at));
        let ghost ev = e;
        self.locks.push(e);
        proof {
            assert(self.locks@ =~= l0.push(ev));
            lemma_lock_find_absent(l0, key@);
            assert forall|k: Seq<char>|
                lock_find(self.locks@, k) == if k == key@ {
                    Some((ev.1.0@, ev.1.1))
                } else {
                    lock_find(l0, k)
                } by {
                lemma_lock_find_push(l0, ev, k);
            }
        }
        true
    }

    /// GET on a lock key: the holder, if the lock is live at `now`.
    #[verifier::loop_isolation(false)]
pub fn lock_get(&self, key: &String, now: i64) -> (r: Option<String>)
        requires
            self.wf(),
        ensures
            r is Some <==> self.lock_live(key@, now),
            (match r {
                Some(h) => self.lock_at(key@) == Some((h@, self.lock_at(key@)->Some_0.1)),
                None => true,
            }),
    {
        let ghost l0 = self.locks@;
        let n = self.locks.len();
        let mut i: usize = 0;
        while i < n
            invariant
                i <= n,
                n == self.locks@.len(),
                self.locks@ == l0,
                forall|m: int| 0 <= m < i ==> self.locks@[m].0@ != key@,
            decreases n - i,
        {
            if self.locks[i].0 == *key {
                proof {
                    lemma_lock_find_hit(l0, i as int);
                }
                if self.locks[i].1.1 > now {
                    return Some(self.locks[i].1.0.clone());
                } else {
                    return None;
                }
            }
            i = i + 1;
        }
        proof {
            lemma_lock_find_absent(l0, key@);
        }
        None
    }
}

} // verus!
