//! The pooled session manager: up to `capacity` live sessions to the
//! cluster, leased exclusively and validated before reuse.
//!
//! All pool bookkeeping sits behind one lock in the running system, so its
//! state machine is sequential: each acquire consumes the outcomes of the
//! pre-lease health probes and, when a fresh session is needed, the outcome
//! of the connect attempt. Sessions are named by ids that are never reused;
//! a session that fails its probe is discarded and its id never comes back.

use vstd::prelude::*;

use crate::errors::RepoError;

verus! {

/// Connection configuration, read once at process start: contact points are
/// required, credentials only count when both parts are present.
#[derive(Debug)]
pub struct Credentials {
    pub username: String,
    pub password: String,
}

/// The pool's configuration: contact points, optional credentials, the
/// session ceiling and the acquire timeout.
#[derive(Debug)]
pub struct PoolConfig {
    pub contact_points: String,
    pub credentials: Option<Credentials>,
    pub pool_size: usize,
    pub acquire_timeout_ms: u64,
}

impl PoolConfig {
    /// Build the configuration from the raw process settings. Absent contact
    /// points are a startup-fatal configuration error; credentials count only
    /// as a complete pair, so an absent or empty half disables authentication.
    pub fn from_settings(
        contact_points: Option<String>,
        username: Option<String>,
        password: Option<String>,
        pool_size: usize,
        acquire_timeout_ms: u64,
    ) -> (r: Result<PoolConfig, RepoError>)
        ensures
            contact_points is None ==> r == Err::<PoolConfig, RepoError>(RepoError::ConnectFailed),
            contact_points matches Some(cp) ==> r matches Ok(c) && {
                &&& c.contact_points@ == cp@
                &&& c.pool_size == pool_size
                &&& c.acquire_timeout_ms == acquire_timeout_ms
                &&& (username is Some && username->0@.len() > 0 && password is Some
                    && password->0@.len() > 0) ==> (c.credentials is Some
                    && c.credentials->0.username@ == username->0@ && c.credentials->0.password@
                    == password->0@)
                &&& !(username is Some && username->0@.len() > 0 && password is Some
                    && password->0@.len() > 0) ==> c.credentials is None
            },
    {
        let cp = match contact_points {
            Some(cp) => cp,
            None => {
                return Err(RepoError::ConnectFailed);
            },
        };
        let credentials = match (username, password) {
            (Some(u), Some(pw)) => {
                if !u.as_str().is_empty() && !pw.as_str().is_empty() {
                    Some(Credentials { username: u, password: pw })
                } else {
                    None
                }
            },
            _ => None,
        };
        Ok(
            PoolConfig {
                contact_points: cp,
                credentials,
                pool_size,
                acquire_timeout_ms,
            },
        )
    }
}

/// Builds sessions for the pool against a fixed set of contact points, and
/// judges their health.
pub struct CassandraConnectionManager {
    contact_points: String,
}

impl CassandraConnectionManager {
    /// The contact points new sessions are built against.
    pub closed spec fn contact_points_view(self) -> Seq<char> {
        self.contact_points@
    }

    pub fn new(contact_points: &str) -> (r: Self)
        ensures
            r.contact_points_view() == contact_points@,
    {
        CassandraConnectionManager { contact_points: contact_points.to_owned() }
    }

    /// The verdict of the pre-lease health probe: the no-op server-time read
    /// must have executed and returned exactly one row. `None` stands for an
    /// execution error.
    pub fn is_valid_result(&self, row_count: Option<u64>) -> (r: bool)
        ensures
            r == (row_count == Some(1u64)),
    {
        match row_count {
            Some(n) => n == 1,
            None => false,
        }
    }

    /// The manager never declares a connection broken outside the probe.
    pub fn has_broken(&self) -> (r: bool)
        ensures
            !r,
    {
        false
    }
}

/// The least index in `[lo, n)` whose probe passed, if any.
pub open spec fn first_ok_from(probes: Seq<bool>, lo: int, n: int) -> Option<int>
    decreases n - lo,
{
    if lo < 0 || lo >= n {
        None
    } else if probes[lo] {
        Some(lo)
    } else {
        first_ok_from(probes, lo + 1, n)
    }
}

proof fn lemma_first_ok_at(probes: Seq<bool>, lo: int, k: int, n: int)
    requires
        0 <= lo <= k < n,
        forall|j: int| lo <= j < k ==> !probes[j],
        probes[k],
    ensures
        first_ok_from(probes, lo, n) == Some(k),
    decreases k - lo,
{
    if lo < k {
        lemma_first_ok_at(probes, lo + 1, k, n);
    }
}

proof fn lemma_first_ok_none(probes: Seq<bool>, lo: int, n: int)
    requires
        0 <= lo,
        forall|j: int| lo <= j < n ==> !probes[j],
    ensures
        first_ok_from(probes, lo, n) is None,
    decreases n - lo,
{
    if lo < n {
        lemma_first_ok_none(probes, lo + 1, n);
    }
}

/// The pool proper: the free list, the leased set, the id generator and the
/// ceiling. Broken sessions are simply gone — they appear in neither list.
pub struct SessionPool {
    free: Vec<u64>,
    leased: Vec<u64>,
    next_session: u64,
    capacity: usize,
}

impl SessionPool {
    /// The ids of sessions sitting idle, available to the next acquirer;
    /// the last one is tried first.
    pub closed spec fn free_ids(self) -> Seq<u64> {
        self.free@
    }

    /// The ids of sessions currently leased out.
    pub closed spec fn leased_ids(self) -> Seq<u64> {
        self.leased@
    }

    /// The configured ceiling on live sessions.
    pub closed spec fn cap(self) -> int {
        self.capacity as int
    }

    /// How many session ids were ever handed out; ids are never reused.
    pub closed spec fn ids_used(self) -> u64 {
        self.next_session
    }

    /// The pool's invariant: no id appears twice, no id is both free and
    /// leased, every id was handed out before, and the ceiling is kept.
    pub closed spec fn wf(self) -> bool {
        &&& forall|i: int, j: int|
            0 <= i < j < self.free@.len() ==> self.free@[i] != self.free@[j]
        &&& forall|i: int, j: int|
            0 <= i < j < self.leased@.len() ==> self.leased@[i] != self.leased@[j]
        &&& forall|i: int, j: int|
            0 <= i < self.free@.len() && 0 <= j < self.leased@.len() ==> self.free@[i]
                != self.leased@[j]
        &&& forall|i: int| 0 <= i < self.free@.len() ==> #[trigger] self.free@[i] < self.next_session
        &&& forall|i: int|
            0 <= i < self.leased@.len() ==> #[trigger] self.leased@[i] < self.next_session
        &&& self.free@.len() + self.leased@.len() <= self.capacity
    }

    /// An empty pool with the given ceiling.
    pub fn new(capacity: usize) -> (r: SessionPool)
        requires
            capacity >= 1,
        ensures
            r.wf(),
            r.free_ids() == Seq::<u64>::empty(),
            r.leased_ids() == Seq::<u64>::empty(),
            r.cap() == capacity,
            r.ids_used() == 0,
    {
        SessionPool { free: Vec::new(), leased: Vec::new(), next_session: 0, capacity }
    }

    /// Acquire a session for exclusive use. Idle sessions are probed newest
    /// first, each probe's outcome taken from `probe_results` in order; a
    /// failing session is discarded for good. With the free list exhausted,
    /// a fresh session is built if the ceiling allows (`connect_ok` is that
    /// attempt's outcome); otherwise the wait can only time out:
    /// `PoolExhausted`.
    pub fn acquire(&mut self, probe_results: &Vec<bool>, connect_ok: bool) -> (r: Result<
        u64,
        RepoError,
    >)
        requires
            old(self).wf(),
            probe_results@.len() >= old(self).free_ids().len(),
            old(self).ids_used() < u64::MAX,
        ensures
            final(self).wf(),
            final(self).cap() == old(self).cap(),
            // exclusivity: a granted session was not already leased, and is
            // leased afterwards
            r matches Ok(sid) ==> !old(self).leased_ids().contains(sid) && final(self).leased_ids()
                == old(self).leased_ids().push(sid),
            // a session whose probe failed is never granted
            r matches Ok(sid) ==> forall|j: int|
                0 <= j < old(self).free_ids().len() && !probe_results@[j] ==> sid != old(self).free_ids()[old(self).free_ids().len() - 1 - j],
            r matches Err(_) ==> final(self).leased_ids() == old(self).leased_ids() && final(self).free_ids() == Seq::<u64>::empty() && final(self).ids_used() == old(self).ids_used(),
            first_ok_from(probe_results@, 0, old(self).free_ids().len() as int) is None ==> final(self).free_ids() == Seq::<u64>::empty(),
            match first_ok_from(probe_results@, 0, old(self).free_ids().len() as int) {
                Some(k) => r == Ok::<u64, RepoError>(
                    old(self).free_ids()[old(self).free_ids().len() - 1 - k],
                ) && final(self).free_ids() == old(self).free_ids().take(
                    old(self).free_ids().len() - 1 - k,
                ) && final(self).ids_used() == old(self).ids_used(),
                None => {
                    &&& old(self).leased_ids().len() < old(self).cap() && connect_ok ==> (
                    r matches Ok(sid) && sid == old(self).ids_used() && !old(self).free_ids().contains(sid) && final(self).ids_used() == old(self).ids_used()
                        + 1)
                    &&& old(self).leased_ids().len() < old(self).cap() && !connect_ok ==> r
                        == Err::<u64, RepoError>(RepoError::ConnectFailed)
                    &&& old(self).leased_ids().len() >= old(self).cap() ==> r == Err::<
                        u64,
                        RepoError,
                    >(RepoError::PoolExhausted)
                },
            },
    {
        let ghost f0 = self.free@;
        let ghost l0 = self.leased@;
        let ghost n = self.free@.len() as int;
        let mut attempt: usize = 0;
        while self.free.len() > 0
            invariant
                self.wf(),
                self.leased@ == l0,
                self.next_session == old(self).next_session,
                self.capacity == old(self).capacity,
                probe_results@.len() >= n,
                n == f0.len(),
                n <= usize::MAX,
                f0 == old(self).free@,
                l0 == old(self).leased@,
                forall|i: int, j: int| 0 <= i < j < f0.len() ==> f0[i] != f0[j],
                0 <= attempt,
                attempt + self.free@.len() == n,
                self.free@ == f0.take(n - attempt),
                forall|j: int| 0 <= j < attempt ==> !probe_results@[j],
            decreases self.free@.len(),
        {
            let sid = match self.free.pop() {
                Some(s) => s,
                None => {
                    return Err(RepoError::PoolExhausted);
                },
            };
            proof {
                assert(f0.take(n - attempt).drop_last() =~= f0.take(n - attempt - 1));
                assert(sid == f0[n - 1 - attempt]);
            }
            if probe_results[attempt] {
                self.leased.push(sid);
                proof {
                    lemma_first_ok_at(probe_results@, 0, attempt as int, n);
                    assert forall|j: int|
                        0 <= j < n && !probe_results@[j] implies sid != f0[n - 1 - j] by {
                        if j != attempt {
                            assert(f0[n - 1 - attempt] != f0[n - 1 - j]);
                        }
                    }
                }
                return Ok(sid);
            }
            // The probe failed: the session is broken and discarded; it was
            // already popped, so it simply never returns.
            attempt = attempt + 1;
        }
        proof {
            assert(self.free@ =~= Seq::<u64>::empty());
            lemma_first_ok_none(probe_results@, 0, n);
        }
        if self.leased.len() < self.capacity {
            if connect_ok {
                let sid = self.next_session;
                self.next_session = sid + 1;
                self.leased.push(sid);
                proof {
                    assert(!f0.contains(sid));
                }
                Ok(sid)
            } else {
                Err(RepoError::ConnectFailed)
            }
        } else {
            Err(RepoError::PoolExhausted)
        }
    }

    /// Return a still-good session to the free list. The lease ends; the
    /// session becomes available to the next acquirer.
    pub fn release(&mut self, sid: u64)
        requires
            old(self).wf(),
            old(self).leased_ids().contains(sid),
        ensures
            final(self).wf(),
            final(self).cap() == old(self).cap(),
            final(self).ids_used() == old(self).ids_used(),
            final(self).free_ids() == old(self).free_ids().push(sid),
            final(self).leased_ids().len() == old(self).leased_ids().len() - 1,
            forall|x: u64|
                final(self).leased_ids().contains(x) <==> (old(self).leased_ids().contains(x) && x
                    != sid),
    {
        let ghost l0 = self.leased@;
        let mut i: usize = 0;
        while i < self.leased.len()
            invariant
                self.leased@ == l0,
                0 <= i <= l0.len(),
                forall|j: int| 0 <= j < i ==> l0[j] != sid,
                l0.contains(sid),
            ensures
                self.leased@ == l0,
                0 <= i < l0.len(),
                l0[i as int] == sid,
            decreases l0.len() - i,
        {
            if self.leased[i] == sid {
                break;
            }
            i = i + 1;
            proof {
                if i == l0.len() {
                    let w = choose|w: int| 0 <= w < l0.len() && l0[w] == sid;
                    assert(l0[w] != sid);
                }
            }
        }
        self.leased.remove(i);
        self.free.push(sid);
        proof {
            let lr = l0.remove(i as int);
            assert forall|x: u64| lr.contains(x) implies (l0.contains(x) && x != sid) by {
                let p = choose|p: int| 0 <= p < lr.len() && lr[p] == x;
                let p0 = if p < i { p } else { p + 1 };
                assert(lr[p] == l0[p0]);
                assert(p0 != i);
                assert(l0[p0] != l0[i as int]);
            }
            assert forall|x: u64| l0.contains(x) && x != sid implies lr.contains(x) by {
                let p = choose|p: int| 0 <= p < l0.len() && l0[p] == x;
                let pr = if p < i { p } else { p - 1 };
                assert(lr[pr] == l0[p]);
            }
        }
    }

    /// How many sessions sit idle right now; an acquire must bring at
    /// least this many probe outcomes.
    pub fn idle_sessions(&self) -> (r: usize)
        requires
            self.wf(),
        ensures
            r == self.free_ids().len(),
    {
        self.free.len()
    }

    /// How many sessions are live right now, free and leased together.
    pub fn live_sessions(&self) -> (r: usize)
        requires
            self.wf(),
        ensures
            r == self.free_ids().len() + self.leased_ids().len(),
    {
        self.free.len() + self.leased.len()
    }
}

/// The ceiling is kept: free and leased sessions together never exceed the
/// configured capacity.
pub proof fn lemma_pool_ceiling(p: SessionPool)
    requires
        p.wf(),
    ensures
        p.free_ids().len() + p.leased_ids().len() <= p.cap(),
{
}

/// Pool exclusivity: under the pool invariant, no two concurrently held
/// leases ever name the same session. Together with `acquire`'s promise
/// that a granted session was not already leased, a session is exclusive
/// to one holder until released.
pub proof fn lemma_lease_exclusivity(p: SessionPool, i: int, j: int)
    requires
        p.wf(),
        0 <= i < j < p.leased_ids().len(),
    ensures
        p.leased_ids()[i] != p.leased_ids()[j],
{
}

} // verus!
