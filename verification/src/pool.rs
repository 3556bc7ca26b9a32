//! The connection pool: a bounded FIFO cache of idle streams with age-based
//! eviction and a liveness policy, plus the acquire loop for the OS-local
//! socket streams the client actually pools.

use vstd::prelude::*;

use crate::{IDLE_TIMEOUT_MS, MAX_POOL_SIZE};

verus! {

/// One idle connection and the caller-supplied monotonic timestamp, in
/// milliseconds, of the moment it was last used.
pub struct PooledConn<C> {
    pub conn: C,
    pub last_used_ms: u64,
}

/// The age of an entry at time `now_ms`; a clock that appears to run
/// backwards counts as age zero.
pub open spec fn spec_age(now_ms: u64, last_used_ms: u64) -> int {
    if now_ms >= last_used_ms {
        now_ms - last_used_ms
    } else {
        0
    }
}

/// An entry young enough to be considered for reuse.
pub open spec fn spec_is_fresh<C>(e: PooledConn<C>, now_ms: u64) -> bool {
    spec_age(now_ms, e.last_used_ms) < IDLE_TIMEOUT_MS as int
}

/// What popping the oldest fresh entry does: stale entries at the front are
/// dropped; the first fresh entry, if any, leaves the pool and is returned.
pub open spec fn spec_take_fresh<C>(s: Seq<PooledConn<C>>, now_ms: u64) -> (
    Option<PooledConn<C>>,
    Seq<PooledConn<C>>,
)
    decreases s.len(),
{
    if s.len() == 0 {
        (None, s)
    } else if spec_is_fresh(s[0], now_ms) {
        (Some(s[0]), s.drop_first())
    } else {
        spec_take_fresh(s.drop_first(), now_ms)
    }
}

/// What releasing a connection does: appended at the back while the pool is
/// below capacity, dropped otherwise.
pub open spec fn spec_release<C>(s: Seq<PooledConn<C>>, e: PooledConn<C>) -> Seq<PooledConn<C>> {
    if s.len() < MAX_POOL_SIZE as int {
        s.push(e)
    } else {
        s
    }
}

/// A bounded FIFO cache of idle connections, oldest first.
pub struct ConnPool<C> {
    entries: Vec<PooledConn<C>>,
}

impl<C> View for ConnPool<C> {
    type V = Seq<PooledConn<C>>;

    closed spec fn view(&self) -> Seq<PooledConn<C>> {
        self.entries@
    }
}

impl<C> ConnPool<C> {
    /// The pool never holds more than its capacity.
    pub open spec fn wf(&self) -> bool {
        self@.len() <= MAX_POOL_SIZE as int
    }

    /// A new, empty pool.
    pub fn new() -> (r: Self)
        ensures
            r@ == Seq::<PooledConn<C>>::empty(),
            r.wf(),
    {
        let r = ConnPool { entries: Vec::new() };
        proof {
            assert(r@ =~= Seq::<PooledConn<C>>::empty());
        }
        r
    }

    /// How many idle connections the pool holds.
    pub fn len(&self) -> (r: usize)
        ensures
            r == self@.len(),
    {
        self.entries.len()
    }

    /// Pops entries from the front, dropping stale ones, until a fresh one
    /// is found or the pool is empty.
    pub fn take_fresh(&mut self, now_ms: u64) -> (r: Option<PooledConn<C>>)
        ensures
            (r, final(self)@) == spec_take_fresh(old(self)@, now_ms),
            final(self)@.len() <= old(self)@.len(),
            old(self).wf() ==> final(self).wf(),
        decreases old(self)@.len(),
    {
        proof {
            lemma_take_fresh_shrinks(old(self)@, now_ms);
        }
        if self.entries.len() == 0 {
            return None;
        }
        let e = self.entries.remove(0);
        assert(self.entries@ =~= old(self)@.drop_first());
        let age = if now_ms >= e.last_used_ms {
            now_ms - e.last_used_ms
        } else {
            0
        };
        if age < IDLE_TIMEOUT_MS {
            Some(e)
        } else {
            self.take_fresh(now_ms)
        }
    }

    /// Pushes a connection to the back of the pool when below capacity;
    /// at capacity the connection is dropped instead and the pool does not
    /// grow. Returns whether the connection was kept.
    pub fn release(&mut self, conn: C, now_ms: u64) -> (r: bool)
        ensures
            final(self)@ == spec_release(
                old(self)@,
                PooledConn { conn, last_used_ms: now_ms },
            ),
            r == (old(self)@.len() < MAX_POOL_SIZE as int),
            old(self).wf() ==> final(self).wf(),
    {
        if self.entries.len() < MAX_POOL_SIZE {
            self.entries.push(PooledConn { conn, last_used_ms: now_ms });
            true
        } else {
            false
        }
    }
}

/// Taking an entry out never grows the remainder.
pub proof fn lemma_take_fresh_shrinks<C>(s: Seq<PooledConn<C>>, now_ms: u64)
    ensures
        spec_take_fresh(s, now_ms).1.len() <= s.len(),
    decreases s.len(),
{
    if s.len() > 0 && !spec_is_fresh(s[0], now_ms) {
        lemma_take_fresh_shrinks(s.drop_first(), now_ms);
    }
}

/// The staleness policy: an entry whose age has reached the idle timeout is
/// never returned — the entry that comes back is fresh, everything passed
/// over on the way to it was stale and left the pool, and what remains is a
/// suffix of the original entries.
pub proof fn lemma_take_fresh_staleness<C>(s: Seq<PooledConn<C>>, now_ms: u64)
    ensures
        ({
            let (r, rest) = spec_take_fresh(s, now_ms);
            &&& (r matches Some(e) ==> spec_is_fresh(e, now_ms))
            &&& (r is None ==> rest.len() == 0 && (forall|j: int|
                0 <= j < s.len() ==> !spec_is_fresh(#[trigger] s[j], now_ms)))
            &&& exists|k: int| 0 <= k <= s.len() && rest == #[trigger] s.skip(k)
            &&& (r matches Some(e) ==> exists|k: int|
                {
                    &&& 0 <= k < s.len()
                    &&& e == s[k]
                    &&& rest == #[trigger] s.skip(k + 1)
                    &&& forall|j: int| 0 <= j < k ==> !spec_is_fresh(#[trigger] s[j], now_ms)
                })
        }),
    decreases s.len(),
{
    if s.len() == 0 {
        assert(s.skip(0) =~= s);
    } else if spec_is_fresh(s[0], now_ms) {
        assert(s.drop_first() =~= s.skip(1));
    } else {
        lemma_take_fresh_staleness(s.drop_first(), now_ms);
        let (r, rest) = spec_take_fresh(s, now_ms);
        let t = s.drop_first();
        assert(forall|j: int| 1 <= j < s.len() ==> s[j] == t[j - 1]);
        let k0 = choose|k: int| 0 <= k <= t.len() && rest == #[trigger] t.skip(k);
        assert(t.skip(k0) =~= s.skip(k0 + 1));
        assert(rest == s.skip(k0 + 1));
        if r is Some {
            let e = r.unwrap();
            let k1 = choose|k: int|
                {
                    &&& 0 <= k < t.len()
                    &&& e == t[k]
                    &&& rest == #[trigger] t.skip(k + 1)
                    &&& forall|j: int| 0 <= j < k ==> !spec_is_fresh(#[trigger] t[j], now_ms)
                };
            assert(t.skip(k1 + 1) =~= s.skip(k1 + 2));
            assert(e == s[k1 + 1]);
            assert(forall|j: int| 0 <= j < k1 + 1 ==> !spec_is_fresh(#[trigger] s[j], now_ms));
        }
    }
}

/// The capacity policy: both pool steps keep the idle length within the
/// capacity bound, and a release at capacity leaves the pool exactly as it
/// was — so no sequence of acquire and release steps can ever grow the
/// pool past its capacity.
pub proof fn lemma_pool_capacity<C>(s: Seq<PooledConn<C>>, e: PooledConn<C>, now_ms: u64)
    requires
        s.len() <= MAX_POOL_SIZE as int,
    ensures
        spec_take_fresh(s, now_ms).1.len() <= MAX_POOL_SIZE as int,
        spec_release(s, e).len() <= MAX_POOL_SIZE as int,
        s.len() == MAX_POOL_SIZE as int ==> spec_release(s, e) == s,
{
    lemma_take_fresh_shrinks(s, now_ms);
}

/// What a one-byte non-blocking probe read on an idle stream reported.
pub enum ProbeOutcome {
    /// The read returned zero bytes: the peer has closed the stream.
    Closed,
    /// The read returned data: the stream carries stray bytes from an
    /// earlier exchange and cannot be trusted.
    DataPending,
    /// The read would block: nothing is pending and the peer holds the
    /// stream open.
    NoData,
    /// The read failed with a real error.
    Failed,
}

/// The liveness policy: only a probe that would block marks the connection
/// alive; a read that returns any byte count — zero or more — or an error
/// marks it dead, and the acquire loop then discards it.
pub fn probe_is_alive(outcome: &ProbeOutcome) -> (r: bool)
    ensures
        r == (outcome is NoData),
{
    match outcome {
        ProbeOutcome::NoData => true,
        ProbeOutcome::Closed => false,
        ProbeOutcome::DataPending => false,
        ProbeOutcome::Failed => false,
    }
}

} // verus!
