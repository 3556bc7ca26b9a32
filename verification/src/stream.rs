//! The OS-local stream type the pool actually holds, and the acquire loop
//! that combines the pool's age policy with the liveness probe.

use vstd::prelude::*;

use crate::pool::{
    spec_age, spec_is_fresh, spec_take_fresh, ConnPool, PooledConn, ProbeOutcome, probe_is_alive,
    lemma_take_fresh_staleness,
};
use crate::IDLE_TIMEOUT_MS;

verus! {

/// The Unix-domain socket stream of tokio, held opaquely.
#[verifier::external_type_specification]
#[verifier::external_body]
pub struct ExUnixStream(tokio::net::UnixStream);

/// Relies on tokio's `UnixStream::try_read` with a one-byte buffer: the
/// non-blocking liveness probe. Nothing is assumed of the outcome — it
/// depends on what the peer has done to the stream.
#[verifier::external_body]
fn probe_read(conn: &tokio::net::UnixStream) -> ProbeOutcome {
    let mut buf = [0u8; 1];
    match conn.try_read(&mut buf) {
        Ok(0) => ProbeOutcome::Closed,
        Ok(_) => ProbeOutcome::DataPending,
        Err(e) if e.kind() == std::io::ErrorKind::WouldBlock => ProbeOutcome::NoData,
        Err(_) => ProbeOutcome::Failed,
    }
}

/// Pops idle streams until one is both fresh and passes the liveness
/// probe; stale or dead streams are dropped and their entries leave the
/// pool. `None` when the pool runs out — the caller then connects anew.
/// Whatever is returned was an idle entry below the age limit, and the
/// entries left over are a suffix of the original queue.
pub fn acquire_idle(pool: &mut ConnPool<tokio::net::UnixStream>, now_ms: u64) -> (r: Option<
    tokio::net::UnixStream,
>)
    ensures
        final(pool)@.len() <= old(pool)@.len(),
        old(pool).wf() ==> final(pool).wf(),
        exists|k: int| 0 <= k <= old(pool)@.len() && final(pool)@ == #[trigger] old(pool)@.skip(k),
        r matches Some(c) ==> exists|k: int|
            0 <= k < old(pool)@.len() && #[trigger] old(pool)@[k].conn == c && spec_age(
                now_ms,
                old(pool)@[k].last_used_ms,
            ) < IDLE_TIMEOUT_MS as int,
{
    let ghost orig = pool@;
    proof {
        assert(orig.skip(0) =~= orig);
    }
    loop
        invariant
            orig == old(pool)@,
            pool@.len() <= orig.len(),
            old(pool).wf() ==> pool.wf(),
            exists|k: int| 0 <= k <= orig.len() && pool@ == #[trigger] orig.skip(k),
        decreases pool@.len(),
    {
        let ghost before = pool@;
        proof {
            lemma_take_fresh_staleness(before, now_ms);
        }
        match pool.take_fresh(now_ms) {
            None => {
                proof {
                    let k0 = choose|k: int| 0 <= k <= orig.len() && before == #[trigger] orig.skip(
                        k,
                    );
                    assert(before.skip(before.len() as int) =~= orig.skip(k0 + before.len()));
                    let (rr, rest) = spec_take_fresh(before, now_ms);
                    assert(rest.len() == 0);
                    assert(rest =~= before.skip(before.len() as int));
                }
                return None;
            },
            Some(pc) => {
                proof {
                    let k0 = choose|k: int| 0 <= k <= orig.len() && before == #[trigger] orig.skip(
                        k,
                    );
                    let (rr, rest) = spec_take_fresh(before, now_ms);
                    let k1 = choose|k: int|
                        {
                            &&& 0 <= k < before.len()
                            &&& rr.unwrap() == before[k]
                            &&& rest == #[trigger] before.skip(k + 1)
                            &&& forall|j: int|
                                0 <= j < k ==> !spec_is_fresh(#[trigger] before[j], now_ms)
                        };
                    assert(before.skip(k1 + 1) =~= orig.skip(k0 + k1 + 1));
                    assert(before[k1] == orig[k0 + k1]);
                }
                let alive = probe_is_alive(&probe_read(&pc.conn));
                if alive {
                    return Some(pc.conn);
                }
            },
        }
    }
}

} // verus!
