//! Timestamp-to-block resolution: binary search over block header timestamps
//! for the last block settled at a given instant.

use vstd::prelude::*;

use crate::chain::{chain_wf, lemma_resolve_exists, lemma_resolve_unique, resolve_ok, resolve_spec, ChainModel};
use crate::rpc::{get_block_timestamp, RpcClient, RpcError};

verus! {

/// The greatest block height whose header timestamp is at most
/// `target_time`, found by binary search over `O(log head)` header reads,
/// each through the retry shim. When several consecutive blocks share the
/// target timestamp, the largest such height is returned; when even the head
/// is no later than `target_time`, the head is returned.
#[verifier::loop_isolation(false)]
pub fn resolve_timestamp<C: RpcClient>(client: &mut C, target_time: u64) -> (r: Result<
    u64,
    RpcError,
>)
    requires
        chain_wf(old(client).model()),
        old(client).model().ts[0] <= target_time,
    ensures
        final(client).model() == old(client).model(),
        r matches Ok(b) ==> resolve_ok(old(client).model(), target_time, b),
        r matches Ok(b) ==> b == resolve_spec(old(client).model(), target_time),
{
    let ghost m = old(client).model();
    let head = match client.current_block_number() {
        Ok(h) => h,
        Err(e) => {
            return Err(e);
        },
    };
    let ts_head = match get_block_timestamp(client, head) {
        Ok(t) => t,
        Err(e) => {
            return Err(e);
        },
    };
    if ts_head <= target_time {
        proof {
            assert(resolve_ok(m, target_time, head));
            lemma_resolve_exists(m, target_time);
            lemma_resolve_unique(m, target_time, head, resolve_spec(m, target_time));
        }
        return Ok(head);
    }
    let mut lower_block: u64 = 0;
    let mut upper_block: u64 = head;
    while upper_block - lower_block > 1
        invariant
            client.model() == m,
            chain_wf(m),
            lower_block < upper_block <= m.head,
            m.ts[lower_block as int] <= target_time,
            m.ts[upper_block as int] > target_time,
        decreases upper_block - lower_block,
    {
        let current_block = lower_block + (upper_block - lower_block) / 2;
        let current_block_time = match get_block_timestamp(client, current_block) {
            Ok(t) => t,
            Err(e) => {
                return Err(e);
            },
        };
        if current_block_time > target_time {
            upper_block = current_block;
        } else {
            lower_block = current_block;
        }
    }
    proof {
        assert(resolve_ok(m, target_time, lower_block));
        lemma_resolve_exists(m, target_time);
        lemma_resolve_unique(m, target_time, lower_block, resolve_spec(m, target_time));
    }
    Ok(lower_block)
}

/// Resolver monotonicity: a later target time never resolves to an earlier
/// block.
pub proof fn lemma_resolver_monotone(m: ChainModel, t1: u64, t2: u64)
    requires
        chain_wf(m),
        m.ts[0] <= t1,
        t1 <= t2,
    ensures
        resolve_spec(m, t1) <= resolve_spec(m, t2),
{
    lemma_resolve_exists(m, t1);
    lemma_resolve_exists(m, t2);
    let b1 = resolve_spec(m, t1);
    let b2 = resolve_spec(m, t2);
    if b1 > b2 {
        assert(m.ts[b2 as int + 1] <= m.ts[b1 as int]);
    }
}

} // verus!
