//! A verified in-memory chain: an [`RpcClient`] whose model is plain data.
//! It serves the tests as the engine's counterparty — it can be told to fail
//! in transport a number of times before answering, and it counts the calls
//! it sees.

use vstd::prelude::*;

use crate::address::Address;
use crate::chain::{chain_wf, ChainModel, Transaction, Wei};
use crate::rpc::{RpcClient, RpcError};

verus! {

/// The transaction lists of the blocks, one sequence per height.
pub open spec fn blocks_model(blocks: Seq<Vec<Transaction>>) -> Seq<Seq<Transaction>> {
    blocks.map_values(|b: Vec<Transaction>| b@)
}

/// The chain data a mock can be built from: one timestamp, one transaction
/// list and one balance per height, at least the genesis block, timestamps
/// non-decreasing, and every transaction annotated with its block's height.
pub open spec fn consistent_chain_data(
    timestamps: Seq<u64>,
    blocks: Seq<Vec<Transaction>>,
    balances: Seq<Wei>,
) -> bool {
    &&& timestamps.len() >= 1
    &&& blocks.len() == timestamps.len()
    &&& balances.len() == timestamps.len()
    &&& forall|i: int, j: int|
        0 <= i <= j < timestamps.len() ==> timestamps[i] <= timestamps[j]
    &&& forall|h: int, k: int|
        0 <= h < blocks.len() && 0 <= k < blocks[h]@.len() ==> (#[trigger] blocks[h]@[k]).block_height
            == Some(h as u64)
}

/// An in-memory chain behind the [`RpcClient`] interface. The first
/// `transport_failures` calls fail in transport, the next
/// `semantic_failures` calls report the block unavailable; `calls_made`
/// counts every call received (saturating).
pub struct MockClient {
    pub timestamps: Vec<u64>,
    pub blocks: Vec<Vec<Transaction>>,
    pub balances: Vec<Wei>,
    pub transport_failures: u64,
    pub semantic_failures: u64,
    pub calls_made: u64,
}

/// Adjacent monotonicity extends to all pairs.
proof fn lemma_mono_range(s: Seq<u64>, i: int, j: int)
    requires
        forall|k: int| 0 <= k < s.len() - 1 ==> #[trigger] s[k] <= s[k + 1],
        0 <= i <= j < s.len(),
    ensures
        s[i] <= s[j],
    decreases j - i,
{
    if i < j {
        lemma_mono_range(s, i, j - 1);
        assert(s[j - 1] <= s[j]);
    }
}

impl MockClient {
    /// Builds a mock over the given chain data, checking its consistency;
    /// inconsistent data yields `None`.
    pub fn new(
        timestamps: Vec<u64>,
        blocks: Vec<Vec<Transaction>>,
        balances: Vec<Wei>,
        transport_failures: u64,
        semantic_failures: u64,
    ) -> (r: Option<MockClient>)
        ensures
            r is Some <==> consistent_chain_data(timestamps@, blocks@, balances@),
            r matches Some(c) ==> {
                &&& chain_wf(c.model())
                &&& c.model().ts == timestamps@
                &&& c.model().head + 1 == timestamps@.len()
                &&& c.model().txs == blocks_model(blocks@)
                &&& forall|a: Address, h: u64|
                    h < balances@.len() ==> c.model().bal[(a, h)] == balances@[h as int]
                &&& c.transport_failures == transport_failures
                &&& c.semantic_failures == semantic_failures
                &&& c.calls_made == 0
            },
    {
        if timestamps.len() == 0 || blocks.len() != timestamps.len() || balances.len()
            != timestamps.len() {
            return None;
        }
        let mut i: usize = 1;
        while i < timestamps.len()
            invariant
                1 <= i <= timestamps@.len(),
                forall|k: int| 0 <= k < i - 1 ==> #[trigger] timestamps@[k] <= timestamps@[k + 1],
            decreases timestamps@.len() - i,
        {
            if timestamps[i - 1] > timestamps[i] {
                proof {
                    assert(!consistent_chain_data(timestamps@, blocks@, balances@));
                }
                return None;
            }
            i = i + 1;
        }
        let mut h: usize = 0;
        while h < blocks.len()
            invariant
                0 <= h <= blocks@.len(),
                forall|g: int, k: int|
                    0 <= g < h && 0 <= k < blocks@[g]@.len() ==> (#[trigger] blocks@[g]@[k]).block_height
                        == Some(g as u64),
                blocks@.len() == timestamps@.len(),
                timestamps@.len() >= 1,
            decreases blocks@.len() - h,
        {
            let block = &blocks[h];
            let mut k: usize = 0;
            while k < block.len()
                invariant
                    0 <= k <= block@.len(),
                    block == blocks@[h as int],
                    h < blocks@.len() <= u64::MAX,
                    forall|j: int|
                        0 <= j < k ==> (#[trigger] block@[j]).block_height == Some(h as u64),
                decreases block@.len() - k,
            {
                let ok = match block[k].block_height {
                    Some(bh) => bh == h as u64,
                    None => false,
                };
                if !ok {
                    proof {
                        assert(!consistent_chain_data(timestamps@, blocks@, balances@));
                    }
                    return None;
                }
                k = k + 1;
            }
            h = h + 1;
        }
        let c = MockClient {
            timestamps,
            blocks,
            balances,
            transport_failures,
            semantic_failures,
            calls_made: 0,
        };
        proof {
            assert forall|i0: int, j0: int|
                0 <= i0 <= j0 < c.timestamps@.len() implies c.timestamps@[i0]
                <= c.timestamps@[j0] by {
                lemma_mono_range(c.timestamps@, i0, j0);
            }
            assert(consistent_chain_data(c.timestamps@, c.blocks@, c.balances@));
            assert(chain_wf(c.model()));
        }
        Some(c)
    }

    /// Counts one received call, saturating.
    fn note_call(&mut self)
        ensures
            final(self).timestamps == old(self).timestamps,
            final(self).blocks == old(self).blocks,
            final(self).balances == old(self).balances,
            final(self).transport_failures == old(self).transport_failures,
            final(self).semantic_failures == old(self).semantic_failures,
    {
        if self.calls_made < u64::MAX {
            self.calls_made = self.calls_made + 1;
        }
    }

    /// Consumes one scripted failure, if one is pending: a transport failure
    /// first, then a semantic one.
    fn take_failure(&mut self) -> (failed: Option<RpcError>)
        ensures
            final(self).timestamps == old(self).timestamps,
            final(self).blocks == old(self).blocks,
            final(self).balances == old(self).balances,
            failed is None <==> (old(self).transport_failures == 0 && old(self).semantic_failures
                == 0),
    {
        if self.transport_failures > 0 {
            self.transport_failures = self.transport_failures - 1;
            Some(RpcError::Transport)
        } else if self.semantic_failures > 0 {
            self.semantic_failures = self.semantic_failures - 1;
            Some(RpcError::BlockUnavailable)
        } else {
            None
        }
    }
}

impl RpcClient for MockClient {
    open spec fn model(&self) -> ChainModel {
        ChainModel {
            head: if self.timestamps@.len() == 0 {
                0
            } else {
                (self.timestamps@.len() - 1) as u64
            },
            ts: self.timestamps@,
            txs: blocks_model(self.blocks@),
            bal: Map::new(
                |k: (Address, u64)| k.1 < self.balances@.len(),
                |k: (Address, u64)| self.balances@[k.1 as int],
            ),
        }
    }

    fn current_block_number(&mut self) -> (r: Result<u64, RpcError>) {
        self.note_call();
        match self.take_failure() {
            Some(_) => {
                return Err(RpcError::Transport);
            },
            None => {},
        }
        if self.timestamps.len() == 0 {
            Ok(0)
        } else {
            Ok((self.timestamps.len() - 1) as u64)
        }
    }

    fn block_timestamp(&mut self, height: u64) -> (r: Result<u64, RpcError>) {
        self.note_call();
        match self.take_failure() {
            Some(e) => {
                return Err(e);
            },
            None => {},
        }
        if height < self.timestamps.len() as u64 {
            Ok(self.timestamps[height as usize])
        } else {
            Err(RpcError::BlockUnavailable)
        }
    }

    fn block_with_transactions(&mut self, height: u64) -> (r: Result<Vec<Transaction>, RpcError>) {
        self.note_call();
        match self.take_failure() {
            Some(e) => {
                return Err(e);
            },
            None => {},
        }
        if height < self.blocks.len() as u64 {
            let block = &self.blocks[height as usize];
            Ok(block.clone())
        } else {
            Err(RpcError::BlockUnavailable)
        }
    }

    fn balance_of(&mut self, address: &Address, height: u64) -> (r: Result<Wei, RpcError>) {
        self.note_call();
        match self.take_failure() {
            Some(e) => {
                return Err(e);
            },
            None => {},
        }
        if height < self.balances.len() as u64 {
            Ok(self.balances[height as usize])
        } else {
            Err(RpcError::BlockUnavailable)
        }
    }
}

} // verus!
