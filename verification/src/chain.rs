//! The data model of the chain: wei amounts, transactions, and the ghost
//! model of the whole chain against which every query is specified.

use vstd::prelude::*;

use crate::address::Address;

verus! {

/// An unsigned 256-bit wei amount, held as four little-endian 64-bit limbs.
#[derive(Clone, Copy, PartialEq, Eq, Debug)]
#[verifier::ext_equal]
pub struct Wei {
    pub limbs: [u64; 4],
}

/// The number a wei value denotes.
pub open spec fn wei_nat(w: Wei) -> nat {
    (w.limbs@[0] + w.limbs@[1] * 0x1_0000_0000_0000_0000 + w.limbs@[2]
        * 0x1_0000_0000_0000_0000_0000_0000_0000_0000 + w.limbs@[3]
        * 0x1_0000_0000_0000_0000_0000_0000_0000_0000_0000_0000_0000_0000) as nat
}

impl Wei {
    /// The zero amount.
    pub fn zero() -> (r: Wei)
        ensures
            wei_nat(r) == 0,
    {
        broadcast use vstd::array::group_array_axioms;

        let r = Wei { limbs: [0u64, 0u64, 0u64, 0u64] };
        proof {
            assert(wei_nat(r) == 0);
        }
        r
    }

    /// A wei amount small enough for one limb.
    pub fn from_u64(v: u64) -> (r: Wei)
        ensures
            wei_nat(r) == v,
    {
        broadcast use vstd::array::group_array_axioms;

        let r = Wei { limbs: [v, 0u64, 0u64, 0u64] };
        proof {
            assert(wei_nat(r) == v);
        }
        r
    }
}

/// A transaction as the engine reads it: who sent, who received (absent for
/// contract creation), how much, in which block (absent while pending), and
/// under which hash.
#[derive(Clone, Copy, PartialEq, Eq, Debug)]
#[verifier::ext_equal]
pub struct Transaction {
    pub hash: [u8; 32],
    pub block_height: Option<u64>,
    pub from: Address,
    pub to: Option<Address>,
    pub value: Wei,
}

/// A transaction involves `target` when it is the sender or the receiver.
/// Contract creation (`to` absent) involves nobody but the sender.
pub open spec fn tx_matches(tx: Transaction, target: Address) -> bool {
    tx.from == target || tx.to == Some(target)
}

/// The ghost model of the chain at the moment a query runs: the head height,
/// and per height the header timestamp, the transaction list, and every
/// account's balance.
pub struct ChainModel {
    pub head: u64,
    pub ts: Seq<u64>,
    pub txs: Seq<Seq<Transaction>>,
    pub bal: Map<(Address, u64), Wei>,
}

/// Well-formedness of the chain model: one timestamp and one transaction
/// list per height up to the head, timestamps non-decreasing in height, and
/// every transaction recorded under the height of its block.
pub open spec fn chain_wf(m: ChainModel) -> bool {
    &&& m.ts.len() == m.head + 1
    &&& m.txs.len() == m.head + 1
    &&& forall|i: int, j: int| 0 <= i <= j <= m.head ==> m.ts[i] <= m.ts[j]
    &&& forall|h: int, k: int|
        0 <= h <= m.head && 0 <= k < m.txs[h].len() ==> (#[trigger] m.txs[h][k]).block_height
            == Some(h as u64)
}

/// The target time precedes the genesis block.
pub open spec fn before_genesis(m: ChainModel, time: i64) -> bool {
    (time as int) < m.ts[0]
}

/// The transactions of one block that involve `target`, in the order the
/// chain delivered them.
pub open spec fn filter_matching(txs: Seq<Transaction>, target: Address) -> Seq<Transaction> {
    txs.filter(|t: Transaction| tx_matches(t, target))
}

/// All transactions involving `target` in blocks `lo..=hi`, in block order,
/// keeping the in-block order the chain delivered.
pub open spec fn scan_range(m: ChainModel, target: Address, lo: int, hi: int) -> Seq<Transaction>
    decreases hi + 1 - lo,
{
    if lo > hi {
        Seq::empty()
    } else {
        filter_matching(m.txs[lo], target) + scan_range(m, target, lo + 1, hi)
    }
}

/// How many times `tx` occurs in blocks `lo..=hi` of the model.
pub open spec fn range_count(m: ChainModel, tx: Transaction, lo: int, hi: int) -> nat
    decreases hi + 1 - lo,
{
    if lo > hi {
        0
    } else {
        m.txs[lo].to_multiset().count(tx) + range_count(m, tx, lo + 1, hi)
    }
}

/// `b` is the block the resolver owes for time `t`: the timestamp of `b` is
/// at most `t`, and either `b` is the head or the next block is strictly
/// later than `t`.
pub open spec fn resolve_ok(m: ChainModel, t: u64, b: u64) -> bool {
    &&& b <= m.head
    &&& m.ts[b as int] <= t
    &&& b == m.head || m.ts[b as int + 1] > t
}

/// The block height the resolver owes for time `t` (meaningful when the
/// model is well formed and `t` does not precede genesis).
pub open spec fn resolve_spec(m: ChainModel, t: u64) -> u64 {
    choose|b: u64| resolve_ok(m, t, b)
}

/// Some height satisfies the resolver contract whenever `t` does not precede
/// genesis. The helper walks up from a block already known to be early
/// enough.
proof fn lemma_resolve_exists_from(m: ChainModel, t: u64, lo: u64)
    requires
        chain_wf(m),
        lo <= m.head,
        m.ts[lo as int] <= t,
    ensures
        exists|b: u64| resolve_ok(m, t, b),
    decreases m.head - lo,
{
    if lo == m.head || m.ts[lo as int + 1] > t {
        assert(resolve_ok(m, t, lo));
    } else {
        lemma_resolve_exists_from(m, t, (lo + 1) as u64);
    }
}

pub proof fn lemma_resolve_exists(m: ChainModel, t: u64)
    requires
        chain_wf(m),
        m.ts[0] <= t,
    ensures
        exists|b: u64| resolve_ok(m, t, b),
        resolve_ok(m, t, resolve_spec(m, t)),
{
    lemma_resolve_exists_from(m, t, 0);
}

/// At most one height satisfies the resolver contract.
pub proof fn lemma_resolve_unique(m: ChainModel, t: u64, b1: u64, b2: u64)
    requires
        chain_wf(m),
        resolve_ok(m, t, b1),
        resolve_ok(m, t, b2),
    ensures
        b1 == b2,
{
    if b1 < b2 {
        assert(m.ts[b1 as int + 1] <= m.ts[b2 as int]);
    } else if b2 < b1 {
        assert(m.ts[b2 as int + 1] <= m.ts[b1 as int]);
    }
}

} // verus!
