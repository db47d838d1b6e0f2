//! The transaction scanner: fetch every block of an inclusive range through
//! the retry shim, keep the transactions that involve the target account,
//! and return them in ascending block order. The laws proved here: the
//! filter is sound (everything returned involves the target), complete
//! (everything that involves the target in the range is returned, exactly as
//! often as it occurs), and the output is ordered by block height.

use vstd::prelude::*;
use vstd::multiset::Multiset;

use crate::address::{address_chars, format_address, Address};
use crate::chain::{chain_wf, filter_matching, range_count, scan_range, tx_matches, ChainModel, Transaction};
use crate::rpc::{repeat_if_network_error, RpcClient, RpcError, RpcRequest, RpcResponse};

verus! {

/// The transactions of `transactions` that involve `target`, in their given
/// order.
pub fn filter_transactions(transactions: Vec<Transaction>, target: &Address) -> (r: Vec<
    Transaction,
>)
    ensures
        r@ == filter_matching(transactions@, *target),
{
    let mut r: Vec<Transaction> = Vec::new();
    let mut i: usize = 0;
    proof {
        reveal(Seq::filter);
        assert(transactions@.take(0int).filter(|t: Transaction| tx_matches(t, *target))
            =~= Seq::empty());
    }
    while i < transactions.len()
        invariant
            i <= transactions.len(),
            r@ == filter_matching(transactions@.take(i as int), *target),
        decreases transactions.len() - i,
    {
        let tx = transactions[i];
        let involves = tx.from.eq_addr(target) || (match &tx.to {
            Some(to) => to.eq_addr(target),
            None => false,
        });
        proof {
            assert(involves == tx_matches(tx, *target));
        }
        if involves {
            r.push(tx);
        }
        proof {
            reveal(Seq::filter);
            let s = transactions@;
            assert(s.take(i + 1).drop_last() =~= s.take(i as int));
            assert(s.take(i + 1).last() == s[i as int]);
        }
        i = i + 1;
    }
    proof {
        assert(transactions@.take(transactions.len() as int) =~= transactions@);
    }
    r
}

/// Fetches the block at `block_number` through the retry shim and keeps the
/// transactions that involve `address`.
pub fn get_block_transactions<C: RpcClient>(
    client: &mut C,
    address: &Address,
    block_number: u64,
) -> (r: Result<Vec<Transaction>, RpcError>)
    requires
        block_number <= old(client).model().head,
    ensures
        final(client).model() == old(client).model(),
        r matches Ok(v) ==> v@ == filter_matching(
            old(client).model().txs[block_number as int],
            *address,
        ),
{
    match repeat_if_network_error(client, RpcRequest::BlockTransactions(block_number)) {
        Ok(resp) => match resp {
            RpcResponse::BlockTransactions(txs) => Ok(filter_transactions(txs, address)),
            _ => {
                proof {
                    assert(false);
                }
                Err(RpcError::Malformed)
            },
        },
        Err(e) => Err(e),
    }
}

/// Splitting one block off the top of a scan.
proof fn lemma_scan_range_snoc(m: ChainModel, target: Address, lo: int, hi: int)
    requires
        lo <= hi,
    ensures
        scan_range(m, target, lo, hi) == scan_range(m, target, lo, hi - 1) + filter_matching(
            m.txs[hi],
            target,
        ),
    decreases hi - lo,
{
    if lo == hi {
        assert(scan_range(m, target, lo + 1, hi) =~= Seq::empty());
        assert(scan_range(m, target, lo, hi - 1) =~= Seq::empty());
        assert(scan_range(m, target, lo, hi) =~= scan_range(m, target, lo, hi - 1)
            + filter_matching(m.txs[hi], target));
    } else {
        lemma_scan_range_snoc(m, target, lo + 1, hi);
        assert(scan_range(m, target, lo, hi) =~= scan_range(m, target, lo, hi - 1)
            + filter_matching(m.txs[hi], target));
    }
}

/// All transactions involving `address` in blocks
/// `since_block_number..=upto_block_number`, in ascending block order, each
/// block read through the retry shim. The whole scan fails on the first
/// block that cannot be read; nothing partial is returned.
pub fn transations_of_since_upto<C: RpcClient>(
    client: &mut C,
    address: &Address,
    since_block_number: u64,
    upto_block_number: u64,
) -> (r: Result<Vec<Transaction>, RpcError>)
    requires
        chain_wf(old(client).model()),
        since_block_number <= upto_block_number ==> upto_block_number <= old(
            client,
        ).model().head,
    ensures
        final(client).model() == old(client).model(),
        r matches Ok(v) ==> v@ == scan_range(
            old(client).model(),
            *address,
            since_block_number as int,
            upto_block_number as int,
        ),
        since_block_number > upto_block_number ==> r is Ok,
{
    let ghost m = old(client).model();
    let mut res: Vec<Transaction> = Vec::new();
    if since_block_number > upto_block_number {
        return Ok(res);
    }
    let mut block_number: u64 = since_block_number;
    while block_number <= upto_block_number
        invariant_except_break
            since_block_number <= block_number <= upto_block_number,
            res@ == scan_range(
                m,
                *address,
                since_block_number as int,
                block_number as int - 1,
            ),
        invariant
            client.model() == old(client).model(),
            m == old(client).model(),
            chain_wf(m),
            upto_block_number <= m.head,
        ensures
            res@ == scan_range(
                m,
                *address,
                since_block_number as int,
                upto_block_number as int,
            ),
        decreases upto_block_number - block_number,
    {
        let mut block = match get_block_transactions(client, address, block_number) {
            Ok(v) => v,
            Err(e) => {
                return Err(e);
            },
        };
        res.append(&mut block);
        proof {
            lemma_scan_range_snoc(m, *address, since_block_number as int, block_number as int);
        }
        if block_number == upto_block_number {
            break ;
        }
        block_number = block_number + 1;
    }
    Ok(res)
}

/// Every transaction a scan returns involves the target: it is the sender or
/// the receiver.
pub proof fn lemma_scan_sound(m: ChainModel, target: Address, lo: int, hi: int)
    ensures
        forall|k: int|
            0 <= k < scan_range(m, target, lo, hi).len() ==> tx_matches(
                #[trigger] scan_range(m, target, lo, hi)[k],
                target,
            ),
    decreases hi + 1 - lo,
{
    if lo <= hi {
        lemma_scan_sound(m, target, lo + 1, hi);
        let filtered = filter_matching(m.txs[lo], target);
        assert forall|k: int|
            0 <= k < scan_range(m, target, lo, hi).len() implies tx_matches(
            #[trigger] scan_range(m, target, lo, hi)[k],
            target,
        ) by {
            if k < filtered.len() {
                m.txs[lo].lemma_filter_pred(|t: Transaction| tx_matches(t, target), k);
            } else {
                assert(scan_range(m, target, lo, hi)[k] == scan_range(m, target, lo + 1, hi)[k
                    - filtered.len()]);
            }
        }
    }
}

/// Filtering a block keeps each transaction that involves the target exactly
/// as often as the block holds it, and drops every other transaction.
proof fn lemma_filter_count(s: Seq<Transaction>, target: Address, tx: Transaction)
    ensures
        filter_matching(s, target).to_multiset().count(tx) == if tx_matches(tx, target) {
            s.to_multiset().count(tx)
        } else {
            0
        },
    decreases s.len(),
{
    broadcast use vstd::seq_lib::group_to_multiset_ensures;
    broadcast use vstd::multiset::group_multiset_axioms;

    reveal(Seq::filter);
    if s.len() == 0 {
        assert(filter_matching(s, target) =~= Seq::<Transaction>::empty());
    } else {
        let s0 = s.drop_last();
        lemma_filter_count(s0, target, tx);
        assert(s0.push(s.last()) =~= s);
        if tx_matches(s.last(), target) {
            assert(filter_matching(s, target) == filter_matching(s0, target).push(s.last()));
        } else {
            assert(filter_matching(s, target) == filter_matching(s0, target));
        }
    }
}

/// Scanner completeness: a transaction involving the target occurs in the
/// scan of `lo..=hi` exactly as often as it occurs in those blocks — in
/// particular, one that sits in exactly one block appears exactly once — and
/// a transaction not involving the target never appears.
pub proof fn lemma_scan_complete(m: ChainModel, target: Address, lo: int, hi: int, tx: Transaction)
    ensures
        scan_range(m, target, lo, hi).to_multiset().count(tx) == if tx_matches(tx, target) {
            range_count(m, tx, lo, hi)
        } else {
            0
        },
    decreases hi + 1 - lo,
{
    broadcast use vstd::seq_lib::group_to_multiset_ensures;
    broadcast use vstd::multiset::group_multiset_axioms;

    if lo > hi {
        assert(scan_range(m, target, lo, hi).to_multiset() =~= Multiset::<Transaction>::empty());
    } else {
        lemma_scan_complete(m, target, lo + 1, hi, tx);
        lemma_filter_count(m.txs[lo], target, tx);
        vstd::seq_lib::lemma_multiset_commutative(
            filter_matching(m.txs[lo], target),
            scan_range(m, target, lo + 1, hi),
        );
    }
}

/// The block height a transaction reports, zero while pending.
pub open spec fn height_of(t: Transaction) -> u64 {
    match t.block_height {
        Some(h) => h,
        None => 0,
    }
}

/// The sequence is non-decreasing in block height.
pub open spec fn sorted_by_height(s: Seq<Transaction>) -> bool {
    forall|i: int, j: int|
        0 <= i <= j < s.len() ==> height_of(#[trigger] s[i]) <= height_of(#[trigger] s[j])
}

/// Filtering keeps the per-block height annotation.
proof fn lemma_filter_heights(s: Seq<Transaction>, target: Address, h: u64)
    requires
        forall|k: int| 0 <= k < s.len() ==> (#[trigger] s[k]).block_height == Some(h),
    ensures
        forall|k: int|
            0 <= k < filter_matching(s, target).len() ==> (#[trigger] filter_matching(s, target)[k]).block_height
                == Some(h),
    decreases s.len(),
{
    reveal(Seq::filter);
    if s.len() > 0 {
        let s0 = s.drop_last();
        lemma_filter_heights(s0, target, h);
        if tx_matches(s.last(), target) {
            assert(filter_matching(s, target) == filter_matching(s0, target).push(s.last()));
        } else {
            assert(filter_matching(s, target) == filter_matching(s0, target));
        }
    }
}

/// Every transaction of a well-formed scan carries the height of its block,
/// which lies in the scanned range.
proof fn lemma_scan_heights(m: ChainModel, target: Address, lo: int, hi: int)
    requires
        chain_wf(m),
        0 <= lo,
        hi <= m.head,
    ensures
        forall|k: int|
            0 <= k < scan_range(m, target, lo, hi).len() ==> {
                let t = #[trigger] scan_range(m, target, lo, hi)[k];
                t.block_height == Some(height_of(t)) && lo <= height_of(t) <= hi
            },
    decreases hi + 1 - lo,
{
    if lo <= hi {
        lemma_scan_heights(m, target, lo + 1, hi);
        lemma_filter_heights(m.txs[lo], target, lo as u64);
        let filtered = filter_matching(m.txs[lo], target);
        assert forall|k: int| 0 <= k < scan_range(m, target, lo, hi).len() implies {
            let t = #[trigger] scan_range(m, target, lo, hi)[k];
            t.block_height == Some(height_of(t)) && lo <= height_of(t) <= hi
        } by {
            if k < filtered.len() {
                assert(scan_range(m, target, lo, hi)[k] == filtered[k]);
            } else {
                assert(scan_range(m, target, lo, hi)[k] == scan_range(m, target, lo + 1, hi)[k
                    - filtered.len()]);
            }
        }
    }
}

/// Scanner ordering: the scan of a well-formed chain is non-decreasing in
/// block height.
pub proof fn lemma_scan_ordered(m: ChainModel, target: Address, lo: int, hi: int)
    requires
        chain_wf(m),
        0 <= lo,
        hi <= m.head,
    ensures
        sorted_by_height(scan_range(m, target, lo, hi)),
    decreases hi + 1 - lo,
{
    if lo <= hi {
        lemma_scan_ordered(m, target, lo + 1, hi);
        lemma_scan_heights(m, target, lo + 1, hi);
        lemma_filter_heights(m.txs[lo], target, lo as u64);
        let filtered = filter_matching(m.txs[lo], target);
        let s = scan_range(m, target, lo, hi);
        assert forall|i: int, j: int| 0 <= i <= j < s.len() implies height_of(#[trigger] s[i])
            <= height_of(#[trigger] s[j]) by {
            if i < filtered.len() {
                assert(s[i] == filtered[i]);
            } else {
                assert(s[i] == scan_range(m, target, lo + 1, hi)[i - filtered.len()]);
            }
            if j < filtered.len() {
                assert(s[j] == filtered[j]);
            } else {
                assert(s[j] == scan_range(m, target, lo + 1, hi)[j - filtered.len()]);
            }
        }
    }
}

/// The direction label and counterparty of a transaction, as the table
/// renderers show them: `to` with the receiver (or a contract-creation
/// placeholder) when the target sent it, `from` with the sender otherwise.
pub fn direction_address(transaction: &Transaction, target: Address) -> (r: (String, String))
    ensures
        transaction.from == target ==> r.0@ == "to"@ && (match transaction.to {
            Some(a) => r.1@ == address_chars(a),
            None => r.1@ == "Creating SC"@,
        }),
        transaction.from != target ==> r.0@ == "from"@ && r.1@ == address_chars(
            transaction.from,
        ),
{
    if transaction.from.eq_addr(&target) {
        let counterparty = match &transaction.to {
            Some(to) => format_address(to),
            None => "Creating SC".to_owned(),
        };
        ("to".to_owned(), counterparty)
    } else {
        ("from".to_owned(), format_address(&transaction.from))
    }
}

} // verus!
