//! The RPC client abstraction and the retry shim.
//!
//! [`RpcClient`] is the capability the engine is generic over: four read-only
//! calls against the chain, each of which may fail, but which never lie — an
//! `Ok` answer always agrees with the client's ghost [`ChainModel`].
//! [`repeat_if_network_error`] wraps one such call in a bounded retry loop
//! against transport failures only.

use vstd::prelude::*;

use crate::address::Address;
use crate::chain::{ChainModel, Transaction, Wei};

verus! {

/// How many additional attempts the retry shim makes after the first one.
pub const RETRY_COUNT: usize = 4;

/// What went wrong with an RPC call. `Transport` covers network I/O and
/// framing failures and is the only retryable kind; the others are semantic
/// answers from the chain and surface immediately.
#[derive(Clone, Copy, PartialEq, Eq, Structural, Debug)]
pub enum RpcError {
    /// Network or framing failure; worth retrying.
    Transport,
    /// The chain reports no block at the requested height.
    BlockUnavailable,
    /// The response could not be decoded.
    Malformed,
}

/// A client of the chain's JSON-RPC endpoints. The ghost `model` is the
/// state of the chain as this client observes it; every call either fails or
/// answers according to that model, and no call changes it.
pub trait RpcClient: Sized {
    /// The chain as this client observes it. The default is an empty chain;
    /// a client for a real endpoint leaves it unspecified.
    open spec fn model(&self) -> ChainModel {
        ChainModel { head: 0, ts: Seq::empty(), txs: Seq::empty(), bal: Map::empty() }
    }

    /// Height of the current chain head. Can only fail in transport.
    fn current_block_number(&mut self) -> (r: Result<u64, RpcError>)
        ensures
            final(self).model() == old(self).model(),
            r matches Ok(h) ==> h == old(self).model().head,
            r matches Err(e) ==> e == RpcError::Transport,
    ;

    /// Timestamp of the block header at `height`.
    fn block_timestamp(&mut self, height: u64) -> (r: Result<u64, RpcError>)
        requires
            height <= old(self).model().head,
        ensures
            final(self).model() == old(self).model(),
            r matches Ok(t) ==> t == old(self).model().ts[height as int],
    ;

    /// The transactions of the block at `height`, in chain order.
    fn block_with_transactions(&mut self, height: u64) -> (r: Result<Vec<Transaction>, RpcError>)
        requires
            height <= old(self).model().head,
        ensures
            final(self).model() == old(self).model(),
            r matches Ok(v) ==> v@ == old(self).model().txs[height as int],
    ;

    /// Balance of `address` as settled at block `height`.
    fn balance_of(&mut self, address: &Address, height: u64) -> (r: Result<Wei, RpcError>)
        requires
            height <= old(self).model().head,
        ensures
            final(self).model() == old(self).model(),
            r matches Ok(w) ==> w == old(self).model().bal[(*address, height)],
    ;
}

/// One RPC call, reified so the retry shim can repeat it.
#[derive(Clone, Copy, PartialEq, Eq, Debug)]
pub enum RpcRequest {
    BlockNumber,
    BlockTimestamp(u64),
    BlockTransactions(u64),
    Balance(Address, u64),
}

/// The answer to an [`RpcRequest`].
#[derive(PartialEq, Eq, Debug)]
pub enum RpcResponse {
    BlockNumber(u64),
    BlockTimestamp(u64),
    BlockTransactions(Vec<Transaction>),
    Balance(Wei),
}

/// The request only asks about blocks the chain has.
pub open spec fn request_wf(m: ChainModel, req: RpcRequest) -> bool {
    match req {
        RpcRequest::BlockNumber => true,
        RpcRequest::BlockTimestamp(h) => h <= m.head,
        RpcRequest::BlockTransactions(h) => h <= m.head,
        RpcRequest::Balance(_, h) => h <= m.head,
    }
}

/// `resp` is the answer the model gives for `req`.
pub open spec fn response_matches(m: ChainModel, req: RpcRequest, resp: RpcResponse) -> bool {
    match (req, resp) {
        (RpcRequest::BlockNumber, RpcResponse::BlockNumber(h)) => h == m.head,
        (RpcRequest::BlockTimestamp(h), RpcResponse::BlockTimestamp(t)) => t == m.ts[h as int],
        (RpcRequest::BlockTransactions(h), RpcResponse::BlockTransactions(v)) => v@ == m.txs[h as int],
        (RpcRequest::Balance(a, h), RpcResponse::Balance(w)) => w == m.bal[(a, h)],
        _ => false,
    }
}

/// What any single attempt may deliver: an error, or the model's answer.
pub open spec fn is_attempt_outcome(
    m: ChainModel,
    req: RpcRequest,
    o: Result<RpcResponse, RpcError>,
) -> bool {
    o matches Ok(resp) ==> response_matches(m, req, resp)
}

/// The outcomes the retry shim saw, in order: every attempt is a genuine
/// outcome for `req`, every attempt but the last failed in transport (the
/// shim stops at the first other outcome), and a final transport failure
/// means the whole budget of `RETRY_COUNT` additional attempts was spent.
pub open spec fn is_retry_log(
    m: ChainModel,
    req: RpcRequest,
    log: Seq<Result<RpcResponse, RpcError>>,
) -> bool {
    &&& 1 <= log.len() <= RETRY_COUNT + 1
    &&& forall|i: int| 0 <= i < log.len() ==> is_attempt_outcome(m, req, #[trigger] log[i])
    &&& forall|i: int|
        0 <= i < log.len() - 1 ==> #[trigger] log[i] == Err::<RpcResponse, RpcError>(
            RpcError::Transport,
        )
    &&& log.last() == Err::<RpcResponse, RpcError>(RpcError::Transport) ==> log.len() == RETRY_COUNT
        + 1
}

/// One attempt at `request`.
fn rpc_call_once<C: RpcClient>(client: &mut C, request: RpcRequest) -> (r: Result<
    RpcResponse,
    RpcError,
>)
    requires
        request_wf(old(client).model(), request),
    ensures
        final(client).model() == old(client).model(),
        is_attempt_outcome(old(client).model(), request, r),
{
    match request {
        RpcRequest::BlockNumber => match client.current_block_number() {
            Ok(h) => Ok(RpcResponse::BlockNumber(h)),
            Err(e) => Err(e),
        },
        RpcRequest::BlockTimestamp(h) => match client.block_timestamp(h) {
            Ok(t) => Ok(RpcResponse::BlockTimestamp(t)),
            Err(e) => Err(e),
        },
        RpcRequest::BlockTransactions(h) => match client.block_with_transactions(h) {
            Ok(v) => Ok(RpcResponse::BlockTransactions(v)),
            Err(e) => Err(e),
        },
        RpcRequest::Balance(a, h) => match client.balance_of(&a, h) {
            Ok(w) => Ok(RpcResponse::Balance(w)),
            Err(e) => Err(e),
        },
    }
}

/// Is this outcome a transport failure?
fn is_transport_result(r: &Result<RpcResponse, RpcError>) -> (b: bool)
    ensures
        b == (*r == Err::<RpcResponse, RpcError>(RpcError::Transport)),
{
    match r {
        Err(RpcError::Transport) => true,
        _ => false,
    }
}

/// Makes `request`, and repeats it while the failure is a transport one, up
/// to `RETRY_COUNT` additional attempts. Any other failure, and any success,
/// ends the loop at once and is returned as observed.
pub fn repeat_if_network_error<C: RpcClient>(client: &mut C, request: RpcRequest) -> (r: Result<
    RpcResponse,
    RpcError,
>)
    requires
        request_wf(old(client).model(), request),
    ensures
        final(client).model() == old(client).model(),
        r matches Ok(resp) ==> response_matches(old(client).model(), request, resp),
        exists|log: Seq<Result<RpcResponse, RpcError>>|
            is_retry_log(old(client).model(), request, log) && r == log.last(),
{
    let ghost m = old(client).model();
    let mut res = rpc_call_once(client, request);
    let ghost mut log: Seq<Result<RpcResponse, RpcError>> = seq![res];
    let mut attempt: usize = 0;

    while attempt < RETRY_COUNT && is_transport_result(&res)
        invariant
            client.model() == m,
            request_wf(m, request),
            attempt <= RETRY_COUNT,
            log.len() == attempt + 1,
            forall|i: int| 0 <= i < log.len() ==> is_attempt_outcome(m, request, #[trigger] log[i]),
            forall|i: int|
                0 <= i < log.len() - 1 ==> #[trigger] log[i] == Err::<RpcResponse, RpcError>(
                    RpcError::Transport,
                ),
            log.last() == res,
        decreases RETRY_COUNT - attempt,
    {
        attempt = attempt + 1;
        res = rpc_call_once(client, request);
        proof {
            log = log.push(res);
        }
    }
    proof {
        assert(is_retry_log(m, request, log) && res == log.last());
    }
    res
}

/// If the environment would answer the successive attempts with `script`,
/// and the first non-transport outcome comes within the retry budget, the
/// shim returns exactly that outcome: an eventual success succeeds, and a
/// semantic error surfaces on first occurrence.
pub proof fn lemma_retry_returns_first_break(
    m: ChainModel,
    req: RpcRequest,
    log: Seq<Result<RpcResponse, RpcError>>,
    script: Seq<Result<RpcResponse, RpcError>>,
    i: int,
)
    requires
        is_retry_log(m, req, log),
        log.len() <= script.len(),
        log == script.subrange(0, log.len() as int),
        0 <= i <= RETRY_COUNT,
        i < script.len(),
        script[i] != Err::<RpcResponse, RpcError>(RpcError::Transport),
        forall|j: int|
            0 <= j < i ==> #[trigger] script[j] == Err::<RpcResponse, RpcError>(
                RpcError::Transport,
            ),
    ensures
        log.len() == i + 1,
        log.last() == script[i],
{
    assert(log.last() == script[log.len() - 1]);
    if log.len() <= i {
        assert(log.last() == Err::<RpcResponse, RpcError>(RpcError::Transport));
        assert(log.len() == RETRY_COUNT + 1);
    }
    if log.len() > i + 1 {
        assert(log[i] == script[i]);
        assert(log[i] == Err::<RpcResponse, RpcError>(RpcError::Transport));
    }
}

/// A semantic error surfaces on its first occurrence, whatever retry budget
/// is left: the shim stops right there and returns that very error.
pub proof fn lemma_retry_semantic_surfaces_first(
    m: ChainModel,
    req: RpcRequest,
    log: Seq<Result<RpcResponse, RpcError>>,
    script: Seq<Result<RpcResponse, RpcError>>,
    i: int,
    e: RpcError,
)
    requires
        is_retry_log(m, req, log),
        log.len() <= script.len(),
        log == script.subrange(0, log.len() as int),
        0 <= i <= RETRY_COUNT,
        i < script.len(),
        script[i] == Err::<RpcResponse, RpcError>(e),
        e != RpcError::Transport,
        forall|j: int|
            0 <= j < i ==> #[trigger] script[j] == Err::<RpcResponse, RpcError>(
                RpcError::Transport,
            ),
    ensures
        log.len() == i + 1,
        log.last() == Err::<RpcResponse, RpcError>(e),
{
    lemma_retry_returns_first_break(m, req, log, script, i);
}

/// If the environment would answer every attempt in the budget with a
/// transport failure, the shim spends the whole budget and surfaces the last
/// transport error.
pub proof fn lemma_retry_exhausts_budget(
    m: ChainModel,
    req: RpcRequest,
    log: Seq<Result<RpcResponse, RpcError>>,
    script: Seq<Result<RpcResponse, RpcError>>,
)
    requires
        is_retry_log(m, req, log),
        log.len() <= script.len(),
        log == script.subrange(0, log.len() as int),
        script.len() >= RETRY_COUNT + 1,
        forall|j: int|
            0 <= j <= RETRY_COUNT ==> #[trigger] script[j] == Err::<RpcResponse, RpcError>(
                RpcError::Transport,
            ),
    ensures
        log.len() == RETRY_COUNT + 1,
        log.last() == script[RETRY_COUNT as int],
        log.last() == Err::<RpcResponse, RpcError>(RpcError::Transport),
{
    assert(log.last() == script[log.len() - 1]);
}

/// Timestamp of the block at `block_id`, read through the retry shim.
pub fn get_block_timestamp<C: RpcClient>(client: &mut C, block_id: u64) -> (r: Result<
    u64,
    RpcError,
>)
    requires
        block_id <= old(client).model().head,
    ensures
        final(client).model() == old(client).model(),
        r matches Ok(t) ==> t == old(client).model().ts[block_id as int],
{
    match repeat_if_network_error(client, RpcRequest::BlockTimestamp(block_id)) {
        Ok(resp) => match resp {
            RpcResponse::BlockTimestamp(t) => Ok(t),
            _ => {
                proof {
                    assert(false);
                }
                Err(RpcError::Malformed)
            },
        },
        Err(e) => Err(e),
    }
}

} // verus!
