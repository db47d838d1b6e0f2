//! Balances: a wei amount with its display contract (a fixed-point decimal
//! string with exactly 18 digits after the point, no rounding), and the
//! balance-at-a-time query that composes the resolver with a balance read.

use vstd::prelude::*;
use vstd::string::{StrSliceExecFns, StringExecFns};

use crate::address::Address;
use crate::chain::{before_genesis, chain_wf, resolve_spec, wei_nat, Wei};
use crate::digits::{
    all_dec_digits, digit_val, digits_value, lemma_digits_same_length_unique,
    lemma_digits_unique, lemma_digits_value_append, lemma_digits_value_bound,
    lemma_zero_chars_value, lemma_zero_prefix_value, pow10, zero_chars,
};
use crate::resolver::resolve_timestamp;
use crate::rpc::{get_block_timestamp, RpcClient, RpcError};

verus! {

/// A balance: a wei amount with the fixed-point display contract.
#[derive(Clone, Copy, PartialEq, Eq, Debug)]
#[verifier::ext_equal]
pub struct Balance {
    pub wei: Wei,
}

impl From<Wei> for Balance {
    fn from(wei: Wei) -> (r: Balance) {
        Balance { wei }
    }
}

impl vstd::std_specs::convert::FromSpecImpl<Wei> for Balance {
    open spec fn obeys_from_spec() -> bool {
        true
    }

    open spec fn from_spec(wei: Wei) -> Balance {
        Balance { wei }
    }
}

/// `s` renders the wei amount `v` in fixed-point decimal: digits, one point
/// with exactly 18 digits to its right, no superfluous leading zero, and the
/// digits read back to exactly `v` wei — no rounding.
pub open spec fn eth_rendering(s: Seq<char>, v: nat) -> bool {
    let n = s.len() as int;
    &&& n >= 20
    &&& s[n - 19] == '.'
    &&& all_dec_digits(s.subrange(0, n - 19))
    &&& all_dec_digits(s.subrange(n - 18, n))
    &&& (n > 20 ==> s[0] != '0')
    &&& digits_value(s.subrange(0, n - 19)) * pow10(18) + digits_value(s.subrange(n - 18, n)) == v
}

/// The wei amount a fixed-point rendering denotes.
pub open spec fn eth_value(s: Seq<char>) -> nat {
    let n = s.len() as int;
    digits_value(s.subrange(0, n - 19)) * pow10(18) + digits_value(s.subrange(n - 18, n))
}

/// Formatting is exact, so it commutes with addition: if three strings
/// render `v1`, `v2` and `v1 + v2`, the third denotes precisely the sum of
/// what the first two denote, read as decimals.
pub proof fn lemma_eth_rendering_additive(
    s1: Seq<char>,
    v1: nat,
    s2: Seq<char>,
    v2: nat,
    s3: Seq<char>,
)
    requires
        eth_rendering(s1, v1),
        eth_rendering(s2, v2),
        eth_rendering(s3, v1 + v2),
    ensures
        eth_value(s3) == eth_value(s1) + eth_value(s2),
{
}

/// Formatting is exact in the other direction as well: a wei amount has
/// exactly one fixed-point rendering, so the display contract pins the
/// output string completely.
pub proof fn lemma_eth_rendering_unique(s1: Seq<char>, s2: Seq<char>, v: nat)
    requires
        eth_rendering(s1, v),
        eth_rendering(s2, v),
    ensures
        s1 == s2,
{
    let n1 = s1.len() as int;
    let n2 = s2.len() as int;
    let i1 = s1.subrange(0, n1 - 19);
    let f1 = s1.subrange(n1 - 18, n1);
    let i2 = s2.subrange(0, n2 - 19);
    let f2 = s2.subrange(n2 - 18, n2);
    lemma_digits_value_bound(f1);
    lemma_digits_value_bound(f2);
    assert(f1.len() == 18 && f2.len() == 18);
    assert(digits_value(i1) == digits_value(i2) && digits_value(f1) == digits_value(f2))
        by (nonlinear_arith)
        requires
            digits_value(i1) * pow10(18) + digits_value(f1) == digits_value(i2) * pow10(18)
                + digits_value(f2),
            digits_value(f1) < pow10(18),
            digits_value(f2) < pow10(18),
    ;
    lemma_digits_unique(i1, i2);
    lemma_digits_same_length_unique(f1, f2);
    assert(n1 == n2);
    assert(s1 =~= i1 + seq!['.'] + f1);
    assert(s2 =~= i2 + seq!['.'] + f2);
    assert(s1 =~= s2);
}

/// Decimal digits are ASCII characters.
proof fn lemma_digits_ascii(s: Seq<char>)
    requires
        all_dec_digits(s),
    ensures
        vstd::utf8::is_ascii_chars(s),
{
    assert forall|i: int| 0 <= i < s.len() implies '\0' <= #[trigger] s[i] <= '\u{7f}' by {
        assert(crate::digits::is_dec_digit(s[i]));
    }
}

/// Relies on ethers's `U256` `Display`: the plain decimal rendering of the
/// 256-bit value the four little-endian limbs denote, without leading zeros
/// (a lone `0` for zero).
#[verifier::external_body]
fn u256_decimal(wei: &Wei) -> (r: String)
    ensures
        r@.len() >= 1,
        all_dec_digits(r@),
        digits_value(r@) == wei_nat(*wei),
        r@.len() > 1 ==> r@[0] != '0',
{
    ethers::types::U256(wei.limbs).to_string()
}

impl Balance {
    /// The balance as a decimal string with exactly 18 digits after the
    /// point: the wei amount's decimal digits, left-padded with zeros to at
    /// least 19 digits, with the point inserted before the last 18.
    pub fn to_eth_string(&self) -> (r: String)
        ensures
            eth_rendering(r@, wei_nat(self.wei)),
    {
        let d = u256_decimal(&self.wei);
        proof {
            lemma_digits_ascii(d@);
        }
        let n = d.as_str().unicode_len();
        let mut s = String::new();
        if n >= 19 {
            let int_part = d.as_str().substring_ascii(0, n - 18);
            let frac_part = d.as_str().substring_ascii(n - 18, n);
            s.append(int_part);
            s.append(".");
            s.append(frac_part);
            proof {
                reveal_strlit(".");
                let di = d@.subrange(0, n - 18);
                let df = d@.subrange(n - 18, n as int);
                assert(di + df =~= d@);
                lemma_digits_value_append(di, df);
                let w = s@.len() as int;
                assert(s@.subrange(0, w - 19) =~= di);
                assert(s@.subrange(w - 18, w) =~= df);
                assert(s@[w - 19] == '.');
            }
        } else {
            s.append("0.");
            let mut i: usize = n;
            proof {
                reveal_strlit("0.");
                assert(s@ =~= "0."@ + zero_chars((i - n) as nat));
            }
            while i < 18
                invariant
                    n <= i <= 18,
                    s@ == "0."@ + zero_chars((i - n) as nat),
                decreases 18 - i,
            {
                s.append("0");
                proof {
                    reveal_strlit("0");
                    reveal_strlit("0.");
                    assert(s@ =~= "0."@ + zero_chars((i + 1 - n) as nat));
                }
                i = i + 1;
            }
            s.append(d.as_str());
            proof {
                reveal_strlit("0.");
                reveal_strlit("0");
                let zs = zero_chars((18 - n) as nat);
                lemma_zero_chars_value((18 - n) as nat);
                lemma_zero_prefix_value((18 - n) as nat, d@);
                let w = s@.len() as int;
                assert(w == 20);
                assert(s@.subrange(0, 1) =~= seq!['0']);
                assert(s@.subrange(w - 18, w) =~= zs + d@);
                assert(s@[1] == '.');
                assert(digits_value(seq!['0']) == 0) by {
                    assert(seq!['0'].drop_last() =~= Seq::<char>::empty());
                    assert(digits_value(Seq::<char>::empty()) == 0);
                    assert(seq!['0'].last() == '0');
                    assert(digit_val('0') == 0);
                    assert(digits_value(seq!['0']) == digits_value(seq!['0'].drop_last()) * 10
                        + digit_val(seq!['0'].last()));
                }
                assert(digits_value(s@.subrange(0, 1)) * pow10(18) == 0) by (nonlinear_arith)
                    requires
                        digits_value(s@.subrange(0, 1)) == 0,
                ;
            }
        }
        s
    }
}

/// The balance of `address` at the instant `time` (seconds since the epoch):
/// zero for instants before the genesis block, and otherwise the balance as
/// settled at the last block whose timestamp is at most `time`. Header reads
/// go through the retry shim; an instant past the head timestamp yields the
/// head balance.
pub fn balance_at_timestamp<C: RpcClient>(client: &mut C, address: &Address, time: i64) -> (r:
    Result<Balance, RpcError>)
    requires
        chain_wf(old(client).model()),
    ensures
        final(client).model() == old(client).model(),
        r matches Ok(b) ==> if before_genesis(old(client).model(), time) {
            wei_nat(b.wei) == 0
        } else {
            b.wei == old(client).model().bal[
                (*address, resolve_spec(old(client).model(), time as u64))
            ]
        },
{
    let ts0 = match get_block_timestamp(client, 0) {
        Ok(t) => t,
        Err(e) => {
            return Err(e);
        },
    };
    if time < 0 || (time as u64) < ts0 {
        return Ok(Balance::from(Wei::zero()));
    }
    let target_time = time as u64;
    let block = match resolve_timestamp(client, target_time) {
        Ok(b) => b,
        Err(e) => {
            return Err(e);
        },
    };
    let wei = match client.balance_of(address, block) {
        Ok(w) => w,
        Err(e) => {
            return Err(e);
        },
    };
    Ok(Balance::from(wei))
}

/// The balance query as the command line asks it: `None` when `time` lies
/// beyond the head block's timestamp — the caller reports that the future
/// cannot be predicted — and otherwise the balance at `time`.
pub fn balance_at<C: RpcClient>(client: &mut C, address: &Address, time: i64) -> (r: Result<
    Option<Balance>,
    RpcError,
>)
    requires
        chain_wf(old(client).model()),
    ensures
        final(client).model() == old(client).model(),
        r matches Ok(o) ==> match o {
            None => time > old(client).model().ts[old(client).model().head as int],
            Some(b) => {
                &&& time <= old(client).model().ts[old(client).model().head as int]
                &&& if before_genesis(old(client).model(), time) {
                    wei_nat(b.wei) == 0
                } else {
                    b.wei == old(client).model().bal[
                        (*address, resolve_spec(old(client).model(), time as u64))
                    ]
                }
            },
        },
{
    let head = match client.current_block_number() {
        Ok(h) => h,
        Err(e) => {
            return Err(e);
        },
    };
    let ts_head = match get_block_timestamp(client, head) {
        Ok(t) => t,
        Err(e) => {
            return Err(e);
        },
    };
    if time >= 0 && (time as u64) > ts_head {
        return Ok(None);
    }
    match balance_at_timestamp(client, address, time) {
        Ok(b) => Ok(Some(b)),
        Err(e) => Err(e),
    }
}

} // verus!
