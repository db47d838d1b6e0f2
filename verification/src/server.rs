//! The compute side of the HTTP handlers: parsing the caller's address and
//! timestamp strings, and the two queries with their error mapping. The
//! route dispatch itself lives with the HTTP front-end.

use vstd::prelude::*;
use vstd::string::StrSliceExecFns;

use crate::address::{
    lemma_valid_address_ascii, parsed_bytes, strip_hex_prefix, valid_address_chars, Address,
};
use crate::balance::{balance_at_timestamp, Balance};
use crate::chain::{before_genesis, chain_wf, resolve_spec, scan_range, wei_nat, Transaction};
use crate::digits::{hex_val, is_hex_digit};
use crate::rpc::{RpcClient, RpcError};
use crate::transactions::transations_of_since_upto;

verus! {

/// What a handler can report to the HTTP caller.
#[derive(Clone, Copy, PartialEq, Eq, Structural, Debug)]
pub enum ServerError {
    EthClientNotFound,
    BlockNotFound,
    BalanceNotAvailable,
    InvalidTimestamp,
    InvalidAddress,
}

impl ServerError {
    /// The user-facing message for this error.
    pub fn message(&self) -> (r: String)
        ensures
            *self == ServerError::EthClientNotFound ==> r@ == "Eth Client Not Found"@,
            *self == ServerError::BlockNotFound ==> r@ == "Block Not Found"@,
            *self == ServerError::BalanceNotAvailable ==> r@ == "Balance Not Available"@,
            *self == ServerError::InvalidTimestamp ==> r@ == "Invalid Timestamp"@,
            *self == ServerError::InvalidAddress ==> r@ == "Invalid Address"@,
    {
        match self {
            ServerError::EthClientNotFound => "Eth Client Not Found".to_owned(),
            ServerError::BlockNotFound => "Block Not Found".to_owned(),
            ServerError::BalanceNotAvailable => "Balance Not Available".to_owned(),
            ServerError::InvalidTimestamp => "Invalid Timestamp".to_owned(),
            ServerError::InvalidAddress => "Invalid Address".to_owned(),
        }
    }
}

/// The sixteen hexadecimal digit values, read off an ASCII byte.
spec fn is_hex_digit_byte(b: u8) -> bool {
    (48 <= b && b <= 57) || (97 <= b && b <= 102) || (65 <= b && b <= 70)
}

spec fn hex_val_byte_spec(b: u8) -> u8 {
    if 48 <= b && b <= 57 {
        (b - 48) as u8
    } else if 97 <= b && b <= 102 {
        (b - 87) as u8
    } else {
        (b - 55) as u8
    }
}

/// For an ASCII character, the byte-level hex digit test and value agree
/// with the character-level ones.
proof fn lemma_hex_char_byte(c: char)
    requires
        c <= '\u{7f}',
    ensures
        is_hex_digit(c) <==> is_hex_digit_byte(c as u8),
        is_hex_digit(c) ==> hex_val(c) == hex_val_byte_spec(c as u8),
{
    vstd::utf8::char_is_scalar(c);
    assert(c as u32 <= 0x7f);
    assert(c as u8 == c as u32);
}

/// The value of one hexadecimal digit byte, or `None` for any other byte.
fn hex_val_byte(b: u8) -> (r: Option<u8>)
    ensures
        r is Some <==> is_hex_digit_byte(b),
        r matches Some(v) ==> v == hex_val_byte_spec(b) && v < 16,
{
    if 48 <= b && b <= 57 {
        Some(b - 48)
    } else if 97 <= b && b <= 102 {
        Some(b - 87)
    } else if 65 <= b && b <= 70 {
        Some(b - 55)
    } else {
        None
    }
}

/// Parses an account address: an optional `0x` prefix followed by exactly 40
/// hexadecimal digits, two digits per byte. Anything else — a digit count
/// other than 40, or any character that is not a hex digit — is rejected.
pub fn parse_address(address: &str) -> (r: Result<Address, ServerError>)
    ensures
        r matches Ok(a) ==> valid_address_chars(address@) && a.bytes@ == parsed_bytes(address@),
        r matches Err(e) ==> e == ServerError::InvalidAddress && !valid_address_chars(address@),
{
    broadcast use vstd::array::group_array_axioms;

    let ghost s = address@;
    if !address.is_ascii() {
        proof {
            if valid_address_chars(s) {
                lemma_valid_address_ascii(s);
            }
        }
        return Err(ServerError::InvalidAddress);
    }
    let n = address.unicode_len();
    let has_prefix = n >= 2 && address.get_ascii(0) == 48 && address.get_ascii(1) == 120;
    let start: usize = if has_prefix {
        2
    } else {
        0
    };
    let ghost d = strip_hex_prefix(s);
    proof {
        vstd::utf8::char_u32_cast('0', '0' as u32);
        vstd::utf8::char_u32_cast('x', 'x' as u32);
        if n >= 2 {
            vstd::utf8::char_is_scalar(s[0]);
            vstd::utf8::char_is_scalar(s[1]);
            assert(s[0] as u8 == 48 <==> s[0] == '0');
            assert(s[1] as u8 == 120 <==> s[1] == 'x');
        }
        assert(d =~= s.skip(start as int));
    }
    if n - start != 40 {
        return Err(ServerError::InvalidAddress);
    }
    let mut bytes = [0u8; 20];
    let mut i: usize = 0;
    while i < 20
        invariant
            i <= 20,
            s == address@,
            vstd::utf8::is_ascii_chars(s),
            s.len() == n,
            (start == 0 || start == 2) && start <= n,
            n - start == 40,
            d == strip_hex_prefix(s),
            d =~= s.skip(start as int),
            forall|j: int| 0 <= j < 2 * i ==> is_hex_digit(#[trigger] d[j]),
            forall|j: int|
                0 <= j < i ==> bytes@[j] == hex_val(d[2 * j]) * 16 + hex_val(d[2 * j + 1]),
        decreases 20 - i,
    {
        let b_hi = address.get_ascii(start + 2 * i);
        let b_lo = address.get_ascii(start + 2 * i + 1);
        proof {
            lemma_hex_char_byte(s[start + 2 * i]);
            lemma_hex_char_byte(s[start + 2 * i + 1]);
            assert(d[2 * i] == s[start + 2 * i]);
            assert(d[2 * i + 1] == s[start + 2 * i + 1]);
        }
        let hi = hex_val_byte(b_hi);
        let lo = hex_val_byte(b_lo);
        match (hi, lo) {
            (Some(h), Some(l)) => {
                bytes[i] = h * 16 + l;
            },
            _ => {
                return Err(ServerError::InvalidAddress);
            },
        }
        i = i + 1;
    }
    let a = Address { bytes };
    proof {
        assert(valid_address_chars(s));
        assert(a.bytes@ =~= parsed_bytes(s));
    }
    Ok(a)
}

/// What chrono computes for a timestamp string and a format string: the
/// epoch seconds of the parsed civil datetime, taken as UTC, or `None` when
/// the string does not match the format. A function of the two strings
/// alone.
pub uninterp spec fn naive_epoch_of(s: Seq<char>, fmt: Seq<char>) -> Option<i64>;

/// Relies on chrono's `NaiveDateTime::parse_from_str` followed by
/// `DateTime::timestamp`: parses `s` by `fmt` and converts to epoch seconds,
/// deterministically in `s` and `fmt` (no timezone or locale is consulted).
#[verifier::external_body]
fn parse_naive_timestamp(s: &str, fmt: &str) -> (r: Option<i64>)
    ensures
        r == naive_epoch_of(s@, fmt@),
{
    match chrono::NaiveDateTime::parse_from_str(s, fmt) {
        Ok(dt) => Some(dt.and_utc().timestamp()),
        Err(_) => None,
    }
}

/// The timestamp the HTTP surface accepts: `YYYY-MM-DDTHH:MM:SS`, or, when
/// that fails, the same form without seconds.
pub open spec fn spec_parse_timestamp(s: Seq<char>) -> Option<i64> {
    match naive_epoch_of(s, "%Y-%m-%dT%H:%M:%S"@) {
        Some(t) => Some(t),
        None => naive_epoch_of(s, "%Y-%m-%dT%H:%M"@),
    }
}

/// Parses an HTTP timestamp string, with the seconds optional.
pub fn parse_timestamp(time: &str) -> (r: Option<i64>)
    ensures
        r == spec_parse_timestamp(time@),
{
    match parse_naive_timestamp(time, "%Y-%m-%dT%H:%M:%S") {
        Some(t) => Some(t),
        None => parse_naive_timestamp(time, "%Y-%m-%dT%H:%M"),
    }
}

/// The height of the chain head, with the RPC failure mapped to the
/// user-facing error.
pub fn get_last_block_number<C: RpcClient>(client: &mut C) -> (r: Result<u64, ServerError>)
    ensures
        final(client).model() == old(client).model(),
        r matches Ok(h) ==> h == old(client).model().head,
        r matches Err(e) ==> e == ServerError::BlockNotFound,
{
    match client.current_block_number() {
        Ok(h) => Ok(h),
        Err(_) => Err(ServerError::BlockNotFound),
    }
}

/// The balance of `address` at `time`, both given as the HTTP caller wrote
/// them. A malformed timestamp is rejected first, then a malformed address;
/// an RPC failure surfaces as `BalanceNotAvailable`.
pub fn get_balance<C: RpcClient>(client: &mut C, address: String, time: &str) -> (r: Result<
    Balance,
    ServerError,
>)
    requires
        chain_wf(old(client).model()),
    ensures
        final(client).model() == old(client).model(),
        r == Err::<Balance, ServerError>(ServerError::InvalidTimestamp) <==> spec_parse_timestamp(
            time@,
        ) is None,
        r == Err::<Balance, ServerError>(ServerError::InvalidAddress) <==> (spec_parse_timestamp(
            time@,
        ) is Some && !valid_address_chars(address@)),
        r matches Err(e) ==> (e == ServerError::InvalidTimestamp || e == ServerError::InvalidAddress
            || e == ServerError::BalanceNotAvailable),
        r matches Ok(b) ==> {
            let t = spec_parse_timestamp(time@).unwrap();
            &&& spec_parse_timestamp(time@) is Some
            &&& valid_address_chars(address@)
            &&& if before_genesis(old(client).model(), t) {
                wei_nat(b.wei) == 0
            } else {
                exists|a: Address|
                    a.bytes@ == parsed_bytes(address@) && b.wei == old(client).model().bal[(
                        a,
                        resolve_spec(old(client).model(), t as u64),
                    )]
            }
        },
{
    let timestamp = match parse_timestamp(time) {
        Some(t) => t,
        None => {
            return Err(ServerError::InvalidTimestamp);
        },
    };
    let target = match parse_address(address.as_str()) {
        Ok(a) => a,
        Err(_) => {
            return Err(ServerError::InvalidAddress);
        },
    };
    match balance_at_timestamp(client, &target, timestamp) {
        Ok(b) => Ok(b),
        Err(_) => Err(ServerError::BalanceNotAvailable),
    }
}

/// All transactions involving `address` from `starting_block` up to the
/// chain head, in ascending block order; any RPC failure surfaces as
/// `BlockNotFound`.
pub fn get_transactions<C: RpcClient>(
    client: &mut C,
    address: &Address,
    starting_block: u64,
) -> (r: Result<Vec<Transaction>, ServerError>)
    requires
        chain_wf(old(client).model()),
    ensures
        final(client).model() == old(client).model(),
        r matches Ok(v) ==> v@ == scan_range(
            old(client).model(),
            *address,
            starting_block as int,
            old(client).model().head as int,
        ),
        r matches Err(e) ==> e == ServerError::BlockNotFound,
{
    let current_block = match get_last_block_number(client) {
        Ok(h) => h,
        Err(e) => {
            return Err(e);
        },
    };
    match transations_of_since_upto(client, address, starting_block, current_block) {
        Ok(v) => Ok(v),
        Err(_) => Err(ServerError::BlockNotFound),
    }
}

} // verus!
