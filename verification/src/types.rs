//! Chain-context carriers: the immutable records describing the invocation
//! that are handed to the host, and their in-memory byte encodings.

use vstd::prelude::*;
use crate::bytes::{push_u64_le, push_bytes, u64_le};

verus! {

/// A 32-byte account address.
#[derive(Debug, Clone, Copy, PartialEq, Eq)]
pub struct AccountAddress(pub [u8; 32]);

/// Address of a contract instance on the chain.
#[derive(Debug, Clone, Copy, PartialEq, Eq, Structural)]
pub struct ContractAddress {
    pub index: u64,
    pub subindex: u64,
}

/// Either an account or a contract address.
#[derive(Debug, Clone, Copy, PartialEq, Eq)]
pub enum Address {
    Account(AccountAddress),
    Contract(ContractAddress),
}

/// An amount of currency, in its smallest denomination.
#[derive(Debug, Clone, Copy, PartialEq, Eq, Structural)]
pub struct Amount {
    pub micro_gtu: u64,
}

/// Metadata of the block in which the invocation runs.
#[derive(Debug, Clone, Copy, PartialEq, Eq, Structural)]
pub struct ChainMetadata {
    pub slot_number: u64,
    pub slot_time: u64,
    pub block_height: u64,
    pub finalized_height: u64,
}

/// Context handed to an `init` entrypoint.
#[derive(Debug, Clone, Copy)]
pub struct InitContext {
    pub metadata: ChainMetadata,
    pub init_origin: AccountAddress,
}

/// Context handed to a `receive` entrypoint.
#[derive(Debug, Clone, Copy)]
pub struct ReceiveContext {
    pub metadata: ChainMetadata,
    pub invoker: AccountAddress,
    pub self_address: ContractAddress,
    pub self_balance: Amount,
    pub sender: Address,
    pub owner: AccountAddress,
}

/// A WebAssembly value type, as far as host functions use them.
#[derive(Debug, Clone, Copy, PartialEq, Eq, Structural)]
pub enum ValueType {
    I32,
    I64,
}

/// The type of a WebAssembly function: its parameters and its optional
/// result.
#[derive(Debug, Clone)]
pub struct FunctionType {
    pub parameters: Vec<ValueType>,
    pub result: Option<ValueType>,
}

/// Whether a function type has exactly the given parameters and result.
pub open spec fn type_is(ty: FunctionType, params: Seq<ValueType>, result: Option<ValueType>) -> bool {
    ty.parameters@ == params && ty.result == result
}

/// Check a function type against expected parameters and result.
pub fn type_matches(ty: &FunctionType, params: &Vec<ValueType>, result: Option<ValueType>) -> (r:
    bool)
    ensures
        r == type_is(*ty, params@, result),
{
    let n = ty.parameters.len();
    if n != params.len() {
        proof {
            assert(ty.parameters@ != params@);
        }
        return false;
    }
    let mut i: usize = 0;
    while i < n
        invariant
            i <= n,
            n == ty.parameters@.len(),
            n == params@.len(),
            forall|j: int| 0 <= j < i ==> ty.parameters@[j] == params@[j],
        decreases n - i,
    {
        if ty.parameters[i] != params[i] {
            proof {
                assert(ty.parameters@ != params@);
            }
            return false;
        }
        i = i + 1;
    }
    proof {
        assert(ty.parameters@ =~= params@);
    }
    match (&ty.result, result) {
        (None, None) => true,
        (Some(a), Some(b)) => *a == b,
        _ => false,
    }
}

/// In-memory encoding of an address: a tag byte, then the account bytes or
/// the little-endian contract index and subindex.
pub open spec fn address_bytes(a: Address) -> Seq<u8> {
    match a {
        Address::Account(acc) => seq![0u8] + acc.0@,
        Address::Contract(ca) => seq![1u8] + u64_le(ca.index) + u64_le(ca.subindex),
    }
}

/// Serialize an address into its in-memory form.
pub fn address_to_bytes(a: &Address) -> (out: Vec<u8>)
    ensures
        out@ == address_bytes(*a),
{
    let mut out: Vec<u8> = Vec::new();
    match a {
        Address::Account(acc) => {
            out.push(0u8);
            push_bytes(&mut out, acc.0.as_slice());
            proof {
                assert(out@ =~= address_bytes(*a));
            }
        },
        Address::Contract(ca) => {
            out.push(1u8);
            push_u64_le(&mut out, ca.index);
            push_u64_le(&mut out, ca.subindex);
            proof {
                assert(out@ =~= address_bytes(*a));
            }
        },
    }
    out
}

} // verus!
