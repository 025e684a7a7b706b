//! Result values of an invocation, the actions a receive entrypoint can
//! produce, and their big-endian wire encodings.

use vstd::prelude::*;
use vstd::string::StringSliceAdditionalSpecFns;
use crate::bytes::{
    concat_bytes_from, concat_bytes_upto, lemma_concat_bytes_split, push_bytes, push_u32_be,
    push_u64_be, push_vec, u32_be, u64_be,
};
use crate::logs::{logs_bounded, logs_bytes, Logs};
use crate::types::{type_is, type_matches, AccountAddress, ContractAddress, FunctionType, ValueType};
use crate::v0::state::State;

verus! {

/// An action recorded by a receive entrypoint, to be executed by the
/// surrounding runtime. `And` and `Or` refer to earlier entries of the same
/// outcome list by index.
#[derive(Clone, Debug)]
pub enum Action {
    Send { to_addr: ContractAddress, name: Vec<u8>, amount: u64, parameter: Vec<u8> },
    SimpleTransfer { to_addr: AccountAddress, amount: u64 },
    And { l: u32, r: u32 },
    Or { l: u32, r: u32 },
    Accept,
}

/// Machine bounds under which an action can be serialized.
pub open spec fn action_bounded(a: Action) -> bool {
    match a {
        Action::Send { name, parameter, .. } => name@.len() <= 0xffff_ffff && parameter@.len()
            <= 0xffff_ffff,
        _ => true,
    }
}

/// Wire encoding of one action, big-endian throughout.
pub open spec fn action_bytes(a: Action) -> Seq<u8> {
    match a {
        Action::Send { to_addr, name, amount, parameter } => seq![0u8] + u64_be(to_addr.index)
            + u64_be(to_addr.subindex) + u32_be(name@.len() as u32) + name@ + u64_be(amount)
            + u32_be(parameter@.len() as u32) + parameter@,
        Action::SimpleTransfer { to_addr, amount } => seq![1u8] + to_addr.0@ + u64_be(amount),
        Action::Or { l, r } => seq![2u8] + u32_be(l) + u32_be(r),
        Action::And { l, r } => seq![3u8] + u32_be(l) + u32_be(r),
        Action::Accept => seq![4u8],
    }
}

impl Action {
    /// Serialize the action for the wire.
    pub fn to_bytes(&self) -> (out: Vec<u8>)
        requires
            action_bounded(*self),
        ensures
            out@ == action_bytes(*self),
    {
        let mut out: Vec<u8> = Vec::new();
        match self {
            Action::Send { to_addr, name, amount, parameter } => {
                out.push(0u8);
                push_u64_be(&mut out, to_addr.index);
                push_u64_be(&mut out, to_addr.subindex);
                push_u32_be(&mut out, name.len() as u32);
                push_vec(&mut out, name);
                push_u64_be(&mut out, *amount);
                push_u32_be(&mut out, parameter.len() as u32);
                push_vec(&mut out, parameter);
            },
            Action::SimpleTransfer { to_addr, amount } => {
                out.push(1u8);
                push_bytes(&mut out, to_addr.0.as_slice());
                push_u64_be(&mut out, *amount);
            },
            Action::Or { l, r } => {
                out.push(2u8);
                push_u32_be(&mut out, *l);
                push_u32_be(&mut out, *r);
            },
            Action::And { l, r } => {
                out.push(3u8);
                push_u32_be(&mut out, *l);
                push_u32_be(&mut out, *r);
            },
            Action::Accept => {
                out.push(4u8);
            },
        }
        proof {
            assert(out@ =~= action_bytes(*self));
        }
        out
    }
}

/// Result of running an `init` entrypoint.
#[derive(Debug)]
pub enum InitResult {
    Success { state: State, logs: Logs, remaining_energy: u64 },
    Reject { remaining_energy: u64 },
    OutOfEnergy,
}

/// Wire encoding of an init result.
pub open spec fn init_result_bytes(r: InitResult) -> Seq<u8> {
    match r {
        InitResult::OutOfEnergy => seq![0u8],
        InitResult::Reject { remaining_energy } => seq![1u8] + u64_be(remaining_energy),
        InitResult::Success { state, logs, remaining_energy } => seq![2u8] + u32_be(
            state@.len() as u32,
        ) + state@ + logs_bytes(logs@) + u64_be(remaining_energy),
    }
}

impl InitResult {
    /// Serialize the result for the wire.
    pub fn to_bytes(&self) -> (out: Vec<u8>)
        requires
            self matches InitResult::Success { state, logs, .. } ==> state.wf() && logs_bounded(
                logs@,
            ),
        ensures
            out@ == init_result_bytes(*self),
    {
        match self {
            InitResult::OutOfEnergy => {
                let mut out: Vec<u8> = Vec::new();
                out.push(0u8);
                proof {
                    assert(out@ =~= init_result_bytes(*self));
                }
                out
            },
            InitResult::Reject { remaining_energy } => {
                let mut out: Vec<u8> = Vec::new();
                out.push(1u8);
                push_u64_be(&mut out, *remaining_energy);
                proof {
                    assert(out@ =~= init_result_bytes(*self));
                }
                out
            },
            InitResult::Success { state, logs, remaining_energy } => {
                let mut out: Vec<u8> = Vec::new();
                out.push(2u8);
                push_u32_be(&mut out, state.len());
                push_vec(&mut out, &state.state);
                let lb = logs.to_bytes();
                push_vec(&mut out, &lb);
                push_u64_be(&mut out, *remaining_energy);
                proof {
                    assert(out@ =~= init_result_bytes(*self));
                }
                out
            },
        }
    }
}

/// Result of running a `receive` entrypoint.
#[derive(Debug)]
pub enum ReceiveResult {
    Success { state: State, logs: Logs, actions: Vec<Action>, remaining_energy: u64 },
    Reject { remaining_energy: u64 },
    OutOfEnergy,
}

/// `action_bytes` as a function value, for use with the concatenation
/// helpers.
pub open spec fn action_bytes_fn() -> spec_fn(Action) -> Seq<u8> {
    |a: Action| action_bytes(a)
}

/// Wire encoding of the action list: its length, then each action.
pub open spec fn actions_bytes(actions: Seq<Action>) -> Seq<u8> {
    u32_be(actions.len() as u32) + concat_bytes_from(actions, action_bytes_fn(), 0)
}

/// Wire encoding of a receive result.
pub open spec fn receive_result_bytes(r: ReceiveResult) -> Seq<u8> {
    match r {
        ReceiveResult::OutOfEnergy => seq![0u8],
        ReceiveResult::Reject { remaining_energy } => seq![1u8] + u64_be(remaining_energy),
        ReceiveResult::Success { state, logs, actions, remaining_energy } => seq![2u8] + u32_be(
            state@.len() as u32,
        ) + state@ + logs_bytes(logs@) + actions_bytes(actions@) + u64_be(remaining_energy),
    }
}

impl ReceiveResult {
    /// Serialize the result for the wire.
    pub fn to_bytes(&self) -> (out: Vec<u8>)
        requires
            self matches ReceiveResult::Success { state, logs, actions, .. } ==> state.wf()
                && logs_bounded(logs@) && actions@.len() <= 0xffff_ffff && (forall|i: int|
                0 <= i < actions@.len() ==> action_bounded(#[trigger] actions@[i])),
        ensures
            out@ == receive_result_bytes(*self),
    {
        match self {
            ReceiveResult::OutOfEnergy => {
                let mut out: Vec<u8> = Vec::new();
                out.push(0u8);
                proof {
                    assert(out@ =~= receive_result_bytes(*self));
                }
                out
            },
            ReceiveResult::Reject { remaining_energy } => {
                let mut out: Vec<u8> = Vec::new();
                out.push(1u8);
                push_u64_be(&mut out, *remaining_energy);
                proof {
                    assert(out@ =~= receive_result_bytes(*self));
                }
                out
            },
            ReceiveResult::Success { state, logs, actions, remaining_energy } => {
                let mut out: Vec<u8> = Vec::new();
                out.push(2u8);
                push_u32_be(&mut out, state.len());
                push_vec(&mut out, &state.state);
                let lb = logs.to_bytes();
                push_vec(&mut out, &lb);
                let n = actions.len();
                push_u32_be(&mut out, n as u32);
                let ghost prefix = seq![2u8] + u32_be(state@.len() as u32) + state@ + logs_bytes(
                    logs@,
                ) + u32_be(n as u32);
                let mut i: usize = 0;
                while i < n
                    invariant
                        n == actions@.len(),
                        i <= n,
                        forall|j: int|
                            0 <= j < actions@.len() ==> action_bounded(#[trigger] actions@[j]),
                        out@ == prefix + concat_bytes_upto(actions@, action_bytes_fn(), i as int),
                    decreases n - i,
                {
                    let ab = actions[i].to_bytes();
                    push_vec(&mut out, &ab);
                    proof {
                        assert(out@ =~= prefix + concat_bytes_upto(
                            actions@,
                            action_bytes_fn(),
                            i + 1,
                        ));
                    }
                    i = i + 1;
                }
                push_u64_be(&mut out, *remaining_energy);
                proof {
                    lemma_concat_bytes_split(actions@, action_bytes_fn(), n as int);
                    assert(concat_bytes_from(actions@, action_bytes_fn(), n as int) =~= seq![]);
                    assert(concat_bytes_upto(actions@, action_bytes_fn(), n as int)
                        =~= concat_bytes_from(actions@, action_bytes_fn(), 0));
                    assert(out@ =~= receive_result_bytes(*self));
                }
                out
            },
        }
    }
}

/// Which kind of invocation is running, with its context.
pub enum Which<'a> {
    Init { init_ctx: &'a crate::types::InitContext },
    Receive { receive_ctx: &'a crate::types::ReceiveContext, current_state: &'a [u8] },
}

/// Host functions available to both init and receive methods.
#[derive(Clone, Copy, Debug, PartialEq, Eq, Structural)]
pub enum CommonFunc {
    GetParameterSize,
    GetParameterSection,
    LogEvent,
    LoadState,
    WriteState,
    ResizeState,
    StateSize,
    GetSlotNumber,
    GetSlotTime,
    GetBlockHeight,
    GetFinalizedHeight,
}

/// Host functions available only to init methods.
#[derive(Clone, Copy, Debug, PartialEq, Eq, Structural)]
pub enum InitOnlyFunc {
    GetInitOrigin,
}

/// Host functions available only to receive methods.
#[derive(Clone, Copy, Debug, PartialEq, Eq, Structural)]
pub enum ReceiveOnlyFunc {
    Accept,
    SimpleTransfer,
    Send,
    CombineAnd,
    CombineOr,
    GetReceiveInvoker,
    GetReceiveSelfAddress,
    GetReceiveSelfBalance,
    GetReceiveSender,
    GetReceiveOwner,
}

/// Enumeration of allowed imports.
#[derive(Clone, Copy, Debug, PartialEq, Eq, Structural)]
pub enum ImportFunc {
    /// Charge for execution cost.
    ChargeEnergy,
    /// Charge for additional stack usage.
    ChargeStackSize,
    /// Charge for allocating the given amount of pages.
    ChargeMemoryAlloc,
    /// Functions common to init and receive methods.
    Common(CommonFunc),
    /// Functions only init methods may call.
    InitOnly(InitOnlyFunc),
    /// Functions only receive methods may call.
    ReceiveOnly(ReceiveOnlyFunc),
}

/// The byte tag of an import in the artifact format.
pub open spec fn import_func_tag(f: ImportFunc) -> u8 {
    match f {
        ImportFunc::ChargeEnergy => 0,
        ImportFunc::ChargeStackSize => 1,
        ImportFunc::ChargeMemoryAlloc => 2,
        ImportFunc::Common(CommonFunc::GetParameterSize) => 3,
        ImportFunc::Common(CommonFunc::GetParameterSection) => 4,
        ImportFunc::Common(CommonFunc::LogEvent) => 5,
        ImportFunc::Common(CommonFunc::LoadState) => 6,
        ImportFunc::Common(CommonFunc::WriteState) => 7,
        ImportFunc::Common(CommonFunc::ResizeState) => 8,
        ImportFunc::Common(CommonFunc::StateSize) => 9,
        ImportFunc::Common(CommonFunc::GetSlotNumber) => 10,
        ImportFunc::Common(CommonFunc::GetSlotTime) => 11,
        ImportFunc::Common(CommonFunc::GetBlockHeight) => 12,
        ImportFunc::Common(CommonFunc::GetFinalizedHeight) => 13,
        ImportFunc::InitOnly(InitOnlyFunc::GetInitOrigin) => 14,
        ImportFunc::ReceiveOnly(ReceiveOnlyFunc::Accept) => 15,
        ImportFunc::ReceiveOnly(ReceiveOnlyFunc::SimpleTransfer) => 16,
        ImportFunc::ReceiveOnly(ReceiveOnlyFunc::Send) => 17,
        ImportFunc::ReceiveOnly(ReceiveOnlyFunc::CombineAnd) => 18,
        ImportFunc::ReceiveOnly(ReceiveOnlyFunc::CombineOr) => 19,
        ImportFunc::ReceiveOnly(ReceiveOnlyFunc::GetReceiveInvoker) => 20,
        ImportFunc::ReceiveOnly(ReceiveOnlyFunc::GetReceiveSelfAddress) => 21,
        ImportFunc::ReceiveOnly(ReceiveOnlyFunc::GetReceiveSelfBalance) => 22,
        ImportFunc::ReceiveOnly(ReceiveOnlyFunc::GetReceiveSender) => 23,
        ImportFunc::ReceiveOnly(ReceiveOnlyFunc::GetReceiveOwner) => 24,
    }
}

impl ImportFunc {
    /// Parse an imported-function tag; unknown tags are rejected.
    pub fn parse(tag: u8) -> (r: Option<ImportFunc>)
        ensures
            r matches Some(f) ==> import_func_tag(f) == tag,
            tag <= 24 ==> r is Some,
            tag > 24 ==> r is None,
    {
        match tag {
            0 => Some(ImportFunc::ChargeEnergy),
            1 => Some(ImportFunc::ChargeStackSize),
            2 => Some(ImportFunc::ChargeMemoryAlloc),
            3 => Some(ImportFunc::Common(CommonFunc::GetParameterSize)),
            4 => Some(ImportFunc::Common(CommonFunc::GetParameterSection)),
            5 => Some(ImportFunc::Common(CommonFunc::LogEvent)),
            6 => Some(ImportFunc::Common(CommonFunc::LoadState)),
            7 => Some(ImportFunc::Common(CommonFunc::WriteState)),
            8 => Some(ImportFunc::Common(CommonFunc::ResizeState)),
            9 => Some(ImportFunc::Common(CommonFunc::StateSize)),
            10 => Some(ImportFunc::Common(CommonFunc::GetSlotNumber)),
            11 => Some(ImportFunc::Common(CommonFunc::GetSlotTime)),
            12 => Some(ImportFunc::Common(CommonFunc::GetBlockHeight)),
            13 => Some(ImportFunc::Common(CommonFunc::GetFinalizedHeight)),
            14 => Some(ImportFunc::InitOnly(InitOnlyFunc::GetInitOrigin)),
            15 => Some(ImportFunc::ReceiveOnly(ReceiveOnlyFunc::Accept)),
            16 => Some(ImportFunc::ReceiveOnly(ReceiveOnlyFunc::SimpleTransfer)),
            17 => Some(ImportFunc::ReceiveOnly(ReceiveOnlyFunc::Send)),
            18 => Some(ImportFunc::ReceiveOnly(ReceiveOnlyFunc::CombineAnd)),
            19 => Some(ImportFunc::ReceiveOnly(ReceiveOnlyFunc::CombineOr)),
            20 => Some(ImportFunc::ReceiveOnly(ReceiveOnlyFunc::GetReceiveInvoker)),
            21 => Some(ImportFunc::ReceiveOnly(ReceiveOnlyFunc::GetReceiveSelfAddress)),
            22 => Some(ImportFunc::ReceiveOnly(ReceiveOnlyFunc::GetReceiveSelfBalance)),
            23 => Some(ImportFunc::ReceiveOnly(ReceiveOnlyFunc::GetReceiveSender)),
            24 => Some(ImportFunc::ReceiveOnly(ReceiveOnlyFunc::GetReceiveOwner)),
            _ => None,
        }
    }

    /// Serialize the imported-function tag.
    pub fn output(&self) -> (r: u8)
        ensures
            r == import_func_tag(*self),
    {
        match self {
            ImportFunc::ChargeEnergy => 0,
            ImportFunc::ChargeStackSize => 1,
            ImportFunc::ChargeMemoryAlloc => 2,
            ImportFunc::Common(c) => match c {
                CommonFunc::GetParameterSize => 3,
                CommonFunc::GetParameterSection => 4,
                CommonFunc::LogEvent => 5,
                CommonFunc::LoadState => 6,
                CommonFunc::WriteState => 7,
                CommonFunc::ResizeState => 8,
                CommonFunc::StateSize => 9,
                CommonFunc::GetSlotNumber => 10,
                CommonFunc::GetSlotTime => 11,
                CommonFunc::GetBlockHeight => 12,
                CommonFunc::GetFinalizedHeight => 13,
            },
            ImportFunc::InitOnly(io) => match io {
                InitOnlyFunc::GetInitOrigin => 14,
            },
            ImportFunc::ReceiveOnly(ro) => match ro {
                ReceiveOnlyFunc::Accept => 15,
                ReceiveOnlyFunc::SimpleTransfer => 16,
                ReceiveOnlyFunc::Send => 17,
                ReceiveOnlyFunc::CombineAnd => 18,
                ReceiveOnlyFunc::CombineOr => 19,
                ReceiveOnlyFunc::GetReceiveInvoker => 20,
                ReceiveOnlyFunc::GetReceiveSelfAddress => 21,
                ReceiveOnlyFunc::GetReceiveSelfBalance => 22,
                ReceiveOnlyFunc::GetReceiveSender => 23,
                ReceiveOnlyFunc::GetReceiveOwner => 24,
            },
        }
    }
}

/// A byte that may appear in an entrypoint name: printable ASCII, that is an
/// ASCII alphanumeric or punctuation character.
pub open spec fn is_name_byte(b: u8) -> bool {
    33 <= b <= 126
}

/// A valid receive-entrypoint name: printable ASCII containing a dot that
/// separates the contract name from the entrypoint name.
pub open spec fn valid_receive_name(bytes: Seq<u8>) -> bool {
    &&& forall|i: int| 0 <= i < bytes.len() ==> is_name_byte(#[trigger] bytes[i])
    &&& bytes.contains(46u8)
}

/// Check that `bs` names a receive entrypoint: every character is ASCII
/// alphanumeric or punctuation, and a `.` occurs.
pub fn is_valid_receive_name(bs: &str) -> (r: bool)
    ensures
        r == valid_receive_name(bs.spec_bytes()),
{
    let bytes = bs.as_bytes();
    valid_receive_name_bytes(bytes)
}

/// Whether two byte slices hold the same bytes.
pub fn slice_eq(a: &[u8], b: &[u8]) -> (r: bool)
    ensures
        r == (a@ == b@),
{
    let n = a.len();
    if n != b.len() {
        proof {
            assert(a@ != b@);
        }
        return false;
    }
    let mut i: usize = 0;
    while i < n
        invariant
            i <= n,
            n == a@.len(),
            n == b@.len(),
            forall|j: int| 0 <= j < i ==> a@[j] == b@[j],
        decreases n - i,
    {
        if a[i] != b[i] {
            proof {
                assert(a@ != b@);
            }
            return false;
        }
        i = i + 1;
    }
    proof {
        assert(a@ =~= b@);
    }
    true
}

/// Whether two strings hold the same bytes.
pub fn str_eq(a: &str, b: &str) -> (r: bool)
    ensures
        r == (a.spec_bytes() == b.spec_bytes()),
{
    slice_eq(a.as_bytes(), b.as_bytes())
}

/// Maximum length, in bytes, of an export function name.
pub const MAX_EXPORT_NAME_LEN: usize = 100;

/// An empty parameter list.
pub(crate) fn vt0() -> (r: Vec<ValueType>)
    ensures
        r@ == Seq::<ValueType>::empty(),
{
    let r: Vec<ValueType> = Vec::new();
    proof {
        assert(r@ =~= Seq::<ValueType>::empty());
    }
    r
}

/// A one-element parameter list.
pub(crate) fn vt1(a: ValueType) -> (r: Vec<ValueType>)
    ensures
        r@ == seq![a],
{
    let mut r: Vec<ValueType> = Vec::new();
    r.push(a);
    proof {
        assert(r@ =~= seq![a]);
    }
    r
}

/// A two-element parameter list.
pub(crate) fn vt2(a: ValueType, b: ValueType) -> (r: Vec<ValueType>)
    ensures
        r@ == seq![a, b],
{
    let mut r: Vec<ValueType> = Vec::new();
    r.push(a);
    r.push(b);
    proof {
        assert(r@ =~= seq![a, b]);
    }
    r
}

/// A three-element parameter list.
pub(crate) fn vt3(a: ValueType, b: ValueType, c: ValueType) -> (r: Vec<ValueType>)
    ensures
        r@ == seq![a, b, c],
{
    let mut r: Vec<ValueType> = Vec::new();
    r.push(a);
    r.push(b);
    r.push(c);
    proof {
        assert(r@ =~= seq![a, b, c]);
    }
    r
}

/// A four-element parameter list.
pub(crate) fn vt4(a: ValueType, b: ValueType, c: ValueType, d: ValueType) -> (r: Vec<ValueType>)
    ensures
        r@ == seq![a, b, c, d],
{
    let mut r: Vec<ValueType> = Vec::new();
    r.push(a);
    r.push(b);
    r.push(c);
    r.push(d);
    proof {
        assert(r@ =~= seq![a, b, c, d]);
    }
    r
}

/// A seven-element parameter list.
pub(crate) fn vt7(
    a: ValueType,
    b: ValueType,
    c: ValueType,
    d: ValueType,
    e: ValueType,
    f: ValueType,
    g: ValueType,
) -> (r: Vec<ValueType>)
    ensures
        r@ == seq![a, b, c, d, e, f, g],
{
    let mut r: Vec<ValueType> = Vec::new();
    r.push(a);
    r.push(b);
    r.push(c);
    r.push(d);
    r.push(e);
    r.push(f);
    r.push(g);
    proof {
        assert(r@ =~= seq![a, b, c, d, e, f, g]);
    }
    r
}

/// The allowed imports of a chain module: the exact names and function types
/// the host serves.
pub struct ConcordiumAllowedImports;

/// The table of allowed imports: each name of the chain's module with its
/// exact function type, tried in order.
pub open spec fn valid_import(
    mod_bytes: Seq<u8>,
    item_bytes: Seq<u8>,
    params: Seq<ValueType>,
    result: Option<ValueType>,
) -> bool {
    if mod_bytes != "concordium".spec_bytes() {
        false
    } else if item_bytes == "accept".spec_bytes() {
        params == Seq::<ValueType>::empty() && result == Some(ValueType::I32)
    } else if item_bytes == "simple_transfer".spec_bytes() {
        params == seq![ValueType::I32, ValueType::I64] && result == Some(ValueType::I32)
    } else if item_bytes == "send".spec_bytes() {
        params == seq![
            ValueType::I64,
            ValueType::I64,
            ValueType::I32,
            ValueType::I32,
            ValueType::I64,
            ValueType::I32,
            ValueType::I32,
        ] && result == Some(ValueType::I32)
    } else if item_bytes == "combine_and".spec_bytes() {
        params == seq![ValueType::I32, ValueType::I32] && result == Some(ValueType::I32)
    } else if item_bytes == "combine_or".spec_bytes() {
        params == seq![ValueType::I32, ValueType::I32] && result == Some(ValueType::I32)
    } else if item_bytes == "get_parameter_size".spec_bytes() {
        params == Seq::<ValueType>::empty() && result == Some(ValueType::I32)
    } else if item_bytes == "get_parameter_section".spec_bytes() {
        params == seq![ValueType::I32, ValueType::I32, ValueType::I32] && result == Some(
            ValueType::I32,
        )
    } else if item_bytes == "log_event".spec_bytes() {
        params == seq![ValueType::I32, ValueType::I32] && result is None
    } else if item_bytes == "load_state".spec_bytes() {
        params == seq![ValueType::I32, ValueType::I32, ValueType::I32] && result == Some(
            ValueType::I32,
        )
    } else if item_bytes == "write_state".spec_bytes() {
        params == seq![ValueType::I32, ValueType::I32, ValueType::I32] && result == Some(
            ValueType::I32,
        )
    } else if item_bytes == "resize_state".spec_bytes() {
        params == seq![ValueType::I32] && result == Some(ValueType::I32)
    } else if item_bytes == "state_size".spec_bytes() {
        params == Seq::<ValueType>::empty() && result == Some(ValueType::I32)
    } else if item_bytes == "get_init_origin".spec_bytes() {
        params == seq![ValueType::I32] && result is None
    } else if item_bytes == "get_receive_invoker".spec_bytes() {
        params == seq![ValueType::I32] && result is None
    } else if item_bytes == "get_receive_self_address".spec_bytes() {
        params == seq![ValueType::I32] && result is None
    } else if item_bytes == "get_receive_self_balance".spec_bytes() {
        params == Seq::<ValueType>::empty() && result == Some(ValueType::I64)
    } else if item_bytes == "get_receive_sender".spec_bytes() {
        params == seq![ValueType::I32] && result is None
    } else if item_bytes == "get_receive_owner".spec_bytes() {
        params == seq![ValueType::I32] && result is None
    } else if item_bytes == "get_slot_number".spec_bytes() {
        params == Seq::<ValueType>::empty() && result == Some(ValueType::I64)
    } else if item_bytes == "get_block_height".spec_bytes() {
        params == Seq::<ValueType>::empty() && result == Some(ValueType::I64)
    } else if item_bytes == "get_finalized_height".spec_bytes() {
        params == Seq::<ValueType>::empty() && result == Some(ValueType::I64)
    } else if item_bytes == "get_slot_time".spec_bytes() {
        params == Seq::<ValueType>::empty() && result == Some(ValueType::I64)
    } else {
        false
    }
}

/// A valid export name: at most `MAX_EXPORT_NAME_LEN` bytes of printable
/// ASCII, of the signature `(i64) -> i32`, and either an init name
/// (`init_` prefix, no dot) or a receive name (a dot somewhere).
pub open spec fn valid_export(bytes: Seq<u8>, params: Seq<ValueType>, result: Option<
    ValueType,
>) -> bool {
    &&& bytes.len() <= MAX_EXPORT_NAME_LEN
    &&& (forall|i: int| 0 <= i < bytes.len() ==> is_name_byte(#[trigger] bytes[i]))
    &&& params == seq![ValueType::I64]
    &&& result == Some(ValueType::I32)
    &&& (if "init_".spec_bytes().is_prefix_of(bytes) {
        !bytes.contains(46u8)
    } else {
        bytes.contains(46u8)
    })
}

impl ConcordiumAllowedImports {
    /// Accept exactly the chain's imports: the right module, a known item
    /// name, the exact function type, and no duplicates.
    pub fn validate_import_function(
        &self,
        duplicate: bool,
        mod_name: &str,
        item_name: &str,
        ty: &FunctionType,
    ) -> (r: bool)
        ensures
            r == (!duplicate && valid_import(
                mod_name.spec_bytes(),
                item_name.spec_bytes(),
                ty.parameters@,
                ty.result,
            )),
    {
        if duplicate {
            return false;
        }
        if !str_eq(mod_name, "concordium") {
            return false;
        }
        let i32t = ValueType::I32;
        let i64t = ValueType::I64;
        if str_eq(item_name, "accept") {
            type_matches(ty, &vt0(), Some(i32t))
        } else if str_eq(item_name, "simple_transfer") {
            type_matches(ty, &vt2(i32t, i64t), Some(i32t))
        } else if str_eq(item_name, "send") {
            type_matches(ty, &vt7(i64t, i64t, i32t, i32t, i64t, i32t, i32t), Some(i32t))
        } else if str_eq(item_name, "combine_and") {
            type_matches(ty, &vt2(i32t, i32t), Some(i32t))
        } else if str_eq(item_name, "combine_or") {
            type_matches(ty, &vt2(i32t, i32t), Some(i32t))
        } else if str_eq(item_name, "get_parameter_size") {
            type_matches(ty, &vt0(), Some(i32t))
        } else if str_eq(item_name, "get_parameter_section") {
            type_matches(ty, &vt3(i32t, i32t, i32t), Some(i32t))
        } else if str_eq(item_name, "log_event") {
            type_matches(ty, &vt2(i32t, i32t), None)
        } else if str_eq(item_name, "load_state") {
            type_matches(ty, &vt3(i32t, i32t, i32t), Some(i32t))
        } else if str_eq(item_name, "write_state") {
            type_matches(ty, &vt3(i32t, i32t, i32t), Some(i32t))
        } else if str_eq(item_name, "resize_state") {
            type_matches(ty, &vt1(i32t), Some(i32t))
        } else if str_eq(item_name, "state_size") {
            type_matches(ty, &vt0(), Some(i32t))
        } else if str_eq(item_name, "get_init_origin") {
            type_matches(ty, &vt1(i32t), None)
        } else if str_eq(item_name, "get_receive_invoker") {
            type_matches(ty, &vt1(i32t), None)
        } else if str_eq(item_name, "get_receive_self_address") {
            type_matches(ty, &vt1(i32t), None)
        } else if str_eq(item_name, "get_receive_self_balance") {
            type_matches(ty, &vt0(), Some(i64t))
        } else if str_eq(item_name, "get_receive_sender") {
            type_matches(ty, &vt1(i32t), None)
        } else if str_eq(item_name, "get_receive_owner") {
            type_matches(ty, &vt1(i32t), None)
        } else if str_eq(item_name, "get_slot_number") {
            type_matches(ty, &vt0(), Some(i64t))
        } else if str_eq(item_name, "get_block_height") {
            type_matches(ty, &vt0(), Some(i64t))
        } else if str_eq(item_name, "get_finalized_height") {
            type_matches(ty, &vt0(), Some(i64t))
        } else if str_eq(item_name, "get_slot_time") {
            type_matches(ty, &vt0(), Some(i64t))
        } else {
            false
        }
    }

    /// Accept exactly the well-formed entrypoint exports: printable ASCII
    /// names within the length bound, the entrypoint signature, and the
    /// init/receive naming discipline.
    pub fn validate_export_function(&self, item_name: &str, ty: &FunctionType) -> (r: bool)
        ensures
            r == valid_export(item_name.spec_bytes(), ty.parameters@, ty.result),
    {
        let bytes = item_name.as_bytes();
        let n = bytes.len();
        if n > MAX_EXPORT_NAME_LEN {
            return false;
        }
        let mut has_dot = false;
        let mut i: usize = 0;
        while i < n
            invariant
                i <= n,
                n == bytes@.len(),
                bytes@ == item_name.spec_bytes(),
                forall|j: int| 0 <= j < i ==> is_name_byte(#[trigger] bytes@[j]),
                has_dot == exists|j: int| 0 <= j < i && bytes@[j] == 46u8,
            decreases n - i,
        {
            let b = bytes[i];
            if b < 33 || b > 126 {
                proof {
                    assert(!is_name_byte(bytes@[i as int]));
                }
                return false;
            }
            if b == 46 {
                has_dot = true;
            }
            i = i + 1;
        }
        proof {
            assert(has_dot == bytes@.contains(46u8));
        }
        if !type_matches(ty, &vt1(ValueType::I64), Some(ValueType::I32)) {
            return false;
        }
        let init_lit = "init_";
        let is_init = slice_is_prefix(init_lit.as_bytes(), bytes);
        if is_init {
            !has_dot
        } else {
            has_dot
        }
    }
}

/// Whether `a` is a prefix of `b`, on raw bytes.
pub(crate) fn slice_is_prefix(a: &[u8], b: &[u8]) -> (r: bool)
    ensures
        r == a@.is_prefix_of(b@),
{
    let alen = a.len();
    let blen = b.len();
    if alen > blen {
        return false;
    }
    let mut i: usize = 0;
    while i < alen
        invariant
            i <= alen,
            alen == a@.len(),
            blen == b@.len(),
            alen <= blen,
            forall|j: int| 0 <= j < i ==> a@[j] == b@[j],
        decreases alen - i,
    {
        if a[i] != b[i] {
            proof {
                assert(!a@.is_prefix_of(b@));
            }
            return false;
        }
        i = i + 1;
    }
    proof {
        assert(a@ =~= b@.subrange(0, alen as int));
    }
    true
}

/// A processed import: its dispatch tag and its function type.
#[derive(Debug)]
pub struct ProcessedImports {
    pub tag: ImportFunc,
    pub ty: FunctionType,
}

/// The dispatch tag for an imported name, as the compiler resolves it.
pub open spec fn import_of_name(mod_bytes: Seq<u8>, item_bytes: Seq<u8>) -> Option<ImportFunc> {
    if mod_bytes == "concordium_metering".spec_bytes() {
        if item_bytes == "account_energy".spec_bytes() {
            Some(ImportFunc::ChargeEnergy)
        } else if item_bytes == "account_stack".spec_bytes() {
            Some(ImportFunc::ChargeStackSize)
        } else if item_bytes == "account_memory".spec_bytes() {
            Some(ImportFunc::ChargeMemoryAlloc)
        } else {
            None
        }
    } else if mod_bytes == "concordium".spec_bytes() {
        if item_bytes == "accept".spec_bytes() {
            Some(ImportFunc::ReceiveOnly(ReceiveOnlyFunc::Accept))
        } else if item_bytes == "simple_transfer".spec_bytes() {
            Some(ImportFunc::ReceiveOnly(ReceiveOnlyFunc::SimpleTransfer))
        } else if item_bytes == "send".spec_bytes() {
            Some(ImportFunc::ReceiveOnly(ReceiveOnlyFunc::Send))
        } else if item_bytes == "combine_and".spec_bytes() {
            Some(ImportFunc::ReceiveOnly(ReceiveOnlyFunc::CombineAnd))
        } else if item_bytes == "combine_or".spec_bytes() {
            Some(ImportFunc::ReceiveOnly(ReceiveOnlyFunc::CombineOr))
        } else if item_bytes == "get_parameter_size".spec_bytes() {
            Some(ImportFunc::Common(CommonFunc::GetParameterSize))
        } else if item_bytes == "get_parameter_section".spec_bytes() {
            Some(ImportFunc::Common(CommonFunc::GetParameterSection))
        } else if item_bytes == "log_event".spec_bytes() {
            Some(ImportFunc::Common(CommonFunc::LogEvent))
        } else if item_bytes == "load_state".spec_bytes() {
            Some(ImportFunc::Common(CommonFunc::LoadState))
        } else if item_bytes == "write_state".spec_bytes() {
            Some(ImportFunc::Common(CommonFunc::WriteState))
        } else if item_bytes == "resize_state".spec_bytes() {
            Some(ImportFunc::Common(CommonFunc::ResizeState))
        } else if item_bytes == "state_size".spec_bytes() {
            Some(ImportFunc::Common(CommonFunc::StateSize))
        } else if item_bytes == "get_init_origin".spec_bytes() {
            Some(ImportFunc::InitOnly(InitOnlyFunc::GetInitOrigin))
        } else if item_bytes == "get_receive_invoker".spec_bytes() {
            Some(ImportFunc::ReceiveOnly(ReceiveOnlyFunc::GetReceiveInvoker))
        } else if item_bytes == "get_receive_self_address".spec_bytes() {
            Some(ImportFunc::ReceiveOnly(ReceiveOnlyFunc::GetReceiveSelfAddress))
        } else if item_bytes == "get_receive_self_balance".spec_bytes() {
            Some(ImportFunc::ReceiveOnly(ReceiveOnlyFunc::GetReceiveSelfBalance))
        } else if item_bytes == "get_receive_sender".spec_bytes() {
            Some(ImportFunc::ReceiveOnly(ReceiveOnlyFunc::GetReceiveSender))
        } else if item_bytes == "get_receive_owner".spec_bytes() {
            Some(ImportFunc::ReceiveOnly(ReceiveOnlyFunc::GetReceiveOwner))
        } else if item_bytes == "get_slot_number".spec_bytes() {
            Some(ImportFunc::Common(CommonFunc::GetSlotNumber))
        } else if item_bytes == "get_block_height".spec_bytes() {
            Some(ImportFunc::Common(CommonFunc::GetBlockHeight))
        } else if item_bytes == "get_finalized_height".spec_bytes() {
            Some(ImportFunc::Common(CommonFunc::GetFinalizedHeight))
        } else if item_bytes == "get_slot_time".spec_bytes() {
            Some(ImportFunc::Common(CommonFunc::GetSlotTime))
        } else {
            None
        }
    } else {
        None
    }
}

impl ProcessedImports {
    /// Resolve one import of a validated module into its dispatch tag and
    /// type; unknown names or an out-of-range type index are rejected.
    pub fn try_from_import(
        ctx: &Vec<FunctionType>,
        mod_name: &str,
        item_name: &str,
        type_idx: u32,
    ) -> (r: Result<ProcessedImports, crate::errors::ValidationError>)
        ensures
            r matches Ok(pi) ==> import_of_name(mod_name.spec_bytes(), item_name.spec_bytes())
                == Some(pi.tag) && (type_idx as int) < ctx@.len() && pi.ty.parameters@
                == ctx@[type_idx as int].parameters@ && pi.ty.result
                == ctx@[type_idx as int].result,
            r is Err ==> import_of_name(mod_name.spec_bytes(), item_name.spec_bytes()) is None
                || type_idx as int >= ctx@.len(),
    {
        let tag: ImportFunc = if str_eq(mod_name, "concordium_metering") {
            if str_eq(item_name, "account_energy") {
                ImportFunc::ChargeEnergy
            } else if str_eq(item_name, "account_stack") {
                ImportFunc::ChargeStackSize
            } else if str_eq(item_name, "account_memory") {
                ImportFunc::ChargeMemoryAlloc
            } else {
                return Err(crate::errors::ValidationError::UnsupportedImport);
            }
        } else if str_eq(mod_name, "concordium") {
            if str_eq(item_name, "accept") {
                ImportFunc::ReceiveOnly(ReceiveOnlyFunc::Accept)
            } else if str_eq(item_name, "simple_transfer") {
                ImportFunc::ReceiveOnly(ReceiveOnlyFunc::SimpleTransfer)
            } else if str_eq(item_name, "send") {
                ImportFunc::ReceiveOnly(ReceiveOnlyFunc::Send)
            } else if str_eq(item_name, "combine_and") {
                ImportFunc::ReceiveOnly(ReceiveOnlyFunc::CombineAnd)
            } else if str_eq(item_name, "combine_or") {
                ImportFunc::ReceiveOnly(ReceiveOnlyFunc::CombineOr)
            } else if str_eq(item_name, "get_parameter_size") {
                ImportFunc::Common(CommonFunc::GetParameterSize)
            } else if str_eq(item_name, "get_parameter_section") {
                ImportFunc::Common(CommonFunc::GetParameterSection)
            } else if str_eq(item_name, "log_event") {
                ImportFunc::Common(CommonFunc::LogEvent)
            } else if str_eq(item_name, "load_state") {
                ImportFunc::Common(CommonFunc::LoadState)
            } else if str_eq(item_name, "write_state") {
                ImportFunc::Common(CommonFunc::WriteState)
            } else if str_eq(item_name, "resize_state") {
                ImportFunc::Common(CommonFunc::ResizeState)
            } else if str_eq(item_name, "state_size") {
                ImportFunc::Common(CommonFunc::StateSize)
            } else if str_eq(item_name, "get_init_origin") {
                ImportFunc::InitOnly(InitOnlyFunc::GetInitOrigin)
            } else if str_eq(item_name, "get_receive_invoker") {
                ImportFunc::ReceiveOnly(ReceiveOnlyFunc::GetReceiveInvoker)
            } else if str_eq(item_name, "get_receive_self_address") {
                ImportFunc::ReceiveOnly(ReceiveOnlyFunc::GetReceiveSelfAddress)
            } else if str_eq(item_name, "get_receive_self_balance") {
                ImportFunc::ReceiveOnly(ReceiveOnlyFunc::GetReceiveSelfBalance)
            } else if str_eq(item_name, "get_receive_sender") {
                ImportFunc::ReceiveOnly(ReceiveOnlyFunc::GetReceiveSender)
            } else if str_eq(item_name, "get_receive_owner") {
                ImportFunc::ReceiveOnly(ReceiveOnlyFunc::GetReceiveOwner)
            } else if str_eq(item_name, "get_slot_number") {
                ImportFunc::Common(CommonFunc::GetSlotNumber)
            } else if str_eq(item_name, "get_block_height") {
                ImportFunc::Common(CommonFunc::GetBlockHeight)
            } else if str_eq(item_name, "get_finalized_height") {
                ImportFunc::Common(CommonFunc::GetFinalizedHeight)
            } else if str_eq(item_name, "get_slot_time") {
                ImportFunc::Common(CommonFunc::GetSlotTime)
            } else {
                return Err(crate::errors::ValidationError::UnsupportedImport);
            }
        } else {
            return Err(crate::errors::ValidationError::UnsupportedModule);
        };
        if (type_idx as usize) >= ctx.len() {
            return Err(crate::errors::ValidationError::UnknownType);
        }
        let orig = &ctx[type_idx as usize];
        let mut parameters: Vec<ValueType> = Vec::new();
        let pn = orig.parameters.len();
        let mut i: usize = 0;
        while i < pn
            invariant
                i <= pn,
                pn == orig.parameters@.len(),
                parameters@ == orig.parameters@.subrange(0, i as int),
            decreases pn - i,
        {
            parameters.push(orig.parameters[i]);
            i = i + 1;
            proof {
                assert(parameters@ =~= orig.parameters@.subrange(0, i as int));
            }
        }
        proof {
            assert(parameters@ =~= orig.parameters@);
        }
        let result = match &orig.result {
            Some(v) => Some(*v),
            None => None,
        };
        Ok(ProcessedImports { tag, ty: FunctionType { parameters, result } })
    }

    /// The function type of the import.
    pub fn ty(&self) -> (r: &FunctionType)
        ensures
            r == self.ty,
    {
        &self.ty
    }
}

/// `is_valid_receive_name` on the raw bytes of the name.
pub fn valid_receive_name_bytes(bytes: &[u8]) -> (r: bool)
    ensures
        r == valid_receive_name(bytes@),
{
    let n = bytes.len();
    let mut has_dot = false;
    let mut i: usize = 0;
    while i < n
        invariant
            n == bytes@.len(),
            i <= n,
            forall|j: int| 0 <= j < i ==> is_name_byte(#[trigger] bytes@[j]),
            has_dot == exists|j: int| 0 <= j < i && bytes@[j] == 46u8,
        decreases n - i,
    {
        let b = bytes[i];
        if b < 33 || b > 126 {
            return false;
        }
        if b == 46 {
            has_dot = true;
        }
        i = i + 1;
    }
    has_dot
}


} // verus!
