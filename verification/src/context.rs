//! The execution context that the DA contract's functions run in.

use vstd::prelude::*;
use crate::storage::{read_account, AccountStorage, SystemStorage};
use crate::uint::{two128, Address, U256};

verus! {

/// The address space a call runs in.
#[derive(Clone, Copy, Debug, PartialEq, Eq, Structural)]
pub enum Space {
    Native,
    Ethereum,
}

/// The parameters of the call being executed.
#[derive(Clone, Copy, Debug, PartialEq, Eq, Structural)]
pub struct ActionParams {
    /// Who sent the call.
    pub sender: Address,
    /// The contract being called.
    pub address: Address,
    /// The space of the call.
    pub space: Space,
}

/// A log record emitted by a contract.
#[derive(Debug)]
pub struct LogEntry {
    pub address: Address,
    pub topics: Vec<U256>,
    pub data: Vec<u8>,
    pub space: Space,
}

/// Why a call of the DA contract failed.
#[derive(Clone, Copy, Debug, PartialEq, Eq, Structural)]
pub enum VmError {
    /// A log was attempted in a static or reentrant call.
    MutableCallInStaticContext,
    /// "Row index out of bound"
    RowIndexOutOfBound,
    /// "block height is not continuous"
    BlockHeightNotContinuous,
    /// "Sender is not a registered signer"
    SenderNotRegisteredSigner,
    /// "Socket address too long (max 64 bytes)"
    SocketTooLong,
    /// "Caller {caller} does not match signer {signer}"
    CallerMismatch { caller: Address, signer: Address },
    /// "Invalid G1 x coordinate"
    InvalidG1X,
    /// "Invalid G1 y coordinate"
    InvalidG1Y,
    /// "Invalid G1 point"
    InvalidG1Point,
    /// The registration signature does not verify.
    InvalidSignature,
}

/// The world state that the contract reads and writes.
pub struct State {
    /// Storage of the system contracts, keyed by 256-bit slot.
    pub system: SystemStorage,
    /// Storage of the accounts, keyed by account, space and byte key.
    pub accounts: AccountStorage,
}

impl View for State {
    type V = Map<nat, nat>;

    open spec fn view(&self) -> Map<nat, nat> {
        self.system@
    }
}

impl State {
    pub open spec fn wf(&self) -> bool {
        self.system.wf() && self.accounts.wf()
    }

    /// A state whose every slot reads as zero.
    pub fn new() -> (r: State)
        ensures
            r.wf(),
            r@ == Map::<nat, nat>::empty(),
            r.accounts@ == Map::<(nat, Space, Seq<u8>), nat>::empty(),
    {
        State { system: SystemStorage::new(), accounts: AccountStorage::new() }
    }

    /// The value of a system-storage slot.
    pub fn get_system_storage(&self, key: &U256) -> (r: U256)
        requires
            self.wf(),
        ensures
            r@ == crate::storage::read(self@, key@),
    {
        self.system.get(key)
    }

    /// Writes a system-storage slot.
    pub fn set_system_storage(&mut self, key: U256, value: U256)
        requires
            old(self).wf(),
        ensures
            final(self).wf(),
            final(self)@ == old(self)@.insert(key@, value@),
            final(self).accounts@ == old(self).accounts@,
    {
        self.system.set(key, value);
    }

    /// The value at `key` in the storage of `account` in `space`.
    pub fn storage_at(&self, account: &Address, space: Space, key: &[u8]) -> (r: U256)
        requires
            self.wf(),
        ensures
            r@ == read_account(self.accounts@, (account@, space, key@)),
    {
        self.accounts.get(account, space, key)
    }

    /// Writes `value` at `key` in the storage of `account` in `space`.
    pub fn set_storage(&mut self, account: Address, space: Space, key: Vec<u8>, value: U256)
        requires
            old(self).wf(),
        ensures
            final(self).wf(),
            final(self)@ == old(self)@,
            final(self).accounts@ == old(self).accounts@.insert((account@, space, key@), value@),
    {
        self.accounts.set(account, space, key, value);
    }
}

/// What an internal contract sees of the running call.
pub struct InternalRefContext {
    /// Number of the block being executed.
    pub block_number: u64,
    /// Whether the call is static.
    pub static_flag: bool,
    /// Whether the call stack is in a reentrant call.
    pub in_reentrancy: bool,
    /// Depth of the call.
    pub depth: usize,
    /// The world state.
    pub state: State,
    /// Logs emitted so far.
    pub logs: Vec<LogEntry>,
}

impl InternalRefContext {
    pub open spec fn wf(&self) -> bool {
        self.state.wf()
    }

    /// A context with an empty state and no logs.
    pub fn new(block_number: u64) -> (r: InternalRefContext)
        ensures
            r.wf(),
            r.state@ == Map::<nat, nat>::empty(),
            r.state.accounts@ == Map::<(nat, Space, Seq<u8>), nat>::empty(),
            r.logs@.len() == 0,
            r.block_number == block_number,
            !r.static_flag,
            !r.in_reentrancy,
    {
        InternalRefContext {
            block_number,
            static_flag: false,
            in_reentrancy: false,
            depth: 0,
            state: State::new(),
            logs: Vec::new(),
        }
    }

    /// Appends a log from the called contract; refused in a static or reentrant call.
    pub fn log(&mut self, params: &ActionParams, topics: Vec<U256>, data: Vec<u8>) -> (r: Result<
        (),
        VmError,
    >)
        ensures
            final(self).state == old(self).state,
            final(self).block_number == old(self).block_number,
            final(self).static_flag == old(self).static_flag,
            final(self).in_reentrancy == old(self).in_reentrancy,
            final(self).depth == old(self).depth,
            old(self).static_flag || old(self).in_reentrancy ==> {
                &&& r == Err::<(), VmError>(VmError::MutableCallInStaticContext)
                &&& final(self).logs@ == old(self).logs@
            },
            !(old(self).static_flag || old(self).in_reentrancy) ==> {
                &&& r is Ok
                &&& final(self).logs@.len() == old(self).logs@.len() + 1
                &&& final(self).logs@.subrange(0, old(self).logs@.len() as int) == old(self).logs@
                &&& final(self).logs@.last().address == params.address
                &&& final(self).logs@.last().topics@ == topics@
                &&& final(self).logs@.last().data@ == data@
                &&& final(self).logs@.last().space == params.space
            },
    {
        if self.static_flag || self.in_reentrancy {
            return Err(VmError::MutableCallInStaticContext);
        }
        let ghost old_logs = self.logs@;
        self.logs.push(LogEntry { address: params.address, topics, data, space: params.space });
        assert(self.logs@.subrange(0, old_logs.len() as int) =~= old_logs);
        Ok(())
    }

    /// Writes `value` at `key` in the storage of the called contract, in the
    /// call's space.
    pub fn set_storage(&mut self, params: &ActionParams, key: Vec<u8>, value: U256) -> (r: Result<
        (),
        VmError,
    >)
        requires
            old(self).wf(),
        ensures
            r is Ok,
            final(self).wf(),
            final(self).state@ == old(self).state@,
            final(self).state.accounts@ == old(self).state.accounts@.insert(
                (params.address@, params.space, key@),
                value@,
            ),
            final(self).logs == old(self).logs,
            final(self).block_number == old(self).block_number,
            final(self).static_flag == old(self).static_flag,
            final(self).in_reentrancy == old(self).in_reentrancy,
            final(self).depth == old(self).depth,
    {
        self.state.set_storage(params.address, params.space, key, value);
        Ok(())
    }

    /// The value at `key` in the storage of the called contract, in the call's
    /// space (zero where nothing was written).
    pub fn storage_at(&mut self, params: &ActionParams, key: &[u8]) -> (r: Result<U256, VmError>)
        requires
            old(self).wf(),
        ensures
            *final(self) == *old(self),
            r matches Ok(v) && v@ == read_account(
                old(self).state.accounts@,
                (params.address@, params.space, key@),
            ),
    {
        Ok(self.state.storage_at(&params.address, params.space, key))
    }

    /// Whether `address` is of the contract type: its top four bits are `0x8`.
    pub fn is_contract_address(&self, address: &Address) -> (r: Result<bool, VmError>)
        ensures
            r == Ok::<bool, VmError>(address@ / 0x1000_0000_0000_0000_0000_0000_0000_0000_0000_0000nat
                == 8),
    {
        let top = address.hi >> 28u32;
        proof {
            let h = address.hi;
            assert(h >> 28u32 == h / 0x1000_0000) by (bit_vector);
            let hn = h as nat;
            let l = address.lo as nat;
            assert((hn * two128() + l) / 0x1000_0000_0000_0000_0000_0000_0000_0000_0000_0000nat == hn
                / 0x1000_0000) by (nonlinear_arith)
                requires
                    l < two128(),
                    two128() == 0x1_0000_0000_0000_0000_0000_0000_0000_0000nat,
            {
                let q = hn / 0x1000_0000;
                let rr = hn % 0x1000_0000;
                assert(hn == q * 0x1000_0000 + rr);
                assert(hn * two128() + l == q * 0x1000_0000_0000_0000_0000_0000_0000_0000_0000_0000nat
                    + (rr * two128() + l));
                assert(rr * two128() + l < 0x1000_0000_0000_0000_0000_0000_0000_0000_0000_0000nat);
                vstd::arithmetic::div_mod::lemma_div_multiples_vanish_fancy(
                    q as int,
                    (rr * two128() + l) as int,
                    0x1000_0000_0000_0000_0000_0000_0000_0000_0000_0000int,
                );
            }
        }
        Ok(top == 8)
    }
}

} // verus!
