//! The DA contract's function table: ABI selectors, and the dispatch of a
//! decoded call to its implementation.

use vstd::prelude::*;
use vstd::utf8::encode_utf8;
use crate::keccak::{keccak256, keccak_prefix4};

verus! {

/// The functions of the DA contract.
#[derive(Clone, Copy, Debug, PartialEq, Eq, Structural)]
pub enum DaFunction {
    EpochNumber,
    GetAggPkG1,
    GetQuorum,
    GetQuorumRow,
    GetSigner,
    IsSigner,
    QuorumCount,
    RegisteredEpoch,
    RegisterNextEpoch,
    RegisterSigner,
    UpdateSocket,
    FinalizeEpoch,
    SetEpochBlocks,
}

/// The Solidity signature of a function.
pub open spec fn signature_of(f: DaFunction) -> Seq<char> {
    match f {
        DaFunction::EpochNumber => "epochNumber()"@,
        DaFunction::GetAggPkG1 => "getAggPkG1(uint256,uint256,bytes)"@,
        DaFunction::GetQuorum => "getQuorum(uint256,uint256)"@,
        DaFunction::GetQuorumRow => "getQuorumRow(uint256,uint256,uint32)"@,
        DaFunction::GetSigner => "getSigner(address[])"@,
        DaFunction::IsSigner => "isSigner(address)"@,
        DaFunction::QuorumCount => "quorumCount(uint256)"@,
        DaFunction::RegisteredEpoch => "registeredEpoch(address,uint256)"@,
        DaFunction::RegisterNextEpoch => "registerNextEpoch((uint256,uint256))"@,
        DaFunction::RegisterSigner => "registerSigner((address,string,(uint256,uint256),(uint256[2],uint256[2])),(uint256,uint256))"@,
        DaFunction::UpdateSocket => "updateSocket(string)"@,
        DaFunction::FinalizeEpoch => "finalizeEpoch()"@,
        DaFunction::SetEpochBlocks => "setEpochBlocks(uint256)"@,
    }
}

/// The ABI selector of a function: the first four bytes of the Keccak-256
/// digest of its signature.
pub open spec fn selector_of(f: DaFunction) -> Seq<u8> {
    keccak256(encode_utf8(signature_of(f))).subrange(0, 4)
}

/// Whether a function only reads state ("query"); the others are
/// non-payable writes.
pub open spec fn is_query_function(f: DaFunction) -> bool {
    match f {
        DaFunction::EpochNumber | DaFunction::GetAggPkG1 | DaFunction::GetQuorum
        | DaFunction::GetQuorumRow | DaFunction::GetSigner | DaFunction::IsSigner
        | DaFunction::QuorumCount | DaFunction::RegisteredEpoch => true,
        _ => false,
    }
}

impl DaFunction {
    /// The Solidity signature.
    pub fn signature(&self) -> (r: &'static str)
        ensures
            r@ == signature_of(*self),
    {
        match self {
            DaFunction::EpochNumber => "epochNumber()",
            DaFunction::GetAggPkG1 => "getAggPkG1(uint256,uint256,bytes)",
            DaFunction::GetQuorum => "getQuorum(uint256,uint256)",
            DaFunction::GetQuorumRow => "getQuorumRow(uint256,uint256,uint32)",
            DaFunction::GetSigner => "getSigner(address[])",
            DaFunction::IsSigner => "isSigner(address)",
            DaFunction::QuorumCount => "quorumCount(uint256)",
            DaFunction::RegisteredEpoch => "registeredEpoch(address,uint256)",
            DaFunction::RegisterNextEpoch => "registerNextEpoch((uint256,uint256))",
            DaFunction::RegisterSigner => "registerSigner((address,string,(uint256,uint256),(uint256[2],uint256[2])),(uint256,uint256))",
            DaFunction::UpdateSocket => "updateSocket(string)",
            DaFunction::FinalizeEpoch => "finalizeEpoch()",
            DaFunction::SetEpochBlocks => "setEpochBlocks(uint256)",
        }
    }

    /// The ABI selector.
    pub fn selector(&self) -> (r: [u8; 4])
        ensures
            r@ == selector_of(*self),
    {
        keccak_prefix4(self.signature().as_bytes())
    }

    /// Whether the function is a "query" (read-only) function.
    pub fn is_query(&self) -> (r: bool)
        ensures
            r == is_query_function(*self),
    {
        match self {
            DaFunction::EpochNumber | DaFunction::GetAggPkG1 | DaFunction::GetQuorum
            | DaFunction::GetQuorumRow | DaFunction::GetSigner | DaFunction::IsSigner
            | DaFunction::QuorumCount | DaFunction::RegisteredEpoch => true,
            _ => false,
        }
    }

    /// The gas charged before execution: none, for every function of this contract.
    pub fn upfront_gas_payment(&self) -> (r: crate::uint::U256)
        ensures
            r@ == 0,
    {
        crate::uint::U256::zero()
    }
}

/// The functions in the order the table is built.
pub open spec fn table_functions() -> Seq<DaFunction> {
    seq![
        DaFunction::EpochNumber,
        DaFunction::GetAggPkG1,
        DaFunction::GetQuorum,
        DaFunction::GetQuorumRow,
        DaFunction::GetSigner,
        DaFunction::IsSigner,
        DaFunction::QuorumCount,
        DaFunction::RegisteredEpoch,
        DaFunction::RegisterNextEpoch,
        DaFunction::RegisterSigner,
        DaFunction::UpdateSocket,
        DaFunction::FinalizeEpoch,
        DaFunction::SetEpochBlocks,
    ]
}

/// The map from selector to function after inserting `fs` in order (a later
/// function with the same selector replaces an earlier one).
pub open spec fn table_of(fs: Seq<DaFunction>) -> Map<Seq<u8>, DaFunction>
    decreases fs.len(),
{
    if fs.len() == 0 {
        Map::empty()
    } else {
        table_of(fs.drop_last()).insert(selector_of(fs.last()), fs.last())
    }
}

/// A map from 4-byte selectors to functions.
pub struct SolFnTable {
    entries: Vec<([u8; 4], DaFunction)>,
    map: Ghost<Map<Seq<u8>, DaFunction>>,
}

impl View for SolFnTable {
    type V = Map<Seq<u8>, DaFunction>;

    closed spec fn view(&self) -> Map<Seq<u8>, DaFunction> {
        self.map@
    }
}

fn same_selector(a: &[u8; 4], b: &[u8; 4]) -> (r: bool)
    ensures
        r == (a@ == b@),
{
    let r = a[0] == b[0] && a[1] == b[1] && a[2] == b[2] && a[3] == b[3];
    if r {
        assert(a@ =~= b@);
    }
    r
}

impl SolFnTable {
    /// The entries hold exactly the map, each selector once.
    pub closed spec fn wf(&self) -> bool {
        &&& forall|i: int|
            0 <= i < self.entries@.len() ==> {
                &&& #[trigger] self.map@.contains_key(self.entries@[i].0@)
                &&& self.map@[self.entries@[i].0@] == self.entries@[i].1
            }
        &&& forall|k: Seq<u8>|
            #[trigger] self.map@.contains_key(k) ==> exists|i: int|
                0 <= i < self.entries@.len() && #[trigger] self.entries@[i].0@ == k
        &&& forall|i: int, j: int|
            0 <= i < j < self.entries@.len() ==> #[trigger] self.entries@[i].0@
                != #[trigger] self.entries@[j].0@
    }

    pub fn new() -> (r: SolFnTable)
        ensures
            r.wf(),
            r@ == Map::<Seq<u8>, DaFunction>::empty(),
    {
        SolFnTable { entries: Vec::new(), map: Ghost(Map::empty()) }
    }

    /// Maps `selector` to `f`, replacing what it mapped to before.
    pub fn insert(&mut self, selector: [u8; 4], f: DaFunction)
        requires
            old(self).wf(),
        ensures
            final(self).wf(),
            final(self)@ == old(self)@.insert(selector@, f),
    {
        let mut i: usize = 0;
        while i < self.entries.len()
            invariant
                self.wf(),
                *self == *old(self),
                i <= self.entries@.len(),
                forall|j: int| 0 <= j < i ==> self.entries@[j].0@ != selector@,
            decreases self.entries@.len() - i,
        {
            if same_selector(&self.entries[i].0, &selector) {
                let ghost old_entries = self.entries@;
                self.entries.set(i, (selector, f));
                self.map = Ghost(self.map@.insert(selector@, f));
                assert forall|k: Seq<u8>| #[trigger] self.map@.contains_key(k) implies exists|w: int|
                    0 <= w < self.entries@.len() && #[trigger] self.entries@[w].0@ == k by {
                    if k == selector@ {
                        assert(self.entries@[i as int].0@ == k);
                    } else {
                        let w = choose|w: int| 0 <= w < old_entries.len() && old_entries[w].0@ == k;
                        assert(self.entries@[w].0@ == k);
                    }
                }
                return;
            }
            i = i + 1;
        }
        let ghost old_entries = self.entries@;
        let ghost old_map = self.map@;
        self.entries.push((selector, f));
        self.map = Ghost(self.map@.insert(selector@, f));
        assert forall|k: Seq<u8>| #[trigger] self.map@.contains_key(k) implies exists|w: int|
            0 <= w < self.entries@.len() && #[trigger] self.entries@[w].0@ == k by {
            if k == selector@ {
                assert(self.entries@[old_entries.len() as int].0@ == k);
            } else {
                let w = choose|w: int| 0 <= w < old_entries.len() && old_entries[w].0@ == k;
                assert(self.entries@[w].0@ == k);
            }
        }
        assert forall|i: int| 0 <= i < self.entries@.len() implies {
            &&& #[trigger] self.map@.contains_key(self.entries@[i].0@)
            &&& self.map@[self.entries@[i].0@] == self.entries@[i].1
        } by {
            if i < old_entries.len() {
                assert(self.entries@[i] == old_entries[i]);
                assert(old_map.contains_key(old_entries[i].0@));
                assert(old_entries[i].0@ != selector@);
            }
        }
        assert forall|i: int, j: int| 0 <= i < j < self.entries@.len() implies #[trigger] self.entries@[i].0@
            != #[trigger] self.entries@[j].0@ by {
            if j == old_entries.len() {
                assert(self.entries@[i] == old_entries[i]);
            } else {
                assert(self.entries@[i] == old_entries[i]);
                assert(self.entries@[j] == old_entries[j]);
            }
        }
    }

    /// The function that `selector` maps to.
    pub fn lookup(&self, selector: &[u8; 4]) -> (r: Option<DaFunction>)
        requires
            self.wf(),
        ensures
            r == (if self@.contains_key(selector@) {
                Some(self@[selector@])
            } else {
                None
            }),
    {
        let mut i: usize = 0;
        while i < self.entries.len()
            invariant
                self.wf(),
                i <= self.entries@.len(),
                forall|j: int| 0 <= j < i ==> self.entries@[j].0@ != selector@,
            decreases self.entries@.len() - i,
        {
            if same_selector(&self.entries[i].0, selector) {
                return Some(self.entries[i].1);
            }
            i = i + 1;
        }
        proof {
            if self@.contains_key(selector@) {
                let w = choose|w: int| 0 <= w < self.entries@.len() && self.entries@[w].0@ == selector@;
                assert(self.entries@[w].0@ == selector@);
            }
        }
        None
    }
}

/// The function table of the DA contract: each function under its selector.
pub fn generate_fn_table() -> (r: SolFnTable)
    ensures
        r.wf(),
        r@ == table_of(table_functions()),
{
    let fs: [DaFunction; 13] = [
        DaFunction::EpochNumber,
        DaFunction::GetAggPkG1,
        DaFunction::GetQuorum,
        DaFunction::GetQuorumRow,
        DaFunction::GetSigner,
        DaFunction::IsSigner,
        DaFunction::QuorumCount,
        DaFunction::RegisteredEpoch,
        DaFunction::RegisterNextEpoch,
        DaFunction::RegisterSigner,
        DaFunction::UpdateSocket,
        DaFunction::FinalizeEpoch,
        DaFunction::SetEpochBlocks,
    ];
    assert(fs@ =~= table_functions());
    let mut table = SolFnTable::new();
    let mut i: usize = 0;
    while i < 13
        invariant
            i <= 13,
            fs@ == table_functions(),
            table.wf(),
            table@ == table_of(fs@.subrange(0, i as int)),
        decreases 13 - i,
    {
        let f = fs[i];
        table.insert(f.selector(), f);
        proof {
            let t = fs@.subrange(0, i + 1);
            assert(t.drop_last() =~= fs@.subrange(0, i as int));
            assert(t.last() == f);
        }
        i = i + 1;
    }
    assert(fs@.subrange(0, 13) =~= fs@);
    table
}

} // verus!
