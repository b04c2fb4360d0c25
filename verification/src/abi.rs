//! ABI values of the DA contract and the events it emits.

use vstd::prelude::*;
use vstd::utf8::encode_utf8;
use crate::bytes::{be_bytes, lemma_be_bytes_props, lemma_pow256_values};
use crate::context::{ActionParams, InternalRefContext, VmError};
use crate::keccak::{hash_nat, keccak_u256};
use crate::uint::{lemma_u256_bound, Address, U256};

verus! {

/// `BN254.G1Point`: affine coordinates `(x, y)`.
#[derive(Clone, Copy, Debug)]
pub struct G1Point(pub U256, pub U256);

/// `BN254.G2Point`: `([x0, x1], [y0, y1])`, coordinates in Fp2.
#[derive(Clone, Copy, Debug)]
pub struct G2Point(pub [U256; 2], pub [U256; 2]);

/// A signer's account, socket and public keys.
#[derive(Debug)]
pub struct SignerDetail(pub Address, pub String, pub G1Point, pub G2Point);

/// Big-endian 32-byte words, concatenated.
pub open spec fn abi_words(ws: Seq<nat>) -> Seq<u8>
    decreases ws.len(),
{
    if ws.len() == 0 {
        Seq::empty()
    } else {
        abi_words(ws.drop_last()) + be_bytes(ws.last(), 32)
    }
}

/// `n` zero bytes.
pub open spec fn zeros(n: nat) -> Seq<u8> {
    Seq::new(n, |i: int| 0u8)
}

/// Number of zero bytes that pad `len` bytes to a whole number of words.
pub open spec fn pad_len(len: nat) -> nat {
    ((32 - len % 32) % 32) as nat
}

/// ABI encoding of a lone `string` (or `bytes`) value: offset, length, padded data.
pub open spec fn abi_string(b: Seq<u8>) -> Seq<u8> {
    be_bytes(32, 32) + be_bytes(b.len(), 32) + b + zeros(pad_len(b.len()))
}

/// Appends the 32-byte big-endian encoding of `v`.
pub fn push_word(out: &mut Vec<u8>, v: &U256)
    ensures
        final(out)@ == old(out)@ + be_bytes(v@, 32),
{
    let w = v.to_be_bytes();
    let mut i: usize = 0;
    let ghost start = out@;
    proof {
        lemma_u256_bound(*v);
        lemma_pow256_values();
        lemma_be_bytes_props(v@, 32);
    }
    while i < 32
        invariant
            i <= 32,
            w@ == be_bytes(v@, 32),
            w@.len() == 32,
            out@ == start + w@.subrange(0, i as int),
        decreases 32 - i,
    {
        out.push(w[i]);
        i = i + 1;
        assert(out@ =~= start + w@.subrange(0, i as int));
    }
    assert(w@.subrange(0, 32) =~= w@);
}

/// Event data of `NewSigner`: the G1 and G2 public keys, six words.
pub open spec fn new_signer_data(pk_g1: G1Point, pk_g2: G2Point) -> Seq<u8> {
    abi_words(seq![pk_g1.0@, pk_g1.1@, pk_g2.0[0]@, pk_g2.0[1]@, pk_g2.1[0]@, pk_g2.1[1]@])
}

/// The ABI encoding of `(pkG1, pkG2)`.
pub fn encode_new_signer_data(pk_g1: &G1Point, pk_g2: &G2Point) -> (r: Vec<u8>)
    ensures
        r@ == new_signer_data(*pk_g1, *pk_g2),
{
    let mut out: Vec<u8> = Vec::new();
    push_word(&mut out, &pk_g1.0);
    push_word(&mut out, &pk_g1.1);
    push_word(&mut out, &pk_g2.0[0]);
    push_word(&mut out, &pk_g2.0[1]);
    push_word(&mut out, &pk_g2.1[0]);
    push_word(&mut out, &pk_g2.1[1]);
    proof {
        let ws = seq![pk_g1.0@, pk_g1.1@, pk_g2.0[0]@, pk_g2.0[1]@, pk_g2.1[0]@, pk_g2.1[1]@];
        assert(ws.drop_last().drop_last().drop_last().drop_last().drop_last().drop_last() =~= Seq::<
            nat,
        >::empty());
        reveal_with_fuel(abi_words, 7);
        assert(ws.drop_last() =~= seq![pk_g1.0@, pk_g1.1@, pk_g2.0[0]@, pk_g2.0[1]@, pk_g2.1[0]@]);
        assert(ws.drop_last().drop_last() =~= seq![pk_g1.0@, pk_g1.1@, pk_g2.0[0]@, pk_g2.0[1]@]);
        assert(ws.drop_last().drop_last().drop_last() =~= seq![pk_g1.0@, pk_g1.1@, pk_g2.0[0]@]);
        assert(ws.drop_last().drop_last().drop_last().drop_last() =~= seq![pk_g1.0@, pk_g1.1@]);
        assert(ws.drop_last().drop_last().drop_last().drop_last().drop_last() =~= seq![pk_g1.0@]);
        assert(out@ =~= abi_words(ws));
    }
    out
}

/// The ABI encoding of a lone string with bytes `b`.
pub fn encode_string(b: &[u8]) -> (r: Vec<u8>)
    ensures
        r@ == abi_string(b@),
{
    let mut out: Vec<u8> = Vec::new();
    push_word(&mut out, &U256::from_u64(32));
    push_word(&mut out, &U256::from_u64(b.len() as u64));
    let ghost head = out@;
    let mut i: usize = 0;
    while i < b.len()
        invariant
            i <= b@.len(),
            out@ == head + b@.subrange(0, i as int),
        decreases b@.len() - i,
    {
        out.push(b[i]);
        i = i + 1;
        assert(out@ =~= head + b@.subrange(0, i as int));
    }
    assert(b@.subrange(0, b@.len() as int) =~= b@);
    let pad = (32 - b.len() % 32) % 32;
    let ghost body = out@;
    let mut j: usize = 0;
    while j < pad
        invariant
            j <= pad,
            out@ == body + zeros(j as nat),
        decreases pad - j,
    {
        out.push(0u8);
        j = j + 1;
        assert(out@ =~= body + zeros(j as nat));
    }
    assert(out@ =~= abi_string(b@));
    out
}

/// Signature of the `NewSigner` event.
pub open spec fn new_signer_signature() -> Seq<u8> {
    encode_utf8("NewSigner(address,(uint256,uint256),(uint256[2],uint256[2]))"@)
}

/// Signature of the `SocketUpdated` event.
pub open spec fn socket_updated_signature() -> Seq<u8> {
    encode_utf8("SocketUpdated(address,string)"@)
}

/// The numbers of a sequence of 256-bit words.
pub open spec fn words(v: Seq<U256>) -> Seq<nat> {
    v.map_values(|w: U256| w@)
}

/// The environment part of the context, and the account storage (which the
/// DA contract never writes), are unchanged.
pub open spec fn same_env(a: &InternalRefContext, b: &InternalRefContext) -> bool {
    &&& a.state.accounts@ == b.state.accounts@
    &&& a.block_number == b.block_number
    &&& a.static_flag == b.static_flag
    &&& a.in_reentrancy == b.in_reentrancy
    &&& a.depth == b.depth
}

/// The outcome of emitting a log with `topics` and `data` from a context
/// whose logs were `before`: refused in a static or reentrant call, else appended.
pub open spec fn logged(
    before: &InternalRefContext,
    after: &InternalRefContext,
    r: Result<(), VmError>,
    params: ActionParams,
    topics: Seq<nat>,
    data: Seq<u8>,
) -> bool {
    if before.static_flag || before.in_reentrancy {
        &&& r == Err::<(), VmError>(VmError::MutableCallInStaticContext)
        &&& after.logs@ == before.logs@
    } else {
        &&& r is Ok
        &&& after.logs@.len() == before.logs@.len() + 1
        &&& after.logs@.subrange(0, before.logs@.len() as int) == before.logs@
        &&& after.logs@.last().address == params.address
        &&& words(after.logs@.last().topics@) == topics
        &&& after.logs@.last().data@ == data
        &&& after.logs@.last().space == params.space
    }
}

/// Topics of `NewSigner` for `signer`.
pub open spec fn new_signer_topics(signer: nat) -> Seq<nat> {
    seq![hash_nat(new_signer_signature()), signer]
}

/// Topics of `SocketUpdated` for `signer`.
pub open spec fn socket_updated_topics(signer: nat) -> Seq<nat> {
    seq![hash_nat(socket_updated_signature()), signer]
}

/// Emits `NewSigner(address indexed signer, BN254.G1Point pkG1, BN254.G2Point pkG2)`.
pub fn log_new_signer(
    context: &mut InternalRefContext,
    params: &ActionParams,
    signer: &Address,
    pk_g1: &G1Point,
    pk_g2: &G2Point,
) -> (r: Result<(), VmError>)
    ensures
        final(context).state == old(context).state,
        same_env(final(context), old(context)),
        logged(
            old(context),
            final(context),
            r,
            *params,
            new_signer_topics(signer@),
            new_signer_data(*pk_g1, *pk_g2),
        ),
{
    let sig = "NewSigner(address,(uint256,uint256),(uint256[2],uint256[2]))";
    let mut topics: Vec<U256> = Vec::new();
    topics.push(keccak_u256(sig.as_bytes()));
    topics.push(signer.to_u256());
    assert(words(topics@) =~= new_signer_topics(signer@));
    let data = encode_new_signer_data(pk_g1, pk_g2);
    context.log(params, topics, data)
}

/// Emits `SocketUpdated(address indexed signer, string socket)`.
pub fn log_socket_updated(
    context: &mut InternalRefContext,
    params: &ActionParams,
    signer: &Address,
    socket: &String,
) -> (r: Result<(), VmError>)
    ensures
        final(context).state == old(context).state,
        same_env(final(context), old(context)),
        logged(
            old(context),
            final(context),
            r,
            *params,
            socket_updated_topics(signer@),
            abi_string(encode_utf8(socket@)),
        ),
{
    let sig = "SocketUpdated(address,string)";
    let mut topics: Vec<U256> = Vec::new();
    topics.push(keccak_u256(sig.as_bytes()));
    topics.push(signer.to_u256());
    assert(words(topics@) =~= socket_updated_topics(signer@));
    let data = encode_string(socket.as_str().as_bytes());
    context.log(params, topics, data)
}

} // verus!
