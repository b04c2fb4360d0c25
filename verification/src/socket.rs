//! How a signer's socket string sits in storage: its first 32 bytes in one
//! word, the next 32 bytes (if any) in the next word, and its length in a third.

use vstd::prelude::*;
use vstd::utf8::{decode_utf8, valid_utf8};
use crate::abi::{same_env, zeros};
use crate::bytes::{be_bytes, be_nat, lemma_be_bytes_of};
use crate::context::InternalRefContext;
use crate::storage::read;
use crate::uint::{two256, U256};

verus! {

/// `b` followed by zeros up to 32 bytes.
pub open spec fn pad32(b: Seq<u8>) -> Seq<u8> {
    b + zeros((32 - b.len()) as nat)
}

pub open spec fn min_nat(a: nat, b: nat) -> nat {
    if a <= b {
        a
    } else {
        b
    }
}

/// First stored word of a socket: its first (up to) 32 bytes, left-aligned.
pub open spec fn socket_word0(b: Seq<u8>) -> nat {
    be_nat(pad32(b.subrange(0, min_nat(b.len(), 32) as int)))
}

/// Second stored word of a socket: bytes 32.. left-aligned, or zero.
pub open spec fn socket_word1(b: Seq<u8>) -> nat {
    if b.len() > 32 {
        be_nat(pad32(b.subrange(32, b.len() as int)))
    } else {
        0
    }
}

/// Storage after writing socket bytes `b` at slots `k`, `k + 1`, `k + 2`.
pub open spec fn store_socket(s: Map<nat, nat>, k: nat, b: Seq<u8>) -> Map<nat, nat> {
    s.insert(k, socket_word0(b)).insert(k + 1, socket_word1(b)).insert(k + 2, b.len())
}

/// The bytes that the socket slots at `k` hold, for a stored length `len` in `1..=64`.
pub open spec fn stored_socket_bytes(s: Map<nat, nat>, k: nat, len: nat) -> Seq<u8> {
    let first = be_bytes(read(s, k), 32).subrange(0, min_nat(len, 32) as int);
    if len > 32 {
        first + be_bytes(read(s, k + 1), 32).subrange(0, len - 32)
    } else {
        first
    }
}

/// What `String::from_utf8_lossy` makes of a byte string.
pub uninterp spec fn lossy_utf8(bytes: Seq<u8>) -> Seq<char>;

/// Calls `String::from_utf8_lossy` and owns the result. Trusted: the result is
/// `lossy_utf8(bytes@)`, a function of the bytes alone, and, as std documents,
/// valid UTF-8 is decoded unchanged. What replaces invalid sequences is not stated.
#[verifier::external_body]
pub(crate) fn utf8_lossy(bytes: &[u8]) -> (r: String)
    ensures
        r@ == lossy_utf8(bytes@),
        valid_utf8(bytes@) ==> r@ == decode_utf8(bytes@),
{
    String::from_utf8_lossy(bytes).into_owned()
}

/// How a socket's bytes read as text: decoded where they are valid UTF-8,
/// with the lossy replacement otherwise.
pub open spec fn socket_text(bytes: Seq<u8>) -> Seq<char> {
    if valid_utf8(bytes) {
        decode_utf8(bytes)
    } else {
        lossy_utf8(bytes)
    }
}

/// The socket that the slots at `k` hold: empty unless the stored length is in `1..=64`.
pub open spec fn stored_socket(s: Map<nat, nat>, k: nat) -> Seq<char> {
    let len = read(s, k + 2);
    if len == 0 || len > 64 {
        Seq::empty()
    } else {
        socket_text(stored_socket_bytes(s, k, len))
    }
}

/// The word made of `b[from..to]` (at most 32 bytes), left-aligned and zero-padded.
pub fn chunk_word(b: &[u8], from: usize, to: usize) -> (r: U256)
    requires
        from <= to <= b@.len(),
        to - from <= 32,
    ensures
        r@ == be_nat(pad32(b@.subrange(from as int, to as int))),
{
    let mut w: Vec<u8> = Vec::new();
    let mut i = from;
    while i < to
        invariant
            from <= i <= to <= b@.len(),
            w@ == b@.subrange(from as int, i as int),
        decreases to - i,
    {
        w.push(b[i]);
        i = i + 1;
        assert(w@ =~= b@.subrange(from as int, i as int));
    }
    let ghost body = w@;
    while w.len() < 32
        invariant
            w@.len() <= 32,
            body.len() == to - from,
            w@ == body + zeros((w@.len() - body.len()) as nat),
        decreases 32 - w@.len(),
    {
        w.push(0u8);
        assert(w@ =~= body + zeros((w@.len() - body.len()) as nat));
    }
    U256::from_be_bytes(w.as_slice())
}

/// Writes socket bytes `b` at slots `k`, `k + 1` and `k + 2`.
pub fn write_socket(context: &mut InternalRefContext, k: &U256, b: &[u8])
    requires
        old(context).wf(),
        b@.len() <= 64,
        k@ + 2 < two256(),
    ensures
        final(context).wf(),
        final(context).state@ == store_socket(old(context).state@, k@, b@),
        final(context).logs == old(context).logs,
        same_env(final(context), old(context)),
{
    let len = b.len();
    let first_len = if len < 32 {
        len
    } else {
        32
    };
    let w0 = chunk_word(b, 0, first_len);
    context.state.set_system_storage(*k, w0);
    let k1 = k.add_u64(1);
    let w1 = if len > 32 {
        chunk_word(b, 32, len)
    } else {
        U256::zero()
    };
    context.state.set_system_storage(k1, w1);
    let k2 = k.add_u64(2);
    context.state.set_system_storage(k2, U256::from_u64(len as u64));
}

/// Reading back a socket written by `write_socket` gives its bytes.
pub proof fn lemma_socket_roundtrip(s: Map<nat, nat>, k: nat, b: Seq<u8>)
    requires
        1 <= b.len() <= 64,
        k + 2 < two256(),
    ensures
        stored_socket_bytes(store_socket(s, k, b), k, b.len()) == b,
{
    let t = store_socket(s, k, b);
    let first = b.subrange(0, min_nat(b.len(), 32) as int);
    assert(pad32(first).len() == 32);
    lemma_be_bytes_of(pad32(first));
    assert(read(t, k) == socket_word0(b));
    assert(be_bytes(read(t, k), 32) == pad32(first));
    assert(pad32(first).subrange(0, first.len() as int) =~= first);
    if b.len() > 32 {
        let second = b.subrange(32, b.len() as int);
        assert(pad32(second).len() == 32);
        lemma_be_bytes_of(pad32(second));
        assert(read(t, k + 1) == socket_word1(b));
        assert(pad32(second).subrange(0, b.len() - 32) =~= second);
        assert(first + second =~= b);
    } else {
        assert(first =~= b);
    }
}

/// Appends `src[0..n]` to `out`.
fn extend_prefix(out: &mut Vec<u8>, src: &[u8], n: usize)
    requires
        n <= src@.len(),
    ensures
        final(out)@ == old(out)@ + src@.subrange(0, n as int),
{
    let ghost start = out@;
    let mut i: usize = 0;
    while i < n
        invariant
            i <= n <= src@.len(),
            out@ == start + src@.subrange(0, i as int),
        decreases n - i,
    {
        out.push(src[i]);
        i = i + 1;
        assert(out@ =~= start + src@.subrange(0, i as int));
    }
}

/// Reads the socket stored at slots `k`, `k + 1`, `k + 2`.
pub fn read_socket(context: &InternalRefContext, k: &U256) -> (r: String)
    requires
        context.wf(),
        k@ + 2 < two256(),
        read(context.state@, k@ + 2) <= usize::MAX,
    ensures
        r@ == stored_socket(context.state@, k@),
{
    let len_slot = k.add_u64(2);
    let socket_len = context.state.get_system_storage(&len_slot).as_usize();
    if socket_len == 0 || socket_len > 64 {
        return String::new();
    }
    let mut bytes: Vec<u8> = Vec::new();
    let data0 = context.state.get_system_storage(k);
    let chunk0 = crate::layout::u256_to_array(&data0);
    let first_len = if socket_len < 32 {
        socket_len
    } else {
        32
    };
    extend_prefix(&mut bytes, chunk0.as_slice(), first_len);
    if socket_len > 32 {
        let k1 = k.add_u64(1);
        let data1 = context.state.get_system_storage(&k1);
        let chunk1 = crate::layout::u256_to_array(&data1);
        extend_prefix(&mut bytes, chunk1.as_slice(), socket_len - 32);
    }
    assert(bytes@ =~= stored_socket_bytes(context.state@, k@, socket_len as nat));
    utf8_lossy(bytes.as_slice())
}

} // verus!
