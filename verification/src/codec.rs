//! A canonical byte encoding of a transaction, used only to derive the
//! content hash that the failure diagnostics carry. Integers are encoded
//! little-endian at a fixed width; each variable-length byte string is
//! preceded by its length.

use vstd::prelude::*;

use crate::tx::{Transaction, TxIn, TxInV, TxOut, TxOutV, TxV};

verus! {

/// The `n` little-endian bytes of `v`.
pub open spec fn le_bytes(v: int, n: nat) -> Seq<u8>
    decreases n,
{
    if n == 0 {
        Seq::empty()
    } else {
        seq![(v % 256) as u8] + le_bytes(v / 256, (n - 1) as nat)
    }
}

/// The encoding of one input.
pub open spec fn spec_encode_input(x: TxInV) -> Seq<u8> {
    le_bytes(x.prev_hash.len() as int, 8) + x.prev_hash + le_bytes(x.prev_index as int, 4)
        + le_bytes(x.sequence as int, 4) + le_bytes(x.script_sig.len() as int, 8) + x.script_sig
        + le_bytes(x.hash_type as int, 4)
}

/// The encoding of one output.
pub open spec fn spec_encode_output(o: TxOutV) -> Seq<u8> {
    le_bytes(o.value, 8) + le_bytes(o.script_pubkey.len() as int, 8) + o.script_pubkey
}

/// The concatenated encodings of a sequence of inputs.
pub open spec fn spec_encode_inputs(xs: Seq<TxInV>) -> Seq<u8>
    decreases xs.len(),
{
    if xs.len() == 0 {
        Seq::empty()
    } else {
        spec_encode_inputs(xs.drop_last()) + spec_encode_input(xs.last())
    }
}

/// The concatenated encodings of a sequence of outputs.
pub open spec fn spec_encode_outputs(os: Seq<TxOutV>) -> Seq<u8>
    decreases os.len(),
{
    if os.len() == 0 {
        Seq::empty()
    } else {
        spec_encode_outputs(os.drop_last()) + spec_encode_output(os.last())
    }
}

/// The canonical encoding of a whole transaction.
pub open spec fn spec_encode_tx(t: TxV) -> Seq<u8> {
    le_bytes(t.version as int, 4) + le_bytes(t.lock_time as int, 4)
        + le_bytes(t.inputs.len() as int, 8) + spec_encode_inputs(t.inputs)
        + le_bytes(t.outputs.len() as int, 8) + spec_encode_outputs(t.outputs)
}

/// Append the `n` little-endian bytes of `v`.
fn push_le(out: &mut Vec<u8>, v: u64, n: usize)
    ensures
        final(out)@ == old(out)@ + le_bytes(v as int, n as nat),
{
    let mut x: u64 = v;
    let mut i: usize = 0;
    while i < n
        invariant
            i <= n,
            old(out)@ + le_bytes(v as int, n as nat) == out@ + le_bytes(
                x as int,
                (n - i) as nat,
            ),
        decreases n - i,
    {
        out.push((x % 256) as u8);
        x = x / 256;
        i = i + 1;
    }
    assert(le_bytes(x as int, 0) =~= Seq::<u8>::empty());
    assert(out@ + Seq::<u8>::empty() =~= out@);
}

/// Append a copy of the given bytes.
fn push_bytes(out: &mut Vec<u8>, b: &Vec<u8>)
    ensures
        final(out)@ == old(out)@ + b@,
{
    let mut i: usize = 0;
    while i < b.len()
        invariant
            i <= b.len(),
            out@ == old(out)@ + b@.take(i as int),
        decreases b.len() - i,
    {
        let byte: u8 = b[i];
        out.push(byte);
        assert(old(out)@ + b@.take(i as int) + seq![b@[i as int]] =~= old(out)@ + b@.take(
            i as int + 1,
        ));
        i = i + 1;
    }
    assert(b@.take(b@.len() as int) =~= b@);
}

/// Append the encoding of one input.
fn push_input(out: &mut Vec<u8>, x: &TxIn)
    ensures
        final(out)@ == old(out)@ + spec_encode_input(x@),
{
    push_le(out, x.prev_hash.len() as u64, 8);
    push_bytes(out, &x.prev_hash);
    push_le(out, x.prev_index as u64, 4);
    push_le(out, x.sequence as u64, 4);
    push_le(out, x.script_sig.len() as u64, 8);
    push_bytes(out, &x.script_sig);
    push_le(out, x.hash_type as u64, 4);
    assert(final(out)@ =~= old(out)@ + spec_encode_input(x@));
}

/// Append the encoding of one output.
fn push_output(out: &mut Vec<u8>, o: &TxOut)
    ensures
        final(out)@ == old(out)@ + spec_encode_output(o@),
{
    push_le(out, o.value, 8);
    push_le(out, o.script_pubkey.len() as u64, 8);
    push_bytes(out, &o.script_pubkey);
    assert(final(out)@ =~= old(out)@ + spec_encode_output(o@));
}

/// Encode a whole transaction into its canonical byte sequence.
pub fn encode_transaction(t: &Transaction) -> (r: Vec<u8>)
    ensures
        r@ == spec_encode_tx(t@),
{
    let mut out: Vec<u8> = Vec::new();
    push_le(&mut out, t.version as u64, 4);
    push_le(&mut out, t.lock_time as u64, 4);
    push_le(&mut out, t.inputs.len() as u64, 8);
    let ghost before_inputs = out@;
    let mut i: usize = 0;
    while i < t.inputs.len()
        invariant
            i <= t.inputs.len(),
            out@ == before_inputs + spec_encode_inputs(t@.inputs.take(i as int)),
            t@.inputs.len() == t.inputs.len(),
            forall|k: int| 0 <= k < t.inputs.len() ==> t@.inputs[k] == #[trigger] t.inputs@[k]@,
        decreases t.inputs.len() - i,
    {
        push_input(&mut out, &t.inputs[i]);
        assert(t@.inputs.take(i as int + 1).drop_last() =~= t@.inputs.take(i as int));
        i = i + 1;
    }
    assert(t@.inputs.take(t@.inputs.len() as int) =~= t@.inputs);
    push_le(&mut out, t.outputs.len() as u64, 8);
    let ghost before_outputs = out@;
    let mut j: usize = 0;
    while j < t.outputs.len()
        invariant
            j <= t.outputs.len(),
            out@ == before_outputs + spec_encode_outputs(t@.outputs.take(j as int)),
            t@.outputs.len() == t.outputs.len(),
            forall|k: int| 0 <= k < t.outputs.len() ==> t@.outputs[k] == #[trigger] t.outputs@[k]@,
        decreases t.outputs.len() - j,
    {
        push_output(&mut out, &t.outputs[j]);
        assert(t@.outputs.take(j as int + 1).drop_last() =~= t@.outputs.take(j as int));
        j = j + 1;
    }
    assert(t@.outputs.take(t@.outputs.len() as int) =~= t@.outputs);
    assert(out@ =~= spec_encode_tx(t@));
    out
}

} // verus!
