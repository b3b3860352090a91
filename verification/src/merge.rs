//! The merge engine. A non-empty sequence of transactions that agree on
//! version and lock-time is folded into one: outputs paying the same locking
//! script become one entry whose value is the sum, inputs are copied with
//! their signature script cleared (unless the hash-type tag `0x82` exempts
//! them), a duplicate input anywhere aborts the whole merge, and the final
//! input and output orders are randomized.

use vstd::prelude::*;

use crate::errors::{MergeError, MergeErrorV};
use crate::codec::spec_encode_tx;
use crate::hashing::{sha256_of, tx_hash};
use crate::shuffle::shuffle_vec;
use crate::tx::{
    all_outs_nonneg, lemma_all_outs_nonneg_skip, lemma_map_values_multiset,
    lemma_out_sum_elem_bound, lemma_out_sum_nonneg, lemma_out_sum_push, lemma_out_sum_update,
    lemma_txs_out_sum_nonneg, lemma_views_all_outs_nonneg, out_sum, txs_out_sum, views_of,
    Transaction, TxIn, TxInV, TxOut, TxOutV, TxV,
};

verus! {

/// The signature-hash-type whose signature survives adding further inputs
/// and outputs; only such a signature script is kept by the merge.
pub const SURVIVING_HASH_TYPE: u32 = 0x82;

/// Two inputs match iff they refer to the same previous output and carry the
/// same sequence number. The signature script is deliberately left out: it
/// differs between independently prepared copies of the same input.
pub open spec fn spec_match_input(a: TxInV, b: TxInV) -> bool {
    a.prev_hash == b.prev_hash && a.prev_index == b.prev_index && a.sequence == b.sequence
}

/// Whether two inputs refer to the same previous output (identical
/// previous-transaction hash and previous-output index) with the same
/// sequence number; the signature scripts are not compared.
pub fn match_input(a: &TxIn, b: &TxIn) -> (r: bool)
    ensures
        r == spec_match_input(a@, b@),
{
    bytes_eq(&a.prev_hash, &b.prev_hash) && a.prev_index == b.prev_index && a.sequence
        == b.sequence
}

/// Byte-for-byte equality of two byte vectors.
pub fn bytes_eq(a: &Vec<u8>, b: &Vec<u8>) -> (r: bool)
    ensures
        r == (a@ == b@),
{
    if a.len() != b.len() {
        return false;
    }
    let mut i: usize = 0;
    while i < a.len()
        invariant
            i <= a.len(),
            a.len() == b.len(),
            forall|j: int| 0 <= j < i ==> a@[j] == b@[j],
        decreases a.len() - i,
    {
        if a[i] != b[i] {
            return false;
        }
        i = i + 1;
    }
    proof {
        assert(a@ =~= b@);
    }
    true
}

/// A fresh copy of a byte vector.
pub fn copy_bytes(src: &Vec<u8>) -> (r: Vec<u8>)
    ensures
        r@ == src@,
{
    let mut r: Vec<u8> = Vec::new();
    let mut i: usize = 0;
    while i < src.len()
        invariant
            i <= src.len(),
            r@ == src@.take(i as int),
        decreases src.len() - i,
    {
        let byte: u8 = src[i];
        r.push(byte);
        assert(src@.take(i as int).push(src@[i as int]) =~= src@.take(i as int + 1));
        i = i + 1;
    }
    proof {
        assert(src@.take(src@.len() as int) =~= src@);
    }
    r
}

/// The index of the first output whose locking script is `script`, or -1.
pub open spec fn find_output(outs: Seq<TxOutV>, script: Seq<u8>) -> int
    decreases outs.len(),
{
    if outs.len() == 0 {
        -1
    } else if outs[0].script_pubkey == script {
        0
    } else {
        let r = find_output(outs.drop_first(), script);
        if r < 0 {
            -1
        } else {
            r + 1
        }
    }
}

/// `find_output` returns the first index with the given script, or -1 when
/// no output has it.
pub proof fn lemma_find_output(outs: Seq<TxOutV>, script: Seq<u8>)
    ensures
        find_output(outs, script) < 0 ==> forall|j: int|
            0 <= j < outs.len() ==> (#[trigger] outs[j].script_pubkey) != script,
        find_output(outs, script) >= 0 ==> {
            let k = find_output(outs, script);
            &&& 0 <= k < outs.len()
            &&& outs[k].script_pubkey == script
            &&& forall|j: int| 0 <= j < k ==> (#[trigger] outs[j].script_pubkey) != script
        },
    decreases outs.len(),
{
    if outs.len() > 0 && outs[0].script_pubkey != script {
        let d = outs.drop_first();
        lemma_find_output(d, script);
        assert(forall|j: int| 0 <= j < d.len() ==> #[trigger] d[j] == outs[j + 1]);
        if find_output(d, script) < 0 {
            assert forall|j: int| 0 <= j < outs.len() implies (
            #[trigger] outs[j].script_pubkey) != script by {
                if j > 0 {
                    assert(outs[j] == d[j - 1]);
                }
            }
        } else {
            let k = find_output(outs, script);
            assert(outs[k] == d[k - 1]);
            assert forall|j: int| 0 <= j < k implies (#[trigger] outs[j].script_pubkey)
                != script by {
                if j > 0 {
                    assert(outs[j] == d[j - 1]);
                }
            }
        }
    }
}

/// Fold one output into the accumulated outputs: add its value to the first
/// entry with the same locking script, or append it.
pub open spec fn fold_output(outs: Seq<TxOutV>, o: TxOutV) -> Seq<TxOutV> {
    let k = find_output(outs, o.script_pubkey);
    if k >= 0 {
        outs.update(k, TxOutV { script_pubkey: o.script_pubkey, value: outs[k].value + o.value })
    } else {
        outs.push(o)
    }
}

/// Fold a sequence of outputs, in order.
pub open spec fn fold_outputs(outs: Seq<TxOutV>, os: Seq<TxOutV>) -> Seq<TxOutV>
    decreases os.len(),
{
    if os.len() == 0 {
        outs
    } else {
        fold_outputs(fold_output(outs, os[0]), os.drop_first())
    }
}

/// Whether some accumulated input matches the candidate.
pub open spec fn has_matching_input(ins: Seq<TxInV>, x: TxInV) -> bool {
    exists|j: int| 0 <= j < ins.len() && spec_match_input(ins[j], x)
}

/// The copy of an input that the merge appends: the signature script is
/// cleared unless the hash-type is the surviving one.
pub open spec fn strip_input(x: TxInV) -> TxInV {
    if x.hash_type != SURVIVING_HASH_TYPE {
        TxInV { script_sig: Seq::empty(), ..x }
    } else {
        x
    }
}

/// Fold a sequence of inputs, in order: the first one that matches an
/// already-accumulated input aborts the fold and is returned; otherwise
/// each is stripped and appended.
pub open spec fn fold_inputs(ins: Seq<TxInV>, xs: Seq<TxInV>) -> Result<Seq<TxInV>, TxInV>
    decreases xs.len(),
{
    if xs.len() == 0 {
        Ok(ins)
    } else if has_matching_input(ins, xs[0]) {
        Err(xs[0])
    } else {
        fold_inputs(ins.push(strip_input(xs[0])), xs.drop_first())
    }
}

/// The master accumulator seeded from the first transaction: its version and
/// lock-time, with empty input and output sequences.
pub open spec fn seed_master(t: TxV) -> TxV {
    TxV { version: t.version, lock_time: t.lock_time, inputs: Seq::empty(), outputs: Seq::empty() }
}

/// Fold the remaining transactions onto the master, in order, or stop at the
/// first failure. The hashes a mismatch failure carries are the content
/// hashes of the master as accumulated so far and of the offending
/// transaction.
pub open spec fn merge_loop(m: TxV, txs: Seq<TxV>) -> Result<TxV, MergeErrorV>
    decreases txs.len(),
{
    if txs.len() == 0 {
        Ok(m)
    } else {
        let t = txs[0];
        if t.version != m.version {
            Err(MergeErrorV::VersionMismatch {
                master_hash: sha256_of(spec_encode_tx(m)),
                other_hash: sha256_of(spec_encode_tx(t)),
                master_version: m.version,
                other_version: t.version,
            })
        } else if t.lock_time != m.lock_time {
            Err(MergeErrorV::LockTimeMismatch {
                master_hash: sha256_of(spec_encode_tx(m)),
                other_hash: sha256_of(spec_encode_tx(t)),
                master_lock_time: m.lock_time,
                other_lock_time: t.lock_time,
            })
        } else {
            let outs = fold_outputs(m.outputs, t.outputs);
            match fold_inputs(m.inputs, t.inputs) {
                Err(x) => Err(MergeErrorV::DuplicateInput {
                    prev_hash: x.prev_hash,
                    prev_index: x.prev_index,
                }),
                Ok(ins) => merge_loop(
                    TxV { inputs: ins, outputs: outs, ..m },
                    txs.drop_first(),
                ),
            }
        }
    }
}

/// What the merge returns, up to the final order randomization: the folded
/// master, or the first failure.
pub open spec fn merge_spec(txs: Seq<TxV>) -> Result<TxV, MergeErrorV> {
    if txs.len() == 0 {
        Err(MergeErrorV::EmptyInput)
    } else {
        merge_loop(seed_master(txs[0]), txs)
    }
}

/// All inputs of a sequence of transactions, concatenated in order.
pub open spec fn all_inputs(txs: Seq<TxV>) -> Seq<TxInV>
    decreases txs.len(),
{
    if txs.len() == 0 {
        Seq::empty()
    } else {
        txs[0].inputs + all_inputs(txs.drop_first())
    }
}

/// A sequence of inputs, each stripped.
pub open spec fn stripped(xs: Seq<TxInV>) -> Seq<TxInV> {
    xs.map_values(|x: TxInV| strip_input(x))
}

/// The index of the first accumulated output paying `script`, if any.
fn find_output_idx(outs: &Vec<TxOut>, script: &Vec<u8>) -> (r: Option<usize>)
    ensures
        ({
            let ov = outs@.map_values(|o: TxOut| o@);
            match r {
                Some(j) => j < outs.len() && find_output(ov, script@) == j as int,
                None => find_output(ov, script@) < 0,
            }
        }),
{
    let ghost ov = outs@.map_values(|o: TxOut| o@);
    let mut j: usize = 0;
    while j < outs.len()
        invariant
            j <= outs.len(),
            ov == outs@.map_values(|o: TxOut| o@),
            ov.len() == outs.len(),
            forall|q: int| 0 <= q < j ==> (#[trigger] ov[q].script_pubkey) != script@,
        decreases outs.len() - j,
    {
        let entry = &outs[j];
        if bytes_eq(&entry.script_pubkey, script) {
            proof {
                assert(ov[j as int] == outs@[j as int]@);
                assert(ov[j as int].script_pubkey == script@);
                lemma_find_output(ov, script@);
                let k = find_output(ov, script@);
                if k < 0 {
                    assert(ov[j as int].script_pubkey != script@);
                } else if k < j as int {
                    assert(ov[k].script_pubkey != script@);
                } else if k > j as int {
                    assert(ov[j as int].script_pubkey != script@);
                }
            }
            return Some(j);
        }
        proof {
            assert(ov[j as int] == outs@[j as int]@);
        }
        j = j + 1;
    }
    proof {
        lemma_find_output(ov, script@);
    }
    None
}

/// Whether any accumulated input matches the candidate under the input-match
/// predicate.
fn find_matching_input(ins: &Vec<TxIn>, x: &TxIn) -> (r: bool)
    ensures
        r == has_matching_input(ins@.map_values(|i: TxIn| i@), x@),
{
    let ghost iv = ins@.map_values(|i: TxIn| i@);
    let mut j: usize = 0;
    while j < ins.len()
        invariant
            j <= ins.len(),
            iv == ins@.map_values(|i: TxIn| i@),
            iv.len() == ins.len(),
            forall|q: int| 0 <= q < j ==> !spec_match_input(#[trigger] iv[q], x@),
        decreases ins.len() - j,
    {
        let candidate = &ins[j];
        if match_input(candidate, x) {
            proof {
                assert(iv[j as int] == ins@[j as int]@);
            }
            return true;
        }
        proof {
            assert(iv[j as int] == ins@[j as int]@);
        }
        j = j + 1;
    }
    false
}

/// Merge a sequence of unsigned transactions into one transaction holding
/// all their inputs and outputs.
///
/// The result's version and lock-time are the first transaction's; every
/// transaction must agree on both or the merge fails. Outputs paying the same
/// locking script are folded into one entry whose value is the sum; inputs
/// are copied with their signature script cleared unless their hash-type is
/// the surviving one; two matching inputs anywhere abort the merge. The
/// final input and output orders are randomized, so the result is pinned
/// down up to a permutation of each sequence.
pub fn merge_unsigned_transactions(txlist: &[Transaction]) -> (r: Result<Transaction, MergeError>)
    requires
        txs_out_sum(views_of(txlist@)) <= u64::MAX,
    ensures
        ({
            let s = merge_spec(views_of(txlist@));
            match r {
                Ok(t) => {
                    &&& s matches Ok(m)
                    &&& t@.version == m.version
                    &&& t@.lock_time == m.lock_time
                    &&& t@.inputs.to_multiset() == m.inputs.to_multiset()
                    &&& t@.outputs.to_multiset() == m.outputs.to_multiset()
                },
                Err(e) => s == Err::<TxV, MergeErrorV>(e@),
            }
        }),
{
    let ghost txsv = views_of(txlist@);
    if txlist.len() == 0 {
        return Err(MergeError::EmptyInput);
    }
    proof {
        lemma_views_all_outs_nonneg(txlist@);
        assert(txsv[0] == txlist@[0]@);
    }
    let first = &txlist[0];
    let mut master = Transaction {
        version: first.version,
        lock_time: first.lock_time,
        inputs: Vec::new(),
        outputs: Vec::new(),
    };
    proof {
        assert(master@.inputs =~= Seq::<TxInV>::empty());
        assert(master@.outputs =~= Seq::<TxOutV>::empty());
        assert(master@ == seed_master(txsv[0]));
        assert(txsv.skip(0) =~= txsv);
    }
    let mut k: usize = 0;
    while k < txlist.len()
        invariant
            k <= txlist.len(),
            txsv == views_of(txlist@),
            txsv.len() == txlist@.len(),
            all_outs_nonneg(txsv),
            merge_spec(txsv) == merge_loop(master@, txsv.skip(k as int)),
            out_sum(master@.outputs) + txs_out_sum(txsv.skip(k as int)) <= u64::MAX,
        decreases txlist.len() - k,
    {
        let tx = &txlist[k];
        let ghost m0 = master@;
        let ghost rest = txsv.skip(k as int);
        proof {
            assert(txsv[k as int] == txlist@[k as int]@);
            assert(rest[0] == txsv[k as int]);
            assert(rest.drop_first() =~= txsv.skip(k as int + 1));
        }
        if tx.version != master.version {
            let mh = tx_hash(&master);
            let oh = tx_hash(tx);
            return Err(MergeError::VersionMismatch {
                master_hash: mh,
                other_hash: oh,
                master_version: master.version,
                other_version: tx.version,
            });
        }
        if tx.lock_time != master.lock_time {
            let mh = tx_hash(&master);
            let oh = tx_hash(tx);
            return Err(MergeError::LockTimeMismatch {
                master_hash: mh,
                other_hash: oh,
                master_lock_time: master.lock_time,
                other_lock_time: tx.lock_time,
            });
        }
        proof {
            lemma_all_outs_nonneg_skip(txsv, k as int + 1);
            lemma_txs_out_sum_nonneg(txsv.skip(k as int + 1));
            assert(txs_out_sum(rest) == out_sum(rest[0].outputs) + txs_out_sum(
                rest.drop_first(),
            ));
            assert(tx@.outputs.skip(0) =~= tx@.outputs);
            assert(forall|q: int|
                0 <= q < tx@.outputs.len() ==> (#[trigger] tx@.outputs[q].value) >= 0) by {
                assert(forall|q: int|
                    0 <= q < tx@.outputs.len() ==> tx@.outputs[q] == #[trigger] tx.outputs@[q]@);
            }
        }
        let mut oi: usize = 0;
        while oi < tx.outputs.len()
            invariant
                oi <= tx.outputs.len(),
                tx@.outputs.len() == tx.outputs.len(),
                fold_outputs(m0.outputs, tx@.outputs) == fold_outputs(
                    master@.outputs,
                    tx@.outputs.skip(oi as int),
                ),
                master@.version == m0.version,
                master@.lock_time == m0.lock_time,
                master@.inputs == m0.inputs,
                out_sum(master@.outputs) + out_sum(tx@.outputs.skip(oi as int)) + txs_out_sum(
                    txsv.skip(k as int + 1),
                ) <= u64::MAX,
                txs_out_sum(txsv.skip(k as int + 1)) >= 0,
                forall|q: int|
                    0 <= q < tx@.outputs.len() ==> (#[trigger] tx@.outputs[q].value) >= 0,
            decreases tx.outputs.len() - oi,
        {
            let o = &tx.outputs[oi];
            let ghost mo_prev = master@.outputs;
            let ghost remaining = tx@.outputs.skip(oi as int);
            proof {
                assert(o@ == tx@.outputs[oi as int]) by {
                    assert(tx@.outputs[oi as int] == tx.outputs@[oi as int]@);
                }
                assert(remaining[0] == tx@.outputs[oi as int]);
                assert(remaining.drop_first() =~= tx@.outputs.skip(oi as int + 1));
                assert(out_sum(remaining) == o@.value + out_sum(remaining.drop_first()));
                assert(forall|q: int|
                    0 <= q < remaining.len() ==> (#[trigger] remaining[q].value) >= 0) by {
                    assert(forall|q: int|
                        0 <= q < remaining.len() ==> remaining[q] == tx@.outputs[q + oi]);
                }
                lemma_out_sum_nonneg(remaining.drop_first());
                assert(forall|q: int|
                    0 <= q < mo_prev.len() ==> (#[trigger] mo_prev[q].value) >= 0) by {
                    assert(forall|q: int|
                        0 <= q < mo_prev.len() ==> mo_prev[q] == #[trigger] master.outputs@[q]@);
                }
            }
            match find_output_idx(&master.outputs, &o.script_pubkey) {
                Some(j) => {
                    proof {
                        lemma_out_sum_elem_bound(mo_prev, j as int);
                    }
                    let newv = master.outputs[j].value + o.value;
                    let new_script = copy_bytes(&o.script_pubkey);
                    let new_out = TxOut { script_pubkey: new_script, value: newv };
                    let ghost nov = new_out@;
                    master.outputs.set(j, new_out);
                    proof {
                        assert(master@.outputs =~= mo_prev.update(j as int, nov));
                        assert(nov == TxOutV {
                            script_pubkey: o@.script_pubkey,
                            value: mo_prev[j as int].value + o@.value,
                        });
                        assert(master@.outputs == fold_output(mo_prev, o@));
                        lemma_out_sum_update(mo_prev, j as int, nov);
                    }
                },
                None => {
                    let new_script = copy_bytes(&o.script_pubkey);
                    let new_out = TxOut { script_pubkey: new_script, value: o.value };
                    let ghost nov = new_out@;
                    master.outputs.push(new_out);
                    proof {
                        assert(master@.outputs =~= mo_prev.push(nov));
                        assert(nov == o@);
                        assert(master@.outputs == fold_output(mo_prev, o@));
                        lemma_out_sum_push(mo_prev, nov);
                    }
                },
            }
            oi = oi + 1;
        }
        proof {
            assert(tx@.outputs.skip(tx@.outputs.len() as int) =~= Seq::<TxOutV>::empty());
            assert(master@.outputs == fold_outputs(m0.outputs, tx@.outputs));
            assert(tx@.inputs.skip(0) =~= tx@.inputs);
        }
        let ghost m1_outputs = master@.outputs;
        let mut ii: usize = 0;
        while ii < tx.inputs.len()
            invariant
                ii <= tx.inputs.len(),
                tx@.inputs.len() == tx.inputs.len(),
                master@.outputs == m1_outputs,
                master@.version == m0.version,
                master@.lock_time == m0.lock_time,
                fold_inputs(m0.inputs, tx@.inputs) == fold_inputs(
                    master@.inputs,
                    tx@.inputs.skip(ii as int),
                ),
                txsv == views_of(txlist@),
                txsv.len() == txlist@.len(),
                k < txlist@.len(),
                merge_spec(txsv) == merge_loop(m0, txsv.skip(k as int)),
                txsv.skip(k as int)[0] == tx@,
                m0.version == tx@.version,
                m0.lock_time == tx@.lock_time,
            decreases tx.inputs.len() - ii,
        {
            let x = &tx.inputs[ii];
            let ghost remaining = tx@.inputs.skip(ii as int);
            proof {
                assert(x@ == tx@.inputs[ii as int]) by {
                    assert(tx@.inputs[ii as int] == tx.inputs@[ii as int]@);
                }
                assert(remaining[0] == tx@.inputs[ii as int]);
                assert(remaining.drop_first() =~= tx@.inputs.skip(ii as int + 1));
            }
            if find_matching_input(&master.inputs, x) {
                let dup_hash = copy_bytes(&x.prev_hash);
                return Err(MergeError::DuplicateInput {
                    prev_hash: dup_hash,
                    prev_index: x.prev_index,
                });
            }
            let new_sig: Vec<u8> = if x.hash_type != SURVIVING_HASH_TYPE {
                Vec::new()
            } else {
                copy_bytes(&x.script_sig)
            };
            let new_hash = copy_bytes(&x.prev_hash);
            let new_in = TxIn {
                prev_hash: new_hash,
                prev_index: x.prev_index,
                sequence: x.sequence,
                script_sig: new_sig,
                hash_type: x.hash_type,
            };
            let ghost niv = new_in@;
            let ghost mi_prev = master@.inputs;
            master.inputs.push(new_in);
            proof {
                assert(niv.script_sig =~= strip_input(x@).script_sig);
                assert(niv == strip_input(x@));
                assert(master@.inputs =~= mi_prev.push(strip_input(x@)));
            }
            ii = ii + 1;
        }
        proof {
            assert(tx@.inputs.skip(tx@.inputs.len() as int) =~= Seq::<TxInV>::empty());
            assert(fold_inputs(m0.inputs, tx@.inputs) == Ok::<Seq<TxInV>, TxInV>(
                master@.inputs,
            ));
            let mnew = master@;
            assert(TxV { inputs: mnew.inputs, outputs: mnew.outputs, ..m0 } == mnew);
            assert(merge_loop(m0, rest) == merge_loop(mnew, rest.drop_first()));
            assert(rest.drop_first() =~= txsv.skip(k as int + 1));
        }
        k = k + 1;
    }
    proof {
        assert(txsv.skip(txsv.len() as int) =~= Seq::<TxV>::empty());
    }
    let ghost mfinal = master@;
    let ghost pre_ins = master.inputs@;
    shuffle_vec(&mut master.inputs);
    let ghost pre_outs = master.outputs@;
    shuffle_vec(&mut master.outputs);
    proof {
        assert(merge_spec(txsv) == Ok::<TxV, MergeErrorV>(mfinal));
        lemma_map_values_multiset(master.inputs@, pre_ins, |i: TxIn| i@);
        lemma_map_values_multiset(master.outputs@, pre_outs, |o: TxOut| o@);
        assert(master@.inputs.to_multiset() == mfinal.inputs.to_multiset());
        assert(master@.outputs.to_multiset() == mfinal.outputs.to_multiset());
    }
    Ok(master)
}

} // verus!
