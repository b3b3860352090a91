//! General properties of the merge, stated and proved over the merge
//! specification: what a successful merge is made of, and on which inputs
//! the merge is owed to fail.

use vstd::prelude::*;

use crate::errors::MergeErrorV;
use crate::merge::{
    all_inputs, fold_inputs, fold_output, fold_outputs, merge_loop, merge_spec, seed_master,
    spec_match_input, strip_input, stripped, SURVIVING_HASH_TYPE,
};
use crate::tx::{out_sum, txs_out_sum, TxInV, TxOutV, TxV};

verus! {

/// Folding one output raises the value sum by exactly that output's value.
pub proof fn lemma_fold_output_sum(outs: Seq<TxOutV>, o: TxOutV)
    ensures
        out_sum(fold_output(outs, o)) == out_sum(outs) + o.value,
{
    let k = crate::merge::find_output(outs, o.script_pubkey);
    crate::merge::lemma_find_output(outs, o.script_pubkey);
    if k >= 0 {
        crate::tx::lemma_out_sum_update(
            outs,
            k,
            TxOutV { script_pubkey: o.script_pubkey, value: outs[k].value + o.value },
        );
    } else {
        crate::tx::lemma_out_sum_push(outs, o);
    }
}

/// Folding a sequence of outputs raises the value sum by exactly the sum of
/// the folded values: no value is lost or duplicated by output aggregation.
pub proof fn lemma_fold_outputs_sum(outs: Seq<TxOutV>, os: Seq<TxOutV>)
    ensures
        out_sum(fold_outputs(outs, os)) == out_sum(outs) + out_sum(os),
    decreases os.len(),
{
    if os.len() > 0 {
        lemma_fold_output_sum(outs, os[0]);
        lemma_fold_outputs_sum(fold_output(outs, os[0]), os.drop_first());
    }
}

/// A successful input fold appends exactly the stripped copies of the folded
/// inputs, in order, to the accumulated ones.
pub proof fn lemma_fold_inputs_ok(ins: Seq<TxInV>, xs: Seq<TxInV>)
    requires
        fold_inputs(ins, xs) is Ok,
    ensures
        fold_inputs(ins, xs)->Ok_0 == ins + stripped(xs),
    decreases xs.len(),
{
    if xs.len() == 0 {
        assert(ins + stripped(xs) =~= ins);
    } else {
        let ins1 = ins.push(strip_input(xs[0]));
        lemma_fold_inputs_ok(ins1, xs.drop_first());
        assert(ins1 + stripped(xs.drop_first()) =~= ins + stripped(xs));
    }
}

/// What a successful fold of transactions onto a master is made of: the
/// master's version and lock-time are kept, the inputs are the master's
/// followed by every source input stripped, in order, and the output value
/// sum grows by exactly the total folded value.
pub proof fn lemma_merge_loop_ok(m: TxV, txs: Seq<TxV>)
    requires
        merge_loop(m, txs) is Ok,
    ensures
        merge_loop(m, txs)->Ok_0.version == m.version,
        merge_loop(m, txs)->Ok_0.lock_time == m.lock_time,
        merge_loop(m, txs)->Ok_0.inputs == m.inputs + stripped(all_inputs(txs)),
        out_sum(merge_loop(m, txs)->Ok_0.outputs) == out_sum(m.outputs) + txs_out_sum(txs),
    decreases txs.len(),
{
    if txs.len() == 0 {
        assert(m.inputs + stripped(all_inputs(txs)) =~= m.inputs);
    } else {
        let t = txs[0];
        let outs1 = fold_outputs(m.outputs, t.outputs);
        let r = fold_inputs(m.inputs, t.inputs);
        assert(t.version == m.version && t.lock_time == m.lock_time && r is Ok);
        lemma_fold_inputs_ok(m.inputs, t.inputs);
        lemma_fold_outputs_sum(m.outputs, t.outputs);
        let m1 = TxV { inputs: r->Ok_0, outputs: outs1, ..m };
        lemma_merge_loop_ok(m1, txs.drop_first());
        assert(m1.inputs + stripped(all_inputs(txs.drop_first())) =~= m.inputs + stripped(
            all_inputs(txs),
        )) by {
            assert(all_inputs(txs) == t.inputs + all_inputs(txs.drop_first()));
            assert(m1.inputs == m.inputs + stripped(t.inputs));
        }
    }
}

/// For every non-empty input on which the merge succeeds, the result's
/// version and lock-time equal the first source transaction's.
pub proof fn lemma_merge_version_lock_time(txs: Seq<TxV>)
    requires
        txs.len() > 0,
        merge_spec(txs) is Ok,
    ensures
        merge_spec(txs)->Ok_0.version == txs[0].version,
        merge_spec(txs)->Ok_0.lock_time == txs[0].lock_time,
{
    lemma_merge_loop_ok(seed_master(txs[0]), txs);
}

/// The inputs of a successful merge, before the order randomization, are
/// exactly all source inputs in order, each stripped: the previous-output
/// reference, sequence number and hash-type are kept unchanged, and the
/// signature script is cleared unless the hash-type is the surviving one, in
/// which case it is kept verbatim.
pub proof fn lemma_merge_inputs_stripped(txs: Seq<TxV>)
    requires
        txs.len() > 0,
        merge_spec(txs) is Ok,
    ensures
        merge_spec(txs)->Ok_0.inputs == stripped(all_inputs(txs)),
        merge_spec(txs)->Ok_0.inputs.len() == all_inputs(txs).len(),
        forall|i: int|
            0 <= i < all_inputs(txs).len() ==> {
                let src = all_inputs(txs)[i];
                let got = #[trigger] merge_spec(txs)->Ok_0.inputs[i];
                &&& got.prev_hash == src.prev_hash
                &&& got.prev_index == src.prev_index
                &&& got.sequence == src.sequence
                &&& got.hash_type == src.hash_type
                &&& (src.hash_type != SURVIVING_HASH_TYPE ==> got.script_sig == Seq::<
                    u8,
                >::empty())
                &&& (src.hash_type == SURVIVING_HASH_TYPE ==> got.script_sig == src.script_sig)
            },
{
    let m0 = seed_master(txs[0]);
    lemma_merge_loop_ok(m0, txs);
    assert(m0.inputs + stripped(all_inputs(txs)) =~= stripped(all_inputs(txs)));
}

/// The merged inputs, as a multiset, are the stripped source inputs: the
/// final order randomization can only permute them.
pub proof fn lemma_merge_input_multiset(txs: Seq<TxV>)
    requires
        txs.len() > 0,
        merge_spec(txs) is Ok,
    ensures
        merge_spec(txs)->Ok_0.inputs.to_multiset() == stripped(all_inputs(txs)).to_multiset(),
{
    lemma_merge_inputs_stripped(txs);
}

/// A successful merge of a single transaction keeps its output value sum
/// and its input count.
pub proof fn lemma_merge_single(t: TxV)
    requires
        merge_spec(seq![t]) is Ok,
    ensures
        out_sum(merge_spec(seq![t])->Ok_0.outputs) == out_sum(t.outputs),
        merge_spec(seq![t])->Ok_0.inputs.len() == t.inputs.len(),
{
    let txs = seq![t];
    assert(txs[0] == t);
    lemma_merge_loop_ok(seed_master(t), txs);
    assert(txs.drop_first() =~= Seq::<TxV>::empty());
    assert(txs_out_sum(txs.drop_first()) == 0);
    assert(txs_out_sum(txs) == out_sum(t.outputs));
    assert(all_inputs(txs) == t.inputs + all_inputs(Seq::empty()));
    assert(t.inputs + all_inputs(Seq::empty()) =~= t.inputs);
    lemma_merge_inputs_stripped(txs);
}

/// A stripped input still matches its source under the input-match
/// predicate: stripping touches only the signature script.
pub proof fn lemma_strip_matches(x: TxInV)
    ensures
        spec_match_input(strip_input(x), x),
{
}

/// Every input of any reordering of a successful merge's inputs is the
/// stripped copy of some source input: its signature script is empty unless
/// its hash-type is the surviving one, in which case the source's script is
/// kept verbatim. This covers the merged result itself, whose input order
/// is randomized but whose input multiset is pinned.
pub proof fn lemma_result_inputs_stripped(txs: Seq<TxV>, ins: Seq<TxInV>)
    requires
        txs.len() > 0,
        merge_spec(txs) is Ok,
        ins.to_multiset() == merge_spec(txs)->Ok_0.inputs.to_multiset(),
    ensures
        forall|i: int| 0 <= i < ins.len() ==> is_stripped_source(txs, #[trigger] ins[i]),
        forall|i: int|
            0 <= i < ins.len() && (#[trigger] ins[i].hash_type) != SURVIVING_HASH_TYPE
                ==> ins[i].script_sig == Seq::<u8>::empty(),
{
    broadcast use vstd::seq_lib::group_to_multiset_ensures;

    lemma_merge_inputs_stripped(txs);
    let s = stripped(all_inputs(txs));
    assert forall|i: int| 0 <= i < ins.len() implies is_stripped_source(txs, #[trigger] ins[i])
        && (ins[i].hash_type != SURVIVING_HASH_TYPE ==> ins[i].script_sig == Seq::<
        u8,
    >::empty()) by {
        assert(ins.contains(ins[i]));
        assert(ins.to_multiset().count(ins[i]) > 0);
        assert(s.to_multiset().count(ins[i]) > 0);
        assert(s.contains(ins[i]));
        let j = choose|j: int| 0 <= j < s.len() && s[j] == ins[i];
        assert(s[j] == strip_input(all_inputs(txs)[j]));
    }
}

/// Whether a value is the stripped copy of one of the source inputs.
pub open spec fn is_stripped_source(txs: Seq<TxV>, x: TxInV) -> bool {
    exists|j: int| 0 <= j < all_inputs(txs).len() && x == strip_input(#[trigger] all_inputs(txs)[j])
}

/// Merging a transaction with a copy of itself fails with a duplicate-input
/// failure naming its first input's previous-output coordinates: every input
/// of the second copy matches its stripped counterpart from the first.
/// (Stated for a transaction with at least one input and no internally
/// matching pair; with no inputs at all there is nothing to duplicate.)
pub proof fn lemma_merge_duplicate(t: TxV)
    requires
        t.inputs.len() > 0,
        fold_inputs(Seq::empty(), t.inputs) is Ok,
    ensures
        merge_spec(seq![t, t]) == Err::<TxV, MergeErrorV>(
            MergeErrorV::DuplicateInput {
                prev_hash: t.inputs[0].prev_hash,
                prev_index: t.inputs[0].prev_index,
            },
        ),
{
    let txs = seq![t, t];
    let m0 = seed_master(t);
    assert(txs[0] == t);
    assert(m0.inputs =~= Seq::<TxInV>::empty());
    lemma_fold_inputs_ok(m0.inputs, t.inputs);
    let ins1 = fold_inputs(m0.inputs, t.inputs)->Ok_0;
    assert(ins1 =~= stripped(t.inputs)) by {
        assert(m0.inputs + stripped(t.inputs) =~= stripped(t.inputs));
    }
    let m1 = TxV {
        inputs: ins1,
        outputs: fold_outputs(m0.outputs, t.outputs),
        ..m0
    };
    assert(txs.drop_first() =~= seq![t]);
    assert(merge_loop(m0, txs) == merge_loop(m1, txs.drop_first()));
    lemma_strip_matches(t.inputs[0]);
    assert(ins1[0] == strip_input(t.inputs[0]));
    assert(crate::merge::has_matching_input(ins1, t.inputs[0]));
    assert(fold_inputs(m1.inputs, t.inputs) == Err::<Seq<TxInV>, TxInV>(t.inputs[0]));
}

/// Merging two transactions whose lock-times differ, the versions agreeing
/// and the first folding cleanly on its own, fails with a lock-time mismatch
/// that carries both lock-time values; no result is returned.
pub proof fn lemma_merge_lock_time_mismatch(a: TxV, b: TxV)
    requires
        a.version == b.version,
        a.lock_time != b.lock_time,
        fold_inputs(Seq::empty(), a.inputs) is Ok,
    ensures
        merge_spec(seq![a, b]) is Err,
        merge_spec(seq![a, b])->Err_0 matches MergeErrorV::LockTimeMismatch {
            master_lock_time,
            other_lock_time,
            ..
        } && master_lock_time == a.lock_time && other_lock_time == b.lock_time,
{
    let txs = seq![a, b];
    let m0 = seed_master(a);
    assert(txs[0] == a);
    assert(m0.inputs =~= Seq::<TxInV>::empty());
    let ins1 = fold_inputs(m0.inputs, a.inputs)->Ok_0;
    let m1 = TxV {
        inputs: ins1,
        outputs: fold_outputs(m0.outputs, a.outputs),
        ..m0
    };
    assert(txs.drop_first() =~= seq![b]);
    assert(merge_loop(m0, txs) == merge_loop(m1, txs.drop_first()));
    assert(txs.drop_first()[0] == b);
}

/// Merging an empty sequence fails with the empty-input failure,
/// deterministically.
pub proof fn lemma_merge_empty()
    ensures
        merge_spec(Seq::empty()) == Err::<TxV, MergeErrorV>(MergeErrorV::EmptyInput),
{
}

} // verus!
