//! The transaction data model: inputs, outputs, and the transaction record
//! itself, together with their mathematical views and the value-sum
//! specifications that the merge contracts are stated over.

use vstd::prelude::*;

verus! {

/// A transaction input: a reference to a previous output (hash plus index),
/// a sequence number, the signature script, and the signature-hash-type tag.
pub struct TxIn {
    pub prev_hash: Vec<u8>,
    pub prev_index: u32,
    pub sequence: u32,
    pub script_sig: Vec<u8>,
    pub hash_type: u32,
}

/// A transaction output: a locking script and a value.
pub struct TxOut {
    pub script_pubkey: Vec<u8>,
    pub value: u64,
}

/// A transaction: version, lock-time, and ordered input and output sequences.
pub struct Transaction {
    pub version: u32,
    pub lock_time: u32,
    pub inputs: Vec<TxIn>,
    pub outputs: Vec<TxOut>,
}

/// Mathematical view of an input.
pub struct TxInV {
    pub prev_hash: Seq<u8>,
    pub prev_index: u32,
    pub sequence: u32,
    pub script_sig: Seq<u8>,
    pub hash_type: u32,
}

/// Mathematical view of an output. The value is an unbounded integer so that
/// folded sums can be spoken of without committing to a machine width.
pub struct TxOutV {
    pub script_pubkey: Seq<u8>,
    pub value: int,
}

/// Mathematical view of a transaction.
pub struct TxV {
    pub version: u32,
    pub lock_time: u32,
    pub inputs: Seq<TxInV>,
    pub outputs: Seq<TxOutV>,
}

impl View for TxIn {
    type V = TxInV;

    open spec fn view(&self) -> TxInV {
        TxInV {
            prev_hash: self.prev_hash@,
            prev_index: self.prev_index,
            sequence: self.sequence,
            script_sig: self.script_sig@,
            hash_type: self.hash_type,
        }
    }
}

impl View for TxOut {
    type V = TxOutV;

    open spec fn view(&self) -> TxOutV {
        TxOutV { script_pubkey: self.script_pubkey@, value: self.value as int }
    }
}

impl View for Transaction {
    type V = TxV;

    open spec fn view(&self) -> TxV {
        TxV {
            version: self.version,
            lock_time: self.lock_time,
            inputs: self.inputs@.map_values(|x: TxIn| x@),
            outputs: self.outputs@.map_values(|o: TxOut| o@),
        }
    }
}

/// The views of a sequence of transactions.
pub open spec fn views_of(s: Seq<Transaction>) -> Seq<TxV> {
    s.map_values(|t: Transaction| t@)
}

/// Sum of the values of a sequence of outputs.
pub open spec fn out_sum(outs: Seq<TxOutV>) -> int
    decreases outs.len(),
{
    if outs.len() == 0 {
        0
    } else {
        outs[0].value + out_sum(outs.drop_first())
    }
}

/// Sum of all output values over a sequence of transactions.
pub open spec fn txs_out_sum(txs: Seq<TxV>) -> int
    decreases txs.len(),
{
    if txs.len() == 0 {
        0
    } else {
        out_sum(txs[0].outputs) + txs_out_sum(txs.drop_first())
    }
}

/// Appending one output adds its value to the sum.
pub proof fn lemma_out_sum_push(outs: Seq<TxOutV>, o: TxOutV)
    ensures
        out_sum(outs.push(o)) == out_sum(outs) + o.value,
    decreases outs.len(),
{
    if outs.len() == 0 {
        assert(outs.push(o).drop_first() =~= outs);
    } else {
        assert(outs.push(o).drop_first() =~= outs.drop_first().push(o));
        lemma_out_sum_push(outs.drop_first(), o);
    }
}

/// Replacing one entry shifts the sum by the difference of the values.
pub proof fn lemma_out_sum_update(outs: Seq<TxOutV>, i: int, o: TxOutV)
    requires
        0 <= i < outs.len(),
    ensures
        out_sum(outs.update(i, o)) == out_sum(outs) - outs[i].value + o.value,
    decreases outs.len(),
{
    if i == 0 {
        assert(outs.update(0, o).drop_first() =~= outs.drop_first());
    } else {
        assert(outs.update(i, o).drop_first() =~= outs.drop_first().update(i - 1, o));
        lemma_out_sum_update(outs.drop_first(), i - 1, o);
    }
}

/// With no negative values, each entry is bounded by the whole sum.
pub proof fn lemma_out_sum_elem_bound(outs: Seq<TxOutV>, i: int)
    requires
        0 <= i < outs.len(),
        forall|j: int| 0 <= j < outs.len() ==> #[trigger] outs[j].value >= 0,
    ensures
        outs[i].value <= out_sum(outs),
        out_sum(outs) >= 0,
    decreases outs.len(),
{
    if outs.len() > 0 {
        if i == 0 {
            lemma_out_sum_nonneg(outs.drop_first());
        } else {
            lemma_out_sum_elem_bound(outs.drop_first(), i - 1);
        }
    }
}

/// A sum of non-negative values is non-negative.
pub proof fn lemma_out_sum_nonneg(outs: Seq<TxOutV>)
    requires
        forall|j: int| 0 <= j < outs.len() ==> #[trigger] outs[j].value >= 0,
    ensures
        out_sum(outs) >= 0,
    decreases outs.len(),
{
    if outs.len() > 0 {
        lemma_out_sum_nonneg(outs.drop_first());
    }
}

/// No output value anywhere in the sequence of transactions is negative.
pub open spec fn all_outs_nonneg(txs: Seq<TxV>) -> bool {
    forall|i: int, j: int|
        0 <= i < txs.len() && 0 <= j < txs[i].outputs.len() ==> (#[trigger] txs[i].outputs[j].value) >= 0
}

/// The views of machine transactions only hold non-negative output values.
pub proof fn lemma_views_all_outs_nonneg(s: Seq<Transaction>)
    ensures
        all_outs_nonneg(views_of(s)),
{
    let v = views_of(s);
    assert forall|i: int, j: int|
        0 <= i < v.len() && 0 <= j < v[i].outputs.len() implies (#[trigger] v[i].outputs[j].value) >= 0 by {
        assert(v[i] == s[i]@);
        assert(s[i]@.outputs[j] == s[i].outputs@[j]@);
    }
}

/// A total over transactions whose output values are non-negative is
/// non-negative.
pub proof fn lemma_txs_out_sum_nonneg(txs: Seq<TxV>)
    requires
        all_outs_nonneg(txs),
    ensures
        txs_out_sum(txs) >= 0,
    decreases txs.len(),
{
    if txs.len() > 0 {
        assert(forall|j: int|
            0 <= j < txs[0].outputs.len() ==> #[trigger] txs[0].outputs[j].value >= 0);
        lemma_out_sum_nonneg(txs[0].outputs);
        let d = txs.drop_first();
        assert forall|i: int, j: int|
            0 <= i < d.len() && 0 <= j < d[i].outputs.len() implies (#[trigger] d[i].outputs[j].value) >= 0 by {
            assert(d[i] == txs[i + 1]);
        }
        lemma_txs_out_sum_nonneg(d);
    }
}

/// Dropping a prefix keeps the non-negativity of output values.
pub proof fn lemma_all_outs_nonneg_skip(txs: Seq<TxV>, k: int)
    requires
        all_outs_nonneg(txs),
        0 <= k <= txs.len(),
    ensures
        all_outs_nonneg(txs.skip(k)),
{
    let d = txs.skip(k);
    assert forall|i: int, j: int|
        0 <= i < d.len() && 0 <= j < d[i].outputs.len() implies (#[trigger] d[i].outputs[j].value) >= 0 by {
        assert(d[i] == txs[i + k]);
    }
}

/// Sequences with equal multisets still have equal multisets after mapping
/// each element through the same function.
pub proof fn lemma_map_values_multiset<A, B>(a: Seq<A>, b: Seq<A>, f: spec_fn(A) -> B)
    requires
        a.to_multiset() == b.to_multiset(),
    ensures
        a.map_values(f).to_multiset() == b.map_values(f).to_multiset(),
    decreases a.len(),
{
    broadcast use vstd::seq_lib::group_to_multiset_ensures;
    broadcast use vstd::multiset::group_multiset_axioms;

    if a.len() == 0 {
        assert(a.to_multiset().len() == a.len());
        assert(b.to_multiset().len() == b.len());
        assert(b.len() == a.len());
        assert(a.map_values(f) =~= Seq::<B>::empty());
        assert(b.map_values(f) =~= Seq::<B>::empty());
    } else {
        let x = a[0];
        assert(a.contains(x));
        assert(b.to_multiset().count(x) > 0);
        assert(b.contains(x));
        let j = choose|i: int| 0 <= i < b.len() && b[i] == x;
        let a1 = a.remove(0);
        let b1 = b.remove(j);
        assert(a1.to_multiset() =~= a.to_multiset().remove(x));
        assert(b1.to_multiset() =~= b.to_multiset().remove(x));
        lemma_map_values_multiset(a1, b1, f);
        let fa = a.map_values(f);
        let fb = b.map_values(f);
        assert(a1.map_values(f) =~= fa.remove(0));
        assert(b1.map_values(f) =~= fb.remove(j));
        assert(fa[0] == f(x));
        assert(fb[j] == f(x));
        assert(fa.remove(0).to_multiset() =~= fa.to_multiset().remove(f(x)));
        assert(fb.remove(j).to_multiset() =~= fb.to_multiset().remove(f(x)));
        assert(fa.contains(f(x)));
        assert(fb.contains(f(x)));
        assert(fa.to_multiset().count(f(x)) > 0);
        assert(fb.to_multiset().count(f(x)) > 0);
        assert(fa.to_multiset() =~= fb.to_multiset()) by {
            assert forall|e: B| fa.to_multiset().count(e) == fb.to_multiset().count(e) by {
                assert(fa.to_multiset().remove(f(x)).count(e) == fb.to_multiset().remove(
                    f(x),
                ).count(e));
            }
        }
    }
}

} // verus!
