use txmerge::{merge_unsigned_transactions, MergeError, Transaction, TxIn, TxOut};

fn input(prev_hash: &[u8], prev_index: u32, sequence: u32, sig: &[u8], hash_type: u32) -> TxIn {
    TxIn {
        prev_hash: prev_hash.to_vec(),
        prev_index,
        sequence,
        script_sig: sig.to_vec(),
        hash_type,
    }
}

fn output(script: &[u8], value: u64) -> TxOut {
    TxOut { script_pubkey: script.to_vec(), value }
}

fn tx(version: u32, lock_time: u32, inputs: Vec<TxIn>, outputs: Vec<TxOut>) -> Transaction {
    Transaction { version, lock_time, inputs, outputs }
}

/// The inputs of a transaction as a sorted list of plain tuples, for
/// order-independent comparison.
fn input_multiset(t: &Transaction) -> Vec<(Vec<u8>, u32, u32, Vec<u8>, u32)> {
    let mut v: Vec<(Vec<u8>, u32, u32, Vec<u8>, u32)> = t
        .inputs
        .iter()
        .map(|i| {
            (
                i.prev_hash.clone(),
                i.prev_index,
                i.sequence,
                i.script_sig.clone(),
                i.hash_type,
            )
        })
        .collect();
    v.sort();
    v
}

fn output_multiset(t: &Transaction) -> Vec<(Vec<u8>, u64)> {
    let mut v: Vec<(Vec<u8>, u64)> = t
        .outputs
        .iter()
        .map(|o| (o.script_pubkey.clone(), o.value))
        .collect();
    v.sort();
    v
}

#[test]
fn empty_input_fails() {
    let r = merge_unsigned_transactions(&[]);
    match r {
        Err(MergeError::EmptyInput) => {}
        _ => panic!("expected the empty-input failure"),
    }
}

#[test]
fn empty_input_message() {
    let r = merge_unsigned_transactions(&[]);
    let e = r.err().expect("expected a failure");
    assert_eq!(e.message(), "no transactions to merge");
}

#[test]
fn single_transaction_keeps_version_and_lock_time() {
    let a = tx(
        2,
        77,
        vec![input(&[1; 32], 0, 5, &[9, 9], 1)],
        vec![output(&[0xaa], 10)],
    );
    let m = merge_unsigned_transactions(&[a]).expect("merge should succeed");
    assert_eq!(m.version, 2);
    assert_eq!(m.lock_time, 77);
    assert_eq!(m.inputs.len(), 1);
    assert_eq!(m.outputs.len(), 1);
    assert_eq!(m.outputs[0].value, 10);
}

#[test]
fn single_transaction_preserves_value_sum_and_input_count() {
    let a = tx(
        1,
        0,
        vec![
            input(&[1; 32], 0, 0, &[1], 1),
            input(&[2; 32], 1, 0, &[2], 1),
        ],
        vec![output(&[0xaa], 3), output(&[0xbb], 4), output(&[0xcc], 5)],
    );
    let m = merge_unsigned_transactions(&[a]).expect("merge should succeed");
    assert_eq!(m.inputs.len(), 2);
    let total: u64 = m.outputs.iter().map(|o| o.value).sum();
    assert_eq!(total, 12);
}

#[test]
fn outputs_to_same_script_are_aggregated() {
    let script = [0x76, 0xa9, 0x14, 0x01];
    let a = tx(1, 0, vec![input(&[1; 32], 0, 0, &[], 1)], vec![output(&script, 5)]);
    let b = tx(1, 0, vec![input(&[2; 32], 0, 0, &[], 1)], vec![output(&script, 7)]);
    let m = merge_unsigned_transactions(&[a, b]).expect("merge should succeed");
    assert_eq!(m.outputs.len(), 1);
    assert_eq!(m.outputs[0].script_pubkey, script.to_vec());
    assert_eq!(m.outputs[0].value, 12);
}

#[test]
fn distinct_scripts_stay_distinct() {
    let a = tx(1, 0, vec![], vec![output(&[0x01], 5), output(&[0x02], 6)]);
    let b = tx(1, 0, vec![], vec![output(&[0x02], 4), output(&[0x03], 1)]);
    let m = merge_unsigned_transactions(&[a, b]).expect("merge should succeed");
    let outs = output_multiset(&m);
    assert_eq!(
        outs,
        vec![
            (vec![0x01], 5u64),
            (vec![0x02], 10u64),
            (vec![0x03], 1u64),
        ]
    );
}

#[test]
fn merging_a_transaction_with_itself_is_a_duplicate() {
    let a = tx(
        1,
        0,
        vec![input(&[7; 32], 3, 11, &[5, 5], 1)],
        vec![output(&[0xaa], 5)],
    );
    let b = tx(
        1,
        0,
        vec![input(&[7; 32], 3, 11, &[6, 6], 1)],
        vec![output(&[0xbb], 5)],
    );
    // The signature scripts differ, but the previous output and the
    // sequence number agree: that is a match.
    match merge_unsigned_transactions(&[a, b]) {
        Err(MergeError::DuplicateInput { prev_hash, prev_index }) => {
            assert_eq!(prev_hash, vec![7; 32]);
            assert_eq!(prev_index, 3);
        }
        _ => panic!("expected the duplicate-input failure"),
    }
}

#[test]
fn duplicate_within_one_transaction_is_rejected() {
    let a = tx(
        1,
        0,
        vec![
            input(&[9; 32], 1, 0, &[], 1),
            input(&[9; 32], 1, 0, &[], 1),
        ],
        vec![],
    );
    match merge_unsigned_transactions(&[a]) {
        Err(MergeError::DuplicateInput { prev_hash, prev_index }) => {
            assert_eq!(prev_hash, vec![9; 32]);
            assert_eq!(prev_index, 1);
        }
        _ => panic!("expected the duplicate-input failure"),
    }
}

#[test]
fn same_previous_output_different_sequence_is_no_duplicate() {
    let a = tx(1, 0, vec![input(&[7; 32], 3, 11, &[], 1)], vec![]);
    let b = tx(1, 0, vec![input(&[7; 32], 3, 12, &[], 1)], vec![]);
    let m = merge_unsigned_transactions(&[a, b]).expect("merge should succeed");
    assert_eq!(m.inputs.len(), 2);
}

#[test]
fn lock_time_mismatch_is_rejected() {
    let a = tx(1, 10, vec![], vec![output(&[0x01], 1)]);
    let b = tx(1, 20, vec![], vec![output(&[0x02], 1)]);
    match merge_unsigned_transactions(&[a, b]) {
        Err(MergeError::LockTimeMismatch {
            master_hash,
            other_hash,
            master_lock_time,
            other_lock_time,
        }) => {
            assert_eq!(master_lock_time, 10);
            assert_eq!(other_lock_time, 20);
            assert_eq!(master_hash.len(), 32);
            assert_eq!(other_hash.len(), 32);
            assert_ne!(master_hash, other_hash);
        }
        _ => panic!("expected the lock-time-mismatch failure"),
    }
}

#[test]
fn version_mismatch_is_rejected() {
    let a = tx(1, 0, vec![], vec![output(&[0x01], 1)]);
    let b = tx(2, 0, vec![], vec![output(&[0x02], 1)]);
    match merge_unsigned_transactions(&[a, b]) {
        Err(MergeError::VersionMismatch { master_version, other_version, .. }) => {
            assert_eq!(master_version, 1);
            assert_eq!(other_version, 2);
        }
        _ => panic!("expected the version-mismatch failure"),
    }
}

#[test]
fn version_is_checked_before_lock_time() {
    let a = tx(1, 10, vec![], vec![]);
    let b = tx(2, 20, vec![], vec![]);
    match merge_unsigned_transactions(&[a, b]) {
        Err(MergeError::VersionMismatch { .. }) => {}
        _ => panic!("expected the version-mismatch failure first"),
    }
}

#[test]
fn signature_scripts_are_stripped_unless_surviving() {
    let a = tx(
        1,
        0,
        vec![
            input(&[1; 32], 0, 0, &[0xde, 0xad], 0x01),
            input(&[2; 32], 0, 0, &[0xbe, 0xef], 0x82),
        ],
        vec![],
    );
    let m = merge_unsigned_transactions(&[a]).expect("merge should succeed");
    assert_eq!(m.inputs.len(), 2);
    for i in &m.inputs {
        if i.hash_type == 0x82 {
            assert_eq!(i.prev_hash, vec![2; 32]);
            assert_eq!(i.script_sig, vec![0xbe, 0xef]);
        } else {
            assert_eq!(i.prev_hash, vec![1; 32]);
            assert_eq!(i.script_sig, Vec::<u8>::new());
        }
    }
}

#[test]
fn result_is_the_union_as_a_multiset() {
    let a = tx(
        1,
        0,
        vec![
            input(&[1; 32], 0, 0, &[1], 1),
            input(&[2; 32], 1, 7, &[2], 0x82),
        ],
        vec![output(&[0xaa], 3), output(&[0xbb], 4)],
    );
    let b = tx(
        1,
        0,
        vec![input(&[3; 32], 2, 9, &[3], 1)],
        vec![output(&[0xbb], 6), output(&[0xcc], 1)],
    );
    let m = merge_unsigned_transactions(&[a, b]).expect("merge should succeed");
    let ins = input_multiset(&m);
    // Every non-surviving signature script is cleared; everything else is
    // kept; order may be anything.
    let mut expected_ins = vec![
        (vec![1; 32], 0u32, 0u32, Vec::<u8>::new(), 1u32),
        (vec![2; 32], 1u32, 7u32, vec![2u8], 0x82u32),
        (vec![3; 32], 2u32, 9u32, Vec::<u8>::new(), 1u32),
    ];
    expected_ins.sort();
    assert_eq!(ins, expected_ins);
    let outs = output_multiset(&m);
    let mut expected_outs = vec![
        (vec![0xaa], 3u64),
        (vec![0xbb], 10u64),
        (vec![0xcc], 1u64),
    ];
    expected_outs.sort();
    assert_eq!(outs, expected_outs);
}

#[test]
fn duplicate_input_message_renders_coordinates() {
    let e = MergeError::DuplicateInput { prev_hash: vec![0x01, 0x02], prev_index: 7 };
    assert_eq!(e.message(), "duplicate input 0102:7 detected");
}

#[test]
fn lock_time_mismatch_message_renders_values() {
    let a = tx(1, 10, vec![], vec![]);
    let b = tx(1, 20, vec![], vec![]);
    let e = merge_unsigned_transactions(&[a, b]).err().expect("expected a failure");
    let msg = e.message();
    assert!(msg.starts_with("transaction "));
    assert!(msg.contains(" did not match "));
    assert!(msg.ends_with(" (lock-time 10 vs 20)"));
}

#[test]
fn copies_with_no_inputs_merge_cleanly() {
    // With no inputs there is nothing to duplicate: the same transaction
    // can be folded twice and only its outputs aggregate.
    let a = tx(1, 0, vec![], vec![output(&[0x05], 8)]);
    let b = tx(1, 0, vec![], vec![output(&[0x05], 8)]);
    let m = merge_unsigned_transactions(&[a, b]).expect("merge should succeed");
    assert_eq!(m.inputs.len(), 0);
    assert_eq!(m.outputs.len(), 1);
    assert_eq!(m.outputs[0].value, 16);
}

#[test]
fn three_way_merge_keeps_first_version_and_lock_time() {
    let a = tx(3, 9, vec![input(&[1; 32], 0, 0, &[], 1)], vec![output(&[0x01], 1)]);
    let b = tx(3, 9, vec![input(&[2; 32], 0, 0, &[], 1)], vec![output(&[0x02], 2)]);
    let c = tx(3, 9, vec![input(&[3; 32], 0, 0, &[], 1)], vec![output(&[0x03], 3)]);
    let m = merge_unsigned_transactions(&[a, b, c]).expect("merge should succeed");
    assert_eq!(m.version, 3);
    assert_eq!(m.lock_time, 9);
    assert_eq!(m.inputs.len(), 3);
    let total: u64 = m.outputs.iter().map(|o| o.value).sum();
    assert_eq!(total, 6);
}
