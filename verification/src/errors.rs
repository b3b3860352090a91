//! The failure taxonomy of the merge. Every failure aborts the whole call;
//! each variant carries the diagnostic content a caller may assert on: the
//! content hashes of the two transactions that disagreed and the conflicting
//! field values, or the coordinates of the duplicated previous output.

use vstd::prelude::*;
use vstd::string::StringExecFns;

use crate::hexfmt::{spec_dec, spec_hex, to_hex_string, u32_to_dec_string};

verus! {

/// Why a merge was refused.
#[derive(Debug)]
pub enum MergeError {
    /// The source sequence held no transactions.
    EmptyInput,
    /// A source transaction's version differs from the master's.
    VersionMismatch {
        master_hash: Vec<u8>,
        other_hash: Vec<u8>,
        master_version: u32,
        other_version: u32,
    },
    /// A source transaction's lock-time differs from the master's.
    LockTimeMismatch {
        master_hash: Vec<u8>,
        other_hash: Vec<u8>,
        master_lock_time: u32,
        other_lock_time: u32,
    },
    /// Two inputs refer to the same previous output with the same sequence
    /// number.
    DuplicateInput { prev_hash: Vec<u8>, prev_index: u32 },
}

/// Mathematical view of a merge failure.
pub enum MergeErrorV {
    EmptyInput,
    VersionMismatch {
        master_hash: Seq<u8>,
        other_hash: Seq<u8>,
        master_version: u32,
        other_version: u32,
    },
    LockTimeMismatch {
        master_hash: Seq<u8>,
        other_hash: Seq<u8>,
        master_lock_time: u32,
        other_lock_time: u32,
    },
    DuplicateInput { prev_hash: Seq<u8>, prev_index: u32 },
}

impl View for MergeError {
    type V = MergeErrorV;

    open spec fn view(&self) -> MergeErrorV {
        match self {
            MergeError::EmptyInput => MergeErrorV::EmptyInput,
            MergeError::VersionMismatch {
                master_hash,
                other_hash,
                master_version,
                other_version,
            } => MergeErrorV::VersionMismatch {
                master_hash: master_hash@,
                other_hash: other_hash@,
                master_version: *master_version,
                other_version: *other_version,
            },
            MergeError::LockTimeMismatch {
                master_hash,
                other_hash,
                master_lock_time,
                other_lock_time,
            } => MergeErrorV::LockTimeMismatch {
                master_hash: master_hash@,
                other_hash: other_hash@,
                master_lock_time: *master_lock_time,
                other_lock_time: *other_lock_time,
            },
            MergeError::DuplicateInput { prev_hash, prev_index } => MergeErrorV::DuplicateInput {
                prev_hash: prev_hash@,
                prev_index: *prev_index,
            },
        }
    }
}

/// The human-readable rendering of a failure: the content hashes in
/// hexadecimal together with the conflicting field values.
pub open spec fn spec_message(e: MergeErrorV) -> Seq<char> {
    match e {
        MergeErrorV::EmptyInput => "no transactions to merge"@,
        MergeErrorV::VersionMismatch {
            master_hash,
            other_hash,
            master_version,
            other_version,
        } => "transaction "@ + spec_hex(master_hash) + " did not match "@ + spec_hex(other_hash)
            + " (version "@ + spec_dec(master_version as int) + " vs "@ + spec_dec(
            other_version as int,
        ) + ")"@,
        MergeErrorV::LockTimeMismatch {
            master_hash,
            other_hash,
            master_lock_time,
            other_lock_time,
        } => "transaction "@ + spec_hex(master_hash) + " did not match "@ + spec_hex(other_hash)
            + " (lock-time "@ + spec_dec(master_lock_time as int) + " vs "@ + spec_dec(
            other_lock_time as int,
        ) + ")"@,
        MergeErrorV::DuplicateInput { prev_hash, prev_index } => "duplicate input "@ + spec_hex(
            prev_hash,
        ) + ":"@ + spec_dec(prev_index as int) + " detected"@,
    }
}

impl MergeError {
    /// Render the failure for a human reader.
    pub fn message(&self) -> (r: String)
        ensures
            r@ == spec_message(self@),
    {
        match self {
            MergeError::EmptyInput => {
                let s = String::from_str("no transactions to merge");
                s
            },
            MergeError::VersionMismatch {
                master_hash,
                other_hash,
                master_version,
                other_version,
            } => {
                let mut s = String::from_str("transaction ");
                let mh = to_hex_string(master_hash);
                s.append(mh.as_str());
                s.append(" did not match ");
                let oh = to_hex_string(other_hash);
                s.append(oh.as_str());
                s.append(" (version ");
                let mv = u32_to_dec_string(*master_version);
                s.append(mv.as_str());
                s.append(" vs ");
                let ov = u32_to_dec_string(*other_version);
                s.append(ov.as_str());
                s.append(")");
                proof {
                    assert(s@ =~= spec_message(self@));
                }
                s
            },
            MergeError::LockTimeMismatch {
                master_hash,
                other_hash,
                master_lock_time,
                other_lock_time,
            } => {
                let mut s = String::from_str("transaction ");
                let mh = to_hex_string(master_hash);
                s.append(mh.as_str());
                s.append(" did not match ");
                let oh = to_hex_string(other_hash);
                s.append(oh.as_str());
                s.append(" (lock-time ");
                let ml = u32_to_dec_string(*master_lock_time);
                s.append(ml.as_str());
                s.append(" vs ");
                let ol = u32_to_dec_string(*other_lock_time);
                s.append(ol.as_str());
                s.append(")");
                proof {
                    assert(s@ =~= spec_message(self@));
                }
                s
            },
            MergeError::DuplicateInput { prev_hash, prev_index } => {
                let mut s = String::from_str("duplicate input ");
                let ph = to_hex_string(prev_hash);
                s.append(ph.as_str());
                s.append(":");
                let pi = u32_to_dec_string(*prev_index);
                s.append(pi.as_str());
                s.append(" detected");
                proof {
                    assert(s@ =~= spec_message(self@));
                }
                s
            },
        }
    }
}

} // verus!
