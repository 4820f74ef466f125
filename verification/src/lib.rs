//! A verified engine for comparing two directory trees.
//!
//! The library classifies every relative path found under either of two tree
//! roots along four axes: existence, file type, substance (byte content or
//! link target) and, optionally, modification time.  All filesystem access
//! stays outside the library: callers enumerate each tree into plain
//! [`data_structures::FileRecord`] values and receive one
//! [`data_structures::FullFileComparison`] per path in return.

pub mod compare;
pub mod config;
pub mod data_structures;
pub mod files;
pub mod laws;
pub mod order;
pub mod totals;

pub use config::{default_config, Config};

use vstd::prelude::*;

verus! {

use crate::compare::{
    cmp_views, compare_directory_trees, contains_mismatch, engine_spec, has_dup_paths,
};
use crate::data_structures::{FileCmp, TreeSnapshot};

/// Compares the two enumerated trees and classifies the run: `0` when every
/// compared path matched, `1` when at least one produced comparison is a
/// mismatch, and `2` when a snapshot was malformed and the comparison could
/// not be carried out.
pub fn cmp_tree(config: &Config, first: &TreeSnapshot, second: &TreeSnapshot) -> (r: i32)
    ensures
        ({
            let dups = has_dup_paths(first@.records) || has_dup_paths(second@.records);
            let m = engine_spec(*config, first@, second@);
            &&& (r == 2) == dups
            &&& (r == 1) == (!dups && exists|k: int|
                0 <= k < m.len() && (#[trigger] m[k]).partial_cmp.file_cmp != FileCmp::Match)
            &&& (r == 0) == (!dups && forall|k: int|
                0 <= k < m.len() ==> (#[trigger] m[k]).partial_cmp.file_cmp == FileCmp::Match)
        }),
{
    match compare_directory_trees(config, first, second) {
        Ok(results) => {
            let ghost m = engine_spec(*config, first@, second@);
            proof {
                assert(cmp_views(results@).len() == results@.len());
                assert forall|k: int| 0 <= k < results@.len()
                    implies (#[trigger] results@[k]).partial_cmp == m[k].partial_cmp by {
                    assert(cmp_views(results@)[k] == results@[k]@);
                }
            }
            if contains_mismatch(&results) {
                proof {
                    let k = choose|k: int|
                        0 <= k < results@.len() && (#[trigger] results@[k]).partial_cmp.file_cmp
                            != FileCmp::Match;
                    assert(m[k].partial_cmp.file_cmp != FileCmp::Match);
                }
                1
            } else {
                proof {
                    assert forall|k: int| 0 <= k < m.len()
                        implies (#[trigger] m[k]).partial_cmp.file_cmp == FileCmp::Match by {
                        assert(results@[k].partial_cmp.file_cmp == FileCmp::Match);
                    }
                }
                0
            }
        },
        Err(_) => 2,
    }
}

} // verus!
