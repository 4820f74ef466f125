//! Aggregate match totals over a result set.
//!
//! For each supported file kind, a [`Totals`] counts how many compared
//! paths involve that kind at all (the possible matches) and how many of
//! them matched fully.

use vstd::prelude::*;

use crate::data_structures::{
    FileCmp, FullFileComparison, PartialFileComparison, SimpleFileType,
};

verus! {

/// Whether a comparison involves the kind `k` on either side.
pub open spec fn involves_kind(p: PartialFileComparison, k: SimpleFileType) -> bool {
    p.first_ft == Some(k) || p.second_ft == Some(k)
}

/// Whether a comparison is a full match of the kind `k`.
pub open spec fn is_match_of(p: PartialFileComparison, k: SimpleFileType) -> bool {
    p.file_cmp == FileCmp::Match && p.first_ft == Some(k)
}

/// How many comparisons in `s` involve the kind `k`.
pub open spec fn count_involving(s: Seq<PartialFileComparison>, k: SimpleFileType) -> nat
    decreases s.len(),
{
    if s.len() == 0 {
        0
    } else {
        count_involving(s.drop_last(), k) + if involves_kind(s.last(), k) {
            1nat
        } else {
            0nat
        }
    }
}

/// How many comparisons in `s` are full matches of the kind `k`.
pub open spec fn count_matches(s: Seq<PartialFileComparison>, k: SimpleFileType) -> nat
    decreases s.len(),
{
    if s.len() == 0 {
        0
    } else {
        count_matches(s.drop_last(), k) + if is_match_of(s.last(), k) {
            1nat
        } else {
            0nat
        }
    }
}

/// Neither count can exceed the number of comparisons counted.
pub proof fn lemma_counts_le_len(s: Seq<PartialFileComparison>, k: SimpleFileType)
    ensures
        count_involving(s, k) <= s.len(),
        count_matches(s, k) <= s.len(),
    decreases s.len(),
{
    if s.len() > 0 {
        lemma_counts_le_len(s.drop_last(), k);
    }
}

/// The comparisons of a result set, stripped of their paths.
pub open spec fn partials_of(s: Seq<FullFileComparison>) -> Seq<PartialFileComparison> {
    s.map_values(|f: FullFileComparison| f.partial_cmp)
}

/// Per-kind counts of found matches and of possible matches over one tree
/// comparison.
#[derive(Clone, Copy, Debug, PartialEq, Eq, Structural)]
pub struct Totals {
    pub max_file_matches: u128,
    pub max_dir_matches: u128,
    pub max_softlink_matches: u128,
    pub file_matches: u128,
    pub dir_matches: u128,
    pub softlink_matches: u128,
}

impl Totals {
    /// Calculates the totals of a whole result set.
    pub fn calculate_from(directory_tree_comparison: &Vec<FullFileComparison>) -> (t: Totals)
        requires
            forall|i: int|
                0 <= i < directory_tree_comparison@.len()
                    ==> (#[trigger] directory_tree_comparison@[i]).partial_cmp.wf(),
        ensures
            ({
                let s = partials_of(directory_tree_comparison@);
                &&& t.max_file_matches == count_involving(s, SimpleFileType::RegFile)
                &&& t.max_dir_matches == count_involving(s, SimpleFileType::Directory)
                &&& t.max_softlink_matches == count_involving(s, SimpleFileType::SoftLink)
                &&& t.file_matches == count_matches(s, SimpleFileType::RegFile)
                &&& t.dir_matches == count_matches(s, SimpleFileType::Directory)
                &&& t.softlink_matches == count_matches(s, SimpleFileType::SoftLink)
            }),
    {
        let ghost s = partials_of(directory_tree_comparison@);
        let mut totals_count = default_totals();
        let mut i: usize = 0;
        while i < directory_tree_comparison.len()
            invariant
                0 <= i <= directory_tree_comparison@.len(),
                s == partials_of(directory_tree_comparison@),
                forall|j: int|
                    0 <= j < directory_tree_comparison@.len()
                        ==> (#[trigger] directory_tree_comparison@[j]).partial_cmp.wf(),
                totals_count.max_file_matches == count_involving(
                    s.take(i as int),
                    SimpleFileType::RegFile,
                ),
                totals_count.max_dir_matches == count_involving(
                    s.take(i as int),
                    SimpleFileType::Directory,
                ),
                totals_count.max_softlink_matches == count_involving(
                    s.take(i as int),
                    SimpleFileType::SoftLink,
                ),
                totals_count.file_matches == count_matches(
                    s.take(i as int),
                    SimpleFileType::RegFile,
                ),
                totals_count.dir_matches == count_matches(
                    s.take(i as int),
                    SimpleFileType::Directory,
                ),
                totals_count.softlink_matches == count_matches(
                    s.take(i as int),
                    SimpleFileType::SoftLink,
                ),
            decreases directory_tree_comparison@.len() - i,
        {
            proof {
                lemma_counts_le_len(s.take(i as int), SimpleFileType::RegFile);
                lemma_counts_le_len(s.take(i as int), SimpleFileType::Directory);
                lemma_counts_le_len(s.take(i as int), SimpleFileType::SoftLink);
            }
            totals_count.update(&directory_tree_comparison[i].partial_cmp);
            proof {
                assert(s.take(i + 1 as int).drop_last() =~= s.take(i as int));
                assert(s.take(i + 1 as int).last() == s[i as int]);
                assert(s[i as int] == directory_tree_comparison@[i as int].partial_cmp);
            }
            i = i + 1;
        }
        proof {
            assert(s.take(directory_tree_comparison@.len() as int) =~= s);
        }
        totals_count
    }

    /// Counts one comparison into the totals: the possible-match count of
    /// every kind the comparison involves grows by one, and on a full
    /// match the found-match count of its kind grows by one.
    pub fn update(&mut self, p_cmp: &PartialFileComparison)
        requires
            p_cmp.wf(),
            old(self).max_file_matches < u128::MAX,
            old(self).max_dir_matches < u128::MAX,
            old(self).max_softlink_matches < u128::MAX,
            old(self).file_matches < u128::MAX,
            old(self).dir_matches < u128::MAX,
            old(self).softlink_matches < u128::MAX,
        ensures
            final(self).max_file_matches == old(self).max_file_matches + (
            if involves_kind(*p_cmp, SimpleFileType::RegFile) {
                1int
            } else {
                0int
            }),
            final(self).max_dir_matches == old(self).max_dir_matches + (
            if involves_kind(*p_cmp, SimpleFileType::Directory) {
                1int
            } else {
                0int
            }),
            final(self).max_softlink_matches == old(self).max_softlink_matches + (
            if involves_kind(*p_cmp, SimpleFileType::SoftLink) {
                1int
            } else {
                0int
            }),
            final(self).file_matches == old(self).file_matches + (
            if is_match_of(*p_cmp, SimpleFileType::RegFile) {
                1int
            } else {
                0int
            }),
            final(self).dir_matches == old(self).dir_matches + (
            if is_match_of(*p_cmp, SimpleFileType::Directory) {
                1int
            } else {
                0int
            }),
            final(self).softlink_matches == old(self).softlink_matches + (
            if is_match_of(*p_cmp, SimpleFileType::SoftLink) {
                1int
            } else {
                0int
            }),
    {
        // Possible matches: one per kind the comparison involves on either
        // side; a pair involving the same kind twice still counts once.
        if matches!(p_cmp.first_ft, Some(SimpleFileType::RegFile)) || matches!(
            p_cmp.second_ft,
            Some(SimpleFileType::RegFile),
        ) {
            self.max_file_matches = self.max_file_matches + 1;
        }
        if matches!(p_cmp.first_ft, Some(SimpleFileType::Directory)) || matches!(
            p_cmp.second_ft,
            Some(SimpleFileType::Directory),
        ) {
            self.max_dir_matches = self.max_dir_matches + 1;
        }
        if matches!(p_cmp.first_ft, Some(SimpleFileType::SoftLink)) || matches!(
            p_cmp.second_ft,
            Some(SimpleFileType::SoftLink),
        ) {
            self.max_softlink_matches = self.max_softlink_matches + 1;
        }
        // Found matches: a full match counts for the kind shared by the
        // two sides.
        if matches!(p_cmp.file_cmp, FileCmp::Match) {
            match p_cmp.first_ft {
                Some(SimpleFileType::RegFile) => {
                    self.file_matches = self.file_matches + 1;
                },
                Some(SimpleFileType::Directory) => {
                    self.dir_matches = self.dir_matches + 1;
                },
                Some(SimpleFileType::SoftLink) => {
                    self.softlink_matches = self.softlink_matches + 1;
                },
                None => {},
            }
        }
    }
}

/// Returns a freshly initialised [`Totals`]: every count zero.
pub fn default_totals() -> (t: Totals)
    ensures
        t.max_file_matches == 0,
        t.max_dir_matches == 0,
        t.max_softlink_matches == 0,
        t.file_matches == 0,
        t.dir_matches == 0,
        t.softlink_matches == 0,
{
    Totals {
        max_file_matches: 0,
        max_dir_matches: 0,
        max_softlink_matches: 0,
        file_matches: 0,
        dir_matches: 0,
        softlink_matches: 0,
    }
}

} // verus!
