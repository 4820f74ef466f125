//! Relative paths: joining, sorting and enumeration order.
//!
//! The unified path set of a comparison is kept in lexicographic byte order.
//! This module proves that order total, provides a verified sort for path
//! vectors, and defines how a relative path is joined onto a tree root.

use vstd::multiset::Multiset;
use vstd::prelude::*;
use vstd::relations::{sorted_by, total_ordering};
use vstd::seq_lib::lemma_sorted_unique;

use crate::data_structures::{FileRecord, RecordModel};
use crate::order::{
    bytes_lt, clone_bytes, lemma_lex_le_transitive, lemma_lex_lt_asymmetric, lemma_lex_lt_connex,
    lex_le,
};

verus! {

/// The order of the unified path set, as a relation value.
pub open spec fn path_le() -> spec_fn(Seq<u8>, Seq<u8>) -> bool {
    |a: Seq<u8>, b: Seq<u8>| lex_le(a, b)
}

/// [`path_le`] is a total order on byte sequences.
pub proof fn lemma_path_le_total_ordering()
    ensures
        total_ordering(path_le()),
{
    let leq = path_le();
    assert forall|a: Seq<u8>| #[trigger] leq(a, a) by {}
    assert forall|a: Seq<u8>, b: Seq<u8>| #[trigger] leq(a, b) && #[trigger] leq(b, a)
        implies a == b by {
        lemma_lex_lt_asymmetric(a, b);
    }
    assert forall|a: Seq<u8>, b: Seq<u8>, c: Seq<u8>|
        #[trigger] leq(a, b) && #[trigger] leq(b, c) implies leq(a, c) by {
        lemma_lex_le_transitive(a, b, c);
    }
    assert forall|a: Seq<u8>, b: Seq<u8>| #[trigger] leq(a, b) || #[trigger] leq(b, a) by {
        lemma_lex_lt_connex(a, b);
    }
}

/// The views of a vector of byte vectors.
pub open spec fn path_views(s: Seq<Vec<u8>>) -> Seq<Seq<u8>> {
    s.map_values(|v: Vec<u8>| v@)
}

/// The relative paths of a sequence of records, in enumeration order.
pub open spec fn rec_paths(s: Seq<RecordModel>) -> Seq<Seq<u8>> {
    s.map_values(|r: RecordModel| r.path)
}

/// The models of a vector of records.
pub open spec fn models_of(records: Seq<FileRecord>) -> Seq<RecordModel> {
    records.map_values(|r: FileRecord| r@)
}

/// Sorts a vector of paths into lexicographic byte order.  The result is
/// exactly the canonical sorted permutation of the input.
pub fn sort_paths(input: Vec<Vec<u8>>) -> (r: Vec<Vec<u8>>)
    ensures
        path_views(r@) == path_views(input@).sort_by(path_le()),
{
    let ghost orig = path_views(input@);
    let mut rest = input;
    let mut out: Vec<Vec<u8>> = Vec::new();
    proof {
        broadcast use vstd::seq_lib::group_to_multiset_ensures;
        broadcast use vstd::multiset::group_multiset_axioms;

        assert(path_views(rest@) =~= orig);
        assert(path_views(out@) =~= Seq::<Seq<u8>>::empty());
        assert(path_views(out@).to_multiset().add(path_views(rest@).to_multiset()) =~=
            orig.to_multiset());
    }
    while rest.len() > 0
        invariant
            path_views(out@).to_multiset().add(path_views(rest@).to_multiset())
                == orig.to_multiset(),
            sorted_by(path_views(out@), path_le()),
            forall|i: int, j: int|
                0 <= i < out@.len() && 0 <= j < rest@.len()
                    ==> lex_le(#[trigger] out@[i]@, #[trigger] rest@[j]@),
        decreases rest@.len(),
    {
        // Select the lexicographically least remaining path.
        let mut best: usize = 0;
        let mut k: usize = 1;
        while k < rest.len()
            invariant
                0 <= best < k <= rest@.len(),
                rest@.len() > 0,
                forall|j: int| 0 <= j < k ==> lex_le(rest@[best as int]@, #[trigger] rest@[j]@),
            decreases rest@.len() - k,
        {
            if bytes_lt(&rest[k], &rest[best]) {
                proof {
                    assert forall|j: int| 0 <= j < k + 1
                        implies lex_le(rest@[k as int]@, #[trigger] rest@[j]@) by {
                        if j < k {
                            lemma_lex_le_transitive(
                                rest@[k as int]@,
                                rest@[best as int]@,
                                rest@[j]@,
                            );
                        }
                    }
                }
                best = k;
            } else {
                proof {
                    lemma_lex_lt_connex(rest@[best as int]@, rest@[k as int]@);
                }
            }
            k = k + 1;
        }
        let ghost old_rest_views = path_views(rest@);
        let ghost old_out_views = path_views(out@);
        let m = rest.remove(best);
        out.push(m);
        proof {
            broadcast use vstd::seq_lib::group_to_multiset_ensures;
            broadcast use vstd::multiset::group_multiset_axioms;

            assert(m@ == old_rest_views[best as int]);
            assert(path_views(rest@) =~= old_rest_views.remove(best as int));
            assert(old_rest_views.remove(best as int).to_multiset()
                =~= old_rest_views.to_multiset().remove(old_rest_views[best as int]));
            assert(path_views(out@) =~= old_out_views.push(m@));
            assert(old_out_views.push(m@).to_multiset() =~= old_out_views.to_multiset().insert(
                m@));
            assert(path_views(out@).to_multiset().add(path_views(rest@).to_multiset())
                =~= orig.to_multiset());
            // Every remaining path sits at or after the removed minimum.
            assert forall|i: int, j: int|
                0 <= i < out@.len() && 0 <= j < rest@.len()
                implies lex_le(#[trigger] out@[i]@, #[trigger] rest@[j]@) by {
                assert(rest@[j]@ == if j < best as int {
                    old_rest_views[j]
                } else {
                    old_rest_views[j + 1]
                });
                if i < old_out_views.len() {
                } else {
                    assert(out@[i]@ == m@);
                }
            }
            assert forall|i: int, j: int|
                0 <= i < j < path_views(out@).len()
                implies (path_le())(path_views(out@)[i], path_views(out@)[j]) by {
                if j < old_out_views.len() {
                } else {
                    assert(path_views(out@)[j] == m@);
                }
            }
        }
    }
    proof {
        broadcast use vstd::seq_lib::group_to_multiset_ensures;
        broadcast use vstd::multiset::group_multiset_axioms;

        assert(path_views(rest@) =~= Seq::<Seq<u8>>::empty());
        assert(path_views(rest@).to_multiset() =~= Multiset::<Seq<u8>>::empty());
        assert(path_views(out@).to_multiset() =~= orig.to_multiset());
        lemma_path_le_total_ordering();
        orig.lemma_sort_by_ensures(path_le());
        lemma_sorted_unique(path_views(out@), orig.sort_by(path_le()), path_le());
        assert(path_views(out@) == orig.sort_by(path_le()));
    }
    out
}

/// Joins two path fragments with a `/`, leaving an empty fragment out.
pub open spec fn join_spec(a: Seq<u8>, b: Seq<u8>) -> Seq<u8> {
    if a.len() == 0 {
        b
    } else if b.len() == 0 {
        a
    } else {
        a + seq![47u8] + b
    }
}

/// Joins two path fragments with a `/`, leaving an empty fragment out.
pub fn join_paths(a: &Vec<u8>, b: &Vec<u8>) -> (r: Vec<u8>)
    ensures
        r@ == join_spec(a@, b@),
{
    if a.len() == 0 {
        return clone_bytes(b);
    }
    if b.len() == 0 {
        return clone_bytes(a);
    }
    let mut r = clone_bytes(a);
    r.push(47u8);
    let mut i: usize = 0;
    while i < b.len()
        invariant
            0 <= i <= b@.len(),
            r@ == a@ + seq![47u8] + b@.take(i as int),
        decreases b@.len() - i,
    {
        r.push(b[i]);
        proof {
            assert(a@ + seq![47u8] + b@.take(i + 1 as int)
                =~= (a@ + seq![47u8] + b@.take(i as int)).push(b@[i as int]));
        }
        i = i + 1;
    }
    proof {
        assert(b@.take(b@.len() as int) =~= b@);
    }
    r
}

/// Returns the relative path of every record, in lexicographic byte order:
/// the enumeration of one tree, as the unifier consumes it.
pub fn files_in_tree(records: &Vec<FileRecord>) -> (r: Vec<Vec<u8>>)
    ensures
        path_views(r@) == rec_paths(models_of(records@)).sort_by(path_le()),
{
    let mut paths: Vec<Vec<u8>> = Vec::new();
    let mut i: usize = 0;
    while i < records.len()
        invariant
            0 <= i <= records@.len(),
            path_views(paths@) =~= rec_paths(models_of(records@)).take(i as int),
        decreases records@.len() - i,
    {
        let p = clone_bytes(&records[i].path);
        let ghost old_views = path_views(paths@);
        paths.push(p);
        proof {
            assert(path_views(paths@) =~= old_views.push(records@[i as int].path@));
            assert(rec_paths(models_of(records@)).take(i + 1 as int)
                =~= rec_paths(models_of(records@)).take(i as int).push(
                records@[i as int].path@));
        }
        i = i + 1;
    }
    proof {
        assert(rec_paths(models_of(records@)).take(records@.len() as int)
            =~= rec_paths(models_of(records@)));
    }
    sort_paths(paths)
}

} // verus!
