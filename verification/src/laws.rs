//! Laws of the comparison engine.
//!
//! Each proof function here states a property of the engine that spans more
//! than one function's contract: what identical trees produce, how one-sided
//! paths are reported, and the symmetries and independences of the substance
//! comparators.  The work-distribution law — evaluating the unified path set
//! in chunks never changes the result — is the contract of
//! [`crate::compare::compare_directory_trees_chunked`] together with
//! [`crate::compare::lemma_results_split`].

use vstd::prelude::*;

use crate::compare::{
    classify_spec, engine_spec, extras_spec, find_spec, has_dup_paths, has_path,
    pair_outcome_spec, reg_files_cmp_spec, results_spec, soft_links_cmp_spec,
    sorted_unified_spec, unified_paths_spec,
};
use crate::config::Config;
use crate::data_structures::{CmpError, FileCmp, PartialFileComparison, RecordModel, SimpleFileType, TreeModel};
use crate::files::{join_spec, path_le, rec_paths};

verus! {

// ---------------------------------------------------------------------------
// Substance comparator laws.
// ---------------------------------------------------------------------------

/// Regular-file comparison is symmetric: swapping the two sides swaps
/// nothing in the verdict.
pub proof fn lemma_regular_file_comparison_symmetric(f: RecordModel, s: RecordModel)
    ensures
        reg_files_cmp_spec(f, s) == reg_files_cmp_spec(s, f),
{
}

/// Unequal sizes decide a regular-file comparison by themselves: the
/// verdict is a content mismatch whatever the contents hold — even when
/// one or both of them could not be read at all.
pub proof fn lemma_size_mismatch_short_circuits(f: RecordModel, s: RecordModel)
    requires
        f.size is Some,
        s.size is Some,
        f.size != s.size,
    ensures
        reg_files_cmp_spec(f, s) == Ok::<FileCmp, CmpError>(
            FileCmp::SubstanceRegFileContentMismatch,
        ),
{
}

/// A symbolic-link comparison reads nothing but the two target strings:
/// records agreeing on their targets get the same verdict, whatever their
/// other fields say — in particular, whether or not the targets resolve.
pub proof fn lemma_soft_link_comparison_targets_only(
    f: RecordModel,
    s: RecordModel,
    f2: RecordModel,
    s2: RecordModel,
)
    requires
        f.link_target == f2.link_target,
        s.link_target == s2.link_target,
    ensures
        soft_links_cmp_spec(f, s) == soft_links_cmp_spec(f2, s2),
{
}

/// Symbolic links with the same target string match.
pub proof fn lemma_equal_link_targets_match(f: RecordModel, s: RecordModel)
    requires
        f.link_target is Some,
        f.link_target == s.link_target,
    ensures
        soft_links_cmp_spec(f, s) == Ok::<FileCmp, CmpError>(FileCmp::Match),
{
}

/// Symbolic links with different target strings mismatch, whatever the
/// targets point at.
pub proof fn lemma_differing_link_targets_mismatch(f: RecordModel, s: RecordModel)
    requires
        f.link_target is Some,
        s.link_target is Some,
        f.link_target != s.link_target,
    ensures
        soft_links_cmp_spec(f, s) == Ok::<FileCmp, CmpError>(
            FileCmp::SubstanceSoftLinkLinkMismatch,
        ),
{
}

// ---------------------------------------------------------------------------
// Searching and membership plumbing.
// ---------------------------------------------------------------------------

/// A record is found exactly when some record carries the path, and what is
/// found carries the path.
pub proof fn lemma_find_some_iff_has_path(s: Seq<RecordModel>, p: Seq<u8>)
    ensures
        (find_spec(s, p) is Some) == has_path(s, p),
        find_spec(s, p) matches Some(r) ==> r.path == p,
    decreases s.len(),
{
    if s.len() == 0 {
        assert(!has_path(s, p));
    } else if s[0].path == p {
        assert(has_path(s, p));
    } else {
        lemma_find_some_iff_has_path(s.drop_first(), p);
        if has_path(s, p) {
            let i = choose|i: int| 0 <= i < s.len() && (#[trigger] s[i]).path == p;
            assert(s.drop_first()[i - 1] == s[i]);
            assert(has_path(s.drop_first(), p));
        }
        if has_path(s.drop_first(), p) {
            let i = choose|i: int|
                0 <= i < s.drop_first().len() && (#[trigger] s.drop_first()[i]).path == p;
            assert(s[i + 1] == s.drop_first()[i]);
            assert(has_path(s, p));
        }
    }
}

/// The second side's extras hold exactly its paths that the first side
/// lacks.
pub proof fn lemma_extras_membership(a: Seq<RecordModel>, b: Seq<RecordModel>)
    ensures
        forall|p: Seq<u8>|
            #[trigger] extras_spec(a, b).contains(p) ==> has_path(b, p) && !has_path(a, p),
        forall|p: Seq<u8>| has_path(b, p) && !has_path(a, p) ==> extras_spec(a, b).contains(p),
    decreases b.len(),
{
    if b.len() == 0 {
        assert(forall|p: Seq<u8>| !has_path(b, p));
    } else {
        lemma_extras_membership(a, b.drop_last());
        let e = extras_spec(a, b);
        let tail: Seq<Seq<u8>> = if has_path(a, b.last().path) {
            Seq::empty()
        } else {
            seq![b.last().path]
        };
        assert(e == extras_spec(a, b.drop_last()) + tail);
        assert forall|p: Seq<u8>| #[trigger] e.contains(p)
            implies has_path(b, p) && !has_path(a, p) by {
            let i = choose|i: int| 0 <= i < e.len() && e[i] == p;
            if i < extras_spec(a, b.drop_last()).len() {
                assert(extras_spec(a, b.drop_last()).contains(p));
                let j = choose|j: int|
                    0 <= j < b.drop_last().len() && (#[trigger] b.drop_last()[j]).path == p;
                assert(b[j] == b.drop_last()[j]);
                assert(has_path(b, p));
            } else {
                assert(p == b.last().path);
                assert(b[b.len() - 1].path == p);
                assert(has_path(b, p));
            }
        }
        assert forall|p: Seq<u8>| has_path(b, p) && !has_path(a, p)
            implies e.contains(p) by {
            let i = choose|i: int| 0 <= i < b.len() && (#[trigger] b[i]).path == p;
            if i < b.len() - 1 {
                assert(b.drop_last()[i] == b[i]);
                assert(has_path(b.drop_last(), p));
                assert(extras_spec(a, b.drop_last()).contains(p));
                let j = choose|j: int|
                    0 <= j < extras_spec(a, b.drop_last()).len() && extras_spec(
                        a,
                        b.drop_last(),
                    )[j] == p;
                assert(e[j] == p);
            } else {
                assert(p == b.last().path);
                assert(e[e.len() - 1] == p);
            }
        }
    }
}

/// A relative path occurs in the unified path set exactly when it occurs on
/// either side.
pub proof fn lemma_unified_membership(a: Seq<RecordModel>, b: Seq<RecordModel>)
    ensures
        forall|p: Seq<u8>|
            #[trigger] unified_paths_spec(a, b).contains(p) == (has_path(a, p) || has_path(
                b,
                p,
            )),
{
    lemma_extras_membership(a, b);
    let u = unified_paths_spec(a, b);
    assert forall|p: Seq<u8>| #[trigger] u.contains(p) == (has_path(a, p) || has_path(b, p)) by {
        if u.contains(p) {
            let i = choose|i: int| 0 <= i < u.len() && u[i] == p;
            if i < rec_paths(a).len() {
                assert(a[i].path == p);
                assert(has_path(a, p));
            } else {
                assert(extras_spec(a, b).contains(p));
            }
        }
        if has_path(a, p) {
            let i = choose|i: int| 0 <= i < a.len() && (#[trigger] a[i]).path == p;
            assert(rec_paths(a)[i] == p);
            assert(u[i] == p);
            assert(u.contains(p));
        } else if has_path(b, p) {
            assert(extras_spec(a, b).contains(p));
            let j = choose|j: int|
                0 <= j < extras_spec(a, b).len() && extras_spec(a, b)[j] == p;
            assert(u[rec_paths(a).len() + j] == p);
            assert(u.contains(p));
        }
    }
}

/// Sorting the unified path set neither adds nor loses a path.
pub proof fn lemma_sorted_unified_membership(a: Seq<RecordModel>, b: Seq<RecordModel>)
    ensures
        forall|p: Seq<u8>|
            #[trigger] sorted_unified_spec(a, b).contains(p) == (has_path(a, p) || has_path(
                b,
                p,
            )),
{
    broadcast use vstd::seq_lib::group_to_multiset_ensures;
    broadcast use vstd::multiset::group_multiset_axioms;

    crate::files::lemma_path_le_total_ordering();
    let u = unified_paths_spec(a, b);
    u.lemma_sort_by_ensures(path_le());
    lemma_unified_membership(a, b);
    let su = sorted_unified_spec(a, b);
    assert(u.to_multiset() == su.to_multiset());
    assert forall|p: Seq<u8>| #[trigger] su.contains(p) == u.contains(p) by {
        assert(u.contains(p) <==> u.to_multiset().count(p) > 0);
        assert(su.contains(p) <==> su.to_multiset().count(p) > 0);
    }
}

/// An outcome the pipeline reaches for a path of the evaluated list stands
/// in the engine's result set.
pub proof fn lemma_results_contains(
    conf: Config,
    a: Seq<RecordModel>,
    b: Seq<RecordModel>,
    rels: Seq<Seq<u8>>,
    rel: Seq<u8>,
)
    requires
        rels.contains(rel),
        pair_outcome_spec(conf, a, b, rel) is Ok,
    ensures
        results_spec(conf, a, b, rels).contains(
            (rel, pair_outcome_spec(conf, a, b, rel)->Ok_0),
        ),
    decreases rels.len(),
{
    let rs = results_spec(conf, a, b, rels);
    let entry = (rel, pair_outcome_spec(conf, a, b, rel)->Ok_0);
    if rels.last() == rel {
        assert(rs[rs.len() - 1] == entry);
    } else {
        let i = choose|i: int| 0 <= i < rels.len() && rels[i] == rel;
        assert(rels.drop_last()[i] == rel);
        assert(rels.drop_last().contains(rel));
        lemma_results_contains(conf, a, b, rels.drop_last(), rel);
        let sub = results_spec(conf, a, b, rels.drop_last());
        let j = choose|j: int| 0 <= j < sub.len() && sub[j] == entry;
        assert(rs[j] == entry);
    }
}

// ---------------------------------------------------------------------------
// Whole-tree laws.
// ---------------------------------------------------------------------------

/// Classifying a record against itself can only match or fail.
pub proof fn lemma_identical_record_matches(conf: Config, r: RecordModel)
    ensures
        classify_spec(conf, Some(r), Some(r)) matches Ok(p) ==> p.file_cmp == FileCmp::Match,
{
}

/// Every outcome the engine produces over a list of paths present in the
/// tree compared with itself is a match.
proof fn lemma_results_all_match(conf: Config, recs: Seq<RecordModel>, rels: Seq<Seq<u8>>)
    requires
        forall|k: int| 0 <= k < rels.len() ==> has_path(recs, #[trigger] rels[k]),
    ensures
        forall|k: int|
            0 <= k < results_spec(conf, recs, recs, rels).len()
                ==> (#[trigger] results_spec(conf, recs, recs, rels)[k]).1.file_cmp
                == FileCmp::Match,
    decreases rels.len(),
{
    if rels.len() > 0 {
        lemma_results_all_match(conf, recs, rels.drop_last());
        let rel = rels.last();
        assert(has_path(recs, rel));
        lemma_find_some_iff_has_path(recs, rel);
        let found = find_spec(recs, rel)->Some_0;
        lemma_identical_record_matches(conf, found);
        let rs = results_spec(conf, recs, recs, rels);
        let sub = results_spec(conf, recs, recs, rels.drop_last());
        assert forall|k: int| 0 <= k < rs.len()
            implies (#[trigger] rs[k]).1.file_cmp == FileCmp::Match by {
            if k < sub.len() {
                assert(rs[k] == sub[k]);
            }
        }
    }
}

/// Comparing a tree with an identical enumeration of itself yields a full
/// match on every path the engine reports, whatever the configuration.
pub proof fn lemma_identical_trees_all_match(conf: Config, t: TreeModel, u: TreeModel)
    requires
        t.records == u.records,
    ensures
        forall|k: int|
            0 <= k < engine_spec(conf, t, u).len()
                ==> (#[trigger] engine_spec(conf, t, u)[k]).partial_cmp.file_cmp == FileCmp::Match,
{
    let recs = t.records;
    let srels = sorted_unified_spec(recs, recs);
    lemma_sorted_unified_membership(recs, recs);
    assert forall|k: int| 0 <= k < srels.len()
        implies has_path(recs, #[trigger] srels[k]) by {
        assert(srels.contains(srels[k]));
    }
    lemma_results_all_match(conf, recs, srels);
    let rs = results_spec(conf, recs, recs, srels);
    let m = engine_spec(conf, t, u);
    assert forall|k: int| 0 <= k < m.len()
        implies (#[trigger] m[k]).partial_cmp.file_cmp == FileCmp::Match by {
        assert(m[k].partial_cmp == rs[k].1);
    }
}

/// A path present on the first side only is reported as existing only
/// there, with the first side's kind, together with the full paths both
/// roots give it — and so is, by the same token, every enumerated
/// descendant of a directory missing on the second side.
pub proof fn lemma_one_sided_path_reported(
    conf: Config,
    a: TreeModel,
    b: TreeModel,
    rel: Seq<u8>,
)
    requires
        has_path(a.records, rel),
        !has_path(b.records, rel),
        find_spec(a.records, rel) matches Some(r) && r.kind is Some,
    ensures
        exists|k: int|
            0 <= k < engine_spec(conf, a, b).len()
                && (#[trigger] engine_spec(conf, a, b)[k]).partial_cmp.file_cmp
                == FileCmp::ExistenceOnlyFirstFile
                && engine_spec(conf, a, b)[k].partial_cmp.first_ft == find_spec(
                a.records,
                rel,
            )->Some_0.kind
                && engine_spec(conf, a, b)[k].partial_cmp.second_ft is None
                && engine_spec(conf, a, b)[k].first_path == join_spec(a.root, rel)
                && engine_spec(conf, a, b)[k].second_path == join_spec(b.root, rel),
{
    let srels = sorted_unified_spec(a.records, b.records);
    lemma_sorted_unified_membership(a.records, b.records);
    assert(srels.contains(rel));
    lemma_find_some_iff_has_path(a.records, rel);
    lemma_find_some_iff_has_path(b.records, rel);
    lemma_results_contains(conf, a.records, b.records, srels, rel);
    let rs = results_spec(conf, a.records, b.records, srels);
    let p = pair_outcome_spec(conf, a.records, b.records, rel)->Ok_0;
    let j = choose|j: int| 0 <= j < rs.len() && rs[j] == (rel, p);
    let m = engine_spec(conf, a, b);
    assert(m[j].partial_cmp == p);
    assert(m[j].first_path == join_spec(join_spec(a.root, Seq::<u8>::empty()), rel));
    assert(join_spec(a.root, Seq::<u8>::empty()) == a.root);
    assert(join_spec(b.root, Seq::<u8>::empty()) == b.root);
}

/// Every outcome in the engine's result list is the verdict of one of the
/// evaluated paths.
proof fn lemma_results_rels_membership(
    conf: Config,
    a: Seq<RecordModel>,
    b: Seq<RecordModel>,
    rels: Seq<Seq<u8>>,
)
    ensures
        forall|k: int|
            0 <= k < results_spec(conf, a, b, rels).len() ==> rels.contains(
                (#[trigger] results_spec(conf, a, b, rels)[k]).0,
            ),
    decreases rels.len(),
{
    if rels.len() > 0 {
        lemma_results_rels_membership(conf, a, b, rels.drop_last());
        let rs = results_spec(conf, a, b, rels);
        let sub = results_spec(conf, a, b, rels.drop_last());
        assert forall|k: int| 0 <= k < rs.len() implies rels.contains(
            (#[trigger] rs[k]).0,
        ) by {
            if k < sub.len() {
                assert(rs[k] == sub[k]);
                assert(rels.drop_last().contains(sub[k].0));
                let i = choose|i: int|
                    0 <= i < rels.drop_last().len() && rels.drop_last()[i] == sub[k].0;
                assert(rels[i] == sub[k].0);
            } else {
                assert(rs[k].0 == rels.last());
                assert(rels[rels.len() - 1] == rels.last());
            }
        }
    }
}

/// Over a duplicate-free path list the engine reports each path at most
/// once.
proof fn lemma_results_paths_unique(
    conf: Config,
    a: Seq<RecordModel>,
    b: Seq<RecordModel>,
    rels: Seq<Seq<u8>>,
)
    requires
        rels.no_duplicates(),
    ensures
        forall|k1: int, k2: int|
            0 <= k1 < k2 < results_spec(conf, a, b, rels).len()
                ==> (#[trigger] results_spec(conf, a, b, rels)[k1]).0 != (
                #[trigger] results_spec(conf, a, b, rels)[k2]).0,
    decreases rels.len(),
{
    if rels.len() > 0 {
        let sub_rels = rels.drop_last();
        assert(forall|i: int, j: int|
            0 <= i < j < sub_rels.len() ==> (#[trigger] sub_rels[i]) != (#[trigger] sub_rels[j]));
        lemma_results_paths_unique(conf, a, b, sub_rels);
        lemma_results_rels_membership(conf, a, b, sub_rels);
        let rs = results_spec(conf, a, b, rels);
        let sub = results_spec(conf, a, b, sub_rels);
        assert forall|k1: int, k2: int| 0 <= k1 < k2 < rs.len()
            implies (#[trigger] rs[k1]).0 != (#[trigger] rs[k2]).0 by {
            if k2 < sub.len() {
                assert(rs[k1] == sub[k1] && rs[k2] == sub[k2]);
            } else {
                assert(rs[k2].0 == rels.last());
                assert(rs[k1] == sub[k1]);
                assert(sub_rels.contains(sub[k1].0));
                let i = choose|i: int| 0 <= i < sub_rels.len() && sub_rels[i] == sub[k1].0;
                assert(rels[i] == sub[k1].0);
                assert(rels[rels.len() - 1] == rels.last());
            }
        }
    }
}

/// The engine produces at most one outcome per relative path, and skips a
/// path of the unified set only when its classification failed: together,
/// exactly one outcome stands per classifiable path present on either side.
pub proof fn lemma_one_outcome_per_path(conf: Config, a: TreeModel, b: TreeModel, rel: Seq<u8>)
    requires
        !has_dup_paths(a.records),
        !has_dup_paths(b.records),
    ensures
        ({
            let rs = results_spec(
                conf,
                a.records,
                b.records,
                sorted_unified_spec(a.records, b.records),
            );
            &&& forall|k1: int, k2: int|
                0 <= k1 < k2 < rs.len() ==> (#[trigger] rs[k1]).0 != (#[trigger] rs[k2]).0
            &&& ((has_path(a.records, rel) || has_path(b.records, rel))
                && pair_outcome_spec(conf, a.records, b.records, rel) is Ok ==> exists|k: int|
                0 <= k < rs.len() && (#[trigger] rs[k]).0 == rel)
        }),
{
    let srels = sorted_unified_spec(a.records, b.records);
    let rs = results_spec(conf, a.records, b.records, srels);
    lemma_sorted_unified_no_duplicates(a.records, b.records);
    lemma_results_paths_unique(conf, a.records, b.records, srels);
    if (has_path(a.records, rel) || has_path(b.records, rel)) && pair_outcome_spec(
        conf,
        a.records,
        b.records,
        rel,
    ) is Ok {
        lemma_sorted_unified_membership(a.records, b.records);
        lemma_results_contains(conf, a.records, b.records, srels, rel);
        let entry = (rel, pair_outcome_spec(conf, a.records, b.records, rel)->Ok_0);
        let k = choose|k: int| 0 <= k < rs.len() && rs[k] == entry;
        assert(rs[k].0 == rel);
    }
}

/// Every outcome the engine produces over any path list is well-formed.
proof fn lemma_results_wf(
    conf: Config,
    a: Seq<RecordModel>,
    b: Seq<RecordModel>,
    rels: Seq<Seq<u8>>,
)
    ensures
        forall|k: int|
            0 <= k < results_spec(conf, a, b, rels).len()
                ==> (#[trigger] results_spec(conf, a, b, rels)[k]).1.wf(),
    decreases rels.len(),
{
    if rels.len() > 0 {
        lemma_results_wf(conf, a, b, rels.drop_last());
        let rs = results_spec(conf, a, b, rels);
        let sub = results_spec(conf, a, b, rels.drop_last());
        crate::compare::lemma_classify_wf(
            conf,
            find_spec(a, rels.last()),
            find_spec(b, rels.last()),
        );
        assert forall|k: int| 0 <= k < rs.len() implies (#[trigger] rs[k]).1.wf() by {
            if k < sub.len() {
                assert(rs[k] == sub[k]);
            }
        }
    }
}

/// Every comparison the engine reports satisfies the well-formedness
/// invariant of [`PartialFileComparison`]: kinds are present exactly for
/// the sides that exist, so the result set is fit for totals accumulation.
pub proof fn lemma_engine_outcomes_wf(conf: Config, a: TreeModel, b: TreeModel)
    ensures
        forall|k: int|
            0 <= k < engine_spec(conf, a, b).len()
                ==> (#[trigger] engine_spec(conf, a, b)[k]).partial_cmp.wf(),
{
    let srels = sorted_unified_spec(a.records, b.records);
    lemma_results_wf(conf, a.records, b.records, srels);
    let rs = results_spec(conf, a.records, b.records, srels);
    let m = engine_spec(conf, a, b);
    assert forall|k: int| 0 <= k < m.len() implies (#[trigger] m[k]).partial_cmp.wf() by {
        assert(m[k].partial_cmp == rs[k].1);
    }
}

// ---------------------------------------------------------------------------
// A single differing regular file.
// ---------------------------------------------------------------------------

/// How many outcomes in an engine result list are content mismatches.
pub open spec fn count_content_mismatch(rs: Seq<(Seq<u8>, PartialFileComparison)>) -> nat
    decreases rs.len(),
{
    if rs.len() == 0 {
        0
    } else {
        count_content_mismatch(rs.drop_last()) + if rs.last().1.file_cmp
            == FileCmp::SubstanceRegFileContentMismatch {
            1nat
        } else {
            0nat
        }
    }
}

/// Without duplicate paths, searching for a record's own path finds exactly
/// that record.
pub proof fn lemma_find_unique(s: Seq<RecordModel>, i: int)
    requires
        !has_dup_paths(s),
        0 <= i < s.len(),
    ensures
        find_spec(s, s[i].path) == Some(s[i]),
    decreases i,
{
    if i == 0 {
    } else {
        assert(s[0].path != s[i].path);
        assert(!has_dup_paths(s.drop_first())) by {
            if has_dup_paths(s.drop_first()) {
                let (p, q) = choose|p: int, q: int|
                    0 <= p < q < s.drop_first().len() && (#[trigger] s.drop_first()[p]).path == (
                    #[trigger] s.drop_first()[q]).path;
                assert(s[p + 1].path == s[q + 1].path);
            }
        }
        assert(s.drop_first()[i - 1] == s[i]);
        lemma_find_unique(s.drop_first(), i - 1);
    }
}

/// Two record lists that agree everywhere except at one index, where the
/// paths still agree, are searched identically for every other path.
proof fn lemma_find_agrees_except(
    a: Seq<RecordModel>,
    b: Seq<RecordModel>,
    idx: int,
    rel: Seq<u8>,
)
    requires
        a.len() == b.len(),
        0 <= idx < a.len(),
        forall|i: int| 0 <= i < a.len() && i != idx ==> a[i] == b[i],
        a[idx].path == b[idx].path,
        rel != a[idx].path,
    ensures
        find_spec(a, rel) == find_spec(b, rel),
    decreases a.len(),
{
    assert(a[0].path == b[0].path);
    if a[0].path == rel {
    } else if idx == 0 {
        assert(a.drop_first() =~= b.drop_first());
    } else {
        assert(forall|i: int|
            0 <= i < a.drop_first().len() && i != idx - 1 ==> (#[trigger] a.drop_first()[i])
                == b.drop_first()[i]);
        assert(a.drop_first()[idx - 1] == a[idx]);
        assert(b.drop_first()[idx - 1] == b[idx]);
        lemma_find_agrees_except(a.drop_first(), b.drop_first(), idx - 1, rel);
    }
}

/// Over a path list on which the pipeline never reaches a content
/// mismatch, the engine reports none.
proof fn lemma_count_zero(
    conf: Config,
    a: Seq<RecordModel>,
    b: Seq<RecordModel>,
    rels: Seq<Seq<u8>>,
)
    requires
        forall|k: int|
            0 <= k < rels.len() ==> !(pair_outcome_spec(conf, a, b, #[trigger] rels[k]) matches Ok(
                p,
            ) && p.file_cmp == FileCmp::SubstanceRegFileContentMismatch),
    ensures
        count_content_mismatch(results_spec(conf, a, b, rels)) == 0,
    decreases rels.len(),
{
    if rels.len() > 0 {
        assert(forall|k: int|
            0 <= k < rels.drop_last().len() ==> (#[trigger] rels.drop_last()[k]) == rels[k]);
        lemma_count_zero(conf, a, b, rels.drop_last());
        assert(rels[rels.len() - 1] == rels.last());
        let rs = results_spec(conf, a, b, rels);
        let sub = results_spec(conf, a, b, rels.drop_last());
        match pair_outcome_spec(conf, a, b, rels.last()) {
            Ok(p) => {
                assert(p.file_cmp != FileCmp::SubstanceRegFileContentMismatch);
                assert(rs.drop_last() =~= sub);
                assert(rs.last() == (rels.last(), p));
                assert(count_content_mismatch(rs) == count_content_mismatch(sub));
            },
            Err(_) => {
                assert(rs =~= sub);
            },
        }
    }
}

/// Over a duplicate-free path list holding exactly one path whose verdict
/// is a content mismatch, the engine reports exactly one.
proof fn lemma_count_one(
    conf: Config,
    a: Seq<RecordModel>,
    b: Seq<RecordModel>,
    rels: Seq<Seq<u8>>,
    tpath: Seq<u8>,
)
    requires
        rels.no_duplicates(),
        rels.contains(tpath),
        pair_outcome_spec(conf, a, b, tpath) matches Ok(p) && p.file_cmp
            == FileCmp::SubstanceRegFileContentMismatch,
        forall|k: int|
            0 <= k < rels.len() && rels[k] != tpath ==> !(pair_outcome_spec(
                conf,
                a,
                b,
                #[trigger] rels[k],
            ) matches Ok(p) && p.file_cmp == FileCmp::SubstanceRegFileContentMismatch),
    ensures
        count_content_mismatch(results_spec(conf, a, b, rels)) == 1,
    decreases rels.len(),
{
    let sub = rels.drop_last();
    let rs = results_spec(conf, a, b, rels);
    let subr = results_spec(conf, a, b, sub);
    assert(rels[rels.len() - 1] == rels.last());
    if rels.last() == tpath {
        assert(forall|k: int|
            0 <= k < sub.len() ==> (#[trigger] sub[k]) == rels[k] && rels[k] != tpath);
        lemma_count_zero(conf, a, b, sub);
        let p = pair_outcome_spec(conf, a, b, tpath)->Ok_0;
        assert(rs.drop_last() =~= subr);
        assert(rs.last() == (tpath, p));
        assert(count_content_mismatch(rs) == count_content_mismatch(subr) + 1);
    } else {
        let i = choose|i: int| 0 <= i < rels.len() && rels[i] == tpath;
        assert(i < rels.len() - 1);
        assert(sub[i] == tpath);
        assert(sub.contains(tpath));
        assert(forall|k: int| 0 <= k < sub.len() ==> (#[trigger] sub[k]) == rels[k]);
        lemma_count_one(conf, a, b, sub, tpath);
        match pair_outcome_spec(conf, a, b, rels.last()) {
            Ok(p) => {
                assert(p.file_cmp != FileCmp::SubstanceRegFileContentMismatch);
                assert(rs.drop_last() =~= subr);
                assert(rs.last() == (rels.last(), p));
                assert(count_content_mismatch(rs) == count_content_mismatch(subr));
            },
            Err(_) => {
                assert(rs =~= subr);
            },
        }
    }
}

/// A positive mismatch count names a mismatching entry.
proof fn lemma_count_positive_exists(rs: Seq<(Seq<u8>, PartialFileComparison)>)
    requires
        count_content_mismatch(rs) > 0,
    ensures
        exists|k: int|
            0 <= k < rs.len() && (#[trigger] rs[k]).1.file_cmp
                == FileCmp::SubstanceRegFileContentMismatch,
    decreases rs.len(),
{
    if rs.last().1.file_cmp == FileCmp::SubstanceRegFileContentMismatch {
        assert(rs[rs.len() - 1] == rs.last());
    } else {
        lemma_count_positive_exists(rs.drop_last());
        let k = choose|k: int|
            0 <= k < rs.drop_last().len() && (#[trigger] rs.drop_last()[k]).1.file_cmp
                == FileCmp::SubstanceRegFileContentMismatch;
        assert(rs[k] == rs.drop_last()[k]);
    }
}

/// The second side's extras are duplicate-free when the second side is.
proof fn lemma_extras_no_duplicates(a: Seq<RecordModel>, b: Seq<RecordModel>)
    requires
        !has_dup_paths(b),
    ensures
        extras_spec(a, b).no_duplicates(),
    decreases b.len(),
{
    if b.len() > 0 {
        assert(!has_dup_paths(b.drop_last())) by {
            if has_dup_paths(b.drop_last()) {
                let (p, q) = choose|p: int, q: int|
                    0 <= p < q < b.drop_last().len() && (#[trigger] b.drop_last()[p]).path == (
                    #[trigger] b.drop_last()[q]).path;
                assert(b[p].path == b[q].path);
            }
        }
        lemma_extras_no_duplicates(a, b.drop_last());
        lemma_extras_membership(a, b.drop_last());
        let e = extras_spec(a, b);
        let sub = extras_spec(a, b.drop_last());
        if !has_path(a, b.last().path) {
            assert(!sub.contains(b.last().path)) by {
                if sub.contains(b.last().path) {
                    assert(has_path(b.drop_last(), b.last().path));
                    let j = choose|j: int|
                        0 <= j < b.drop_last().len() && (#[trigger] b.drop_last()[j]).path
                            == b.last().path;
                    assert(b[j].path == b[b.len() - 1].path);
                }
            }
            assert forall|p: int, q: int| 0 <= p < q < e.len() implies e[p] != e[q] by {
                if q < sub.len() {
                    assert(sub[p] != sub[q]);
                } else {
                    assert(e[q] == b.last().path);
                    assert(e[p] == sub[p]);
                    assert(sub.contains(sub[p]));
                }
            }
        } else {
            assert(e =~= sub);
        }
    }
}

/// The unified path set of duplicate-free snapshots is duplicate-free,
/// before and after sorting.
pub proof fn lemma_sorted_unified_no_duplicates(a: Seq<RecordModel>, b: Seq<RecordModel>)
    requires
        !has_dup_paths(a),
        !has_dup_paths(b),
    ensures
        sorted_unified_spec(a, b).no_duplicates(),
{
    broadcast use vstd::seq_lib::group_to_multiset_ensures;
    broadcast use vstd::multiset::group_multiset_axioms;

    let u = unified_paths_spec(a, b);
    lemma_extras_no_duplicates(a, b);
    lemma_extras_membership(a, b);
    let ap = rec_paths(a);
    let e = extras_spec(a, b);
    assert forall|p: int, q: int| 0 <= p < q < u.len() implies u[p] != u[q] by {
        if q < ap.len() {
            assert(a[p].path == ap[p] && a[q].path == ap[q]);
        } else if p >= ap.len() {
            assert(u[p] == e[p - ap.len()] && u[q] == e[q - ap.len()]);
        } else {
            assert(u[q] == e[q - ap.len()]);
            assert(e.contains(e[q - ap.len()]));
            assert(!has_path(a, u[q]));
            assert(u[p] == a[p].path);
            if u[p] == u[q] {
                assert(has_path(a, u[q]));
            }
        }
    }
    u.lemma_multiset_has_no_duplicates();
    crate::files::lemma_path_le_total_ordering();
    u.lemma_sort_by_ensures(path_le());
    let su = sorted_unified_spec(a, b);
    assert(su.to_multiset() == u.to_multiset());
    su.lemma_multiset_has_no_duplicates_conv();
}

/// One differing regular file among otherwise identical enumerations is
/// reported as exactly one content mismatch; every other verdict the
/// engine reports is something else.
pub proof fn lemma_single_difference_one_mismatch(
    conf: Config,
    a: TreeModel,
    b: TreeModel,
    idx: int,
)
    requires
        !has_dup_paths(a.records),
        a.records.len() == b.records.len(),
        0 <= idx < a.records.len(),
        forall|i: int|
            0 <= i < a.records.len() && i != idx ==> a.records[i] == (#[trigger] b.records[i]),
        a.records[idx].path == b.records[idx].path,
        a.records[idx].kind == Some(SimpleFileType::RegFile),
        b.records[idx].kind == Some(SimpleFileType::RegFile),
        reg_files_cmp_spec(a.records[idx], b.records[idx]) == Ok::<FileCmp, CmpError>(
            FileCmp::SubstanceRegFileContentMismatch,
        ),
    ensures
        count_content_mismatch(
            results_spec(
                conf,
                a.records,
                b.records,
                sorted_unified_spec(a.records, b.records),
            ),
        ) == 1,
        exists|k: int|
            0 <= k < engine_spec(conf, a, b).len()
                && (#[trigger] engine_spec(conf, a, b)[k]).partial_cmp.file_cmp
                == FileCmp::SubstanceRegFileContentMismatch,
{
    let ar = a.records;
    let br = b.records;
    let tpath = ar[idx].path;
    assert(!has_dup_paths(br)) by {
        if has_dup_paths(br) {
            let (p, q) = choose|p: int, q: int|
                0 <= p < q < br.len() && (#[trigger] br[p]).path == (#[trigger] br[q]).path;
            assert(ar[p].path == br[p].path);
            assert(ar[q].path == br[q].path);
        }
    }
    let srels = sorted_unified_spec(ar, br);
    lemma_sorted_unified_no_duplicates(ar, br);
    lemma_sorted_unified_membership(ar, br);
    assert(has_path(ar, tpath));
    assert(srels.contains(tpath));
    // The differing path's verdict is a content mismatch.
    lemma_find_unique(ar, idx);
    lemma_find_unique(br, idx);
    assert(find_spec(ar, tpath) == Some(ar[idx]));
    assert(find_spec(br, tpath) == Some(br[idx]));
    assert(pair_outcome_spec(conf, ar, br, tpath) matches Ok(p) && p.file_cmp
        == FileCmp::SubstanceRegFileContentMismatch);
    // Every other path's verdict comes from identical records.
    assert forall|k: int| 0 <= k < srels.len() && srels[k] != tpath
        implies !(pair_outcome_spec(conf, ar, br, #[trigger] srels[k]) matches Ok(p)
            && p.file_cmp == FileCmp::SubstanceRegFileContentMismatch) by {
        let rel = srels[k];
        lemma_find_agrees_except(ar, br, idx, rel);
        match find_spec(ar, rel) {
            Some(r) => {
                lemma_identical_record_matches(conf, r);
            },
            None => {},
        }
    }
    lemma_count_one(conf, ar, br, srels, tpath);
    let rs = results_spec(conf, ar, br, srels);
    lemma_count_positive_exists(rs);
    let k = choose|k: int|
        0 <= k < rs.len() && (#[trigger] rs[k]).1.file_cmp
            == FileCmp::SubstanceRegFileContentMismatch;
    assert(engine_spec(conf, a, b)[k].partial_cmp == rs[k].1);
}

} // verus!
