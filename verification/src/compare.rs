//! The staged comparison pipeline and the tree-comparison engine.
//!
//! One relative path is classified by four short-circuiting stages:
//! existence, file type, substance (byte content or link target) and,
//! when configured, modification time.  The engine runs the pipeline over
//! the unified path set of two tree snapshots and collects one
//! [`FullFileComparison`] per path whose classification succeeded;
//! per-path failures are dropped from the result set.

use vstd::prelude::*;

use crate::config::Config;
use crate::data_structures::{
    CmpError, ComparisonContext, ContextModel, EngineError, FileCmp, FileRecord, FullCmpModel,
    FullFileComparison, PartialFileComparison, RecordModel, SimpleFileType, TreeModel,
    TreeSnapshot,
};
use crate::files::{
    join_paths, join_spec, models_of, path_le, path_views, rec_paths, sort_paths,
};
use crate::order::{bytes_eq, clone_bytes};

verus! {

/// Size of the buffers used for chunked content comparison.
pub const BYTE_COUNT: usize = 8192;

// ---------------------------------------------------------------------------
// The pipeline, as mathematics.
// ---------------------------------------------------------------------------

/// Substance comparison of two regular files: unequal sizes short-circuit
/// to a mismatch without consulting the contents; equal sizes require both
/// contents, which decide by byte equality.
pub open spec fn reg_files_cmp_spec(f: RecordModel, s: RecordModel) -> Result<FileCmp, CmpError> {
    match (f.size, s.size) {
        (Some(n1), Some(n2)) => {
            if n1 != n2 {
                Ok(FileCmp::SubstanceRegFileContentMismatch)
            } else {
                match (f.content, s.content) {
                    (Some(c1), Some(c2)) => {
                        if c1 == c2 {
                            Ok(FileCmp::Match)
                        } else {
                            Ok(FileCmp::SubstanceRegFileContentMismatch)
                        }
                    },
                    _ => Err(CmpError::FileReadError),
                }
            }
        },
        _ => Err(CmpError::MetadataError),
    }
}

/// Substance comparison of two symbolic links: the literal target strings
/// decide, whether or not the targets resolve.
pub open spec fn soft_links_cmp_spec(f: RecordModel, s: RecordModel) -> Result<FileCmp, CmpError> {
    match (f.link_target, s.link_target) {
        (Some(t1), Some(t2)) => {
            if t1 == t2 {
                Ok(FileCmp::Match)
            } else {
                Ok(FileCmp::SubstanceSoftLinkLinkMismatch)
            }
        },
        _ => Err(CmpError::LinkReadError),
    }
}

/// Substance comparison dispatched on the common file kind.  Two
/// directories always match: their structural comparison happens through
/// the unified path set, not here.
pub open spec fn substance_cmp_spec(
    kind: SimpleFileType,
    f: RecordModel,
    s: RecordModel,
) -> Result<FileCmp, CmpError> {
    match kind {
        SimpleFileType::Directory => Ok(FileCmp::Match),
        SimpleFileType::RegFile => reg_files_cmp_spec(f, s),
        SimpleFileType::SoftLink => soft_links_cmp_spec(f, s),
    }
}

/// The file-type stage: both kinds must be supported, and the verdict is
/// decided by their equality.
pub open spec fn file_types_cmp_spec(f: RecordModel, s: RecordModel) -> Result<
    (FileCmp, SimpleFileType, SimpleFileType),
    CmpError,
> {
    match (f.kind, s.kind) {
        (Some(k1), Some(k2)) => Ok(
            (
                if k1 == k2 {
                    FileCmp::Match
                } else {
                    FileCmp::FileTypeMismatch
                },
                k1,
                k2,
            ),
        ),
        _ => Err(CmpError::UnsupportedFileType),
    }
}

/// The modification time the pipeline compares: the link's own timestamp
/// for a symbolic link unless links are followed, the entry's timestamp
/// otherwise.
pub open spec fn mtime_of_spec(follow: bool, kind: SimpleFileType, r: RecordModel) -> Option<
    u128,
> {
    if kind is SoftLink && !follow {
        r.mtime
    } else {
        r.mtime_followed
    }
}

/// Modification time comparison of two entries of the same kind.
pub open spec fn mtime_cmp_spec(
    follow: bool,
    kind: SimpleFileType,
    f: RecordModel,
    s: RecordModel,
) -> Result<FileCmp, CmpError> {
    match (mtime_of_spec(follow, kind, f), mtime_of_spec(follow, kind, s)) {
        (Some(m1), Some(m2)) => {
            if m1 == m2 {
                Ok(FileCmp::Match)
            } else {
                Ok(FileCmp::ModificationTimeMismatch)
            }
        },
        _ => Err(CmpError::MetadataError),
    }
}

/// The whole pipeline for one relative path: `f` and `s` are the records
/// found under the first and second root (`None` where the path does not
/// exist on that side).
pub open spec fn classify_spec(
    conf: Config,
    f: Option<RecordModel>,
    s: Option<RecordModel>,
) -> Result<PartialFileComparison, CmpError> {
    match (f, s) {
        (None, None) => Ok(
            PartialFileComparison {
                file_cmp: FileCmp::ExistenceNeitherFile,
                first_ft: None,
                second_ft: None,
            },
        ),
        (Some(fr), None) => match fr.kind {
            Some(k) => Ok(
                PartialFileComparison {
                    file_cmp: FileCmp::ExistenceOnlyFirstFile,
                    first_ft: Some(k),
                    second_ft: None,
                },
            ),
            None => Err(CmpError::UnsupportedFileType),
        },
        (None, Some(sr)) => match sr.kind {
            Some(k) => Ok(
                PartialFileComparison {
                    file_cmp: FileCmp::ExistenceOnlySecondFile,
                    first_ft: None,
                    second_ft: Some(k),
                },
            ),
            None => Err(CmpError::UnsupportedFileType),
        },
        (Some(fr), Some(sr)) => match (fr.kind, sr.kind) {
            (Some(k1), Some(k2)) => {
                if k1 != k2 {
                    Ok(
                        PartialFileComparison {
                            file_cmp: FileCmp::FileTypeMismatch,
                            first_ft: Some(k1),
                            second_ft: Some(k2),
                        },
                    )
                } else {
                    match substance_cmp_spec(k1, fr, sr) {
                        Err(e) => Err(e),
                        Ok(c) => {
                            if c != FileCmp::Match {
                                Ok(
                                    PartialFileComparison {
                                        file_cmp: c,
                                        first_ft: Some(k1),
                                        second_ft: Some(k2),
                                    },
                                )
                            } else if conf.compare_modification_times {
                                match mtime_cmp_spec(conf.follow_softlinks, k1, fr, sr) {
                                    Err(e) => Err(e),
                                    Ok(c2) => Ok(
                                        PartialFileComparison {
                                            file_cmp: c2,
                                            first_ft: Some(k1),
                                            second_ft: Some(k2),
                                        },
                                    ),
                                }
                            } else {
                                Ok(
                                    PartialFileComparison {
                                        file_cmp: FileCmp::Match,
                                        first_ft: Some(k1),
                                        second_ft: Some(k2),
                                    },
                                )
                            }
                        },
                    }
                }
            },
            _ => Err(CmpError::UnsupportedFileType),
        },
    }
}

/// The model of an optional record reference.
pub open spec fn opt_model(o: Option<&FileRecord>) -> Option<RecordModel> {
    match o {
        Some(r) => Some(r@),
        None => None,
    }
}

/// Every comparison the pipeline produces satisfies the well-formedness
/// invariant of [`PartialFileComparison`].
pub proof fn lemma_classify_wf(conf: Config, f: Option<RecordModel>, s: Option<RecordModel>)
    ensures
        classify_spec(conf, f, s) matches Ok(p) ==> p.wf(),
{
}

// ---------------------------------------------------------------------------
// The pipeline, executable and verified.
// ---------------------------------------------------------------------------

/// Compares two byte strings the way the regular-file comparator reads
/// files: in chunks of [`BYTE_COUNT`] bytes, stopping at the first
/// difference, and comparing only bytes that were actually read.
fn contents_equal(a: &Vec<u8>, b: &Vec<u8>) -> (r: bool)
    ensures
        r == (a@ == b@),
{
    if a.len() != b.len() {
        return false;
    }
    let mut pos: usize = 0;
    while pos < a.len()
        invariant
            0 <= pos <= a@.len(),
            a@.len() == b@.len(),
            forall|j: int| 0 <= j < pos ==> a@[j] == b@[j],
        decreases a@.len() - pos,
    {
        let end: usize = if a.len() - pos < BYTE_COUNT {
            a.len()
        } else {
            pos + BYTE_COUNT
        };
        while pos < end
            invariant
                0 <= pos <= end <= a@.len(),
                a@.len() == b@.len(),
                forall|j: int| 0 <= j < pos ==> a@[j] == b@[j],
            decreases end - pos,
        {
            if a[pos] != b[pos] {
                proof {
                    assert(a@[pos as int] != b@[pos as int]);
                }
                return false;
            }
            pos = pos + 1;
        }
    }
    proof {
        assert(a@ =~= b@);
    }
    true
}

/// Substance comparison of two regular files.  Unequal sizes decide
/// without the contents being available at all; equal sizes require both
/// contents and compare them byte for byte.
pub fn compare_regular_files(first: &FileRecord, second: &FileRecord) -> (r: Result<
    FileCmp,
    CmpError,
>)
    ensures
        r == reg_files_cmp_spec(first@, second@),
{
    let n1 = match first.size {
        Some(n) => n,
        None => {
            return Err(CmpError::MetadataError);
        },
    };
    let n2 = match second.size {
        Some(n) => n,
        None => {
            return Err(CmpError::MetadataError);
        },
    };
    if n1 != n2 {
        return Ok(FileCmp::SubstanceRegFileContentMismatch);
    }
    match (&first.content, &second.content) {
        (Some(c1), Some(c2)) => {
            if contents_equal(c1, c2) {
                Ok(FileCmp::Match)
            } else {
                Ok(FileCmp::SubstanceRegFileContentMismatch)
            }
        },
        _ => Err(CmpError::FileReadError),
    }
}

/// Substance comparison of two symbolic links by their literal target
/// strings.
pub fn compare_soft_links(first: &FileRecord, second: &FileRecord) -> (r: Result<
    FileCmp,
    CmpError,
>)
    ensures
        r == soft_links_cmp_spec(first@, second@),
{
    match (&first.link_target, &second.link_target) {
        (Some(t1), Some(t2)) => {
            if bytes_eq(t1, t2) {
                Ok(FileCmp::Match)
            } else {
                Ok(FileCmp::SubstanceSoftLinkLinkMismatch)
            }
        },
        _ => Err(CmpError::LinkReadError),
    }
}

/// The result of the file-type stage: the verdict, and each side's kind for
/// the later stages to dispatch on.
struct FileTypeCmp {
    cmp: FileCmp,
    first_ft: SimpleFileType,
    second_ft: SimpleFileType,
}

/// Compares the file types of two existing entries.  Besides the verdict,
/// the kinds learned here are returned so that later stages need not look
/// them up again.
fn compare_file_types(first: &FileRecord, second: &FileRecord) -> (r: Result<
    FileTypeCmp,
    CmpError,
>)
    ensures
        match r {
            Ok(t) => file_types_cmp_spec(first@, second@) == Ok::<
                (FileCmp, SimpleFileType, SimpleFileType),
                CmpError,
            >((t.cmp, t.first_ft, t.second_ft)),
            Err(e) => file_types_cmp_spec(first@, second@) == Err::<
                (FileCmp, SimpleFileType, SimpleFileType),
                CmpError,
            >(e),
        },
{
    let first_ft = match first.kind {
        Some(k) => k,
        None => {
            return Err(CmpError::UnsupportedFileType);
        },
    };
    let second_ft = match second.kind {
        Some(k) => k,
        None => {
            return Err(CmpError::UnsupportedFileType);
        },
    };
    let cmp = if first_ft == second_ft {
        FileCmp::Match
    } else {
        FileCmp::FileTypeMismatch
    };
    Ok(FileTypeCmp { cmp, first_ft, second_ft })
}

/// Substance comparison of two entries of the same kind, dispatched on
/// that kind.
pub fn compare_substance(
    representative_filetype: &SimpleFileType,
    first: &FileRecord,
    second: &FileRecord,
) -> (r: Result<FileCmp, CmpError>)
    ensures
        r == substance_cmp_spec(*representative_filetype, first@, second@),
{
    match representative_filetype {
        SimpleFileType::Directory => Ok(FileCmp::Match),
        SimpleFileType::RegFile => compare_regular_files(first, second),
        SimpleFileType::SoftLink => compare_soft_links(first, second),
    }
}

/// Modification time comparison of two entries of the same kind.  For
/// symbolic links the link's own timestamp is compared unless
/// `follow_softlinks` asks for the target's.
pub fn compare_modification_time(
    follow_softlinks: bool,
    representative_filetype: &SimpleFileType,
    first: &FileRecord,
    second: &FileRecord,
) -> (r: Result<FileCmp, CmpError>)
    ensures
        r == mtime_cmp_spec(follow_softlinks, *representative_filetype, first@, second@),
{
    let is_link = *representative_filetype == SimpleFileType::SoftLink;
    let m1 = if is_link && !follow_softlinks {
        first.mtime
    } else {
        first.mtime_followed
    };
    let m2 = if is_link && !follow_softlinks {
        second.mtime
    } else {
        second.mtime_followed
    };
    match (m1, m2) {
        (Some(t1), Some(t2)) => {
            if t1 == t2 {
                Ok(FileCmp::Match)
            } else {
                Ok(FileCmp::ModificationTimeMismatch)
            }
        },
        _ => Err(CmpError::MetadataError),
    }
}

/// Runs the whole pipeline for one relative path.  `first` and `second`
/// are the records found under the two roots, `None` where the path does
/// not exist on that side.
pub fn compare_files(
    config: &Config,
    first: Option<&FileRecord>,
    second: Option<&FileRecord>,
) -> (r: Result<PartialFileComparison, CmpError>)
    ensures
        r == classify_spec(*config, opt_model(first), opt_model(second)),
{
    match (first, second) {
        (None, None) => Ok(
            PartialFileComparison {
                file_cmp: FileCmp::ExistenceNeitherFile,
                first_ft: None,
                second_ft: None,
            },
        ),
        (Some(fr), None) => match fr.kind {
            Some(k) => Ok(
                PartialFileComparison {
                    file_cmp: FileCmp::ExistenceOnlyFirstFile,
                    first_ft: Some(k),
                    second_ft: None,
                },
            ),
            None => Err(CmpError::UnsupportedFileType),
        },
        (None, Some(sr)) => match sr.kind {
            Some(k) => Ok(
                PartialFileComparison {
                    file_cmp: FileCmp::ExistenceOnlySecondFile,
                    first_ft: None,
                    second_ft: Some(k),
                },
            ),
            None => Err(CmpError::UnsupportedFileType),
        },
        (Some(fr), Some(sr)) => {
            let ft_cmp = match compare_file_types(fr, sr) {
                Ok(t) => t,
                Err(e) => {
                    return Err(e);
                },
            };
            let k1 = ft_cmp.first_ft;
            let k2 = ft_cmp.second_ft;
            if ft_cmp.cmp != FileCmp::Match {
                return Ok(
                    PartialFileComparison {
                        file_cmp: FileCmp::FileTypeMismatch,
                        first_ft: Some(k1),
                        second_ft: Some(k2),
                    },
                );
            }
            let c = match compare_substance(&k1, fr, sr) {
                Ok(c) => c,
                Err(e) => {
                    return Err(e);
                },
            };
            if c != FileCmp::Match {
                return Ok(
                    PartialFileComparison {
                        file_cmp: c,
                        first_ft: Some(k1),
                        second_ft: Some(k2),
                    },
                );
            }
            if config.compare_modification_times {
                match compare_modification_time(config.follow_softlinks, &k1, fr, sr) {
                    Ok(c2) => Ok(
                        PartialFileComparison {
                            file_cmp: c2,
                            first_ft: Some(k1),
                            second_ft: Some(k2),
                        },
                    ),
                    Err(e) => Err(e),
                }
            } else {
                Ok(
                    PartialFileComparison {
                        file_cmp: FileCmp::Match,
                        first_ft: Some(k1),
                        second_ft: Some(k2),
                    },
                )
            }
        },
    }
}

// ---------------------------------------------------------------------------
// The engine, as mathematics: unified path set and result set.
// ---------------------------------------------------------------------------

/// Whether some record in `s` carries the relative path `p`.
pub open spec fn has_path(s: Seq<RecordModel>, p: Seq<u8>) -> bool {
    exists|i: int| 0 <= i < s.len() && (#[trigger] s[i]).path == p
}

/// Whether two records in `s` carry the same relative path.
pub open spec fn has_dup_paths(s: Seq<RecordModel>) -> bool {
    exists|i: int, j: int|
        0 <= i < j < s.len() && (#[trigger] s[i]).path == (#[trigger] s[j]).path
}

/// The relative paths of `b` that do not occur in `a`, in order.
pub open spec fn extras_spec(a: Seq<RecordModel>, b: Seq<RecordModel>) -> Seq<Seq<u8>>
    decreases b.len(),
{
    if b.len() == 0 {
        Seq::empty()
    } else {
        extras_spec(a, b.drop_last()) + (if has_path(a, b.last().path) {
            Seq::<Seq<u8>>::empty()
        } else {
            seq![b.last().path]
        })
    }
}

/// The unified path set: every relative path present on either side, the
/// first side's paths followed by the second side's extras.
pub open spec fn unified_paths_spec(a: Seq<RecordModel>, b: Seq<RecordModel>) -> Seq<Seq<u8>> {
    rec_paths(a) + extras_spec(a, b)
}

/// The unified path set in its canonical lexicographic order.
pub open spec fn sorted_unified_spec(a: Seq<RecordModel>, b: Seq<RecordModel>) -> Seq<Seq<u8>> {
    unified_paths_spec(a, b).sort_by(path_le())
}

/// The first record of `s` carrying the relative path `p`, if any.
pub open spec fn find_spec(s: Seq<RecordModel>, p: Seq<u8>) -> Option<RecordModel>
    decreases s.len(),
{
    if s.len() == 0 {
        None
    } else if s[0].path == p {
        Some(s[0])
    } else {
        find_spec(s.drop_first(), p)
    }
}

/// The pipeline's verdict for one relative path of the unified set.
pub open spec fn pair_outcome_spec(
    conf: Config,
    a: Seq<RecordModel>,
    b: Seq<RecordModel>,
    rel: Seq<u8>,
) -> Result<PartialFileComparison, CmpError> {
    classify_spec(conf, find_spec(a, rel), find_spec(b, rel))
}

/// The engine's outcomes over a list of relative paths: one entry per path
/// whose classification succeeded, per-path errors dropped.
pub open spec fn results_spec(
    conf: Config,
    a: Seq<RecordModel>,
    b: Seq<RecordModel>,
    rels: Seq<Seq<u8>>,
) -> Seq<(Seq<u8>, PartialFileComparison)>
    decreases rels.len(),
{
    if rels.len() == 0 {
        Seq::empty()
    } else {
        results_spec(conf, a, b, rels.drop_last()) + (match pair_outcome_spec(
            conf,
            a,
            b,
            rels.last(),
        ) {
            Ok(p) => seq![(rels.last(), p)],
            Err(_) => Seq::<(Seq<u8>, PartialFileComparison)>::empty(),
        })
    }
}

/// One outcome packed with the full path of the entry under each root.
pub open spec fn pack_one_spec(cc: ContextModel, e: (Seq<u8>, PartialFileComparison)) -> FullCmpModel {
    FullCmpModel {
        partial_cmp: e.1,
        first_path: join_spec(join_spec(cc.first_root, cc.extension), e.0),
        second_path: join_spec(join_spec(cc.second_root, cc.extension), e.0),
    }
}

/// All outcomes packed with their full paths.
pub open spec fn pack_spec(
    cc: ContextModel,
    rs: Seq<(Seq<u8>, PartialFileComparison)>,
) -> Seq<FullCmpModel> {
    rs.map_values(|e: (Seq<u8>, PartialFileComparison)| pack_one_spec(cc, e))
}

/// The comparison context of two trees, with an empty relative prefix.
pub open spec fn context_of(a: TreeModel, b: TreeModel) -> ContextModel {
    ContextModel { first_root: a.root, second_root: b.root, extension: Seq::empty() }
}

/// What a whole tree comparison returns: the pipeline's verdict for every
/// path of the unified set, in canonical path order, packed with full
/// paths; per-path failures are dropped.
pub open spec fn engine_spec(conf: Config, a: TreeModel, b: TreeModel) -> Seq<FullCmpModel> {
    pack_spec(
        context_of(a, b),
        results_spec(conf, a.records, b.records, sorted_unified_spec(a.records, b.records)),
    )
}

/// The views of a vector of comparisons.
pub open spec fn cmp_views(s: Seq<FullFileComparison>) -> Seq<FullCmpModel> {
    s.map_values(|f: FullFileComparison| f@)
}

/// Splitting a path list splits the engine's outcomes at the same place:
/// the verdict of one path never depends on the rest of its chunk.
pub proof fn lemma_results_split(
    conf: Config,
    a: Seq<RecordModel>,
    b: Seq<RecordModel>,
    s1: Seq<Seq<u8>>,
    s2: Seq<Seq<u8>>,
)
    ensures
        results_spec(conf, a, b, s1 + s2) == results_spec(conf, a, b, s1) + results_spec(
            conf,
            a,
            b,
            s2,
        ),
    decreases s2.len(),
{
    if s2.len() == 0 {
        assert(s1 + s2 =~= s1);
        assert(results_spec(conf, a, b, s1) + results_spec(conf, a, b, s2) =~= results_spec(
            conf,
            a,
            b,
            s1,
        ));
    } else {
        lemma_results_split(conf, a, b, s1, s2.drop_last());
        assert((s1 + s2).drop_last() =~= s1 + s2.drop_last());
        assert((s1 + s2).last() == s2.last());
        assert(results_spec(conf, a, b, s1) + results_spec(conf, a, b, s2) =~= results_spec(
            conf,
            a,
            b,
            s1 + s2,
        ));
    }
}

// ---------------------------------------------------------------------------
// The engine, executable and verified.
// ---------------------------------------------------------------------------

/// Whether some record carries the relative path `p`.
fn contains_path(records: &Vec<FileRecord>, p: &Vec<u8>) -> (r: bool)
    ensures
        r == has_path(models_of(records@), p@),
{
    let mut i: usize = 0;
    while i < records.len()
        invariant
            0 <= i <= records@.len(),
            forall|j: int|
                0 <= j < i ==> (#[trigger] models_of(records@)[j]).path != p@,
        decreases records@.len() - i,
    {
        if bytes_eq(&records[i].path, p) {
            proof {
                assert(models_of(records@)[i as int].path == p@);
            }
            return true;
        }
        i = i + 1;
    }
    false
}

/// Whether two records carry the same relative path.
fn has_duplicate_paths(records: &Vec<FileRecord>) -> (r: bool)
    ensures
        r == has_dup_paths(models_of(records@)),
{
    let ghost s = models_of(records@);
    let mut i: usize = 0;
    while i < records.len()
        invariant
            0 <= i <= records@.len(),
            s == models_of(records@),
            forall|p: int, q: int|
                0 <= p < q < s.len() && p < i ==> (#[trigger] s[p]).path != (#[trigger] s[q]).path,
        decreases records@.len() - i,
    {
        let mut j: usize = i + 1;
        while j < records.len()
            invariant
                0 <= i < j <= records@.len(),
                s == models_of(records@),
                forall|q: int| i < q < j ==> (#[trigger] s[q]).path != s[i as int].path,
            decreases records@.len() - j,
        {
            if bytes_eq(&records[i].path, &records[j].path) {
                proof {
                    assert(s[i as int].path == s[j as int].path);
                }
                return true;
            }
            j = j + 1;
        }
        i = i + 1;
    }
    false
}

/// Reducing a search to the part of the list after a prefix without the
/// sought path does not change what is found.
proof fn lemma_find_spec_skip(s: Seq<RecordModel>, p: Seq<u8>, i: int)
    requires
        0 <= i <= s.len(),
        forall|j: int| 0 <= j < i ==> (#[trigger] s[j]).path != p,
    ensures
        find_spec(s, p) == find_spec(s.skip(i), p),
    decreases i,
{
    if i == 0 {
        assert(s.skip(0) =~= s);
    } else {
        assert(forall|j: int|
            0 <= j < i - 1 ==> (#[trigger] s.drop_first()[j]).path != p);
        lemma_find_spec_skip(s.drop_first(), p, i - 1);
        assert(s.drop_first().skip(i - 1) =~= s.skip(i));
    }
}

/// Finds the record carrying the relative path `p`, if any.
pub fn find_record<'a>(records: &'a Vec<FileRecord>, p: &Vec<u8>) -> (r: Option<&'a FileRecord>)
    ensures
        find_spec(models_of(records@), p@) == opt_model(r),
{
    let ghost s = models_of(records@);
    let mut i: usize = 0;
    while i < records.len()
        invariant
            0 <= i <= records@.len(),
            s == models_of(records@),
            forall|j: int| 0 <= j < i ==> (#[trigger] s[j]).path != p@,
        decreases records@.len() - i,
    {
        if bytes_eq(&records[i].path, p) {
            proof {
                lemma_find_spec_skip(s, p@, i as int);
                assert(s.skip(i as int)[0] == s[i as int]);
                assert(s[i as int].path == p@);
            }
            return Some(&records[i]);
        }
        i = i + 1;
    }
    proof {
        lemma_find_spec_skip(s, p@, s.len() as int);
        assert(s.skip(s.len() as int) =~= Seq::<RecordModel>::empty());
    }
    None
}

/// Builds the unified path set of two snapshots, sorted canonically.
fn unified_sorted(first: &TreeSnapshot, second: &TreeSnapshot) -> (r: Vec<Vec<u8>>)
    ensures
        path_views(r@) == sorted_unified_spec(first@.records, second@.records),
{
    let ghost am = first@.records;
    let ghost bm = second@.records;
    let mut rels: Vec<Vec<u8>> = Vec::new();
    let mut i: usize = 0;
    proof {
        assert(path_views(rels@) =~= rec_paths(am).take(0));
    }
    while i < first.records.len()
        invariant
            0 <= i <= first.records@.len(),
            am == first@.records,
            path_views(rels@) == rec_paths(am).take(i as int),
        decreases first.records@.len() - i,
    {
        let p = clone_bytes(&first.records[i].path);
        let ghost old_views = path_views(rels@);
        rels.push(p);
        proof {
            assert(path_views(rels@) =~= old_views.push(first.records@[i as int].path@));
            assert(rec_paths(am).take(i + 1 as int) =~= rec_paths(am).take(i as int).push(
                am[i as int].path));
            assert(am[i as int].path == first.records@[i as int].path@);
        }
        i = i + 1;
    }
    proof {
        assert(rec_paths(am).take(first.records@.len() as int) =~= rec_paths(am));
    }
    let mut j: usize = 0;
    proof {
        assert(extras_spec(am, bm.take(0)) =~= Seq::<Seq<u8>>::empty()) by {
            assert(bm.take(0).len() == 0);
        }
        assert(path_views(rels@) =~= rec_paths(am) + extras_spec(am, bm.take(0)));
    }
    while j < second.records.len()
        invariant
            0 <= j <= second.records@.len(),
            am == first@.records,
            bm == second@.records,
            path_views(rels@) == rec_paths(am) + extras_spec(am, bm.take(j as int)),
        decreases second.records@.len() - j,
    {
        let ghost old_views = path_views(rels@);
        let absent = !contains_path(&first.records, &second.records[j].path);
        if absent {
            let p = clone_bytes(&second.records[j].path);
            rels.push(p);
        }
        proof {
            assert(bm.take(j + 1 as int).drop_last() =~= bm.take(j as int));
            assert(bm.take(j + 1 as int).last() == bm[j as int]);
            assert(bm[j as int] == second.records@[j as int]@);
            assert(bm[j as int].path == second.records@[j as int].path@);
            if absent {
                assert(path_views(rels@) =~= old_views.push(bm[j as int].path));
                assert(rec_paths(am) + extras_spec(am, bm.take(j + 1 as int)) =~= old_views.push(
                    bm[j as int].path));
            } else {
                assert(rec_paths(am) + extras_spec(am, bm.take(j + 1 as int)) =~= old_views);
            }
        }
        j = j + 1;
    }
    proof {
        assert(bm.take(second.records@.len() as int) =~= bm);
        assert(path_views(rels@) == unified_paths_spec(am, bm));
    }
    sort_paths(rels)
}

/// Runs the pipeline over the paths `rels[lo..hi]` and collects the
/// successful outcomes.
fn classify_range(
    config: &Config,
    first: &TreeSnapshot,
    second: &TreeSnapshot,
    cc: &ComparisonContext,
    rels: &Vec<Vec<u8>>,
    lo: usize,
    hi: usize,
) -> (out: Vec<FullFileComparison>)
    requires
        lo <= hi <= rels@.len(),
    ensures
        cmp_views(out@) == pack_spec(
            cc@,
            results_spec(
                *config,
                first@.records,
                second@.records,
                path_views(rels@).subrange(lo as int, hi as int),
            ),
        ),
{
    let ghost am = first@.records;
    let ghost bm = second@.records;
    let ghost pv = path_views(rels@);
    let mut out: Vec<FullFileComparison> = Vec::new();
    let mut k: usize = lo;
    proof {
        assert(pv.subrange(lo as int, lo as int) =~= Seq::<Seq<u8>>::empty());
        assert(cmp_views(out@) =~= pack_spec(cc@, results_spec(*config, am, bm, pv.subrange(
            lo as int, lo as int))));
    }
    while k < hi
        invariant
            lo <= k <= hi <= rels@.len(),
            am == first@.records,
            bm == second@.records,
            pv == path_views(rels@),
            cmp_views(out@) == pack_spec(
                cc@,
                results_spec(*config, am, bm, pv.subrange(lo as int, k as int)),
            ),
        decreases hi - k,
    {
        let rel = &rels[k];
        let f = find_record(&first.records, rel);
        let s = find_record(&second.records, rel);
        let ghost old_views = cmp_views(out@);
        let verdict = compare_files(config, f, s);
        proof {
            assert(models_of(first.records@) =~= am);
            assert(models_of(second.records@) =~= bm);
            assert(pv[k as int] == rels@[k as int]@);
        }
        match verdict {
            Ok(p) => {
                let inner_first = join_paths(&cc.first_root, &cc.extension);
                let inner_second = join_paths(&cc.second_root, &cc.extension);
                let fp = join_paths(&inner_first, rel);
                let sp = join_paths(&inner_second, rel);
                let full = FullFileComparison { partial_cmp: p, first_path: fp, second_path: sp };
                proof {
                    assert(full@ == pack_one_spec(cc@, (rels@[k as int]@, p)));
                }
                out.push(full);
                proof {
                    assert(cmp_views(out@) =~= old_views.push(pack_one_spec(
                        cc@,
                        (pv[k as int], p),
                    )));
                }
            },
            Err(_) => {},
        }
        proof {
            let rs = pv.subrange(lo as int, k + 1 as int);
            assert(rs.drop_last() =~= pv.subrange(lo as int, k as int));
            assert(rs.last() == pv[k as int]);
            assert(pair_outcome_spec(*config, am, bm, pv[k as int]) == verdict);
            match verdict {
                Ok(p) => {
                    assert(results_spec(*config, am, bm, rs) =~= results_spec(
                        *config,
                        am,
                        bm,
                        rs.drop_last(),
                    ).push((pv[k as int], p)));
                    assert(cmp_views(out@) =~= pack_spec(cc@, results_spec(*config, am, bm, rs)));
                },
                Err(_) => {
                    assert(results_spec(*config, am, bm, rs) =~= results_spec(
                        *config,
                        am,
                        bm,
                        rs.drop_last(),
                    ));
                    assert(cmp_views(out@) =~= pack_spec(cc@, results_spec(*config, am, bm, rs)));
                },
            }
        }
        k = k + 1;
    }
    out
}

/// Builds the context whose joined paths the engine reports.
fn context_for(first: &TreeSnapshot, second: &TreeSnapshot) -> (cc: ComparisonContext)
    ensures
        cc@ == context_of(first@, second@),
{
    let cc = ComparisonContext {
        first_root: clone_bytes(&first.root),
        second_root: clone_bytes(&second.root),
        extension: Vec::new(),
    };
    proof {
        assert(cc.extension@ =~= Seq::<u8>::empty());
    }
    cc
}

/// Compares two enumerated trees: classifies every relative path present
/// on either side and returns one comparison per path whose classification
/// succeeded, in canonical path order.  A snapshot that lists the same
/// relative path twice is rejected.
pub fn compare_directory_trees(
    config: &Config,
    first: &TreeSnapshot,
    second: &TreeSnapshot,
) -> (r: Result<Vec<FullFileComparison>, EngineError>)
    ensures
        (r is Err) == (has_dup_paths(first@.records) || has_dup_paths(second@.records)),
        r matches Ok(v) ==> cmp_views(v@) == engine_spec(*config, first@, second@),
        r matches Err(e) ==> e == EngineError::DuplicatePath,
{
    if has_duplicate_paths(&first.records) {
        proof {
            assert(models_of(first.records@) =~= first@.records);
        }
        return Err(EngineError::DuplicatePath);
    }
    if has_duplicate_paths(&second.records) {
        proof {
            assert(models_of(first.records@) =~= first@.records);
            assert(models_of(second.records@) =~= second@.records);
        }
        return Err(EngineError::DuplicatePath);
    }
    proof {
        assert(models_of(first.records@) =~= first@.records);
        assert(models_of(second.records@) =~= second@.records);
    }
    let cc = context_for(first, second);
    let rels = unified_sorted(first, second);
    let n = rels.len();
    let out = classify_range(config, first, second, &cc, &rels, 0, n);
    proof {
        assert(path_views(rels@).subrange(0, n as int) =~= path_views(rels@));
    }
    Ok(out)
}

/// The size of the unified path set of two snapshots.
pub fn unified_count(first: &TreeSnapshot, second: &TreeSnapshot) -> (n: usize)
    ensures
        n == sorted_unified_spec(first@.records, second@.records).len(),
{
    let rels = unified_sorted(first, second);
    rels.len()
}

/// Runs the engine over one contiguous chunk `lo..hi` of the sorted
/// unified path set.  Chunks evaluated independently and concatenated in
/// order give exactly the whole engine result.
pub fn compare_directory_trees_range(
    config: &Config,
    first: &TreeSnapshot,
    second: &TreeSnapshot,
    lo: usize,
    hi: usize,
) -> (r: Result<Vec<FullFileComparison>, EngineError>)
    requires
        lo <= hi <= sorted_unified_spec(first@.records, second@.records).len(),
    ensures
        (r is Err) == (has_dup_paths(first@.records) || has_dup_paths(second@.records)),
        r matches Ok(v) ==> cmp_views(v@) == pack_spec(
            context_of(first@, second@),
            results_spec(
                *config,
                first@.records,
                second@.records,
                sorted_unified_spec(first@.records, second@.records).subrange(
                    lo as int,
                    hi as int,
                ),
            ),
        ),
{
    if has_duplicate_paths(&first.records) || has_duplicate_paths(&second.records) {
        proof {
            assert(models_of(first.records@) =~= first@.records);
            assert(models_of(second.records@) =~= second@.records);
        }
        return Err(EngineError::DuplicatePath);
    }
    proof {
        assert(models_of(first.records@) =~= first@.records);
        assert(models_of(second.records@) =~= second@.records);
    }
    let cc = context_for(first, second);
    let rels = unified_sorted(first, second);
    let out = classify_range(config, first, second, &cc, &rels, lo, hi);
    Ok(out)
}

/// Partitions `0..n` into at most `workers` contiguous chunks of
/// `ceil(n / workers)` entries each (the last chunk may be shorter).
pub fn chunk_bounds(n: usize, workers: usize) -> (r: Vec<(usize, usize)>)
    requires
        workers >= 1,
    ensures
        (r@.len() == 0) == (n == 0),
        r@.len() > 0 ==> r@[0].0 == 0,
        r@.len() > 0 ==> r@[r@.len() - 1].1 == n,
        forall|k: int| 0 <= k < r@.len() ==> (#[trigger] r@[k]).0 < r@[k].1 <= n,
        forall|k: int| 0 <= k < r@.len() - 1 ==> (#[trigger] r@[k]).1 == r@[k + 1].0,
{
    let mut r: Vec<(usize, usize)> = Vec::new();
    if n == 0 {
        return r;
    }
    let q = n / workers;
    let rem = n % workers;
    proof {
        vstd::arithmetic::div_mod::lemma_fundamental_div_mod(n as int, workers as int);
        if rem == 0 {
            assert(q >= 1) by (nonlinear_arith)
                requires
                    n as int == workers as int * q as int + rem as int,
                    rem == 0,
                    n >= 1,
                    workers >= 1,
                    q >= 0,
            ;
        } else {
            assert(q + 1 <= n) by (nonlinear_arith)
                requires
                    n as int == workers as int * q as int + rem as int,
                    rem >= 1,
                    workers >= 1,
                    q >= 0,
            ;
        }
    }
    let chunk: usize = if rem == 0 {
        q
    } else {
        q + 1
    };
    assert(chunk >= 1);
    let mut lo: usize = 0;
    while lo < n
        invariant
            0 <= lo <= n,
            chunk >= 1,
            (r@.len() == 0) == (lo == 0),
            r@.len() > 0 ==> r@[0].0 == 0,
            r@.len() > 0 ==> r@[r@.len() - 1].1 == lo,
            forall|k: int| 0 <= k < r@.len() ==> (#[trigger] r@[k]).0 < r@[k].1 <= n,
            forall|k: int| 0 <= k < r@.len() - 1 ==> (#[trigger] r@[k]).1 == r@[k + 1].0,
        decreases n - lo,
    {
        let hi: usize = if n - lo < chunk {
            n
        } else {
            lo + chunk
        };
        r.push((lo, hi));
        lo = hi;
    }
    r
}

/// Compares two enumerated trees by evaluating the unified path set in
/// contiguous chunks, one per worker, and concatenating the chunk results.
/// The result is exactly the result of [`compare_directory_trees`]:
/// distributing the work never changes the outcome.
pub fn compare_directory_trees_chunked(
    config: &Config,
    first: &TreeSnapshot,
    second: &TreeSnapshot,
    workers: usize,
) -> (r: Result<Vec<FullFileComparison>, EngineError>)
    requires
        workers >= 1,
    ensures
        (r is Err) == (has_dup_paths(first@.records) || has_dup_paths(second@.records)),
        r matches Ok(v) ==> cmp_views(v@) == engine_spec(*config, first@, second@),
{
    if has_duplicate_paths(&first.records) || has_duplicate_paths(&second.records) {
        proof {
            assert(models_of(first.records@) =~= first@.records);
            assert(models_of(second.records@) =~= second@.records);
        }
        return Err(EngineError::DuplicatePath);
    }
    proof {
        assert(models_of(first.records@) =~= first@.records);
        assert(models_of(second.records@) =~= second@.records);
    }
    let ghost am = first@.records;
    let ghost bm = second@.records;
    let cc = context_for(first, second);
    let rels = unified_sorted(first, second);
    let ghost pv = path_views(rels@);
    let n = rels.len();
    let bounds = chunk_bounds(n, workers);
    let mut out: Vec<FullFileComparison> = Vec::new();
    let mut c: usize = 0;
    proof {
        assert(pv.subrange(0, 0) =~= Seq::<Seq<u8>>::empty());
        assert(cmp_views(out@) =~= pack_spec(cc@, results_spec(*config, am, bm, pv.subrange(
            0, 0))));
    }
    while c < bounds.len()
        invariant
            0 <= c <= bounds@.len(),
            am == first@.records,
            bm == second@.records,
            pv == path_views(rels@),
            cc@ == context_of(first@, second@),
            (bounds@.len() == 0) == (pv.len() == 0),
            bounds@.len() > 0 ==> bounds@[0].0 == 0,
            bounds@.len() > 0 ==> bounds@[bounds@.len() - 1].1 == pv.len(),
            forall|k: int|
                0 <= k < bounds@.len() ==> (#[trigger] bounds@[k]).0 < bounds@[k].1 <= pv.len(),
            forall|k: int|
                0 <= k < bounds@.len() - 1 ==> (#[trigger] bounds@[k]).1 == bounds@[k + 1].0,
            cmp_views(out@) == pack_spec(
                cc@,
                results_spec(
                    *config,
                    am,
                    bm,
                    pv.subrange(0, if c == 0 { 0int } else { bounds@[c - 1].1 as int }),
                ),
            ),
        decreases bounds@.len() - c,
    {
        let lo = bounds[c].0;
        let hi = bounds[c].1;
        proof {
            if c > 0 {
                assert(bounds@[c - 1].1 == bounds@[c as int].0);
            }
        }
        let mut chunk = classify_range(config, first, second, &cc, &rels, lo, hi);
        let ghost old_views = cmp_views(out@);
        let ghost chunk_views = cmp_views(chunk@);
        out.append(&mut chunk);
        proof {
            assert(cmp_views(out@) =~= old_views + chunk_views);
            lemma_results_split(
                *config,
                am,
                bm,
                pv.subrange(0, lo as int),
                pv.subrange(lo as int, hi as int),
            );
            assert(pv.subrange(0, lo as int) + pv.subrange(lo as int, hi as int) =~= pv.subrange(
                0,
                hi as int,
            ));
            assert(pack_spec(
                cc@,
                results_spec(*config, am, bm, pv.subrange(0, lo as int)) + results_spec(
                    *config,
                    am,
                    bm,
                    pv.subrange(lo as int, hi as int),
                ),
            ) =~= pack_spec(cc@, results_spec(*config, am, bm, pv.subrange(0, lo as int)))
                + pack_spec(
                cc@,
                results_spec(*config, am, bm, pv.subrange(lo as int, hi as int)),
            ));
        }
        c = c + 1;
    }
    proof {
        if bounds@.len() == 0 {
            assert(pv.subrange(0, 0) =~= pv);
        } else {
            assert(pv.subrange(0, pv.len() as int) =~= pv);
        }
    }
    Ok(out)
}

/// Whether any outcome in a result set is not a full match.
pub fn contains_mismatch(results: &Vec<FullFileComparison>) -> (r: bool)
    ensures
        r == exists|k: int|
            0 <= k < results@.len() && (#[trigger] results@[k]).partial_cmp.file_cmp
                != FileCmp::Match,
{
    let mut i: usize = 0;
    while i < results.len()
        invariant
            0 <= i <= results@.len(),
            forall|k: int|
                0 <= k < i ==> (#[trigger] results@[k]).partial_cmp.file_cmp == FileCmp::Match,
        decreases results@.len() - i,
    {
        if results[i].partial_cmp.file_cmp != FileCmp::Match {
            return true;
        }
        i = i + 1;
    }
    false
}

} // verus!
