//! Groups of files judged duplicates of one another.
//!
//! A group carries at least two records, the fingerprint that produced it,
//! and the index of the member recommended as the original to keep: the
//! earliest-modified record, ties broken by the shorter path in UTF-8
//! bytes, then by fewer path components, then by position.

use vstd::prelude::*;
use vstd::utf8::encode_utf8;

use crate::file_info::FileInfo;
use crate::strutil::spec_segments;
use crate::strutil::count_segments;
use crate::strutil::byte_len;

verus! {

/// Sum of the sizes of a run of records.
pub open spec fn total_size_of(files: Seq<FileInfo>) -> int
    decreases files.len(),
{
    if files.len() == 0 {
        0
    } else {
        total_size_of(files.drop_last()) + files.last().size
    }
}

/// Sizes are non-negative, so their sum is too.
pub proof fn lemma_total_size_nonneg(files: Seq<FileInfo>)
    ensures
        total_size_of(files) >= 0,
    decreases files.len(),
{
    if files.len() > 0 {
        lemma_total_size_nonneg(files.drop_last());
    }
}

/// A prefix never sums to more than the whole run.
pub proof fn lemma_total_size_prefix(files: Seq<FileInfo>, i: int)
    requires
        0 <= i <= files.len(),
    ensures
        total_size_of(files.subrange(0, i)) <= total_size_of(files),
    decreases files.len(),
{
    if i == files.len() {
        assert(files.subrange(0, i) =~= files);
    } else {
        lemma_total_size_prefix(files.drop_last(), i);
        assert(files.drop_last().subrange(0, i) =~= files.subrange(0, i));
    }
}

/// No member outweighs the whole run.
pub proof fn lemma_total_size_ge_member(files: Seq<FileInfo>, i: int)
    requires
        0 <= i < files.len(),
    ensures
        files[i].size <= total_size_of(files),
    decreases files.len(),
{
    if i == files.len() - 1 {
        lemma_total_size_nonneg(files.drop_last());
    } else {
        lemma_total_size_ge_member(files.drop_last(), i);
    }
}

/// Length of a record's path in UTF-8 bytes.
pub open spec fn path_byte_len(f: FileInfo) -> int {
    encode_utf8(f.path@).len() as int
}

/// Strict order of the original-selection key: modification time first,
/// then path length in UTF-8 bytes, then path component count.
pub open spec fn key_lt(a: FileInfo, b: FileInfo) -> bool {
    ||| a.modified < b.modified
    ||| (a.modified == b.modified && path_byte_len(a) < path_byte_len(b))
    ||| (a.modified == b.modified && path_byte_len(a) == path_byte_len(b)
        && spec_segments(a.path@) < spec_segments(b.path@))
}

/// The selection key of `a` is no worse than that of `b`.
pub open spec fn key_le(a: FileInfo, b: FileInfo) -> bool {
    !key_lt(b, a)
}

/// `i` is the index the selection heuristic recommends: the first member
/// whose key no other member beats.
pub open spec fn is_selected_original(files: Seq<FileInfo>, i: int) -> bool {
    if files.len() == 0 {
        i == 0
    } else {
        &&& 0 <= i < files.len()
        &&& forall|j: int| 0 <= j < files.len() ==> key_le(files[i], #[trigger] files[j])
        &&& forall|j: int| 0 <= j < i ==> key_lt(files[i], #[trigger] files[j])
    }
}

/// A set of files judged equivalent, exactly or perceptually.
pub struct DuplicateGroup {
    /// Position of the group in its run's output.
    pub group_id: usize,
    /// The members; a materialized group holds at least two.
    pub files: Vec<FileInfo>,
    /// The exact digest shared by the members, for an exact group.
    pub exact_hash: Option<Vec<u8>>,
    /// The representative perceptual fingerprint, for a perceptual group.
    pub perceptual_hash: Option<u64>,
    /// Index into `files` of the member recommended to keep.
    pub recommended_original: usize,
}

impl DuplicateGroup {
    /// The recommended original points into the members (trivially so for
    /// an empty member list).
    pub open spec fn wf(self) -> bool {
        self.files@.len() == 0 || self.recommended_original < self.files@.len()
    }

    /// Wrap a cluster of records, recommending its original.
    pub fn new(group_id: usize, files: Vec<FileInfo>) -> (r: DuplicateGroup)
        ensures
            r.group_id == group_id,
            r.files == files,
            r.exact_hash is None,
            r.perceptual_hash is None,
            is_selected_original(files@, r.recommended_original as int),
            r.wf(),
    {
        let recommended_original = Self::select_original(&files);
        DuplicateGroup {
            group_id,
            files,
            exact_hash: None,
            perceptual_hash: None,
            recommended_original,
        }
    }

    /// The group, tagged with the exact digest that produced it.
    pub fn with_exact_hash(self, hash: Vec<u8>) -> (r: DuplicateGroup)
        ensures
            r == (DuplicateGroup { exact_hash: Some(hash), ..self }),
    {
        DuplicateGroup { exact_hash: Some(hash), ..self }
    }

    /// The group, tagged with the perceptual fingerprint that produced it.
    pub fn with_perceptual_hash(self, hash: u64) -> (r: DuplicateGroup)
        ensures
            r == (DuplicateGroup { perceptual_hash: Some(hash), ..self }),
    {
        DuplicateGroup { perceptual_hash: Some(hash), ..self }
    }

    /// The first member with the least selection key; 0 for an empty list.
    pub fn select_original(files: &Vec<FileInfo>) -> (r: usize)
        ensures
            is_selected_original(files@, r as int),
    {
        let n = files.len();
        if n == 0 {
            return 0;
        }
        let mut best: usize = 0;
        let mut best_len: usize = byte_len(files[0].path.as_str());
        let mut best_segs: usize = count_segments(files[0].path.as_str());
        let mut j: usize = 1;
        while j < n
            invariant
                n == files@.len(),
                1 <= j <= n,
                best < j,
                best_len == path_byte_len(files@[best as int]),
                best_segs == spec_segments(files@[best as int].path@),
                forall|k: int| 0 <= k < j ==> key_le(files@[best as int], #[trigger] files@[k]),
                forall|k: int| 0 <= k < best ==> key_lt(files@[best as int], #[trigger] files@[k]),
            decreases n - j,
        {
            let cand_len = byte_len(files[j].path.as_str());
            let cand_segs = count_segments(files[j].path.as_str());
            let better = if files[j].modified != files[best].modified {
                files[j].modified < files[best].modified
            } else if cand_len != best_len {
                cand_len < best_len
            } else {
                cand_segs < best_segs
            };
            if better {
                best = j;
                best_len = cand_len;
                best_segs = cand_segs;
            }
            j = j + 1;
        }
        best
    }

    /// Sum of the members' sizes.
    pub fn total_size(&self) -> (r: u64)
        requires
            total_size_of(self.files@) <= u64::MAX,
        ensures
            r == total_size_of(self.files@),
    {
        let n = self.files.len();
        let mut sum: u64 = 0;
        for i in 0..n
            invariant
                n == self.files@.len(),
                total_size_of(self.files@) <= u64::MAX,
                sum == total_size_of(self.files@.subrange(0, i as int)),
        {
            proof {
                assert(self.files@.subrange(0, i + 1).drop_last() =~= self.files@.subrange(
                    0,
                    i as int,
                ));
                lemma_total_size_prefix(self.files@, i + 1);
            }
            sum = sum + self.files[i].size;
        }
        proof {
            assert(self.files@.subrange(0, n as int) =~= self.files@);
        }
        sum
    }

    /// Space recovered by keeping only the recommended original: the total
    /// size less the original's own size.  Never negative.
    pub fn wasted_space(&self) -> (r: u64)
        requires
            self.wf(),
            total_size_of(self.files@) <= u64::MAX,
        ensures
            self.files@.len() == 0 ==> r == 0,
            self.files@.len() > 0 ==> r == total_size_of(self.files@)
                - self.files@[self.recommended_original as int].size,
    {
        if self.files.is_empty() {
            return 0;
        }
        proof {
            lemma_total_size_ge_member(self.files@, self.recommended_original as int);
        }
        self.total_size() - self.files[self.recommended_original].size
    }

    /// Number of members.
    pub fn file_count(&self) -> (r: usize)
        ensures
            r == self.files@.len(),
    {
        self.files.len()
    }

    /// Whether the group was produced by exact-digest agreement.
    pub fn is_exact_duplicate(&self) -> (r: bool)
        ensures
            r == (self.exact_hash is Some),
    {
        self.exact_hash.is_some()
    }
}

/// A record whose modification time strictly precedes every other member's
/// is recommended as the original, wherever it stands in the list.
pub proof fn lemma_earliest_modified_selected(files: Seq<FileInfo>, i: int, sel: int)
    requires
        0 <= i < files.len(),
        forall|j: int| 0 <= j < files.len() && j != i ==> files[i].modified < (
        #[trigger] files[j]).modified,
        is_selected_original(files, sel),
    ensures
        sel == i,
{
    if sel != i {
        assert(key_le(files[sel], files[i]));
        assert(key_lt(files[i], files[sel]));
    }
}

/// With every modification time equal, a record whose path is strictly
/// shortest in UTF-8 bytes is recommended as the original.
pub proof fn lemma_shortest_path_selected(files: Seq<FileInfo>, i: int, sel: int)
    requires
        0 <= i < files.len(),
        forall|j: int| 0 <= j < files.len() ==> files[i].modified == (
        #[trigger] files[j]).modified,
        forall|j: int| 0 <= j < files.len() && j != i ==> path_byte_len(files[i]) < path_byte_len(
            #[trigger] files[j],
        ),
        is_selected_original(files, sel),
    ensures
        sel == i,
{
    if sel != i {
        assert(key_le(files[sel], files[i]));
        assert(key_lt(files[i], files[sel]));
    }
}

} // verus!
