//! Orders: of `u32` keys in a `BTreeSet`, and of file paths.

use vstd::prelude::*;
use vstd::std_specs::cmp::OrdSpec;
use crate::downloader::DownloadedFile;
use crate::models::MediaKind;

verus! {

/// A sequence of `u32` keys that is increasing in the order of `Ord` is
/// strictly increasing as numbers.
pub proof fn lemma_increasing_u32(r: Seq<&u32>)
    requires
        vstd::std_specs::btree::increasing_seq(r),
    ensures
        forall|i: int, j: int| 0 <= i < j < r.len() ==> *r[i] < *r[j],
{
    broadcast use vstd::laws_cmp::group_laws_cmp, vstd::std_specs::btree::group_btree_axioms;
    assert(vstd::laws_cmp::obeys_cmp::<u32>());
    assert(vstd::laws_cmp::obeys_cmp::<&u32>());
    vstd::std_specs::btree::axiom_increasing_seq_meaning::<&u32>(r);
    assert forall|i: int, j: int| 0 <= i < j < r.len() implies *r[i] < *r[j] by {
        let a: &u32 = r[i];
        let b: &u32 = r[j];
        assert((&a).cmp_spec(&&b) is Less);
    }
}

/// What `Path::new(a) < Path::new(b)` gives: `a` comes before `b` in the
/// order of paths, which compares them component by component.
pub uninterp spec fn path_precedes(a: Seq<char>, b: Seq<char>) -> bool;

/// `<` on `std::path::Path`.
#[verifier::external_body]
fn path_lt(a: &str, b: &str) -> (r: bool)
    ensures
        r == path_precedes(a@, b@),
{
    std::path::Path::new(a) < std::path::Path::new(b)
}

/// How two paths compare in the order of paths.
pub fn compare_paths(a: &str, b: &str) -> (r: std::cmp::Ordering)
    ensures
        (r is Less) == path_precedes(a@, b@),
        (r is Greater) == (!path_precedes(a@, b@) && path_precedes(b@, a@)),
{
    if path_lt(a, b) {
        std::cmp::Ordering::Less
    } else if path_lt(b, a) {
        std::cmp::Ordering::Greater
    } else {
        std::cmp::Ordering::Equal
    }
}

/// A downloaded file as plain values: its path, kind and item index.
pub open spec fn file_view(f: DownloadedFile) -> (Seq<char>, MediaKind, i64) {
    (f.path@, f.media_kind, f.item_index)
}

/// No file of the sequence has a path that comes before that of an earlier one.
pub open spec fn ordered_by_path(fs: Seq<DownloadedFile>) -> bool {
    forall|i: int, j: int| 0 <= i < j < fs.len() ==> !path_precedes(#[trigger] fs[j].path@, #[trigger] fs[i].path@)
}

/// `slice::sort_by` with `compare_paths`: the same files, reordered by path.
/// The order of paths is total, so in the sorted files no path comes before an
/// earlier one.
#[verifier::external_body]
pub(crate) fn sort_by_path(files: &mut Vec<DownloadedFile>)
    ensures
        final(files)@.map_values(|f: DownloadedFile| file_view(f)).to_multiset() == old(files)@.map_values(
            |f: DownloadedFile| file_view(f),
        ).to_multiset(),
        ordered_by_path(final(files)@),
{
    files.sort_by(|left, right| compare_paths(&left.path, &right.path));
}

} // verus!
