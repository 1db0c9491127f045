use vstd::prelude::*;

use crate::extract::{extract_archive_spec, ExtractedView};

verus! {

/// The files of an output directory: relative name to content.
pub type DiskView = Map<Seq<char>, Seq<u8>>;

/// The directory `disk` after writing `files` into it in order; a later
/// file replaces an earlier one of the same name.
pub open spec fn write_files(disk: DiskView, files: Seq<ExtractedView>) -> DiskView
    decreases files.len(),
{
    if files.len() == 0 {
        disk
    } else {
        write_files(disk, files.drop_last()).insert(files.last().name, files.last().content)
    }
}

/// Some file of `files` is named `k`.
pub open spec fn writes_name(files: Seq<ExtractedView>, k: Seq<char>) -> bool {
    exists|i: int| 0 <= i < files.len() && files[i].name == k
}

proof fn lemma_written_names(d1: DiskView, d2: DiskView, files: Seq<ExtractedView>, k: Seq<char>)
    requires
        writes_name(files, k),
    ensures
        write_files(d1, files).contains_key(k),
        write_files(d2, files).contains_key(k),
        write_files(d1, files)[k] == write_files(d2, files)[k],
    decreases files.len(),
{
    if files.last().name != k {
        let i = choose|i: int| 0 <= i < files.len() && files[i].name == k;
        assert(files.drop_last()[i] == files[i]);
        lemma_written_names(d1, d2, files.drop_last(), k);
    }
}

proof fn lemma_unwritten_names(d: DiskView, files: Seq<ExtractedView>, k: Seq<char>)
    requires
        !writes_name(files, k),
    ensures
        write_files(d, files).contains_key(k) == d.contains_key(k),
        d.contains_key(k) ==> write_files(d, files)[k] == d[k],
    decreases files.len(),
{
    if files.len() > 0 {
        assert(files.last() == files[files.len() - 1]);
        assert forall|i: int| 0 <= i < files.len() - 1 implies files.drop_last()[i].name != k by {
            assert(files.drop_last()[i] == files[i]);
        }
        lemma_unwritten_names(d, files.drop_last(), k);
    }
}

/// Writing the same files a second time leaves the directory as the first
/// writing left it.
pub proof fn lemma_write_files_idempotent(disk: DiskView, files: Seq<ExtractedView>)
    ensures
        write_files(write_files(disk, files), files) == write_files(disk, files),
{
    let once = write_files(disk, files);
    let twice = write_files(once, files);
    assert forall|k: Seq<char>| #[trigger] twice.contains_key(k) == once.contains_key(k) && (
    once.contains_key(k) ==> twice[k] == once[k]) by {
        if writes_name(files, k) {
            lemma_written_names(once, disk, files, k);
        } else {
            lemma_unwritten_names(once, files, k);
        }
    }
    assert(twice =~= once);
}

/// Extracting an archive into a directory a second time leaves every file
/// as the first extraction left it.
pub proof fn lemma_extraction_idempotent(b: Seq<u8>, disk: DiskView)
    requires
        extract_archive_spec(b) is Ok,
    ensures
        write_files(write_files(disk, extract_archive_spec(b)->Ok_0), extract_archive_spec(b)->Ok_0)
            == write_files(disk, extract_archive_spec(b)->Ok_0),
{
    lemma_write_files_idempotent(disk, extract_archive_spec(b)->Ok_0);
}

} // verus!
