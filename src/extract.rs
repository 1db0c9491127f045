use vstd::prelude::*;

use crate::entries::{entries_view, parse_entries, parse_entries_spec, EntryDescriptor, EntryView};
use crate::error::GpkError;
use crate::header::{parse_header, parse_header_spec};

verus! {

/// One file taken out of an archive: its name relative to the archive's
/// output directory, and its content, a view into the archive bytes.
#[derive(Debug)]
pub struct ExtractedFile<'a> {
    pub relative_name: String,
    pub content: &'a [u8],
}

/// What an extracted file holds: its name as text and its content bytes.
pub ghost struct ExtractedView {
    pub name: Seq<char>,
    pub content: Seq<u8>,
}

impl<'a> View for ExtractedFile<'a> {
    type V = ExtractedView;

    open spec fn view(&self) -> ExtractedView {
        ExtractedView { name: self.relative_name@, content: self.content@ }
    }
}

/// The views of a sequence of extracted files.
pub open spec fn files_view(v: Seq<ExtractedFile>) -> Seq<ExtractedView> {
    v.map_values(|f: ExtractedFile| f@)
}

/// The content of `e` lies within the archive `b`.
pub open spec fn entry_in_bounds(b: Seq<u8>, e: EntryView) -> bool {
    e.offset + e.size <= b.len()
}

/// What extracting the entry `e`, number `index`, from the archive `b` gives.
pub open spec fn extract_entry_spec(b: Seq<u8>, index: usize, e: EntryView) -> Result<
    ExtractedView,
    GpkError,
> {
    if entry_in_bounds(b, e) {
        Ok(ExtractedView { name: e.name, content: b.subrange(e.offset as int, e.offset + e.size) })
    } else {
        Err(
            GpkError::EntryOutOfBounds {
                index,
                offset: e.offset,
                size: e.size,
                buffer_len: b.len() as usize,
            },
        )
    }
}

/// What extracting the first `k` entries of `es` from `b`, in order, gives:
/// the first entry that fails stops the extraction.
pub open spec fn extract_prefix_spec(b: Seq<u8>, es: Seq<EntryView>, k: nat) -> Result<
    Seq<ExtractedView>,
    GpkError,
>
    decreases k,
{
    if k == 0 {
        Ok(Seq::empty())
    } else {
        match extract_prefix_spec(b, es, (k - 1) as nat) {
            Err(e) => Err(e),
            Ok(done) => match extract_entry_spec(b, (k - 1) as usize, es[k - 1]) {
                Err(e) => Err(e),
                Ok(f) => Ok(done.push(f)),
            },
        }
    }
}

/// What extracting the whole archive `b` gives.
pub open spec fn extract_archive_spec(b: Seq<u8>) -> Result<Seq<ExtractedView>, GpkError> {
    match parse_header_spec(b) {
        Err(e) => Err(e),
        Ok(h) => match parse_entries_spec(b, h.entry_count) {
            Err(e) => Err(e),
            Ok(es) => extract_prefix_spec(b, es, es.len()),
        },
    }
}

/// Checks that the content of `entry`, number `index` of its archive, lies
/// within `buf`, and gives the entry's name with a view of that content.
pub fn extract_entry<'a>(buf: &'a [u8], index: usize, entry: &EntryDescriptor) -> (r: Result<
    ExtractedFile<'a>,
    GpkError,
>)
    ensures
        match r {
            Ok(f) => extract_entry_spec(buf@, index, entry@) == Ok::<ExtractedView, GpkError>(f@),
            Err(e) => extract_entry_spec(buf@, index, entry@) == Err::<ExtractedView, GpkError>(e),
        },
        r is Ok <==> entry_in_bounds(buf@, entry@),
{
    let len = buf.len();
    let offset = entry.offset as u64;
    let size = entry.size as u64;
    if offset + size > len as u64 {
        return Err(
            GpkError::EntryOutOfBounds {
                index,
                offset: entry.offset,
                size: entry.size,
                buffer_len: len,
            },
        );
    }
    let content = vstd::slice::slice_subrange(buf, offset as usize, (offset + size) as usize);
    Ok(ExtractedFile { relative_name: entry.name.clone(), content })
}

proof fn lemma_error_stays(b: Seq<u8>, es: Seq<EntryView>, k: nat, m: nat)
    requires
        k <= m,
        extract_prefix_spec(b, es, k) is Err,
    ensures
        extract_prefix_spec(b, es, m) == extract_prefix_spec(b, es, k),
    decreases m - k,
{
    if k < m {
        lemma_error_stays(b, es, k, (m - 1) as nat);
    }
}

/// An entry whose content does not lie within the archive makes the whole
/// extraction fail, so that no file of the archive is handed out.
pub proof fn lemma_out_of_bounds_aborts(b: Seq<u8>, i: int)
    requires
        parse_header_spec(b) matches Ok(h) && parse_entries_spec(b, h.entry_count) matches Ok(es)
            && 0 <= i < es.len() && !entry_in_bounds(b, es[i]),
    ensures
        extract_archive_spec(b) is Err,
{
    let es = parse_entries_spec(b, parse_header_spec(b)->Ok_0.entry_count)->Ok_0;
    assert(extract_prefix_spec(b, es, (i + 1) as nat) is Err);
    lemma_error_stays(b, es, (i + 1) as nat, es.len());
}

/// Decodes the archive in `buf` and extracts all of its entries, in table
/// order. The first error, of the header, of the entry table or of an
/// entry, aborts the whole archive.
pub fn extract_archive<'a>(buf: &'a [u8]) -> (r: Result<Vec<ExtractedFile<'a>>, GpkError>)
    ensures
        match r {
            Ok(v) => extract_archive_spec(buf@) == Ok::<Seq<ExtractedView>, GpkError>(
                files_view(v@),
            ),
            Err(e) => extract_archive_spec(buf@) == Err::<Seq<ExtractedView>, GpkError>(e),
        },
{
    let header = match parse_header(buf) {
        Ok(h) => h,
        Err(e) => return Err(e),
    };
    let entries = match parse_entries(buf, header.entry_count) {
        Ok(v) => v,
        Err(e) => return Err(e),
    };
    let ghost es = entries_view(entries@);
    let mut files: Vec<ExtractedFile<'a>> = Vec::new();
    let mut i: usize = 0;
    assert(files_view(files@) =~= Seq::<ExtractedView>::empty());
    while i < entries.len()
        invariant
            i <= entries@.len(),
            es == entries_view(entries@),
            extract_archive_spec(buf@) == extract_prefix_spec(buf@, es, es.len()),
            extract_prefix_spec(buf@, es, i as nat) == Ok::<Seq<ExtractedView>, GpkError>(
                files_view(files@),
            ),
        decreases entries@.len() - i,
    {
        match extract_entry(buf, i, &entries[i]) {
            Ok(f) => {
                let ghost prev = files@;
                let ghost fv = f@;
                files.push(f);
                assert(files_view(files@) =~= files_view(prev).push(fv));
                i = i + 1;
            },
            Err(e) => {
                proof {
                    lemma_error_stays(buf@, es, (i + 1) as nat, es.len());
                }
                return Err(e);
            },
        }
    }
    Ok(files)
}

} // verus!
