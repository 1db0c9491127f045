use vstd::prelude::*;

use crate::error::GpkError;
use crate::header::{le_u32_value, read_le_u32, HEADER_SIZE};
use crate::name::{decode_name, decoded_name, NAME_FIELD_SIZE};

verus! {

/// Size of one record of the entry table: name field, size, offset.
pub const ENTRY_SIZE: usize = 268;

/// One packed file as the entry table describes it.
#[derive(Clone, Debug, PartialEq, Eq)]
pub struct EntryDescriptor {
    pub name: String,
    pub size: u32,
    pub offset: u32,
}

/// What an entry descriptor says: its name as text, its size and offset.
pub ghost struct EntryView {
    pub name: Seq<char>,
    pub size: u32,
    pub offset: u32,
}

impl View for EntryDescriptor {
    type V = EntryView;

    open spec fn view(&self) -> EntryView {
        EntryView { name: self.name@, size: self.size, offset: self.offset }
    }
}

/// Where the record of entry `i` starts.
pub open spec fn record_start(i: int) -> int {
    HEADER_SIZE + i * ENTRY_SIZE
}

/// Where a table of `n` entries ends.
pub open spec fn table_end(n: u32) -> int {
    record_start(n as int)
}

/// The entry that the record `i` of the table in `b` describes.
pub open spec fn record_at(b: Seq<u8>, i: int) -> EntryView {
    let s = record_start(i);
    EntryView {
        name: decoded_name(b.subrange(s, s + NAME_FIELD_SIZE)),
        size: le_u32_value(b, s + NAME_FIELD_SIZE) as u32,
        offset: le_u32_value(b, s + NAME_FIELD_SIZE + 4) as u32,
    }
}

/// What decoding a table of `n` entries from `b` gives.
pub open spec fn parse_entries_spec(b: Seq<u8>, n: u32) -> Result<Seq<EntryView>, GpkError> {
    if b.len() < table_end(n) {
        Err(GpkError::TruncatedEntryTable { entry_count: n, buffer_len: b.len() as usize })
    } else {
        Ok(Seq::new(n as nat, |i: int| record_at(b, i)))
    }
}

/// The views of a sequence of entry descriptors.
pub open spec fn entries_view(v: Seq<EntryDescriptor>) -> Seq<EntryView> {
    v.map_values(|e: EntryDescriptor| e@)
}

/// Decodes the record of entry `i`.
fn parse_record(buf: &[u8], i: usize) -> (r: EntryDescriptor)
    requires
        record_start(i as int) + ENTRY_SIZE <= buf@.len(),
    ensures
        r@ == record_at(buf@, i as int),
{
    let len = buf.len();
    assert(i * ENTRY_SIZE <= len) by (nonlinear_arith)
        requires
            HEADER_SIZE + i * ENTRY_SIZE + ENTRY_SIZE <= len,
    ;
    let start = HEADER_SIZE + i * ENTRY_SIZE;
    let field = vstd::slice::slice_subrange(buf, start, start + NAME_FIELD_SIZE);
    let name = decode_name(field);
    let size = read_le_u32(buf, start + NAME_FIELD_SIZE);
    let offset = read_le_u32(buf, start + NAME_FIELD_SIZE + 4);
    EntryDescriptor { name, size, offset }
}

/// Decodes the `entry_count` records of the entry table, in table order.
/// Fails when the archive is too short to hold all of them.
pub fn parse_entries(buf: &[u8], entry_count: u32) -> (r: Result<Vec<EntryDescriptor>, GpkError>)
    ensures
        match r {
            Ok(v) => parse_entries_spec(buf@, entry_count) == Ok::<Seq<EntryView>, GpkError>(
                entries_view(v@),
            ),
            Err(e) => parse_entries_spec(buf@, entry_count) == Err::<Seq<EntryView>, GpkError>(e),
        },
        r is Err <==> buf@.len() < table_end(entry_count),
        r matches Ok(v) ==> v@.len() == entry_count,
{
    assert(entry_count * ENTRY_SIZE <= 0xffff_ffff * ENTRY_SIZE) by (nonlinear_arith)
        requires
            entry_count <= 0xffff_ffff,
    ;
    let needed: u64 = entry_count as u64 * ENTRY_SIZE as u64 + HEADER_SIZE as u64;
    if (buf.len() as u64) < needed {
        return Err(GpkError::TruncatedEntryTable { entry_count, buffer_len: buf.len() });
    }
    let mut v: Vec<EntryDescriptor> = Vec::new();
    let mut i: u32 = 0;
    while i < entry_count
        invariant
            i <= entry_count,
            table_end(entry_count) <= buf@.len(),
            v@.len() == i,
            forall|j: int| 0 <= j < i ==> (#[trigger] v@[j])@ == record_at(buf@, j),
        decreases entry_count - i,
    {
        let e = parse_record(buf, i as usize);
        v.push(e);
        i = i + 1;
    }
    assert(entries_view(v@) =~= Seq::new(entry_count as nat, |j: int| record_at(buf@, j)));
    Ok(v)
}

/// A table of no entries is decoded from any archive that holds the header,
/// whatever follows it.
pub proof fn lemma_empty_table(b: Seq<u8>)
    requires
        b.len() >= HEADER_SIZE,
    ensures
        parse_entries_spec(b, 0) == Ok::<Seq<EntryView>, GpkError>(Seq::<EntryView>::empty()),
{
    assert(Seq::new(0, |i: int| record_at(b, i)) =~= Seq::<EntryView>::empty());
}

/// Decoding the entry table reads nothing past its end: the bytes that
/// follow it do not change the entries.
pub proof fn lemma_entries_read_only_table(b: Seq<u8>, n: u32)
    requires
        b.len() >= table_end(n),
    ensures
        parse_entries_spec(b, n) == parse_entries_spec(b.subrange(0, table_end(n)), n),
{
    let c = b.subrange(0, table_end(n));
    assert forall|i: int| 0 <= i < n implies record_at(b, i) == record_at(c, i) by {
        let s = record_start(i);
        assert(s + ENTRY_SIZE <= table_end(n)) by (nonlinear_arith)
            requires s == HEADER_SIZE + i * ENTRY_SIZE, i < n, table_end(n) == HEADER_SIZE + n * ENTRY_SIZE;
        assert(b.subrange(s, s + NAME_FIELD_SIZE) =~= c.subrange(s, s + NAME_FIELD_SIZE));
    }
    assert(Seq::new(n as nat, |i: int| record_at(b, i)) =~= Seq::new(n as nat, |i: int| record_at(c, i)));
}

} // verus!
