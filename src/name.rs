use vstd::prelude::*;

verus! {

/// Width of the name field of an entry record.
pub const NAME_FIELD_SIZE: usize = 260;

/// The text that `String::from_utf8_lossy` makes of the bytes `b`.
pub uninterp spec fn utf8_lossy(b: Seq<u8>) -> Seq<char>;

/// Every byte of `b` is ASCII.
pub open spec fn is_ascii_bytes(b: Seq<u8>) -> bool {
    forall|i: int| 0 <= i < b.len() ==> b[i] < 128
}

/// The characters that the ASCII bytes `b` stand for, one for one.
pub open spec fn ascii_chars(b: Seq<u8>) -> Seq<char> {
    b.map_values(|x: u8| x as char)
}

/// The index of the first null byte of `f` at or after `i`, or its length.
pub open spec fn first_null_from(f: Seq<u8>, i: int) -> int
    decreases f.len() - i,
{
    if i >= f.len() {
        f.len() as int
    } else if f[i] == 0 {
        i
    } else {
        first_null_from(f, i + 1)
    }
}

/// The length of the name held in the field `f`: up to its first null byte.
pub open spec fn name_len(f: Seq<u8>) -> int {
    first_null_from(f, 0)
}

/// The bytes of the name held in the field `f`.
pub open spec fn name_bytes(f: Seq<u8>) -> Seq<u8> {
    f.subrange(0, name_len(f))
}

/// The decoded name held in the field `f`.
pub open spec fn decoded_name(f: Seq<u8>) -> Seq<char> {
    utf8_lossy(name_bytes(f))
}

/// Relies on `String::from_utf8_lossy`: the text depends on the bytes
/// alone, and ASCII bytes, being valid UTF-8, become the same characters.
#[verifier::external_body]
fn text_of(b: &[u8]) -> (r: String)
    ensures
        r@ == utf8_lossy(b@),
        is_ascii_bytes(b@) ==> r@ == ascii_chars(b@),
{
    String::from_utf8_lossy(b).into_owned()
}

proof fn lemma_first_null_from(f: Seq<u8>, i: int)
    requires
        0 <= i <= f.len(),
    ensures
        i <= first_null_from(f, i) <= f.len(),
        forall|j: int| i <= j < first_null_from(f, i) ==> f[j] != 0,
        first_null_from(f, i) < f.len() ==> f[first_null_from(f, i)] == 0,
    decreases f.len() - i,
{
    if i < f.len() && f[i] != 0 {
        lemma_first_null_from(f, i + 1);
    }
}

/// The first null byte of `f` ends the name; the name bytes hold none.
pub proof fn lemma_name_len(f: Seq<u8>)
    ensures
        0 <= name_len(f) <= f.len(),
        forall|j: int| 0 <= j < name_len(f) ==> f[j] != 0,
        name_len(f) < f.len() ==> f[name_len(f)] == 0,
{
    lemma_first_null_from(f, 0);
}

/// Finds where the name in `field` ends: at its first null byte, or at its
/// end when it holds none.
pub fn name_end(field: &[u8]) -> (r: usize)
    ensures
        r == name_len(field@),
        r <= field@.len(),
        forall|j: int| 0 <= j < r ==> field@[j] != 0,
        r < field@.len() ==> field@[r as int] == 0,
{
    proof {
        lemma_name_len(field@);
    }
    let mut i: usize = 0;
    while i < field.len() && field[i] != 0
        invariant
            i <= field@.len(),
            first_null_from(field@, i as int) == name_len(field@),
        decreases field@.len() - i,
    {
        i = i + 1;
    }
    i
}

/// Decodes the name held in a null-padded name field: the text of the bytes
/// before the first null byte, or of the whole field when it holds none.
pub fn decode_name(field: &[u8]) -> (r: String)
    ensures
        r@ == decoded_name(field@),
        is_ascii_bytes(name_bytes(field@)) ==> r@ == ascii_chars(name_bytes(field@)),
        (forall|j: int| 0 <= j < field@.len() ==> field@[j] != 0) ==> r@ == utf8_lossy(field@),
{
    let end = name_end(field);
    let bytes = vstd::slice::slice_subrange(field, 0, end);
    proof {
        if forall|j: int| 0 <= j < field@.len() ==> field@[j] != 0 {
            assert(field@.subrange(0, field@.len() as int) =~= field@);
        }
    }
    text_of(bytes)
}

} // verus!
