//! Addresses: the names under which overrides are looked up.
//!
//! An address is a chain of upper-cased segments joined by `_`. The first
//! segment is the prefix, the others are the names of the record fields that
//! lead from the root to the addressed node.

use vstd::prelude::*;
use vstd::string::StringSliceAdditionalSpecFns;

verus! {

/// The upper-case form of a text, as `str::to_uppercase` of the standard
/// library gives it.
pub uninterp spec fn uppercased(text: Seq<char>) -> Seq<char>;

/// Upper-cases a text with `str::to_uppercase` of the standard library.
///
/// Nothing is proved of the result: it is the text that [`uppercased`] names.
#[verifier::external_body]
pub(crate) fn to_upper(text: &str) -> (upper: String)
    ensures
        upper@ == uppercased(text@),
{
    text.to_uppercase()
}

/// The address one level below `address`, under the segment `segment`.
pub open spec fn extended(address: Seq<char>, segment: Seq<char>) -> Seq<char> {
    address + seq!['_'] + segment
}

/// The segments joined by `_`, from the first to the last.
pub open spec fn joined(segments: Seq<Seq<char>>) -> Seq<char>
    decreases segments.len(),
{
    if segments.len() == 0 {
        Seq::empty()
    } else if segments.len() == 1 {
        segments[0]
    } else {
        extended(joined(segments.drop_last()), segments.last())
    }
}

/// Each text in its upper-case form.
pub open spec fn all_uppercased(names: Seq<Seq<char>>) -> Seq<Seq<char>> {
    Seq::new(names.len(), |i: int| uppercased(names[i]))
}

/// The texts that a list of strings holds.
pub open spec fn texts(strings: Seq<String>) -> Seq<Seq<char>> {
    Seq::new(strings.len(), |i: int| strings[i]@)
}

/// Whether two texts are the same, character by character.
pub fn same_text(left: &str, right: &str) -> (same: bool)
    ensures
        same == (left@ == right@),
{
    let a = left.as_bytes();
    let b = right.as_bytes();
    proof {
        vstd::utf8::encode_utf8_decode_utf8(left@);
        vstd::utf8::encode_utf8_decode_utf8(right@);
    }
    if a.len() != b.len() {
        return false;
    }
    let mut i: usize = 0;
    while i < a.len()
        invariant
            i <= a.len(),
            a.len() == b.len(),
            a@ == left.spec_bytes(),
            b@ == right.spec_bytes(),
            forall|j: int| 0 <= j < i ==> a@[j] == b@[j],
        decreases a.len() - i,
    {
        if a[i] != b[i] {
            return false;
        }
        i += 1;
    }
    assert(a@ =~= b@);
    true
}

/// Extends an address by one segment.
pub fn extend(address: &str, segment: &str) -> (longer: String)
    ensures
        longer@ == extended(address@, segment@),
{
    proof {
        reveal_strlit("_");
    }
    let longer = address.to_owned().concat("_").concat(segment);
    assert("_"@ =~= seq!['_']);
    longer
}

/// Joins the segments of a path into its address.
pub fn join(segments: &Vec<String>) -> (address: String)
    ensures
        address@ == joined(texts(segments@)),
{
    let mut address = String::new();
    let mut i: usize = 0;
    while i < segments.len()
        invariant
            i <= segments.len(),
            address@ == joined(texts(segments@).take(i as int)),
        decreases segments.len() - i,
    {
        let ghost before = texts(segments@).take(i as int);
        let ghost after = texts(segments@).take(i + 1);
        assert(after.drop_last() =~= before);
        assert(after.last() == segments[i as int]@);
        if i == 0 {
            address = segments[i].clone();
        } else {
            address = extend(address.as_str(), segments[i].as_str());
        }
        i += 1;
    }
    assert(texts(segments@).take(segments.len() as int) =~= texts(segments@));
    address
}

} // verus!
