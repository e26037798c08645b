//! Byte-sequence searches and trims used by the protocol decoders and the
//! message logs.
use vstd::prelude::*;
use vstd::utf8::valid_utf8;

verus! {

/// The index of the first occurrence of `b` in `s`, if any.
pub open spec fn find_first(s: Seq<u8>, b: u8) -> Option<nat>
    decreases s.len(),
{
    if s.len() == 0 {
        None
    } else if s[0] == b {
        Some(0)
    } else {
        match find_first(s.drop_first(), b) {
            Some(i) => Some(i + 1),
            None => None,
        }
    }
}

/// `find_first` gives the first position holding `b`, and `None` exactly when
/// no position holds it.
pub proof fn lemma_find_first(s: Seq<u8>, b: u8)
    ensures
        match find_first(s, b) {
            Some(i) => i < s.len() && s[i as int] == b && forall|j: int|
                0 <= j < i ==> s[j] != b,
            None => forall|j: int| 0 <= j < s.len() ==> s[j] != b,
        },
    decreases s.len(),
{
    if s.len() > 0 && s[0] != b {
        lemma_find_first(s.drop_first(), b);
        match find_first(s.drop_first(), b) {
            Some(i) => {
                assert forall|j: int| 0 <= j < i + 1 implies s[j] != b by {
                    if j > 0 {
                        assert(s[j] == s.drop_first()[j - 1]);
                    }
                }
            },
            None => {
                assert forall|j: int| 0 <= j < s.len() implies s[j] != b by {
                    if j > 0 {
                        assert(s[j] == s.drop_first()[j - 1]);
                    }
                }
            },
        }
    }
}

/// `memchr::memchr`: the index of the first byte of `haystack` equal to
/// `needle`, or `None` when no byte is. Trusted: the crate documents this
/// result; it is not proved here.
#[verifier::external_body]
pub(crate) fn first_index_of(haystack: &[u8], needle: u8) -> (r: Option<usize>)
    ensures
        match r {
            Some(i) => find_first(haystack@, needle) == Some(i as nat),
            None => find_first(haystack@, needle) is None,
        },
{
    memchr::memchr(needle, haystack)
}

/// `core::str::from_utf8`: the text `bytes` hold when they are well-formed
/// UTF-8, and `None` when they are not, as the standard library documents
/// it. The text's UTF-8 encoding is the bytes themselves.
#[verifier::external_body]
pub(crate) fn utf8_text(bytes: &[u8]) -> (r: Option<&str>)
    ensures
        r is Some <==> valid_utf8(bytes@),
        r matches Some(s) ==> vstd::utf8::encode_utf8(s@) == bytes@,
{
    core::str::from_utf8(bytes).ok()
}

/// Whether `bytes` are well-formed UTF-8.
pub fn is_utf8(bytes: &[u8]) -> (r: bool)
    ensures
        r == valid_utf8(bytes@),
{
    utf8_text(bytes).is_some()
}

/// `s` with every trailing zero byte removed.
pub open spec fn trim_nils(s: Seq<u8>) -> Seq<u8>
    decreases s.len(),
{
    if s.len() == 0 {
        s
    } else if s.last() == 0 {
        trim_nils(s.drop_last())
    } else {
        s
    }
}

/// The trimmed sequence is a prefix that does not end in a zero byte, and all
/// that was cut off is zero bytes.
pub proof fn lemma_trim_nils(s: Seq<u8>)
    ensures
        trim_nils(s).len() <= s.len(),
        trim_nils(s) =~= s.subrange(0, trim_nils(s).len() as int),
        trim_nils(s).len() == 0 || trim_nils(s).last() != 0,
        forall|j: int| trim_nils(s).len() <= j < s.len() ==> s[j] == 0,
    decreases s.len(),
{
    if s.len() > 0 && s.last() == 0 {
        lemma_trim_nils(s.drop_last());
        assert forall|j: int| trim_nils(s).len() <= j < s.len() implies s[j] == 0 by {
            if j < s.len() - 1 {
                assert(s[j] == s.drop_last()[j]);
            }
        }
    }
}

/// Removes trailing zero bytes (a NUL-padded field's padding) from `data`.
pub fn trim_slice_nils(data: &[u8]) -> (r: &[u8])
    ensures
        r@ == trim_nils(data@),
{
    let mut end: usize = data.len();
    assert(data@.subrange(0, end as int) =~= data@);
    while end > 0 && data[end - 1] == 0
        invariant
            end <= data@.len(),
            trim_nils(data@) == trim_nils(data@.subrange(0, end as int)),
        decreases end,
    {
        assert(data@.subrange(0, end as int).drop_last() =~= data@.subrange(0, end - 1));
        end = end - 1;
    }
    assert(trim_nils(data@.subrange(0, end as int)) == data@.subrange(0, end as int));
    vstd::slice::slice_subrange(data, 0, end)
}

/// A boxed array of `SIZE` copies of `val`.
pub fn box_array<T: Copy, const SIZE: usize>(val: T) -> (r: Box<[T; SIZE]>)
    ensures
        forall|i: int| 0 <= i < SIZE ==> (*r)@[i] == val,
{
    Box::new([val; SIZE])
}

} // verus!
