pub mod py_dict;
pub mod ztag;

use vstd::prelude::*;

verus! {

/// One decoded (record-index, key, value) triple. Both wire decoders yield
/// this shape; the caller owns the returned strings.
#[derive(Debug, PartialEq)]
pub struct P4KeyValuePair {
    pub dict_index: u32,
    pub key: String,
    pub value: String,
}

/// The common pull interface of the two wire decoders: the next triple,
/// `None` once the stream is exhausted, or a decoder error.
pub trait P4KvpStream<ErrorT> {
    /// Whether the stream is in a state in which it may be pulled; every pull
    /// leaves it so.
    spec fn ready(&self) -> bool;

    fn get_next_kvp(&mut self) -> (r: Result<Option<P4KeyValuePair>, ErrorT>)
        requires
            old(self).ready(),
        ensures
            final(self).ready(),
    ;
}

/// Compare two byte strings.
pub(crate) fn bytes_eq(a: &[u8], b: &[u8]) -> (r: bool)
    ensures
        r == (a@ == b@),
{
    if a.len() != b.len() {
        return false;
    }
    let n = a.len();
    let mut i: usize = 0;
    while i < n
        invariant
            0 <= i <= n,
            n == a@.len(),
            n == b@.len(),
            forall|j: int| 0 <= j < i ==> a@[j] == b@[j],
        decreases n - i,
    {
        if a[i] != b[i] {
            return false;
        }
        i = i + 1;
    }
    proof {
        assert(a@ =~= b@);
    }
    true
}

/// Compare two text strings by their characters.
pub(crate) fn str_eq(a: &str, b: &str) -> (r: bool)
    ensures
        r == (a@ == b@),
{
    let r = bytes_eq(a.as_bytes(), b.as_bytes());
    proof {
        vstd::utf8::encode_utf8_decode_utf8(a@);
        vstd::utf8::encode_utf8_decode_utf8(b@);
    }
    r
}

/// Relies on core::str::from_utf8: succeeds exactly on well-formed UTF-8 and
/// yields the decoded characters of the input bytes.
#[verifier::external_body]
pub(crate) fn utf8_to_str(bytes: &[u8]) -> (r: Option<&str>)
    ensures
        r is Some <==> vstd::utf8::valid_utf8(bytes@),
        r matches Some(s) ==> s@ == vstd::utf8::decode_utf8(bytes@),
{
    core::str::from_utf8(bytes).ok()
}

} // verus!
