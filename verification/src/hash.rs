use vstd::prelude::*;

verus! {

/// The 64-bit rolling hash of a byte string: starting from 0, each byte `b`
/// turns the running value `h` into `h * 31 + b`, wrapping in `i64`.
pub open spec fn spec_fast_hash(bytes: Seq<u8>) -> i64
    decreases bytes.len(),
{
    if bytes.len() == 0 {
        0
    } else {
        (spec_fast_hash(bytes.drop_last()) * 31 + bytes.last()) as i64
    }
}

/// The hash that `freenet_scaffold::util::fast_hash` computes over `bytes`,
/// as its source shows it: the wrapping rolling hash above.
#[verifier::external_body]
pub(crate) fn fast_hash(bytes: &[u8]) -> (r: i64)
    ensures
        r == spec_fast_hash(bytes@),
{
    freenet_scaffold::util::fast_hash(bytes).0
}

} // verus!
