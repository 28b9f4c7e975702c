use vstd::prelude::*;

verus! {

/// `heapless::Vec`, a vector in a fixed number of slots; only the functions
/// below look inside.
#[verifier::external_type_specification]
#[verifier::external_body]
#[verifier::reject_recursive_types(T)]
pub struct ExVec<T, const N: usize>(heapless::Vec<T, N>);

/// The bytes held by a payload chunk, in order.
pub uninterp spec fn chunk_bytes(v: heapless::Vec<u8, 365>) -> Seq<u8>;

/// `heapless::Vec::<u8, 365>::new`: the new chunk holds no bytes.
#[verifier::external_body]
pub(crate) fn chunk_new() -> (v: heapless::Vec<u8, 365>)
    ensures
        chunk_bytes(v) == Seq::<u8>::empty(),
{
    heapless::Vec::new()
}

/// `heapless::Vec::as_slice`: the slice holds the chunk's bytes, which are
/// never more than the capacity of 365.
#[verifier::external_body]
pub(crate) fn chunk_as_slice(v: &heapless::Vec<u8, 365>) -> (s: &[u8])
    ensures
        s@ == chunk_bytes(*v),
        s@.len() <= 365,
{
    v.as_slice()
}

/// `heapless::Vec::is_empty`: whether the chunk holds no bytes.
#[verifier::external_body]
pub(crate) fn chunk_is_empty(v: &heapless::Vec<u8, 365>) -> (b: bool)
    ensures
        b == (chunk_bytes(*v).len() == 0),
{
    v.is_empty()
}

/// `heapless::Vec::clear`: the chunk holds no bytes afterwards.
#[verifier::external_body]
pub(crate) fn chunk_clear(v: &mut heapless::Vec<u8, 365>)
    ensures
        chunk_bytes(*final(v)) == Seq::<u8>::empty(),
{
    v.clear()
}

/// `heapless::Vec::truncate`: keeps the first `len` bytes; a `len` beyond the
/// current length changes nothing.
#[verifier::external_body]
pub(crate) fn chunk_truncate(v: &mut heapless::Vec<u8, 365>, len: usize)
    ensures
        len <= chunk_bytes(*old(v)).len() ==> chunk_bytes(*final(v)) == chunk_bytes(*old(v)).take(
            len as int,
        ),
        len > chunk_bytes(*old(v)).len() ==> chunk_bytes(*final(v)) == chunk_bytes(*old(v)),
{
    v.truncate(len)
}

/// `<[u8]>::rotate_left` on the chunk's bytes, which `heapless::Vec` lends
/// out as a slice: the first `mid` bytes move to the end and the others move
/// to the front, each group keeping its order.
#[verifier::external_body]
pub(crate) fn chunk_rotate_left(v: &mut heapless::Vec<u8, 365>, mid: usize)
    requires
        mid <= chunk_bytes(*old(v)).len(),
    ensures
        chunk_bytes(*final(v)) == chunk_bytes(*old(v)).skip(mid as int) + chunk_bytes(
            *old(v),
        ).take(mid as int),
{
    v.rotate_left(mid)
}

} // verus!
