//! The bytes of the game's records. The game writes its integers with the
//! lowest byte first.

use vstd::prelude::*;

verus! {

/// `record` with `bytes` written over what it held from position `at` on.
pub open spec fn written(record: Seq<u8>, at: int, bytes: Seq<u8>) -> Seq<u8> {
    record.subrange(0, at) + bytes + record.subrange(at + bytes.len(), record.len() as int)
}

/// Writes `bytes` into `record` from position `at` on.
pub(crate) fn put<const N: usize>(record: &mut [u8; N], at: usize, bytes: &[u8])
    requires
        at + bytes@.len() <= N,
    ensures
        final(record)@ == written(old(record)@, at as int, bytes@),
{
    let mut i: usize = 0;
    while i < bytes.len()
        invariant
            at + bytes@.len() <= N,
            i <= bytes@.len(),
            record@ =~= written(old(record)@, at as int, bytes@.subrange(0, i as int)),
        decreases bytes@.len() - i,
    {
        record[at + i] = bytes[i];
        i = i + 1;
    }
}
} // verus!
