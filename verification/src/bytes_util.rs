//! Small byte-buffer helpers shared by the parsers.

use vstd::prelude::*;

verus! {

/// The first index at or after `pos` holding `target`, or the length of the
/// sequence if there is none.
pub open spec fn spec_find_byte(bytes: Seq<u8>, pos: int, target: u8) -> int
    decreases bytes.len() - pos,
{
    if pos >= bytes.len() {
        bytes.len() as int
    } else if bytes[pos] == target {
        pos
    } else {
        spec_find_byte(bytes, pos + 1, target)
    }
}

/// Scans for the first occurrence of `target` at or after `pos`.
pub fn find_byte(bytes: &Vec<u8>, pos: usize, target: u8) -> (r: usize)
    requires
        pos <= bytes@.len(),
    ensures
        r == spec_find_byte(bytes@, pos as int, target),
        pos <= r <= bytes@.len(),
        r < bytes@.len() ==> bytes@[r as int] == target,
    decreases bytes@.len() - pos,
{
    if pos >= bytes.len() {
        bytes.len()
    } else if bytes[pos] == target {
        pos
    } else {
        find_byte(bytes, pos + 1, target)
    }
}

/// Compares two byte vectors for content equality.
pub fn eq_bytes(a: &Vec<u8>, b: &Vec<u8>) -> (r: bool)
    ensures
        r == (a@ == b@),
{
    let r = a == b;
    proof {
        if r {
            assert(a@ =~= b@);
        } else {
            if a@ == b@ {
                assert(forall|i: int| 0 <= i < a@.len() ==> a@[i] == b@[i]);
            }
        }
    }
    r
}

/// Copies `bytes[lo..hi]` into a fresh vector.
pub fn subvec(bytes: &Vec<u8>, lo: usize, hi: usize) -> (r: Vec<u8>)
    requires
        lo <= hi <= bytes@.len(),
    ensures
        r@ == bytes@.subrange(lo as int, hi as int),
{
    let mut r: Vec<u8> = Vec::new();
    let mut j: usize = lo;
    while j < hi
        invariant
            lo <= j <= hi <= bytes@.len(),
            r@ == bytes@.subrange(lo as int, j as int),
        decreases hi - j,
    {
        proof {
            assert(bytes@.subrange(lo as int, j as int + 1)
                =~= bytes@.subrange(lo as int, j as int) + seq![bytes@[j as int]]);
        }
        r.push(bytes[j]);
        j = j + 1;
    }
    r
}

} // verus!
