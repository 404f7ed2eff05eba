use vstd::prelude::*;

use rand::distributions::{Alphanumeric, DistString};
use rand::Rng;

verus! {

/// Whether `b` is an ASCII digit, upper-case letter or lower-case letter.
pub open spec fn is_alphanumeric(b: u8) -> bool {
    (48 <= b <= 57) || (65 <= b <= 90) || (97 <= b <= 122)
}

/// Relies on rand's `Rng::fill` on `thread_rng()`: it overwrites every byte
/// of the buffer with a random one and keeps its length.
#[verifier::external_body]
fn fill_random(buf: &mut Vec<u8>)
    ensures
        final(buf)@.len() == old(buf)@.len(),
{
    rand::thread_rng().fill(&mut buf[..]);
}

/// Relies on rand's `DistString::sample_string` for `Alphanumeric`: `len`
/// characters, each drawn from `A-Z`, `a-z` and `0-9`, so `len` bytes.
#[verifier::external_body]
fn alphanumeric_bytes(len: usize) -> (r: Vec<u8>)
    ensures
        r@.len() == len,
        forall|i: int| 0 <= i < len ==> is_alphanumeric(#[trigger] r@[i]),
{
    Alphanumeric.sample_string(&mut rand::thread_rng(), len).into_bytes()
}

/// A block of `len` zero bytes.
pub fn zero_block(len: usize) -> (r: Vec<u8>)
    ensures
        r@ == Seq::new(len as nat, |i: int| 0u8),
{
    let mut block: Vec<u8> = Vec::new();
    let mut i: usize = 0;
    while i < len
        invariant
            i <= len,
            block@ == Seq::new(i as nat, |j: int| 0u8),
        decreases len - i,
    {
        block.push(0u8);
        i = i + 1;
        assert(block@ =~= Seq::new(i as nat, |j: int| 0u8));
    }
    block
}

/// A block of `len` random bytes; with `is_ascii`, each of them an ASCII
/// letter or digit.
pub fn random_block(len: usize, is_ascii: bool) -> (r: Vec<u8>)
    ensures
        r@.len() == len,
        is_ascii ==> forall|i: int| 0 <= i < len ==> is_alphanumeric(#[trigger] r@[i]),
{
    if is_ascii {
        alphanumeric_bytes(len)
    } else {
        let mut block = zero_block(len);
        fill_random(&mut block);
        block
    }
}

} // verus!
