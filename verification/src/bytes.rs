//! Thirty-two-bit numbers as four bytes, most significant byte first.

use vstd::prelude::*;

verus! {

/// The four bytes of `x`, most significant first.
#[verifier::opaque]
pub open spec fn be_bytes(x: u32) -> Seq<u8> {
    seq![
        (x / 0x100_0000) as u8,
        ((x / 0x1_0000) % 0x100) as u8,
        ((x / 0x100) % 0x100) as u8,
        (x % 0x100) as u8,
    ]
}

/// The number whose four bytes, most significant first, are `b`.
#[verifier::opaque]
pub open spec fn be_u32(b: Seq<u8>) -> u32 {
    (b[0] * 0x100_0000 + b[1] * 0x1_0000 + b[2] * 0x100 + b[3]) as u32
}

/// Reading the four bytes of a number gives the number back.
pub proof fn lemma_be_u32_of_bytes(x: u32)
    ensures
        be_bytes(x).len() == 4,
        be_u32(be_bytes(x)) == x,
{
    reveal(be_bytes);
    reveal(be_u32);
    assert(x / 0x100_0000 < 0x100 && x == (x / 0x100_0000) * 0x100_0000 + ((x / 0x1_0000) % 0x100)
        * 0x1_0000 + ((x / 0x100) % 0x100) * 0x100 + (x % 0x100)) by (bit_vector);
}

/// Writing the number that four bytes spell gives the four bytes back.
pub proof fn lemma_be_bytes_of_u32(b: Seq<u8>)
    requires
        b.len() == 4,
    ensures
        be_bytes(be_u32(b)) == b,
{
    reveal(be_bytes);
    reveal(be_u32);
    let (b0, b1, b2, b3) = (b[0], b[1], b[2], b[3]);
    let x: u32 = be_u32(b);
    assert(x == b0 * 0x100_0000 + b1 * 0x1_0000 + b2 * 0x100 + b3);
    assert(x / 0x100_0000 == b0 && (x / 0x1_0000) % 0x100 == b1 && (x / 0x100) % 0x100 == b2 && x
        % 0x100 == b3) by (bit_vector)
        requires
            x == b0 * 0x100_0000 + b1 * 0x1_0000 + b2 * 0x100 + b3,
    ;
    assert(be_bytes(x) =~= b);
}

/// Two sequences of four bytes that spell the same number are the same.
pub proof fn lemma_be_u32_injective(a: Seq<u8>, b: Seq<u8>)
    requires
        a.len() == 4,
        b.len() == 4,
        be_u32(a) == be_u32(b),
    ensures
        a == b,
{
    lemma_be_bytes_of_u32(a);
    lemma_be_bytes_of_u32(b);
}

/// The four bytes of `x`, most significant first.
pub fn u32_to_be(x: u32) -> (r: [u8; 4])
    ensures
        r@ == be_bytes(x),
{
    proof {
        reveal(be_bytes);
    }
    let r: [u8; 4] = [
        (x / 0x100_0000) as u8,
        ((x / 0x1_0000) % 0x100) as u8,
        ((x / 0x100) % 0x100) as u8,
        (x % 0x100) as u8,
    ];
    assert(r@ =~= be_bytes(x));
    r
}

/// The number whose four bytes, most significant first, are `b`.
pub fn u32_from_be(b: [u8; 4]) -> (r: u32)
    ensures
        r == be_u32(b@),
{
    proof {
        reveal(be_u32);
    }
    let b0: u32 = b[0] as u32;
    let b1: u32 = b[1] as u32;
    let b2: u32 = b[2] as u32;
    let b3: u32 = b[3] as u32;
    b0 * 0x100_0000 + b1 * 0x1_0000 + b2 * 0x100 + b3
}

} // verus!
