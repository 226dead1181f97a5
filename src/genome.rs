//! Genomes and their two-parent crossover.
use vstd::prelude::*;

verus! {

/// The number of bytes in a genome.
pub const GENOME_LEN: usize = 16;

/// One byte of a crossover: each bit comes from `a` where the selector bit
/// is set, and from `b` where it is clear.
pub open spec fn cross_byte(s: u8, a: u8, b: u8) -> u8 {
    (s & a) | (!s & b)
}

/// The crossover of two genomes under a selector, byte by byte.
pub open spec fn crossover(selector: Seq<u8>, a: Seq<u8>, b: Seq<u8>) -> Seq<u8> {
    Seq::new(a.len(), |i: int| cross_byte(selector[i], a[i], b[i]))
}

/// Bit `k` of `x`.
pub open spec fn bit(x: u8, k: u8) -> bool {
    (x >> k) & 1u8 == 1u8
}

/// Combines the genomes of two parents under a selector: the child takes
/// each bit from `dna_m` where the selector bit is set, else from `dna_f`.
pub fn combine_dna(selector: &[u8; 16], dna_m: &[u8; 16], dna_f: &[u8; 16]) -> (r: [u8; 16])
    ensures
        r@ == crossover(selector@, dna_m@, dna_f@),
{
    let mut dna: [u8; 16] = [0u8; 16];
    let mut i: usize = 0;
    while i < GENOME_LEN
        invariant
            i <= GENOME_LEN,
            dna@.len() == GENOME_LEN,
            forall|j: int| 0 <= j < i ==> dna@[j] == cross_byte(selector@[j], dna_m@[j], dna_f@[j]),
        decreases GENOME_LEN - i,
    {
        dna[i] = (selector[i] & dna_m[i]) | (!selector[i] & dna_f[i]);
        i = i + 1;
    }
    assert(dna@ =~= crossover(selector@, dna_m@, dna_f@));
    dna
}

/// Bit by bit, a crossed byte takes the bit of `a` where the selector bit is
/// set and the bit of `b` where it is clear.
pub proof fn lemma_cross_byte_bits(s: u8, a: u8, b: u8, k: u8)
    requires
        k < 8,
    ensures
        bit(s, k) ==> bit(cross_byte(s, a, b), k) == bit(a, k),
        !bit(s, k) ==> bit(cross_byte(s, a, b), k) == bit(b, k),
{
    assert(((s >> k) & 1u8 == 1u8) ==> ((((s & a) | (!s & b)) >> k) & 1u8 == 1u8) == ((a >> k) & 1u8 == 1u8))
        by (bit_vector)
        requires
            k < 8,
    ;
    assert(!((s >> k) & 1u8 == 1u8) ==> ((((s & a) | (!s & b)) >> k) & 1u8 == 1u8) == ((b >> k) & 1u8 == 1u8))
        by (bit_vector)
        requires
            k < 8,
    ;
}

/// A crossover is determined by the selector and the parents, and each bit
/// of the child at every position is the bit of parent `a` where the
/// selector bit is set and the bit of parent `b` where it is clear.
pub proof fn lemma_crossover_bits(selector: Seq<u8>, a: Seq<u8>, b: Seq<u8>, i: int, k: u8)
    requires
        selector.len() == a.len(),
        b.len() == a.len(),
        0 <= i < a.len(),
        k < 8,
    ensures
        crossover(selector, a, b).len() == a.len(),
        bit(selector[i], k) ==> bit(crossover(selector, a, b)[i], k) == bit(a[i], k),
        !bit(selector[i], k) ==> bit(crossover(selector, a, b)[i], k) == bit(b[i], k),
{
    lemma_cross_byte_bits(selector[i], a[i], b[i], k);
}

} // verus!
