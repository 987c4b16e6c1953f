//! Genomes and their deterministic combination during breeding.

use vstd::prelude::*;

verus! {

/// A collectible asset's traits: a fixed 16-byte genome, immutable once the
/// asset has been created.
#[derive(Clone, Copy, PartialEq, Eq, Debug)]
pub struct Kitty(pub [u8; 16]);

/// The byte a child inherits at one position: each bit set in `sel` is taken
/// from `a`, each bit clear in `sel` is taken from `b`.
pub open spec fn mix_byte(sel: u8, a: u8, b: u8) -> u8 {
    (sel & a) | (!sel & b)
}

/// The child genome obtained from parents `a` and `b` under `sel`, byte for
/// byte: `combine_spec(a, b, sel)[i] == (sel[i] & a[i]) | (!sel[i] & b[i])`.
pub open spec fn combine_spec(a: Seq<u8>, b: Seq<u8>, sel: Seq<u8>) -> Seq<u8> {
    Seq::new(16, |i: int| mix_byte(sel[i], a[i], b[i]))
}

/// Combines two parent genomes into a child genome under a 16-byte selector.
///
/// Deterministic and bit-exact: for every byte position `i` the result holds
/// `(selector[i] & a[i]) | (!selector[i] & b[i])`, as `combine_spec` states.
pub fn combine(a: &Kitty, b: &Kitty, selector: &[u8; 16]) -> (child: Kitty)
    ensures
        child.0@ == combine_spec(a.0@, b.0@, selector@),
{
    let mut dna: [u8; 16] = [0u8; 16];
    let mut i: usize = 0;
    while i < 16
        invariant
            i <= 16,
            forall|j: int| 0 <= j < i ==> dna@[j] == mix_byte(selector@[j], a.0@[j], b.0@[j]),
        decreases 16 - i,
    {
        dna[i] = (selector[i] & a.0[i]) | (!selector[i] & b.0[i]);
        i = i + 1;
    }
    proof {
        assert(dna@ =~= combine_spec(a.0@, b.0@, selector@));
    }
    Kitty(dna)
}

} // verus!
