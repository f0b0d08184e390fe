use vstd::prelude::*;

use crate::coords::File;
use crate::coords::Piece;
use crate::coords::Rank;
use crate::squares::Square;

verus! {

/// Relies on rand's thread_rng and Rng::gen_range over `0..n`: the sample
/// lies in the range, and the call panics only on an empty range, which
/// the precondition rules out.
#[verifier::external_body]
fn random_below(n: usize) -> (r: usize)
    requires
        n > 0,
    ensures
        r < n,
{
    rand::Rng::gen_range(&mut rand::thread_rng(), 0..n)
}

impl Piece {
    /// A piece kind drawn at random.
    pub fn get_random() -> (r: Self) {
        let all = Self::all();
        let i = random_below(all.len());
        all[i]
    }

    /// A piece kind other than the pawn, drawn at random.
    pub fn get_random_non_pawn() -> (r: Self)
        ensures
            r != Piece::Pawn,
    {
        let all = Self::all_non_pawn();
        let i = random_below(all.len());
        all[i]
    }
}

impl File {
    /// A column drawn at random.
    pub fn get_random() -> (r: Self) {
        Self::from_u64(random_below(8) as u64)
    }
}

impl Rank {
    /// A row drawn at random.
    pub fn get_random() -> (r: Self) {
        Self::from_u64(random_below(8) as u64)
    }
}

impl Square {
    /// A square drawn at random.
    pub fn get_random() -> (r: Self) {
        Self::new(File::get_random(), Rank::get_random())
    }
}

} // verus!
