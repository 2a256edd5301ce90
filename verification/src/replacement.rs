//! Replacement: the child takes the slot of the weakest chromosome.

use crate::population::spec_genes;
use crate::ranking::Score;
use vstd::prelude::*;

verus! {

/// Puts `child` into the slot of the last entry of the ranking `scored`, the
/// weakest chromosome, whatever the child is worth. Every other slot stays as
/// it is.
pub fn replace_weakest(population: &mut Vec<Vec<bool>>, scored: &Vec<Score>, child: Vec<bool>)
    requires
        scored.len() > 0,
        scored@.last().index < old(population).len(),
    ensures
        final(population)@ == old(population)@.update(scored@.last().index as int, child),
        final(population).len() == old(population).len(),
        final(population)[scored@.last().index as int] == child,
        forall|slot: int|
            0 <= slot < old(population).len() && slot != scored@.last().index
                ==> final(population)[slot] == old(population)[slot],
        spec_genes(final(population)@) == spec_genes(old(population)@).update(
            scored@.last().index as int,
            child@,
        ),
{
    let last_chromosome_index = scored[scored.len() - 1].index;
    population.set(last_chromosome_index, child);
    proof {
        assert(spec_genes(population@) =~= spec_genes(old(population)@).update(
            last_chromosome_index as int,
            child@,
        ));
    }
}

} // verus!
