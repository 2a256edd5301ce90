//! Crossover: the child takes its genes from the two parents in turn.

use vstd::prelude::*;

verus! {

/// The child of `first` and `second`: at an even position the gene of `first`,
/// at an odd position the gene of `second`.
pub open spec fn spec_mix(first: Seq<bool>, second: Seq<bool>) -> Seq<bool> {
    Seq::new(
        first.len(),
        |i: int|
            if i % 2 == 0 {
                first[i]
            } else {
                second[i]
            },
    )
}

/// Crossing a chromosome with itself gives the chromosome back.
pub proof fn lemma_mix_with_itself(parent: Seq<bool>)
    ensures
        spec_mix(parent, parent) == parent,
{
    assert(spec_mix(parent, parent) =~= parent);
}

/// Crosses two parents of one length into a child of that length.
pub fn mix(c1: &Vec<bool>, c2: &Vec<bool>) -> (child: Vec<bool>)
    requires
        c1.len() == c2.len(),
    ensures
        child@ == spec_mix(c1@, c2@),
        child.len() == c1.len(),
        forall|i: int| 0 <= i < child.len() && i % 2 == 0 ==> child[i] == c1[i],
        forall|i: int| 0 <= i < child.len() && i % 2 == 1 ==> child[i] == c2[i],
        c1@ == c2@ ==> child@ == c1@,
{
    let mut child: Vec<bool> = Vec::new();
    let mut i: usize = 0;
    while i < c1.len()
        invariant
            c1.len() == c2.len(),
            i <= c1.len(),
            child.len() == i,
            forall|k: int| 0 <= k < i ==> child[k] == spec_mix(c1@, c2@)[k],
        decreases c1.len() - i,
    {
        let gene = if i % 2 == 0 {
            c1[i]
        } else {
            c2[i]
        };
        child.push(gene);
        i += 1;
    }
    proof {
        assert(child@ =~= spec_mix(c1@, c2@));
        lemma_mix_with_itself(c1@);
    }
    child
}

} // verus!
