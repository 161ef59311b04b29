//! Property checks for a finite relation over a finite set of elements.
//!
//! The set is a list of elements and the relation a list of ordered pairs;
//! each check decides a universally quantified property over the listed
//! elements.

use vstd::prelude::*;

verus! {

/// The pair `(a, b)` stands in the relation.
pub open spec fn spec_related(rel: Seq<(u64, u64)>, a: u64, b: u64) -> bool {
    rel.contains((a, b))
}

/// Every listed element is related to itself.
pub open spec fn spec_reflexive(set: Seq<u64>, rel: Seq<(u64, u64)>) -> bool {
    forall|i: int| 0 <= i < set.len() ==> spec_related(rel, #[trigger] set[i], set[i])
}

/// Whenever `a` is related to `b` (both listed), `b` is related to `a`.
pub open spec fn spec_symmetric(set: Seq<u64>, rel: Seq<(u64, u64)>) -> bool {
    forall|i: int, j: int|
        #![trigger set[i], set[j]]
        0 <= i < set.len() && 0 <= j < set.len() && spec_related(rel, set[i], set[j])
            ==> spec_related(rel, set[j], set[i])
}

/// Whenever `a` is related to `b` and `b` to `c` (all listed), `a` is
/// related to `c`.
pub open spec fn spec_transitive(set: Seq<u64>, rel: Seq<(u64, u64)>) -> bool {
    forall|i: int, j: int, k: int|
        #![trigger set[i], set[j], set[k]]
        0 <= i < set.len() && 0 <= j < set.len() && 0 <= k < set.len() && spec_related(
            rel,
            set[i],
            set[j],
        ) && spec_related(rel, set[j], set[k]) ==> spec_related(rel, set[i], set[k])
}

/// Two distinct listed elements are never related in both directions.
pub open spec fn spec_antisymmetric(set: Seq<u64>, rel: Seq<(u64, u64)>) -> bool {
    forall|i: int, j: int|
        #![trigger set[i], set[j]]
        0 <= i < set.len() && 0 <= j < set.len() && spec_related(rel, set[i], set[j])
            && spec_related(rel, set[j], set[i]) ==> set[i] == set[j]
}

/// Whether the relation contains the pair `(a, b)`.
fn related(rel: &Vec<(u64, u64)>, a: u64, b: u64) -> (r: bool)
    ensures
        r == spec_related(rel@, a, b),
{
    let mut i: usize = 0;
    while i < rel.len()
        invariant
            i <= rel@.len(),
            forall|k: int| 0 <= k < i ==> #[trigger] rel@[k] != (a, b),
        decreases rel@.len() - i,
    {
        if rel[i].0 == a && rel[i].1 == b {
            assert(rel@[i as int] == (a, b));
            return true;
        }
        i += 1;
    }
    false
}

/// Whether every listed element is related to itself.
pub fn reflexive(set: &Vec<u64>, relation: &Vec<(u64, u64)>) -> (r: bool)
    ensures
        r == spec_reflexive(set@, relation@),
{
    let mut i: usize = 0;
    while i < set.len()
        invariant
            i <= set@.len(),
            forall|k: int| 0 <= k < i ==> spec_related(relation@, #[trigger] set@[k], set@[k]),
        decreases set@.len() - i,
    {
        if !related(relation, set[i], set[i]) {
            return false;
        }
        i += 1;
    }
    true
}

/// Whether the relation is symmetric over the listed elements.
pub fn symmetric(set: &Vec<u64>, relation: &Vec<(u64, u64)>) -> (r: bool)
    ensures
        r == spec_symmetric(set@, relation@),
{
    let mut i: usize = 0;
    while i < set.len()
        invariant
            i <= set@.len(),
            forall|x: int, y: int|
                #![trigger set@[x], set@[y]]
                0 <= x < i && 0 <= y < set@.len() && spec_related(relation@, set@[x], set@[y])
                    ==> spec_related(relation@, set@[y], set@[x]),
        decreases set@.len() - i,
    {
        let mut j: usize = 0;
        while j < set.len()
            invariant
                i < set@.len(),
                j <= set@.len(),
                forall|y: int|
                    0 <= y < j && spec_related(relation@, set@[i as int], #[trigger] set@[y])
                        ==> spec_related(relation@, set@[y], set@[i as int]),
            decreases set@.len() - j,
        {
            if related(relation, set[i], set[j]) && !related(relation, set[j], set[i]) {
                return false;
            }
            j += 1;
        }
        i += 1;
    }
    true
}

/// Whether the relation is transitive over the listed elements.
pub fn transitive(set: &Vec<u64>, relation: &Vec<(u64, u64)>) -> (r: bool)
    ensures
        r == spec_transitive(set@, relation@),
{
    let mut i: usize = 0;
    while i < set.len()
        invariant
            i <= set@.len(),
            forall|x: int, y: int, z: int|
                #![trigger set@[x], set@[y], set@[z]]
                0 <= x < i && 0 <= y < set@.len() && 0 <= z < set@.len() && spec_related(
                    relation@,
                    set@[x],
                    set@[y],
                ) && spec_related(relation@, set@[y], set@[z]) ==> spec_related(
                    relation@,
                    set@[x],
                    set@[z],
                ),
        decreases set@.len() - i,
    {
        let mut j: usize = 0;
        while j < set.len()
            invariant
                i < set@.len(),
                j <= set@.len(),
                forall|y: int, z: int|
                    #![trigger set@[y], set@[z]]
                    0 <= y < j && 0 <= z < set@.len() && spec_related(
                        relation@,
                        set@[i as int],
                        set@[y],
                    ) && spec_related(relation@, set@[y], set@[z]) ==> spec_related(
                        relation@,
                        set@[i as int],
                        set@[z],
                    ),
            decreases set@.len() - j,
        {
            let mut k: usize = 0;
            while k < set.len()
                invariant
                    i < set@.len(),
                    j < set@.len(),
                    k <= set@.len(),
                    forall|z: int|
                        0 <= z < k && spec_related(relation@, set@[i as int], set@[j as int])
                            && spec_related(relation@, set@[j as int], #[trigger] set@[z])
                            ==> spec_related(relation@, set@[i as int], set@[z]),
                decreases set@.len() - k,
            {
                if related(relation, set[i], set[j]) && related(relation, set[j], set[k]) {
                    if !related(relation, set[i], set[k]) {
                        return false;
                    }
                }
                k += 1;
            }
            j += 1;
        }
        i += 1;
    }
    true
}

/// Whether the relation is antisymmetric over the listed elements.
pub fn antisymmetric(set: &Vec<u64>, relation: &Vec<(u64, u64)>) -> (r: bool)
    ensures
        r == spec_antisymmetric(set@, relation@),
{
    let mut i: usize = 0;
    while i < set.len()
        invariant
            i <= set@.len(),
            forall|x: int, y: int|
                #![trigger set@[x], set@[y]]
                0 <= x < i && 0 <= y < set@.len() && spec_related(relation@, set@[x], set@[y])
                    && spec_related(relation@, set@[y], set@[x]) ==> set@[x] == set@[y],
        decreases set@.len() - i,
    {
        let mut j: usize = 0;
        while j < set.len()
            invariant
                i < set@.len(),
                j <= set@.len(),
                forall|y: int|
                    0 <= y < j && spec_related(relation@, set@[i as int], #[trigger] set@[y])
                        && spec_related(relation@, set@[y], set@[i as int]) ==> set@[i as int]
                        == set@[y],
            decreases set@.len() - j,
        {
            if related(relation, set[i], set[j]) {
                if related(relation, set[j], set[i]) && set[j] != set[i] {
                    return false;
                }
            }
            j += 1;
        }
        i += 1;
    }
    true
}

/// Whether the relation is an equivalence: reflexive, symmetric and
/// transitive over the listed elements.
pub fn equivalence(set: &Vec<u64>, relation: &Vec<(u64, u64)>) -> (r: bool)
    ensures
        r == (spec_reflexive(set@, relation@) && spec_symmetric(set@, relation@)
            && spec_transitive(set@, relation@)),
{
    if reflexive(set, relation) && symmetric(set, relation) && transitive(set, relation) {
        return true;
    }
    false
}

} // verus!
