//! The first number with a property.

use vstd::prelude::*;

verus! {

/// The first number from `i` on and below `n` with the property `p`.
pub open spec fn first_from(p: spec_fn(int) -> bool, i: int, n: int) -> Option<int>
    decreases n - i,
{
    if i >= n {
        None
    } else if p(i) {
        Some(i)
    } else {
        first_from(p, i + 1, n)
    }
}

/// The first natural number below `n` with the property `p`.
pub open spec fn first(p: spec_fn(int) -> bool, n: nat) -> Option<int> {
    first_from(p, 0, n as int)
}

proof fn lemma_first_from(p: spec_fn(int) -> bool, i: int, n: int)
    ensures
        match first_from(p, i, n) {
            Some(k) => i <= k < n && p(k) && forall|j: int| i <= j < k ==> !#[trigger] p(j),
            None => forall|j: int| i <= j < n ==> !#[trigger] p(j),
        },
    decreases n - i,
{
    if i < n && !p(i) {
        lemma_first_from(p, i + 1, n);
    }
}

/// The first number has the property, none before it has, and there is one if any number has it.
pub proof fn lemma_first(p: spec_fn(int) -> bool, n: nat)
    ensures
        match first(p, n) {
            Some(k) => 0 <= k < n && p(k) && forall|j: int| 0 <= j < k ==> !#[trigger] p(j),
            None => forall|j: int| 0 <= j < n ==> !#[trigger] p(j),
        },
{
    lemma_first_from(p, 0, n as int);
}

/// `i` is looked at in the search for the first number below `n` with the property `p`.
pub open spec fn reached(p: spec_fn(int) -> bool, n: nat, i: int) -> bool {
    &&& 0 <= i < n
    &&& first(p, n) matches Some(k) ==> i <= k
}

/// A search that has come to `i` looks at it, and ends there if it has the property.
pub proof fn lemma_reached(p: spec_fn(int) -> bool, n: nat, i: int)
    requires
        0 <= i < n,
        first(p, n) == first_from(p, i, n as int),
    ensures
        reached(p, n, i),
        p(i) ==> first(p, n) == Some(i),
{
    lemma_first_from(p, i, n as int);
}

} // verus!
