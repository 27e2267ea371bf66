use vstd::prelude::*;
use vstd::pervasive::VecAdditionalExecFns;
use vstd::arithmetic::div_mod::lemma_fundamental_div_mod;
use vstd::arithmetic::div_mod::lemma_mod_multiples_vanish;

verus! {

/// A reach value of zero was handed in; its marking walk would never advance.
#[derive(Debug, PartialEq, Eq, Structural)]
pub struct ValidationError;

/// Position `p` is landed on by some positive reach value in `birds`,
/// that is, some `b` in `birds` divides `p`.
pub open spec fn visits(birds: Seq<usize>, p: int) -> bool {
    exists|j: int| 0 <= j < birds.len() && birds[j] > 0 && p % (birds[j] as int) == 0
}

/// How many of the positions `1..=stones` are visited by no reach value.
pub open spec fn unvisited_count(stones: int, birds: Seq<usize>) -> int
    decreases stones,
{
    if stones <= 0 {
        0
    } else {
        unvisited_count(stones - 1, birds) + (if visits(birds, stones) {
            0int
        } else {
            1int
        })
    }
}

/// The unvisited count always lies between 0 and the number of positions.
pub proof fn lemma_unvisited_count_range(stones: int, birds: Seq<usize>)
    requires
        stones >= 0,
    ensures
        0 <= unvisited_count(stones, birds) <= stones,
    decreases stones,
{
    if stones > 0 {
        lemma_unvisited_count_range(stones - 1, birds);
    }
}

/// With no reach values at all, every position stays unvisited.
pub proof fn lemma_unvisited_count_empty(stones: int, birds: Seq<usize>)
    requires
        stones >= 0,
        birds.len() == 0,
    ensures
        unvisited_count(stones, birds) == stones,
    decreases stones,
{
    if stones > 0 {
        lemma_unvisited_count_empty(stones - 1, birds);
        assert(!visits(birds, stones));
    }
}

/// With a reach value of one among the birds, no position stays unvisited.
pub proof fn lemma_unvisited_count_with_one(stones: int, birds: Seq<usize>)
    requires
        stones >= 0,
        exists|j: int| 0 <= j < birds.len() && birds[j] == 1,
    ensures
        unvisited_count(stones, birds) == 0,
    decreases stones,
{
    if stones > 0 {
        lemma_unvisited_count_with_one(stones - 1, birds);
        let j = choose|j: int| 0 <= j < birds.len() && birds[j] == 1;
        assert(stones % (birds[j] as int) == 0);
        assert(visits(birds, stones));
    }
}

/// Two multiples of `b` less than `b` apart are equal or ordered the other
/// way: a multiple below `q + b` is at most `q`.
proof fn lemma_multiple_gap(b: int, p: int, q: int)
    requires
        b >= 1,
        p % b == 0,
        q % b == 0,
        p < q + b,
    ensures
        p <= q,
{
    lemma_fundamental_div_mod(p, b);
    lemma_fundamental_div_mod(q, b);
    assert(p <= q) by (nonlinear_arith)
        requires
            b >= 1,
            p == b * (p / b),
            q == b * (q / b),
            p < q + b,
    ;
}

/// Counts the positions in `1..=stones` that no bird ever lands on: bird
/// with reach `b` lands exactly on the multiples of `b`. A reach value of
/// zero is rejected as invalid input.
pub fn unvisited_stones(stones: usize, birds: &[usize]) -> (r: Result<usize, ValidationError>)
    requires
        stones < usize::MAX,
    ensures
        r is Err <==> exists|j: int| 0 <= j < birds@.len() && birds@[j] == 0,
        r is Ok ==> r->Ok_0 == unvisited_count(stones as int, birds@),
        r is Ok ==> r->Ok_0 <= stones,
{
    let mut i: usize = 0;
    while i < birds.len()
        invariant
            i <= birds@.len(),
            forall|j: int| 0 <= j < i ==> birds@[j] > 0,
        decreases birds@.len() - i,
    {
        if birds[i] == 0 {
            proof {
                assert(birds@[i as int] == 0);
            }
            return Err(ValidationError);
        }
        i = i + 1;
    }
    let mut visited: Vec<bool> = Vec::new();
    let mut k: usize = 0;
    while k <= stones
        invariant
            visited@.len() == k,
            k <= stones + 1,
            stones < usize::MAX,
            forall|p: int| 0 <= p < k ==> !visited@[p],
        decreases stones + 1 - k,
    {
        visited.push(false);
        k = k + 1;
    }
    let mut bi: usize = 0;
    while bi < birds.len()
        invariant
            bi <= birds@.len(),
            visited@.len() == stones + 1,
            stones < usize::MAX,
            forall|j: int| 0 <= j < birds@.len() ==> birds@[j] > 0,
            forall|p: int|
                1 <= p <= stones ==> (visited@[p] <==> exists|j: int|
                    0 <= j < bi && p % (birds@[j] as int) == 0),
        decreases birds@.len() - bi,
    {
        let b = birds[bi];
        proof {
            assert forall|p: int| 1 <= p < b implies #[trigger] (p % (b as int)) != 0 by {
                vstd::arithmetic::div_mod::lemma_small_mod(p as nat, b as nat);
            }
        }
        let mut pos: usize = b;
        while pos <= stones
            invariant
                0 < b <= pos,
                b == birds@[bi as int],
                0 <= bi < birds@.len(),
                visited@.len() == stones + 1,
                stones < usize::MAX,
                pos <= stones ==> pos as int % b as int == 0,
                forall|p: int|
                    1 <= p <= stones ==> (visited@[p] <==> (exists|j: int|
                        0 <= j < bi && p % (birds@[j] as int) == 0) || (p % (b as int) == 0 && p
                        < pos)),
            decreases stones + 1 - pos,
        {
            visited.set(pos, true);
            let ghost oldpos = pos as int;
            let ghost oldvis = visited@;
            if stones - pos >= b {
                pos = pos + b;
            } else {
                pos = stones + 1;
            }
            proof {
                lemma_mod_multiples_vanish(1, oldpos, b as int);
                assert((b as int + oldpos) % (b as int) == 0);
                assert forall|p: int|
                    1 <= p <= stones implies (visited@[p] <==> (exists|j: int|
                        0 <= j < bi && p % (birds@[j] as int) == 0) || (
                    #[trigger] (p % (b as int)) == 0 && p < pos)) by {
                    if p != oldpos && p % (b as int) == 0 && oldpos < p < pos {
                        lemma_multiple_gap(b as int, p, oldpos);
                        assert(false);
                    }
                }
            }
        }
        proof {
            assert forall|p: int|
                1 <= p <= stones implies ((visited@[p] <==> exists|j: int|
                    0 <= j < bi + 1 && p % (birds@[j] as int) == 0)) by {
                if p % (birds@[bi as int] as int) == 0 {
                    assert(visited@[p]);
                    assert(0 <= bi < bi + 1 && p % (birds@[bi as int] as int) == 0);
                } else {
                    if exists|j: int| 0 <= j < bi + 1 && p % (birds@[j] as int) == 0 {
                        let j = choose|j: int| 0 <= j < bi + 1 && p % (birds@[j] as int) == 0;
                        assert(j < bi);
                        assert(exists|j2: int| 0 <= j2 < bi && p % (birds@[j2] as int) == 0);
                    }
                    if exists|j: int| 0 <= j < bi && p % (birds@[j] as int) == 0 {
                        let j = choose|j: int| 0 <= j < bi && p % (birds@[j] as int) == 0;
                        assert(0 <= j < bi + 1 && p % (birds@[j] as int) == 0);
                    }
                }
            }
        }
        bi = bi + 1;
    }
    proof {
        assert forall|q: int| 1 <= q <= stones implies (visited@[q] <==> visits(birds@, q)) by {
            if visited@[q] {
                let j = choose|j: int| 0 <= j < birds@.len() && q % (birds@[j] as int) == 0;
                assert(birds@[j] > 0);
                assert(0 <= j < birds@.len() && birds@[j] > 0 && q % (birds@[j] as int) == 0);
            }
            if visits(birds@, q) {
                let j = choose|j: int|
                    0 <= j < birds@.len() && birds@[j] > 0 && q % (birds@[j] as int) == 0;
                assert(0 <= j < birds@.len() && q % (birds@[j] as int) == 0);
            }
        }
    }
    let mut count: usize = 0;
    let mut p: usize = 1;
    while p <= stones
        invariant
            1 <= p <= stones + 1,
            stones < usize::MAX,
            visited@.len() == stones + 1,
            count == unvisited_count(p as int - 1, birds@),
            count <= p - 1,
            forall|j: int| 0 <= j < birds@.len() ==> birds@[j] > 0,
            forall|q: int| 1 <= q <= stones ==> (visited@[q] <==> visits(birds@, q)),
        decreases stones + 1 - p,
    {
        if !visited[p] {
            count = count + 1;
        }
        p = p + 1;
    }
    Ok(count)
}

} // verus!
