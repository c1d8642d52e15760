//! The escape-time evaluator: how long an orbit stays bounded.
//!
//! An orbit starts at a point and goes on by a map. The evaluator tests each
//! point of the orbit in turn, the starting point first, and reports the
//! one-based index of the first that has escaped. It tests at most as many
//! points as the iteration cap allows and reports zero if none of them has
//! escaped. Zero therefore means "bounded through the cap", never "escaped at
//! once": a starting point that has escaped is reported as one.
//!
//! The escape test and the map are handed in as function values, so the
//! evaluator is the same for every plane and every map.

use vstd::prelude::*;

verus! {

/// `orbit` is a run of the map `advance` from `start`: it begins with
/// `start`, and each further point is what `advance` returns for the point
/// before it.
pub open spec fn is_orbit<Z, N: Fn(Z) -> Z>(advance: N, start: Z, orbit: Seq<Z>) -> bool {
    &&& orbit.len() > 0
    &&& orbit[0] == start
    &&& forall|i: int|
        0 <= i < orbit.len() - 1 ==> advance.ensures((#[trigger] orbit[i],), orbit[i + 1])
}

/// None of the first `n` points of `orbit` has escaped.
pub open spec fn bounded_for<Z, T: Fn(Z) -> bool>(escaped: T, orbit: Seq<Z>, n: int) -> bool {
    forall|i: int| 0 <= i < n ==> escaped.ensures((#[trigger] orbit[i],), false)
}

/// The map can take `start` to `z` in some number of steps.
pub open spec fn reaches<Z, N: Fn(Z) -> Z>(advance: N, start: Z, z: Z) -> bool {
    exists|orbit: Seq<Z>| #[trigger] is_orbit(advance, start, orbit) && orbit.last() == z
}

/// `time` is an escape time of `start` under the cap `iterations`, along
/// `orbit`: either `time` is zero and none of the first `iterations` points
/// has escaped, or the point of index `time - 1` is the first that has, and
/// `time` is within the cap.
pub open spec fn escapes_along<Z, T: Fn(Z) -> bool, N: Fn(Z) -> Z>(
    escaped: T,
    advance: N,
    start: Z,
    iterations: u32,
    time: u32,
    orbit: Seq<Z>,
) -> bool {
    &&& is_orbit(advance, start, orbit)
    &&& if time == 0 {
        orbit.len() >= iterations && bounded_for(escaped, orbit, iterations as int)
    } else {
        &&& time <= iterations
        &&& orbit.len() >= time
        &&& bounded_for(escaped, orbit, time - 1)
        &&& escaped.ensures((orbit[time - 1],), true)
    }
}

/// `time` is an escape time of `start` under the cap `iterations`.
pub open spec fn escapes<Z, T: Fn(Z) -> bool, N: Fn(Z) -> Z>(
    escaped: T,
    advance: N,
    start: Z,
    iterations: u32,
    time: u32,
) -> bool {
    exists|orbit: Seq<Z>| #[trigger] escapes_along(escaped, advance, start, iterations, time, orbit)
}

/// The escape time of `start` under the cap `iterations`: the one-based
/// index of the first point of its orbit that has escaped, or zero if none
/// of the first `iterations` points has.
pub fn escape_time<Z: Copy, T: Fn(Z) -> bool, N: Fn(Z) -> Z>(
    start: Z,
    iterations: u32,
    escaped: &T,
    advance: &N,
) -> (time: u32)
    requires
        forall|z: Z| #[trigger]
            reaches(*advance, start, z) ==> escaped.requires((z,)) && advance.requires((z,)),
    ensures
        escapes(*escaped, *advance, start, iterations, time),
{
    let mut z = start;
    let ghost mut orbit = seq![start];
    let mut tested: u32 = 0;
    while tested < iterations
        invariant
            tested <= iterations,
            is_orbit(*advance, start, orbit),
            orbit.len() == tested + 1,
            orbit.last() == z,
            bounded_for(*escaped, orbit, tested as int),
            forall|z: Z| #[trigger]
                reaches(*advance, start, z) ==> escaped.requires((z,)) && advance.requires((z,)),
        decreases iterations - tested,
    {
        assert(reaches(*advance, start, z));
        if escaped(z) {
            assert(escapes_along(
                *escaped,
                *advance,
                start,
                iterations,
                (tested + 1) as u32,
                orbit,
            ));
            return tested + 1;
        }
        let next = advance(z);
        proof {
            let longer = orbit.push(next);
            assert forall|i: int| 0 <= i < longer.len() - 1 implies advance.ensures(
                (#[trigger] longer[i],),
                longer[i + 1],
            ) by {
                if i < orbit.len() - 1 {
                    assert(longer[i] == orbit[i] && longer[i + 1] == orbit[i + 1]);
                }
            }
            assert forall|i: int| 0 <= i < tested + 1 implies escaped.ensures(
                (#[trigger] longer[i],),
                false,
            ) by {
                assert(longer[i] == orbit[i]);
            }
            orbit = longer;
        }
        z = next;
        tested += 1;
    }
    assert(escapes_along(*escaped, *advance, start, iterations, 0, orbit));
    0
}

/// The escape test and the map are functions in the mathematical sense:
/// called again on the same point, each returns the same result.
pub open spec fn single_valued<Z, T: Fn(Z) -> bool, N: Fn(Z) -> Z>(escaped: T, advance: N) -> bool {
    &&& forall|z: Z, a: bool, b: bool|
        #![trigger escaped.ensures((z,), a), escaped.ensures((z,), b)]
        escaped.ensures((z,), a) && escaped.ensures((z,), b) ==> a == b
    &&& forall|z: Z, a: Z, b: Z|
        #![trigger advance.ensures((z,), a), advance.ensures((z,), b)]
        advance.ensures((z,), a) && advance.ensures((z,), b) ==> a == b
}

/// Two orbits of a single-valued map from the same point agree as far as
/// both go.
pub proof fn lemma_orbits_agree<Z, T: Fn(Z) -> bool, N: Fn(Z) -> Z>(
    escaped: T,
    advance: N,
    start: Z,
    first: Seq<Z>,
    second: Seq<Z>,
    i: int,
)
    requires
        single_valued(escaped, advance),
        is_orbit(advance, start, first),
        is_orbit(advance, start, second),
        0 <= i < first.len(),
        i < second.len(),
    ensures
        first[i] == second[i],
    decreases i,
{
    if i > 0 {
        lemma_orbits_agree(escaped, advance, start, first, second, i - 1);
        assert(advance.ensures((first[i - 1],), first[i]));
        assert(advance.ensures((second[i - 1],), second[i]));
    }
}

/// With a single-valued escape test and map, a point has one escape time
/// under a given cap: the contract of [`escape_time`] leaves no choice.
pub proof fn lemma_escape_time_unique<Z, T: Fn(Z) -> bool, N: Fn(Z) -> Z>(
    escaped: T,
    advance: N,
    start: Z,
    iterations: u32,
    first: u32,
    second: u32,
)
    requires
        single_valued(escaped, advance),
        escapes(escaped, advance, start, iterations, first),
        escapes(escaped, advance, start, iterations, second),
    ensures
        first == second,
{
    let a = choose|orbit: Seq<Z>| #[trigger]
        escapes_along(escaped, advance, start, iterations, first, orbit);
    let b = choose|orbit: Seq<Z>| #[trigger]
        escapes_along(escaped, advance, start, iterations, second, orbit);
    if first != second {
        // The earlier of the two escapes is at a point that the other run
        // found bounded.
        let at = if first == 0 {
            second - 1
        } else if second == 0 {
            first - 1
        } else if first < second {
            first - 1
        } else {
            second - 1
        };
        lemma_orbits_agree(escaped, advance, start, a, b, at);
        assert(escaped.ensures((a[at],), true) || escaped.ensures((b[at],), true));
        assert(escaped.ensures((a[at],), false) || escaped.ensures((b[at],), false));
    }
}

} // verus!
