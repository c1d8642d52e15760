//! Interlacing: which pixels one pass renders.
//!
//! A frame is rendered in `count` passes. Pass `step` starts at the flat
//! pixel index `step` and goes on in strides of `count`. With
//! `step < count` the passes `0, 1, .., count - 1` split the pixels among
//! them: every pixel belongs to exactly one pass.

use vstd::prelude::*;
use vstd::arithmetic::div_mod::lemma_fundamental_div_mod;
use vstd::arithmetic::div_mod::lemma_fundamental_div_mod_converse;
use vstd::arithmetic::div_mod::lemma_mod_bound;
use vstd::arithmetic::div_mod::lemma_small_mod;

verus! {

/// Whether the pass `step` of `count` renders the pixel at the flat index
/// `idx`: the stride starts at `step` and reaches `idx`. A count of zero
/// selects nothing.
pub open spec fn selects(count: nat, step: nat, idx: int) -> bool {
    count > 0 && step <= idx && (idx - step) % (count as int) == 0
}

/// The pixels of a grid of `pixels` pixels that the pass `step` of `count`
/// renders.
pub open spec fn pass(count: nat, step: nat, pixels: nat) -> Set<int> {
    Set::new(|idx: int| 0 <= idx < pixels && selects(count, step, idx))
}

/// The pixels that the passes `0, 1, .., upto - 1` of `count` render
/// together.
pub open spec fn passes(count: nat, upto: nat, pixels: nat) -> Set<int>
    decreases upto,
{
    if upto == 0 {
        Set::empty()
    } else {
        passes(count, (upto - 1) as nat, pixels).union(pass(count, (upto - 1) as nat, pixels))
    }
}

/// For a step below the count, a pass renders the pixels whose index leaves
/// the remainder `step` on division by `count`.
pub proof fn lemma_selects_by_remainder(count: nat, step: nat, idx: int)
    requires
        step < count,
        0 <= idx,
    ensures
        selects(count, step, idx) <==> idx % (count as int) == step,
{
    let c = count as int;
    lemma_fundamental_div_mod(idx, c);
    lemma_mod_bound(idx, c);
    if selects(count, step, idx) {
        lemma_fundamental_div_mod(idx - step, c);
        lemma_fundamental_div_mod_converse(idx, c, (idx - step) / c, step as int);
    }
    if idx % c == step {
        lemma_fundamental_div_mod_converse(idx - step, c, idx / c, 0);
    }
}

/// A pass that renders a pixel renders next the pixel a stride further on,
/// and nothing in between.
pub proof fn lemma_stride(count: nat, step: nat, idx: int)
    requires
        selects(count, step, idx),
    ensures
        selects(count, step, idx + count),
        forall|between: int|
            idx < between < idx + count ==> !#[trigger] selects(count, step, between),
{
    let c = count as int;
    let a = (idx - step) / c;
    lemma_fundamental_div_mod(idx - step, c);
    assert((a + 1) * c == c * a + c) by (nonlinear_arith);
    lemma_fundamental_div_mod_converse(idx + c - step, c, a + 1, 0);
    assert forall|between: int| idx < between < idx + count implies !#[trigger] selects(
        count,
        step,
        between,
    ) by {
        if selects(count, step, between) {
            lemma_fundamental_div_mod(between - step, c);
            let b = (between - step) / c;
            assert(c * b - c * a == between - idx);
            assert(c * b - c * a == c * (b - a)) by (nonlinear_arith);
            assert(false) by (nonlinear_arith)
                requires
                    0 < c * (b - a) < c,
            ;
        }
    }
}

/// No pass renders a pixel before its own step, and the first pixel it
/// renders is the one at its step.
pub proof fn lemma_pass_starts_at_step(count: nat, step: nat, idx: int)
    ensures
        idx < step ==> !selects(count, step, idx),
        count > 0 ==> selects(count, step, step as int),
{
    if count > 0 {
        lemma_small_mod(0, count);
    }
}

/// The one pass of a count of one renders every pixel.
pub proof fn lemma_whole_frame_pass(idx: int)
    requires
        0 <= idx,
    ensures
        selects(1, 0, idx),
{
    lemma_selects_by_remainder(1, 0, idx);
}

/// Every pixel belongs to the pass whose step is the remainder of its index,
/// and to no other pass with a step below the count.
pub proof fn lemma_exactly_one_pass(count: nat, idx: int)
    requires
        count >= 1,
        0 <= idx,
    ensures
        0 <= idx % (count as int) < count,
        selects(count, (idx % (count as int)) as nat, idx),
        forall|step: nat| step < count && selects(count, step, idx) ==> step == idx % (count as int),
{
    let c = count as int;
    lemma_mod_bound(idx, c);
    lemma_selects_by_remainder(count, (idx % c) as nat, idx);
    assert forall|step: nat| step < count && selects(count, step, idx) implies step == idx % c by {
        lemma_selects_by_remainder(count, step, idx);
    }
}

/// Two different passes with steps below the count render no pixel in
/// common.
pub proof fn lemma_passes_disjoint(count: nat, first: nat, second: nat, pixels: nat)
    requires
        first < count,
        second < count,
        first != second,
    ensures
        pass(count, first, pixels).disjoint(pass(count, second, pixels)),
{
    assert forall|idx: int|
        !(pass(count, first, pixels).contains(idx) && pass(count, second, pixels).contains(
            idx,
        )) by {
        if 0 <= idx {
            lemma_selects_by_remainder(count, first, idx);
            lemma_selects_by_remainder(count, second, idx);
        }
    }
}

/// The passes `0, .., upto - 1` render the pixels whose index leaves a
/// remainder below `upto`.
pub proof fn lemma_passes_by_remainder(count: nat, upto: nat, pixels: nat)
    requires
        count >= 1,
        upto <= count,
    ensures
        passes(count, upto, pixels) =~= Set::new(
            |idx: int| 0 <= idx < pixels && idx % (count as int) < upto,
        ),
    decreases upto,
{
    let by_remainder = Set::new(|idx: int| 0 <= idx < pixels && idx % (count as int) < upto);
    if upto == 0 {
        assert forall|idx: int| !by_remainder.contains(idx) by {
            lemma_mod_bound(idx, count as int);
        }
        assert(passes(count, upto, pixels) =~= by_remainder);
    } else {
        let last = (upto - 1) as nat;
        lemma_passes_by_remainder(count, last, pixels);
        assert forall|idx: int|
            passes(count, upto, pixels).contains(idx) <==> by_remainder.contains(idx) by {
            if 0 <= idx < pixels {
                lemma_selects_by_remainder(count, last, idx);
            }
        }
        assert(passes(count, upto, pixels) =~= by_remainder);
    }
}

/// Interlace completeness: for any count of at least one, the passes
/// `0, .., count - 1` together render every pixel of the grid and nothing
/// else, and no two of them render the same pixel.
pub proof fn lemma_passes_partition(count: nat, pixels: nat)
    requires
        count >= 1,
    ensures
        passes(count, count, pixels) =~= Set::new(|idx: int| 0 <= idx < pixels),
        forall|first: nat, second: nat|
            first < count && second < count && first != second ==> #[trigger] pass(
                count,
                first,
                pixels,
            ).disjoint(#[trigger] pass(count, second, pixels)),
{
    lemma_passes_by_remainder(count, count, pixels);
    let all = Set::new(|idx: int| 0 <= idx < pixels);
    assert forall|idx: int| all.contains(idx) implies passes(count, count, pixels).contains(
        idx,
    ) by {
        lemma_mod_bound(idx, count as int);
    }
    assert forall|first: nat, second: nat|
        first < count && second < count && first != second implies #[trigger] pass(
        count,
        first,
        pixels,
    ).disjoint(#[trigger] pass(count, second, pixels)) by {
        lemma_passes_disjoint(count, first, second, pixels);
    }
}

} // verus!
