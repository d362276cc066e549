//! Clamped proportional redistribution: the routine that turns per-track
//! intrinsic minimums and fill weights into final track sizes.
//!
//! Leftover space is shared among tracks in proportion to their fill
//! weight, except that no track is ever given less than its intrinsic
//! minimum: a track whose fair share falls below its minimum is clamped
//! to that minimum and removed from the weighted pool, and the sharing is
//! repeated until no further track clamps.

use vstd::prelude::*;

verus! {

/// The largest number of rows, and the largest number of cells in a row,
/// that the layout engine accepts; keeps every intermediate product of a
/// pixel extent and a summed fill weight inside `u64`.
pub const MAX_TRACKS: usize = 32768;

// ---------------------------------------------------------------------
// Prefix sums over the track data.
// ---------------------------------------------------------------------

/// Sum of the first `j` minimums.
pub open spec fn sum_mins(mins: Seq<u32>, j: int) -> int
    decreases j,
{
    if j <= 0 {
        0
    } else {
        sum_mins(mins, j - 1) + mins[j - 1]
    }
}

/// Sum of the first `j` fill weights.
pub open spec fn sum_factors(factors: Seq<u16>, j: int) -> int
    decreases j,
{
    if j <= 0 {
        0
    } else {
        sum_factors(factors, j - 1) + factors[j - 1]
    }
}

/// Sum of the minimums of the clamped tracks among the first `j`.
pub open spec fn sum_clamped_mins(mins: Seq<u32>, clamped: Seq<bool>, j: int) -> int
    decreases j,
{
    if j <= 0 {
        0
    } else {
        sum_clamped_mins(mins, clamped, j - 1) + if clamped[j - 1] {
            mins[j - 1] as int
        } else {
            0
        }
    }
}

/// Sum of the fill weights of the unclamped tracks among the first `j`.
pub open spec fn sum_open_factors(factors: Seq<u16>, clamped: Seq<bool>, j: int) -> int
    decreases j,
{
    if j <= 0 {
        0
    } else {
        sum_open_factors(factors, clamped, j - 1) + if clamped[j - 1] {
            0
        } else {
            factors[j - 1] as int
        }
    }
}

/// Sum of the minimums of the unclamped tracks among the first `j`.
pub open spec fn sum_open_mins(mins: Seq<u32>, clamped: Seq<bool>, j: int) -> int
    decreases j,
{
    if j <= 0 {
        0
    } else {
        sum_open_mins(mins, clamped, j - 1) + if clamped[j - 1] {
            0
        } else {
            mins[j - 1] as int
        }
    }
}

/// Clamped and unclamped minimums together make up all the minimums.
proof fn lemma_mins_split(mins: Seq<u32>, clamped: Seq<bool>, j: int)
    ensures
        sum_clamped_mins(mins, clamped, j) + sum_open_mins(mins, clamped, j) == sum_mins(mins, j),
    decreases j,
{
    if j > 0 {
        lemma_mins_split(mins, clamped, j - 1);
    }
}

/// Sum of the first `j` entries of a size sequence.
pub open spec fn sum_sizes(sizes: Seq<int>, j: int) -> int
    decreases j,
{
    if j <= 0 {
        0
    } else {
        sum_sizes(sizes, j - 1) + sizes[j - 1]
    }
}

/// The number of unclamped tracks among the first `j`.
pub open spec fn open_count(clamped: Seq<bool>, j: int) -> int
    decreases j,
{
    if j <= 0 {
        0
    } else {
        open_count(clamped, j - 1) + if clamped[j - 1] {
            0int
        } else {
            1int
        }
    }
}

// ---------------------------------------------------------------------
// Facts about the prefix sums.
// ---------------------------------------------------------------------

proof fn lemma_sum_bounds(mins: Seq<u32>, factors: Seq<u16>, clamped: Seq<bool>, j: int)
    ensures
        0 <= sum_clamped_mins(mins, clamped, j),
        0 <= sum_open_factors(factors, clamped, j),
        0 <= open_count(clamped, j),
        sum_clamped_mins(mins, clamped, j) <= sum_mins(mins, j),
        sum_open_factors(factors, clamped, j) <= sum_factors(factors, j),
        0 <= sum_mins(mins, j),
        0 <= sum_factors(factors, j),
    decreases j,
{
    if j > 0 {
        lemma_sum_bounds(mins, factors, clamped, j - 1);
    }
}

/// Clamping one more track moves its minimum into the clamped sum, takes
/// its weight out of the open sum, and lowers the open count by one.
proof fn lemma_sums_update(
    mins: Seq<u32>,
    factors: Seq<u16>,
    clamped: Seq<bool>,
    k: int,
    j: int,
)
    requires
        0 <= k < clamped.len(),
        j <= clamped.len(),
        !clamped[k],
    ensures
        sum_clamped_mins(mins, clamped.update(k, true), j) == sum_clamped_mins(mins, clamped, j)
            + if k < j {
            mins[k] as int
        } else {
            0
        },
        sum_open_factors(factors, clamped.update(k, true), j) == sum_open_factors(
            factors,
            clamped,
            j,
        ) - if k < j {
            factors[k] as int
        } else {
            0
        },
        open_count(clamped.update(k, true), j) == open_count(clamped, j) - if k < j {
            1int
        } else {
            0int
        },
    decreases j,
{
    if j > 0 {
        lemma_sums_update(mins, factors, clamped, k, j - 1);
    }
}

/// An unclamped track's weight is part of the open sum of any prefix that
/// contains it.
proof fn lemma_open_factor_le_sum(factors: Seq<u16>, clamped: Seq<bool>, k: int, j: int)
    requires
        0 <= k < j,
        !clamped[k],
    ensures
        factors[k] as int <= sum_open_factors(factors, clamped, j),
    decreases j,
{
    lemma_sum_bounds(Seq::empty(), factors, clamped, k);
    if k == j - 1 {
    } else {
        lemma_open_factor_le_sum(factors, clamped, k, j - 1);
    }
}

/// The open factor sum of a longer prefix dominates that of a shorter one.
proof fn lemma_open_factors_monotone(factors: Seq<u16>, clamped: Seq<bool>, i: int, j: int)
    requires
        i <= j,
    ensures
        sum_open_factors(factors, clamped, i) <= sum_open_factors(factors, clamped, j),
    decreases j - i,
{
    if i < j {
        lemma_open_factors_monotone(factors, clamped, i, j - 1);
    }
}

// ---------------------------------------------------------------------
// One clamping pass, walking the tracks in index order.
// ---------------------------------------------------------------------

/// State of one clamping pass after the first `j` tracks were examined:
/// the clamp flags, the space and weight still in the pool, and whether
/// any track clamped so far.
pub open spec fn pass_upto(
    mins: Seq<u32>,
    factors: Seq<u16>,
    clamped0: Seq<bool>,
    space0: int,
    fill0: int,
    j: int,
) -> (Seq<bool>, int, int, bool)
    decreases j,
{
    if j <= 0 {
        (clamped0, space0, fill0, false)
    } else {
        let (clamped, space, fill, changed) = pass_upto(mins, factors, clamped0, space0, fill0, j - 1);
        let k = j - 1;
        if !clamped[k] && (factors[k] as int) * space < (mins[k] as int) * fill {
            (clamped.update(k, true), space - mins[k], fill - factors[k], true)
        } else {
            (clamped, space, fill, changed)
        }
    }
}

/// The accounting that every stage of the redistribution maintains:
/// the pool equals the total budget minus the clamped minimums, and the
/// weight equals the summed weights of the unclamped tracks.
pub open spec fn state_inv(
    mins: Seq<u32>,
    factors: Seq<u16>,
    budget: int,
    clamped: Seq<bool>,
    space: int,
    fill: int,
) -> bool {
    &&& clamped.len() == mins.len()
    &&& factors.len() == mins.len()
    &&& space == budget - sum_clamped_mins(mins, clamped, mins.len() as int)
    &&& fill == sum_open_factors(factors, clamped, mins.len() as int)
}

/// A pass clamps monotonically, moves exactly the newly clamped
/// minimums and weights out of the pool, lowers the open count exactly
/// when it reports a change, and, when it reports no change, leaves the
/// state alone with every unclamped track holding its fair share.
proof fn lemma_pass_props(
    mins: Seq<u32>,
    factors: Seq<u16>,
    clamped0: Seq<bool>,
    space0: int,
    fill0: int,
    j: int,
)
    requires
        0 <= j <= mins.len(),
        clamped0.len() == mins.len(),
        factors.len() == mins.len(),
    ensures
        ({
            let (clamped, space, fill, changed) = pass_upto(
                mins,
                factors,
                clamped0,
                space0,
                fill0,
                j,
            );
            &&& clamped.len() == mins.len()
            &&& forall|k: int| 0 <= k < mins.len() && clamped0[k] ==> clamped[k]
            &&& forall|k: int| j <= k < mins.len() ==> clamped[k] == clamped0[k]
            &&& space == space0 - (sum_clamped_mins(mins, clamped, mins.len() as int)
                - sum_clamped_mins(mins, clamped0, mins.len() as int))
            &&& fill == fill0 - (sum_open_factors(factors, clamped0, mins.len() as int)
                - sum_open_factors(factors, clamped, mins.len() as int))
            &&& open_count(clamped, mins.len() as int) <= open_count(clamped0, mins.len() as int)
            &&& changed ==> open_count(clamped, mins.len() as int) < open_count(
                clamped0,
                mins.len() as int,
            )
            &&& !changed ==> clamped == clamped0 && space == space0 && fill == fill0
            &&& !changed ==> forall|k: int|
                0 <= k < j && !clamped0[k] ==> (factors[k] as int) * space0 >= (mins[k] as int)
                    * fill0
        }),
    decreases j,
{
    if j > 0 {
        lemma_pass_props(mins, factors, clamped0, space0, fill0, j - 1);
        let (clamped, space, fill, changed) = pass_upto(mins, factors, clamped0, space0, fill0, j - 1);
        let k = j - 1;
        if !clamped[k] && (factors[k] as int) * space < (mins[k] as int) * fill {
            lemma_sums_update(mins, factors, clamped, k, mins.len() as int);
        }
    }
}

// ---------------------------------------------------------------------
// The clamping loop: repeat passes until none clamps.
// ---------------------------------------------------------------------

/// Runs clamping passes until one reports no change; yields the final
/// clamp flags and pool.
pub open spec fn clamp_loop(
    mins: Seq<u32>,
    factors: Seq<u16>,
    clamped: Seq<bool>,
    space: int,
    fill: int,
) -> (Seq<bool>, int, int)
    decreases open_count(clamped, mins.len() as int),
        when clamped.len() == mins.len() && factors.len() == mins.len()
        via clamp_loop_decreases
{
    let (clamped1, space1, fill1, changed) = pass_upto(
        mins,
        factors,
        clamped,
        space,
        fill,
        mins.len() as int,
    );
    if changed {
        clamp_loop(mins, factors, clamped1, space1, fill1)
    } else {
        (clamped1, space1, fill1)
    }
}

#[via_fn]
proof fn clamp_loop_decreases(
    mins: Seq<u32>,
    factors: Seq<u16>,
    clamped: Seq<bool>,
    space: int,
    fill: int,
) {
    lemma_pass_props(mins, factors, clamped, space, fill, mins.len() as int);
    let (clamped1, space1, fill1, changed) = pass_upto(
        mins,
        factors,
        clamped,
        space,
        fill,
        mins.len() as int,
    );
    lemma_sum_bounds(mins, factors, clamped1, mins.len() as int);
}

/// What the clamping loop guarantees: the accounting still holds, and at
/// the fixed point every unclamped track's fair share covers its minimum.
proof fn lemma_clamp_loop_props(
    mins: Seq<u32>,
    factors: Seq<u16>,
    budget: int,
    clamped0: Seq<bool>,
    space0: int,
    fill0: int,
)
    requires
        state_inv(mins, factors, budget, clamped0, space0, fill0),
    ensures
        ({
            let (clamped, space, fill) = clamp_loop(mins, factors, clamped0, space0, fill0);
            &&& state_inv(mins, factors, budget, clamped, space, fill)
            &&& forall|k: int|
                0 <= k < mins.len() && !clamped[k] ==> (factors[k] as int) * space >= (
                mins[k] as int) * fill
        }),
    decreases open_count(clamped0, mins.len() as int),
{
    lemma_pass_props(mins, factors, clamped0, space0, fill0, mins.len() as int);
    let (clamped1, space1, fill1, changed) = pass_upto(
        mins,
        factors,
        clamped0,
        space0,
        fill0,
        mins.len() as int,
    );
    if changed {
        lemma_sum_bounds(mins, factors, clamped1, mins.len() as int);
        lemma_clamp_loop_props(mins, factors, budget, clamped1, space1, fill1);
    }
}

// ---------------------------------------------------------------------
// Allocation: hand every track its final size.
// ---------------------------------------------------------------------

/// The share of a pool of `space` that a weight of `factor` claims out
/// of a total open weight of `fill`; nothing when no weight is left.
pub open spec fn alloc_share(space: int, fill: int, factor: u16) -> int {
    if fill > 0 {
        space * factor / fill
    } else {
        0
    }
}

/// Final sizes of the first `j` tracks, with the pool and the open
/// weight that remain after serving them: a clamped track keeps its
/// minimum, an unclamped one takes the larger of its minimum and its
/// share of the remaining pool.
pub open spec fn alloc_upto(
    mins: Seq<u32>,
    factors: Seq<u16>,
    clamped: Seq<bool>,
    space0: int,
    fill0: int,
    j: int,
) -> (Seq<int>, int, int)
    decreases j,
{
    if j <= 0 {
        (Seq::empty(), space0, fill0)
    } else {
        let (sizes, space, fill) = alloc_upto(mins, factors, clamped, space0, fill0, j - 1);
        let k = j - 1;
        if clamped[k] {
            (sizes.push(mins[k] as int), space, fill)
        } else {
            let share = alloc_share(space, fill, factors[k]);
            let size = if share > mins[k] as int {
                share
            } else {
                mins[k] as int
            };
            (sizes.push(size), space - share, fill - factors[k])
        }
    }
}

/// A prefix sum of sizes ignores entries appended behind the prefix.
proof fn lemma_sum_sizes_push(sizes: Seq<int>, appended: int, j: int)
    requires
        j <= sizes.len(),
    ensures
        sum_sizes(sizes.push(appended), j) == sum_sizes(sizes, j),
    decreases j,
{
    if j > 0 {
        lemma_sum_sizes_push(sizes, appended, j - 1);
    }
}

/// Basic bounds of an allocated share: it is non-negative, fits in the
/// pool, and covers the owed floor when the fair-share test holds.
proof fn lemma_share_bounds(space: int, fill: int, factor: u16, floor: int)
    requires
        0 <= space,
        0 <= floor,
        factor as int <= fill,
        fill > 0 ==> (factor as int) * space >= floor * fill,
    ensures
        0 <= alloc_share(space, fill, factor) <= space,
        fill > 0 ==> alloc_share(space, fill, factor) >= floor,
        fill > 0 ==> fill * alloc_share(space, fill, factor) <= space * (factor as int),
{
    if fill > 0 {
        let product = space * (factor as int);
        assert(product >= 0) by (nonlinear_arith)
            requires
                0 <= space,
                product == space * (factor as int),
        ;
        crate::track::lemma_div_aux(product, fill, floor, space, factor as int);
    }
}

/// Division facts packaged for [`lemma_share_bounds`]: for a pool
/// `product == space * factor` with `factor <= fill`, the quotient by
/// `fill` stays within `[floor, space]` and loses at most a remainder.
proof fn lemma_div_aux(product: int, fill: int, floor: int, space: int, factor: int)
    requires
        fill > 0,
        0 <= product,
        product == space * factor,
        0 <= space,
        0 <= floor,
        factor <= fill,
        product >= floor * fill,
    ensures
        0 <= product / fill <= space,
        product / fill >= floor,
        fill * (product / fill) <= product,
{
    vstd::arithmetic::div_mod::lemma_div_pos_is_pos(product, fill);
    vstd::arithmetic::div_mod::lemma_fundamental_div_mod(product, fill);
    vstd::arithmetic::div_mod::lemma_mod_pos_bound(product, fill);
    assert(product <= space * fill) by (nonlinear_arith)
        requires
            0 <= space,
            factor <= fill,
            product == space * factor,
    ;
    vstd::arithmetic::div_mod::lemma_div_is_ordered(floor * fill, product, fill);
    vstd::arithmetic::div_mod::lemma_div_is_ordered(product, space * fill, fill);
    vstd::arithmetic::div_mod::lemma_div_by_multiple(floor, fill);
    vstd::arithmetic::div_mod::lemma_div_by_multiple(space, fill);
}

/// Serving one unclamped track keeps every later unclamped track's fair
/// share at or above its minimum.
proof fn lemma_ratio_step(
    space: int,
    fill: int,
    factor_served: int,
    share: int,
    factor_other: int,
    min_other: int,
)
    requires
        fill > 0,
        0 <= factor_served <= fill,
        0 <= space,
        fill * share <= space * factor_served,
        factor_other * space >= min_other * fill,
        0 <= factor_other,
        0 <= min_other,
    ensures
        factor_other * (space - share) >= min_other * (fill - factor_served),
{
    assert(factor_other * (space - share) * fill >= min_other * (fill - factor_served) * fill)
        by (nonlinear_arith)
        requires
            fill > 0,
            0 <= factor_served <= fill,
            0 <= space,
            fill * share <= space * factor_served,
            factor_other * space >= min_other * fill,
            0 <= factor_other,
            0 <= min_other,
    ;
    assert(factor_other * (space - share) >= min_other * (fill - factor_served))
        by (nonlinear_arith)
        requires
            fill > 0,
            factor_other * (space - share) * fill >= min_other * (fill - factor_served) * fill,
    ;
}

/// What allocation guarantees, track by track: every size covers its
/// minimum, the pool never grows nor goes negative, the sizes account
/// exactly for what left the pool, and later unclamped tracks keep their
/// fair share.
proof fn lemma_alloc_props(
    mins: Seq<u32>,
    factors: Seq<u16>,
    clamped: Seq<bool>,
    space0: int,
    fill0: int,
    j: int,
)
    requires
        0 <= j <= mins.len(),
        clamped.len() == mins.len(),
        factors.len() == mins.len(),
        0 <= space0,
        fill0 == sum_open_factors(factors, clamped, mins.len() as int),
        forall|k: int|
            0 <= k < mins.len() && !clamped[k] ==> (factors[k] as int) * space0 >= (mins[k] as int)
                * fill0,
    ensures
        ({
            let (sizes, space, fill) = alloc_upto(mins, factors, clamped, space0, fill0, j);
            &&& sizes.len() == j
            &&& forall|k: int| 0 <= k < j ==> sizes[k] >= mins[k] as int
            &&& forall|k: int| 0 <= k < j ==> sizes[k] == mins[k] as int || sizes[k] <= space0
            &&& fill == fill0 - sum_open_factors(factors, clamped, j)
            &&& 0 <= space <= space0
            &&& fill0 > 0 ==> sum_sizes(sizes, j) == sum_clamped_mins(mins, clamped, j) + (space0
                - space)
            &&& fill0 == 0 ==> space == space0 && sum_sizes(sizes, j) == sum_clamped_mins(
                mins,
                clamped,
                j,
            ) + sum_open_mins(mins, clamped, j)
            &&& forall|k: int|
                j <= k < mins.len() && !clamped[k] ==> (factors[k] as int) * space >= (
                mins[k] as int) * fill
            &&& fill >= 0
        }),
    decreases j,
{
    lemma_sum_bounds(mins, factors, clamped, j);
    lemma_open_factors_monotone(factors, clamped, j, mins.len() as int);
    if j > 0 {
        lemma_alloc_props(mins, factors, clamped, space0, fill0, j - 1);
        let (sizes, space, fill) = alloc_upto(mins, factors, clamped, space0, fill0, j - 1);
        let k = j - 1;
        assert forall|appended: int| sum_sizes(sizes.push(appended), j - 1) == sum_sizes(
            sizes,
            j - 1,
        ) by {
            lemma_sum_sizes_push(sizes, appended, j - 1);
        }
        if !clamped[k] {
            lemma_open_factor_le_sum(factors, clamped, k, mins.len() as int);
            lemma_open_factors_monotone(factors, clamped, j - 1, k);
            // The track's own weight is part of the open weight still in the pool.
            assert(factors[k] as int <= fill) by {
                lemma_open_factors_monotone(factors, clamped, 0, j - 1);
                lemma_sums_split(factors, clamped, j - 1, k);
            }
            lemma_share_bounds(space, fill, factors[k], mins[k] as int);
            let share = alloc_share(space, fill, factors[k]);
            if fill == 0 && fill0 > 0 {
                // The track's weight is zero, so the fair-share test at
                // entry already forced its minimum to zero.
                assert((factors[k] as int) * space0 >= (mins[k] as int) * fill0);
                assert(mins[k] as int == 0) by (nonlinear_arith)
                    requires
                        (factors[k] as int) * space0 >= (mins[k] as int) * fill0,
                        factors[k] as int == 0,
                        fill0 > 0,
                        mins[k] as int >= 0,
                ;
            }
            if fill > 0 {
                assert forall|k2: int|
                    j <= k2 < mins.len() && !clamped[k2] implies (factors[k2] as int) * (space
                    - share) >= (mins[k2] as int) * (fill - factors[k]) by {
                    lemma_ratio_step(
                        space,
                        fill,
                        factors[k] as int,
                        share,
                        factors[k2] as int,
                        mins[k2] as int,
                    );
                }
            }
        }
    }
}

/// The open weight between two cut points is the difference of the
/// prefix sums, and an unclamped track's weight at the lower cut point
/// is part of it.
proof fn lemma_sums_split(factors: Seq<u16>, clamped: Seq<bool>, j: int, k: int)
    requires
        0 <= k < clamped.len(),
        j <= k,
        factors.len() == clamped.len(),
        !clamped[k],
    ensures
        sum_open_factors(factors, clamped, clamped.len() as int) - sum_open_factors(
            factors,
            clamped,
            j,
        ) >= factors[k] as int,
{
    lemma_open_factors_monotone(factors, clamped, j, k);
    lemma_open_factors_monotone(factors, clamped, k + 1, clamped.len() as int);
    assert(sum_open_factors(factors, clamped, k + 1) == sum_open_factors(factors, clamped, k)
        + factors[k] as int) by {
        reveal_with_fuel(sum_open_factors, 2);
    }
}

// ---------------------------------------------------------------------
// The full redistribution, and the laws it obeys.
// ---------------------------------------------------------------------

/// Final track sizes: clamp iteratively, then serve every track.
pub open spec fn spec_distribute(mins: Seq<u32>, factors: Seq<u16>, space: int) -> Seq<int> {
    let clamped0 = Seq::new(mins.len(), |i: int| false);
    let fill0 = sum_factors(factors, factors.len() as int);
    let (clamped, space1, fill1) = clamp_loop(mins, factors, clamped0, space, fill0);
    alloc_upto(mins, factors, clamped, space1, fill1, mins.len() as int).0
}

/// On an all-unclamped flag sequence the clamped-minimum sum is zero and
/// the open weight is the whole weight.
proof fn lemma_initial_sums(mins: Seq<u32>, factors: Seq<u16>, j: int)
    requires
        j <= mins.len(),
    ensures
        sum_clamped_mins(mins, Seq::new(mins.len(), |i: int| false), j) == 0,
        sum_open_factors(factors, Seq::new(mins.len(), |i: int| false), j) == sum_factors(
            factors,
            j,
        ),
    decreases j,
{
    if j > 0 {
        lemma_initial_sums(mins, factors, j - 1);
    }
}

/// Track-minimum guarantee: every distributed track size is at least
/// that track's intrinsic minimum.
pub proof fn lemma_distribute_minimums(mins: Seq<u32>, factors: Seq<u16>, space: int)
    requires
        factors.len() == mins.len(),
        sum_mins(mins, mins.len() as int) <= space,
    ensures
        spec_distribute(mins, factors, space).len() == mins.len(),
        forall|k: int|
            0 <= k < mins.len() ==> #[trigger] spec_distribute(mins, factors, space)[k]
                >= mins[k] as int,
        forall|k: int|
            0 <= k < mins.len() ==> #[trigger] spec_distribute(mins, factors, space)[k]
                <= mins[k] as int + space,
{
    let clamped0 = Seq::new(mins.len(), |i: int| false);
    let fill0 = sum_factors(factors, factors.len() as int);
    lemma_initial_sums(mins, factors, mins.len() as int);
    lemma_clamp_loop_props(mins, factors, space, clamped0, space, fill0);
    let (clamped, space1, fill1) = clamp_loop(mins, factors, clamped0, space, fill0);
    lemma_sum_bounds(mins, factors, clamped, mins.len() as int);
    lemma_alloc_props(mins, factors, clamped, space1, fill1, mins.len() as int);
}

/// Space conservation: when the minimums fit in the budget, the
/// distributed sizes never exceed it in sum.
pub proof fn lemma_distribute_sum(mins: Seq<u32>, factors: Seq<u16>, space: int)
    requires
        factors.len() == mins.len(),
        sum_mins(mins, mins.len() as int) <= space,
    ensures
        sum_sizes(spec_distribute(mins, factors, space), mins.len() as int) <= space,
{
    let clamped0 = Seq::new(mins.len(), |i: int| false);
    let fill0 = sum_factors(factors, factors.len() as int);
    lemma_initial_sums(mins, factors, mins.len() as int);
    lemma_clamp_loop_props(mins, factors, space, clamped0, space, fill0);
    let (clamped, space1, fill1) = clamp_loop(mins, factors, clamped0, space, fill0);
    lemma_sum_bounds(mins, factors, clamped, mins.len() as int);
    lemma_alloc_props(mins, factors, clamped, space1, fill1, mins.len() as int);
    lemma_mins_split(mins, clamped, mins.len() as int);
}

/// When every unclamped track's fair share already covers its minimum,
/// a pass changes nothing.
proof fn lemma_pass_no_clamp(
    mins: Seq<u32>,
    factors: Seq<u16>,
    clamped: Seq<bool>,
    space: int,
    fill: int,
    j: int,
)
    requires
        0 <= j <= mins.len(),
        clamped.len() == mins.len(),
        factors.len() == mins.len(),
        forall|k: int|
            0 <= k < mins.len() && !clamped[k] ==> (factors[k] as int) * space >= (mins[k] as int)
                * fill,
    ensures
        pass_upto(mins, factors, clamped, space, fill, j) == (clamped, space, fill, false),
    decreases j,
{
    if j > 0 {
        lemma_pass_no_clamp(mins, factors, clamped, space, fill, j - 1);
    }
}

/// Exact space conservation: when every track has a positive fill weight
/// and none clamps, the distributed sizes use the budget exactly.
pub proof fn lemma_distribute_exact(mins: Seq<u32>, factors: Seq<u16>, space: int)
    requires
        factors.len() == mins.len(),
        mins.len() > 0,
        0 <= space,
        sum_mins(mins, mins.len() as int) <= space,
        forall|k: int| 0 <= k < mins.len() ==> factors[k] > 0,
        forall|k: int|
            0 <= k < mins.len() ==> (factors[k] as int) * space >= (mins[k] as int) * sum_factors(
                factors,
                factors.len() as int,
            ),
    ensures
        sum_sizes(spec_distribute(mins, factors, space), mins.len() as int) == space,
{
    let n = mins.len() as int;
    let clamped0 = Seq::new(mins.len(), |i: int| false);
    let fill0 = sum_factors(factors, n);
    lemma_initial_sums(mins, factors, n);
    lemma_open_factor_le_sum(factors, clamped0, 0, n);
    assert(fill0 > 0);
    lemma_pass_no_clamp(mins, factors, clamped0, space, fill0, n);
    let (clamped, space1, fill1) = clamp_loop(mins, factors, clamped0, space, fill0);
    assert(clamped == clamped0 && space1 == space && fill1 == fill0);
    lemma_alloc_props(mins, factors, clamped0, space, fill0, n);
    lemma_alloc_props(mins, factors, clamped0, space, fill0, n - 1);
    let (sizes1, s1, f1) = alloc_upto(mins, factors, clamped0, space, fill0, n - 1);
    lemma_initial_sums(mins, factors, n - 1);
    assert(f1 == factors[n - 1] as int);
    let share = alloc_share(s1, f1, factors[n - 1]);
    vstd::arithmetic::div_mod::lemma_div_by_multiple(s1, f1);
    assert(share == s1 * (factors[n - 1] as int) / f1);
    assert(s1 * (factors[n - 1] as int) == s1 * f1);
    assert(share == s1);
    lemma_sums_split(factors, clamped0, n - 1, n - 1);
    lemma_share_bounds(s1, f1, factors[n - 1], mins[n - 1] as int);
    assert(alloc_upto(mins, factors, clamped0, space, fill0, n).1 == 0);
}

// ---------------------------------------------------------------------
// The executable solver.
// ---------------------------------------------------------------------

/// Multiplication respects upper bounds on non-negative values.
pub(crate) proof fn lemma_mul_le(a: int, a_bound: int, b: int, b_bound: int)
    requires
        0 <= a <= a_bound,
        0 <= b <= b_bound,
    ensures
        a * b <= a_bound * b_bound,
{
    assert(a * b <= a_bound * b_bound) by (nonlinear_arith)
        requires
            0 <= a <= a_bound,
            0 <= b <= b_bound,
    ;
}

/// Allocation yields one size per track served.
proof fn lemma_alloc_len(
    mins: Seq<u32>,
    factors: Seq<u16>,
    clamped: Seq<bool>,
    space0: int,
    fill0: int,
    j: int,
)
    requires
        0 <= j,
    ensures
        alloc_upto(mins, factors, clamped, space0, fill0, j).0.len() == j,
    decreases j,
{
    if j > 0 {
        lemma_alloc_len(mins, factors, clamped, space0, fill0, j - 1);
    }
}

/// A size of the first `j` allocated tracks is settled once served.
proof fn lemma_alloc_prefix(
    mins: Seq<u32>,
    factors: Seq<u16>,
    clamped: Seq<bool>,
    space0: int,
    fill0: int,
    i: int,
    j: int,
)
    requires
        0 <= i < j,
    ensures
        alloc_upto(mins, factors, clamped, space0, fill0, j).0[i] == alloc_upto(
            mins,
            factors,
            clamped,
            space0,
            fill0,
            i + 1,
        ).0[i],
    decreases j,
{
    lemma_alloc_len(mins, factors, clamped, space0, fill0, j - 1);
    if j > i + 1 {
        lemma_alloc_prefix(mins, factors, clamped, space0, fill0, i, j - 1);
    }
}

/// Shares leftover space among tracks in proportion to their fill
/// weights while guaranteeing every track its intrinsic minimum.
///
/// The budget must cover the summed minimums; the bound on the number
/// of tracks keeps all intermediate arithmetic inside `u64`.
pub fn distribute(mins: &Vec<u32>, factors: &Vec<u16>, space: u64) -> (tracks: Vec<u32>)
    requires
        mins@.len() == factors@.len(),
        mins@.len() <= MAX_TRACKS,
        space <= u32::MAX as u64,
        sum_mins(mins@, mins@.len() as int) <= space as int,
    ensures
        tracks@.len() == mins@.len(),
        forall|k: int|
            0 <= k < mins@.len() ==> tracks@[k] as int == spec_distribute(
                mins@,
                factors@,
                space as int,
            )[k],
{
    let ghost gm = mins@;
    let ghost gf = factors@;
    let n = mins.len();

    // Total fill weight of all tracks.
    let mut fill: u64 = 0;
    let mut idx: usize = 0;
    while idx < n
        invariant
            idx <= n,
            n == gm.len(),
            gm == mins@,
            gf == factors@,
            gf.len() == n,
            n <= MAX_TRACKS,
            fill as int == sum_factors(gf, idx as int),
            fill as int <= idx as int * 65535,
        decreases n - idx,
    {
        fill = fill + factors[idx] as u64;
        idx = idx + 1;
    }

    // No track is clamped at the start.
    let mut clamped: Vec<bool> = Vec::new();
    while clamped.len() < n
        invariant
            clamped@.len() <= n,
            forall|i: int| 0 <= i < clamped@.len() ==> !clamped@[i],
        decreases n - clamped@.len(),
    {
        clamped.push(false);
    }
    proof {
        assert(clamped@ =~= Seq::new(gm.len(), |i: int| false));
        lemma_initial_sums(gm, gf, gm.len() as int);
    }

    let mut space_left: u64 = space;
    let mut fill_left: u64 = fill;
    let ghost goal = clamp_loop(gm, gf, clamped@, space as int, fill as int);

    // Clamp iteratively until a full pass changes nothing.
    loop
        invariant_except_break
            gm == mins@,
            gf == factors@,
            gm.len() == n,
            gf.len() == n,
            clamped@.len() == n,
            n <= MAX_TRACKS,
            space <= u32::MAX as u64,
            fill as int <= n as int * 65535,
            sum_mins(gm, n as int) <= space as int,
            state_inv(gm, gf, space as int, clamped@, space_left as int, fill_left as int),
            space_left <= space,
            fill_left <= fill,
            clamp_loop(gm, gf, clamped@, space_left as int, fill_left as int) == goal,
        ensures
            gm == mins@ && gf == factors@ && clamped@.len() == n,
            (clamped@, space_left as int, fill_left as int) == goal,
            state_inv(gm, gf, space as int, clamped@, space_left as int, fill_left as int),
            space_left <= space,
            fill_left <= fill,
            forall|k: int|
                0 <= k < n && !clamped@[k] ==> (gf[k] as int) * space_left >= (gm[k] as int)
                    * fill_left,
        decreases open_count(clamped@, n as int),
    {
        let ghost c_pre = clamped@;
        let ghost s_pre = space_left as int;
        let ghost f_pre = fill_left as int;
        let mut changed = false;
        let mut k: usize = 0;
        while k < n
            invariant
                k <= n,
                gm == mins@,
                gf == factors@,
                gm.len() == n,
                gf.len() == n,
                clamped@.len() == n,
                n <= MAX_TRACKS,
                space <= u32::MAX as u64,
                fill as int <= n as int * 65535,
                sum_mins(gm, n as int) <= space as int,
                c_pre.len() == n,
                pass_upto(gm, gf, c_pre, s_pre, f_pre, k as int) == (
                    clamped@,
                    space_left as int,
                    fill_left as int,
                    changed,
                ),
                state_inv(gm, gf, space as int, clamped@, space_left as int, fill_left as int),
                space_left <= space,
                fill_left <= fill,
            decreases n - k,
        {
            if !clamped[k] {
                proof {
                    lemma_mul_le(gf[k as int] as int, 65535, space_left as int, u32::MAX as int);
                    lemma_mul_le(
                        gm[k as int] as int,
                        u32::MAX as int,
                        fill_left as int,
                        MAX_TRACKS as int * 65535,
                    );
                }
                let lhs = (factors[k] as u64) * space_left;
                let rhs = (mins[k] as u64) * fill_left;
                if lhs < rhs {
                    proof {
                        lemma_sums_update(gm, gf, clamped@, k as int, n as int);
                        lemma_sum_bounds(gm, gf, clamped@.update(k as int, true), n as int);
                        lemma_open_factor_le_sum(gf, clamped@, k as int, n as int);
                    }
                    clamped[k] = true;
                    space_left = space_left - mins[k] as u64;
                    fill_left = fill_left - factors[k] as u64;
                    changed = true;
                }
            }
            k = k + 1;
        }
        proof {
            lemma_pass_props(gm, gf, c_pre, s_pre, f_pre, n as int);
            lemma_sum_bounds(gm, gf, clamped@, n as int);
        }
        if !changed {
            break ;
        }
    }

    // Serve every track its final size.
    let ghost c_fix = clamped@;
    let ghost s_fix = space_left as int;
    let ghost f_fix = fill_left as int;
    let mut tracks: Vec<u32> = Vec::new();
    let mut k: usize = 0;
    while k < n
        invariant
            k <= n,
            gm == mins@,
            gf == factors@,
            gm.len() == n,
            gf.len() == n,
            c_fix.len() == n,
            clamped@ == c_fix,
            n <= MAX_TRACKS,
            space <= u32::MAX as u64,
            0 <= s_fix <= space,
            f_fix == sum_open_factors(gf, c_fix, n as int),
            forall|i: int|
                0 <= i < n && !c_fix[i] ==> (gf[i] as int) * s_fix >= (gm[i] as int) * f_fix,
            tracks@.len() == k,
            alloc_upto(gm, gf, c_fix, s_fix, f_fix, k as int).1 == space_left as int,
            alloc_upto(gm, gf, c_fix, s_fix, f_fix, k as int).2 == fill_left as int,
            forall|i: int|
                0 <= i < k as int ==> tracks@[i] as int == alloc_upto(
                    gm,
                    gf,
                    c_fix,
                    s_fix,
                    f_fix,
                    n as int,
                ).0[i],
        decreases n - k,
    {
        proof {
            lemma_alloc_props(gm, gf, c_fix, s_fix, f_fix, k as int);
        }
        if clamped[k] {
            tracks.push(mins[k]);
        } else {
            proof {
                lemma_sums_split(gf, c_fix, k as int, k as int);
                lemma_open_factors_monotone(gf, c_fix, 0, k as int);
                lemma_share_bounds(
                    space_left as int,
                    fill_left as int,
                    gf[k as int],
                    gm[k as int] as int,
                );
            }
            let share: u64 = if fill_left > 0 {
                proof {
                    lemma_mul_le(space_left as int, u32::MAX as int, gf[k as int] as int, 65535);
                }
                (space_left * (factors[k] as u64)) / fill_left
            } else {
                0
            };
            let size: u64 = if share > mins[k] as u64 {
                share
            } else {
                mins[k] as u64
            };
            tracks.push(size as u32);
            space_left = space_left - share;
            fill_left = fill_left - factors[k] as u64;
        }
        proof {
            lemma_alloc_prefix(gm, gf, c_fix, s_fix, f_fix, k as int, n as int);
        }
        k = k + 1;
    }
    proof {
        assert(forall|i: int|
            0 <= i < n ==> tracks@[i] as int == spec_distribute(gm, gf, space as int)[i]);
    }
    tracks
}

} // verus!
