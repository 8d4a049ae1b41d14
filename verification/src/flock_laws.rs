//! Why the grid may stand in for a look at the whole flock: the sums that
//! steer an agent do not depend on the order of its candidates, nor on
//! candidates that are out of range, so the candidates that the grid hands
//! out give the same velocity as the flock itself.

use vstd::prelude::*;
use crate::boid::Boid;
use crate::boid::Point;
use crate::boid::Tally;
use crate::config::Tuning;
use crate::grid_laws::lemma_block_entries_in_flock;
use crate::grid_laws::lemma_block_no_duplicates;
use crate::grid_laws::lemma_query_superset;
use crate::grid_laws::lemma_rebuilt_files;
use crate::grid_laws::lemma_rebuilt_shape;
use crate::spatial_grid::GridModel;
use crate::state::advanced;
use crate::state::config_error;
use crate::state::ticked;

verus! {

/// The places of a flock of `n` agents, in order.
pub open spec fn everyone(n: nat) -> Seq<usize> {
    Seq::new(n, |j: int| j as usize)
}

impl Boid {
    /// The tally `tl` after the candidate at place `j` has been dealt with:
    /// passed over if it is the agent itself, looked at otherwise.
    pub open spec fn regard(self, own_index: int, tl: Tally, j: int, flock: Seq<Boid>, t: Tuning)
        -> Tally {
        if j == own_index {
            tl
        } else {
            self.observe(tl, flock[j], t)
        }
    }

    /// The agent at place `j` counts for something: it is another agent and
    /// is close or visible.
    pub open spec fn counts(self, own_index: int, j: int, flock: Seq<Boid>, t: Tuning) -> bool {
        j != own_index && (self.is_close(flock[j], t) || self.is_visible(flock[j], t))
    }

    /// The tally over those of the candidates that stand below place
    /// `bound` of the flock.
    pub open spec fn tally_below(
        self,
        own_index: int,
        candidates: Seq<usize>,
        bound: int,
        flock: Seq<Boid>,
        t: Tuning,
    ) -> Tally
        decreases candidates.len(),
    {
        if candidates.len() == 0 {
            Tally::zero()
        } else {
            let before = self.tally_below(own_index, candidates.drop_last(), bound, flock, t);
            let j = candidates.last() as int;
            if j < bound {
                self.regard(own_index, before, j, flock, t)
            } else {
                before
            }
        }
    }

    /// The agent steered by a look at the whole flock instead of at
    /// candidates, then limited, moved and kept within the world.
    pub open spec fn advanced_directly(
        self,
        own_index: int,
        flock: Seq<Boid>,
        elapsed_ms: int,
        obstacle: Point,
        width: int,
        height: int,
        t: Tuning,
    ) -> Boid {
        self.behaved(own_index, everyone(flock.len()), flock, t).limited(t).moved(
            elapsed_ms,
        ).bounded(obstacle, width, height, t)
    }
}

/// The order in which two candidates are dealt with does not matter.
pub proof fn lemma_regard_commutes(
    me: Boid,
    own_index: int,
    tl: Tally,
    j: int,
    k: int,
    flock: Seq<Boid>,
    t: Tuning,
)
    ensures
        me.regard(own_index, me.regard(own_index, tl, j, flock, t), k, flock, t) == me.regard(
            own_index,
            me.regard(own_index, tl, k, flock, t),
            j,
            flock,
            t,
        ),
{
}

/// A candidate that does not count leaves the tally as it is.
pub proof fn lemma_regard_idle(
    me: Boid,
    own_index: int,
    tl: Tally,
    j: int,
    flock: Seq<Boid>,
    t: Tuning,
)
    requires
        !me.counts(own_index, j, flock, t),
    ensures
        me.regard(own_index, tl, j, flock, t) == tl,
{
}

/// Below a bound that all candidates stay under, every candidate is
/// tallied.
pub proof fn lemma_tally_below_all(
    me: Boid,
    own_index: int,
    candidates: Seq<usize>,
    bound: int,
    flock: Seq<Boid>,
    t: Tuning,
)
    requires
        forall|p: int| 0 <= p < candidates.len() ==> candidates[p] < bound,
    ensures
        me.tally_below(own_index, candidates, bound, flock, t) == me.tally(
            own_index,
            candidates,
            flock,
            t,
        ),
    decreases candidates.len(),
{
    if candidates.len() > 0 {
        lemma_tally_below_all(me, own_index, candidates.drop_last(), bound, flock, t);
    }
}

/// Below place zero nothing is tallied.
pub proof fn lemma_tally_below_none(
    me: Boid,
    own_index: int,
    candidates: Seq<usize>,
    flock: Seq<Boid>,
    t: Tuning,
)
    ensures
        me.tally_below(own_index, candidates, 0, flock, t) == Tally::zero(),
    decreases candidates.len(),
{
    if candidates.len() > 0 {
        lemma_tally_below_none(me, own_index, candidates.drop_last(), flock, t);
    }
}

/// Raising the bound past a place that is not among the candidates changes
/// nothing.
pub proof fn lemma_tally_below_absent(
    me: Boid,
    own_index: int,
    candidates: Seq<usize>,
    m: int,
    flock: Seq<Boid>,
    t: Tuning,
)
    requires
        forall|p: int| 0 <= p < candidates.len() ==> candidates[p] != m,
    ensures
        me.tally_below(own_index, candidates, m + 1, flock, t) == me.tally_below(
            own_index,
            candidates,
            m,
            flock,
            t,
        ),
    decreases candidates.len(),
{
    if candidates.len() > 0 {
        lemma_tally_below_absent(me, own_index, candidates.drop_last(), m, flock, t);
        assert(candidates.last() == candidates[candidates.len() - 1]);
    }
}

/// Raising the bound past a place that is among the candidates, once, deals
/// with that place.
pub proof fn lemma_tally_below_present(
    me: Boid,
    own_index: int,
    candidates: Seq<usize>,
    m: int,
    flock: Seq<Boid>,
    t: Tuning,
)
    requires
        candidates.no_duplicates(),
        exists|p: int| 0 <= p < candidates.len() && candidates[p] == m,
    ensures
        me.tally_below(own_index, candidates, m + 1, flock, t) == me.regard(
            own_index,
            me.tally_below(own_index, candidates, m, flock, t),
            m,
            flock,
            t,
        ),
    decreases candidates.len(),
{
    let rest = candidates.drop_last();
    let j = candidates.last() as int;
    let last_place = candidates.len() - 1;
    assert(candidates.last() == candidates[last_place]);
    assert forall|p: int| 0 <= p < rest.len() implies rest[p] == candidates[p] by {}
    if j == m {
        assert forall|p: int| 0 <= p < rest.len() implies rest[p] != m by {
            assert(candidates[p] != candidates[last_place]);
        }
        lemma_tally_below_absent(me, own_index, rest, m, flock, t);
    } else {
        let p = choose|p: int| 0 <= p < candidates.len() && candidates[p] == m;
        assert(p < rest.len());
        assert(rest[p] == m);
        assert(rest.no_duplicates());
        lemma_tally_below_present(me, own_index, rest, m, flock, t);
        if j < m {
            lemma_regard_commutes(
                me,
                own_index,
                me.tally_below(own_index, rest, m, flock, t),
                m,
                j,
                flock,
                t,
            );
        }
    }
}

/// Candidates that hold every agent that counts, each at most once, and
/// nothing beyond the flock, give the same tally as the whole flock.
pub proof fn lemma_tally_is_of_the_flock(
    me: Boid,
    own_index: int,
    candidates: Seq<usize>,
    flock: Seq<Boid>,
    t: Tuning,
)
    requires
        candidates.no_duplicates(),
        forall|p: int| 0 <= p < candidates.len() ==> candidates[p] < flock.len(),
        forall|j: int|
            0 <= j < flock.len() && #[trigger] me.counts(own_index, j, flock, t)
                ==> candidates.contains(j as usize),
        flock.len() <= usize::MAX + 1,
    ensures
        me.tally(own_index, candidates, flock, t) == me.tally(
            own_index,
            everyone(flock.len()),
            flock,
            t,
        ),
{
    lemma_tally_up_to(me, own_index, candidates, flock.len() as int, flock, t);
    lemma_tally_below_all(me, own_index, candidates, flock.len() as int, flock, t);
}

/// Up to every place `m` of the flock, the candidates below `m` give the
/// tally of the first `m` agents.
proof fn lemma_tally_up_to(
    me: Boid,
    own_index: int,
    candidates: Seq<usize>,
    m: int,
    flock: Seq<Boid>,
    t: Tuning,
)
    requires
        0 <= m <= flock.len(),
        candidates.no_duplicates(),
        forall|j: int|
            0 <= j < flock.len() && #[trigger] me.counts(own_index, j, flock, t)
                ==> candidates.contains(j as usize),
        flock.len() <= usize::MAX + 1,
    ensures
        me.tally_below(own_index, candidates, m, flock, t) == me.tally(
            own_index,
            everyone(m as nat),
            flock,
            t,
        ),
    decreases m,
{
    if m == 0 {
        lemma_tally_below_none(me, own_index, candidates, flock, t);
    } else {
        let k = m - 1;
        lemma_tally_up_to(me, own_index, candidates, k, flock, t);
        let first = everyone(k as nat);
        let more = everyone(m as nat);
        assert(more.drop_last() == first);
        assert(more.last() == k as usize);
        let so_far = me.tally(own_index, first, flock, t);
        assert(me.tally(own_index, more, flock, t) == me.regard(own_index, so_far, k, flock, t));
        if exists|p: int| 0 <= p < candidates.len() && candidates[p] == k {
            lemma_tally_below_present(me, own_index, candidates, k, flock, t);
        } else {
            lemma_tally_below_absent(me, own_index, candidates, k, flock, t);
            if me.counts(own_index, k, flock, t) {
                assert(candidates.contains(k as usize));
                let p = choose|p: int| 0 <= p < candidates.len() && candidates[p] == k as usize;
                assert(candidates[p] == k);
            }
            lemma_regard_idle(me, own_index, so_far, k, flock, t);
        }
    }
}

/// A range that is no larger holds a square that is no larger.
proof fn lemma_range_squares(inner: int, outer: int)
    requires
        -outer <= inner <= outer,
    ensures
        inner * inner <= outer * outer,
{
    assert(inner * inner <= outer * outer) by (nonlinear_arith)
        requires
            -outer <= inner <= outer,
    ;
}

/// The candidates of the grid give the tally of the whole flock.
///
/// This holds in a grid that files the flock, for a query at the agent's
/// position with a range that is no larger than a cell and no smaller than
/// the visual range and the minimum distance.
pub proof fn lemma_grid_tally_is_of_the_flock(
    g: GridModel,
    me: Boid,
    own_index: int,
    range: int,
    flock: Seq<Boid>,
    t: Tuning,
)
    requires
        g.files(flock),
        flock.len() <= usize::MAX + 1,
        0 <= range <= g.cell_size,
        -range <= t.visual_range <= range,
        -range <= t.min_distance <= range,
    ensures
        me.tally(own_index, g.candidates(me.x as int, me.y as int, range), flock, t) == me.tally(
            own_index,
            everyone(flock.len()),
            flock,
            t,
        ),
{
    let found = g.candidates(me.x as int, me.y as int, range);
    let radius = g.cell_radius(range);
    let cx = g.column(me.x as int);
    let cy = g.row(me.y as int);
    let x_lo = vstd::math::max(cx - radius, 0);
    let x_hi = vstd::math::min(cx + radius, g.width - 1);
    let y_lo = vstd::math::max(cy - radius, 0);
    let y_hi = vstd::math::min(cy + radius, g.height - 1);
    lemma_block_no_duplicates(g, flock, x_lo, x_hi, y_lo, y_hi);
    lemma_block_entries_in_flock(g, flock, x_lo, x_hi, y_lo, y_hi);
    lemma_range_squares(t.visual_range as int, range);
    lemma_range_squares(t.min_distance as int, range);
    assert forall|j: int|
        0 <= j < flock.len() && #[trigger] me.counts(own_index, j, flock, t) implies found.contains(
        j as usize,
    ) by {
        lemma_query_superset(g, flock, me.x as int, me.y as int, range, j);
    }
    lemma_tally_is_of_the_flock(me, own_index, found, flock, t);
}

/// A tick through the grid moves every agent as a look at the whole flock
/// would.
///
/// This holds where the minimum distance is no larger than the visual
/// range, for every agent, inside the world or outside.
pub proof fn lemma_tick_is_of_the_flock(
    flock: Seq<Boid>,
    i: int,
    elapsed_ms: int,
    obstacle: Point,
    width: int,
    height: int,
    t: Tuning,
)
    requires
        width <= i32::MAX,
        height <= i32::MAX,
        config_error(width, height, t) is None,
        flock.len() <= usize::MAX,
        0 <= i < flock.len(),
        -t.visual_range <= t.min_distance <= t.visual_range,
    ensures
        ticked(flock, elapsed_ms, obstacle, width, height, t)[i] == flock[i].advanced_directly(
            i,
            flock,
            elapsed_ms,
            obstacle,
            width,
            height,
            t,
        ),
{
    let empty = GridModel::empty(width, height, t.visual_range as int);
    crate::spatial_grid::lemma_ceil_div_bounds(width, t.visual_range as int);
    crate::spatial_grid::lemma_ceil_div_bounds(height, t.visual_range as int);
    assert(empty.wf()) by {
        assert(empty.width * empty.height >= 0) by (nonlinear_arith)
            requires
                empty.width >= 1,
                empty.height >= 1,
        ;
    }
    let grid = empty.rebuilt(flock);
    lemma_rebuilt_files(empty, flock);
    lemma_rebuilt_shape(empty, flock);
    lemma_grid_tally_is_of_the_flock(grid, flock[i], i, t.visual_range as int, flock, t);
    assert(ticked(flock, elapsed_ms, obstacle, width, height, t)[i] == advanced(
        flock,
        i,
        grid,
        elapsed_ms,
        obstacle,
        width,
        height,
        t,
    ));
}

} // verus!
