use vstd::prelude::*;

use crate::stats::Stats;

verus! {

/// How harvested value turns into points.
#[derive(Clone, Copy, Debug, PartialEq, Eq, Structural)]
pub enum CostFn {
    /// One point per unit of value.
    Static,
    /// `⌊v · log10 v⌋` points for value `v`.
    NlogN,
}

pub open spec fn spec_apply(c: CostFn, points: usize, nlogn: usize) -> usize {
    match c {
        CostFn::Static => points,
        CostFn::NlogN => nlogn,
    }
}

impl CostFn {
    /// Points credited for harvested value `points`; `nlogn` is
    /// `⌊points · log10 points⌋`, a floating-point figure that callers
    /// compute.
    pub fn apply(&self, points: usize, nlogn: usize) -> (r: usize)
        ensures
            r == spec_apply(*self, points, nlogn),
    {
        match self {
            CostFn::Static => points,
            CostFn::NlogN => nlogn,
        }
    }
}

/// Points available to spend.
#[derive(Clone, Debug, PartialEq, Eq, Structural)]
pub struct Points {
    pub points: usize,
    pub cost_fn: CostFn,
}

impl Points {
    /// Points available.
    pub open spec fn amount(&self) -> usize {
        self.points
    }

    /// The cost function in force.
    pub open spec fn cost(&self) -> CostFn {
        self.cost_fn
    }

    /// No points, one point per unit of value.
    pub fn new() -> (r: Self)
        ensures
            r.amount() == 0,
            r.cost() == CostFn::Static,
    {
        Points { points: 0, cost_fn: CostFn::Static }
    }

    /// Spends points.
    pub fn sub(&mut self, points: usize)
        requires
            old(self).amount() >= points,
        ensures
            final(self).amount() == old(self).amount() - points,
            final(self).cost() == old(self).cost(),
    {
        self.points = self.points - points;
    }

    /// Credits harvested value `points` by the cost function (`nlogn` being
    /// `⌊points · log10 points⌋`), counting the credit in `stats` too.
    pub fn add(&mut self, points: usize, nlogn: usize, stats: &mut Stats)
        requires
            old(self).amount() + spec_apply(old(self).cost(), points, nlogn) <= usize::MAX,
            old(stats).points + spec_apply(old(self).cost(), points, nlogn) <= usize::MAX,
        ensures
            final(self).amount() == old(self).amount() + spec_apply(old(self).cost(), points, nlogn),
            final(self).cost() == old(self).cost(),
            final(stats).points == old(stats).points + spec_apply(old(self).cost(), points, nlogn),
            final(stats).largest_harvest == old(stats).largest_harvest,
            final(stats).is_enabled() == old(stats).is_enabled(),
    {
        let points = self.cost_fn.apply(points, nlogn);
        stats.points(points);
        self.points = self.points + points;
    }

    /// Switches to `⌊v · log10 v⌋` points per harvest.
    pub fn set_log(&mut self)
        ensures
            final(self).amount() == old(self).amount(),
            final(self).cost() == CostFn::NlogN,
    {
        self.cost_fn = CostFn::NlogN;
    }

    pub fn get(&self) -> (r: usize)
        ensures
            r == self.amount(),
    {
        self.points
    }

    /// The cost function in force.
    pub fn cost_fn(&self) -> (r: CostFn)
        ensures
            r == self.cost(),
    {
        self.cost_fn
    }
}

} // verus!
