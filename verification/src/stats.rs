use vstd::prelude::*;

verus! {

/// All-time statistics of a game.
#[derive(Clone, Debug, PartialEq, Eq, Structural)]
pub struct Stats {
    /// Points earned in total.
    pub points: usize,
    /// The largest value harvested at once.
    pub largest_harvest: usize,
    /// Whether the statistics are shown.
    pub enable: bool,
}

impl Stats {
    /// Fresh statistics: nothing earned, not shown.
    pub fn new() -> (r: Self)
        ensures
            r.points == 0,
            r.largest_harvest == 0,
            !r.is_enabled(),
    {
        Stats { points: 0, largest_harvest: 0, enable: false }
    }

    /// Whether the statistics are shown.
    pub open spec fn is_enabled(&self) -> bool {
        self.enable
    }

    /// Whether the statistics are shown.
    pub fn enabled(&self) -> (r: bool)
        ensures
            r == self.is_enabled(),
    {
        self.enable
    }

    /// Counts earned points.
    pub fn points(&mut self, points: usize)
        requires
            old(self).points + points <= usize::MAX,
        ensures
            final(self).points == old(self).points + points,
            final(self).largest_harvest == old(self).largest_harvest,
            final(self).is_enabled() == old(self).is_enabled(),
    {
        self.points = self.points + points;
    }

    /// Records a harvest, keeping the largest one.
    pub fn harvest(&mut self, harvest: usize)
        ensures
            final(self).largest_harvest == if harvest > old(self).largest_harvest { harvest } else { old(self).largest_harvest },
            final(self).points == old(self).points,
            final(self).is_enabled() == old(self).is_enabled(),
    {
        if harvest > self.largest_harvest {
            self.largest_harvest = harvest;
        }
    }

    /// Shows the statistics from now on.
    pub fn enable(&mut self)
        ensures
            final(self).is_enabled(),
            final(self).points == old(self).points,
            final(self).largest_harvest == old(self).largest_harvest,
    {
        self.enable = true;
    }
}

} // verus!
