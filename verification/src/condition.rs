use vstd::prelude::*;

use crate::maze::Point;
use crate::number::{new_exponent, Number};
use crate::upgrade::UpgradeType;

verus! {

/// A requirement of an upgrade: what must hold for it to show or to be
/// bought.
#[derive(Debug, PartialEq, Eq)]
pub enum Condition {
    AlltimePoints(usize),
    HavePoints(usize),
    HaveShuffles(usize),
    AvgPoints(usize),
    Harvested(usize),
    BoardSize(usize, usize),
    PointsOnBoard(usize),
    Free(),
    UpgradeDone(UpgradeType),
    /// The first holds and the second does not.
    Between(Box<Condition>, Box<Condition>),
    NumberOnBoard(usize),
}

/// What a condition looks at: a snapshot of the game.
pub struct Context {
    /// Points earned in total.
    pub alltime_points: usize,
    /// Largest value harvested at once.
    pub largest_harvest: usize,
    /// Points available to spend.
    pub points: usize,
    /// Whole part (rounded down) of the remaining shuffles.
    pub shuffles: i64,
    /// Whole part (rounded down) of the average points per second.
    pub avg_points: u64,
    /// Points on the board.
    pub points_on_board: usize,
    /// Extent of the board.
    pub board_size: Point,
    /// Each upgrade with whether it is done.
    pub upgrades: Vec<(UpgradeType, bool)>,
    /// The tiles of the board.
    pub tiles: Vec<Number>,
}

/// What buying something with a condition as its cost takes away.
#[derive(Clone, Copy, Debug, PartialEq, Eq, Structural)]
pub enum Payment {
    Nothing,
    /// Spend that many points.
    Points(usize),
    /// Spend that many shuffles.
    Shuffles(usize),
    /// Harvest a tile made from that number.
    Number(usize),
}

/// Whether upgrade `t` is done according to the snapshot.
pub open spec fn ctx_done(ctx: &Context, t: UpgradeType) -> bool {
    exists|j: int| 0 <= j < ctx.upgrades@.len() && ctx.upgrades@[j] == (t, true)
}

/// Whether the snapshot lists upgrade `t`.
pub open spec fn ctx_has(ctx: &Context, t: UpgradeType) -> bool {
    exists|j: int| 0 <= j < ctx.upgrades@.len() && ctx.upgrades@[j].0 == t
}

/// The snapshot lists each upgrade once.
pub open spec fn ctx_wf(ctx: &Context) -> bool {
    forall|i: int, j: int| 0 <= i < ctx.upgrades@.len() && 0 <= j < ctx.upgrades@.len() && i != j
        ==> ctx.upgrades@[i].0 != ctx.upgrades@[j].0
}

/// Whether the board holds a tile made from `n`.
pub open spec fn ctx_has_number(ctx: &Context, n: usize) -> bool {
    exists|j: int| 0 <= j < ctx.tiles@.len() && ctx.tiles@[j].value == Some(new_exponent(n as nat) as usize)
}

/// Whether condition `c` holds in snapshot `ctx`.
pub open spec fn holds(c: Condition, ctx: &Context) -> bool
    decreases c,
{
    match c {
        Condition::AlltimePoints(p) => ctx.alltime_points >= p,
        Condition::AvgPoints(p) => ctx.avg_points >= p,
        Condition::PointsOnBoard(p) => ctx.points_on_board >= p,
        Condition::HavePoints(p) => ctx.points >= p,
        Condition::HaveShuffles(p) => ctx.shuffles >= p,
        Condition::Harvested(p) => ctx.largest_harvest >= p,
        Condition::BoardSize(x, y) => ctx.board_size.x >= x && ctx.board_size.y >= y,
        Condition::UpgradeDone(t) => ctx_done(ctx, t),
        Condition::Between(a, b) => holds(*a, ctx) && !holds(*b, ctx),
        Condition::Free() => true,
        Condition::NumberOnBoard(i) => ctx_has_number(ctx, i),
    }
}

/// Checking `c` in `ctx` cannot fail: every upgrade it names is listed and
/// every number it names makes a tile.
pub open spec fn checkable(c: Condition, ctx: &Context) -> bool
    decreases c,
{
    match c {
        Condition::UpgradeDone(t) => ctx_has(ctx, t) && ctx_wf(ctx),
        Condition::Between(a, b) => checkable(*a, ctx) && (holds(*a, ctx) ==> checkable(*b, ctx)),
        Condition::NumberOnBoard(i) => i >= 2 && i % 2 == 0,
        _ => true,
    }
}

/// Whether two conditions are of the same kind, for the kinds that are
/// compared.
pub open spec fn spec_equals(a: Condition, b: Condition) -> bool {
    match (a, b) {
        (Condition::HavePoints(_), Condition::HavePoints(_)) => true,
        (Condition::PointsOnBoard(_), Condition::PointsOnBoard(_)) => true,
        (Condition::Free(), Condition::Free()) => true,
        (Condition::Harvested(_), Condition::Harvested(_)) => true,
        (Condition::AlltimePoints(_), Condition::AlltimePoints(_)) => true,
        (Condition::AvgPoints(_), Condition::AvgPoints(_)) => true,
        (Condition::UpgradeDone(_), Condition::UpgradeDone(_)) => true,
        (Condition::NumberOnBoard(_), Condition::NumberOnBoard(_)) => true,
        _ => false,
    }
}

/// Conditions that scale, with a factor that keeps them within `usize`.
pub open spec fn can_multiply(c: Condition, i: usize) -> bool {
    match c {
        Condition::HavePoints(p) => p * i <= usize::MAX,
        Condition::PointsOnBoard(p) => p * i <= usize::MAX,
        Condition::AvgPoints(p) => p * i <= usize::MAX,
        Condition::AlltimePoints(p) => p * i <= usize::MAX,
        Condition::Harvested(p) => p * i <= usize::MAX,
        Condition::Free() => true,
        Condition::NumberOnBoard(n) => n * 2 <= usize::MAX,
        _ => false,
    }
}

/// A scaled condition: amounts multiplied by `i`; a number on the board is
/// doubled whatever `i` is.
pub open spec fn spec_multiply(c: Condition, i: usize) -> Condition {
    match c {
        Condition::HavePoints(p) => Condition::HavePoints((p * i) as usize),
        Condition::PointsOnBoard(p) => Condition::PointsOnBoard((p * i) as usize),
        Condition::AvgPoints(p) => Condition::AvgPoints((p * i) as usize),
        Condition::AlltimePoints(p) => Condition::AlltimePoints((p * i) as usize),
        Condition::Harvested(p) => Condition::Harvested((p * i) as usize),
        Condition::NumberOnBoard(n) => Condition::NumberOnBoard((n * 2) as usize),
        _ => c,
    }
}

/// What meeting a cost takes away.
pub open spec fn spec_payment(c: Condition) -> Payment {
    match c {
        Condition::HavePoints(p) => Payment::Points(p),
        Condition::HaveShuffles(p) => Payment::Shuffles(p),
        Condition::NumberOnBoard(i) => Payment::Number(i),
        _ => Payment::Nothing,
    }
}

impl Condition {
    /// Whether the two are of the same kind (only for the kinds a store is
    /// watched for).
    pub fn equals(&self, c: &Condition) -> (r: bool)
        ensures
            r == spec_equals(*self, *c),
    {
        match (self, c) {
            (Condition::HavePoints(_), Condition::HavePoints(_)) => true,
            (Condition::PointsOnBoard(_), Condition::PointsOnBoard(_)) => true,
            (Condition::Free(), Condition::Free()) => true,
            (Condition::Harvested(_), Condition::Harvested(_)) => true,
            (Condition::AlltimePoints(_), Condition::AlltimePoints(_)) => true,
            (Condition::AvgPoints(_), Condition::AvgPoints(_)) => true,
            (Condition::UpgradeDone(_), Condition::UpgradeDone(_)) => true,
            (Condition::NumberOnBoard(_), Condition::NumberOnBoard(_)) => true,
            _ => false,
        }
    }

    /// Whether the condition holds in the snapshot.
    pub fn check(&self, ctx: &Context) -> (r: bool)
        requires
            checkable(*self, ctx),
        ensures
            r == holds(*self, ctx),
        decreases *self,
    {
        match self {
            Condition::AlltimePoints(p) => ctx.alltime_points >= *p,
            Condition::AvgPoints(p) => ctx.avg_points >= *p as u64,
            Condition::PointsOnBoard(p) => ctx.points_on_board >= *p,
            Condition::HavePoints(p) => ctx.points >= *p,
            Condition::HaveShuffles(p) => ctx.shuffles >= 0 && ctx.shuffles as u64 >= *p as u64,
            Condition::Harvested(p) => ctx.largest_harvest >= *p,
            Condition::BoardSize(x, y) => ctx.board_size.x >= *x && ctx.board_size.y >= *y,
            Condition::UpgradeDone(t) => is_done_in(ctx, *t),
            Condition::Between(a, b) => {
                let first = a.check(ctx);
                first && !b.check(ctx)
            },
            Condition::Free() => true,
            Condition::NumberOnBoard(i) => has_number(ctx, *i),
        }
    }

    /// What meeting this cost takes away: points, shuffles, or a tile.
    pub fn fulfilled(&self) -> (r: Payment)
        ensures
            r == spec_payment(*self),
    {
        match self {
            Condition::HavePoints(p) => Payment::Points(*p),
            Condition::HaveShuffles(p) => Payment::Shuffles(*p),
            Condition::NumberOnBoard(i) => Payment::Number(*i),
            _ => Payment::Nothing,
        }
    }

    /// The condition scaled by `i`.
    pub fn multiply(&self, i: usize) -> (r: Self)
        requires
            can_multiply(*self, i),
        ensures
            r == spec_multiply(*self, i),
    {
        match self {
            Condition::HavePoints(p) => Condition::HavePoints(*p * i),
            Condition::PointsOnBoard(p) => Condition::PointsOnBoard(*p * i),
            Condition::AvgPoints(p) => Condition::AvgPoints(*p * i),
            Condition::AlltimePoints(p) => Condition::AlltimePoints(*p * i),
            Condition::Harvested(p) => Condition::Harvested(*p * i),
            Condition::NumberOnBoard(n) => Condition::NumberOnBoard(*n * 2),
            _ => Condition::Free(),
        }
    }

    /// Whether the condition can be scaled by `i` (see `can_multiply`).
    pub fn can_scale(&self, i: usize) -> (r: bool)
        ensures
            r == can_multiply(*self, i),
    {
        match self {
            Condition::HavePoints(p) => p.checked_mul(i).is_some(),
            Condition::PointsOnBoard(p) => p.checked_mul(i).is_some(),
            Condition::AvgPoints(p) => p.checked_mul(i).is_some(),
            Condition::AlltimePoints(p) => p.checked_mul(i).is_some(),
            Condition::Harvested(p) => p.checked_mul(i).is_some(),
            Condition::Free() => true,
            Condition::NumberOnBoard(n) => *n <= usize::MAX / 2,
            _ => false,
        }
    }

    /// The cost of a price in points.
    pub fn from_points(points: usize) -> (r: Self)
        ensures
            r == Condition::HavePoints(points),
    {
        Condition::HavePoints(points)
    }
}

fn is_done_in(ctx: &Context, t: UpgradeType) -> (r: bool)
    requires
        ctx_has(ctx, t),
        ctx_wf(ctx),
    ensures
        r == ctx_done(ctx, t),
{
    let mut j: usize = 0;
    while j < ctx.upgrades.len()
        invariant
            j <= ctx.upgrades@.len(),
            ctx_wf(ctx),
            ctx_has(ctx, t),
            forall|k: int| 0 <= k < j ==> ctx.upgrades@[k].0 != t,
        decreases ctx.upgrades@.len() - j,
    {
        if ctx.upgrades[j].0 == t {
            let r = ctx.upgrades[j].1;
            proof {
                if r {
                    assert(ctx.upgrades@[j as int] == (t, true));
                } else if ctx_done(ctx, t) {
                    let k = choose|k: int| 0 <= k < ctx.upgrades@.len() && ctx.upgrades@[k] == (t, true);
                    assert(ctx.upgrades@[k].0 == ctx.upgrades@[j as int].0);
                    assert(k != j);
                    assert(false);
                }
            }
            return r;
        }
        j = j + 1;
    }
    proof {
        let k = choose|k: int| 0 <= k < ctx.upgrades@.len() && ctx.upgrades@[k].0 == t;
        assert(ctx.upgrades@[k].0 == t);
    }
    false
}

fn has_number(ctx: &Context, n: usize) -> (r: bool)
    requires
        n >= 2,
        n % 2 == 0,
    ensures
        r == ctx_has_number(ctx, n),
{
    let want = Number::new(n);
    let mut j: usize = 0;
    while j < ctx.tiles.len()
        invariant
            want.value == Some(new_exponent(n as nat) as usize),
            j <= ctx.tiles@.len(),
            forall|k: int| 0 <= k < j ==> ctx.tiles@[k].value != Some(new_exponent(n as nat) as usize),
        decreases ctx.tiles@.len() - j,
    {
        if ctx.tiles[j] == want {
            return true;
        }
        j = j + 1;
    }
    false
}


fn lists_kind(ctx: &Context, t: UpgradeType) -> (r: bool)
    ensures
        r == ctx_has(ctx, t),
{
    let mut j: usize = 0;
    while j < ctx.upgrades.len()
        invariant
            j <= ctx.upgrades@.len(),
            forall|k: int| 0 <= k < j ==> ctx.upgrades@[k].0 != t,
        decreases ctx.upgrades@.len() - j,
    {
        if ctx.upgrades[j].0 == t {
            return true;
        }
        j = j + 1;
    }
    false
}

/// Whether the snapshot lists each upgrade once.
pub fn kinds_distinct(ctx: &Context) -> (r: bool)
    ensures
        r == ctx_wf(ctx),
{
    let n = ctx.upgrades.len();
    let mut i: usize = 0;
    while i < n
        invariant
            n == ctx.upgrades@.len(),
            i <= n,
            forall|a: int, b: int| 0 <= a < i && 0 <= b < n && a != b ==> ctx.upgrades@[a].0 != ctx.upgrades@[b].0,
        decreases n - i,
    {
        let mut j: usize = 0;
        while j < n
            invariant
                n == ctx.upgrades@.len(),
                i < n,
                j <= n,
                forall|a: int, b: int| 0 <= a < i && 0 <= b < n && a != b ==> ctx.upgrades@[a].0 != ctx.upgrades@[b].0,
                forall|b: int| 0 <= b < j && b != i ==> ctx.upgrades@[i as int].0 != ctx.upgrades@[b].0,
            decreases n - j,
        {
            if j != i && ctx.upgrades[i].0 == ctx.upgrades[j].0 {
                return false;
            }
            j = j + 1;
        }
        i = i + 1;
    }
    true
}

impl Condition {
    /// Whether checking the condition in the snapshot cannot fail (see
    /// `checkable`).
    pub fn can_check(&self, ctx: &Context) -> (r: bool)
        ensures
            r == checkable(*self, ctx),
        decreases *self,
    {
        match self {
            Condition::UpgradeDone(t) => lists_kind(ctx, *t) && kinds_distinct(ctx),
            Condition::Between(a, b) => {
                if !a.can_check(ctx) {
                    false
                } else if a.check(ctx) {
                    b.can_check(ctx)
                } else {
                    true
                }
            },
            Condition::NumberOnBoard(i) => *i >= 2 && *i % 2 == 0,
            _ => true,
        }
    }
}
/// A threshold condition is met exactly when the figure of the game it is
/// about has reached the amount: all-time points, average points, points on
/// the board, points to spend, shuffles, and the largest harvest.
pub proof fn lemma_threshold_met(ctx: &Context, p: usize)
    ensures
        holds(Condition::AlltimePoints(p), ctx) <==> ctx.alltime_points >= p,
        holds(Condition::AvgPoints(p), ctx) <==> ctx.avg_points >= p,
        holds(Condition::PointsOnBoard(p), ctx) <==> ctx.points_on_board >= p,
        holds(Condition::HavePoints(p), ctx) <==> ctx.points >= p,
        holds(Condition::HaveShuffles(p), ctx) <==> ctx.shuffles >= p,
        holds(Condition::Harvested(p), ctx) <==> ctx.largest_harvest >= p,
{
}

/// A threshold condition looks at its own figure only, and more of that
/// figure never unmeets it: a game whose largest harvest is at least that of
/// another meets every harvest condition the other meets, whatever its other
/// figures (and likewise for the other thresholds).
pub proof fn lemma_threshold_monotone(ctx1: &Context, ctx2: &Context, p: usize)
    ensures
        ctx1.largest_harvest <= ctx2.largest_harvest && holds(Condition::Harvested(p), ctx1)
            ==> holds(Condition::Harvested(p), ctx2),
        ctx1.alltime_points <= ctx2.alltime_points && holds(Condition::AlltimePoints(p), ctx1)
            ==> holds(Condition::AlltimePoints(p), ctx2),
        ctx1.avg_points <= ctx2.avg_points && holds(Condition::AvgPoints(p), ctx1)
            ==> holds(Condition::AvgPoints(p), ctx2),
        ctx1.points_on_board <= ctx2.points_on_board && holds(Condition::PointsOnBoard(p), ctx1)
            ==> holds(Condition::PointsOnBoard(p), ctx2),
        ctx1.points <= ctx2.points && holds(Condition::HavePoints(p), ctx1)
            ==> holds(Condition::HavePoints(p), ctx2),
        ctx1.shuffles <= ctx2.shuffles && holds(Condition::HaveShuffles(p), ctx1)
            ==> holds(Condition::HaveShuffles(p), ctx2),
{
}

/// Scaling a threshold by `i` multiplies its amount by `i`: the scaled
/// condition keeps its kind and is met exactly when the figure reaches `i`
/// times the old amount.
pub proof fn lemma_multiply_scales(ctx: &Context, p: usize, i: usize)
    requires
        p * i <= usize::MAX,
    ensures
        spec_multiply(Condition::HavePoints(p), i) == Condition::HavePoints((p * i) as usize),
        spec_multiply(Condition::PointsOnBoard(p), i) == Condition::PointsOnBoard((p * i) as usize),
        spec_multiply(Condition::AvgPoints(p), i) == Condition::AvgPoints((p * i) as usize),
        spec_multiply(Condition::AlltimePoints(p), i) == Condition::AlltimePoints((p * i) as usize),
        spec_multiply(Condition::Harvested(p), i) == Condition::Harvested((p * i) as usize),
        holds(spec_multiply(Condition::HavePoints(p), i), ctx) <==> ctx.points >= p * i,
        holds(spec_multiply(Condition::PointsOnBoard(p), i), ctx) <==> ctx.points_on_board >= p * i,
        holds(spec_multiply(Condition::AvgPoints(p), i), ctx) <==> ctx.avg_points >= p * i,
        holds(spec_multiply(Condition::AlltimePoints(p), i), ctx) <==> ctx.alltime_points >= p * i,
        holds(spec_multiply(Condition::Harvested(p), i), ctx) <==> ctx.largest_harvest >= p * i,
{
}

/// Scaling asks for a number on the board twice as large, whatever the
/// factor.
pub proof fn lemma_multiply_doubles_number(n: usize, i: usize)
    requires
        n * 2 <= usize::MAX,
    ensures
        spec_multiply(Condition::NumberOnBoard(n), i) == Condition::NumberOnBoard((n * 2) as usize),
{
}

} // verus!
