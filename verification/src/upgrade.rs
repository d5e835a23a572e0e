use vstd::prelude::*;
use vstd::arithmetic::power2::pow2;

use crate::condition::{can_multiply, checkable, holds, spec_multiply, spec_payment, Condition, Context, Payment};

verus! {

/// How an upgrade's cost develops as it is bought.
#[derive(Clone, Copy, Debug, PartialEq, Eq, Structural)]
pub enum UpgradeCosts {
    CostsMultiply,
    CostsOnetime,
    CostsStatic,
}

/// The kinds of upgrades, actions and sliders.
#[derive(Clone, Copy, Debug, PartialEq, Eq, Hash, PartialOrd, Ord, Structural)]
pub enum UpgradeType {
    SliderPoint,
    AutoShuffle,
    Shuffle,
    Place,
    ExtendX,
    ExtendY,
    AutoMove,
    AutoSave,
    AutoHarvest,
    RandomPlace,
    Reset,
    Harvest,
    ScientificNotation,
    EnableStatistics,
    NlogNCost,
    BonusTile,
    Cheat,
    Test,
}

/// The rule for combining two equal tiles.
#[derive(Clone, Copy, Debug, PartialEq, Eq, Structural)]
pub enum CombineFn {
    /// Two tiles of exponent `e` make one of exponent `e + 1`.
    Standard,
    /// As `Standard`, and reaching exponent `level` leaves an extra tile of
    /// exponent `amount` behind.
    Bonus(usize, usize),
}

/// Result of combining two tiles of exponent `t`: the new exponent, and the
/// exponent of a bonus tile left behind, if any.
pub open spec fn spec_combine(f: CombineFn, t: usize) -> (usize, Option<usize>) {
    match f {
        CombineFn::Standard => ((t + 1) as usize, None),
        CombineFn::Bonus(level, amount) => if t + 1 == level {
            ((t + 1) as usize, Some(amount))
        } else {
            ((t + 1) as usize, None)
        },
    }
}

impl CombineFn {
    /// Combines a `target` tile with an equal `source` tile.
    pub fn apply(&self, target: usize, source: usize) -> (r: (usize, Option<usize>))
        requires
            target == source,
            target < usize::MAX,
        ensures
            r == spec_combine(*self, target),
    {
        match *self {
            CombineFn::Standard => (target + 1, None),
            CombineFn::Bonus(level, amount) => {
                if target + 1 == level {
                    (target + 1, Some(amount))
                } else {
                    (target + 1, None)
                }
            },
        }
    }
}


/// What running an upgrade does to the game.
#[derive(Clone, Copy, Debug, PartialEq, Eq, Structural)]
pub enum UpgradeAction {
    Nothing,
    /// Show the statistics.
    EnableStatistics,
    /// Run the random placement at the setting of its slider.
    PlaceFromSlider,
    /// Harvest the largest tile.
    Harvest,
    /// Place a tile made from this number on a random empty cell.
    RandomPlace(usize),
    /// Show large tiles in scientific notation.
    ScientificNotation,
    /// Change how tiles combine.
    SetCombine(CombineFn),
    /// Start the game afresh (asks first).
    Reset,
    /// Save the game.
    Save,
    /// Move the board in a random direction.
    Move,
    /// Shuffle the tiles.
    Shuffle,
    /// Earn a slider point.
    SliderPoint,
    /// Earn `⌊v · log10 v⌋` points per harvest.
    NlogNCost,
}

/// `2 << level` in `usize` arithmetic: `2^(level + 1)`, or 0 once the bit
/// is shifted out.
pub open spec fn shl2(level: usize) -> usize {
    if level + 1 < usize::BITS {
        pow2((level + 1) as nat) as usize
    } else {
        0
    }
}

/// What running an upgrade of kind `t` at `level` does.
pub open spec fn spec_run(t: UpgradeType, level: usize) -> UpgradeAction {
    match t {
        UpgradeType::EnableStatistics => UpgradeAction::EnableStatistics,
        UpgradeType::Place => UpgradeAction::PlaceFromSlider,
        UpgradeType::Harvest => UpgradeAction::Harvest,
        UpgradeType::RandomPlace => UpgradeAction::RandomPlace(shl2(level)),
        UpgradeType::ScientificNotation => UpgradeAction::ScientificNotation,
        UpgradeType::BonusTile => UpgradeAction::SetCombine(CombineFn::Bonus(64, 16)),
        UpgradeType::Reset => UpgradeAction::Reset,
        UpgradeType::AutoSave => UpgradeAction::Save,
        UpgradeType::AutoMove => UpgradeAction::Move,
        UpgradeType::AutoShuffle => UpgradeAction::Shuffle,
        UpgradeType::SliderPoint => UpgradeAction::SliderPoint,
        UpgradeType::NlogNCost => UpgradeAction::NlogNCost,
        _ => UpgradeAction::Nothing,
    }
}

/// Running an upgrade of kind `t` at `level` cannot fail.
pub open spec fn can_run(t: UpgradeType, level: usize) -> bool {
    t == UpgradeType::RandomPlace ==> level < usize::BITS
}

impl UpgradeType {
    /// What running an upgrade of this kind at `level` does.
    pub fn run(&self, level: usize) -> (r: UpgradeAction)
        requires
            can_run(*self, level),
        ensures
            r == spec_run(*self, level),
    {
        match self {
            UpgradeType::EnableStatistics => UpgradeAction::EnableStatistics,
            UpgradeType::Place => UpgradeAction::PlaceFromSlider,
            UpgradeType::Harvest => UpgradeAction::Harvest,
            UpgradeType::RandomPlace => {
                if level + 1 < usize::BITS as usize {
                    proof {
                        vstd::bits::lemma_usize_pow2_no_overflow((level + 1) as nat);
                        vstd::bits::lemma_usize_shl_is_mul(1, (level + 1) as usize);
                    }
                    UpgradeAction::RandomPlace(1usize << (level + 1))
                } else {
                    UpgradeAction::RandomPlace(0)
                }
            },
            UpgradeType::ScientificNotation => UpgradeAction::ScientificNotation,
            UpgradeType::BonusTile => UpgradeAction::SetCombine(CombineFn::Bonus(64, 16)),
            UpgradeType::Reset => UpgradeAction::Reset,
            UpgradeType::AutoSave => UpgradeAction::Save,
            UpgradeType::AutoMove => UpgradeAction::Move,
            UpgradeType::AutoShuffle => UpgradeAction::Shuffle,
            UpgradeType::SliderPoint => UpgradeAction::SliderPoint,
            UpgradeType::NlogNCost => UpgradeAction::NlogNCost,
            _ => UpgradeAction::Nothing,
        }
    }
}

/// How buying an upgrade changes it.
#[derive(Clone, Copy, Debug, PartialEq, Eq, Structural)]
pub enum UpgradeStatus {
    /// Done after one purchase.
    OneTime,
    /// Always available, never done.
    Static,
    /// Cost and visibility threshold scale by the factor on each purchase.
    Multiply(usize),
    /// Like `Static`, listed apart.
    Special,
}

/// An upgrade that can be bought.
#[derive(Debug, PartialEq, Eq)]
pub struct Upgrade {
    pub max_level: usize,
    pub level: usize,
    /// Shown once, it stays shown.
    pub visible: bool,
    pub done: bool,
    pub cost: Condition,
    pub show: Condition,
    pub t: UpgradeType,
    pub status: UpgradeStatus,
    pub text: String,
}

/// An upgrade as `Upgrade::new` makes it.
pub open spec fn fresh_upgrade(u: Upgrade, t: UpgradeType, cost: Condition, show: Condition, text: Seq<char>) -> bool {
    &&& u.t == t
    &&& u.cost == cost
    &&& u.show == show
    &&& u.text@ == text
    &&& u.level == 0
    &&& u.max_level == 999
    &&& !u.visible
    &&& !u.done
}

/// Whether buying upgrade `u` cannot fail.
pub open spec fn can_upgrade(u: &Upgrade) -> bool {
    &&& u.level < usize::MAX
    &&& u.status matches UpgradeStatus::Multiply(i) ==> can_multiply(u.cost, i) && can_multiply(u.show, i)
}

impl Upgrade {
    /// An upgrade of kind `t` with its cost, visibility threshold and label:
    /// level 0 of at most 999, hidden, bought once.
    pub fn new(t: UpgradeType, cost: Condition, show: Condition, text: String) -> (r: Self)
        ensures
            fresh_upgrade(r, t, cost, show, text@),
            r.status == UpgradeStatus::OneTime,
    {
        Upgrade {
            visible: false,
            done: false,
            cost,
            show,
            status: UpgradeStatus::OneTime,
            level: 0,
            max_level: 999,
            text,
            t,
        }
    }

    /// The upgrade keyed by its kind.
    pub fn build(self) -> (r: (UpgradeType, Self))
        ensures
            r.0 == self.t,
            r.1 == self,
    {
        (self.t, self)
    }

    /// Whether the upgrade is shown: once shown it stays shown; a done
    /// upgrade is not shown; else it is shown when its threshold holds,
    /// which also marks it shown.
    pub fn visible(&mut self, ctx: &Context) -> (r: bool)
        requires
            !old(self).visible && !old(self).done ==> checkable(old(self).show, ctx),
        ensures
            r == (old(self).visible || (!old(self).done && holds(old(self).show, ctx))),
            final(self).visible == r,
            final(self).level == old(self).level,
            final(self).max_level == old(self).max_level,
            final(self).done == old(self).done,
            final(self).cost == old(self).cost,
            final(self).show == old(self).show,
            final(self).t == old(self).t,
            final(self).status == old(self).status,
            final(self).text == old(self).text,
    {
        if self.visible {
            return true;
        }
        if self.done {
            false
        } else {
            let vis = self.show.check(ctx);
            if vis {
                self.visible = true;
            }
            vis
        }
    }

    /// Whether the upgrade can be bought now: its cost is met and it is
    /// shown (the visibility is only looked at when the cost is met).
    pub fn clickable(&mut self, ctx: &Context) -> (r: bool)
        requires
            checkable(old(self).cost, ctx),
            holds(old(self).cost, ctx) && !old(self).visible && !old(self).done ==> checkable(old(self).show, ctx),
        ensures
            r == (holds(old(self).cost, ctx) && (old(self).visible || (!old(self).done && holds(old(self).show, ctx)))),
            final(self).visible == (old(self).visible || (holds(old(self).cost, ctx) && !old(self).done && holds(old(self).show, ctx))),
            final(self).level == old(self).level,
            final(self).max_level == old(self).max_level,
            final(self).done == old(self).done,
            final(self).cost == old(self).cost,
            final(self).show == old(self).show,
            final(self).t == old(self).t,
            final(self).status == old(self).status,
            final(self).text == old(self).text,
    {
        let affordable = self.cost.check(ctx);
        affordable && self.visible(ctx)
    }

    /// Buys one level: the level rises; a one-time upgrade is done; a
    /// scaling one scales its cost and threshold and hides again; reaching
    /// the top level makes it done. Returns what the purchase takes away
    /// (according to the cost before scaling).
    pub fn upgrade(&mut self) -> (r: Payment)
        requires
            can_upgrade(old(self)),
        ensures
            r == spec_payment(old(self).cost),
            final(self).level == old(self).level + 1,
            final(self).done == (old(self).done || old(self).status == UpgradeStatus::OneTime
                || old(self).level + 1 == old(self).max_level),
            match old(self).status {
                UpgradeStatus::Multiply(i) => final(self).cost == spec_multiply(old(self).cost, i)
                    && final(self).show == spec_multiply(old(self).show, i) && !final(self).visible,
                _ => final(self).cost == old(self).cost && final(self).show == old(self).show
                    && final(self).visible == old(self).visible,
            },
            final(self).max_level == old(self).max_level,
            final(self).t == old(self).t,
            final(self).status == old(self).status,
            final(self).text == old(self).text,
    {
        self.level = self.level + 1;
        let pay = self.cost.fulfilled();
        match self.status {
            UpgradeStatus::Static => {},
            UpgradeStatus::OneTime => {
                self.done = true;
            },
            UpgradeStatus::Multiply(i) => {
                self.cost = self.cost.multiply(i);
                self.show = self.show.multiply(i);
                self.visible = false;
            },
            UpgradeStatus::Special => {},
        }
        if self.level == self.max_level {
            self.done = true;
        }
        pay
    }

    /// What running the upgrade at its level does.
    pub fn run(&self) -> (r: UpgradeAction)
        requires
            can_run(self.t, self.level),
        ensures
            r == spec_run(self.t, self.level),
    {
        self.t.run(self.level)
    }

    /// The upgrade, always available.
    pub fn static_(self) -> (r: Self)
        ensures
            r == (Upgrade { status: UpgradeStatus::Static, ..self }),
    {
        let mut me = self;
        me.status = UpgradeStatus::Static;
        me
    }

    /// The upgrade, listed apart.
    pub fn special(self) -> (r: Self)
        ensures
            r == (Upgrade { status: UpgradeStatus::Special, ..self }),
    {
        let mut me = self;
        me.status = UpgradeStatus::Special;
        me
    }

    /// The upgrade, scaling by `i` on each purchase.
    pub fn multiply(self, i: usize) -> (r: Self)
        ensures
            r == (Upgrade { status: UpgradeStatus::Multiply(i), ..self }),
    {
        let mut me = self;
        me.status = UpgradeStatus::Multiply(i);
        me
    }

    /// The upgrade, capped at level `i`.
    pub fn max_level(self, i: usize) -> (r: Self)
        ensures
            r == (Upgrade { max_level: i, ..self }),
    {
        let mut me = self;
        me.max_level = i;
        me
    }
}

/// Kinds of the upgrades in `s` whose status satisfies `keep`, in order.
pub open spec fn kinds_where(s: Seq<Upgrade>, keep: spec_fn(UpgradeStatus) -> bool) -> Seq<UpgradeType>
    decreases s.len(),
{
    if s.len() == 0 {
        Seq::empty()
    } else {
        let rest = kinds_where(s.drop_last(), keep);
        if keep(s.last().status) { rest.push(s.last().t) } else { rest }
    }
}

pub open spec fn is_static(st: UpgradeStatus) -> bool {
    st == UpgradeStatus::Static
}

pub open spec fn is_onetime_listed(st: UpgradeStatus) -> bool {
    st != UpgradeStatus::Static && st != UpgradeStatus::Special
}

/// A kind is listed exactly when some upgrade of that kind has a status
/// that `keep` accepts; with distinct kinds, each is listed once.
proof fn lemma_kinds_where(s: Seq<Upgrade>, keep: spec_fn(UpgradeStatus) -> bool)
    ensures
        forall|t: UpgradeType| #[trigger] kinds_where(s, keep).contains(t)
            <==> exists|i: int| 0 <= i < s.len() && s[i].t == t && keep(s[i].status),
        (forall|i: int, j: int| 0 <= i < s.len() && 0 <= j < s.len() && i != j ==> s[i].t != s[j].t)
            ==> kinds_where(s, keep).no_duplicates(),
    decreases s.len(),
{
    if s.len() > 0 {
        let init = s.drop_last();
        lemma_kinds_where(init, keep);
        let rest = kinds_where(init, keep);
        assert forall|t: UpgradeType| #[trigger] kinds_where(s, keep).contains(t)
            <==> exists|i: int| 0 <= i < s.len() && s[i].t == t && keep(s[i].status) by {
            if kinds_where(s, keep).contains(t) {
                if rest.contains(t) {
                    let i = choose|i: int| 0 <= i < init.len() && init[i].t == t && keep(init[i].status);
                    assert(s[i] == init[i]);
                } else {
                    let k = choose|k: int| 0 <= k < kinds_where(s, keep).len() && kinds_where(s, keep)[k] == t;
                    assert(keep(s.last().status) && k == rest.len());
                    assert(s[s.len() - 1].t == t);
                }
            }
            if exists|i: int| 0 <= i < s.len() && s[i].t == t && keep(s[i].status) {
                let i = choose|i: int| 0 <= i < s.len() && s[i].t == t && keep(s[i].status);
                if i < s.len() - 1 {
                    assert(init[i] == s[i]);
                    assert(rest.contains(t));
                    let k = choose|k: int| 0 <= k < rest.len() && rest[k] == t;
                    if keep(s.last().status) {
                        assert(kinds_where(s, keep)[k] == t);
                    }
                } else {
                    assert(kinds_where(s, keep)[rest.len() as int] == t);
                }
            }
        }
        if forall|i: int, j: int| 0 <= i < s.len() && 0 <= j < s.len() && i != j ==> s[i].t != s[j].t {
            assert forall|i: int, j: int| 0 <= i < init.len() && 0 <= j < init.len() && i != j
                implies init[i].t != init[j].t by {
                assert(init[i] == s[i] && init[j] == s[j]);
            }
            if keep(s.last().status) {
                let last = s.last().t;
                if rest.contains(last) {
                    let i = choose|i: int| 0 <= i < init.len() && init[i].t == last && keep(init[i].status);
                    assert(s[i] == init[i]);
                    assert(s[i].t == s[s.len() - 1].t);
                }
                assert(rest.push(last).no_duplicates()) by {
                    assert forall|a: int, b: int| 0 <= a < rest.push(last).len() && 0 <= b < rest.push(last).len() && a != b
                        implies rest.push(last)[a] != rest.push(last)[b] by {
                        if a == rest.len() {
                            assert(rest.contains(rest.push(last)[b]));
                        } else if b == rest.len() {
                            assert(rest.contains(rest.push(last)[a]));
                        }
                    }
                }
            }
        }
    }
}

/// The upgrades of a game, one per kind.
pub struct Upgrades {
    pub upgrades: Vec<Upgrade>,
}

impl Upgrades {
    /// Each kind occurs once.
    pub open spec fn wf(&self) -> bool {
        forall|i: int, j: int| 0 <= i < self.upgrades@.len() && 0 <= j < self.upgrades@.len() && i != j
            ==> self.upgrades@[i].t != self.upgrades@[j].t
    }

    /// Whether there is an upgrade of kind `t`.
    pub open spec fn has(&self, t: UpgradeType) -> bool {
        exists|i: int| 0 <= i < self.upgrades@.len() && self.upgrades@[i].t == t
    }

    /// Position of the upgrade of kind `t`.
    pub open spec fn pos(&self, t: UpgradeType) -> int {
        choose|i: int| 0 <= i < self.upgrades@.len() && self.upgrades@[i].t == t
    }

    /// The upgrade of kind `t`.
    pub open spec fn at(&self, t: UpgradeType) -> Upgrade {
        self.upgrades@[self.pos(t)]
    }

    fn position(&self, t: UpgradeType) -> (r: usize)
        requires
            self.wf(),
            self.has(t),
        ensures
            r == self.pos(t),
            r < self.upgrades@.len(),
    {
        let mut i: usize = 0;
        while i < self.upgrades.len()
            invariant
                self.wf(),
                self.has(t),
                i <= self.upgrades@.len(),
                forall|k: int| 0 <= k < i ==> self.upgrades@[k].t != t,
            decreases self.upgrades@.len() - i,
        {
            if self.upgrades[i].t == t {
                proof {
                    let p = self.pos(t);
                    assert(self.upgrades@[p].t == t);
                    assert(p == i);
                }
                return i;
            }
            i = i + 1;
        }
        proof {
            let p = self.pos(t);
            assert(self.upgrades@[p].t == t);
        }
        0
    }

    /// The upgrade of kind `t`.
    pub fn get(&self, t: &UpgradeType) -> (r: &Upgrade)
        requires
            self.wf(),
            self.has(*t),
        ensures
            *r == self.at(*t),
    {
        let i = self.position(*t);
        &self.upgrades[i]
    }

    /// Kinds of the upgrades that are always available.
    pub fn statics(&self) -> (r: Vec<UpgradeType>)
        ensures
            r@ == kinds_where(self.upgrades@, |st: UpgradeStatus| is_static(st)),
    {
        let mut out: Vec<UpgradeType> = Vec::new();
        let mut i: usize = 0;
        while i < self.upgrades.len()
            invariant
                i <= self.upgrades@.len(),
                out@ == kinds_where(self.upgrades@.take(i as int), |st: UpgradeStatus| is_static(st)),
            decreases self.upgrades@.len() - i,
        {
            assert(self.upgrades@.take(i + 1).drop_last() =~= self.upgrades@.take(i as int));
            if self.upgrades[i].status == UpgradeStatus::Static {
                out.push(self.upgrades[i].t);
            }
            i = i + 1;
        }
        assert(self.upgrades@.take(i as int) =~= self.upgrades@);
        out
    }

    /// Kinds of the upgrades that can be bought up to done.
    pub fn onetime(&self) -> (r: Vec<UpgradeType>)
        ensures
            r@ == kinds_where(self.upgrades@, |st: UpgradeStatus| is_onetime_listed(st)),
    {
        let mut out: Vec<UpgradeType> = Vec::new();
        let mut i: usize = 0;
        while i < self.upgrades.len()
            invariant
                i <= self.upgrades@.len(),
                out@ == kinds_where(self.upgrades@.take(i as int), |st: UpgradeStatus| is_onetime_listed(st)),
            decreases self.upgrades@.len() - i,
        {
            assert(self.upgrades@.take(i + 1).drop_last() =~= self.upgrades@.take(i as int));
            let st = self.upgrades[i].status;
            if st != UpgradeStatus::Static && st != UpgradeStatus::Special {
                out.push(self.upgrades[i].t);
            }
            i = i + 1;
        }
        assert(self.upgrades@.take(i as int) =~= self.upgrades@);
        out
    }

    /// The always-available kinds (`statics`) and the kinds that can be
    /// bought up to done (`onetime`) never share a kind, each lists a kind
    /// once, and together they list exactly the kinds whose status is not
    /// special.
    pub proof fn lemma_statics_onetime_split(&self, t: UpgradeType)
        requires
            self.wf(),
        ensures
            !(kinds_where(self.upgrades@, |st: UpgradeStatus| is_static(st)).contains(t)
                && kinds_where(self.upgrades@, |st: UpgradeStatus| is_onetime_listed(st)).contains(t)),
            kinds_where(self.upgrades@, |st: UpgradeStatus| is_static(st)).contains(t)
                || kinds_where(self.upgrades@, |st: UpgradeStatus| is_onetime_listed(st)).contains(t)
                <==> self.has(t) && self.at(t).status != UpgradeStatus::Special,
            kinds_where(self.upgrades@, |st: UpgradeStatus| is_static(st)).no_duplicates(),
            kinds_where(self.upgrades@, |st: UpgradeStatus| is_onetime_listed(st)).no_duplicates(),
    {
        let s = self.upgrades@;
        let ks = |st: UpgradeStatus| is_static(st);
        let ko = |st: UpgradeStatus| is_onetime_listed(st);
        lemma_kinds_where(s, ks);
        lemma_kinds_where(s, ko);
        if self.has(t) {
            let p = self.pos(t);
            assert(s[p].t == t);
            assert forall|i: int| 0 <= i < s.len() && s[i].t == t implies i == p by {}
            if ks(s[p].status) {
                assert(kinds_where(s, ks).contains(t));
            }
            if ko(s[p].status) {
                assert(kinds_where(s, ko).contains(t));
            }
        } else {
            assert(!kinds_where(s, ks).contains(t));
            assert(!kinds_where(s, ko).contains(t));
        }
    }

    /// Whether the upgrade of kind `t` is done.
    pub fn is_done(&self, t: UpgradeType) -> (r: bool)
        requires
            self.wf(),
            self.has(t),
        ensures
            r == self.at(t).done,
    {
        self.get(&t).done
    }

    /// Whether buying the upgrade of kind `t` cannot fail (see `buy`).
    pub fn can_buy(&self, t: UpgradeType) -> (r: bool)
        requires
            self.wf(),
            self.has(t),
        ensures
            r == (can_upgrade(&self.at(t)) && can_run(t, (self.at(t).level + 1) as usize)),
    {
        let u = self.get(&t);
        if u.level == usize::MAX {
            return false;
        }
        let scalable = match u.status {
            UpgradeStatus::Multiply(i) => u.cost.can_scale(i) && u.show.can_scale(i),
            _ => true,
        };
        scalable && (t != UpgradeType::RandomPlace || u.level + 1 < usize::BITS as usize)
    }

    /// What running the upgrade of kind `t` at its level does.
    pub fn run(&self, t: UpgradeType) -> (r: UpgradeAction)
        requires
            self.wf(),
            self.has(t),
            can_run(t, self.at(t).level),
        ensures
            r == spec_run(t, self.at(t).level),
    {
        let level = self.get(&t).level;
        t.run(level)
    }

    /// Each upgrade's kind with whether it is done, in order.
    pub fn states(&self) -> (r: Vec<(UpgradeType, bool)>)
        ensures
            r@.len() == self.upgrades@.len(),
            forall|i: int| 0 <= i < r@.len() ==> #[trigger] r@[i] == (self.upgrades@[i].t, self.upgrades@[i].done),
    {
        let mut out: Vec<(UpgradeType, bool)> = Vec::new();
        let mut i: usize = 0;
        while i < self.upgrades.len()
            invariant
                i <= self.upgrades@.len(),
                out@.len() == i,
                forall|k: int| 0 <= k < i ==> #[trigger] out@[k] == (self.upgrades@[k].t, self.upgrades@[k].done),
            decreases self.upgrades@.len() - i,
        {
            out.push((self.upgrades[i].t, self.upgrades[i].done));
            i = i + 1;
        }
        out
    }

    /// Buys one level of the upgrade of kind `t` (see `Upgrade::upgrade`).
    pub fn buy(&mut self, t: UpgradeType) -> (r: (Payment, UpgradeAction))
        requires
            old(self).wf(),
            old(self).has(t),
            can_upgrade(&old(self).at(t)),
            can_run(t, (old(self).at(t).level + 1) as usize),
        ensures
            final(self).wf(),
            final(self).upgrades@.len() == old(self).upgrades@.len(),
            forall|i: int| 0 <= i < old(self).upgrades@.len() && i != old(self).pos(t)
                ==> final(self).upgrades@[i] == old(self).upgrades@[i],
            final(self).has(t),
            final(self).pos(t) == old(self).pos(t),
            r.0 == spec_payment(old(self).at(t).cost),
            r.1 == spec_run(t, (old(self).at(t).level + 1) as usize),
            final(self).at(t).level == old(self).at(t).level + 1,
            final(self).at(t).t == t,
    {
        let i = self.position(t);
        let mut u = self.upgrades.remove(i);
        let pay = u.upgrade();
        let action = u.run();
        let ghost old_seq = old(self).upgrades@;
        self.upgrades.insert(i, u);
        proof {
            assert(self.upgrades@ =~= old_seq.update(i as int, u));
            assert(self.upgrades@[i as int].t == t);
            let p = self.pos(t);
            assert(self.upgrades@[p].t == t);
            assert(p == i);
        }
        (pay, action)
    }

    /// Asks whether the upgrade of kind `t` is shown (see `Upgrade::visible`).
    pub fn visible(&mut self, t: UpgradeType, ctx: &Context) -> (r: bool)
        requires
            old(self).wf(),
            old(self).has(t),
            !old(self).at(t).visible && !old(self).at(t).done ==> checkable(old(self).at(t).show, ctx),
        ensures
            final(self).wf(),
            final(self).upgrades@.len() == old(self).upgrades@.len(),
            final(self).has(t),
            final(self).pos(t) == old(self).pos(t),
            forall|i: int| 0 <= i < old(self).upgrades@.len() && i != old(self).pos(t)
                ==> final(self).upgrades@[i] == old(self).upgrades@[i],
            r == (old(self).at(t).visible || (!old(self).at(t).done && holds(old(self).at(t).show, ctx))),
            final(self).at(t) == (Upgrade { visible: r, ..old(self).at(t) }),
    {
        let i = self.position(t);
        let mut u = self.upgrades.remove(i);
        let r = u.visible(ctx);
        let ghost old_seq = old(self).upgrades@;
        self.upgrades.insert(i, u);
        proof {
            assert(self.upgrades@ =~= old_seq.update(i as int, u));
            assert(self.upgrades@[i as int].t == t);
            let p = self.pos(t);
            assert(self.upgrades@[p].t == t);
            assert(p == i);
        }
        r
    }
}

impl Default for Upgrades {
    /// The upgrades of a new game.
    fn default() -> (r: Self)
        ensures
            r.wf(),
            r.upgrades@.len() == 15,
            fresh_upgrade(r.upgrades@[0], UpgradeType::Place, Condition::Free(), Condition::Free(), "Place"@),
            r.upgrades@[0].status == UpgradeStatus::Static,
            fresh_upgrade(r.upgrades@[1], UpgradeType::Harvest, Condition::Free(), Condition::Free(), "Harvest"@),
            r.upgrades@[1].status == UpgradeStatus::Static,
            fresh_upgrade(r.upgrades@[2], UpgradeType::Shuffle, Condition::Free(), Condition::UpgradeDone(UpgradeType::AutoShuffle), "Shuffle"@),
            r.upgrades@[2].status == UpgradeStatus::Static,
            fresh_upgrade(r.upgrades@[3], UpgradeType::Reset, Condition::Free(), Condition::Free(), "RESET"@),
            r.upgrades@[3].status == UpgradeStatus::Special,
            fresh_upgrade(r.upgrades@[4], UpgradeType::ExtendX, Condition::PointsOnBoard(64), Condition::PointsOnBoard(32), "extend board horizontally"@),
            r.upgrades@[4].status == UpgradeStatus::Multiply(8),
            fresh_upgrade(r.upgrades@[5], UpgradeType::ExtendY, Condition::HavePoints(64), Condition::HavePoints(32), "extend board vertically"@),
            r.upgrades@[5].status == UpgradeStatus::Multiply(8),
            fresh_upgrade(r.upgrades@[6], UpgradeType::AutoMove, Condition::HavePoints(32), Condition::Free(), "Automove"@),
            r.upgrades@[6].status == UpgradeStatus::Multiply(2),
            fresh_upgrade(r.upgrades@[7], UpgradeType::RandomPlace, Condition::Harvested(32), Condition::Harvested(16), "Place random number"@),
            r.upgrades@[7].status == UpgradeStatus::Multiply(4),
            fresh_upgrade(r.upgrades@[8], UpgradeType::ScientificNotation, Condition::Harvested(1024), Condition::Harvested(256), "ScientificNotation"@),
            r.upgrades@[8].status == UpgradeStatus::OneTime,
            fresh_upgrade(r.upgrades@[9], UpgradeType::AutoSave, Condition::AvgPoints(2), Condition::AvgPoints(1), "Save the Game"@),
            r.upgrades@[9].status == UpgradeStatus::OneTime,
            fresh_upgrade(r.upgrades@[10], UpgradeType::AutoShuffle, Condition::AvgPoints(20), Condition::AvgPoints(10), "Enable Shuffling"@),
            r.upgrades@[10].status == UpgradeStatus::OneTime,
            fresh_upgrade(r.upgrades@[11], UpgradeType::EnableStatistics, Condition::HavePoints(128), Condition::HavePoints(32), "Show Statistics"@),
            r.upgrades@[11].status == UpgradeStatus::OneTime,
            fresh_upgrade(r.upgrades@[12], UpgradeType::BonusTile, Condition::Harvested(16), Condition::Harvested(16), "Bonus Tile"@),
            r.upgrades@[12].status == UpgradeStatus::OneTime,
            fresh_upgrade(r.upgrades@[13], UpgradeType::NlogNCost, Condition::Harvested(4096), Condition::Harvested(1024), "Bonus Points when Harvesting"@),
            r.upgrades@[13].status == UpgradeStatus::OneTime,
            fresh_upgrade(r.upgrades@[14], UpgradeType::SliderPoint, Condition::NumberOnBoard(4), Condition::NumberOnBoard(2), "Get a point"@),
            r.upgrades@[14].status == UpgradeStatus::Multiply(2),
    {
        let mut v: Vec<Upgrade> = Vec::new();
        v.push(Upgrade::new(UpgradeType::Place, Condition::Free(), Condition::Free(), "Place".to_owned()).static_());
        v.push(Upgrade::new(UpgradeType::Harvest, Condition::Free(), Condition::Free(), "Harvest".to_owned()).static_());
        v.push(Upgrade::new(UpgradeType::Shuffle, Condition::Free(), Condition::UpgradeDone(UpgradeType::AutoShuffle), "Shuffle".to_owned()).static_());
        v.push(Upgrade::new(UpgradeType::Reset, Condition::Free(), Condition::Free(), "RESET".to_owned()).special());
        v.push(Upgrade::new(UpgradeType::ExtendX, Condition::PointsOnBoard(64), Condition::PointsOnBoard(32), "extend board horizontally".to_owned()).multiply(8));
        v.push(Upgrade::new(UpgradeType::ExtendY, Condition::HavePoints(64), Condition::HavePoints(32), "extend board vertically".to_owned()).multiply(8));
        v.push(Upgrade::new(UpgradeType::AutoMove, Condition::HavePoints(32), Condition::Free(), "Automove".to_owned()).multiply(2));
        v.push(Upgrade::new(UpgradeType::RandomPlace, Condition::Harvested(32), Condition::Harvested(16), "Place random number".to_owned()).multiply(4));
        v.push(Upgrade::new(UpgradeType::ScientificNotation, Condition::Harvested(1024), Condition::Harvested(256), "ScientificNotation".to_owned()));
        v.push(Upgrade::new(UpgradeType::AutoSave, Condition::AvgPoints(2), Condition::AvgPoints(1), "Save the Game".to_owned()));
        v.push(Upgrade::new(UpgradeType::AutoShuffle, Condition::AvgPoints(20), Condition::AvgPoints(10), "Enable Shuffling".to_owned()));
        v.push(Upgrade::new(UpgradeType::EnableStatistics, Condition::HavePoints(128), Condition::HavePoints(32), "Show Statistics".to_owned()));
        v.push(Upgrade::new(UpgradeType::BonusTile, Condition::Harvested(16), Condition::Harvested(16), "Bonus Tile".to_owned()));
        v.push(Upgrade::new(UpgradeType::NlogNCost, Condition::Harvested(4096), Condition::Harvested(1024), "Bonus Points when Harvesting".to_owned()));
        v.push(Upgrade::new(UpgradeType::SliderPoint, Condition::NumberOnBoard(4), Condition::NumberOnBoard(2), "Get a point".to_owned()).multiply(2));
        Upgrades { upgrades: v }
    }
}

} // verus!
