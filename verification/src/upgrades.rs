use vstd::prelude::*;
use vstd::arithmetic::power2::pow2;

use core::marker::PhantomData;

use crate::autoaction::AutoAction;
use crate::condition::Condition;
use crate::slider::Slider;
use crate::upgrade::{fresh_upgrade, CombineFn, Upgrade, UpgradeAction, UpgradeStatus, UpgradeType};

verus! {

/// Something that can be bought and run at a level.
pub trait IsUpgrade {
    /// Whether running at `level` cannot fail.
    spec fn runs_at(level: usize) -> bool;

    /// What running at `level` does.
    fn run(level: usize) -> (r: UpgradeAction)
        requires
            Self::runs_at(level),
    ;
}

/// Places a 2.
pub struct Place {}

impl IsUpgrade for Place {
    open spec fn runs_at(level: usize) -> bool {
        true
    }

    fn run(level: usize) -> (r: UpgradeAction)
        ensures
            r == UpgradeAction::RandomPlace(2),
    {
        UpgradeAction::RandomPlace(2)
    }
}

/// A marker for a kind of upgrade.
pub struct Mark<T> {
    pub t: PhantomData<T>,
}

impl<T> Default for Mark<T> {
    fn default() -> (r: Self) {
        Mark { t: PhantomData }
    }
}

/// A wider board.
pub struct ExtendY {}

impl IsUpgrade for ExtendY {
    open spec fn runs_at(level: usize) -> bool {
        true
    }

    fn run(level: usize) -> (r: UpgradeAction)
        ensures
            r == UpgradeAction::Nothing,
    {
        UpgradeAction::Nothing
    }
}

/// A taller board.
pub struct ExtendX {}

impl IsUpgrade for ExtendX {
    open spec fn runs_at(level: usize) -> bool {
        true
    }

    fn run(level: usize) -> (r: UpgradeAction)
        ensures
            r == UpgradeAction::Nothing,
    {
        UpgradeAction::Nothing
    }
}

/// Harvests the largest tile.
pub struct Harvest {}

impl IsUpgrade for Harvest {
    open spec fn runs_at(level: usize) -> bool {
        true
    }

    fn run(level: usize) -> (r: UpgradeAction)
        ensures
            r == UpgradeAction::Harvest,
    {
        UpgradeAction::Harvest
    }
}

/// Reaching a 64 leaves a 16 behind.
pub struct BonusTile {}

impl IsUpgrade for BonusTile {
    open spec fn runs_at(level: usize) -> bool {
        true
    }

    fn run(level: usize) -> (r: UpgradeAction)
        ensures
            r == UpgradeAction::SetCombine(CombineFn::Bonus(6, 4)),
    {
        UpgradeAction::SetCombine(CombineFn::Bonus(6, 4))
    }
}

/// Harvests pay `⌊v · log10 v⌋`.
pub struct BonusPoints {}

impl IsUpgrade for BonusPoints {
    open spec fn runs_at(level: usize) -> bool {
        true
    }

    fn run(level: usize) -> (r: UpgradeAction)
        ensures
            r == UpgradeAction::NlogNCost,
    {
        UpgradeAction::NlogNCost
    }
}

/// Large tiles shown in scientific notation.
pub struct ScientificNotation {}

impl IsUpgrade for ScientificNotation {
    open spec fn runs_at(level: usize) -> bool {
        true
    }

    fn run(level: usize) -> (r: UpgradeAction)
        ensures
            r == UpgradeAction::ScientificNotation,
    {
        UpgradeAction::ScientificNotation
    }
}

/// One more slider point.
pub struct SliderPoint {}

impl IsUpgrade for SliderPoint {
    open spec fn runs_at(level: usize) -> bool {
        true
    }

    fn run(level: usize) -> (r: UpgradeAction)
        ensures
            r == UpgradeAction::SliderPoint,
    {
        UpgradeAction::SliderPoint
    }
}

/// Starting afresh.
pub struct Reset {}

impl IsUpgrade for Reset {
    open spec fn runs_at(level: usize) -> bool {
        true
    }

    fn run(level: usize) -> (r: UpgradeAction)
        ensures
            r == UpgradeAction::Nothing,
    {
        UpgradeAction::Nothing
    }
}

/// Moves the board.
pub struct Automove {}

impl IsUpgrade for Automove {
    open spec fn runs_at(level: usize) -> bool {
        true
    }

    fn run(level: usize) -> (r: UpgradeAction)
        ensures
            r == UpgradeAction::Move,
    {
        UpgradeAction::Move
    }
}

/// Saves the game.
pub struct Autosave {}

impl IsUpgrade for Autosave {
    open spec fn runs_at(level: usize) -> bool {
        true
    }

    fn run(level: usize) -> (r: UpgradeAction)
        ensures
            r == UpgradeAction::Save,
    {
        UpgradeAction::Save
    }
}

/// Places `2^level`, the level taken as a 32-bit number.
pub struct Autoplace {}

impl IsUpgrade for Autoplace {
    open spec fn runs_at(level: usize) -> bool {
        (level as u32) < usize::BITS
    }

    fn run(level: usize) -> (r: UpgradeAction)
        ensures
            r == UpgradeAction::RandomPlace(pow2((level as u32) as nat) as usize),
    {
        let e: u32 = level as u32;
        proof {
            vstd::bits::lemma_usize_pow2_no_overflow(e as nat);
            vstd::bits::lemma_usize_shl_is_mul(1, e as usize);
        }
        UpgradeAction::RandomPlace(1usize << e)
    }
}

/// Shuffles the board.
pub struct Shuffle {}

impl IsUpgrade for Shuffle {
    open spec fn runs_at(level: usize) -> bool {
        true
    }

    fn run(level: usize) -> (r: UpgradeAction)
        ensures
            r == UpgradeAction::Shuffle,
    {
        UpgradeAction::Shuffle
    }
}

/// Shuffles the board on a timer.
pub struct AutoShuffle {}

impl IsUpgrade for AutoShuffle {
    open spec fn runs_at(level: usize) -> bool {
        true
    }

    fn run(level: usize) -> (r: UpgradeAction)
        ensures
            r == UpgradeAction::Shuffle,
    {
        UpgradeAction::Shuffle
    }
}

/// The upgrades, sliders and timed actions of the first version of the
/// game, in the order they are registered.
pub fn register_upgrades() -> (r: (Vec<Upgrade>, Vec<Slider>, Vec<AutoAction>))
    ensures
        r.0@.len() == 14,
        fresh_upgrade(r.0@[0], UpgradeType::Harvest, Condition::Free(), Condition::Free(), "Harvest"@),
        r.0@[0].status == UpgradeStatus::Static,
        fresh_upgrade(r.0@[1], UpgradeType::Place, Condition::Free(), Condition::Free(), "Place a 2"@),
        r.0@[1].status == UpgradeStatus::Static,
        fresh_upgrade(r.0@[2], UpgradeType::Reset, Condition::Free(), Condition::Free(), "HARD RESET"@),
        r.0@[2].status == UpgradeStatus::Static,
        fresh_upgrade(r.0@[3], UpgradeType::Shuffle, Condition::AlltimePoints(100), Condition::AlltimePoints(20), "Shuffle board"@),
        r.0@[3].status == UpgradeStatus::Static,
        fresh_upgrade((Upgrade { max_level: 999, ..r.0@[4] }), UpgradeType::ExtendX, Condition::AvgPoints(4), Condition::AvgPoints(2), "Extend Horizontally"@),
        r.0@[4].status == UpgradeStatus::Multiply(4) && r.0@[4].max_level == 6,
        fresh_upgrade((Upgrade { max_level: 999, ..r.0@[5] }), UpgradeType::ExtendY, Condition::PointsOnBoard(256), Condition::PointsOnBoard(128), "Extend Vertically"@),
        r.0@[5].status == UpgradeStatus::Multiply(4) && r.0@[5].max_level == 6,
        fresh_upgrade(r.0@[6], UpgradeType::AutoMove, Condition::HavePoints(16), Condition::Free(), "Auto move the board"@),
        r.0@[6].status == UpgradeStatus::Multiply(4),
        fresh_upgrade(r.0@[7], UpgradeType::RandomPlace, Condition::HavePoints(16), Condition::Free(), "Auto place a number"@),
        r.0@[7].status == UpgradeStatus::Multiply(4),
        fresh_upgrade(r.0@[8], UpgradeType::EnableStatistics, Condition::HavePoints(64), Condition::HavePoints(32), "Enable Statistcs"@),
        r.0@[8].status == UpgradeStatus::OneTime,
        fresh_upgrade(r.0@[9], UpgradeType::BonusTile, Condition::AvgPoints(8), Condition::AvgPoints(4), "Bonus 16 tile"@),
        r.0@[9].status == UpgradeStatus::OneTime,
        fresh_upgrade(r.0@[10], UpgradeType::NlogNCost, Condition::Harvested(1024), Condition::Harvested(246), "Get extra points for Harvesting"@),
        r.0@[10].status == UpgradeStatus::OneTime,
        fresh_upgrade(r.0@[11], UpgradeType::ScientificNotation, Condition::AlltimePoints(1000), Condition::AlltimePoints(500), "Show large numbers in scientific notation"@),
        r.0@[11].status == UpgradeStatus::OneTime,
        fresh_upgrade(r.0@[12], UpgradeType::AutoShuffle, Condition::AlltimePoints(100), Condition::AlltimePoints(20), "Automatic Shuffling"@),
        r.0@[12].status == UpgradeStatus::OneTime,
        fresh_upgrade(r.0@[13], UpgradeType::SliderPoint, Condition::NumberOnBoard(8), Condition::NumberOnBoard(4), "Get a Slider point"@),
        r.0@[13].status == UpgradeStatus::Multiply(2),
        r.1@.len() == 5,
        r.1@[0].t == UpgradeType::ExtendX && r.1@[0].text@ == "Extend horizontally"@ && r.1@[0].current == 0 && r.1@[0].max == 0,
        r.1@[1].t == UpgradeType::ExtendY && r.1@[1].text@ == "Extend vertically"@ && r.1@[1].current == 0 && r.1@[1].max == 0,
        r.1@[2].t == UpgradeType::AutoMove && r.1@[2].text@ == "Board move speed"@ && r.1@[2].current == 0 && r.1@[2].max == 0,
        r.1@[3].t == UpgradeType::RandomPlace && r.1@[3].text@ == "Value of auto-placed number"@ && r.1@[3].current == 0 && r.1@[3].max == 0,
        r.1@[4].t == UpgradeType::AutoShuffle && r.1@[4].text@ == "Automatic shuffling"@ && r.1@[4].current == 0 && r.1@[4].max == 0,
        r.2@ == seq![
            AutoAction { current: 1000, max: 1000, active: false, initial: 1000, t: UpgradeType::AutoMove },
            AutoAction { current: 1000, max: 1000, active: false, initial: 1000, t: UpgradeType::RandomPlace },
            AutoAction { current: 10000, max: 10000, active: true, initial: 10000, t: UpgradeType::AutoSave },
            AutoAction { current: 30000, max: 30000, active: false, initial: 30000, t: UpgradeType::AutoShuffle },
        ],
{
    let mut u: Vec<Upgrade> = Vec::new();
    u.push(Upgrade::new(UpgradeType::Harvest, Condition::Free(), Condition::Free(), "Harvest".to_owned()).static_());
    u.push(Upgrade::new(UpgradeType::Place, Condition::Free(), Condition::Free(), "Place a 2".to_owned()).static_());
    u.push(Upgrade::new(UpgradeType::Reset, Condition::Free(), Condition::Free(), "HARD RESET".to_owned()).static_());
    u.push(Upgrade::new(UpgradeType::Shuffle, Condition::AlltimePoints(100), Condition::AlltimePoints(20), "Shuffle board".to_owned()).static_());
    u.push(Upgrade::new(UpgradeType::ExtendX, Condition::AvgPoints(4), Condition::AvgPoints(2), "Extend Horizontally".to_owned()).multiply(4).max_level(6));
    u.push(Upgrade::new(UpgradeType::ExtendY, Condition::PointsOnBoard(256), Condition::PointsOnBoard(128), "Extend Vertically".to_owned()).multiply(4).max_level(6));
    u.push(Upgrade::new(UpgradeType::AutoMove, Condition::from_points(16), Condition::Free(), "Auto move the board".to_owned()).multiply(4));
    u.push(Upgrade::new(UpgradeType::RandomPlace, Condition::from_points(16), Condition::Free(), "Auto place a number".to_owned()).multiply(4));
    u.push(Upgrade::new(UpgradeType::EnableStatistics, Condition::from_points(64), Condition::from_points(32), "Enable Statistcs".to_owned()));
    u.push(Upgrade::new(UpgradeType::BonusTile, Condition::AvgPoints(8), Condition::AvgPoints(4), "Bonus 16 tile".to_owned()));
    u.push(Upgrade::new(UpgradeType::NlogNCost, Condition::Harvested(1024), Condition::Harvested(246), "Get extra points for Harvesting".to_owned()));
    u.push(Upgrade::new(UpgradeType::ScientificNotation, Condition::AlltimePoints(1000), Condition::AlltimePoints(500), "Show large numbers in scientific notation".to_owned()));
    u.push(Upgrade::new(UpgradeType::AutoShuffle, Condition::AlltimePoints(100), Condition::AlltimePoints(20), "Automatic Shuffling".to_owned()));
    u.push(Upgrade::new(UpgradeType::SliderPoint, Condition::NumberOnBoard(8), Condition::NumberOnBoard(4), "Get a Slider point".to_owned()).multiply(2));
    let mut s: Vec<Slider> = Vec::new();
    s.push(Slider::new(UpgradeType::ExtendX, "Extend horizontally".to_owned()));
    s.push(Slider::new(UpgradeType::ExtendY, "Extend vertically".to_owned()));
    s.push(Slider::new(UpgradeType::AutoMove, "Board move speed".to_owned()));
    s.push(Slider::new(UpgradeType::RandomPlace, "Value of auto-placed number".to_owned()));
    s.push(Slider::new(UpgradeType::AutoShuffle, "Automatic shuffling".to_owned()));
    let mut a: Vec<AutoAction> = Vec::new();
    a.push(AutoAction::new(UpgradeType::AutoMove, 1000, false));
    a.push(AutoAction::new(UpgradeType::RandomPlace, 1000, false));
    a.push(AutoAction::new(UpgradeType::AutoSave, 10000, true));
    a.push(AutoAction::new(UpgradeType::AutoShuffle, 30000, false));
    (u, s, a)
}

} // verus!
