use game2048::autoaction::{show_auto_actions, AutoAction, AutoActions};
use game2048::condition::{Condition, Context, Payment};
use game2048::maze::Point;
use game2048::number::Number;
use game2048::points::{CostFn, Points};
use game2048::slider::{slide, Slider, SliderPoints, Sliders};
use game2048::stats::Stats;
use game2048::upgrade::{CombineFn, Upgrade, UpgradeAction, UpgradeStatus, UpgradeType, Upgrades};
use game2048::upgrades::{register_upgrades, Autoplace, BonusTile, IsUpgrade, Place, Reset};

fn context() -> Context {
    Context {
        alltime_points: 500,
        largest_harvest: 64,
        points: 100,
        shuffles: 3,
        avg_points: 7,
        points_on_board: 40,
        board_size: Point::new(5, 4),
        upgrades: vec![(UpgradeType::AutoShuffle, true), (UpgradeType::ExtendX, false)],
        tiles: vec![Number::none(), Number::new(4)],
    }
}

#[test]
fn conditions_against_a_snapshot() {
    let ctx = context();
    assert!(Condition::AlltimePoints(500).check(&ctx));
    assert!(!Condition::AlltimePoints(501).check(&ctx));
    assert!(Condition::HavePoints(100).check(&ctx));
    assert!(Condition::HaveShuffles(3).check(&ctx));
    assert!(!Condition::HaveShuffles(4).check(&ctx));
    assert!(Condition::AvgPoints(7).check(&ctx));
    assert!(Condition::Harvested(64).check(&ctx));
    assert!(Condition::BoardSize(5, 4).check(&ctx));
    assert!(!Condition::BoardSize(4, 5).check(&ctx));
    assert!(Condition::PointsOnBoard(40).check(&ctx));
    assert!(Condition::Free().check(&ctx));
    assert!(Condition::UpgradeDone(UpgradeType::AutoShuffle).check(&ctx));
    assert!(!Condition::UpgradeDone(UpgradeType::ExtendX).check(&ctx));
    assert!(Condition::NumberOnBoard(4).check(&ctx));
    assert!(!Condition::NumberOnBoard(2).check(&ctx));
    let between = Condition::Between(Box::new(Condition::HavePoints(50)), Box::new(Condition::HavePoints(200)));
    assert!(between.check(&ctx));
    let not_between = Condition::Between(Box::new(Condition::HavePoints(50)), Box::new(Condition::HavePoints(80)));
    assert!(!not_between.check(&ctx));
}

#[test]
fn condition_costs_and_scaling() {
    assert_eq!(Condition::HavePoints(10).fulfilled(), Payment::Points(10));
    assert_eq!(Condition::HaveShuffles(2).fulfilled(), Payment::Shuffles(2));
    assert_eq!(Condition::NumberOnBoard(8).fulfilled(), Payment::Number(8));
    assert_eq!(Condition::Harvested(8).fulfilled(), Payment::Nothing);
    assert_eq!(Condition::HavePoints(10).multiply(8), Condition::HavePoints(80));
    assert_eq!(Condition::NumberOnBoard(4).multiply(8), Condition::NumberOnBoard(8));
    assert_eq!(Condition::Free().multiply(3), Condition::Free());
    assert_eq!(Condition::from_points(16), Condition::HavePoints(16));
    assert!(Condition::HavePoints(1).equals(&Condition::HavePoints(2)));
    assert!(!Condition::HavePoints(1).equals(&Condition::Harvested(1)));
    assert!(!Condition::HaveShuffles(1).equals(&Condition::HaveShuffles(1)));
}

#[test]
fn upgrades_of_a_new_game() {
    let u = Upgrades::default();
    assert_eq!(u.upgrades.len(), 15);
    assert_eq!(
        u.statics(),
        vec![UpgradeType::Place, UpgradeType::Harvest, UpgradeType::Shuffle]
    );
    let onetime = u.onetime();
    assert_eq!(onetime.len(), 11);
    assert_eq!(onetime[0], UpgradeType::ExtendX);
    assert!(!onetime.contains(&UpgradeType::Reset));
    assert!(!u.is_done(UpgradeType::ScientificNotation));
    assert_eq!(u.get(&UpgradeType::ExtendY).cost, Condition::HavePoints(64));
    let states = u.states();
    assert_eq!(states[3], (UpgradeType::Reset, false));
    // the two lists share no kind and, with the special Reset, cover all
    let statics = u.statics();
    assert!(statics.iter().all(|t| !onetime.contains(t)));
    assert_eq!(statics.len() + onetime.len() + 1, u.upgrades.len());
}

#[test]
fn buying_upgrades() {
    let mut u = Upgrades::default();
    let (pay, action) = u.buy(UpgradeType::ScientificNotation);
    assert_eq!(pay, Payment::Nothing);
    assert_eq!(action, UpgradeAction::ScientificNotation);
    assert!(u.is_done(UpgradeType::ScientificNotation));

    let (pay, _) = u.buy(UpgradeType::ExtendY);
    assert_eq!(pay, Payment::Points(64));
    let e = u.get(&UpgradeType::ExtendY);
    assert_eq!(e.level, 1);
    assert_eq!(e.cost, Condition::HavePoints(512));
    assert_eq!(e.show, Condition::HavePoints(256));
    assert!(!e.done);

    let (_, action) = u.buy(UpgradeType::RandomPlace);
    assert_eq!(action, UpgradeAction::RandomPlace(4));
    let (_, action) = u.buy(UpgradeType::RandomPlace);
    assert_eq!(action, UpgradeAction::RandomPlace(8));

    let (pay, action) = u.buy(UpgradeType::Harvest);
    assert_eq!(pay, Payment::Nothing);
    assert_eq!(action, UpgradeAction::Harvest);
    assert!(!u.is_done(UpgradeType::Harvest));
}

#[test]
fn a_capped_upgrade_is_done_at_its_top_level() {
    let mut up = Upgrade::new(UpgradeType::ExtendX, Condition::HavePoints(2), Condition::Free(), "x".to_string())
        .multiply(2)
        .max_level(2);
    assert_eq!(up.status, UpgradeStatus::Multiply(2));
    assert_eq!(up.upgrade(), Payment::Points(2));
    assert!(!up.done);
    assert_eq!(up.upgrade(), Payment::Points(4));
    assert!(up.done);
    assert_eq!(up.cost, Condition::HavePoints(8));
}

#[test]
fn an_upgrade_shows_once_its_threshold_holds() {
    let ctx = context();
    let mut up = Upgrade::new(UpgradeType::BonusTile, Condition::HavePoints(1000), Condition::HavePoints(50), "b".to_string());
    assert!(!up.clickable(&ctx));
    assert!(!up.visible);
    assert!(up.visible(&ctx));
    let mut hidden = Upgrade::new(UpgradeType::BonusTile, Condition::Free(), Condition::HavePoints(500), "b".to_string());
    assert!(!hidden.visible(&ctx));
    assert!(!hidden.clickable(&ctx));
    let (t, built) = Upgrade::new(UpgradeType::Place, Condition::Free(), Condition::Free(), "p".to_string()).static_().build();
    assert_eq!(t, UpgradeType::Place);
    assert_eq!(built.status, UpgradeStatus::Static);
    assert_eq!(built.max_level, 999);
}

#[test]
fn upgrade_kinds_run_their_actions() {
    assert_eq!(UpgradeType::RandomPlace.run(0), UpgradeAction::RandomPlace(2));
    assert_eq!(UpgradeType::RandomPlace.run(3), UpgradeAction::RandomPlace(16));
    assert_eq!(UpgradeType::BonusTile.run(0), UpgradeAction::SetCombine(CombineFn::Bonus(64, 16)));
    assert_eq!(UpgradeType::ExtendX.run(4), UpgradeAction::Nothing);
    assert_eq!(UpgradeType::AutoSave.run(1), UpgradeAction::Save);
}

#[test]
fn marker_upgrades_run_their_actions() {
    assert_eq!(Place::run(0), UpgradeAction::RandomPlace(2));
    assert_eq!(Autoplace::run(3), UpgradeAction::RandomPlace(8));
    assert_eq!(Autoplace::run(0), UpgradeAction::RandomPlace(1));
    assert_eq!(BonusTile::run(0), UpgradeAction::SetCombine(CombineFn::Bonus(6, 4)));
    assert_eq!(Reset::run(2), UpgradeAction::Nothing);
}

#[test]
fn the_first_registry() {
    let (u, s, a) = register_upgrades();
    assert_eq!(u.len(), 14);
    assert_eq!(u[0].t, UpgradeType::Harvest);
    assert_eq!(u[4].max_level, 6);
    assert_eq!(u[4].status, UpgradeStatus::Multiply(4));
    assert_eq!(u[6].cost, Condition::HavePoints(16));
    assert_eq!(u[13].text, "Get a Slider point");
    assert_eq!(s.len(), 5);
    assert_eq!(s[3].text, "Value of auto-placed number");
    assert_eq!(a.len(), 4);
    assert_eq!(a[2].t, UpgradeType::AutoSave);
    assert!(a[2].active);
    assert_eq!(a[3].max, 30000);
}

#[test]
fn points_by_cost_function() {
    assert_eq!(CostFn::Static.apply(100, 200), 100);
    assert_eq!(CostFn::NlogN.apply(100, 200), 200);
    let mut stats = Stats::new();
    let mut p = Points::new();
    p.add(64, 115, &mut stats);
    assert_eq!(p.get(), 64);
    p.set_log();
    assert_eq!(p.cost_fn(), CostFn::NlogN);
    p.add(64, 115, &mut stats);
    assert_eq!(p.get(), 179);
    assert_eq!(stats.points, 179);
    p.sub(79);
    assert_eq!(p.get(), 100);
}

#[test]
fn stats_keep_the_largest_harvest() {
    let mut s = Stats::new();
    assert!(!s.enabled());
    s.harvest(16);
    s.harvest(8);
    assert_eq!(s.largest_harvest, 16);
    s.points(5);
    s.points(6);
    assert_eq!(s.points, 11);
    s.enable();
    assert!(s.enabled());
}

#[test]
fn slider_steps_stay_in_range() {
    let mut s = Slider::new(UpgradeType::ExtendX, "x".to_string());
    assert!(!s.enabled());
    s.increase();
    assert_eq!(s.current, 0);
    s.upgrade();
    s.upgrade();
    assert!(s.enabled());
    s.increase();
    s.increase();
    s.increase();
    assert_eq!(s.current, 2);
    s.decrease();
    assert_eq!(s.current, 1);
    s.increase();
    assert_eq!(s.current, 2);
    s.decrease();
    s.decrease();
    s.decrease();
    assert_eq!(s.current, 0);
    assert!(!s.sync(0));
    assert!(s.sync(3));
    assert_eq!(s.max, 3);
}

#[test]
fn sliders_of_a_game() {
    let mut s = Sliders::new();
    assert_eq!(slide(&s), vec![UpgradeType::ExtendX, UpgradeType::ExtendY, UpgradeType::AutoMove, UpgradeType::RandomPlace]);
    s.adjust(UpgradeType::RandomPlace, true, Some(3));
    s.adjust(UpgradeType::RandomPlace, true, None);
    s.adjust(UpgradeType::RandomPlace, true, None);
    assert_eq!(s.get(&UpgradeType::RandomPlace).current, 2);
    assert_eq!(s.get(&UpgradeType::ExtendX).current, 0);
    assert_eq!(s.run(&UpgradeType::RandomPlace), UpgradeAction::RandomPlace(8));
    let mut points = SliderPoints::new();
    points.add(3);
    points.sub(1);
    assert_eq!(points.get(), 2);
}

#[test]
fn auto_actions_count_down() {
    let mut a = AutoAction::new(UpgradeType::AutoMove, 250, true);
    assert!(!a.tick());
    assert_eq!(a.current, 150);
    assert!(!a.tick());
    assert_eq!(a.current, 50);
    assert!(a.tick());
    assert_eq!(a.current, 250);
    a.disable();
    assert!(!a.tick());
    assert_eq!(a.current, 250);
    a.enable(1);
    a.upgrade(120, 2);
    assert_eq!(a.max, 120);
}

#[test]
fn auto_actions_follow_their_slider() {
    let mut a = AutoAction::new(UpgradeType::RandomPlace, 1000, false);
    let mut s = Slider::new(UpgradeType::RandomPlace, "p".to_string());
    a.follow(&s, 500);
    assert!(!a.active);
    assert_eq!(a.max, 1000);
    s.upgrade();
    s.increase();
    a.follow(&s, 833);
    assert!(a.active);
    assert_eq!(a.max, 833);
    s.decrease();
    a.follow(&s, 1000);
    assert!(!a.active);
}

#[test]
fn auto_actions_of_a_game() {
    let mut actions = AutoActions::default();
    assert_eq!(
        show_auto_actions(&actions),
        vec![UpgradeType::AutoMove, UpgradeType::RandomPlace, UpgradeType::AutoShuffle, UpgradeType::AutoSave]
    );
    let mut save = actions.get(&UpgradeType::AutoSave);
    assert_eq!(save.max, 10000);
    save.enable(0);
    actions.set(save);
    assert!(actions.get(&UpgradeType::AutoSave).active);
    assert!(!actions.get(&UpgradeType::AutoMove).active);
}

#[test]
fn guards_before_buying() {
    let u = Upgrades::default();
    assert!(u.can_buy(UpgradeType::ExtendX));
    let mut big = Upgrades::default();
    big.upgrades[4].cost = Condition::PointsOnBoard(usize::MAX);
    assert!(!big.can_buy(UpgradeType::ExtendX));
    assert!(Condition::HavePoints(3).can_scale(4));
    assert!(!Condition::HavePoints(usize::MAX / 2).can_scale(3));
    assert!(!Condition::BoardSize(1, 1).can_scale(2));
    assert!(Condition::NumberOnBoard(4).can_scale(100));
}

#[test]
fn guards_before_checking() {
    let ctx = context();
    assert!(game2048::condition::kinds_distinct(&ctx));
    assert!(Condition::UpgradeDone(UpgradeType::ExtendX).can_check(&ctx));
    assert!(!Condition::UpgradeDone(UpgradeType::Reset).can_check(&ctx));
    assert!(!Condition::NumberOnBoard(3).can_check(&ctx));
    let mut twice = context();
    twice.upgrades.push((UpgradeType::ExtendX, true));
    assert!(!game2048::condition::kinds_distinct(&twice));
}
