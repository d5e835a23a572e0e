use game2048::maze::{Board, Direction, Point};
use game2048::model::{code_to_direction, Msg, UpgradeableBoard};
use game2048::number::{trailing_zeros, Number, Shown};
use game2048::points::Points;
use game2048::stats::Stats;
use game2048::upgrade::CombineFn;

fn tile(e: usize) -> Number {
    Number::scientific(e)
}

fn row_board(exps: &[Option<usize>]) -> Board<Number> {
    let mut b: Board<Number> = Board::new(Point::new(exps.len(), 1));
    for (i, e) in exps.iter().enumerate() {
        b.insert(Point::new(i, 0), Number::from_option(*e));
    }
    b
}

fn cell(b: &Board<Number>, x: usize, y: usize) -> Option<usize> {
    b.get(&Point::new(x, y)).unwrap().value
}

#[test]
fn trailing_zeros_counts_low_zero_bits() {
    assert_eq!(trailing_zeros(0), 0);
    assert_eq!(trailing_zeros(1), 0);
    assert_eq!(trailing_zeros(8), 3);
    assert_eq!(trailing_zeros(12), 2);
    assert_eq!(trailing_zeros(1 << 40), 40);
}

#[test]
fn number_new_uses_the_shifted_exponent() {
    assert_eq!(Number::new(2).value, Some(1));
    assert_eq!(Number::new(4).value, Some(2));
    // 8 has three trailing zeros, and 1 << (3 - 1) is 4
    assert_eq!(Number::new(8).value, Some(4));
    assert_eq!(Number::new(16).value, Some(8));
}

#[test]
fn number_points_and_display() {
    assert_eq!(tile(3).value(), 8);
    assert_eq!(Number::none().value(), 0);
    assert!(Number::none().is_none());
    assert!(tile(1).is_some());
    assert_eq!(tile(7).shown(true), Shown::Scientific(7));
    assert_eq!(tile(6).shown(true), Shown::Plain(64));
    assert_eq!(tile(7).shown(false), Shown::Plain(128));
    assert_eq!(Number::none().shown(true), Shown::Blank);
    assert_eq!(tile(1).color(), "bg-blue-100");
    assert_eq!(tile(4).color(), "bg-red-100");
    let mut n = tile(2);
    n.set(None);
    assert!(n.is_none());
}

#[test]
fn points_move_and_wrap() {
    let p = Point::new(3, 5);
    assert_eq!(p.right(), Point::new(4, 5));
    assert_eq!(p.left(), Point::new(2, 5));
    assert_eq!(p.up(), Point::new(3, 4));
    assert_eq!(p.down(), Point::new(3, 6));
    assert_eq!(Point::new(0, 0).left(), Point::new(usize::MAX, 0));
    assert_eq!(p.go(Direction::Nowhere), p);
}

#[test]
fn opposite_directions_undo_each_other() {
    for d in [Direction::Left, Direction::Right, Direction::Up, Direction::Down, Direction::Nowhere] {
        assert_eq!(d.opposite().opposite(), d);
        let p = Point::new(7, 7);
        assert_eq!(p.go(d).go(d.opposite()), p);
    }
    assert_eq!(Direction::from_index(0), Direction::Left);
}

#[test]
fn random_point_lies_in_the_area() {
    for _ in 0..50 {
        let p = Point::random(3, 2);
        assert!(p.x < 3 && p.y < 2);
    }
}

#[test]
fn board_insert_get_remove() {
    let mut b: Board<usize> = Board::new(Point::new(2, 2));
    assert_eq!(b.len(), 0);
    b.insert(Point::new(1, 0), 5);
    b.insert(Point::new(1, 0), 6);
    b.insert(Point::new(0, 1), 7);
    assert_eq!(b.len(), 2);
    assert_eq!(b.get(&Point::new(1, 0)), Some(&6));
    assert_eq!(b.get(&Point::new(1, 1)), None);
    b.remove(&Point::new(1, 0));
    assert_eq!(b.get(&Point::new(1, 0)), None);
    assert_eq!(b.len(), 1);
}

#[test]
fn board_points_walk_row_by_row() {
    let mut b: Board<usize> = Board::new(Point::new(2, 2));
    for y in 0..2 {
        for x in 0..2 {
            b.insert(Point::new(x, y), 10 * x + y);
        }
    }
    let pts = b.points();
    assert_eq!(pts, vec![Point::new(0, 0), Point::new(1, 0), Point::new(0, 1), Point::new(1, 1)]);
    let mut it = b.iter();
    let mut seen = Vec::new();
    while let Some(v) = it.next() {
        seen.push(*v);
    }
    assert_eq!(seen, vec![0, 10, 1, 11]);
    let rows = b.rows();
    assert_eq!(rows.len(), 2);
    let cols = b.columns();
    assert_eq!(cols.len(), 2);
}

#[test]
fn sliding_a_row_merges_equal_tiles_in_a_chain() {
    // 2 2 4 8: the two 2s make a 4, which meets the 4, and so on
    let mut b = row_board(&[Some(1), Some(1), Some(2), Some(3)]);
    let r = b.play(Direction::Left, CombineFn::Standard);
    assert_eq!(r, 2);
    assert_eq!(cell(&b, 0, 0), Some(4));
    let placed: Vec<usize> = (1..4).filter(|&x| cell(&b, x, 0).is_some()).collect();
    assert_eq!(placed.len(), 1);
    assert_eq!(cell(&b, placed[0], 0), Some(1));
}

#[test]
fn sliding_right_moves_towards_the_end() {
    let mut b = row_board(&[Some(2), None, Some(3), Some(4)]);
    let r = b.play(Direction::Right, CombineFn::Standard);
    assert_eq!(r, 2);
    assert_eq!(cell(&b, 3, 0), Some(4));
    assert_eq!(cell(&b, 2, 0), Some(3));
    assert_eq!(cell(&b, 1, 0), Some(2));
    assert_eq!(cell(&b, 0, 0), Some(1));
}

#[test]
fn a_move_that_changes_nothing_places_nothing() {
    let mut b = row_board(&[Some(1), Some(2), None, None]);
    let r = b.play(Direction::Left, CombineFn::Standard);
    assert_eq!(r, 0);
    assert_eq!(cell(&b, 0, 0), Some(1));
    assert_eq!(cell(&b, 1, 0), Some(2));
    assert_eq!(cell(&b, 2, 0), None);
    assert_eq!(cell(&b, 3, 0), None);
    let r = b.play(Direction::Nowhere, CombineFn::Standard);
    assert_eq!(r, 0);
}

#[test]
fn bonus_combination_leaves_a_tile_behind() {
    assert_eq!(CombineFn::Standard.apply(3, 3), (4, None));
    assert_eq!(CombineFn::Bonus(6, 4).apply(5, 5), (6, Some(4)));
    assert_eq!(CombineFn::Bonus(6, 4).apply(4, 4), (5, None));
    let mut b = row_board(&[Some(5), Some(5), None]);
    b.play(Direction::Left, CombineFn::Bonus(6, 4));
    assert_eq!(cell(&b, 0, 0), Some(6));
    assert_eq!(cell(&b, 1, 0), Some(4));
}

#[test]
fn new_game_board() {
    let b = UpgradeableBoard::new();
    assert_eq!(b.boardsize(), Point::new(4, 4));
    assert_eq!(b.get_points(), 2);
    assert!(b.contains(2));
    assert!(!b.contains(4));
    assert_eq!(b.board.len(), 16);
    let d = UpgradeableBoard::default();
    assert_eq!(d.get_points(), 2);
}

#[test]
fn extending_then_reducing_gives_back_the_board() {
    let mut b = UpgradeableBoard::new();
    b.board.insert(Point::new(3, 3), tile(5));
    b.extend_x();
    assert_eq!(b.boardsize(), Point::new(5, 4));
    assert_eq!(b.board.len(), 20);
    assert_eq!(cell(&b.board, 4, 2), None);
    b.reduce_x();
    assert_eq!(b.boardsize(), Point::new(4, 4));
    assert_eq!(b.board.len(), 16);
    assert_eq!(cell(&b.board, 3, 3), Some(5));
    assert_eq!(cell(&b.board, 0, 0), Some(1));
    b.extend_y();
    b.reduce_y();
    assert_eq!(b.boardsize(), Point::new(4, 4));
    assert_eq!(cell(&b.board, 3, 3), Some(5));
}

#[test]
fn resizing_keeps_the_common_cells() {
    let mut b = UpgradeableBoard::new();
    b.board.insert(Point::new(1, 1), tile(3));
    b.set_size(2, 6);
    assert_eq!(b.boardsize(), Point::new(2, 6));
    assert_eq!(b.board.len(), 12);
    assert_eq!(cell(&b.board, 1, 1), Some(3));
    assert_eq!(cell(&b.board, 1, 5), None);
    assert!(b.board.get(&Point::new(3, 0)).is_none());
    b.fit_sliders(1, 0);
    assert_eq!(b.boardsize(), Point::new(5, 4));
    assert_eq!(cell(&b.board, 1, 1), Some(3));
}

#[test]
fn harvest_takes_the_largest_tile() {
    let mut b = UpgradeableBoard::new();
    b.board.insert(Point::new(2, 1), tile(4));
    b.board.insert(Point::new(3, 3), tile(2));
    assert_eq!(b.largest(), Some(16));
    let mut points = Points::new();
    let mut stats = Stats::new();
    stats.largest_harvest = 8;
    assert_eq!(b.harvest(0, &mut points, &mut stats), Some(16));
    assert_eq!(cell(&b.board, 2, 1), None);
    assert_eq!(cell(&b.board, 3, 3), Some(2));
    // the 2 in the corner and the 4 are left
    assert_eq!(b.get_points(), 6);
    assert_eq!(points.get(), 16);
    assert_eq!(stats.points, 16);
    assert_eq!(stats.largest_harvest, 16);
}

#[test]
fn harvest_recounts_the_board() {
    let mut b = UpgradeableBoard::new();
    assert_eq!(b.get_points(), 2);
    let mut points = Points::new();
    points.set_log();
    let mut stats = Stats::new();
    stats.largest_harvest = 64;
    assert_eq!(b.harvest(7, &mut points, &mut stats), Some(2));
    assert_eq!(b.get_points(), 0);
    assert_eq!(points.get(), 7);
    assert_eq!(stats.points, 7);
    assert_eq!(stats.largest_harvest, 64);
    assert_eq!(b.largest(), Some(0));
}

#[test]
fn harvesting_a_board_without_cells_changes_nothing() {
    let mut b = UpgradeableBoard::new();
    b.set_size(0, 0);
    assert_eq!(b.largest(), None);
    let mut points = Points::new();
    let mut stats = Stats::new();
    assert_eq!(b.harvest(0, &mut points, &mut stats), None);
    assert_eq!(points.get(), 0);
    assert_eq!(stats.points, 0);
}

#[test]
fn key_codes_choose_directions() {
    assert_eq!(code_to_direction(37), Direction::Left);
    assert_eq!(code_to_direction(65), Direction::Left);
    assert_eq!(code_to_direction(87), Direction::Up);
    assert_eq!(code_to_direction(39), Direction::Right);
    assert_eq!(code_to_direction(83), Direction::Down);
    assert_eq!(code_to_direction(13), Direction::Nowhere);
}

#[test]
fn a_board_event_only_redraws() {
    let mut b = UpgradeableBoard::new();
    assert!(b.update(Msg::Board));
    assert_eq!(b.get_points(), 2);
    assert_eq!(cell(&b.board, 0, 0), Some(1));
}

#[test]
fn a_key_plays_the_board() {
    let mut b = UpgradeableBoard::new();
    b.board.insert(Point::new(0, 0), Number::none());
    b.board.insert(Point::new(3, 0), tile(1));
    // right arrow: the 2 in the top-right corner cannot move, so nothing
    // changes except a 4 that lands somewhere empty
    assert!(b.update(Msg::Key(39)));
    assert_eq!(cell(&b.board, 3, 0), Some(1));
    let tiles = b.board.points().iter().filter(|p| cell(&b.board, p.x, p.y).is_some()).count();
    assert_eq!(tiles, 2);
    assert_eq!(b.get_points(), 6);
}

#[test]
fn guards_before_moving_and_harvesting() {
    let mut b = UpgradeableBoard::new();
    assert!(b.can_play());
    assert!(b.points_fit());
    b.board.insert(Point::new(1, 1), tile(70));
    assert!(b.can_play());
    assert!(!b.points_fit());
    b.board.insert(Point::new(1, 1), tile(usize::MAX - 3));
    assert!(!b.can_play());
    let mut c = UpgradeableBoard::new();
    c.board.insert(Point::new(1, 1), tile(63));
    c.board.insert(Point::new(2, 1), tile(63));
    assert!(!c.points_fit());
    c.board.insert(Point::new(2, 1), tile(62));
    assert!(c.points_fit());
}

#[test]
fn line_cursors_walk_each_line() {
    let mut b: Board<usize> = Board::new(Point::new(3, 2));
    for y in 0..2 {
        for x in 0..3 {
            b.insert(Point::new(x, y), x + 10 * y);
        }
    }
    let walk = |mut c: game2048::maze::BoardIterMut| {
        let mut pts = Vec::new();
        while let Some(p) = c.next(&b) {
            pts.push(p);
        }
        pts
    };
    let rows = b.rows_mut();
    assert_eq!(rows.len(), 2);
    assert_eq!(walk(rows[1]), vec![Point::new(0, 1), Point::new(1, 1), Point::new(2, 1)]);
    let rev = b.rows_mut_rev();
    assert_eq!(walk(rev[0]), vec![Point::new(2, 0), Point::new(1, 0), Point::new(0, 0)]);
    let cols = b.columns_mut();
    assert_eq!(cols.len(), 3);
    assert_eq!(walk(cols[2]), vec![Point::new(2, 0), Point::new(2, 1)]);
    let up = b.columns_mut_rev();
    assert_eq!(walk(up[0]), vec![Point::new(0, 1), Point::new(0, 0)]);
    let mut all = b.iter_mut();
    let mut n = 0;
    while all.next(&b).is_some() {
        n += 1;
    }
    assert_eq!(n, 6);
}

#[test]
fn an_empty_area_always_takes_the_new_tile() {
    let mut b = row_board(&[None, None, None]);
    assert_eq!(b.random_empty_replace(Number::new(4)), 4);
    let placed: Vec<usize> = (0..3).filter(|x| cell(&b, *x, 0).is_some()).collect();
    assert_eq!(placed.len(), 1);
    assert_eq!(cell(&b, placed[0], 0), Some(2));
}

#[test]
fn a_full_area_takes_no_new_tile() {
    let mut b = row_board(&[Some(1), Some(3)]);
    assert_eq!(b.random_empty_replace(Number::new(4)), 0);
    assert_eq!(cell(&b, 0, 0), Some(1));
    assert_eq!(cell(&b, 1, 0), Some(3));
}

#[test]
fn random_place_on_an_emptied_board_adds_the_tile() {
    let mut b = UpgradeableBoard::new();
    assert_eq!(b.harvest(0, &mut Points::new(), &mut Stats::new()), Some(2));
    let before = b.get_points();
    assert_eq!(b.random_place(2), 2);
    assert_eq!(b.get_points(), before + 2);
    let tiles = (0..4).flat_map(|x| (0..4).map(move |y| (x, y)))
        .filter(|(x, y)| cell(&b.board, *x, *y).is_some())
        .count();
    assert_eq!(tiles, 1);
}

#[test]
fn iterating_a_rectangle_follows_its_points_row_by_row() {
    let mut b: Board<usize> = Board::new(Point::new(3, 2));
    for (x, y) in [(2, 1), (0, 0), (1, 1), (2, 0), (0, 1), (1, 0)] {
        b.insert(Point::new(x, y), 10 * x + y);
    }
    let pts = b.points();
    let expected: Vec<Point> = (0..6).map(|k| Point::new(k % 3, k / 3)).collect();
    assert_eq!(pts, expected);
    let mut it = b.iter();
    let mut seen = Vec::new();
    while let Some(v) = it.next() {
        seen.push(*v);
    }
    let at_points: Vec<usize> = pts.iter().map(|p| *b.get(p).unwrap()).collect();
    assert_eq!(seen, at_points);
}

#[test]
fn place_if_empty_fills_only_an_empty_cell() {
    let mut b = row_board(&[None, Some(3)]);
    assert_eq!(b.place_if_empty(Point::new(1, 0), Number::new(4)), None);
    assert_eq!(cell(&b, 1, 0), Some(3));
    assert_eq!(b.place_if_empty(Point::new(5, 0), Number::new(4)), None);
    assert!(b.get(&Point::new(5, 0)).is_none());
    assert_eq!(b.place_if_empty(Point::new(0, 0), Number::new(4)), Some(4));
    assert_eq!(cell(&b, 0, 0), Some(2));
    assert_eq!(b.len(), 2);
}
