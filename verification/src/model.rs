use vstd::prelude::*;

use crate::maze::{
    inner_keys, lemma_assoc_at, lemma_row_major_cells, lemma_walk_in_board, lemma_walk_row_major, rect_keys, row_major,
    walk, Board, Direction, Point, Step,
};
use crate::number::{new_exponent, spec_from_usize, spec_trailing_zeros, tile_fits, tile_points, Number};
use crate::points::{spec_apply, Points};
use crate::random::shuffle_tiles;
use crate::stats::Stats;
use crate::twentyfourtyeight::{all_empty, board_bounded, lemma_write_line_dom, line_values, played, rect_exact, write_line};
use crate::upgrade::CombineFn;

verus! {

/// Whether `p` lies in the `max.x` by `max.y` area.
pub open spec fn in_area(p: Point, max: Point) -> bool {
    p.x < max.x && p.y < max.y
}

/// A board of extent `old_max` resized to `new_max`: cells in both areas
/// keep their tiles, new cells are empty.
pub open spec fn resized(m: Map<Point, Number>, old_max: Point, new_max: Point) -> Map<Point, Number> {
    Map::new(
        |p: Point| in_area(p, new_max),
        |p: Point| if in_area(p, old_max) { m[p] } else { Number { value: None } },
    )
}

/// Resizing in steps is resizing at once, as long as every cell in both
/// the first and last area is kept in the middle one.
pub proof fn lemma_resized_twice(m: Map<Point, Number>, a: Point, b: Point, c: Point)
    requires
        forall|p: Point| in_area(p, a) && in_area(p, c) ==> in_area(p, b),
    ensures
        resized(resized(m, a, b), b, c) =~= resized(m, a, c),
{
}

/// Points of the tiles on the cells `pts`.
pub open spec fn sum_points(m: Map<Point, Number>, pts: Seq<Point>) -> nat
    decreases pts.len(),
{
    if pts.len() == 0 {
        0
    } else {
        sum_points(m, pts.drop_last()) + tile_points(m[pts.last()])
    }
}

/// Every tile's points fit in a `usize`.
pub open spec fn tiles_fit(m: Map<Point, Number>) -> bool {
    forall|p: Point| #[trigger] m.contains_key(p) ==> tile_fits(m[p])
}

/// The cells in walking order, row by row from the top-left.
pub open spec fn stair(b: &Board<Number>) -> Seq<Point> {
    walk(b@, Point { x: 0, y: 0 }, Step::Staircase, b.size())
}

/// On a board whose cells fill the rectangle below its extent, `stair`
/// visits every cell exactly once, row by row from the top-left, each row
/// left to right.
pub proof fn lemma_stair_row_major(b: &Board<Number>)
    requires
        b.wf(),
        rect_exact(b@, b.max),
    ensures
        stair(b) == row_major(b.max.x, (b.max.x * b.max.y) as nat),
        stair(b).no_duplicates(),
        stair(b).to_set() == b@.dom(),
{
    assert(rect_keys(b@, b.max));
    b.lemma_rect_size();
    lemma_walk_row_major(b@, b.max, b.size());
    lemma_row_major_cells(b.max);
    assert(b@.dom() =~= Set::new(|p: Point| p.x < b.max.x && p.y < b.max.y));
}

/// The board of the incremental game, with its settings and the points on
/// it.
pub struct UpgradeableBoard {
    pub board: Board<Number>,
    pub scientific_notation: bool,
    pub points: usize,
    pub combine_fn: CombineFn,
}

impl UpgradeableBoard {
    /// The cells are exactly the playing area.
    pub open spec fn wf(&self) -> bool {
        &&& self.board.wf()
        &&& rect_exact(self.board@, self.board.max)
    }

    /// A 4 by 4 board with a 2 in the top-left corner and 2 points.
    pub fn new() -> (r: Self)
        ensures
            r.wf(),
            r.board.max == (Point { x: 4, y: 4 }),
            r.board@ == resized(Map::empty(), Point { x: 0, y: 0 }, Point { x: 4, y: 4 }).insert(
                Point { x: 0, y: 0 }, Number { value: Some(1) }),
            r.points == 2,
            !r.scientific_notation,
            r.combine_fn == CombineFn::Standard,
    {
        let max = Point::new(4, 4);
        let mut board: Board<Number> = Board::new(max);
        let mut i: usize = 0;
        while i < 4
            invariant
                i <= 4,
                board.wf(),
                board.max == max,
                board@ =~= Map::new(|p: Point| p.x < i && p.y < 4, |p: Point| Number { value: None }),
            decreases 4 - i,
        {
            let mut j: usize = 0;
            while j < 4
                invariant
                    i < 4,
                    j <= 4,
                    board.wf(),
                    board.max == max,
                    board@ =~= Map::new(|p: Point| p.x < i || (p.x == i && p.y < j), |p: Point| Number { value: None }).restrict(
                        Set::new(|p: Point| p.y < 4)),
                decreases 4 - j,
            {
                board.insert(Point::new(i, j), Number::none());
                j = j + 1;
            }
            i = i + 1;
        }
        let two = Number::new(2);
        proof {
            assert(crate::number::spec_trailing_zeros(1) == 0);
            assert(crate::number::spec_trailing_zeros(2) == 1);
            vstd::arithmetic::power2::lemma2_to64();
        }
        board.insert(Point::new(0, 0), two);
        let r = UpgradeableBoard { board, scientific_notation: false, points: 2, combine_fn: CombineFn::Standard };
        assert(r.board@ =~= resized(Map::empty(), Point { x: 0, y: 0 }, Point { x: 4, y: 4 }).insert(
                Point { x: 0, y: 0 }, Number { value: Some(1) }));
        r
    }

    /// Extent of the board.
    pub fn boardsize(&self) -> (r: Point)
        ensures
            r == self.board.max,
    {
        self.board.max
    }

    /// Points on the board.
    pub fn get_points(&self) -> (r: usize)
        ensures
            r == self.points,
    {
        self.points
    }

    /// Sets how tiles combine.
    pub fn set_combine_fn(&mut self, f: CombineFn)
        ensures
            *final(self) == (UpgradeableBoard { combine_fn: f, ..*old(self) }),
    {
        self.combine_fn = f;
    }

    /// Shows large tiles in scientific notation from now on.
    pub fn scientific_notation(&mut self)
        ensures
            *final(self) == (UpgradeableBoard { scientific_notation: true, ..*old(self) }),
    {
        self.scientific_notation = true;
    }
}


/// The extent one column (`horizontal`) or one row larger.
pub open spec fn grown(max: Point, horizontal: bool) -> Point {
    if horizontal { Point { x: (max.x + 1) as usize, y: max.y } } else { Point { x: max.x, y: (max.y + 1) as usize } }
}

/// The extent one column (`horizontal`) or one row smaller.
pub open spec fn shrunk(max: Point, horizontal: bool) -> Point {
    if horizontal { Point { x: (max.x - 1) as usize, y: max.y } } else { Point { x: max.x, y: (max.y - 1) as usize } }
}

/// Growing the board by a column (or row) and taking it away again gives
/// back the board: `extend_x` followed by `reduce_x` (`horizontal`), or
/// `extend_y` followed by `reduce_y`, restores both the extent and every
/// cell.
pub proof fn lemma_grow_then_shrink(m: Map<Point, Number>, max: Point, horizontal: bool)
    requires
        rect_exact(m, max),
        horizontal ==> max.x < usize::MAX,
        !horizontal ==> max.y < usize::MAX,
    ensures
        shrunk(grown(max, horizontal), horizontal) == max,
        resized(resized(m, max, grown(max, horizontal)), grown(max, horizontal), max) == m,
{
    lemma_resized_twice(m, max, grown(max, horizontal), max);
    lemma_resize_same(m, max);
}

/// Resizing a board to its own extent leaves it as it is.
pub proof fn lemma_resize_same(m: Map<Point, Number>, max: Point)
    requires
        rect_exact(m, max),
    ensures
        resized(m, max, max) == m,
{
    assert(resized(m, max, max) =~= m);
}

impl UpgradeableBoard {
    fn grow(&mut self, horizontal: bool)
        requires
            old(self).wf(),
            horizontal ==> old(self).board.max.x < usize::MAX,
            !horizontal ==> old(self).board.max.y < usize::MAX,
        ensures
            final(self).wf(),
            final(self).board.max == grown(old(self).board.max, horizontal),
            final(self).board@ == resized(old(self).board@, old(self).board.max, grown(old(self).board.max, horizontal)),
            final(self).points == old(self).points,
            final(self).scientific_notation == old(self).scientific_notation,
            final(self).combine_fn == old(self).combine_fn,
    {
        let ghost m = self.board@;
        let max = self.board.max;
        let n = if horizontal { max.y } else { max.x };
        let mut i: usize = 0;
        assert(m =~= Map::new(|p: Point| in_area(p, max) || (if horizontal { p.x == max.x && p.y < 0 } else { p.y == max.y && p.x < 0 }),
            |p: Point| if in_area(p, max) { m[p] } else { Number { value: None } }));
        while i < n
            invariant
                self.board.wf(),
                self.board.max == max,
                self.points == old(self).points,
                self.scientific_notation == old(self).scientific_notation,
                self.combine_fn == old(self).combine_fn,
                n == if horizontal { max.y } else { max.x },
                i <= n,
                self.board@ =~= Map::new(
                    |p: Point| in_area(p, max) || (if horizontal { p.x == max.x && p.y < i } else { p.y == max.y && p.x < i }),
                    |p: Point| if in_area(p, max) { m[p] } else { Number { value: None } }),
            decreases n - i,
        {
            let p = if horizontal { Point::new(max.x, i) } else { Point::new(i, max.y) };
            self.board.insert(p, Number::none());
            i = i + 1;
        }
        if horizontal {
            self.board.max.x = self.board.max.x + 1;
        } else {
            self.board.max.y = self.board.max.y + 1;
        }
        assert(self.board@ =~= resized(m, max, grown(max, horizontal)));
    }

    fn shrink(&mut self, horizontal: bool)
        requires
            old(self).wf(),
            horizontal ==> old(self).board.max.x >= 1,
            !horizontal ==> old(self).board.max.y >= 1,
        ensures
            final(self).wf(),
            final(self).board.max == shrunk(old(self).board.max, horizontal),
            final(self).board@ == resized(old(self).board@, old(self).board.max, shrunk(old(self).board.max, horizontal)),
            final(self).points == old(self).points,
            final(self).scientific_notation == old(self).scientific_notation,
            final(self).combine_fn == old(self).combine_fn,
    {
        let ghost m = self.board@;
        let max = self.board.max;
        let n = if horizontal { max.y } else { max.x };
        let mut i: usize = 0;
        assert(m =~= Map::new(|p: Point| in_area(p, max) && !(if horizontal { p.x == max.x - 1 && p.y < 0 } else { p.y == max.y - 1 && p.x < 0 }),
            |p: Point| m[p]));
        while i < n
            invariant
                self.board.wf(),
                self.board.max == max,
                self.points == old(self).points,
                self.scientific_notation == old(self).scientific_notation,
                self.combine_fn == old(self).combine_fn,
                horizontal ==> max.x >= 1,
                !horizontal ==> max.y >= 1,
                n == if horizontal { max.y } else { max.x },
                i <= n,
                self.board@ =~= Map::new(
                    |p: Point| in_area(p, max) && !(if horizontal { p.x == max.x - 1 && p.y < i } else { p.y == max.y - 1 && p.x < i }),
                    |p: Point| m[p]),
            decreases n - i,
        {
            let p = if horizontal { Point::new(max.x - 1, i) } else { Point::new(i, max.y - 1) };
            self.board.remove(&p);
            i = i + 1;
        }
        if horizontal {
            self.board.max.x = self.board.max.x - 1;
        } else {
            self.board.max.y = self.board.max.y - 1;
        }
        assert(self.board@ =~= resized(m, max, shrunk(max, horizontal)));
    }

    /// One more column on the right, with empty cells.
    pub fn extend_x(&mut self)
        requires
            old(self).wf(),
            old(self).board.max.x < usize::MAX,
        ensures
            final(self).wf(),
            final(self).board.max == grown(old(self).board.max, true),
            final(self).board@ == resized(old(self).board@, old(self).board.max, final(self).board.max),
            final(self).points == old(self).points,
            final(self).scientific_notation == old(self).scientific_notation,
            final(self).combine_fn == old(self).combine_fn,
    {
        self.grow(true);
    }

    /// One column less on the right.
    pub fn reduce_x(&mut self)
        requires
            old(self).wf(),
            old(self).board.max.x >= 1,
        ensures
            final(self).wf(),
            final(self).board.max == shrunk(old(self).board.max, true),
            final(self).board@ == resized(old(self).board@, old(self).board.max, final(self).board.max),
            final(self).points == old(self).points,
            final(self).scientific_notation == old(self).scientific_notation,
            final(self).combine_fn == old(self).combine_fn,
    {
        self.shrink(true);
    }

    /// One more row at the bottom, with empty cells.
    pub fn extend_y(&mut self)
        requires
            old(self).wf(),
            old(self).board.max.y < usize::MAX,
        ensures
            final(self).wf(),
            final(self).board.max == grown(old(self).board.max, false),
            final(self).board@ == resized(old(self).board@, old(self).board.max, final(self).board.max),
            final(self).points == old(self).points,
            final(self).scientific_notation == old(self).scientific_notation,
            final(self).combine_fn == old(self).combine_fn,
    {
        self.grow(false);
    }

    /// One row less at the bottom.
    pub fn reduce_y(&mut self)
        requires
            old(self).wf(),
            old(self).board.max.y >= 1,
        ensures
            final(self).wf(),
            final(self).board.max == shrunk(old(self).board.max, false),
            final(self).board@ == resized(old(self).board@, old(self).board.max, final(self).board.max),
            final(self).points == old(self).points,
            final(self).scientific_notation == old(self).scientific_notation,
            final(self).combine_fn == old(self).combine_fn,
    {
        self.shrink(false);
    }

    /// Resizes the board to `bx` by `by`: first shrinking, then growing;
    /// cells inside both extents keep their tiles, new cells are empty.
    pub fn set_size(&mut self, bx: usize, by: usize)
        requires
            old(self).wf(),
        ensures
            final(self).wf(),
            final(self).board.max == (Point { x: bx, y: by }),
            final(self).board@ == resized(old(self).board@, old(self).board.max, Point { x: bx, y: by }),
            final(self).points == old(self).points,
            final(self).scientific_notation == old(self).scientific_notation,
            final(self).combine_fn == old(self).combine_fn,
    {
        let ghost m = self.board@;
        let ghost a = self.board.max;
        let ghost c = Point { x: bx, y: by };
        let Point { x: mut x, y: mut y } = self.boardsize();
        assert(m =~= resized(m, a, a));
        while x > bx
            invariant
                self.wf(),
                self.board.max == (Point { x, y }),
                x <= a.x,
                x >= bx || x == a.x,
                y == a.y,
                self.board@ == resized(m, a, Point { x, y }),
                self.points == old(self).points,
                self.scientific_notation == old(self).scientific_notation,
                self.combine_fn == old(self).combine_fn,
            decreases x,
        {
            x = x - 1;
            proof {
                lemma_resized_twice(m, a, Point { x: (x + 1) as usize, y }, Point { x, y });
            }
            self.reduce_x();
        }
        while y > by
            invariant
                self.wf(),
                self.board.max == (Point { x, y }),
                y <= a.y,
                y >= by || y == a.y,
                x == (if a.x >= bx { bx } else { a.x }),
                self.board@ == resized(m, a, Point { x, y }),
                self.points == old(self).points,
                self.scientific_notation == old(self).scientific_notation,
                self.combine_fn == old(self).combine_fn,
            decreases y,
        {
            y = y - 1;
            proof {
                lemma_resized_twice(m, a, Point { x, y: (y + 1) as usize }, Point { x, y });
            }
            self.reduce_y();
        }
        while x < bx
            invariant
                self.wf(),
                self.board.max == (Point { x, y }),
                x <= bx,
                x >= a.x || x == bx,
                y == (if a.y >= by { by } else { a.y }),
                self.board@ == resized(m, a, Point { x, y }),
                self.points == old(self).points,
                self.scientific_notation == old(self).scientific_notation,
                self.combine_fn == old(self).combine_fn,
            decreases bx - x,
        {
            x = x + 1;
            proof {
                lemma_resized_twice(m, a, Point { x: (x - 1) as usize, y }, Point { x, y });
            }
            self.extend_x();
        }
        while y < by
            invariant
                self.wf(),
                self.board.max == (Point { x, y }),
                x == bx,
                y <= by,
                y >= a.y || y == by,
                self.board@ == resized(m, a, Point { x, y }),
                self.points == old(self).points,
                self.scientific_notation == old(self).scientific_notation,
                self.combine_fn == old(self).combine_fn,
            decreases by - y,
        {
            y = y + 1;
            proof {
                lemma_resized_twice(m, a, Point { x, y: (y - 1) as usize }, Point { x, y });
            }
            self.extend_y();
        }
    }
}

proof fn lemma_sum_append(m: Map<Point, Number>, a: Seq<Point>, b: Seq<Point>)
    ensures
        sum_points(m, a + b) == sum_points(m, a) + sum_points(m, b),
    decreases b.len(),
{
    if b.len() > 0 {
        lemma_sum_append(m, a, b.drop_last());
        assert((a + b).drop_last() =~= a + b.drop_last());
    } else {
        assert(a + b =~= a);
    }
}

proof fn lemma_sum_insert_le(m: Map<Point, Number>, w: Seq<Point>, q: Point, t: Number)
    requires
        tile_points(t) <= tile_points(m[q]),
    ensures
        sum_points(m.insert(q, t), w) <= sum_points(m, w),
    decreases w.len(),
{
    if w.len() > 0 {
        lemma_sum_insert_le(m, w.drop_last(), q, t);
    }
}

proof fn lemma_rect_inner(m: Map<Point, Number>, max: Point)
    requires
        rect_exact(m, max),
    ensures
        inner_keys(m),
{
}

/// The tile made from `number` is at cell `k` of walk `w`, and at no
/// earlier cell.
pub open spec fn first_at(m: Map<Point, Number>, w: Seq<Point>, target: Option<usize>, k: int) -> bool {
    &&& 0 <= k < w.len()
    &&& m[w[k]].value == target
    &&& forall|j: int| 0 <= j < k ==> m[w[j]].value != target
}

/// Some cell of walk `w` holds `target`.
pub open spec fn walk_has(m: Map<Point, Number>, w: Seq<Point>, target: Option<usize>) -> bool {
    exists|k: int| 0 <= k < w.len() && m[w[k]].value == target
}

impl UpgradeableBoard {
    /// Recounts the points on the board (over the cells, row by row).
    pub fn calc_points(&mut self)
        requires
            old(self).wf(),
            tiles_fit(old(self).board@),
            sum_points(old(self).board@, stair(&old(self).board)) <= usize::MAX,
        ensures
            *final(self) == (UpgradeableBoard { points: sum_points(old(self).board@, stair(&old(self).board)) as usize, ..*old(self) }),
    {
        let total = self.sum_on_board();
        self.points = total;
    }

    fn sum_on_board(&self) -> (r: usize)
        requires
            self.wf(),
            tiles_fit(self.board@),
            sum_points(self.board@, stair(&self.board)) <= usize::MAX,
        ensures
            r == sum_points(self.board@, stair(&self.board)),
    {
        let ghost m = self.board@;
        let ghost w = stair(&self.board);
        proof {
            lemma_rect_inner(m, self.board.max);
            lemma_walk_in_board(m, Point { x: 0, y: 0 }, Step::Staircase, self.board.size());
        }
        let mut it = self.board.iter();
        let mut total: usize = 0;
        let ghost mut visited: Seq<Point> = Seq::empty();
        let mut going = true;
        while going
            invariant
                it.valid(),
                it.on() == &self.board,
                self.wf(),
                tiles_fit(m),
                m == self.board@,
                sum_points(m, w) <= usize::MAX,
                forall|i: int| 0 <= i < w.len() ==> m.contains_key(#[trigger] w[i]),
                visited + it.items() == w,
                !going ==> it.items().len() == 0,
                total == sum_points(m, visited),
            decreases it.items().len() + if going { 1int } else { 0int },
        {
            let ghost items = it.items();
            match it.next() {
                Some(f) => {
                    proof {
                        let p = items[0];
                        assert(w[visited.len() as int] == p);
                        assert(visited.push(p) + items.drop_first() =~= w);
                        lemma_sum_append(m, visited.push(p), items.drop_first());
                        assert(visited.push(p).drop_last() =~= visited);
                        assert(m.contains_key(p));
                    }
                    let v = f.value();
                    total = total + v;
                    proof {
                        visited = visited.push(items[0]);
                    }
                },
                None => {
                    going = false;
                },
            }
        }
        assert(visited =~= w);
        total
    }

    /// Whether some cell holds the tile made from `number`.
    pub fn contains(&self, number: usize) -> (r: bool)
        requires
            self.wf(),
            number >= 2,
            number % 2 == 0,
        ensures
            r == walk_has(self.board@, stair(&self.board), Some(new_exponent(number as nat) as usize)),
    {
        let target = Number::new(number);
        let ghost m = self.board@;
        let ghost w = stair(&self.board);
        proof {
            lemma_rect_inner(m, self.board.max);
        }
        let mut it = self.board.iter();
        let ghost mut seen: nat = 0;
        loop
            invariant
                it.valid(),
                it.on() == &self.board,
                m == self.board@,
                target.value == Some(new_exponent(number as nat) as usize),
                seen <= w.len(),
                w == stair(&self.board),
                w.subrange(seen as int, w.len() as int) == it.items(),
                forall|j: int| 0 <= j < seen ==> m[w[j]].value != target.value,
            decreases it.items().len(),
        {
            let ghost items = it.items();
            match it.next() {
                Some(f) => {
                    proof {
                        assert(w[seen as int] == items[0]);
                        assert(w.subrange((seen + 1) as int, w.len() as int) =~= items.drop_first());
                    }
                    if *f == target {
                        assert(m[w[seen as int]].value == target.value);
                        return true;
                    }
                    proof {
                        seen = seen + 1;
                    }
                },
                None => {
                    proof {
                        assert(seen == w.len());
                        assert(!walk_has(m, w, target.value));
                    }
                    return false;
                },
            }
        }
    }

    /// The cells in walking order.
    fn stair_points(&mut self) -> (r: Vec<Point>)
        requires
            old(self).wf(),
        ensures
            *final(self) == *old(self),
            r@ == stair(&old(self).board),
    {
        proof {
            lemma_rect_inner(self.board@, self.board.max);
        }
        let mut it = self.board.iter_mut();
        let mut out: Vec<Point> = Vec::new();
        let ghost w = stair(&self.board);
        loop
            invariant
                self.wf(),
                *self == *old(self),
                it.step_kind() == Step::Staircase,
                inner_keys(self.board@),
                w == stair(&self.board),
                out@ + it.items(self.board@) == w,
            decreases it.items(self.board@).len(),
        {
            let ghost items = it.items(self.board@);
            match it.next(&self.board) {
                Some(p) => {
                    assert(out@.push(p) + items.drop_first() =~= out@ + items);
                    out.push(p);
                },
                None => {
                    assert(out@ =~= w);
                    return out;
                },
            }
        }
    }

    /// Turns the first cell (row by row) holding the tile made from `num`
    /// into a tile of exponent 0, and on success records the harvest of
    /// `num` (see `harvest_stats`; `nlogn` is `⌊num · log10 num⌋`).
    pub fn harvest_number(&mut self, num: usize, nlogn: usize, points: &mut Points, stats: &mut Stats) -> (found: bool)
        requires
            old(self).wf(),
            num >= 2,
            num % 2 == 0,
            tiles_fit(old(self).board@),
            old(points).amount() + spec_apply(old(points).cost(), num, nlogn) <= usize::MAX,
            old(stats).points + spec_apply(old(points).cost(), num, nlogn) <= usize::MAX,
            sum_points(old(self).board@, stair(&old(self).board)) <= usize::MAX,
        ensures
            final(self).wf(),
            final(self).board.max == old(self).board.max,
            found == walk_has(old(self).board@, stair(&old(self).board), Some(new_exponent(num as nat) as usize)),
            !found ==> *final(self) == *old(self) && *final(points) == *old(points) && *final(stats) == *old(stats),
            found ==> exists|k: int| first_at(old(self).board@, stair(&old(self).board), Some(new_exponent(num as nat) as usize), k)
                && #[trigger] final(self).board@ == old(self).board@.insert(stair(&old(self).board)[k], Number { value: Some(0) })
                && final(self).points == sum_points(final(self).board@, stair(&final(self).board)),
            found ==> final(points).amount() == old(points).amount() + spec_apply(old(points).cost(), num, nlogn)
                && final(stats).points == old(stats).points + spec_apply(old(points).cost(), num, nlogn)
                && final(stats).largest_harvest == (if num > old(stats).largest_harvest { num } else { old(stats).largest_harvest }),
    {
        let target = Number::new(num);
        let ghost m = self.board@;
        let w = self.stair_points();
        proof {
            lemma_walk_in_board(m, Point { x: 0, y: 0 }, Step::Staircase, self.board.size());
        }
        let mut k: usize = 0;
        while k < w.len()
            invariant
                self.wf(),
                *self == *old(self),
                m == self.board@,
                w@ == stair(&self.board),
                forall|i: int| 0 <= i < w@.len() ==> m.contains_key(#[trigger] w@[i]),
                target.value == Some(new_exponent(num as nat) as usize),
                k <= w@.len(),
                forall|j: int| 0 <= j < k ==> m[w@[j]].value != target.value,
                *points == *old(points),
                *stats == *old(stats),
                new_exponent(num as nat) < usize::MAX,
                num >= 2,
                num % 2 == 0,
                tiles_fit(m),
                old(points).amount() + spec_apply(old(points).cost(), num, nlogn) <= usize::MAX,
                old(stats).points + spec_apply(old(points).cost(), num, nlogn) <= usize::MAX,
                sum_points(m, w@) <= usize::MAX,
            decreases w@.len() - k,
        {
            let f = *self.board.get(&w[k]).unwrap();
            if f == target {
                let zero = Number { value: Some(0) };
                self.board.insert(w[k], zero);
                proof {
                    assert(first_at(m, w@, target.value, k as int));
                    assert(m.insert(w@[k as int], zero).dom() =~= m.dom());
                    crate::maze::lemma_walk_keys_only(m, self.board@, Point { x: 0, y: 0 }, Step::Staircase, self.board.size());
                    assert(m.insert(w@[k as int], zero).dom() =~= m.dom());
                    assert forall|p: Point| #[trigger] self.board@.contains_key(p) implies tile_fits(self.board@[p]) by {
                        if p != w@[k as int] {
                            assert(m.contains_key(p));
                        }
                    }
                    assert(self.board@.dom() =~= m.dom());
                    assert(self.wf());
                    vstd::arithmetic::power2::lemma2_to64();
                    vstd::arithmetic::power2::lemma_pow2_pos(new_exponent(num as nat));
                    assert(m[w@[k as int]] == target);
                    assert(tile_points(zero) == 1);
                    assert(tile_points(m[w@[k as int]]) >= 1);
                    lemma_sum_insert_le(m, w@, w@[k as int], zero);
                }
                self.harvest_stats(num, nlogn, points, stats);
                return true;
            }
            k = k + 1;
        }
        false
    }

    /// Records a harvest of `value`: credits it as points (`nlogn` being
    /// `⌊value · log10 value⌋`), keeps the largest harvest, and recounts the
    /// points on the board.
    pub fn harvest_stats(&mut self, value: usize, nlogn: usize, points: &mut Points, stats: &mut Stats)
        requires
            old(self).wf(),
            tiles_fit(old(self).board@),
            sum_points(old(self).board@, stair(&old(self).board)) <= usize::MAX,
            old(points).amount() + spec_apply(old(points).cost(), value, nlogn) <= usize::MAX,
            old(stats).points + spec_apply(old(points).cost(), value, nlogn) <= usize::MAX,
        ensures
            *final(self) == (UpgradeableBoard { points: sum_points(old(self).board@, stair(&old(self).board)) as usize, ..*old(self) }),
            final(points).amount() == old(points).amount() + spec_apply(old(points).cost(), value, nlogn),
            final(points).cost() == old(points).cost(),
            final(stats).points == old(stats).points + spec_apply(old(points).cost(), value, nlogn),
            final(stats).largest_harvest == (if value > old(stats).largest_harvest { value } else { old(stats).largest_harvest }),
            final(stats).enable == old(stats).enable,
    {
        points.add(value, nlogn, stats);
        stats.harvest(value);
        self.calc_points();
    }
}

/// `p` holds a tile worth `v`, and no tile on the board is worth more.
pub open spec fn is_largest(m: Map<Point, Number>, p: Point, v: usize) -> bool {
    &&& m.contains_key(p)
    &&& tile_points(m[p]) == v
    &&& forall|q: Point| #[trigger] m.contains_key(q) ==> tile_points(m[q]) <= v
}

/// Harvesting any tile of the board would not overflow the points or the
/// statistics.
pub open spec fn credit_fits(m: Map<Point, Number>, points: Points, stats: Stats, nlogn: usize) -> bool {
    forall|p: Point| #[trigger] m.contains_key(p) ==> {
        &&& points.amount() + spec_apply(points.cost(), tile_points(m[p]) as usize, nlogn) <= usize::MAX
        &&& stats.points + spec_apply(points.cost(), tile_points(m[p]) as usize, nlogn) <= usize::MAX
    }
}

/// After placing `field`: either nothing changed, or `field` went to an
/// empty cell and its points were added.
pub open spec fn placed(m: Map<Point, Number>, pts: usize, m2: Map<Point, Number>, pts2: usize, field: Number) -> bool {
    ||| m2 == m && pts2 == pts
    ||| pts2 == pts + tile_points(field) && exists|p: Point| #[trigger] m.contains_key(p)
        && m[p].value is None && m2 == m.insert(p, field)
}

impl UpgradeableBoard {
    /// A cell holding the largest tile, with that tile's points; `None` on a
    /// board without cells.
    fn find_largest(&self) -> (r: Option<(Point, usize)>)
        requires
            self.board.wf(),
            tiles_fit(self.board@),
        ensures
            r is None <==> self.board@.dom() =~= Set::empty(),
            r matches Some((p, v)) ==> is_largest(self.board@, p, v),
    {
        let ghost m = self.board@;
        let n = self.board.len();
        if n == 0 {
            proof {
                assert forall|q: Point| !m.contains_key(q) by {
                    if m.contains_key(q) {
                        self.board.lemma_key_stored(q);
                    }
                }
            }
            return None;
        }
        let p0 = self.board.point_at(0);
        let mut best: Point = p0;
        let mut bestv: usize = self.board.get(&p0).unwrap().value();
        let mut i: usize = 1;
        while i < n
            invariant
                self.board.wf(),
                self.board@ == m,
                n == self.board.size(),
                tiles_fit(m),
                1 <= i <= n,
                m.contains_key(best),
                tile_points(m[best]) == bestv,
                forall|j: int| 0 <= j < i ==> tile_points(m[#[trigger] self.board.board@[j].0]) <= bestv,
            decreases n - i,
        {
            let p = self.board.point_at(i);
            let v = self.board.get(&p).unwrap().value();
            if v >= bestv {
                best = p;
                bestv = v;
            }
            i = i + 1;
        }
        proof {
            assert forall|q: Point| #[trigger] m.contains_key(q) implies tile_points(m[q]) <= bestv by {
                self.board.lemma_key_stored(q);
                let j = choose|j: int| 0 <= j < self.board.size() && self.board.board@[j].0 == q;
                assert(tile_points(m[self.board.board@[j].0]) <= bestv);
            }
        }
        Some((best, bestv))
    }

    /// The points of the largest tile on the board; `None` on a board
    /// without cells.
    pub fn largest(&self) -> (r: Option<usize>)
        requires
            self.wf(),
            tiles_fit(self.board@),
        ensures
            r is None <==> self.board@.dom() =~= Set::empty(),
            r matches Some(v) ==> exists|p: Point| #[trigger] self.board@.contains_key(p) && is_largest(self.board@, p, v),
    {
        match self.find_largest() {
            Some((p, v)) => {
                assert(is_largest(self.board@, p, v));
                Some(v)
            },
            None => None,
        }
    }

    /// Empties a cell holding the largest tile and records its harvest (see
    /// `harvest_stats`; `nlogn` is `⌊v · log10 v⌋` for the largest tile's
    /// points `v`, as `largest` reports them); reports `v`, or `None` on a
    /// board without cells, which is left as it is.
    pub fn harvest(&mut self, nlogn: usize, points: &mut Points, stats: &mut Stats) -> (r: Option<usize>)
        requires
            old(self).wf(),
            tiles_fit(old(self).board@),
            sum_points(old(self).board@, stair(&old(self).board)) <= usize::MAX,
            credit_fits(old(self).board@, *old(points), *old(stats), nlogn),
        ensures
            final(self).wf(),
            final(self).board.max == old(self).board.max,
            final(self).scientific_notation == old(self).scientific_notation,
            final(self).combine_fn == old(self).combine_fn,
            r is None <==> old(self).board@.dom() =~= Set::empty(),
            r is None ==> *final(self) == *old(self) && *final(points) == *old(points) && *final(stats) == *old(stats),
            r matches Some(v) ==> exists|p: Point| #[trigger] old(self).board@.contains_key(p) && is_largest(old(self).board@, p, v)
                && final(self).board@ == old(self).board@.insert(p, Number { value: None }),
            r matches Some(v) ==> {
                &&& final(self).points == sum_points(final(self).board@, stair(&final(self).board))
                &&& final(points).amount() == old(points).amount() + spec_apply(old(points).cost(), v, nlogn)
                &&& final(points).cost() == old(points).cost()
                &&& final(stats).points == old(stats).points + spec_apply(old(points).cost(), v, nlogn)
                &&& final(stats).largest_harvest == (if v > old(stats).largest_harvest { v } else { old(stats).largest_harvest })
                &&& final(stats).enable == old(stats).enable
            },
    {
        let ghost m = self.board@;
        match self.find_largest() {
            None => None,
            Some((best, bestv)) => {
                let empty = Number::none();
                self.board.insert(best, empty);
                proof {
                    assert(self.board@.dom() =~= m.dom());
                    crate::maze::lemma_walk_keys_only(m, self.board@, Point { x: 0, y: 0 }, Step::Staircase, self.board.size());
                    assert forall|p: Point| #[trigger] self.board@.contains_key(p) implies tile_fits(self.board@[p]) by {
                        if p != best {
                            assert(m.contains_key(p));
                        }
                    }
                    lemma_sum_insert_le(m, stair(&self.board), best, empty);
                    assert(is_largest(m, best, bestv));
                    assert(self.board@ == m.insert(best, empty));
                }
                self.harvest_stats(bestv, nlogn, points, stats);
                Some(bestv)
            },
        }
    }

    /// Places the tile made from `number` on a random empty cell (up to ten
    /// tries) and adds its points; reports the points added. On a board of
    /// empty cells the tile is always placed.
    pub fn random_place(&mut self, number: usize) -> (r: usize)
        requires
            old(self).wf(),
            number == 0 || (number >= 2 && number % 2 == 0),
            old(self).board.max.x > 0,
            old(self).board.max.y > 0,
            tile_fits(spec_from_usize(number)),
            old(self).points + tile_points(spec_from_usize(number)) <= usize::MAX,
        ensures
            final(self).wf(),
            final(self).board.max == old(self).board.max,
            final(self).scientific_notation == old(self).scientific_notation,
            final(self).combine_fn == old(self).combine_fn,
            placed(old(self).board@, old(self).points, final(self).board@, final(self).points, spec_from_usize(number)),
            final(self).points == old(self).points + r,
            all_empty(old(self).board@, old(self).board.max) ==> r == tile_points(spec_from_usize(number))
                && exists|p: Point| #[trigger] in_area(p, old(self).board.max)
                    && final(self).board@ == old(self).board@.insert(p, spec_from_usize(number)),
    {
        let field = Number::from_usize(number);
        let ghost m = self.board@;
        let value = self.board.random_empty_replace(field);
        proof {
            if value != 0 || self.board@ != m {
                let p = choose|p: Point| #[trigger] m.contains_key(p) && m[p].value is None
                    && self.board@ == m.insert(p, field);
                assert(self.board@.dom() =~= m.dom());
            }
            if all_empty(m, self.board.max) {
                let p = choose|p: Point| #[trigger] m.contains_key(p) && p.x < self.board.max.x
                    && p.y < self.board.max.y && self.board@ == m.insert(p, field);
                assert(in_area(p, self.board.max));
            }
        }
        self.points = self.points + value;
        value
    }

    /// Moves the board in a random direction, then places a 4.
    pub fn mv(&mut self)
        requires
            old(self).wf(),
            board_bounded(old(self).board@, old(self).board.max, old(self).combine_fn),
            old(self).board.max.x > 0,
            old(self).board.max.y > 0,
            old(self).points + 4 <= usize::MAX,
        ensures
            final(self).wf(),
            final(self).board.max == old(self).board.max,
            final(self).scientific_notation == old(self).scientific_notation,
            final(self).combine_fn == old(self).combine_fn,
            exists|d: Direction, r: usize, mid: Map<Point, Number>| d != Direction::Nowhere
                && #[trigger] played(old(self).board@, old(self).board.max, d, old(self).combine_fn, mid, r)
                && placed(mid, old(self).points, final(self).board@, final(self).points, Number { value: Some(2) }),
    {
        let r = self.board.play_random(self.combine_fn);
        let ghost mid = self.board@;
        proof {
            four_is_two();
        }
        self.random_place(4);
    }

    /// Moves the board in direction `direction`, then places a 4; reports
    /// the points that placing added.
    pub fn play(&mut self, direction: Direction) -> (r: usize)
        requires
            old(self).wf(),
            board_bounded(old(self).board@, old(self).board.max, old(self).combine_fn),
            old(self).board.max.x > 0,
            old(self).board.max.y > 0,
            old(self).points + 4 <= usize::MAX,
        ensures
            final(self).wf(),
            final(self).board.max == old(self).board.max,
            final(self).scientific_notation == old(self).scientific_notation,
            final(self).combine_fn == old(self).combine_fn,
            exists|moved: usize, mid: Map<Point, Number>|
                #[trigger] played(old(self).board@, old(self).board.max, direction, old(self).combine_fn, mid, moved)
                && placed(mid, old(self).points, final(self).board@, final(self).points, Number { value: Some(2) }),
            final(self).points == old(self).points + r,
    {
        let moved = self.board.play(direction, self.combine_fn);
        proof {
            four_is_two();
        }
        self.random_place(4)
    }

    /// Puts the tiles on the cells in a random order.
    pub fn shuffle(&mut self)
        requires
            old(self).wf(),
        ensures
            final(self).wf(),
            final(self).board.max == old(self).board.max,
            final(self).points == old(self).points,
            final(self).scientific_notation == old(self).scientific_notation,
            final(self).combine_fn == old(self).combine_fn,
            exists|vals: Seq<Number>| vals.len() == stair(&old(self).board).len()
                && vals.to_multiset() == line_values(old(self).board@, stair(&old(self).board)).to_multiset()
                && #[trigger] final(self).board@ == write_line(old(self).board@, stair(&old(self).board), vals, vals.len()),
    {
        let ghost m = self.board@;
        let w = self.stair_points();
        proof {
            lemma_walk_in_board(m, Point { x: 0, y: 0 }, Step::Staircase, self.board.size());
        }
        let mut values: Vec<Number> = Vec::new();
        let mut i: usize = 0;
        while i < w.len()
            invariant
                self.wf(),
                *self == *old(self),
                m == self.board@,
                forall|k: int| 0 <= k < w@.len() ==> m.contains_key(#[trigger] w@[k]),
                i <= w@.len(),
                values@ =~= line_values(m, w@).take(i as int),
            decreases w@.len() - i,
        {
            let v = *self.board.get(&w[i]).unwrap();
            values.push(v);
            i = i + 1;
        }
        assert(values@ =~= line_values(m, w@));
        shuffle_tiles(&mut values);
        let ghost vals = values@;
        let mut j: usize = 0;
        while j < w.len()
            invariant
                self.board.wf(),
                self.board.max == old(self).board.max,
                self.points == old(self).points,
                self.scientific_notation == old(self).scientific_notation,
                self.combine_fn == old(self).combine_fn,
                values@ == vals,
                vals.len() == w@.len(),
                j <= w@.len(),
                self.board@ == write_line(m, w@, vals, j as nat),
            decreases w@.len() - j,
        {
            self.board.insert(w[j], values[j]);
            j = j + 1;
        }
        proof {
            lemma_write_line_dom(m, w@, vals, w@.len());
        }
    }
}

/// The tile made from 4 has exponent 2.
proof fn four_is_two()
    ensures
        spec_from_usize(4) == (Number { value: Some(2) }),
        tile_points(Number { value: Some(2) }) == 4,
{
    assert(spec_trailing_zeros(1) == 0);
    assert(spec_trailing_zeros(2) == 1);
    assert(spec_trailing_zeros(4) == 2);
    vstd::arithmetic::power2::lemma2_to64();
}

impl Default for UpgradeableBoard {
    /// The board of a new game (see `UpgradeableBoard::new`).
    fn default() -> (r: Self)
        ensures
            r.wf(),
            r.board.max == (Point { x: 4, y: 4 }),
            r.board@ == resized(Map::empty(), Point { x: 0, y: 0 }, Point { x: 4, y: 4 }).insert(
                Point { x: 0, y: 0 }, Number { value: Some(1) }),
            r.points == 2,
            !r.scientific_notation,
            r.combine_fn == CombineFn::Standard,
    {
        UpgradeableBoard::new()
    }
}

/// An event for the game screen.
#[derive(Clone, Copy, Debug, PartialEq, Eq, Structural)]
pub enum Msg {
    /// A key was pressed: its key code.
    Key(u32),
    /// The board changed elsewhere.
    Board,
}

/// The direction a key code stands for: the arrow keys, or a, w, d, s.
pub open spec fn code_direction(code: u32) -> Direction {
    if code == 37 || code == 65 {
        Direction::Left
    } else if code == 38 || code == 87 {
        Direction::Up
    } else if code == 39 || code == 68 {
        Direction::Right
    } else if code == 40 || code == 83 {
        Direction::Down
    } else {
        Direction::Nowhere
    }
}

/// The direction a key code stands for.
pub fn code_to_direction(code: u32) -> (d: Direction)
    ensures
        d == code_direction(code),
{
    match code {
        37 | 65 => Direction::Left,
        38 | 87 => Direction::Up,
        39 | 68 => Direction::Right,
        40 | 83 => Direction::Down,
        _ => Direction::Nowhere,
    }
}

impl UpgradeableBoard {
    /// Whether a move can be played on the board (see `play`).
    pub open spec fn playable(&self) -> bool {
        &&& self.wf()
        &&& board_bounded(self.board@, self.board.max, self.combine_fn)
        &&& self.board.max.x > 0
        &&& self.board.max.y > 0
        &&& self.points + 4 <= usize::MAX
    }

    /// Handles an event of the game screen: a key plays the board in its
    /// direction; a change elsewhere only asks for drawing. The screen is
    /// always drawn again.
    pub fn update(&mut self, msg: Msg) -> (redraw: bool)
        requires
            msg is Key ==> old(self).playable(),
        ensures
            redraw,
            msg is Board ==> *final(self) == *old(self),
            msg matches Msg::Key(code) ==> {
                &&& final(self).wf()
                &&& final(self).board.max == old(self).board.max
                &&& final(self).scientific_notation == old(self).scientific_notation
                &&& final(self).combine_fn == old(self).combine_fn
                &&& exists|moved: usize, mid: Map<Point, Number>|
                    #[trigger] played(old(self).board@, old(self).board.max, code_direction(code), old(self).combine_fn, mid, moved)
                    && placed(mid, old(self).points, final(self).board@, final(self).points, Number { value: Some(2) })
            },
    {
        match msg {
            Msg::Key(code) => {
                let direction = code_to_direction(code);
                self.play(direction);
            },
            Msg::Board => {},
        }
        true
    }
}

impl UpgradeableBoard {
    /// Sizes the board from the sliders that widen and heighten it: each
    /// step adds to the 4 cells a side starts with.
    pub fn fit_sliders(&mut self, x: usize, y: usize)
        requires
            old(self).wf(),
            x + 4 <= usize::MAX,
            y + 4 <= usize::MAX,
        ensures
            final(self).wf(),
            final(self).board.max == (Point { x: (x + 4) as usize, y: (y + 4) as usize }),
            final(self).board@ == resized(old(self).board@, old(self).board.max, Point { x: (x + 4) as usize, y: (y + 4) as usize }),
            final(self).points == old(self).points,
            final(self).scientific_notation == old(self).scientific_notation,
            final(self).combine_fn == old(self).combine_fn,
    {
        self.set_size(x + 4, y + 4);
    }
}

impl UpgradeableBoard {
    /// Whether a move can be played on the board (see `playable`).
    pub fn can_play(&self) -> (r: bool)
        requires
            self.wf(),
        ensures
            r == self.playable(),
    {
        let max = self.board.max;
        if max.x == 0 || max.y == 0 || self.points > usize::MAX - 4 {
            return false;
        }
        let s: u128 = max.x as u128 + max.y as u128;
        let limit: u128 = usize::MAX as u128;
        if let CombineFn::Bonus(_, a) = self.combine_fn {
            if a as u128 + s >= limit {
                return false;
            }
        }
        let n = self.board.board.len();
        let mut i: usize = 0;
        while i < n
            invariant
                self.wf(),
                n == self.board.board@.len(),
                i <= n,
                s == max.x + max.y,
                limit == usize::MAX,
                max == self.board.max,
                forall|k: int| 0 <= k < i ==> ((#[trigger] self.board.board@[k]).1.value matches Some(e) ==> e + s < limit),
            decreases n - i,
        {
            if let Some(e) = self.board.board[i].1.value {
                if e as u128 + s >= limit {
                    proof {
                        lemma_assoc_at(self.board.board@, i as int);
                    }
                    return false;
                }
            }
            i = i + 1;
        }
        proof {
            assert forall|p: Point| #[trigger] self.board@.contains_key(p) implies (self.board@[p].value matches Some(e) ==> e + max.x + max.y < usize::MAX) by {
                self.board.lemma_key_stored(p);
                let k = choose|k: int| 0 <= k < self.board.size() && self.board.board@[k].0 == p;
                lemma_assoc_at(self.board.board@, k);
            }
        }
        true
    }
}

impl UpgradeableBoard {
    /// Whether every tile's points fit in a `usize`, and so does their sum
    /// over the board.
    pub fn points_fit(&self) -> (r: bool)
        requires
            self.wf(),
        ensures
            r == (tiles_fit(self.board@) && sum_points(self.board@, stair(&self.board)) <= usize::MAX),
    {
        let ghost m = self.board@;
        let n = self.board.board.len();
        let mut i: usize = 0;
        while i < n
            invariant
                self.wf(),
                m == self.board@,
                n == self.board.board@.len(),
                i <= n,
                forall|k: int| 0 <= k < i ==> tile_fits(#[trigger] self.board.board@[k].1),
            decreases n - i,
        {
            if let Some(e) = self.board.board[i].1.value {
                if e >= usize::BITS as usize {
                    proof {
                        lemma_assoc_at(self.board.board@, i as int);
                    }
                    return false;
                }
            }
            i = i + 1;
        }
        proof {
            assert forall|p: Point| #[trigger] m.contains_key(p) implies tile_fits(m[p]) by {
                self.board.lemma_key_stored(p);
                let k = choose|k: int| 0 <= k < self.board.size() && self.board.board@[k].0 == p;
                lemma_assoc_at(self.board.board@, k);
            }
        }
        let ghost w = stair(&self.board);
        proof {
            lemma_rect_inner(m, self.board.max);
            lemma_walk_in_board(m, Point { x: 0, y: 0 }, Step::Staircase, self.board.size());
        }
        let mut it = self.board.iter();
        let mut total: u128 = 0;
        let ghost mut visited: Seq<Point> = Seq::empty();
        loop
            invariant
                it.valid(),
                it.on() == &self.board,
                self.wf(),
                tiles_fit(m),
                m == self.board@,
                w == stair(&self.board),
                forall|j: int| 0 <= j < w.len() ==> m.contains_key(#[trigger] w[j]),
                visited + it.items() == w,
                total == sum_points(m, visited),
                total <= usize::MAX,
            decreases it.items().len(),
        {
            let ghost items = it.items();
            match it.next() {
                Some(f) => {
                    proof {
                        let p = items[0];
                        assert(w[visited.len() as int] == p);
                        assert(visited.push(p) + items.drop_first() =~= w);
                        assert(visited.push(p).drop_last() =~= visited);
                        assert(m.contains_key(p));
                    }
                    let v = f.value();
                    total = total + v as u128;
                    proof {
                        visited = visited.push(items[0]);
                    }
                    if total > usize::MAX as u128 {
                        proof {
                            lemma_sum_append(m, visited, it.items());
                        }
                        return false;
                    }
                },
                None => {
                    assert(visited =~= w);
                    return true;
                },
            }
        }
    }
}
} // verus!
