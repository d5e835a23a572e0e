use vstd::prelude::*;

use crate::random::random_below;

verus! {

/// A cell coordinate: column `x`, row `y`.
#[derive(Clone, Copy, Debug, PartialEq, Eq, Hash, Structural)]
pub struct Point {
    pub x: usize,
    pub y: usize,
}

/// A direction of movement.
#[derive(Clone, Copy, Debug, PartialEq, Eq, Hash, Structural)]
pub enum Direction {
    Left,
    Up,
    Right,
    Down,
    Nowhere,
}

/// Column to the left, wrapping from 0 to `usize::MAX`.
pub open spec fn dec_wrap(v: usize) -> usize {
    if v == 0 { usize::MAX } else { (v - 1) as usize }
}

pub open spec fn spec_right(p: Point) -> Point {
    Point { x: (p.x + 1) as usize, y: p.y }
}

pub open spec fn spec_left(p: Point) -> Point {
    Point { x: dec_wrap(p.x), y: p.y }
}

pub open spec fn spec_down(p: Point) -> Point {
    Point { x: p.x, y: (p.y + 1) as usize }
}

pub open spec fn spec_up(p: Point) -> Point {
    Point { x: p.x, y: dec_wrap(p.y) }
}

/// Whether moving one step in `d` from `p` stays within `usize`.
pub open spec fn can_go(p: Point, d: Direction) -> bool {
    match d {
        Direction::Right => p.x < usize::MAX,
        Direction::Down => p.y < usize::MAX,
        _ => true,
    }
}

/// One step from `p` in direction `d`.
pub open spec fn spec_go(p: Point, d: Direction) -> Point {
    match d {
        Direction::Left => spec_left(p),
        Direction::Right => spec_right(p),
        Direction::Up => spec_up(p),
        Direction::Down => spec_down(p),
        Direction::Nowhere => p,
    }
}

pub open spec fn spec_opposite(d: Direction) -> Direction {
    match d {
        Direction::Left => Direction::Right,
        Direction::Right => Direction::Left,
        Direction::Up => Direction::Down,
        Direction::Down => Direction::Up,
        Direction::Nowhere => Direction::Nowhere,
    }
}

pub open spec fn spec_direction_from_index(i: usize) -> Direction {
    if i == 0 {
        Direction::Left
    } else if i == 1 {
        Direction::Up
    } else if i == 2 {
        Direction::Right
    } else {
        Direction::Down
    }
}

impl Point {
    /// A point chosen uniformly at random with `x < max_x` and `y < max_y`.
    pub fn random(max_x: usize, max_y: usize) -> (r: Point)
        requires
            max_x > 0,
            max_y > 0,
        ensures
            r.x < max_x,
            r.y < max_y,
    {
        let x = random_below(max_x);
        let y = random_below(max_y);
        Point::new(x, y)
    }

    pub fn new(x: usize, y: usize) -> (r: Point)
        ensures
            r == (Point { x, y }),
    {
        Point { x, y }
    }

    pub fn right(self) -> (r: Self)
        requires
            self.x < usize::MAX,
        ensures
            r == spec_right(self),
    {
        Point::new(self.x + 1, self.y)
    }

    pub fn left(self) -> (r: Self)
        ensures
            r == spec_left(self),
    {
        Point::new(self.x.wrapping_sub(1), self.y)
    }

    pub fn down(self) -> (r: Self)
        requires
            self.y < usize::MAX,
        ensures
            r == spec_down(self),
    {
        Point::new(self.x, self.y + 1)
    }

    pub fn up(self) -> (r: Self)
        ensures
            r == spec_up(self),
    {
        Point::new(self.x, self.y.wrapping_sub(1))
    }

    /// One step in direction `d`; `Nowhere` stays put.
    pub fn go(self, d: Direction) -> (r: Self)
        requires
            can_go(self, d),
        ensures
            r == spec_go(self, d),
    {
        match d {
            Direction::Left => self.left(),
            Direction::Right => self.right(),
            Direction::Up => self.up(),
            Direction::Down => self.down(),
            Direction::Nowhere => self,
        }
    }
}

impl Direction {
    /// The reverse direction; `Nowhere` is its own opposite.
    pub fn opposite(self) -> (r: Self)
        ensures
            r == spec_opposite(self),
    {
        match self {
            Direction::Left => Direction::Right,
            Direction::Right => Direction::Left,
            Direction::Up => Direction::Down,
            Direction::Down => Direction::Up,
            Direction::Nowhere => Direction::Nowhere,
        }
    }

    /// The direction numbered `i`: 0 left, 1 up, 2 right, 3 down.
    pub fn from_index(i: usize) -> (r: Self)
        requires
            i < 4,
        ensures
            r == spec_direction_from_index(i),
    {
        if i == 0 {
            Direction::Left
        } else if i == 1 {
            Direction::Up
        } else if i == 2 {
            Direction::Right
        } else {
            Direction::Down
        }
    }
}

/// Opposite directions undo each other.
pub proof fn lemma_opposite_involutive(d: Direction)
    ensures
        spec_opposite(spec_opposite(d)) == d,
{
}

/// A step left undoes a step right.
pub proof fn lemma_left_undoes_right(p: Point)
    requires
        p.x < usize::MAX,
    ensures
        spec_left(spec_right(p)) == p,
{
}

/// A step up undoes a step down.
pub proof fn lemma_up_undoes_down(p: Point)
    requires
        p.y < usize::MAX,
    ensures
        spec_up(spec_down(p)) == p,
{
}

// ---------------------------------------------------------------------------
// Association list model of a board.

pub open spec fn has_key<T>(s: Seq<(Point, T)>, p: Point) -> bool {
    exists|i: int| 0 <= i < s.len() && s[i].0 == p
}

pub open spec fn index_of<T>(s: Seq<(Point, T)>, p: Point) -> int {
    choose|i: int| 0 <= i < s.len() && s[i].0 == p
}

pub open spec fn keys_distinct<T>(s: Seq<(Point, T)>) -> bool {
    forall|i: int, j: int| 0 <= i < s.len() && 0 <= j < s.len() && i != j ==> s[i].0 != s[j].0
}

pub open spec fn assoc_map<T>(s: Seq<(Point, T)>) -> Map<Point, T> {
    Map::new(|p: Point| has_key(s, p), |p: Point| s[index_of(s, p)].1)
}

/// The cell stored at position `i` is the board's cell at its point.
pub proof fn lemma_assoc_at<T>(s: Seq<(Point, T)>, i: int)
    requires
        keys_distinct(s),
        0 <= i < s.len(),
    ensures
        assoc_map(s).contains_key(s[i].0),
        assoc_map(s)[s[i].0] == s[i].1,
{
    assert(has_key(s, s[i].0));
    let j = index_of(s, s[i].0);
    assert(s[j].0 == s[i].0);
}

proof fn lemma_assoc_update<T>(s: Seq<(Point, T)>, i: int, v: T)
    requires
        keys_distinct(s),
        0 <= i < s.len(),
    ensures
        keys_distinct(s.update(i, (s[i].0, v))),
        assoc_map(s.update(i, (s[i].0, v))) =~= assoc_map(s).insert(s[i].0, v),
{
    let t = s.update(i, (s[i].0, v));
    assert forall|p: Point| #[trigger] has_key(t, p) == (has_key(s, p) || p == s[i].0) by {
        if has_key(s, p) {
            let k = choose|k: int| 0 <= k < s.len() && s[k].0 == p;
            assert(t[k].0 == p);
        }
        if has_key(t, p) {
            let k = choose|k: int| 0 <= k < t.len() && t[k].0 == p;
            assert(s[k].0 == p);
        }
        if p == s[i].0 {
            assert(t[i].0 == p);
        }
    }
    assert forall|p: Point| #[trigger] assoc_map(t).contains_key(p) implies assoc_map(t)[p]
        == assoc_map(s).insert(s[i].0, v)[p] by {
        let k = index_of(t, p);
        assert(t[k].0 == p);
        if p == s[i].0 {
            assert(k == i);
        } else {
            lemma_assoc_at(s, k);
        }
    }
}

proof fn lemma_assoc_push<T>(s: Seq<(Point, T)>, p: Point, v: T)
    requires
        keys_distinct(s),
        !has_key(s, p),
    ensures
        keys_distinct(s.push((p, v))),
        assoc_map(s.push((p, v))) =~= assoc_map(s).insert(p, v),
{
    let t = s.push((p, v));
    assert forall|q: Point| #[trigger] has_key(t, q) == (has_key(s, q) || q == p) by {
        if has_key(s, q) {
            let k = choose|k: int| 0 <= k < s.len() && s[k].0 == q;
            assert(t[k].0 == q);
        }
        if has_key(t, q) {
            let k = choose|k: int| 0 <= k < t.len() && t[k].0 == q;
            if k < s.len() {
                assert(s[k].0 == q);
            }
        }
        if q == p {
            assert(t[s.len() as int].0 == q);
        }
    }
    assert(keys_distinct(t)) by {
        assert forall|i: int, j: int| 0 <= i < t.len() && 0 <= j < t.len() && i != j implies t[i].0
            != t[j].0 by {
            if i == s.len() {
                assert(s[j].0 == t[j].0);
            } else if j == s.len() {
                assert(s[i].0 == t[i].0);
            }
        }
    }
    assert forall|q: Point| #[trigger] assoc_map(t).contains_key(q) implies assoc_map(t)[q]
        == assoc_map(s).insert(p, v)[q] by {
        let k = index_of(t, q);
        assert(t[k].0 == q);
        if q == p {
            lemma_assoc_at(t, s.len() as int);
        } else {
            assert(k < s.len());
            lemma_assoc_at(s, k);
        }
    }
}

proof fn lemma_assoc_remove<T>(s: Seq<(Point, T)>, i: int)
    requires
        keys_distinct(s),
        0 <= i < s.len(),
    ensures
        keys_distinct(s.remove(i)),
        assoc_map(s.remove(i)) =~= assoc_map(s).remove(s[i].0),
{
    let t = s.remove(i);
    let p = s[i].0;
    assert forall|q: Point| #[trigger] has_key(t, q) == (has_key(s, q) && q != p) by {
        if has_key(t, q) {
            let k = choose|k: int| 0 <= k < t.len() && t[k].0 == q;
            if k < i {
                assert(s[k].0 == q);
            } else {
                assert(s[k + 1].0 == q);
            }
        }
        if has_key(s, q) && q != p {
            let k = choose|k: int| 0 <= k < s.len() && s[k].0 == q;
            if k < i {
                assert(t[k].0 == q);
            } else {
                assert(t[k - 1].0 == q);
            }
        }
    }
    assert(keys_distinct(t)) by {
        assert forall|a: int, b: int| 0 <= a < t.len() && 0 <= b < t.len() && a != b implies t[a].0
            != t[b].0 by {
            let a2 = if a < i { a } else { a + 1 };
            let b2 = if b < i { b } else { b + 1 };
            assert(t[a] == s[a2]);
            assert(t[b] == s[b2]);
        }
    }
    assert forall|q: Point| #[trigger] assoc_map(t).contains_key(q) implies assoc_map(t)[q]
        == assoc_map(s).remove(p)[q] by {
        let k = index_of(t, q);
        assert(t[k].0 == q);
        let k2 = if k < i { k } else { k + 1 };
        assert(t[k] == s[k2]);
        lemma_assoc_at(s, k2);
        lemma_assoc_at(t, k);
    }
}

/// How a board walk moves from one cell to the next.
#[derive(Clone, Copy, Debug, PartialEq, Eq, Structural)]
pub enum Step {
    /// Row by row: right along a row, then to the start of the next row.
    Staircase,
    /// Always one step in the given direction.
    Toward(Direction),
}

/// The cell after `p` in a walk of kind `s` over the cells of `m`.
pub open spec fn next_cell<T>(m: Map<Point, T>, p: Point, s: Step) -> Point {
    match s {
        Step::Staircase => if m.contains_key(spec_right(p)) {
            spec_right(p)
        } else if m.contains_key(Point { x: 0, y: (p.y + 1) as usize }) {
            Point { x: 0, y: (p.y + 1) as usize }
        } else {
            spec_right(p)
        },
        Step::Toward(d) => spec_go(p, d),
    }
}

/// Whether the step after `p` can be computed without overflow.
pub open spec fn can_step(p: Point, s: Step) -> bool {
    match s {
        Step::Staircase => p.x < usize::MAX && p.y < usize::MAX,
        Step::Toward(d) => can_go(p, d),
    }
}

/// The cells visited by a walk of kind `s` from `p`, as long as cells are
/// present, at most `fuel` of them.
pub open spec fn walk<T>(m: Map<Point, T>, p: Point, s: Step, fuel: nat) -> Seq<Point>
    decreases fuel,
{
    if fuel == 0 || !m.contains_key(p) {
        Seq::empty()
    } else {
        seq![p] + walk(m, next_cell(m, p, s), s, (fuel - 1) as nat)
    }
}

/// The order in which `Board::points` lists cells: along a row while cells
/// are present, jumping to the start of the next row at a gap.
pub open spec fn points_walk<T>(m: Map<Point, T>, p: Point, fuel: nat) -> Seq<Point>
    decreases fuel,
{
    if fuel == 0 {
        Seq::empty()
    } else if m.contains_key(p) {
        seq![p] + points_walk(m, spec_right(p), (fuel - 1) as nat)
    } else if m.contains_key(Point { x: 0, y: (p.y + 1) as usize }) {
        let q = Point { x: 0, y: (p.y + 1) as usize };
        seq![q] + points_walk(m, spec_right(q), (fuel - 1) as nat)
    } else {
        Seq::empty()
    }
}

/// No cell sits on the last column or row index, so stepping right or down
/// from a cell never overflows.
pub open spec fn inner_keys<T>(m: Map<Point, T>) -> bool {
    forall|p: Point| #[trigger] m.contains_key(p) ==> p.x < usize::MAX && p.y < usize::MAX
}

/// Number of consecutive lines `0, 1, ...` whose first cell (`(0, k)` for
/// rows, `(k, 0)` for columns) is present, at most `fuel`.
pub open spec fn line_count<T>(m: Map<Point, T>, rows: bool, k: nat, fuel: nat) -> nat
    decreases fuel,
{
    let p = if rows { Point { x: 0, y: k as usize } } else { Point { x: k as usize, y: 0 } };
    if fuel == 0 || k > usize::MAX || !m.contains_key(p) {
        0
    } else {
        1 + line_count(m, rows, k + 1, (fuel - 1) as nat)
    }
}

/// A sparse board: cells at points, each holding a `T`, and the extent
/// `max` of the playing area.
pub struct Board<T> {
    pub board: Vec<(Point, T)>,
    pub max: Point,
}

impl<T> View for Board<T> {
    type V = Map<Point, T>;

    open spec fn view(&self) -> Map<Point, T> {
        assoc_map(self.board@)
    }
}

impl<T> Board<T> {
    /// Internal consistency: each point has at most one cell.
    pub open spec fn wf(&self) -> bool {
        keys_distinct(self.board@)
    }

    /// Number of cells on the board.
    pub open spec fn size(&self) -> nat {
        self.board@.len()
    }

    /// An empty board with the given extent.
    pub fn new(max: Point) -> (r: Self)
        ensures
            r.wf(),
            r@ == Map::<Point, T>::empty(),
            r.max == max,
            r.size() == 0,
    {
        let r = Board { max, board: Vec::new() };
        assert(r@ =~= Map::<Point, T>::empty());
        r
    }

    /// Number of cells on the board.
    pub fn len(&self) -> (r: usize)
        ensures
            r == self.size(),
    {
        self.board.len()
    }

    /// Position of `p` in the cell list, if present.
    fn find(&self, p: &Point) -> (r: Option<usize>)
        requires
            self.wf(),
        ensures
            match r {
                Some(i) => i < self.board@.len() && self.board@[i as int].0 == *p,
                None => !has_key(self.board@, *p),
            },
            r is Some <==> self@.contains_key(*p),
    {
        let mut i: usize = 0;
        while i < self.board.len()
            invariant
                i <= self.board@.len(),
                forall|k: int| 0 <= k < i ==> self.board@[k].0 != *p,
            decreases self.board@.len() - i,
        {
            if self.board[i].0 == *p {
                return Some(i);
            }
            i = i + 1;
        }
        None
    }

    /// Puts `v` at `point`, replacing what was there.
    pub fn insert(&mut self, point: Point, v: T)
        requires
            old(self).wf(),
        ensures
            final(self).wf(),
            final(self)@ == old(self)@.insert(point, v),
            final(self).max == old(self).max,
            final(self).size() == old(self).size() + if old(self)@.contains_key(point) { 0int } else { 1int },
    {
        match self.find(&point) {
            Some(i) => {
                proof {
                    lemma_assoc_update(self.board@, i as int, v);
                }
                self.board.set(i, (point, v));
            },
            None => {
                proof {
                    lemma_assoc_push(self.board@, point, v);
                }
                self.board.push((point, v));
            },
        }
    }

    /// Takes the cell at `point` off the board.
    pub fn remove(&mut self, point: &Point)
        requires
            old(self).wf(),
        ensures
            final(self).wf(),
            final(self)@ == old(self)@.remove(*point),
            final(self).max == old(self).max,
            final(self).size() == old(self).size() - if old(self)@.contains_key(*point) { 1int } else { 0int },
    {
        match self.find(point) {
            Some(i) => {
                proof {
                    lemma_assoc_remove(self.board@, i as int);
                }
                self.board.remove(i);
            },
            None => {
                assert(self@ =~= self@.remove(*point));
            },
        }
    }

    /// The cell at `p`, if any.
    pub fn get(&self, p: &Point) -> (r: Option<&T>)
        requires
            self.wf(),
        ensures
            r matches Some(v) ==> self@.contains_key(*p) && *v == self@[*p],
            r is None <==> !self@.contains_key(*p),
    {
        match self.find(p) {
            Some(i) => {
                proof {
                    lemma_assoc_at(self.board@, i as int);
                }
                Some(&self.board[i].1)
            },
            None => None,
        }
    }

    /// The point of the `i`-th cell in storage order.
    pub fn point_at(&self, i: usize) -> (r: Point)
        requires
            self.wf(),
            i < self.size(),
        ensures
            self@.contains_key(r),
            r == self.board@[i as int].0,
    {
        proof {
            lemma_assoc_at(self.board@, i as int);
        }
        self.board[i].0
    }

    /// Every cell point of the board occurs among the stored cells.
    pub proof fn lemma_key_stored(&self, p: Point)
        requires
            self.wf(),
            self@.contains_key(p),
        ensures
            exists|i: int| 0 <= i < self.size() && self.board@[i].0 == p,
    {
    }

    /// The points of the cells, in the order `points_walk` gives.
    pub fn points(&self) -> (r: Vec<Point>)
        requires
            self.wf(),
            inner_keys(self@),
        ensures
            r@ == points_walk(self@, Point { x: 0, y: 0 }, self.size()),
    {
        let mut out: Vec<Point> = Vec::new();
        let mut p = Point::new(0, 0);
        let n = self.board.len();
        let mut fuel = n;
        while fuel > 0
            invariant
                self.wf(),
                inner_keys(self@),
                fuel <= n,
                n == self.size(),
                out@ + points_walk(self@, p, fuel as nat) == points_walk(self@, Point { x: 0, y: 0 }, n as nat),
                p.y < usize::MAX,
            decreases fuel,
        {
            let ret = p;
            if self.get(&ret).is_some() {
                p = p.right();
                assert(points_walk(self@, ret, fuel as nat) == seq![ret] + points_walk(self@, p, (fuel - 1) as nat));
                assert(out@.push(ret) + points_walk(self@, p, (fuel - 1) as nat) =~= out@ + points_walk(self@, ret, fuel as nat));
                out.push(ret);
                fuel = fuel - 1;
            } else if self.get(&Point::new(0, p.y + 1)).is_some() {
                let q = Point::new(0, p.y + 1);
                let nxt = q.right();
                assert(points_walk(self@, ret, fuel as nat) == seq![q] + points_walk(self@, nxt, (fuel - 1) as nat));
                assert(out@.push(q) + points_walk(self@, nxt, (fuel - 1) as nat) =~= out@ + points_walk(self@, ret, fuel as nat));
                out.push(q);
                p = nxt;
                fuel = fuel - 1;
            } else {
                assert(points_walk(self@, ret, fuel as nat) == Seq::<Point>::empty());
                assert(out@ =~= out@ + Seq::<Point>::empty());
                return out;
            }
        }
        assert(out@ =~= out@ + points_walk(self@, p, 0));
        out
    }
}


/// A walk over the cells of a board, yielding the value of each cell it
/// passes while cells are present.
pub struct BoardIter<'a, T> {
    current: Point,
    step: Step,
    board: &'a Board<T>,
    remaining: usize,
}

impl<'a, T> BoardIter<'a, T> {
    /// The board walked over.
    pub closed spec fn on(&self) -> &'a Board<T> {
        self.board
    }

    /// Points of the cells still to come.
    pub closed spec fn items(&self) -> Seq<Point> {
        walk(self.board@, self.current, self.step, self.remaining as nat)
    }

    /// The walk can run without overflow.
    pub closed spec fn valid(&self) -> bool {
        &&& self.board.wf()
        &&& match self.step {
            Step::Staircase | Step::Toward(Direction::Right) | Step::Toward(Direction::Down) =>
                inner_keys(self.board@),
            _ => true,
        }
    }

    fn new(board: &'a Board<T>, step: Step, current: Point) -> (r: Self)
        ensures
            r.on() == board,
            r.items() == walk(board@, current, step, board.size()),
            board.wf() && (step == Step::Staircase || step == Step::Toward(Direction::Right)
                || step == Step::Toward(Direction::Down) ==> inner_keys(board@)) ==> r.valid(),
    {
        let n = board.len();
        BoardIter { current, board, step, remaining: n }
    }

    /// The value of the next cell of the walk, if any; after the first
    /// `None` the walk stays exhausted.
    pub fn next(&mut self) -> (r: Option<&'a T>)
        requires
            old(self).valid(),
        ensures
            final(self).valid(),
            final(self).on() == old(self).on(),
            old(self).items().len() > 0 ==> r == Some(&old(self).on()@[old(self).items()[0]])
                && final(self).items() == old(self).items().drop_first(),
            old(self).items().len() == 0 ==> r is None && final(self).items().len() == 0,
    {
        if self.remaining == 0 {
            return None;
        }
        let b: &'a Board<T> = self.board;
        let current = b.get(&self.current);
        match current {
            Some(v) => {
                let p = self.current;
                let nxt = match self.step {
                    Step::Staircase => {
                        if b.get(&p.right()).is_some() {
                            p.right()
                        } else if b.get(&Point::new(0, p.y + 1)).is_some() {
                            Point::new(0, p.y + 1)
                        } else {
                            p.right()
                        }
                    },
                    Step::Toward(d) => p.go(d),
                };
                self.current = nxt;
                self.remaining = self.remaining - 1;
                Some(v)
            },
            None => None,
        }
    }
}

/// A cursor over the cells of a board, yielding the points of the cells it
/// passes so that the caller can change their values.
#[derive(Clone, Copy)]
pub struct BoardIterMut {
    current: Point,
    step: Step,
    remaining: usize,
}

impl BoardIterMut {
    /// Points of the cells still to come on a board with cells `m`.
    pub closed spec fn items<T>(&self, m: Map<Point, T>) -> Seq<Point> {
        walk(m, self.current, self.step, self.remaining as nat)
    }

    /// Kind of walk.
    pub closed spec fn step_kind(&self) -> Step {
        self.step
    }

    fn new<T>(board: &Board<T>, step: Step, current: Point) -> (r: Self)
        ensures
            r.items(board@) == walk(board@, current, step, board.size()),
            r.step_kind() == step,
    {
        let n = board.len();
        BoardIterMut { current, step, remaining: n }
    }

    /// The point of the next cell of the walk over `board`, if any.
    pub fn next<T>(&mut self, board: &Board<T>) -> (r: Option<Point>)
        requires
            board.wf(),
            old(self).step_kind() == Step::Staircase || old(self).step_kind() == Step::Toward(Direction::Right)
                || old(self).step_kind() == Step::Toward(Direction::Down) ==> inner_keys(board@),
        ensures
            final(self).step_kind() == old(self).step_kind(),
            old(self).items(board@).len() > 0 ==> r == Some(old(self).items(board@)[0])
                && final(self).items(board@) == old(self).items(board@).drop_first(),
            old(self).items(board@).len() == 0 ==> r is None && final(self).items(board@).len() == 0,
    {
        if self.remaining == 0 {
            return None;
        }
        if board.get(&self.current).is_none() {
            return None;
        }
        let p = self.current;
        let nxt = match self.step {
            Step::Staircase => {
                if board.get(&p.right()).is_some() {
                    p.right()
                } else if board.get(&Point::new(0, p.y + 1)).is_some() {
                    Point::new(0, p.y + 1)
                } else {
                    p.right()
                }
            },
            Step::Toward(d) => p.go(d),
        };
        self.current = nxt;
        self.remaining = self.remaining - 1;
        Some(p)
    }
}

/// A walk only looks at which points hold cells, not at their values.
pub proof fn lemma_walk_keys_only<T>(m1: Map<Point, T>, m2: Map<Point, T>, p: Point, s: Step, fuel: nat)
    requires
        m1.dom() == m2.dom(),
    ensures
        walk(m1, p, s, fuel) == walk(m2, p, s, fuel),
    decreases fuel,
{
    if fuel > 0 && m1.contains_key(p) {
        assert(m2.contains_key(p));
        assert(m1.contains_key(spec_right(p)) == m2.contains_key(spec_right(p)));
        assert(m1.contains_key(Point { x: 0, y: (p.y + 1) as usize }) == m2.contains_key(Point { x: 0, y: (p.y + 1) as usize }));
        lemma_walk_keys_only(m1, m2, next_cell(m1, p, s), s, (fuel - 1) as nat);
    }
}

/// Every point of a walk holds a cell.
pub proof fn lemma_walk_in_board<T>(m: Map<Point, T>, p: Point, s: Step, fuel: nat)
    ensures
        forall|i: int| 0 <= i < walk(m, p, s, fuel).len() ==> m.contains_key(#[trigger] walk(m, p, s, fuel)[i]),
        walk(m, p, s, fuel).len() <= fuel,
    decreases fuel,
{
    if fuel > 0 && m.contains_key(p) {
        lemma_walk_in_board(m, next_cell(m, p, s), s, (fuel - 1) as nat);
        let w = walk(m, p, s, fuel);
        let r = walk(m, next_cell(m, p, s), s, (fuel - 1) as nat);
        assert forall|i: int| 0 <= i < w.len() implies m.contains_key(#[trigger] w[i]) by {
            if i > 0 {
                assert(w[i] == r[i - 1]);
            }
        }
    }
}

/// The `k`-th point, row by row, of a board `w` cells wide.
pub open spec fn row_major_at(w: usize, k: int) -> Point {
    Point { x: (k % (w as int)) as usize, y: (k / (w as int)) as usize }
}

/// The first `n` points, row by row, of a board `w` cells wide.
pub open spec fn row_major(w: usize, n: nat) -> Seq<Point> {
    Seq::new(n, |i: int| row_major_at(w, i))
}

/// The cells of `m` are exactly the points left of `max.x` and above
/// `max.y`.
pub open spec fn rect_keys<T>(m: Map<Point, T>, max: Point) -> bool {
    forall|p: Point| #[trigger] m.contains_key(p) <==> (p.x < max.x && p.y < max.y)
}

proof fn lemma_row_major_step(w: int, h: int, k: int)
    requires
        w > 0,
        h >= 0,
        k >= 0,
    ensures
        0 <= k % w < w,
        k / w >= 0,
        k % w + 1 < w ==> (k + 1) % w == k % w + 1 && (k + 1) / w == k / w,
        k % w + 1 >= w ==> (k + 1) % w == 0 && (k + 1) / w == k / w + 1,
        (k < w * h) == (k / w < h),
{
    let q = k / w;
    let r = k % w;
    vstd::arithmetic::div_mod::lemma_fundamental_div_mod(k, w);
    assert(0 <= r < w);
    assert(q >= 0) by (nonlinear_arith)
        requires k == w * q + r, 0 <= r < w, k >= 0, w > 0;
    if r + 1 < w {
        assert(k + 1 == q * w + (r + 1)) by (nonlinear_arith)
            requires k == w * q + r;
        vstd::arithmetic::div_mod::lemma_fundamental_div_mod_converse(k + 1, w, q, r + 1);
    } else {
        assert(k + 1 == (q + 1) * w + 0) by (nonlinear_arith)
            requires k == w * q + r, r + 1 == w;
        vstd::arithmetic::div_mod::lemma_fundamental_div_mod_converse(k + 1, w, q + 1, 0);
    }
    assert((k < w * h) == (q < h)) by (nonlinear_arith)
        requires k == w * q + r, 0 <= r < w, w > 0, q >= 0;
}

/// From the `k`-th cell, the staircase walk over a rectangular board visits
/// the remaining cells row by row.
proof fn lemma_walk_rows_from<T>(m: Map<Point, T>, max: Point, k: int, fuel: nat)
    requires
        rect_keys(m, max),
        max.x > 0,
        0 <= k <= max.x * max.y,
    ensures
        walk(m, row_major_at(max.x, k), Step::Staircase, fuel) == Seq::new(
            if fuel < max.x * max.y - k { fuel } else { (max.x * max.y - k) as nat },
            |i: int| row_major_at(max.x, k + i)),
    decreases fuel,
{
    let w = max.x as int;
    let h = max.y as int;
    let n = if fuel < w * h - k { fuel } else { (w * h - k) as nat };
    let p = row_major_at(max.x, k);
    lemma_row_major_step(w, h, k);
    if k == w * h {
        assert(k == h * w + 0) by (nonlinear_arith)
            requires k == w * h;
        vstd::arithmetic::div_mod::lemma_fundamental_div_mod_converse(k, w, h, 0);
        assert(!m.contains_key(p));
        assert(walk(m, p, Step::Staircase, fuel) =~= Seq::<Point>::empty());
        assert(Seq::new(n, |i: int| row_major_at(max.x, k + i)) =~= Seq::<Point>::empty());
    } else if fuel == 0 {
        assert(Seq::new(n, |i: int| row_major_at(max.x, k + i)) =~= Seq::<Point>::empty());
    } else {
        assert(m.contains_key(p));
        lemma_row_major_step(w, h, k + 1);
        let nxt = row_major_at(max.x, k + 1);
        if k + 1 < w * h {
            assert(m.contains_key(nxt));
            if k % w + 1 < w {
                assert(next_cell(m, p, Step::Staircase) == nxt);
            } else {
                assert(!m.contains_key(spec_right(p)));
                assert(next_cell(m, p, Step::Staircase) == nxt);
            }
        } else {
            assert(!m.contains_key(spec_right(p)));
            assert(!m.contains_key(Point { x: 0, y: (p.y + 1) as usize }));
            assert(!m.contains_key(next_cell(m, p, Step::Staircase)));
        }
        lemma_walk_rows_from(m, max, k + 1, (fuel - 1) as nat);
        if k + 1 == w * h {
            assert(walk(m, next_cell(m, p, Step::Staircase), Step::Staircase, (fuel - 1) as nat) =~= Seq::<Point>::empty());
        } else {
            assert(walk(m, next_cell(m, p, Step::Staircase), Step::Staircase, (fuel - 1) as nat)
                == walk(m, nxt, Step::Staircase, (fuel - 1) as nat));
        }
        assert(walk(m, p, Step::Staircase, fuel) =~= Seq::new(n, |i: int| row_major_at(max.x, k + i)));
    }
}

/// On a rectangular board the staircase walk visits the cells row by row,
/// from the top-left, each row left to right.
pub proof fn lemma_walk_row_major<T>(m: Map<Point, T>, max: Point, fuel: nat)
    requires
        rect_keys(m, max),
    ensures
        walk(m, Point { x: 0, y: 0 }, Step::Staircase, fuel) == row_major(max.x,
            if fuel < max.x * max.y { fuel } else { (max.x * max.y) as nat }),
{
    if max.x == 0 {
        assert(!m.contains_key(Point { x: 0, y: 0 }));
        assert(walk(m, Point { x: 0, y: 0 }, Step::Staircase, fuel) =~= row_major(max.x, 0));
    } else {
        lemma_row_major_step(max.x as int, max.y as int, 0);
        assert(row_major_at(max.x, 0) == Point { x: 0, y: 0 });
        lemma_walk_rows_from(m, max, 0, fuel);
        let n = if fuel < max.x * max.y { fuel } else { (max.x * max.y) as nat };
        assert(Seq::new(n, |i: int| row_major_at(max.x, 0 + i)) =~= row_major(max.x, n));
    }
}

/// From the `k`-th cell, `points_walk` over a rectangular board lists the
/// remaining cells row by row.
proof fn lemma_points_rows_from<T>(m: Map<Point, T>, max: Point, k: int, fuel: nat)
    requires
        rect_keys(m, max),
        max.x > 0,
        0 <= k < max.x * max.y,
    ensures
        points_walk(m, row_major_at(max.x, k), fuel) == Seq::new(
            if fuel < max.x * max.y - k { fuel } else { (max.x * max.y - k) as nat },
            |i: int| row_major_at(max.x, k + i)),
    decreases fuel,
{
    let w = max.x as int;
    let h = max.y as int;
    let n = if fuel < w * h - k { fuel } else { (w * h - k) as nat };
    let p = row_major_at(max.x, k);
    lemma_row_major_step(w, h, k);
    if fuel == 0 {
        assert(Seq::new(n, |i: int| row_major_at(max.x, k + i)) =~= Seq::<Point>::empty());
    } else {
        assert(m.contains_key(p));
        lemma_row_major_step(w, h, k + 1);
        let nxt = row_major_at(max.x, k + 1);
        let f = (fuel - 1) as nat;
        if k + 1 < w * h {
            lemma_points_rows_from(m, max, k + 1, f);
            if k % w + 1 < w {
                assert(spec_right(p) == nxt);
            } else {
                let r = spec_right(p);
                assert(!m.contains_key(r));
                assert(Point { x: 0, y: (r.y + 1) as usize } == nxt);
                assert(m.contains_key(nxt));
                if f > 0 {
                    assert(points_walk(m, r, f) == points_walk(m, nxt, f));
                } else {
                    assert(points_walk(m, r, f) =~= points_walk(m, nxt, f));
                }
            }
            assert(points_walk(m, p, fuel) =~= Seq::new(n, |i: int| row_major_at(max.x, k + i)));
        } else {
            // the last cell: the walk ends after it
            let r = spec_right(p);
            assert(k % w + 1 >= w);
            assert(!m.contains_key(r));
            assert(!m.contains_key(Point { x: 0, y: (r.y + 1) as usize }));
            assert(points_walk(m, r, f) =~= Seq::<Point>::empty());
            assert(points_walk(m, p, fuel) =~= Seq::new(n, |i: int| row_major_at(max.x, k + i)));
        }
    }
}

/// On a rectangular board `points_walk` lists the cells row by row, from
/// the top-left, each row left to right.
pub proof fn lemma_points_row_major<T>(m: Map<Point, T>, max: Point, fuel: nat)
    requires
        rect_keys(m, max),
    ensures
        points_walk(m, Point { x: 0, y: 0 }, fuel) == row_major(max.x,
            if fuel < max.x * max.y { fuel } else { (max.x * max.y) as nat }),
{
    if max.x == 0 || max.y == 0 {
        assert(max.x * max.y == 0) by (nonlinear_arith)
            requires max.x == 0 || max.y == 0;
        assert(!m.contains_key(Point { x: 0, y: 0 }));
        assert(!m.contains_key(Point { x: 0, y: 1 }));
        assert(points_walk(m, Point { x: 0, y: 0 }, fuel) =~= row_major(max.x, 0));
    } else {
        assert(max.x * max.y > 0) by (nonlinear_arith)
            requires max.x > 0, max.y > 0;
        lemma_row_major_step(max.x as int, max.y as int, 0);
        assert(row_major_at(max.x, 0) == Point { x: 0, y: 0 });
        lemma_points_rows_from(m, max, 0, fuel);
        let n = if fuel < max.x * max.y { fuel } else { (max.x * max.y) as nat };
        assert(Seq::new(n, |i: int| row_major_at(max.x, 0 + i)) =~= row_major(max.x, n));
    }
}

/// On a rectangular board, iterating the board (the staircase walk) meets
/// the cells in the order `Board::points` lists them.
pub proof fn lemma_iter_follows_points<T>(m: Map<Point, T>, max: Point, fuel: nat)
    requires
        rect_keys(m, max),
    ensures
        walk(m, Point { x: 0, y: 0 }, Step::Staircase, fuel) == points_walk(m, Point { x: 0, y: 0 }, fuel),
{
    lemma_walk_row_major(m, max, fuel);
    lemma_points_row_major(m, max, fuel);
}

/// The points of a `max.x` by `max.y` board, row by row, are each point of
/// the board once.
pub proof fn lemma_row_major_cells(max: Point)
    ensures
        row_major(max.x, (max.x * max.y) as nat).no_duplicates(),
        row_major(max.x, (max.x * max.y) as nat).to_set() == Set::new(|p: Point| p.x < max.x && p.y < max.y),
{
    let w = max.x as int;
    let h = max.y as int;
    let n = (w * h) as nat;
    let r = row_major(max.x, n);
    let area = Set::new(|p: Point| p.x < max.x && p.y < max.y);
    if w == 0 {
        assert(n == 0);
        assert(r.to_set() =~= area);
    } else {
        assert forall|i: int| 0 <= i < n implies #[trigger] area.contains(r[i]) by {
            lemma_row_major_step(w, h, i);
        }
        assert forall|i: int, j: int| 0 <= i < r.len() && 0 <= j < r.len() && i != j implies r[i] != r[j] by {
            vstd::arithmetic::div_mod::lemma_fundamental_div_mod(i, w);
            vstd::arithmetic::div_mod::lemma_fundamental_div_mod(j, w);
            lemma_row_major_step(w, h, i);
            lemma_row_major_step(w, h, j);
        }
        assert forall|p: Point| #[trigger] area.contains(p) implies r.to_set().contains(p) by {
            let k = p.y * w + p.x;
            assert(0 <= k < w * h) by (nonlinear_arith)
                requires k == p.y * w + p.x, 0 <= p.x < w, 0 <= p.y < h;
            vstd::arithmetic::div_mod::lemma_fundamental_div_mod_converse(k, w, p.y as int, p.x as int);
            assert(r[k] == p);
        }
        assert(r.to_set() =~= area);
    }
}

impl<T> Board<T> {
    /// A board whose cells are exactly the points below its extent holds
    /// `max.x * max.y` cells.
    pub proof fn lemma_rect_size(&self)
        requires
            self.wf(),
            rect_keys(self@, self.max),
        ensures
            self.size() == self.max.x * self.max.y,
    {
        let keys = self.board@.map_values(|e: (Point, T)| e.0);
        let area = Set::new(|p: Point| p.x < self.max.x && p.y < self.max.y);
        assert(keys.no_duplicates());
        assert forall|p: Point| keys.to_set().contains(p) <==> #[trigger] area.contains(p) by {
            if keys.to_set().contains(p) {
                assert(keys.contains(p));
                let i = choose|i: int| 0 <= i < keys.len() && keys[i] == p;
                assert(self.board@[i].0 == p);
                assert(has_key(self.board@, p));
                assert(self@.contains_key(p));
            }
            if area.contains(p) {
                assert(self@.contains_key(p));
                assert(has_key(self.board@, p));
                let i = choose|i: int| 0 <= i < self.board@.len() && self.board@[i].0 == p;
                assert(keys[i] == p);
                assert(keys.contains(p));
            }
        }
        assert(keys.to_set() =~= area);
        keys.unique_seq_to_set();
        lemma_row_major_cells(self.max);
        row_major(self.max.x, (self.max.x * self.max.y) as nat).unique_seq_to_set();
    }
}

impl<T> Board<T> {
    /// A walk over all rows from the top-left cell.
    pub fn iter(&self) -> (r: BoardIter<'_, T>)
        ensures
            r.on() == self,
            r.items() == walk(self@, Point { x: 0, y: 0 }, Step::Staircase, self.size()),
            self.wf() && inner_keys(self@) ==> r.valid(),
    {
        BoardIter::new(self, Step::Staircase, Point::new(0, 0))
    }

    /// A cursor over all rows from the top-left cell.
    pub fn iter_mut(&mut self) -> (r: BoardIterMut)
        ensures
            *final(self) == *old(self),
            r.step_kind() == Step::Staircase,
            r.items(final(self)@) == walk(final(self)@, Point { x: 0, y: 0 }, Step::Staircase, final(self).size()),
    {
        BoardIterMut::new(self, Step::Staircase, Point::new(0, 0))
    }

    /// One walk per row, rightwards from `(0, y)`, for the rows `y = 0, 1, ...`
    /// whose first cell is present.
    pub fn rows(&self) -> (r: Vec<BoardIter<'_, T>>)
        requires
            self.wf(),
            inner_keys(self@),
        ensures
            r@.len() == line_count(self@, true, 0, self.size()),
            forall|k: int| 0 <= k < r@.len() ==> (#[trigger] r@[k]).on() == self && r@[k].valid()
                && r@[k].items() == walk(self@, Point { x: 0, y: k as usize }, Step::Toward(Direction::Right), self.size()),
    {
        self.lines(true)
    }

    /// One walk per column, downwards from `(x, 0)`, for the columns
    /// `x = 0, 1, ...` whose first cell is present.
    pub fn columns(&self) -> (r: Vec<BoardIter<'_, T>>)
        requires
            self.wf(),
            inner_keys(self@),
        ensures
            r@.len() == line_count(self@, false, 0, self.size()),
            forall|k: int| 0 <= k < r@.len() ==> (#[trigger] r@[k]).on() == self && r@[k].valid()
                && r@[k].items() == walk(self@, Point { x: k as usize, y: 0 }, Step::Toward(Direction::Down), self.size()),
    {
        self.lines(false)
    }

    fn lines(&self, rows: bool) -> (r: Vec<BoardIter<'_, T>>)
        requires
            self.wf(),
            inner_keys(self@),
        ensures
            r@.len() == line_count(self@, rows, 0, self.size()),
            forall|k: int| 0 <= k < r@.len() ==> (#[trigger] r@[k]).on() == self && r@[k].valid()
                && r@[k].items() == walk(self@,
                    if rows { Point { x: 0, y: k as usize } } else { Point { x: k as usize, y: 0 } },
                    Step::Toward(if rows { Direction::Right } else { Direction::Down }), self.size()),
    {
        let mut out: Vec<BoardIter<'_, T>> = Vec::new();
        let n = self.board.len();
        let mut k: usize = 0;
        let dir = if rows { Direction::Right } else { Direction::Down };
        while k < n
            invariant
                self.wf(),
                inner_keys(self@),
                n == self.size(),
                k <= n,
                out@.len() == k,
                dir == (if rows { Direction::Right } else { Direction::Down }),
                line_count(self@, rows, 0, n as nat) == k + line_count(self@, rows, k as nat, (n - k) as nat),
                forall|j: int| 0 <= j < out@.len() ==> (#[trigger] out@[j]).on() == self && out@[j].valid()
                    && out@[j].items() == walk(self@,
                        if rows { Point { x: 0, y: j as usize } } else { Point { x: j as usize, y: 0 } },
                        Step::Toward(dir), self.size()),
            decreases n - k,
        {
            let start = if rows { Point::new(0, k) } else { Point::new(k, 0) };
            if self.get(&start).is_none() {
                assert(line_count(self@, rows, k as nat, (n - k) as nat) == 0);
                return out;
            }
            out.push(BoardIter::new(self, Step::Toward(dir), start));
            k = k + 1;
        }
        assert(line_count(self@, rows, k as nat, 0) == 0);
        out
    }
}

/// First cell of line `k` of a walk over rows (`rows`) or columns, from
/// the far end (`rev`) or the near one.
pub open spec fn line_start(max: Point, rows: bool, rev: bool, k: int) -> Point {
    if rows {
        Point { x: if rev { (max.x - 1) as usize } else { 0 }, y: k as usize }
    } else {
        Point { x: k as usize, y: if rev { (max.y - 1) as usize } else { 0 } }
    }
}

/// The direction a line walk goes.
pub open spec fn line_step(rows: bool, rev: bool) -> Step {
    Step::Toward(if rows {
        if rev { Direction::Left } else { Direction::Right }
    } else {
        if rev { Direction::Up } else { Direction::Down }
    })
}

impl<T> Board<T> {
    fn lines_mut(&self, rows: bool, rev: bool) -> (r: Vec<BoardIterMut>)
        requires
            self.wf(),
            rev && self@.contains_key(Point { x: 0, y: 0 }) ==> if rows { self.max.x > 0 } else { self.max.y > 0 },
        ensures
            r@.len() == line_count(self@, rows, 0, self.size()),
            forall|k: int| 0 <= k < r@.len() ==> (#[trigger] r@[k]).step_kind() == line_step(rows, rev)
                && r@[k].items(self@) == walk(self@, line_start(self.max, rows, rev, k), line_step(rows, rev), self.size()),
    {
        let mut out: Vec<BoardIterMut> = Vec::new();
        let n = self.board.len();
        let dir = if rows {
            if rev { Direction::Left } else { Direction::Right }
        } else {
            if rev { Direction::Up } else { Direction::Down }
        };
        let mut k: usize = 0;
        while k < n
            invariant
                self.wf(),
                rev && self@.contains_key(Point { x: 0, y: 0 }) ==> if rows { self.max.x > 0 } else { self.max.y > 0 },
                n == self.size(),
                k <= n,
                out@.len() == k,
                Step::Toward(dir) == line_step(rows, rev),
                k > 0 ==> self@.contains_key(Point { x: 0, y: 0 }),
                line_count(self@, rows, 0, n as nat) == k + line_count(self@, rows, k as nat, (n - k) as nat),
                forall|j: int| 0 <= j < out@.len() ==> (#[trigger] out@[j]).step_kind() == line_step(rows, rev)
                    && out@[j].items(self@) == walk(self@, line_start(self.max, rows, rev, j), line_step(rows, rev), self.size()),
            decreases n - k,
        {
            let first = if rows { Point::new(0, k) } else { Point::new(k, 0) };
            if self.get(&first).is_none() {
                assert(line_count(self@, rows, k as nat, (n - k) as nat) == 0);
                return out;
            }
            let start = if rows {
                Point::new(if rev { self.max.x - 1 } else { 0 }, k)
            } else {
                Point::new(k, if rev { self.max.y - 1 } else { 0 })
            };
            out.push(BoardIterMut::new(self, Step::Toward(dir), start));
            k = k + 1;
        }
        assert(line_count(self@, rows, k as nat, 0) == 0);
        out
    }

    /// One cursor per row, rightwards from `(0, y)`, for the rows
    /// `y = 0, 1, ...` whose first cell is present.
    pub fn rows_mut(&self) -> (r: Vec<BoardIterMut>)
        requires
            self.wf(),
        ensures
            r@.len() == line_count(self@, true, 0, self.size()),
            forall|k: int| 0 <= k < r@.len() ==> (#[trigger] r@[k]).step_kind() == Step::Toward(Direction::Right)
                && r@[k].items(self@) == walk(self@, Point { x: 0, y: k as usize }, Step::Toward(Direction::Right), self.size()),
    {
        self.lines_mut(true, false)
    }

    /// One cursor per row, leftwards from the last column, for the rows
    /// `y = 0, 1, ...` whose first cell is present.
    pub fn rows_mut_rev(&self) -> (r: Vec<BoardIterMut>)
        requires
            self.wf(),
            self@.contains_key(Point { x: 0, y: 0 }) ==> self.max.x > 0,
        ensures
            r@.len() == line_count(self@, true, 0, self.size()),
            forall|k: int| 0 <= k < r@.len() ==> (#[trigger] r@[k]).step_kind() == Step::Toward(Direction::Left)
                && r@[k].items(self@) == walk(self@, Point { x: (self.max.x - 1) as usize, y: k as usize },
                    Step::Toward(Direction::Left), self.size()),
    {
        self.lines_mut(true, true)
    }

    /// One cursor per column, downwards from `(x, 0)`, for the columns
    /// `x = 0, 1, ...` whose first cell is present.
    pub fn columns_mut(&self) -> (r: Vec<BoardIterMut>)
        requires
            self.wf(),
        ensures
            r@.len() == line_count(self@, false, 0, self.size()),
            forall|k: int| 0 <= k < r@.len() ==> (#[trigger] r@[k]).step_kind() == Step::Toward(Direction::Down)
                && r@[k].items(self@) == walk(self@, Point { x: k as usize, y: 0 }, Step::Toward(Direction::Down), self.size()),
    {
        self.lines_mut(false, false)
    }

    /// One cursor per column, upwards from the last row, for the columns
    /// `x = 0, 1, ...` whose first cell is present.
    pub fn columns_mut_rev(&self) -> (r: Vec<BoardIterMut>)
        requires
            self.wf(),
            self@.contains_key(Point { x: 0, y: 0 }) ==> self.max.y > 0,
        ensures
            r@.len() == line_count(self@, false, 0, self.size()),
            forall|k: int| 0 <= k < r@.len() ==> (#[trigger] r@[k]).step_kind() == Step::Toward(Direction::Up)
                && r@[k].items(self@) == walk(self@, Point { x: k as usize, y: (self.max.y - 1) as usize },
                    Step::Toward(Direction::Up), self.size()),
    {
        self.lines_mut(false, true)
    }
}
} // verus!
