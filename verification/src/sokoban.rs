use vstd::prelude::*;

use crate::key::Key;

verus! {

/// A move of the player.
#[derive(Clone, Copy, Debug, PartialEq, Eq, Structural)]
pub enum Direction {
    Up,
    Left,
    Right,
    Down,
    Nowhere,
}

/// The move a key stands for: the arrows, or w, a, s, d.
pub open spec fn key_direction(key: Key) -> Direction {
    match key {
        Key::ArrowUp => Direction::Up,
        Key::ArrowDown => Direction::Down,
        Key::ArrowLeft => Direction::Left,
        Key::ArrowRight => Direction::Right,
        Key::Char(c) => if c == 'w' {
            Direction::Up
        } else if c == 'a' {
            Direction::Left
        } else if c == 's' {
            Direction::Down
        } else if c == 'd' {
            Direction::Right
        } else {
            Direction::Nowhere
        },
        _ => Direction::Nowhere,
    }
}

/// The move a key stands for.
pub fn key_to_direction(key: Key) -> (d: Direction)
    ensures
        d == key_direction(key),
{
    match key {
        Key::ArrowUp => Direction::Up,
        Key::ArrowDown => Direction::Down,
        Key::ArrowLeft => Direction::Left,
        Key::ArrowRight => Direction::Right,
        Key::Char('w') => Direction::Up,
        Key::Char('a') => Direction::Left,
        Key::Char('s') => Direction::Down,
        Key::Char('d') => Direction::Right,
        _ => Direction::Nowhere,
    }
}

/// A square of the warehouse: `x` is the row, `y` the column.
#[derive(Clone, Copy, Debug, PartialEq, Eq, Structural)]
pub struct Field {
    pub x: usize,
    pub y: usize,
    /// The player stands here.
    pub player: bool,
    /// A box stands here.
    pub boxx: bool,
    pub wall: bool,
    /// A target square for a box.
    pub finish: bool,
}

impl Field {
    /// An empty square.
    pub fn new(x: usize, y: usize) -> (r: Field)
        ensures
            r == (Field { x, y, player: false, boxx: false, wall: false, finish: false }),
    {
        Field { x, y, player: false, boxx: false, wall: false, finish: false }
    }

    pub fn set_wall(&mut self)
        ensures
            *final(self) == (Field { wall: true, ..*old(self) }),
    {
        self.wall = true;
    }

    pub fn set_finish(&mut self)
        ensures
            *final(self) == (Field { finish: true, ..*old(self) }),
    {
        self.finish = true;
    }

    pub fn is_occupied(&self) -> (r: bool)
        ensures
            r == self.player,
    {
        self.player
    }

    /// The player steps on the square, which must be free of players.
    pub fn occupy(&mut self)
        requires
            !old(self).player,
        ensures
            *final(self) == (Field { player: true, ..*old(self) }),
    {
        self.player = true;
    }

    /// The player leaves the square.
    pub fn unoccupy(&mut self)
        requires
            old(self).player,
        ensures
            *final(self) == (Field { player: false, ..*old(self) }),
    {
        self.player = false;
    }

    pub fn set_box(&mut self)
        ensures
            *final(self) == (Field { boxx: true, ..*old(self) }),
    {
        self.boxx = true;
    }

    pub fn has_box(&self) -> (r: bool)
        ensures
            r == self.boxx,
    {
        self.boxx
    }

    /// Moves the box from this square to `to`.
    pub fn move_box(&mut self, to: &mut Field)
        ensures
            *final(self) == (Field { boxx: false, ..*old(self) }),
            *final(to) == (Field { boxx: true, ..*old(to) }),
    {
        self.boxx = false;
        to.boxx = true;
    }

    pub fn is_wall(&self) -> (r: bool)
        ensures
            r == self.wall,
    {
        self.wall
    }
}

/// The player, by the square it stands on.
#[derive(Clone, Copy, Debug, PartialEq, Eq, Structural)]
pub struct Player {
    pub x: usize,
    pub y: usize,
}

fn set_square(board: &mut Vec<Vec<Field>>, x: usize, y: usize, f: Field)
    requires
        in_bounds(old(board)@, x as int, y as int),
    ensures
        squares(final(board)@) == put(squares(old(board)@), x as int, y as int, f),
        final(board)@.len() == old(board)@.len(),
        forall|i: int| 0 <= i < final(board)@.len() ==> (#[trigger] final(board)@[i])@.len() == old(board)@[i]@.len(),
{
    let ghost b = board@;
    let mut row = board.remove(x);
    row.set(y, f);
    board.insert(x, row);
    proof {
        assert(squares(board@) =~= put(squares(b), x as int, y as int, f));
        assert forall|i: int| 0 <= i < board@.len() implies (#[trigger] board@[i])@.len() == b[i]@.len() by {
            if i != x {
                assert(board@[i] == b[i]);
            }
        }
    }
}

impl Player {
    /// The player, standing on `field`.
    pub fn new(field: &mut Field) -> (r: Player)
        requires
            !old(field).player,
        ensures
            *final(field) == (Field { player: true, ..*old(field) }),
            r == (Player { x: old(field).x, y: old(field).y }),
    {
        field.occupy();
        Player { x: field.x, y: field.y }
    }

    /// Steps from the player's square to the one at row `x`, column `y`;
    /// tells whether a box stands there.
    pub fn try_move_to(&mut self, board: &mut Vec<Vec<Field>>, x: usize, y: usize) -> (r: bool)
        requires
            in_bounds(old(board)@, old(self).x as int, old(self).y as int),
            at(old(board)@, old(self).x as int, old(self).y as int).player,
            in_bounds(old(board)@, x as int, y as int),
            (x, y) != (old(self).x, old(self).y) ==> !at(old(board)@, x as int, y as int).player,
        ensures
            ({
                let b1 = put(squares(old(board)@), old(self).x as int, old(self).y as int,
                    Field { player: false, ..at(old(board)@, old(self).x as int, old(self).y as int) });
                squares(final(board)@) == put(b1, x as int, y as int, Field { player: true, ..b1[x as int][y as int] })
            }),
            final(board)@.len() == old(board)@.len(),
            forall|i: int| 0 <= i < final(board)@.len() ==> (#[trigger] final(board)@[i])@.len() == old(board)@[i]@.len(),
            *final(self) == (Player { x, y }),
            r == at(old(board)@, x as int, y as int).boxx,
    {
        let (px, py) = (self.x, self.y);
        let mut old_sq = board[px][py];
        old_sq.unoccupy();
        set_square(board, px, py, old_sq);
        let mut new_sq = board[x][y];
        assert(new_sq == squares(board@)[x as int][y as int]);
        new_sq.occupy();
        set_square(board, x, y, new_sq);
        self.x = x;
        self.y = y;
        new_sq.has_box()
    }
}

/// The square at row `x`, column `y`.
pub open spec fn at(b: Seq<Vec<Field>>, x: int, y: int) -> Field {
    b[x]@[y]
}

pub open spec fn in_bounds(b: Seq<Vec<Field>>, x: int, y: int) -> bool {
    0 <= x < b.len() && 0 <= y < b[x]@.len()
}

/// The squares as rows of values.
pub open spec fn squares(b: Seq<Vec<Field>>) -> Seq<Seq<Field>> {
    Seq::new(b.len(), |i: int| b[i]@)
}

/// `b` with the square at row `x`, column `y` replaced.
pub open spec fn put(b: Seq<Seq<Field>>, x: int, y: int, f: Field) -> Seq<Seq<Field>> {
    b.update(x, b[x].update(y, f))
}

/// The square one step from row `x`, column `y` in direction `d`.
pub open spec fn step_from(d: Direction, x: int, y: int) -> (int, int) {
    match d {
        Direction::Up => (x - 1, y),
        Direction::Down => (x + 1, y),
        Direction::Left => (x, y - 1),
        Direction::Right => (x, y + 1),
        Direction::Nowhere => (x, y),
    }
}

/// A step from `(x, y)` in direction `d` stays within `usize`.
pub open spec fn can_step(d: Direction, x: int, y: int) -> bool {
    let (nx, ny) = step_from(d, x, y);
    0 <= nx <= usize::MAX && 0 <= ny <= usize::MAX
}

/// A step of the player at `(px, py)` in direction `d`, and whether the
/// player moved. Walls stop the player; a box is pushed one further step
/// unless a wall or another box is behind it, which stops the player too.
pub open spec fn after_move(b: Seq<Seq<Field>>, px: int, py: int, d: Direction) -> (Seq<Seq<Field>>, bool) {
    let (tx, ty) = step_from(d, px, py);
    let (ux, uy) = step_from(d, tx, ty);
    let t = b[tx][ty];
    if t.wall || (t.boxx && (b[ux][uy].wall || b[ux][uy].boxx)) {
        (b, false)
    } else {
        let b1 = if t.boxx {
            put(put(b, tx, ty, Field { boxx: false, ..t }), ux, uy, Field { boxx: true, ..b[ux][uy] })
        } else {
            b
        };
        let b2 = put(b1, px, py, Field { player: false, ..b1[px][py] });
        (put(b2, tx, ty, Field { player: true, ..b2[tx][ty] }), true)
    }
}

/// Number of boxes on a row.
pub open spec fn row_boxes(r: Seq<Field>) -> nat
    decreases r.len(),
{
    if r.len() == 0 {
        0
    } else {
        row_boxes(r.drop_last()) + if r.last().boxx { 1nat } else { 0nat }
    }
}

/// Number of boxes in the warehouse.
pub open spec fn boxes(b: Seq<Seq<Field>>) -> nat
    decreases b.len(),
{
    if b.len() == 0 {
        0
    } else {
        boxes(b.drop_last()) + row_boxes(b.last())
    }
}

proof fn lemma_row_boxes_update(r: Seq<Field>, y: int, f: Field)
    requires
        0 <= y < r.len(),
    ensures
        row_boxes(r.update(y, f)) + (if r[y].boxx { 1int } else { 0int }) == row_boxes(r) + (if f.boxx { 1int } else { 0int }),
    decreases r.len(),
{
    if y < r.len() - 1 {
        assert(r.update(y, f).drop_last() =~= r.drop_last().update(y, f));
        lemma_row_boxes_update(r.drop_last(), y, f);
    } else {
        assert(r.update(y, f).drop_last() =~= r.drop_last());
    }
}

proof fn lemma_put_boxes(b: Seq<Seq<Field>>, x: int, y: int, f: Field)
    requires
        0 <= x < b.len(),
        0 <= y < b[x].len(),
    ensures
        boxes(put(b, x, y, f)) + (if b[x][y].boxx { 1int } else { 0int }) == boxes(b) + (if f.boxx { 1int } else { 0int }),
    decreases b.len(),
{
    lemma_row_boxes_update(b[x], y, f);
    if x < b.len() - 1 {
        assert(put(b, x, y, f).drop_last() =~= put(b.drop_last(), x, y, f));
        lemma_put_boxes(b.drop_last(), x, y, f);
    } else {
        assert(put(b, x, y, f).drop_last() =~= b.drop_last());
    }
}

/// A move never makes or takes away a box.
pub proof fn lemma_move_keeps_boxes(b: Seq<Seq<Field>>, px: int, py: int, d: Direction)
    requires
        0 <= px < b.len() && 0 <= py < b[px].len(),
        ({
            let (tx, ty) = step_from(d, px, py);
            &&& 0 <= tx < b.len() && 0 <= ty < b[tx].len()
            &&& !b[tx][ty].wall && b[tx][ty].boxx ==> {
                let (ux, uy) = step_from(d, tx, ty);
                0 <= ux < b.len() && 0 <= uy < b[ux].len()
            }
        }),
    ensures
        boxes(after_move(b, px, py, d).0) == boxes(b),
{
    let (tx, ty) = step_from(d, px, py);
    let (ux, uy) = step_from(d, tx, ty);
    let t = b[tx][ty];
    if !(t.wall || (t.boxx && (b[ux][uy].wall || b[ux][uy].boxx))) {
        let b1 = if t.boxx {
            let a = put(b, tx, ty, Field { boxx: false, ..t });
            lemma_put_boxes(b, tx, ty, Field { boxx: false, ..t });
            assert((ux, uy) != (tx, ty));
            assert(a[ux][uy] == b[ux][uy]);
            lemma_put_boxes(a, ux, uy, Field { boxx: true, ..b[ux][uy] });
            put(a, ux, uy, Field { boxx: true, ..b[ux][uy] })
        } else {
            b
        };
        lemma_put_boxes(b1, px, py, Field { player: false, ..b1[px][py] });
        let b2 = put(b1, px, py, Field { player: false, ..b1[px][py] });
        lemma_put_boxes(b2, tx, ty, Field { player: true, ..b2[tx][ty] });
    }
}

/// No square of `b` holds a box on a wall.
pub open spec fn no_box_on_wall(b: Seq<Seq<Field>>) -> bool {
    forall|i: int, j: int| 0 <= i < b.len() && 0 <= j < b[i].len() ==> !((#[trigger] b[i][j]).wall && b[i][j].boxx)
}

/// A move keeps the walls where they are and never puts a box on a wall;
/// pushing a box against a wall is refused and changes nothing.
pub proof fn lemma_move_respects_walls(b: Seq<Seq<Field>>, px: int, py: int, d: Direction)
    requires
        0 <= px < b.len() && 0 <= py < b[px].len(),
        ({
            let (tx, ty) = step_from(d, px, py);
            &&& 0 <= tx < b.len() && 0 <= ty < b[tx].len()
            &&& !b[tx][ty].wall && b[tx][ty].boxx ==> {
                let (ux, uy) = step_from(d, tx, ty);
                0 <= ux < b.len() && 0 <= uy < b[ux].len()
            }
        }),
    ensures
        after_move(b, px, py, d).0.len() == b.len(),
        forall|i: int| 0 <= i < b.len() ==> (#[trigger] after_move(b, px, py, d).0[i]).len() == b[i].len(),
        forall|i: int, j: int| 0 <= i < b.len() && 0 <= j < b[i].len()
            ==> (#[trigger] after_move(b, px, py, d).0[i][j]).wall == b[i][j].wall,
        no_box_on_wall(b) ==> no_box_on_wall(after_move(b, px, py, d).0),
        ({
            let (tx, ty) = step_from(d, px, py);
            let (ux, uy) = step_from(d, tx, ty);
            b[tx][ty].boxx && b[ux][uy].wall ==> after_move(b, px, py, d) == (b, false)
        }),
        ({
            let (tx, ty) = step_from(d, px, py);
            b[tx][ty].wall ==> after_move(b, px, py, d) == (b, false)
        }),
{
    let (tx, ty) = step_from(d, px, py);
    let (ux, uy) = step_from(d, tx, ty);
    let t = b[tx][ty];
    let r = after_move(b, px, py, d).0;
    if !(t.wall || (t.boxx && (b[ux][uy].wall || b[ux][uy].boxx))) {
        let b1 = if t.boxx {
            put(put(b, tx, ty, Field { boxx: false, ..t }), ux, uy, Field { boxx: true, ..b[ux][uy] })
        } else {
            b
        };
        let b2 = put(b1, px, py, Field { player: false, ..b1[px][py] });
        assert(r == put(b2, tx, ty, Field { player: true, ..b2[tx][ty] }));
        assert forall|i: int, j: int| 0 <= i < b.len() && 0 <= j < b[i].len()
            implies (#[trigger] r[i][j]).wall == b[i][j].wall
                && (r[i][j].boxx ==> b[i][j].boxx || (t.boxx && i == ux && j == uy)) by {
        }
        if no_box_on_wall(b) {
            assert forall|i: int, j: int| 0 <= i < r.len() && 0 <= j < r[i].len()
                implies !((#[trigger] r[i][j]).wall && r[i][j].boxx) by {
                assert(r[i][j].wall == b[i][j].wall);
                assert(!(b[i][j].wall && b[i][j].boxx));
            }
        }
    }
}

/// A move that goes through takes the player one square in its direction:
/// up is to the row above (`x - 1`), down to the row below, left to the
/// column before (`y - 1`), right to the column after; the square left
/// behind no longer holds the player.
pub proof fn lemma_move_steps_player(b: Seq<Seq<Field>>, px: int, py: int, d: Direction)
    requires
        0 <= px < b.len() && 0 <= py < b[px].len(),
        d != Direction::Nowhere,
        ({
            let (tx, ty) = step_from(d, px, py);
            &&& 0 <= tx < b.len() && 0 <= ty < b[tx].len()
            &&& !b[tx][ty].wall && b[tx][ty].boxx ==> {
                let (ux, uy) = step_from(d, tx, ty);
                0 <= ux < b.len() && 0 <= uy < b[ux].len()
            }
        }),
    ensures
        after_move(b, px, py, d).1 ==> {
            let r = after_move(b, px, py, d).0;
            &&& !r[px][py].player
            &&& d == Direction::Up ==> r[px - 1][py].player
            &&& d == Direction::Down ==> r[px + 1][py].player
            &&& d == Direction::Left ==> r[px][py - 1].player
            &&& d == Direction::Right ==> r[px][py + 1].player
        },
{
}

/// The warehouse: the squares by row and the player.
pub struct Game {
    pub board: Vec<Vec<Field>>,
    pub player: Player,
}

impl Game {
    /// The player stands on a square of the board.
    pub open spec fn wf(&self) -> bool {
        &&& in_bounds(self.board@, self.player.x as int, self.player.y as int)
        &&& at(self.board@, self.player.x as int, self.player.y as int).player
    }

    /// The square one step from `(x, y)` in `direction`.
    pub fn coordinates_from_direction(&self, direction: Direction, x: usize, y: usize) -> (r: (usize, usize))
        requires
            can_step(direction, x as int, y as int),
        ensures
            (r.0 as int, r.1 as int) == step_from(direction, x as int, y as int),
    {
        match direction {
            Direction::Up => (x - 1, y),
            Direction::Down => (x + 1, y),
            Direction::Left => (x, y - 1),
            Direction::Right => (x, y + 1),
            Direction::Nowhere => (x, y),
        }
    }

    fn set_square(&mut self, x: usize, y: usize, f: Field)
        requires
            in_bounds(old(self).board@, x as int, y as int),
        ensures
            squares(final(self).board@) == put(squares(old(self).board@), x as int, y as int, f),
            final(self).board@.len() == old(self).board@.len(),
            forall|i: int| 0 <= i < final(self).board@.len() ==> (#[trigger] final(self).board@[i])@.len() == old(self).board@[i]@.len(),
            final(self).player == old(self).player,
    {
        set_square(&mut self.board, x, y, f);
    }

    /// A step in `direction` stays on the board, and so does the box it
    /// pushes, and does not run into another player.
    pub open spec fn move_safe(&self, direction: Direction) -> bool {
        &&& can_step(direction, self.player.x as int, self.player.y as int)
        &&& {
            let (tx, ty) = step_from(direction, self.player.x as int, self.player.y as int);
            &&& in_bounds(self.board@, tx, ty)
            &&& !at(self.board@, tx, ty).wall && at(self.board@, tx, ty).boxx ==> can_step(direction, tx, ty)
                && in_bounds(self.board@, step_from(direction, tx, ty).0, step_from(direction, tx, ty).1)
            &&& (tx, ty) != (self.player.x as int, self.player.y as int) ==> !at(self.board@, tx, ty).player
        }
    }

    /// Whether a step in `direction` is safe (see `move_safe`).
    pub fn can_move(&self, direction: Direction) -> (r: bool)
        ensures
            r == self.move_safe(direction),
    {
        let (px, py) = (self.player.x, self.player.y);
        let ok = match direction {
            Direction::Up => px > 0,
            Direction::Left => py > 0,
            Direction::Down => px < usize::MAX,
            Direction::Right => py < usize::MAX,
            Direction::Nowhere => true,
        };
        if !ok {
            return false;
        }
        let (tx, ty) = self.coordinates_from_direction(direction, px, py);
        if tx >= self.board.len() || ty >= self.board[tx].len() {
            return false;
        }
        let t = &self.board[tx][ty];
        if (tx != px || ty != py) && t.player {
            return false;
        }
        if !t.wall && t.boxx {
            let ok2 = match direction {
                Direction::Up => tx > 0,
                Direction::Left => ty > 0,
                Direction::Down => tx < usize::MAX,
                Direction::Right => ty < usize::MAX,
                Direction::Nowhere => true,
            };
            if !ok2 {
                return false;
            }
            let (ux, uy) = self.coordinates_from_direction(direction, tx, ty);
            if ux >= self.board.len() || uy >= self.board[ux].len() {
                return false;
            }
        }
        true
    }

    /// Tries to move the player one step (see `after_move`). Returns
    /// whether the player moved.
    pub fn move_to(&mut self, direction: Direction) -> (moved: bool)
        requires
            old(self).wf(),
            old(self).move_safe(direction),
        ensures
            final(self).wf(),
            (squares(final(self).board@), moved) == after_move(squares(old(self).board@),
                old(self).player.x as int, old(self).player.y as int, direction),
            final(self).player == if moved {
                Player {
                    x: step_from(direction, old(self).player.x as int, old(self).player.y as int).0 as usize,
                    y: step_from(direction, old(self).player.x as int, old(self).player.y as int).1 as usize,
                }
            } else {
                old(self).player
            },
    {
        let (px, py) = (self.player.x, self.player.y);
        let (x, y) = self.coordinates_from_direction(direction, px, py);
        let new_field = self.board[x][y];
        if new_field.is_wall() {
            return false;
        }
        if new_field.has_box() {
            let (x2, y2) = self.coordinates_from_direction(direction, x, y);
            let next_field = self.board[x2][y2];
            if !next_field.is_wall() && !next_field.has_box() {
                let mut from = new_field;
                let mut to = next_field;
                from.move_box(&mut to);
                self.set_square(x, y, from);
                self.set_square(x2, y2, to);
            } else {
                return false;
            }
        }
        assert(squares(self.board@)[x as int][y as int].player == squares(old(self).board@)[x as int][y as int].player);
        assert(squares(self.board@)[px as int][py as int].player);
        let _ate = self.player.try_move_to(&mut self.board, x, y);
        assert(squares(self.board@)[x as int][y as int].player);
        assert(self.board@[x as int]@ == squares(self.board@)[x as int]);
        true
    }
}


/// A level character: wall, box, floor, finish or player.
pub open spec fn level_char(c: char) -> bool {
    c == 'W' || c == 'B' || c == '.' || c == 'F' || c == 'P'
}

/// Column of the last `'P'` among the first `j` characters of `row`.
pub open spec fn last_p_in_row(row: Seq<char>, j: int) -> Option<int>
    decreases j,
{
    if j <= 0 {
        None
    } else if row[j - 1] == 'P' {
        Some(j - 1)
    } else {
        last_p_in_row(row, j - 1)
    }
}

/// Position of the last `'P'` in the first `i` rows of `level`.
pub open spec fn last_p(level: Seq<Vec<char>>, i: int) -> Option<(int, int)>
    decreases i,
{
    if i <= 0 {
        None
    } else {
        match last_p_in_row(level[i - 1]@, level[i - 1]@.len() as int) {
            Some(j) => Some((i - 1, j)),
            None => last_p(level, i - 1),
        }
    }
}

/// The square a level character describes, at row `i`, column `j`.
pub open spec fn square_of(c: char, i: int, j: int) -> Field {
    Field { x: i as usize, y: j as usize, player: false, boxx: c == 'B', wall: c == 'W', finish: c == 'F' }
}

impl Game {
    /// The warehouse a level describes, row by row: `W` wall, `B` box,
    /// `.` floor, `F` finish, `P` the player (the last one counts; without
    /// one the player starts at the top-left square).
    pub fn from_level(level: &Vec<Vec<char>>) -> (r: Game)
        requires
            level@.len() > 0,
            level@[0]@.len() > 0,
            forall|i: int, j: int| 0 <= i < level@.len() && 0 <= j < level@[i]@.len() ==> level_char(#[trigger] level@[i]@[j]),
        ensures
            r.wf(),
            r.board@.len() == level@.len(),
            (r.player.x as int, r.player.y as int) == match last_p(level@, level@.len() as int) { Some(p) => p, None => (0int, 0int) },
            forall|i: int, j: int| 0 <= i < level@.len() && 0 <= j < level@[i]@.len() ==> r.board@[i]@.len() == level@[i]@.len()
                && #[trigger] at(r.board@, i, j) == (Field {
                    player: (i, j) == (r.player.x as int, r.player.y as int), ..square_of(level@[i]@[j], i, j) }),
    {
        let mut board: Vec<Vec<Field>> = Vec::new();
        let mut player: (usize, usize) = (0, 0);
        let mut found = false;
        let mut i: usize = 0;
        while i < level.len()
            invariant
                i <= level@.len(),
                board@.len() == i,
                forall|k: int, j: int| 0 <= k < level@.len() && 0 <= j < level@[k]@.len() ==> level_char(#[trigger] level@[k]@[j]),
                forall|k: int| 0 <= k < i ==> (#[trigger] board@[k])@.len() == level@[k]@.len(),
                forall|k: int, j: int| 0 <= k < i && 0 <= j < level@[k]@.len() ==> #[trigger] at(board@, k, j) == square_of(level@[k]@[j], k, j),
                found == (last_p(level@, i as int) is Some),
                !found ==> player == (0usize, 0usize),
                level@.len() > 0,
                level@[0]@.len() > 0,
                found ==> last_p(level@, i as int) == Some((player.0 as int, player.1 as int)),
            decreases level@.len() - i,
        {
            let line = &level[i];
            let mut row: Vec<Field> = Vec::new();
            let mut rowp: Option<usize> = None;
            let mut j: usize = 0;
            while j < line.len()
                invariant
                    j <= line@.len(),
                    line@ == level@[i as int]@,
                    i < level@.len(),
                    forall|k: int, jj: int| 0 <= k < level@.len() && 0 <= jj < level@[k]@.len() ==> level_char(#[trigger] level@[k]@[jj]),
                    row@.len() == j,
                    forall|jj: int| 0 <= jj < j ==> #[trigger] row@[jj] == square_of(line@[jj], i as int, jj),
                    rowp == match last_p_in_row(line@, j as int) { Some(c) => Some(c as usize), None => None::<usize> },
                decreases line@.len() - j,
            {
                let c = line[j];
                let mut field = Field::new(i, j);
                if c == 'W' {
                    field.set_wall();
                } else if c == 'B' {
                    field.set_box();
                } else if c == 'F' {
                    field.set_finish();
                } else if c == 'P' {
                    rowp = Some(j);
                }
                row.push(field);
                j = j + 1;
            }
            assert(line@.len() == level@[i as int]@.len());
            match rowp {
                Some(c) => {
                    proof {
                        lemma_last_p_in_row_valid(line@, line@.len() as int);
                        assert(last_p(level@, i + 1) == Some((i as int, c as int)));
                    }
                    player = (i, c);
                    found = true;
                },
                None => {
                    assert(last_p(level@, i + 1) == last_p(level@, i as int));
                },
            }
            let ghost before = board@;
            board.push(row);
            proof {
                assert forall|k: int, jj: int| 0 <= k < i + 1 && 0 <= jj < level@[k]@.len() implies #[trigger] at(board@, k, jj)
                    == square_of(level@[k]@[jj], k, jj) by {
                    if k < i {
                        assert(board@[k] == before[k]);
                        assert(at(before, k, jj) == square_of(level@[k]@[jj], k, jj));
                    } else {
                        assert(board@[k] == row);
                        assert(k == i as int);
                        assert(line@[jj] == level@[k]@[jj]);
                        assert(row@[jj] == square_of(line@[jj], i as int, jj));
                        assert(at(board@, k, jj) == row@[jj]);
                    }
                }
                assert forall|k: int| 0 <= k < i + 1 implies (#[trigger] board@[k])@.len() == level@[k]@.len() by {
                    if k < i {
                        assert(board@[k] == before[k]);
                    }
                }
            }
            i = i + 1;
        }
        let (px, py) = player;
        proof {
            lemma_last_p_valid(level@, level@.len() as int);
            assert(board@[px as int]@.len() == level@[px as int]@.len());
            assert(at(board@, px as int, py as int) == square_of(level@[px as int]@[py as int], px as int, py as int));
        }
        let mut start = board[px][py];
        let ghost b0 = board@;
        let p = Player::new(&mut start);
        set_square(&mut board, px, py, start);
        let g = Game { board, player: p };
        proof {
            assert forall|i: int, j: int| 0 <= i < level@.len() && 0 <= j < level@[i]@.len() implies g.board@[i]@.len() == level@[i]@.len()
                && #[trigger] at(g.board@, i, j) == (Field {
                    player: (i, j) == (g.player.x as int, g.player.y as int), ..square_of(level@[i]@[j], i, j) }) by {
                assert(squares(g.board@)[i][j] == at(g.board@, i, j));
                assert(squares(b0)[i][j] == at(b0, i, j));
                assert(at(b0, i, j) == square_of(level@[i]@[j], i, j));
            }
            assert(g.board@[px as int]@ == squares(g.board@)[px as int]);
        }
        g
    }
}

proof fn lemma_last_p_valid(level: Seq<Vec<char>>, i: int)
    requires
        i <= level.len(),
    ensures
        last_p(level, i) matches Some((a, b)) ==> 0 <= a < i && 0 <= b < level[a]@.len() && level[a]@[b] == 'P',
    decreases i,
{
    if i > 0 {
        lemma_last_p_in_row_valid(level[i - 1]@, level[i - 1]@.len() as int);
        lemma_last_p_valid(level, i - 1);
    }
}

proof fn lemma_last_p_in_row_valid(row: Seq<char>, j: int)
    requires
        j <= row.len(),
    ensures
        last_p_in_row(row, j) matches Some(c) ==> 0 <= c < j && row[c] == 'P',
    decreases j,
{
    if j > 0 {
        lemma_last_p_in_row_valid(row, j - 1);
    }
}
} // verus!
