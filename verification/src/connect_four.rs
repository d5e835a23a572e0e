use vstd::prelude::*;

use crate::key::Key;

verus! {

/// Rows and columns of the board.
pub const SIZE: usize = 10;

/// A playing piece.
#[derive(Clone, Copy, Debug, PartialEq, Eq, Structural)]
pub enum Chip {
    Red,
    Yellow,
}

/// A cell of the board.
#[derive(Clone, Copy, Debug, PartialEq, Eq, Structural)]
pub struct Field {
    pub x: usize,
    pub y: usize,
    pub content: Option<Chip>,
}

impl Field {
    /// Whether a chip lies here.
    pub fn full(&self) -> (r: bool)
        ensures
            r == self.content.is_some(),
    {
        self.content.is_some()
    }

    /// The chip lying here, if any.
    pub fn color(&self) -> (r: Option<Chip>)
        ensures
            r == self.content,
    {
        self.content
    }
}

/// A key press while playing.
#[derive(Clone, Copy, Debug, PartialEq, Eq, Structural)]
pub enum Direction {
    Left,
    Right,
    Enter,
    Nowhere,
}

/// What a key does: Enter drops, the left and right arrows or a and d
/// move.
pub open spec fn key_direction(key: Key) -> Direction {
    match key {
        Key::Enter => Direction::Enter,
        Key::ArrowLeft => Direction::Left,
        Key::ArrowRight => Direction::Right,
        Key::Char(c) => if c == 'a' {
            Direction::Left
        } else if c == 'd' {
            Direction::Right
        } else {
            Direction::Nowhere
        },
        _ => Direction::Nowhere,
    }
}

/// What a key does.
pub fn key_to_direction(key: Key) -> (d: Direction)
    ensures
        d == key_direction(key),
{
    match key {
        Key::Enter => Direction::Enter,
        Key::ArrowLeft => Direction::Left,
        Key::ArrowRight => Direction::Right,
        Key::Char('a') => Direction::Left,
        Key::Char('d') => Direction::Right,
        _ => Direction::Nowhere,
    }
}

/// A SIZE by SIZE board, rows from the top, and the column the next chip
/// is dropped into.
pub struct Board {
    pub board: Vec<Vec<Field>>,
    pub pointer: usize,
}

/// The cell at row `i`, column `j`.
pub open spec fn cell(b: Seq<Vec<Field>>, i: int, j: int) -> Field {
    b[i]@[j]
}

/// Row `i`.
pub open spec fn row_line(b: Seq<Vec<Field>>, i: int) -> Seq<Field> {
    Seq::new(SIZE as nat, |j: int| cell(b, i, j))
}

/// Column `j`.
pub open spec fn column_line(b: Seq<Vec<Field>>, j: int) -> Seq<Field> {
    Seq::new(SIZE as nat, |i: int| cell(b, i, j))
}

/// The four diagonals with offset `i`: down-right from `(i, 0)` and from
/// `(0, i)`, up-right from `(SIZE-1, i)` and from `(SIZE-1-i, 0)`.
pub open spec fn diag_line(b: Seq<Vec<Field>>, i: int, kind: int) -> Seq<Field> {
    Seq::new((SIZE - i) as nat, |j: int|
        if kind == 0 { cell(b, i + j, j) }
        else if kind == 1 { cell(b, j, i + j) }
        else if kind == 2 { cell(b, SIZE - j - 1, i + j) }
        else { cell(b, SIZE - 1 - i - j, j) })
}

/// All diagonals, four per offset `0..SIZE`.
pub open spec fn diag_lines(b: Seq<Vec<Field>>) -> Seq<Seq<Field>> {
    Seq::new(4 * SIZE as nat, |k: int| diag_line(b, k / 4, k % 4))
}

/// All cells of `w` hold the same chip.
pub open spec fn spec_win(w: Seq<Field>) -> bool {
    (forall|k: int| 0 <= k < w.len() ==> w[k].content == Some(Chip::Red))
        || (forall|k: int| 0 <= k < w.len() ==> w[k].content == Some(Chip::Yellow))
}

/// Some four consecutive cells of `line` hold the same chip.
pub open spec fn line_wins(line: Seq<Field>) -> bool {
    exists|s: int| 0 <= s && s + 4 <= line.len() && #[trigger] spec_win(line.subrange(s, s + 4))
}

/// Some row, column or diagonal holds four chips of one colour in a row.
pub open spec fn four_in_a_row(b: Seq<Vec<Field>>) -> bool {
    ||| exists|i: int| 0 <= i < SIZE && #[trigger] line_wins(row_line(b, i))
    ||| exists|j: int| 0 <= j < SIZE && #[trigger] line_wins(column_line(b, j))
    ||| exists|k: int| 0 <= k < 4 * SIZE && #[trigger] line_wins(diag_lines(b)[k])
}

/// The four cells from row `r`, column `c`, stepping `dr` rows and `dc`
/// columns at a time, lie on the board and hold the same chip.
pub open spec fn four_from(b: Seq<Vec<Field>>, r: int, c: int, dr: int, dc: int) -> bool {
    &&& 0 <= r < SIZE && 0 <= c < SIZE
    &&& 0 <= r + 3 * dr < SIZE && 0 <= c + 3 * dc < SIZE
    &&& spec_win(Seq::new(4, |k: int| cell(b, r + k * dr, c + k * dc)))
}

/// Four chips of one colour lie next to each other across, down, or along
/// either diagonal.
pub open spec fn aligned_four(b: Seq<Vec<Field>>) -> bool {
    exists|r: int, c: int|
        #![trigger four_from(b, r, c, 0, 1)]
        #![trigger four_from(b, r, c, 1, 0)]
        #![trigger four_from(b, r, c, 1, 1)]
        #![trigger four_from(b, r, c, -1, 1)]
    {
        ||| four_from(b, r, c, 0, 1)
        ||| four_from(b, r, c, 1, 0)
        ||| four_from(b, r, c, 1, 1)
        ||| four_from(b, r, c, -1, 1)
    }
}

proof fn lemma_window(line: Seq<Field>, s: int, w: Seq<Field>)
    requires
        0 <= s,
        s + 4 <= line.len(),
        w.len() == 4,
        forall|t: int| 0 <= t < 4 ==> line[s + t] == w[t],
    ensures
        line.subrange(s, s + 4) == w,
{
    assert(line.subrange(s, s + 4) =~= w);
}

/// A win along the rows, columns and diagonals the board looks at is
/// exactly four chips of one colour next to each other in one of the four
/// directions.
pub proof fn lemma_four_in_a_row_aligned(b: Seq<Vec<Field>>)
    ensures
        four_in_a_row(b) <==> aligned_four(b),
{
    let n = SIZE as int;
    if four_in_a_row(b) {
        if exists|i: int| 0 <= i < SIZE && #[trigger] line_wins(row_line(b, i)) {
            let i = choose|i: int| 0 <= i < SIZE && #[trigger] line_wins(row_line(b, i));
            let s = choose|s: int| 0 <= s && s + 4 <= row_line(b, i).len() && #[trigger] spec_win(row_line(b, i).subrange(s, s + 4));
            let w = Seq::new(4, |k: int| cell(b, i + k * 0, s + k * 1));
            lemma_window(row_line(b, i), s, w);
            assert(four_from(b, i, s, 0, 1));
        } else if exists|j: int| 0 <= j < SIZE && #[trigger] line_wins(column_line(b, j)) {
            let j = choose|j: int| 0 <= j < SIZE && #[trigger] line_wins(column_line(b, j));
            let s = choose|s: int| 0 <= s && s + 4 <= column_line(b, j).len() && #[trigger] spec_win(column_line(b, j).subrange(s, s + 4));
            let w = Seq::new(4, |k: int| cell(b, s + k * 1, j + k * 0));
            lemma_window(column_line(b, j), s, w);
            assert(four_from(b, s, j, 1, 0));
        } else {
            let k = choose|k: int| 0 <= k < 4 * SIZE && #[trigger] line_wins(diag_lines(b)[k]);
            let line = diag_lines(b)[k];
            let s = choose|s: int| 0 <= s && s + 4 <= line.len() && #[trigger] spec_win(line.subrange(s, s + 4));
            let i = k / 4;
            let kind = k % 4;
            assert(line == diag_line(b, i, kind));
            if kind == 0 {
                let w = Seq::new(4, |t: int| cell(b, (i + s) + t * 1, s + t * 1));
                lemma_window(line, s, w);
                assert(four_from(b, i + s, s, 1, 1));
            } else if kind == 1 {
                let w = Seq::new(4, |t: int| cell(b, s + t * 1, (i + s) + t * 1));
                lemma_window(line, s, w);
                assert(four_from(b, s, i + s, 1, 1));
            } else if kind == 2 {
                let w = Seq::new(4, |t: int| cell(b, (n - 1 - s) + t * -1, (i + s) + t * 1));
                lemma_window(line, s, w);
                assert(four_from(b, n - 1 - s, i + s, -1, 1));
            } else {
                let w = Seq::new(4, |t: int| cell(b, (n - 1 - i - s) + t * -1, s + t * 1));
                lemma_window(line, s, w);
                assert(four_from(b, n - 1 - i - s, s, -1, 1));
            }
        }
    }
    if aligned_four(b) {
        let (r, c) = choose|r: int, c: int|
            #![trigger four_from(b, r, c, 0, 1)]
            #![trigger four_from(b, r, c, 1, 0)]
            #![trigger four_from(b, r, c, 1, 1)]
            #![trigger four_from(b, r, c, -1, 1)]
        {
            ||| four_from(b, r, c, 0, 1)
            ||| four_from(b, r, c, 1, 0)
            ||| four_from(b, r, c, 1, 1)
            ||| four_from(b, r, c, -1, 1)
        };
        if four_from(b, r, c, 0, 1) {
            let w = Seq::new(4, |k: int| cell(b, r + k * 0, c + k * 1));
            lemma_window(row_line(b, r), c, w);
            assert(line_wins(row_line(b, r)));
        } else if four_from(b, r, c, 1, 0) {
            let w = Seq::new(4, |k: int| cell(b, r + k * 1, c + k * 0));
            lemma_window(column_line(b, c), r, w);
            assert(line_wins(column_line(b, c)));
        } else if four_from(b, r, c, 1, 1) {
            let w = Seq::new(4, |k: int| cell(b, r + k * 1, c + k * 1));
            if r >= c {
                let k = 4 * (r - c);
                assert(k / 4 == r - c && k % 4 == 0);
                let line = diag_lines(b)[k];
                assert(line == diag_line(b, r - c, 0));
                lemma_window(line, c, w);
                assert(line_wins(diag_lines(b)[k]));
            } else {
                let k = 4 * (c - r) + 1;
                assert(k / 4 == c - r && k % 4 == 1);
                let line = diag_lines(b)[k];
                assert(line == diag_line(b, c - r, 1));
                lemma_window(line, r, w);
                assert(line_wins(diag_lines(b)[k]));
            }
        } else {
            let w = Seq::new(4, |k: int| cell(b, r + k * -1, c + k * 1));
            if r + c >= n - 1 {
                let i = r + c - (n - 1);
                let k = 4 * i + 2;
                assert(k / 4 == i && k % 4 == 2);
                let line = diag_lines(b)[k];
                assert(line == diag_line(b, i, 2));
                lemma_window(line, n - 1 - r, w);
                assert(line_wins(diag_lines(b)[k]));
            } else {
                let i = n - 1 - (r + c);
                let k = 4 * i + 3;
                assert(k / 4 == i && k % 4 == 3);
                let line = diag_lines(b)[k];
                assert(line == diag_line(b, i, 3));
                lemma_window(line, c, w);
                assert(line_wins(diag_lines(b)[k]));
            }
        }
    }
}

/// The row a chip dropped into column `p` lands on: the first row from the
/// top that is the bottom row or lies above a full cell.
pub open spec fn landing_row(b: Seq<Vec<Field>>, p: int, i: int) -> int
    decreases SIZE - i,
{
    if i >= SIZE - 1 || cell(b, i + 1, p).content is Some {
        i
    } else {
        landing_row(b, p, i + 1)
    }
}

/// The board with the cell at row `i`, column `j` holding chip `c`.
pub open spec fn with_chip(b: Seq<Vec<Field>>, i: int, j: int, c: Chip) -> Seq<Seq<Field>> {
    Seq::new(SIZE as nat, |r: int| if r == i {
        b[r]@.update(j, Field { content: Some(c), ..b[r]@[j] })
    } else {
        b[r]@
    })
}

pub open spec fn rows_of(b: Seq<Vec<Field>>) -> Seq<Seq<Field>> {
    Seq::new(b.len(), |r: int| b[r]@)
}

impl Board {
    /// The board is SIZE by SIZE and the pointer is on it.
    pub open spec fn wf(&self) -> bool {
        &&& self.board@.len() == SIZE
        &&& forall|i: int| 0 <= i < SIZE ==> (#[trigger] self.board@[i])@.len() == SIZE
        &&& self.pointer < SIZE
    }

    /// An empty board with the pointer on the first column.
    pub fn new() -> (r: Self)
        ensures
            r.wf(),
            r.pointer == 0,
            forall|i: int, j: int| 0 <= i < SIZE && 0 <= j < SIZE ==> cell(r.board@, i, j) == (Field { x: 0, y: 0, content: None }),
    {
        let mut board: Vec<Vec<Field>> = Vec::new();
        let mut i: usize = 0;
        while i < SIZE
            invariant
                i <= SIZE,
                board@.len() == i,
                forall|k: int| 0 <= k < i ==> (#[trigger] board@[k])@.len() == SIZE,
                forall|k: int, j: int| 0 <= k < i && 0 <= j < SIZE ==> cell(board@, k, j) == (Field { x: 0, y: 0, content: None }),
            decreases SIZE - i,
        {
            let mut line: Vec<Field> = Vec::new();
            let mut j: usize = 0;
            while j < SIZE
                invariant
                    i < SIZE,
                    board@.len() == i,
                    forall|k: int| 0 <= k < i ==> (#[trigger] board@[k])@.len() == SIZE,
                    forall|k: int, j: int| 0 <= k < i && 0 <= j < SIZE ==> cell(board@, k, j) == (Field { x: 0, y: 0, content: None }),
                    j <= SIZE,
                    line@.len() == j,
                    forall|k: int| 0 <= k < j ==> line@[k] == (Field { x: 0, y: 0, content: None }),
                decreases SIZE - j,
            {
                line.push(Field { x: 0, y: 0, content: None });
                j = j + 1;
            }
            let ghost before = board@;
            board.push(line);
            proof {
                assert forall|k: int, jj: int| 0 <= k < i + 1 && 0 <= jj < SIZE implies cell(board@, k, jj)
                    == (Field { x: 0, y: 0, content: None }) by {
                    if k < i {
                        assert(board@[k] == before[k]);
                        assert(cell(before, k, jj) == (Field { x: 0, y: 0, content: None }));
                    } else {
                        assert(board@[k] == line);
                        assert(line@[jj] == (Field { x: 0, y: 0, content: None }));
                    }
                }
            }
            i = i + 1;
        }
        Board { board, pointer: 0 }
    }

    /// Column `index`, top to bottom.
    pub fn column(&self, index: usize) -> (r: Vec<Field>)
        requires
            self.wf(),
            index < SIZE,
        ensures
            r@ == column_line(self.board@, index as int),
    {
        let mut col: Vec<Field> = Vec::new();
        let mut i: usize = 0;
        while i < SIZE
            invariant
                self.wf(),
                index < SIZE,
                i <= SIZE,
                col@ =~= column_line(self.board@, index as int).take(i as int),
            decreases SIZE - i,
        {
            col.push(self.board[i][index]);
            i = i + 1;
        }
        assert(col@ =~= column_line(self.board@, index as int));
        col
    }

    /// All diagonals (the argument plays no part).
    pub fn diag(&self, index: usize) -> (r: Vec<Vec<Field>>)
        requires
            self.wf(),
        ensures
            r@.len() == 4 * SIZE,
            forall|k: int| 0 <= k < 4 * SIZE ==> (#[trigger] r@[k])@ == diag_lines(self.board@)[k],
    {
        let board = &self.board;
        let mut col: Vec<Vec<Field>> = Vec::new();
        let mut i: usize = 0;
        while i < SIZE
            invariant
                self.wf(),
                board == &self.board,
                i <= SIZE,
                col@.len() == 4 * i,
                forall|k: int| 0 <= k < 4 * i ==> (#[trigger] col@[k])@ == diag_lines(self.board@)[k],
            decreases SIZE - i,
        {
            let mut pos1: Vec<Field> = Vec::new();
            let mut pos2: Vec<Field> = Vec::new();
            let mut neg1: Vec<Field> = Vec::new();
            let mut neg2: Vec<Field> = Vec::new();
            let mut j: usize = 0;
            while j < SIZE - i
                invariant
                    self.wf(),
                    board == &self.board,
                    i < SIZE,
                    j <= SIZE - i,
                    pos1@ =~= diag_line(self.board@, i as int, 0).take(j as int),
                    pos2@ =~= diag_line(self.board@, i as int, 1).take(j as int),
                    neg1@ =~= diag_line(self.board@, i as int, 2).take(j as int),
                    neg2@ =~= diag_line(self.board@, i as int, 3).take(j as int),
                decreases SIZE - i - j,
            {
                pos1.push(board[i + j][j]);
                pos2.push(board[j][i + j]);
                neg1.push(board[SIZE - j - 1][i + j]);
                neg2.push(board[SIZE - 1 - i - j][j]);
                j = j + 1;
            }
            assert(pos1@ =~= diag_line(self.board@, i as int, 0));
            assert(pos2@ =~= diag_line(self.board@, i as int, 1));
            assert(neg1@ =~= diag_line(self.board@, i as int, 2));
            assert(neg2@ =~= diag_line(self.board@, i as int, 3));
            col.push(pos1);
            col.push(pos2);
            col.push(neg1);
            col.push(neg2);
            proof {
                assert forall|k: int| 0 <= k < 4 * (i + 1) implies (#[trigger] col@[k])@ == diag_lines(self.board@)[k] by {
                    if k >= 4 * i {
                        assert(k / 4 == i);
                    }
                }
            }
            i = i + 1;
        }
        col
    }

    /// Whether all cells of `win` hold the same chip.
    pub fn win(win: &[Field]) -> (r: bool)
        ensures
            r == spec_win(win@),
    {
        let mut all_red = true;
        let mut all_yellow = true;
        let mut k: usize = 0;
        while k < win.len()
            invariant
                k <= win@.len(),
                all_red == (forall|m: int| 0 <= m < k ==> win@[m].content == Some(Chip::Red)),
                all_yellow == (forall|m: int| 0 <= m < k ==> win@[m].content == Some(Chip::Yellow)),
            decreases win@.len() - k,
        {
            let c = win[k].color();
            all_red = all_red && c == Some(Chip::Red);
            all_yellow = all_yellow && c == Some(Chip::Yellow);
            k = k + 1;
        }
        all_red || all_yellow
    }

    /// Whether some four consecutive cells of `line` win.
    fn line_wins(line: &Vec<Field>) -> (r: bool)
        ensures
            r == line_wins(line@),
    {
        if line.len() < 4 {
            return false;
        }
        let mut s: usize = 0;
        while s <= line.len() - 4
            invariant
                line@.len() >= 4,
                s <= line@.len() - 3,
                forall|t: int| 0 <= t < s ==> !spec_win(#[trigger] line@.subrange(t, t + 4)),
            decreases line@.len() - s,
        {
            let w = vstd::slice::slice_subrange(line.as_slice(), s, s + 4);
            if Self::win(w) {
                return true;
            }
            s = s + 1;
        }
        false
    }

    /// Whether some row, column or diagonal has four chips of one colour in
    /// a row.
    pub fn check(&self) -> (r: bool)
        requires
            self.wf(),
        ensures
            r == four_in_a_row(self.board@),
    {
        let mut i: usize = 0;
        while i < SIZE
            invariant
                self.wf(),
                i <= SIZE,
                forall|k: int| 0 <= k < i ==> !line_wins(#[trigger] row_line(self.board@, k)),
            decreases SIZE - i,
        {
            assert(self.board@[i as int]@ =~= row_line(self.board@, i as int));
            if Self::line_wins(&self.board[i]) {
                return true;
            }
            i = i + 1;
        }
        let mut j: usize = 0;
        while j < SIZE
            invariant
                self.wf(),
                j <= SIZE,
                forall|k: int| 0 <= k < SIZE ==> !line_wins(#[trigger] row_line(self.board@, k)),
                forall|k: int| 0 <= k < j ==> !line_wins(#[trigger] column_line(self.board@, k)),
            decreases SIZE - j,
        {
            let column = self.column(j);
            if Self::line_wins(&column) {
                return true;
            }
            j = j + 1;
        }
        let mut d: usize = 0;
        while d < SIZE
            invariant
                self.wf(),
                d <= SIZE,
                forall|k: int| 0 <= k < SIZE ==> !line_wins(#[trigger] row_line(self.board@, k)),
                forall|k: int| 0 <= k < SIZE ==> !line_wins(#[trigger] column_line(self.board@, k)),
                d > 0 ==> forall|k: int| 0 <= k < 4 * SIZE ==> !line_wins(#[trigger] diag_lines(self.board@)[k]),
            decreases SIZE - d,
        {
            let diagonals = self.diag(d);
            let mut k: usize = 0;
            while k < diagonals.len()
                invariant
                    self.wf(),
                    diagonals@.len() == 4 * SIZE,
                    forall|m: int| 0 <= m < 4 * SIZE ==> (#[trigger] diagonals@[m])@ == diag_lines(self.board@)[m],
                    k <= diagonals@.len(),
                    forall|m: int| 0 <= m < k ==> !line_wins(#[trigger] diag_lines(self.board@)[m]),
                decreases diagonals@.len() - k,
            {
                if Self::line_wins(&diagonals[k]) {
                    assert(line_wins(diag_lines(self.board@)[k as int]));
                    return true;
                }
                k = k + 1;
            }
            d = d + 1;
        }
        false
    }

    /// Drops chip `c` into the pointed column: it lands on the first row
    /// from the top that is the bottom row or lies above a full cell.
    /// Refused (`false`) when the top cell of the column is full.
    pub fn put(&mut self, c: Chip) -> (r: bool)
        requires
            old(self).wf(),
        ensures
            final(self).wf(),
            final(self).pointer == old(self).pointer,
            r == cell(old(self).board@, 0, old(self).pointer as int).content.is_none(),
            !r ==> final(self).board@ == old(self).board@,
            r ==> rows_of(final(self).board@) == with_chip(old(self).board@,
                landing_row(old(self).board@, old(self).pointer as int, 0), old(self).pointer as int, c),
    {
        let p = self.pointer;
        if self.board[0][p].full() {
            return false;
        }
        let mut i: usize = 0;
        while i < SIZE
            invariant
                self.wf(),
                *self == *old(self),
                p == self.pointer,
                cell(old(self).board@, 0, p as int).content.is_none(),
                i < SIZE,
                landing_row(self.board@, p as int, 0) == landing_row(self.board@, p as int, i as int),
            decreases SIZE - i,
        {
            if i == SIZE - 1 || self.board[i + 1][p].full() {
                let ghost b = self.board@;
                let mut line = self.board.remove(i);
                let mut f = line[p];
                f.content = Some(c);
                line.set(p, f);
                self.board.insert(i, line);
                proof {
                    assert(rows_of(self.board@) =~= with_chip(b, i as int, p as int, c));
                    assert forall|k: int| 0 <= k < SIZE implies (#[trigger] self.board@[k])@.len() == SIZE by {
                        if k != i {
                            assert(self.board@[k] == b[k]);
                        }
                    }
                }
                return true;
            }
            i = i + 1;
        }
        false
    }

    /// Handles a key: left and right move the pointer, wrapping around at
    /// either end; enter drops `chip` and passes the turn, unless the
    /// column is full. Returns whose turn it is next.
    pub fn step(&mut self, key: Direction, chip: Chip) -> (next: Chip)
        requires
            old(self).wf(),
        ensures
            final(self).wf(),
            key == Direction::Right ==> final(self).pointer == (old(self).pointer + 1) % (SIZE as int)
                && final(self).board@ == old(self).board@ && next == chip,
            key == Direction::Left ==> final(self).pointer == (if old(self).pointer == 0 { (SIZE - 1) as usize } else { (old(self).pointer - 1) as usize })
                && final(self).board@ == old(self).board@ && next == chip,
            key == Direction::Nowhere ==> *final(self) == *old(self) && next == chip,
            key == Direction::Enter ==> final(self).pointer == old(self).pointer
                && (cell(old(self).board@, 0, old(self).pointer as int).content.is_none() ==> next != chip
                    && rows_of(final(self).board@) == with_chip(old(self).board@,
                        landing_row(old(self).board@, old(self).pointer as int, 0), old(self).pointer as int, chip))
                && (cell(old(self).board@, 0, old(self).pointer as int).content.is_some() ==> next == chip
                    && final(self).board@ == old(self).board@),
    {
        match key {
            Direction::Right => {
                self.pointer = (self.pointer + 1) % SIZE;
                chip
            },
            Direction::Left => {
                let back = self.pointer.wrapping_sub(1);
                self.pointer = if back < SIZE - 1 { back } else { SIZE - 1 };
                chip
            },
            Direction::Enter => {
                if !self.put(chip) {
                    return chip;
                }
                match chip {
                    Chip::Yellow => Chip::Red,
                    Chip::Red => Chip::Yellow,
                }
            },
            Direction::Nowhere => chip,
        }
    }
}

} // verus!
