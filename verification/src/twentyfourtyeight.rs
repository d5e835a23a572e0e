use vstd::prelude::*;
use vstd::arithmetic::power2::pow2;

use crate::maze::{Board, Direction, Point};
use crate::number::{spec_trailing_zeros, tile_fits, tile_points, Number};
use crate::random::random_below;
use crate::upgrade::{spec_combine, CombineFn};

verus! {

/// The tiles kept after sliding the first `k` tiles of `row` towards its
/// start, and whether anything moved or merged. Tiles are taken in order;
/// a tile equal to the last kept one merges into it (possibly leaving a
/// bonus tile behind it), any other tile is kept after it.
pub open spec fn merge_upto(row: Seq<Number>, f: CombineFn, k: nat) -> (Seq<usize>, bool)
    decreases k,
{
    if k == 0 || k > row.len() {
        (Seq::empty(), false)
    } else {
        let (st, ch) = merge_upto(row, f, (k - 1) as nat);
        match row[k - 1].value {
            None => (st, ch),
            Some(v) => if st.len() > 0 && st.last() == v {
                let (t2, extra) = spec_combine(f, v);
                let st2 = st.drop_last().push(t2);
                (match extra { Some(a) => st2.push(a), None => st2 }, true)
            } else {
                (st.push(v), ch || st.len() != k - 1)
            },
        }
    }
}

/// `kept` as a row of `len` tiles: the kept tiles first, then empty ones.
pub open spec fn pad_row(kept: Seq<usize>, len: nat) -> Seq<Number> {
    Seq::new(len, |j: int| if j < kept.len() { Number { value: Some(kept[j]) } } else { Number { value: None } })
}

/// The row after sliding it towards its start.
pub open spec fn merged_row(row: Seq<Number>, f: CombineFn) -> Seq<Number> {
    pad_row(merge_upto(row, f, row.len()).0, row.len())
}

/// Whether sliding the row moves or merges any tile.
pub open spec fn row_changed(row: Seq<Number>, f: CombineFn) -> bool {
    merge_upto(row, f, row.len()).1
}

/// Exponents in the row leave room for `row.len()` merges.
pub open spec fn row_bounded(row: Seq<Number>, f: CombineFn) -> bool {
    &&& forall|j: int| 0 <= j < row.len() ==> ((#[trigger] row[j]).value matches Some(v) ==> v + row.len() < usize::MAX)
    &&& f matches CombineFn::Bonus(_, a) ==> a + row.len() < usize::MAX
}

/// Slides a row towards its start, merging equal tiles by `f`; tells
/// whether anything moved or merged.
fn iter_row(fields: &mut Vec<Number>, f: CombineFn) -> (change: bool)
    requires
        row_bounded(old(fields)@, f),
    ensures
        final(fields)@ == merged_row(old(fields)@, f),
        change == row_changed(old(fields)@, f),
{
    let ghost row = fields@;
    let len = fields.len();
    let mut stack: Vec<usize> = Vec::new();
    let mut change = false;
    let mut k: usize = 0;
    while k < len
        invariant
            fields@ == row,
            len == row.len(),
            k <= len,
            row_bounded(row, f),
            (stack@, change) == merge_upto(row, f, k as nat),
            stack@.len() <= k,
            forall|j: int| 0 <= j < stack@.len() ==> stack@[j] + len < usize::MAX + k,
        decreases len - k,
    {
        match fields[k].value {
            None => {},
            Some(v) => {
                let sl = stack.len();
                if sl > 0 && stack[sl - 1] == v {
                    let (t2, extra) = f.apply(v, v);
                    stack.set(sl - 1, t2);
                    match extra {
                        Some(a) => stack.push(a),
                        None => {},
                    }
                    change = true;
                } else {
                    if sl != k {
                        change = true;
                    }
                    stack.push(v);
                }
            },
        }
        k = k + 1;
    }
    let mut j: usize = 0;
    let ghost kept = stack@;
    while j < len
        invariant
            kept == stack@,
            kept == merge_upto(row, f, len as nat).0,
            kept.len() <= len,
            len == row.len(),
            fields@.len() == len,
            j <= len,
            forall|i: int| 0 <= i < j ==> fields@[i] == pad_row(kept, len as nat)[i],
        decreases len - j,
    {
        if j < stack.len() {
            fields.set(j, Number { value: Some(stack[j]) });
        } else {
            fields.set(j, Number::none());
        }
        j = j + 1;
    }
    assert(fields@ =~= merged_row(row, f));
    change
}

/// Number of tiles among the first `k` cells of `row`.
pub open spec fn tiles_upto(row: Seq<Number>, k: int) -> nat
    decreases k,
{
    if k <= 0 {
        0
    } else {
        tiles_upto(row, k - 1) + if row[k - 1].value is Some { 1nat } else { 0nat }
    }
}

/// A sign, kept while sliding on, that the slid row will differ from
/// `row`: fewer tiles kept than seen, a kept tile on a cell that was empty,
/// or a kept tile, other than the last, that differs from the cell it lies
/// on.
spec fn will_differ(row: Seq<Number>, st: Seq<usize>, k: int) -> bool {
    ||| tiles_upto(row, k) > st.len()
    ||| exists|j: int| 0 <= j < st.len() && #[trigger] row[j].value is None
    ||| exists|j: int| 0 <= j < st.len() - 1 && #[trigger] row[j] != (Number { value: Some(st[j]) })
}

proof fn lemma_merge_trace(row: Seq<Number>, f: CombineFn, k: nat)
    requires
        k <= row.len(),
        row_bounded(row, f),
    ensures
        merge_upto(row, f, k).0.len() <= k,
        !merge_upto(row, f, k).1 ==> pad_row(merge_upto(row, f, k).0, k) == row.take(k as int),
        merge_upto(row, f, k).1 ==> will_differ(row, merge_upto(row, f, k).0, k as int),
    decreases k,
{
    if k > 0 {
        lemma_merge_trace(row, f, (k - 1) as nat);
        let (st, ch) = merge_upto(row, f, (k - 1) as nat);
        let (st2, ch2) = merge_upto(row, f, k);
        let i = k - 1;
        match row[i].value {
            None => {
                if !ch {
                    assert(pad_row(st2, k) =~= row.take(k as int));
                } else {
                    if tiles_upto(row, i) > st.len() {
                    } else if exists|j: int| 0 <= j < st.len() && #[trigger] row[j].value is None {
                    } else {
                        let j = choose|j: int| 0 <= j < st.len() - 1 && #[trigger] row[j] != (Number { value: Some(st[j]) });
                        assert(row[j] != (Number { value: Some(st2[j]) }));
                    }
                }
            },
            Some(v) => {
                assert(v + row.len() < usize::MAX);
                if st.len() > 0 && st.last() == v {
                    let (t2, extra) = spec_combine(f, v);
                    assert(t2 == v + 1);
                    let base = st.drop_last().push(t2);
                    assert(st2 == match extra { Some(a) => base.push(a), None => base });
                    assert forall|j: int| 0 <= j < st.len() - 1 implies st2[j] == st[j] by {}
                    if !ch {
                        assert(row.take(k - 1)[st.len() - 1] == pad_row(st, (k - 1) as nat)[st.len() - 1]);
                        assert(row[st.len() - 1] == (Number { value: Some(v) }));
                        match extra {
                            None => {
                                assert(tiles_upto(row, st.len() as int) == st.len()) by {
                                    lemma_tiles_of_prefix(row, st, (k - 1) as nat, st.len() as int);
                                }
                                lemma_tiles_mono(row, st.len() as int, k - 1);
                                assert(tiles_upto(row, k as int) > st2.len());
                            },
                            Some(a) => {
                                let j = st.len() - 1;
                                assert(row[j] != (Number { value: Some(st2[j]) }));
                            },
                        }
                    } else {
                        if tiles_upto(row, i) > st.len() {
                            assert(tiles_upto(row, k as int) == tiles_upto(row, i) + 1);
                        } else if exists|j: int| 0 <= j < st.len() && #[trigger] row[j].value is None {
                            let j = choose|j: int| 0 <= j < st.len() && #[trigger] row[j].value is None;
                            assert(0 <= j < st2.len());
                        } else {
                            let j = choose|j: int| 0 <= j < st.len() - 1 && #[trigger] row[j] != (Number { value: Some(st[j]) });
                            assert(row[j] != (Number { value: Some(st2[j]) }));
                        }
                    }
                } else {
                    assert(st2 == st.push(v));
                    if !ch {
                        if st.len() == i {
                            assert(pad_row(st2, k) =~= row.take(k as int));
                        } else {
                            let j = st.len() as int;
                            assert(row.take(k - 1)[j] == pad_row(st, (k - 1) as nat)[j]);
                            assert(row[j].value is None);
                            assert(0 <= j < st2.len());
                        }
                    } else {
                        if tiles_upto(row, i) > st.len() {
                            assert(tiles_upto(row, k as int) == tiles_upto(row, i) + 1);
                        } else if exists|j: int| 0 <= j < st.len() && #[trigger] row[j].value is None {
                            let j = choose|j: int| 0 <= j < st.len() && #[trigger] row[j].value is None;
                            assert(0 <= j < st2.len());
                        } else {
                            let j = choose|j: int| 0 <= j < st.len() - 1 && #[trigger] row[j] != (Number { value: Some(st[j]) });
                            assert(row[j] != (Number { value: Some(st2[j]) }));
                        }
                    }
                }
            },
        }
    }
}

proof fn lemma_tiles_of_prefix(row: Seq<Number>, st: Seq<usize>, n: nat, k: int)
    requires
        n <= row.len(),
        st.len() <= n,
        pad_row(st, n) == row.take(n as int),
        0 <= k <= st.len(),
    ensures
        tiles_upto(row, k) == k,
    decreases k,
{
    if k > 0 {
        lemma_tiles_of_prefix(row, st, n, k - 1);
        assert(row.take(n as int)[k - 1] == pad_row(st, n)[k - 1]);
    }
}

proof fn lemma_tiles_mono(row: Seq<Number>, a: int, b: int)
    requires
        0 <= a <= b,
    ensures
        tiles_upto(row, a) <= tiles_upto(row, b),
    decreases b - a,
{
    if a < b {
        lemma_tiles_mono(row, a, b - 1);
    }
}

proof fn lemma_tiles_of_pad(st: Seq<usize>, n: nat, k: int)
    requires
        st.len() <= n,
        0 <= k <= n,
    ensures
        tiles_upto(pad_row(st, n), k) == if k < st.len() { k } else { st.len() as int },
    decreases k,
{
    if k > 0 {
        lemma_tiles_of_pad(st, n, k - 1);
    }
}

/// Sliding a row reports a change exactly when the row it leaves differs
/// from the row it was given.
pub proof fn lemma_row_changed_iff(row: Seq<Number>, f: CombineFn)
    requires
        row_bounded(row, f),
    ensures
        row_changed(row, f) <==> merged_row(row, f) != row,
{
    let n = row.len();
    lemma_merge_trace(row, f, n);
    let (st, ch) = merge_upto(row, f, n);
    let out = pad_row(st, n);
    if !ch {
        assert(row.take(n as int) =~= row);
    } else {
        if out == row {
            if tiles_upto(row, n as int) > st.len() {
                lemma_tiles_of_pad(st, n, n as int);
            } else if exists|j: int| 0 <= j < st.len() && #[trigger] row[j].value is None {
                let j = choose|j: int| 0 <= j < st.len() && #[trigger] row[j].value is None;
                assert(out[j].value is Some);
            } else {
                let j = choose|j: int| 0 <= j < st.len() - 1 && #[trigger] row[j] != (Number { value: Some(st[j]) });
                assert(out[j] == (Number { value: Some(st[j]) }));
            }
        }
    }
}

/// Points of the tiles of a row.
pub open spec fn row_points(row: Seq<Number>) -> nat
    decreases row.len(),
{
    if row.len() == 0 {
        0
    } else {
        row_points(row.drop_last()) + tile_points(row.last())
    }
}

/// Points of the kept tiles, given by their exponents.
spec fn kept_points(st: Seq<usize>) -> nat
    decreases st.len(),
{
    if st.len() == 0 {
        0
    } else {
        kept_points(st.drop_last()) + pow2(st.last() as nat)
    }
}

proof fn lemma_merge_points(row: Seq<Number>, k: nat)
    requires
        k <= row.len(),
        row_bounded(row, CombineFn::Standard),
    ensures
        kept_points(merge_upto(row, CombineFn::Standard, k).0) == row_points(row.take(k as int)),
    decreases k,
{
    if k > 0 {
        lemma_merge_points(row, (k - 1) as nat);
        assert(row.take(k as int).drop_last() =~= row.take(k - 1));
        let st = merge_upto(row, CombineFn::Standard, (k - 1) as nat).0;
        if let Some(v) = row[k - 1].value {
            assert(v + row.len() < usize::MAX);
            if st.len() > 0 && st.last() == v {
                let st2 = st.drop_last().push((v + 1) as usize);
                assert(st2.drop_last() =~= st.drop_last());
                vstd::arithmetic::power2::lemma_pow2_unfold((v + 1) as nat);
            } else {
                assert(st.push(v).drop_last() =~= st);
            }
        }
    }
}

proof fn lemma_pad_tail(st: Seq<usize>, n: nat)
    ensures
        row_points(pad_row(st, n)) == kept_points(st.take(if n < st.len() { n as int } else { st.len() as int })),
    decreases n,
{
    if n == 0 {
        assert(st.take(0) =~= Seq::<usize>::empty());
    } else {
        assert(pad_row(st, n).drop_last() =~= pad_row(st, (n - 1) as nat));
        lemma_pad_tail(st, (n - 1) as nat);
        if n <= st.len() {
            assert(st.take(n as int).drop_last() =~= st.take(n - 1));
        }
    }
}

/// Sliding a row with the standard rule keeps the points on it: two equal
/// tiles make one worth both.
pub proof fn lemma_row_points_kept(row: Seq<Number>)
    requires
        row_bounded(row, CombineFn::Standard),
    ensures
        row_points(merged_row(row, CombineFn::Standard)) == row_points(row),
{
    let n = row.len();
    lemma_merge_points(row, n);
    lemma_merge_trace(row, CombineFn::Standard, n);
    let st = merge_upto(row, CombineFn::Standard, n).0;
    lemma_pad_tail(st, n);
    assert(st.take(st.len() as int) =~= st);
    assert(row.take(n as int) =~= row);
}

// ---------------------------------------------------------------------------
// Moving a whole board.

/// The board's cells are exactly the points of its `max.x` by `max.y` area.
pub open spec fn rect_exact(m: Map<Point, Number>, max: Point) -> bool {
    forall|p: Point| #[trigger] m.contains_key(p) <==> (p.x < max.x && p.y < max.y)
}

/// Number of lines a move in direction `d` slides.
pub open spec fn num_lines(max: Point, d: Direction) -> nat {
    if max.x == 0 || max.y == 0 {
        0
    } else {
        match d {
            Direction::Left | Direction::Right => max.y as nat,
            Direction::Up | Direction::Down => max.x as nat,
            Direction::Nowhere => 0,
        }
    }
}

/// Length of each line a move in direction `d` slides.
pub open spec fn line_len(max: Point, d: Direction) -> nat {
    match d {
        Direction::Left | Direction::Right => max.x as nat,
        Direction::Up | Direction::Down => max.y as nat,
        Direction::Nowhere => 0,
    }
}

/// The `j`-th cell of line `k`, counted from the edge the tiles slide to.
pub open spec fn line_point(max: Point, d: Direction, k: int, j: int) -> Point {
    match d {
        Direction::Left => Point { x: j as usize, y: k as usize },
        Direction::Right => Point { x: (max.x - 1 - j) as usize, y: k as usize },
        Direction::Up => Point { x: k as usize, y: j as usize },
        Direction::Down => Point { x: k as usize, y: (max.y - 1 - j) as usize },
        Direction::Nowhere => Point { x: 0, y: 0 },
    }
}

/// The cells of line `k`, in sliding order.
pub open spec fn line_of(max: Point, d: Direction, k: int) -> Seq<Point> {
    Seq::new(line_len(max, d), |j: int| line_point(max, d, k, j))
}

/// Which line a cell belongs to.
pub open spec fn line_index(d: Direction, p: Point) -> int {
    match d {
        Direction::Left | Direction::Right => p.y as int,
        _ => p.x as int,
    }
}

/// The tiles on the given cells.
pub open spec fn line_values(m: Map<Point, Number>, pts: Seq<Point>) -> Seq<Number> {
    Seq::new(pts.len(), |j: int| m[pts[j]])
}

/// `m` with the first `j` cells of `pts` set to the matching tiles of `vals`.
pub open spec fn write_line(m: Map<Point, Number>, pts: Seq<Point>, vals: Seq<Number>, j: nat) -> Map<Point, Number>
    decreases j,
{
    if j == 0 {
        m
    } else {
        write_line(m, pts, vals, (j - 1) as nat).insert(pts[j - 1], vals[j - 1])
    }
}

/// The board and change flag after sliding the first `k` lines.
pub open spec fn play_lines(m: Map<Point, Number>, max: Point, d: Direction, f: CombineFn, k: nat) -> (Map<Point, Number>, bool)
    decreases k,
{
    if k == 0 {
        (m, false)
    } else {
        let (m1, c1) = play_lines(m, max, d, f, (k - 1) as nat);
        let pts = line_of(max, d, k - 1);
        let row = line_values(m1, pts);
        (write_line(m1, pts, merged_row(row, f), pts.len()), c1 || row_changed(row, f))
    }
}

/// Every cell holds a tile.
pub open spec fn all_filled(m: Map<Point, Number>) -> bool {
    forall|p: Point| #[trigger] m.contains_key(p) ==> m[p].value is Some
}

/// The outcome of a move: `m_new` and the reported points `r` follow from
/// board `m` by sliding all lines in direction `d`; when anything changed
/// and some cell is empty, a 2 (exponent 1) lands on one empty cell.
pub open spec fn played(m: Map<Point, Number>, max: Point, d: Direction, f: CombineFn, m_new: Map<Point, Number>, r: usize) -> bool {
    if d == Direction::Nowhere {
        m_new == m && r == 0
    } else {
        let (m2, ch) = play_lines(m, max, d, f, num_lines(max, d));
        if !ch || all_filled(m2) {
            m_new == m2 && r == 0
        } else {
            &&& r == 2
            &&& exists|p: Point| #[trigger] m2.contains_key(p) && m2[p].value is None
                && m_new == m2.insert(p, Number { value: Some(1) })
        }
    }
}

/// Exponents on the board leave room for a move's merges.
pub open spec fn board_bounded(m: Map<Point, Number>, max: Point, f: CombineFn) -> bool {
    &&& forall|p: Point| #[trigger] m.contains_key(p) ==> (m[p].value matches Some(e) ==> e + max.x + max.y < usize::MAX)
    &&& f matches CombineFn::Bonus(_, a) ==> a + max.x + max.y < usize::MAX
}

proof fn lemma_write_line_other(m: Map<Point, Number>, pts: Seq<Point>, vals: Seq<Number>, j: nat, p: Point)
    requires
        forall|i: int| 0 <= i < j ==> pts[i] != p,
    ensures
        write_line(m, pts, vals, j).contains_key(p) == m.contains_key(p),
        write_line(m, pts, vals, j)[p] == m[p],
    decreases j,
{
    if j > 0 {
        lemma_write_line_other(m, pts, vals, (j - 1) as nat, p);
    }
}

pub proof fn lemma_write_line_dom(m: Map<Point, Number>, pts: Seq<Point>, vals: Seq<Number>, j: nat)
    requires
        j <= pts.len(),
        forall|i: int| 0 <= i < j ==> m.contains_key(#[trigger] pts[i]),
    ensures
        write_line(m, pts, vals, j).dom() == m.dom(),
    decreases j,
{
    if j > 0 {
        lemma_write_line_dom(m, pts, vals, (j - 1) as nat);
        assert(write_line(m, pts, vals, j).dom() =~= m.dom());
    }
}

proof fn lemma_line_point(max: Point, d: Direction, k: int, j: int)
    requires
        d != Direction::Nowhere,
        0 <= k < num_lines(max, d),
        0 <= j < line_len(max, d),
    ensures
        line_point(max, d, k, j).x < max.x,
        line_point(max, d, k, j).y < max.y,
        line_index(d, line_point(max, d, k, j)) == k,
{
}

proof fn lemma_line_distinct(max: Point, d: Direction, k: int, i: int, j: int)
    requires
        d != Direction::Nowhere,
        0 <= k < num_lines(max, d),
        0 <= i < line_len(max, d),
        0 <= j < line_len(max, d),
        i != j,
    ensures
        line_point(max, d, k, i) != line_point(max, d, k, j),
{
}

proof fn lemma_write_same(m: Map<Point, Number>, pts: Seq<Point>, j: nat)
    requires
        j <= pts.len(),
        forall|i: int| 0 <= i < j ==> m.contains_key(#[trigger] pts[i]),
    ensures
        write_line(m, pts, line_values(m, pts), j) == m,
    decreases j,
{
    if j > 0 {
        lemma_write_same(m, pts, (j - 1) as nat);
        assert(m.insert(pts[j - 1], m[pts[j - 1]]) =~= m);
    }
}

proof fn lemma_write_at(m: Map<Point, Number>, pts: Seq<Point>, vals: Seq<Number>, n: nat, j: int)
    requires
        n <= pts.len(),
        0 <= j < n,
        forall|a: int, b: int| 0 <= a < n && 0 <= b < n && a != b ==> pts[a] != pts[b],
    ensures
        write_line(m, pts, vals, n)[pts[j]] == vals[j],
    decreases n,
{
    if j < n - 1 {
        lemma_write_at(m, pts, vals, (n - 1) as nat, j);
    }
}

#[verifier::spinoff_prover]
proof fn lemma_play_trace(m: Map<Point, Number>, max: Point, d: Direction, f: CombineFn, k: nat)
    requires
        rect_exact(m, max),
        board_bounded(m, max, f),
        d != Direction::Nowhere,
        k <= num_lines(max, d),
    ensures
        play_lines(m, max, d, f, k).0.dom() == m.dom(),
        forall|p: Point| m.contains_key(p) && line_index(d, p) >= k ==> #[trigger] play_lines(m, max, d, f, k).0[p] == m[p],
        !play_lines(m, max, d, f, k).1 ==> play_lines(m, max, d, f, k).0 == m,
        play_lines(m, max, d, f, k).1 ==> exists|p: Point| m.contains_key(p) && line_index(d, p) < k
            && #[trigger] play_lines(m, max, d, f, k).0[p] != m[p],
    decreases k,
{
    if k > 0 {
        let kk = (k - 1) as int;
        lemma_play_trace(m, max, d, f, (k - 1) as nat);
        let (m1, c1) = play_lines(m, max, d, f, (k - 1) as nat);
        let pts = line_of(max, d, kk);
        let row = line_values(m1, pts);
        let merged = merged_row(row, f);
        let m2 = write_line(m1, pts, merged, pts.len());
        assert(play_lines(m, max, d, f, k) == (m2, c1 || row_changed(row, f)));
        assert forall|j: int| 0 <= j < pts.len() implies m.contains_key(#[trigger] pts[j]) && line_index(d, pts[j]) == kk by {
            lemma_line_point(max, d, kk, j);
        }
        assert forall|a: int, b: int| 0 <= a < pts.len() && 0 <= b < pts.len() && a != b implies pts[a] != pts[b] by {
            lemma_line_distinct(max, d, kk, a, b);
        }
        assert(row == line_values(m, pts)) by {
            assert forall|j: int| 0 <= j < pts.len() implies row[j] == line_values(m, pts)[j] by {
                assert(m1[pts[j]] == m[pts[j]]);
            }
            assert(row =~= line_values(m, pts));
        }
        assert(row_bounded(row, f)) by {
            assert forall|j: int| 0 <= j < row.len() implies ((#[trigger] row[j]).value matches Some(v) ==> v + row.len() < usize::MAX) by {
                assert(m.contains_key(pts[j]));
            }
        }
        lemma_write_line_dom(m1, pts, merged, pts.len());
        assert forall|p: Point| m.contains_key(p) && line_index(d, p) != kk implies #[trigger] m2[p] == m1[p] by {
            lemma_write_line_other(m1, pts, merged, pts.len(), p);
        }
        lemma_row_changed_iff(row, f);
        if row_changed(row, f) {
            assert(merged.len() == row.len()) by {
                assert(merged_row(row, f).len() == row.len());
            }
            if forall|jj: int| 0 <= jj < merged.len() ==> merged[jj] == row[jj] {
                assert(merged =~= row);
            }
            let j = choose|jj: int| 0 <= jj < merged.len() && merged[jj] != row[jj];
            lemma_write_at(m1, pts, merged, pts.len(), j);
            let p = pts[j];
            assert(m2[p] != m[p]);
            assert(line_index(d, p) < k);
            assert(m.contains_key(p) && line_index(d, p) < k && play_lines(m, max, d, f, k).0[p] != m[p]);
        } else {
            assert(merged == row);
            lemma_write_same(m1, pts, pts.len());
            assert(m2 == m1);
        }
        if c1 {
            let p = choose|p: Point| m.contains_key(p) && line_index(d, p) < kk && #[trigger] m1[p] != m[p];
            assert(m2[p] == m1[p]);
            assert(m.contains_key(p) && line_index(d, p) < k && play_lines(m, max, d, f, k).0[p] != m[p]);
        }
    }
}

/// Sliding the whole board reports a change exactly when some cell of the
/// board changed.
pub proof fn lemma_board_changed_iff(m: Map<Point, Number>, max: Point, d: Direction, f: CombineFn)
    requires
        rect_exact(m, max),
        board_bounded(m, max, f),
        d != Direction::Nowhere,
    ensures
        play_lines(m, max, d, f, num_lines(max, d)).1 <==> play_lines(m, max, d, f, num_lines(max, d)).0 != m,
{
    lemma_play_trace(m, max, d, f, num_lines(max, d));
}

proof fn lemma_play_packed(m: Map<Point, Number>, max: Point, d: Direction, f: CombineFn, k: nat)
    requires
        d != Direction::Nowhere,
        k <= num_lines(max, d),
    ensures
        forall|kk: int, j1: int, j2: int| 0 <= kk < k && 0 <= j1 < j2 < line_len(max, d)
            && (#[trigger] play_lines(m, max, d, f, k).0[line_point(max, d, kk, j1)]).value is None
            ==> (#[trigger] play_lines(m, max, d, f, k).0[line_point(max, d, kk, j2)]).value is None,
    decreases k,
{
    if k > 0 {
        let kl = (k - 1) as int;
        lemma_play_packed(m, max, d, f, (k - 1) as nat);
        let m1 = play_lines(m, max, d, f, (k - 1) as nat).0;
        let pts = line_of(max, d, kl);
        let row = line_values(m1, pts);
        let merged = merged_row(row, f);
        let m2 = write_line(m1, pts, merged, pts.len());
        assert(play_lines(m, max, d, f, k).0 == m2);
        assert forall|a: int, b: int| 0 <= a < pts.len() && 0 <= b < pts.len() && a != b implies pts[a] != pts[b] by {
            lemma_line_distinct(max, d, kl, a, b);
        }
        assert forall|kk: int, j1: int, j2: int| 0 <= kk < k && 0 <= j1 < j2 < line_len(max, d)
            && (#[trigger] m2[line_point(max, d, kk, j1)]).value is None
            implies (#[trigger] m2[line_point(max, d, kk, j2)]).value is None by {
            if kk == kl {
                lemma_write_at(m1, pts, merged, pts.len(), j1);
                lemma_write_at(m1, pts, merged, pts.len(), j2);
                assert(pts[j1] == line_point(max, d, kk, j1));
                assert(pts[j2] == line_point(max, d, kk, j2));
            } else {
                lemma_line_point(max, d, kk, j1);
                lemma_line_point(max, d, kk, j2);
                assert forall|i: int| 0 <= i < pts.len() implies pts[i] != line_point(max, d, kk, j1)
                    && pts[i] != line_point(max, d, kk, j2) by {
                    lemma_line_point(max, d, kl, i);
                }
                lemma_write_line_other(m1, pts, merged, pts.len(), line_point(max, d, kk, j1));
                lemma_write_line_other(m1, pts, merged, pts.len(), line_point(max, d, kk, j2));
            }
        }
    }
}

/// After a move the tiles of each line lie packed against the edge they
/// slid to: moving up, no empty cell of a column lies above (at a smaller
/// `y` than) a tile of that column; moving down, none lies below one;
/// moving left, no empty cell of a row lies left of (at a smaller `x` than)
/// a tile of that row; moving right, none lies right of one.
pub proof fn lemma_move_packs_tiles(m: Map<Point, Number>, max: Point, d: Direction, f: CombineFn)
    requires
        d != Direction::Nowhere,
    ensures
        d == Direction::Up ==> forall|x: usize, y1: usize, y2: usize| x < max.x && y1 < y2 < max.y
            && (#[trigger] play_lines(m, max, d, f, num_lines(max, d)).0[Point { x, y: y1 }]).value is None
            ==> (#[trigger] play_lines(m, max, d, f, num_lines(max, d)).0[Point { x, y: y2 }]).value is None,
        d == Direction::Down ==> forall|x: usize, y1: usize, y2: usize| x < max.x && y1 < y2 < max.y
            && (#[trigger] play_lines(m, max, d, f, num_lines(max, d)).0[Point { x, y: y2 }]).value is None
            ==> (#[trigger] play_lines(m, max, d, f, num_lines(max, d)).0[Point { x, y: y1 }]).value is None,
        d == Direction::Left ==> forall|y: usize, x1: usize, x2: usize| y < max.y && x1 < x2 < max.x
            && (#[trigger] play_lines(m, max, d, f, num_lines(max, d)).0[Point { x: x1, y }]).value is None
            ==> (#[trigger] play_lines(m, max, d, f, num_lines(max, d)).0[Point { x: x2, y }]).value is None,
        d == Direction::Right ==> forall|y: usize, x1: usize, x2: usize| y < max.y && x1 < x2 < max.x
            && (#[trigger] play_lines(m, max, d, f, num_lines(max, d)).0[Point { x: x2, y }]).value is None
            ==> (#[trigger] play_lines(m, max, d, f, num_lines(max, d)).0[Point { x: x1, y }]).value is None,
{
    let n = num_lines(max, d);
    let m2 = play_lines(m, max, d, f, n).0;
    lemma_play_packed(m, max, d, f, n);
    if d == Direction::Up {
        assert forall|x: usize, y1: usize, y2: usize| x < max.x && y1 < y2 < max.y
            && (#[trigger] m2[Point { x, y: y1 }]).value is None implies (#[trigger] m2[Point { x, y: y2 }]).value is None by {
            assert(line_point(max, d, x as int, y1 as int) == Point { x, y: y1 });
            assert(line_point(max, d, x as int, y2 as int) == Point { x, y: y2 });
            assert(m2[line_point(max, d, x as int, y1 as int)].value is None);
        }
    } else if d == Direction::Down {
        assert forall|x: usize, y1: usize, y2: usize| x < max.x && y1 < y2 < max.y
            && (#[trigger] m2[Point { x, y: y2 }]).value is None implies (#[trigger] m2[Point { x, y: y1 }]).value is None by {
            let j1 = max.y - 1 - y2;
            let j2 = max.y - 1 - y1;
            assert(line_point(max, d, x as int, j1) == Point { x, y: y2 });
            assert(line_point(max, d, x as int, j2) == Point { x, y: y1 });
            assert(m2[line_point(max, d, x as int, j1)].value is None);
        }
    } else if d == Direction::Left {
        assert forall|y: usize, x1: usize, x2: usize| y < max.y && x1 < x2 < max.x
            && (#[trigger] m2[Point { x: x1, y }]).value is None implies (#[trigger] m2[Point { x: x2, y }]).value is None by {
            assert(line_point(max, d, y as int, x1 as int) == Point { x: x1, y });
            assert(line_point(max, d, y as int, x2 as int) == Point { x: x2, y });
            assert(m2[line_point(max, d, y as int, x1 as int)].value is None);
        }
    } else {
        assert forall|y: usize, x1: usize, x2: usize| y < max.y && x1 < x2 < max.x
            && (#[trigger] m2[Point { x: x2, y }]).value is None implies (#[trigger] m2[Point { x: x1, y }]).value is None by {
            let j1 = max.x - 1 - x2;
            let j2 = max.x - 1 - x1;
            assert(line_point(max, d, y as int, j1) == Point { x: x2, y });
            assert(line_point(max, d, y as int, j2) == Point { x: x1, y });
            assert(m2[line_point(max, d, y as int, j1)].value is None);
        }
    }
}

/// Cells of line `k`, built from the board's extent.
fn line_points(max: Point, d: Direction, k: usize) -> (r: Vec<Point>)
    requires
        d != Direction::Nowhere,
        k < num_lines(max, d),
    ensures
        r@ == line_of(max, d, k as int),
{
    let len = match d {
        Direction::Left | Direction::Right => max.x,
        _ => max.y,
    };
    let mut out: Vec<Point> = Vec::new();
    let mut j: usize = 0;
    while j < len
        invariant
            d != Direction::Nowhere,
            k < num_lines(max, d),
            len == line_len(max, d),
            j <= len,
            out@ =~= line_of(max, d, k as int).take(j as int),
        decreases len - j,
    {
        let p = match d {
            Direction::Left => Point::new(j, k),
            Direction::Right => Point::new(max.x - 1 - j, k),
            Direction::Up => Point::new(k, j),
            _ => Point::new(k, max.y - 1 - j),
        };
        out.push(p);
        j = j + 1;
    }
    assert(out@ =~= line_of(max, d, k as int));
    out
}

impl Board<Number> {
    /// Slides the tiles on the cells `pts` towards the first of them.
    fn apply_line(&mut self, pts: &Vec<Point>, f: CombineFn) -> (change: bool)
        requires
            old(self).wf(),
            forall|i: int| 0 <= i < pts@.len() ==> old(self)@.contains_key(#[trigger] pts@[i]),
            row_bounded(line_values(old(self)@, pts@), f),
        ensures
            final(self).wf(),
            final(self).max == old(self).max,
            final(self)@ == write_line(old(self)@, pts@, merged_row(line_values(old(self)@, pts@), f), pts@.len()),
            change == row_changed(line_values(old(self)@, pts@), f),
    {
        let ghost m = self@;
        let mut fields: Vec<Number> = Vec::new();
        let mut j: usize = 0;
        while j < pts.len()
            invariant
                self.wf(),
                self@ == m,
                forall|i: int| 0 <= i < pts@.len() ==> m.contains_key(#[trigger] pts@[i]),
                j <= pts@.len(),
                fields@ =~= line_values(m, pts@).take(j as int),
            decreases pts@.len() - j,
        {
            let v = self.get(&pts[j]);
            match v {
                Some(n) => fields.push(*n),
                None => {
                    assert(m.contains_key(pts@[j as int]));
                },
            }
            j = j + 1;
        }
        assert(fields@ =~= line_values(m, pts@));
        let change = iter_row(&mut fields, f);
        let ghost vals = fields@;
        let mut i: usize = 0;
        while i < pts.len()
            invariant
                self.wf(),
                self.max == old(self).max,
                fields@ == vals,
                vals.len() == pts@.len(),
                i <= pts@.len(),
                self@ == write_line(m, pts@, vals, i as nat),
            decreases pts@.len() - i,
        {
            self.insert(pts[i], fields[i]);
            i = i + 1;
        }
        change
    }
}

/// Slides every line of the board in direction `d`; tells whether anything
/// moved or merged.
fn iter_board(board: &mut Board<Number>, d: Direction, f: CombineFn) -> (change: bool)
    requires
        old(board).wf(),
        d != Direction::Nowhere,
        rect_exact(old(board)@, old(board).max),
        board_bounded(old(board)@, old(board).max, f),
    ensures
        final(board).wf(),
        final(board).max == old(board).max,
        (final(board)@, change) == play_lines(old(board)@, old(board).max, d, f, num_lines(old(board).max, d)),
        final(board)@.dom() == old(board)@.dom(),
{
    let ghost m = board@;
    let max = board.max;
    let n = if max.x == 0 || max.y == 0 {
        0
    } else {
        match d {
            Direction::Left | Direction::Right => max.y,
            _ => max.x,
        }
    };
    let mut change = false;
    let mut k: usize = 0;
    while k < n
        invariant
            board.wf(),
            board.max == max,
            d != Direction::Nowhere,
            n == num_lines(max, d),
            k <= n,
            rect_exact(m, max),
            board_bounded(m, max, f),
            (board@, change) == play_lines(m, max, d, f, k as nat),
            board@.dom() == m.dom(),
            forall|p: Point| #[trigger] m.contains_key(p) && line_index(d, p) >= k ==> board@[p] == m[p],
        decreases n - k,
    {
        let pts = line_points(max, d, k);
        let ghost m1 = board@;
        assert forall|i: int| 0 <= i < pts@.len() implies m1.contains_key(#[trigger] pts@[i])
            && line_index(d, pts@[i]) == k && m.contains_key(pts@[i]) by {
            assert(m.contains_key(pts@[i]));
        }
        assert(row_bounded(line_values(m1, pts@), f)) by {
            let row = line_values(m1, pts@);
            assert forall|j: int| 0 <= j < row.len() implies ((#[trigger] row[j]).value matches Some(v) ==> v + row.len() < usize::MAX) by {
                assert(m.contains_key(pts@[j]));
                assert(row[j] == m[pts@[j]]);
            }
        }
        let c = board.apply_line(&pts, f);
        proof {
            let row = line_values(m1, pts@);
            lemma_write_line_dom(m1, pts@, merged_row(row, f), pts@.len());
            assert forall|p: Point| #[trigger] m.contains_key(p) && line_index(d, p) >= k + 1 implies board@[p] == m[p] by {
                assert forall|i: int| 0 <= i < pts@.len() implies pts@[i] != p by {
                    assert(line_index(d, pts@[i]) == k);
                }
                lemma_write_line_other(m1, pts@, merged_row(row, f), pts@.len(), p);
            }
        }
        change = change || c;
        k = k + 1;
    }
    change
}

/// Every point of the area below `max` holds an empty cell.
pub open spec fn all_empty(m: Map<Point, Number>, max: Point) -> bool {
    forall|p: Point| p.x < max.x && p.y < max.y ==> #[trigger] m.contains_key(p) && m[p].value is None
}

impl Board<Number> {
    /// Puts `new_field` on the cell at `p` when that cell is empty and
    /// reports the tile's points; `None`, with the board left alone, when
    /// `p` holds no cell or a non-empty one.
    pub fn place_if_empty(&mut self, p: Point, new_field: Number) -> (r: Option<usize>)
        requires
            old(self).wf(),
            tile_fits(new_field),
        ensures
            final(self).wf(),
            final(self).max == old(self).max,
            (old(self)@.contains_key(p) && old(self)@[p].value is None) ==> final(self)@ == old(self)@.insert(p, new_field)
                && r == Some(tile_points(new_field) as usize),
            !(old(self)@.contains_key(p) && old(self)@[p].value is None) ==> *final(self) == *old(self) && r is None,
    {
        let empty = match self.get(&p) {
            Some(field) => field.is_none(),
            None => false,
        };
        if empty {
            self.insert(p, new_field);
            Some(new_field.value())
        } else {
            None
        }
    }

    /// Up to ten times, looks at a random point of the playing area; on the
    /// first empty cell found, puts `new_field` there and reports its points.
    /// Reports 0 and leaves the board alone when no try hits an empty cell;
    /// when every cell of the area is empty, the first try succeeds.
    pub fn random_empty_replace(&mut self, new_field: Number) -> (r: usize)
        requires
            old(self).wf(),
            old(self).max.x > 0,
            old(self).max.y > 0,
            tile_fits(new_field),
        ensures
            final(self).wf(),
            final(self).max == old(self).max,
            (r == 0 && final(self)@ == old(self)@) || (r == tile_points(new_field) && exists|p: Point|
                #[trigger] old(self)@.contains_key(p) && old(self)@[p].value is None
                && p.x < old(self).max.x && p.y < old(self).max.y
                && final(self)@ == old(self)@.insert(p, new_field)),
            all_empty(old(self)@, old(self).max) ==> r == tile_points(new_field) && exists|p: Point|
                #[trigger] old(self)@.contains_key(p) && p.x < old(self).max.x && p.y < old(self).max.y
                && final(self)@ == old(self)@.insert(p, new_field),
    {
        let mut tries: usize = 0;
        while tries < 10
            invariant
                self.wf(),
                self@ == old(self)@,
                self.max == old(self).max,
                self.max.x > 0,
                self.max.y > 0,
                tile_fits(new_field),
                tries > 0 ==> !all_empty(old(self)@, old(self).max),
            decreases 10 - tries,
        {
            let point = Point::random(self.max.x, self.max.y);
            let ghost before = *self;
            if let Some(v) = self.place_if_empty(point, new_field) {
                proof {
                    assert(before@.contains_key(point) && before@[point].value is None);
                    assert(tile_points(new_field) <= usize::MAX) by {
                        if let Some(e) = new_field.value {
                            vstd::bits::lemma_usize_pow2_no_overflow(e as nat);
                        }
                    }
                    assert(self@ == old(self)@.insert(point, new_field));
                }
                return v;
            }
            tries = tries + 1;
        }
        0
    }

    /// Moves the board in a random direction.
    pub fn play_random(&mut self, f: CombineFn) -> (r: usize)
        requires
            old(self).wf(),
            rect_exact(old(self)@, old(self).max),
            board_bounded(old(self)@, old(self).max, f),
        ensures
            final(self).wf(),
            final(self).max == old(self).max,
            exists|d: Direction| d != Direction::Nowhere && #[trigger] played(old(self)@, old(self).max, d, f, final(self)@, r),
            final(self)@.dom() == old(self)@.dom(),
    {
        let i = random_below(4);
        let dir = Direction::from_index(i);
        self.play(dir, f)
    }

    /// Moves the board in direction `d`, merging by `f`; when anything
    /// changed and a cell is still empty, a 2 lands on a random empty cell
    /// and 2 is reported, else 0.
    pub fn play(&mut self, d: Direction, f: CombineFn) -> (r: usize)
        requires
            old(self).wf(),
            rect_exact(old(self)@, old(self).max),
            board_bounded(old(self)@, old(self).max, f),
        ensures
            final(self).wf(),
            final(self).max == old(self).max,
            played(old(self)@, old(self).max, d, f, final(self)@, r),
            final(self)@.dom() == old(self)@.dom(),
    {
        if d == Direction::Nowhere {
            return 0;
        }
        let change = iter_board(self, d, f);
        if !change {
            return 0;
        }
        let mut empties: Vec<Point> = Vec::new();
        let n = self.len();
        let mut i: usize = 0;
        while i < n
            invariant
                self.wf(),
                n == self.size(),
                i <= n,
                forall|j: int| 0 <= j < empties@.len() ==> self@.contains_key(#[trigger] empties@[j])
                    && self@[empties@[j]].value is None,
                forall|j: int| 0 <= j < i ==> self@[#[trigger] self.board@[j].0].value is Some || empties@.len() > 0,
            decreases n - i,
        {
            let p = self.point_at(i);
            match self.get(&p) {
                Some(v) => {
                    if v.is_none() {
                        empties.push(p);
                    }
                },
                None => {},
            }
            i = i + 1;
        }
        if empties.len() == 0 {
            assert forall|p: Point| #[trigger] self@.contains_key(p) implies self@[p].value is Some by {
                self.lemma_key_stored(p);
                let j = choose|j: int| 0 <= j < self.size() && self.board@[j].0 == p;
                assert(self@[self.board@[j].0].value is Some);
            }
            return 0;
        }
        let pick = random_below(empties.len());
        let p = empties[pick];
        let ghost m2 = self@;
        let two = Number::new(2);
        proof {
            assert(spec_trailing_zeros(1) == 0);
            assert(spec_trailing_zeros(2) == 1);
            vstd::arithmetic::power2::lemma2_to64();
            assert(two.value == Some(1usize));
        }
        self.insert(p, two);
        proof {
            assert(self@.dom() =~= m2.dom());
            assert(!all_filled(m2));
            assert(m2.contains_key(p) && m2[p].value is None);
        }
        2
    }
}

} // verus!
