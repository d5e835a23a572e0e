use vstd::prelude::*;

use std::collections::BTreeSet;

verus! {

/// The digits 1 to 9.
pub open spec fn digits() -> Set<usize> {
    set![1usize, 2, 3, 4, 5, 6, 7, 8, 9]
}

/// A cell: its value, if known, and the digits still possible.
pub struct Field {
    pub val: Option<usize>,
    pub cand: BTreeSet<usize>,
    pub x: usize,
    pub y: usize,
}

/// What a cell holds: its value and its candidate digits.
pub type CellView = (Option<usize>, Set<usize>);

impl View for Field {
    type V = CellView;

    open spec fn view(&self) -> CellView {
        (self.val, self.cand@)
    }
}

/// Candidates are digits.
pub open spec fn cell_ok(c: CellView) -> bool {
    c.1.subset_of(digits())
}

/// The only element of a one-element set.
pub open spec fn the_one(s: Set<usize>) -> usize {
    choose|v: usize| s.contains(v)
}

/// `c` with digit `v` ruled out; a single remaining candidate becomes the
/// value.
pub open spec fn without(c: CellView, v: usize) -> CellView {
    let rest = c.1.remove(v);
    if rest.len() == 1 { (Some(the_one(rest)), rest) } else { (c.0, rest) }
}

impl Field {
    /// An unknown cell at row `x`, column `y`: every digit possible.
    pub fn new(x: usize, y: usize) -> (r: Field)
        ensures
            r@ == (None::<usize>, digits()),
            r.x == x,
            r.y == y,
    {
        let mut cand: BTreeSet<usize> = BTreeSet::new();
        let mut d: usize = 1;
        while d <= 9
            invariant
                1 <= d <= 10,
                cand@ == Set::new(|v: usize| 1 <= v < d),
            decreases 10 - d,
        {
            cand.insert(d);
            assert(cand@ =~= Set::new(|v: usize| 1 <= v < d + 1));
            d = d + 1;
        }
        assert(cand@ =~= digits());
        Field { val: None, cand, x, y }
    }

    pub fn get(&self) -> (r: Option<usize>)
        ensures
            r == self.val,
    {
        self.val
    }

    /// Fixes the value.
    pub fn set(&mut self, val: usize)
        ensures
            final(self)@ == (Some(val), old(self)@.1),
            final(self).x == old(self).x,
            final(self).y == old(self).y,
    {
        self.val = Some(val);
    }

    pub fn has_value(&self) -> (r: bool)
        ensures
            r == self.val.is_some(),
    {
        self.val.is_some()
    }

    /// Whether `val` is still possible.
    pub fn _is_candidate(&self, val: usize) -> (r: bool)
        requires
            self.val.is_none(),
        ensures
            r == self.cand@.contains(val),
    {
        self.cand.contains(&val)
    }

    /// Makes `val` possible again.
    pub fn _add_candidate(&mut self, val: usize)
        requires
            old(self).val.is_none(),
        ensures
            final(self)@ == (old(self)@.0, old(self)@.1.insert(val)),
            final(self).x == old(self).x,
            final(self).y == old(self).y,
    {
        self.cand.insert(val);
    }

    /// Rules out `val`; when a single candidate remains it becomes the
    /// value, which is reported.
    pub fn remove_candidate(&mut self, val: usize) -> (r: bool)
        requires
            old(self).val.is_none(),
        ensures
            final(self)@ == without(old(self)@, val),
            r == (old(self)@.1.remove(val).len() == 1),
            final(self).x == old(self).x,
            final(self).y == old(self).y,
    {
        self.cand.remove(&val);
        if self.cand.len() == 1 {
            let ghost s = self.cand@;
            proof {
                let keys = vstd::std_specs::iter::IteratorSpec::remaining(&vstd::std_specs::btree::spec_btree_keys_iter(&self.cand));
                vstd::seq_lib::seq_to_set_is_finite(keys.unref());
            }
            let mut value: usize = 0;
            for v in iter: self.cand.iter()
                invariant
                    s == self.cand@,
                    s.len() == 1,
                    iter.seq().len() == 1,
                    iter.seq().unref().to_set() == s,
                    s.finite(),
                    iter.index() > 0 ==> s.contains(value),
            {
                proof {
                    let all = iter.seq().unref();
                    assert(all[iter.index() as int] == *v);
                    assert(all.contains(*v));
                }
                value = *v;
            }
            proof {
                s.remove(value).lemma_len0_is_empty();
                assert(s =~= set![value]);
                assert(the_one(s) == value);
            }
            self.set(value);
            true
        } else {
            false
        }
    }
}


/// The cells as values.
pub open spec fn cells_view(v: Seq<Field>) -> Seq<CellView> {
    Seq::new(v.len(), |i: int| v[i]@)
}

/// Every cell's candidates are digits.
pub open spec fn cells_ok(cs: Seq<CellView>) -> bool {
    forall|i: int| 0 <= i < cs.len() ==> cell_ok(#[trigger] cs[i])
}

/// The cells of `b` sit at the same row and column as those of `a`.
pub open spec fn coords_kept(a: Seq<Field>, b: Seq<Field>) -> bool {
    &&& b.len() == a.len()
    &&& forall|i: int| 0 <= i < a.len() ==> (#[trigger] b[i]).x == a[i].x && b[i].y == a[i].y
}

/// A line names 9 cells of the grid.
pub open spec fn line_ok(line: Seq<usize>, n: nat) -> bool {
    &&& line.len() == 9
    &&& forall|k: int| 0 <= k < 9 ==> #[trigger] line[k] < n
}

fn cell_set(cells: &mut Vec<Field>, t: usize, val: usize)
    requires
        t < old(cells)@.len(),
    ensures
        cells_view(final(cells)@) == cells_view(old(cells)@).update(t as int, (Some(val), old(cells)@[t as int]@.1)),
        final(cells)@.len() == old(cells)@.len(),
        coords_kept(old(cells)@, final(cells)@),
{
    let ghost before = cells_view(cells@);
    let ghost fs = cells@;
    let mut f = cells.remove(t);
    f.set(val);
    cells.insert(t, f);
    assert(cells@ =~= fs.update(t as int, f));
    assert(cells_view(cells@) =~= before.update(t as int, (Some(val), before[t as int].1)));
}

fn cell_remove(cells: &mut Vec<Field>, t: usize, val: usize) -> (r: bool)
    requires
        t < old(cells)@.len(),
        old(cells)@[t as int].val.is_none(),
    ensures
        cells_view(final(cells)@) == cells_view(old(cells)@).update(t as int, without(old(cells)@[t as int]@, val)),
        final(cells)@.len() == old(cells)@.len(),
        r == (old(cells)@[t as int]@.1.remove(val).len() == 1),
        coords_kept(old(cells)@, final(cells)@),
{
    let ghost before = cells_view(cells@);
    let ghost fs = cells@;
    let mut f = cells.remove(t);
    let r = f.remove_candidate(val);
    cells.insert(t, f);
    assert(cells@ =~= fs.update(t as int, f));
    assert(cells_view(cells@) =~= before.update(t as int, without(before[t as int], val)));
    r
}

proof fn lemma_without_ok(c: CellView, v: usize)
    requires
        cell_ok(c),
    ensures
        cell_ok(without(c, v)),
{
}

/// `cs` after the values `vals` (zero meaning none) are written to the
/// first `i` cells of `line`.
pub open spec fn set_values(cs: Seq<CellView>, line: Seq<usize>, vals: Seq<usize>, i: int) -> Seq<CellView>
    decreases i,
{
    if i <= 0 {
        cs
    } else {
        let prev = set_values(cs, line, vals, i - 1);
        if vals[i - 1] > 0 {
            prev.update(line[i - 1] as int, (Some(vals[i - 1]), prev[line[i - 1] as int].1))
        } else {
            prev
        }
    }
}

/// Ruling out digits along a line, from step `k` on: the known values
/// `vals` of the line, taken in order, are ruled out of each unknown cell
/// of the line in order, stopping as soon as a cell becomes known.
pub open spec fn check_from(cs: Seq<CellView>, line: Seq<usize>, vals: Seq<Option<usize>>, k: int) -> (Seq<CellView>, bool)
    decreases 81 - k,
{
    if k >= 81 || k < 0 {
        (cs, false)
    } else {
        match vals[k / 9] {
            None => check_from(cs, line, vals, k + 1),
            Some(v) => {
                let t = line[k % 9] as int;
                if cs[t].0 is Some {
                    check_from(cs, line, vals, k + 1)
                } else if cs[t].1.remove(v).len() == 1 {
                    (cs.update(t, without(cs[t], v)), true)
                } else {
                    check_from(cs.update(t, without(cs[t], v)), line, vals, k + 1)
                }
            },
        }
    }
}

/// The values of the cells of a line.
pub open spec fn line_vals(cs: Seq<CellView>, line: Seq<usize>) -> Seq<Option<usize>> {
    Seq::new(9, |a: int| cs[line[a] as int].0)
}

/// Number of unknown cells among the first `b` of the line that may still
/// be `n`.
pub open spec fn cand_count(cs: Seq<CellView>, line: Seq<usize>, n: usize, b: int) -> nat
    decreases b,
{
    if b <= 0 {
        0
    } else {
        cand_count(cs, line, n, b - 1) + if cs[line[b - 1] as int].0 is None && cs[line[b - 1] as int].1.contains(n) { 1nat } else { 0nat }
    }
}

/// Position of the last of those cells, or -1.
pub open spec fn cand_last(cs: Seq<CellView>, line: Seq<usize>, n: usize, b: int) -> int
    decreases b,
{
    if b <= 0 {
        -1
    } else if cs[line[b - 1] as int].0 is None && cs[line[b - 1] as int].1.contains(n) {
        b - 1
    } else {
        cand_last(cs, line, n, b - 1)
    }
}

/// The least digit from `n` on that only one unknown cell of the line can
/// take.
pub open spec fn first_single(cs: Seq<CellView>, line: Seq<usize>, n: usize) -> Option<usize>
    decreases 10 - n,
{
    if n > 9 || n == 0 {
        None
    } else if cand_count(cs, line, n, 9) == 1 {
        Some(n)
    } else {
        first_single(cs, line, (n + 1) as usize)
    }
}

/// Fixing, along a line, the least digit that only one unknown cell can
/// take: the new cells and whether one was fixed.
pub open spec fn only_spec(cs: Seq<CellView>, line: Seq<usize>) -> (Seq<CellView>, bool) {
    match first_single(cs, line, 1) {
        Some(n) => {
            let t = line[cand_last(cs, line, n, 9)] as int;
            (cs.update(t, (Some(n), cs[t].1)), true)
        },
        None => (cs, false),
    }
}

/// The cells of a row, column or block, by their position in the grid.
pub struct Line {
    pub fields: Vec<usize>,
}

impl Line {
    /// Looks for a digit only one unknown cell of the line can take (the
    /// least such digit) and fixes that cell to it.
    pub fn only(&self, cells: &mut Vec<Field>) -> (changed: bool)
        requires
            line_ok(self.fields@, old(cells)@.len()),
            cells_ok(cells_view(old(cells)@)),
        ensures
            cells_ok(cells_view(final(cells)@)),
            final(cells)@.len() == old(cells)@.len(),
            (cells_view(final(cells)@), changed) == only_spec(cells_view(old(cells)@), self.fields@),
            coords_kept(old(cells)@, final(cells)@),
    {
        let ghost cs = cells_view(cells@);
        let ghost line = self.fields@;
        let mut counts: Vec<(usize, usize)> = Vec::new();
        let mut n: usize = 0;
        while n < 10
            invariant
                n <= 10,
                counts@.len() == n,
                forall|c: int| 0 <= c < n ==> #[trigger] counts@[c] == (0usize, 0usize),
            decreases 10 - n,
        {
            counts.push((0, 0));
            n = n + 1;
        }
        let mut b: usize = 0;
        while b < 9
            invariant
                line_ok(line, cells@.len()),
                line == self.fields@,
                cs == cells_view(cells@),
                cells@ == old(cells)@,
                cells_ok(cs),
                b <= 9,
                counts@.len() == 10,
                forall|c: int| 1 <= c <= 9 ==> (#[trigger] counts@[c]).0 == cand_count(cs, line, c as usize, b as int)
                    && (cand_count(cs, line, c as usize, b as int) > 0 ==> counts@[c].1 == cand_last(cs, line, c as usize, b as int)),
            decreases 9 - b,
        {
            let t = self.fields[b];
            if !cells[t].has_value() {
                let mut c: usize = 1;
                while c <= 9
                    invariant
                        line_ok(line, cells@.len()),
                        line == self.fields@,
                        cs == cells_view(cells@),
                        cells_ok(cs),
                        b < 9,
                        t == line[b as int],
                        cs[t as int].0 is None,
                        1 <= c <= 10,
                        counts@.len() == 10,
                        forall|d: int| 1 <= d < c ==> (#[trigger] counts@[d]).0 == cand_count(cs, line, d as usize, b + 1)
                            && (cand_count(cs, line, d as usize, b + 1) > 0 ==> counts@[d].1 == cand_last(cs, line, d as usize, b + 1)),
                        forall|d: int| c <= d <= 9 ==> (#[trigger] counts@[d]).0 == cand_count(cs, line, d as usize, b as int)
                            && (cand_count(cs, line, d as usize, b as int) > 0 ==> counts@[d].1 == cand_last(cs, line, d as usize, b as int)),
                    decreases 10 - c,
                {
                    assert(cells@[t as int]@ == cs[t as int]);
                    if cells[t].cand.contains(&c) {
                        let (cnt, _) = counts[c];
                        proof {
                            lemma_cand_count_le(cs, line, c, b as int);
                        }
                        counts.set(c, (cnt + 1, b));
                    }
                    c = c + 1;
                }
            } else {
                assert(cells@[t as int]@ == cs[t as int]);
            }
            proof {
                assert forall|c: int| 1 <= c <= 9 implies (#[trigger] counts@[c]).0 == cand_count(cs, line, c as usize, b + 1)
                    && (cand_count(cs, line, c as usize, b + 1) > 0 ==> counts@[c].1 == cand_last(cs, line, c as usize, b + 1)) by {
                    assert(cand_count(cs, line, c as usize, b + 1) == cand_count(cs, line, c as usize, b as int)
                        + if cs[line[b as int] as int].0 is None && cs[line[b as int] as int].1.contains(c as usize) { 1nat } else { 0nat });
                }
            }
            b = b + 1;
        }
        let mut n: usize = 1;
        while n <= 9
            invariant
                line_ok(line, cells@.len()),
                line == self.fields@,
                cs == cells_view(cells@),
                cells@ == old(cells)@,
                cells_ok(cs),
                1 <= n <= 10,
                counts@.len() == 10,
                forall|c: int| 1 <= c <= 9 ==> (#[trigger] counts@[c]).0 == cand_count(cs, line, c as usize, 9)
                    && (cand_count(cs, line, c as usize, 9) > 0 ==> counts@[c].1 == cand_last(cs, line, c as usize, 9)),
                first_single(cs, line, 1) == first_single(cs, line, n),
            decreases 10 - n,
        {
            if counts[n].0 == 1 {
                let b = counts[n].1;
                proof {
                    lemma_cand_last_range(cs, line, n, 9);
                    assert(first_single(cs, line, n) == Some(n));
                }
                let t = self.fields[b];
                cell_set(cells, t, n);
                proof {
                    let cs1 = cells_view(cells@);
                    assert forall|i: int| 0 <= i < cs1.len() implies cell_ok(#[trigger] cs1[i]) by {
                        assert(cell_ok(cs[i]));
                    }
                }
                return true;
            }
            assert(first_single(cs, line, n) == first_single(cs, line, (n + 1) as usize));
            n = n + 1;
        }
        assert(first_single(cs, line, 10) is None);
        false
    }

    /// Rules the known digits of the line out of its unknown cells (see
    /// `check_from`); tells whether a cell became known.
    pub fn check(&self, cells: &mut Vec<Field>) -> (changed: bool)
        requires
            line_ok(self.fields@, old(cells)@.len()),
        ensures
            cells_ok(cells_view(old(cells)@)) ==> cells_ok(cells_view(final(cells)@)),
            final(cells)@.len() == old(cells)@.len(),
            (cells_view(final(cells)@), changed) == check_from(cells_view(old(cells)@), self.fields@,
                line_vals(cells_view(old(cells)@), self.fields@), 0),
            coords_kept(old(cells)@, final(cells)@),
    {
        let ghost cs0 = cells_view(cells@);
        let ghost line = self.fields@;
        let mut vals: Vec<Option<usize>> = Vec::new();
        let mut a: usize = 0;
        while a < 9
            invariant
                line_ok(line, cells@.len()),
                line == self.fields@,
                cs0 == cells_view(cells@),
                cells@ == old(cells)@,
                a <= 9,
                vals@ =~= line_vals(cs0, line).take(a as int),
            decreases 9 - a,
        {
            assert(cells@[line[a as int] as int]@ == cs0[line[a as int] as int]);
            vals.push(cells[self.fields[a]].get());
            a = a + 1;
        }
        let ghost vs = line_vals(cs0, line);
        assert(vals@ =~= vs);
        let mut a: usize = 0;
        while a < 9
            invariant
                line_ok(line, cells@.len()),
                line == self.fields@,
                vals@ == vs,
                vs.len() == 9,
                vs == line_vals(cs0, line),
                cs0 == cells_view(old(cells)@),
                a <= 9,
                cells@.len() == old(cells)@.len(),
                cells_ok(cs0) ==> cells_ok(cells_view(cells@)),
                coords_kept(old(cells)@, cells@),
                check_from(cs0, line, vs, 0) == check_from(cells_view(cells@), line, vs, 9 * a),
            decreases 9 - a,
        {
            match vals[a] {
                None => {
                    proof {
                        lemma_check_skip_none(cells_view(cells@), line, vs, a as int);
                    }
                },
                Some(v) => {
                    let mut b: usize = 0;
                    while b < 9
                        invariant
                            line_ok(line, cells@.len()),
                            line == self.fields@,
                            vals@ == vs,
                            vs.len() == 9,
                            vs == line_vals(cs0, line),
                            cs0 == cells_view(old(cells)@),
                            a < 9,
                            vs[a as int] == Some(v),
                            b <= 9,
                            cells@.len() == old(cells)@.len(),
                            cells_ok(cs0) ==> cells_ok(cells_view(cells@)),
                            coords_kept(old(cells)@, cells@),
                            check_from(cs0, line, vs, 0) == check_from(cells_view(cells@), line, vs, 9 * a + b),
                        decreases 9 - b,
                    {
                        let t = self.fields[b];
                        let ghost cs = cells_view(cells@);
                        assert((9 * a + b) / 9 == a && (9 * a + b) % 9 == b) by (nonlinear_arith)
                            requires b < 9;
                        assert(cells@[t as int]@ == cs[t as int]);
                        let ghost k = 9 * a + b;
                        assert(check_from(cs, line, vs, k as int) == if cs[t as int].0 is Some {
                            check_from(cs, line, vs, k + 1)
                        } else if cs[t as int].1.remove(v).len() == 1 {
                            (cs.update(t as int, without(cs[t as int], v)), true)
                        } else {
                            check_from(cs.update(t as int, without(cs[t as int], v)), line, vs, k + 1)
                        });
                        if !cells[t].has_value() {
                            let r = cell_remove(cells, t, v);
                            proof {
                                if cells_ok(cs0) {
                                    lemma_without_ok(cs[t as int], v);
                                    assert(cells_ok(cells_view(cells@))) by {
                                        assert forall|i: int| 0 <= i < cells_view(cells@).len() implies cell_ok(#[trigger] cells_view(cells@)[i]) by {
                                            if i != t {
                                                assert(cells_view(cells@)[i] == cs[i]);
                                            }
                                        }
                                    }
                                }
                            }
                            if r {
                                return true;
                            }
                        }
                        b = b + 1;
                    }
                },
            }
            a = a + 1;
        }
        false
    }

    /// Writes the non-zero values of `values` to the cells of the line.
    pub fn set(&self, cells: &mut Vec<Field>, values: [usize; 9])
        requires
            line_ok(self.fields@, old(cells)@.len()),
        ensures
            final(cells)@.len() == old(cells)@.len(),
            cells_view(final(cells)@) == set_values(cells_view(old(cells)@), self.fields@, values@, 9),
            coords_kept(old(cells)@, final(cells)@),
    {
        let ghost cs0 = cells_view(cells@);
        let mut i: usize = 0;
        while i < 9
            invariant
                line_ok(self.fields@, cells@.len()),
                cells@.len() == old(cells)@.len(),
                i <= 9,
                cells_view(cells@) == set_values(cs0, self.fields@, values@, i as int),
                coords_kept(old(cells)@, cells@),
            decreases 9 - i,
        {
            if values[i] > 0 {
                cell_set(cells, self.fields[i], values[i]);
            }
            i = i + 1;
        }
    }
}

proof fn lemma_cand_count_le(cs: Seq<CellView>, line: Seq<usize>, n: usize, b: int)
    requires
        b >= 0,
    ensures
        cand_count(cs, line, n, b) <= b,
    decreases b,
{
    if b > 0 {
        lemma_cand_count_le(cs, line, n, b - 1);
    }
}

proof fn lemma_cand_last_range(cs: Seq<CellView>, line: Seq<usize>, n: usize, b: int)
    requires
        b >= 0,
    ensures
        cand_count(cs, line, n, b) > 0 ==> 0 <= cand_last(cs, line, n, b) < b,
    decreases b,
{
    if b > 0 {
        lemma_cand_last_range(cs, line, n, b - 1);
    }
}

proof fn lemma_check_skip_none(cs: Seq<CellView>, line: Seq<usize>, vs: Seq<Option<usize>>, a: int)
    requires
        0 <= a < 9,
        vs.len() == 9,
        vs[a] is None,
    ensures
        check_from(cs, line, vs, 9 * a) == check_from(cs, line, vs, 9 * (a + 1)),
{
    lemma_check_skip_none_from(cs, line, vs, a, 0);
}

proof fn lemma_check_skip_none_from(cs: Seq<CellView>, line: Seq<usize>, vs: Seq<Option<usize>>, a: int, b: int)
    requires
        0 <= a < 9,
        0 <= b <= 9,
        vs.len() == 9,
        vs[a] is None,
    ensures
        check_from(cs, line, vs, 9 * a + b) == check_from(cs, line, vs, 9 * (a + 1)),
    decreases 9 - b,
{
    if b < 9 {
        assert((9 * a + b) / 9 == a) by (nonlinear_arith)
            requires 0 <= b < 9;
        lemma_check_skip_none_from(cs, line, vs, a, b + 1);
    }
}

/// The lines as sequences of cell positions.
pub open spec fn lines_view(v: Seq<Line>) -> Seq<Seq<usize>> {
    Seq::new(v.len(), |i: int| v[i].fields@)
}

/// Every line names 9 cells of the grid.
pub open spec fn lines_ok(ls: Seq<Seq<usize>>, n: nat) -> bool {
    forall|i: int| 0 <= i < ls.len() ==> line_ok(#[trigger] ls[i], n)
}

/// Checking the lines from the `i`-th on, in order, until one reports a
/// change.
pub open spec fn check_lines(cs: Seq<CellView>, ls: Seq<Seq<usize>>, i: int) -> (Seq<CellView>, bool)
    decreases ls.len() - i,
{
    if i < 0 || i >= ls.len() {
        (cs, false)
    } else {
        let r = check_from(cs, ls[i], line_vals(cs, ls[i]), 0);
        if r.1 { r } else { check_lines(r.0, ls, i + 1) }
    }
}

/// The same with `only`.
pub open spec fn only_lines(cs: Seq<CellView>, ls: Seq<Seq<usize>>, i: int) -> (Seq<CellView>, bool)
    decreases ls.len() - i,
{
    if i < 0 || i >= ls.len() {
        (cs, false)
    } else {
        let r = only_spec(cs, ls[i]);
        if r.1 { r } else { only_lines(r.0, ls, i + 1) }
    }
}

proof fn lemma_check_from_ok(cs: Seq<CellView>, line: Seq<usize>, vs: Seq<Option<usize>>, k: int)
    requires
        cells_ok(cs),
        line_ok(line, cs.len()),
        vs.len() == 9,
    ensures
        cells_ok(check_from(cs, line, vs, k).0),
        check_from(cs, line, vs, k).0.len() == cs.len(),
    decreases 81 - k,
{
    if 0 <= k < 81 {
        assert(0 <= k / 9 < 9 && 0 <= k % 9 < 9);
        if let Some(v) = vs[k / 9] {
            let t = line[k % 9] as int;
            if cs[t].0 is None {
                let c2 = cs.update(t, without(cs[t], v));
                lemma_without_ok(cs[t], v);
                assert forall|i: int| 0 <= i < c2.len() implies cell_ok(#[trigger] c2[i]) by {
                    if i != t {
                        assert(c2[i] == cs[i]);
                    }
                }
                lemma_check_from_ok(c2, line, vs, k + 1);
            } else {
                lemma_check_from_ok(cs, line, vs, k + 1);
            }
        } else {
            lemma_check_from_ok(cs, line, vs, k + 1);
        }
    }
}

proof fn lemma_first_single_count(cs: Seq<CellView>, line: Seq<usize>, n: usize)
    ensures
        first_single(cs, line, n) matches Some(m) ==> cand_count(cs, line, m, 9) == 1,
    decreases 10 - n,
{
    if 1 <= n <= 9 && cand_count(cs, line, n, 9) != 1 {
        lemma_first_single_count(cs, line, (n + 1) as usize);
    }
}

/// Checks each line in turn until one reports a change.
fn lines_check(lines: &Vec<Line>, cells: &mut Vec<Field>) -> (changed: bool)
    requires
        lines_ok(lines_view(lines@), old(cells)@.len()),
        cells_ok(cells_view(old(cells)@)),
    ensures
        cells_ok(cells_view(final(cells)@)),
        final(cells)@.len() == old(cells)@.len(),
        (cells_view(final(cells)@), changed) == check_lines(cells_view(old(cells)@), lines_view(lines@), 0),
        coords_kept(old(cells)@, final(cells)@),
{
    let ghost ls = lines_view(lines@);
    let mut i: usize = 0;
    while i < lines.len()
        invariant
            ls == lines_view(lines@),
            lines_ok(ls, cells@.len()),
            cells@.len() == old(cells)@.len(),
            cells_ok(cells_view(cells@)),
            coords_kept(old(cells)@, cells@),
            i <= lines@.len(),
            check_lines(cells_view(old(cells)@), ls, 0) == check_lines(cells_view(cells@), ls, i as int),
        decreases lines@.len() - i,
    {
        assert(ls[i as int] == lines@[i as int].fields@);
        assert(line_ok(ls[i as int], cells@.len()));
        if lines[i].check(cells) {
            return true;
        }
        i = i + 1;
    }
    false
}

/// Applies `only` to each line in turn until one reports a change.
fn lines_only(lines: &Vec<Line>, cells: &mut Vec<Field>) -> (changed: bool)
    requires
        lines_ok(lines_view(lines@), old(cells)@.len()),
        cells_ok(cells_view(old(cells)@)),
    ensures
        cells_ok(cells_view(final(cells)@)),
        final(cells)@.len() == old(cells)@.len(),
        (cells_view(final(cells)@), changed) == only_lines(cells_view(old(cells)@), lines_view(lines@), 0),
        coords_kept(old(cells)@, final(cells)@),
{
    let ghost ls = lines_view(lines@);
    let mut i: usize = 0;
    while i < lines.len()
        invariant
            ls == lines_view(lines@),
            lines_ok(ls, cells@.len()),
            cells@.len() == old(cells)@.len(),
            cells_ok(cells_view(cells@)),
            coords_kept(old(cells)@, cells@),
            i <= lines@.len(),
            only_lines(cells_view(old(cells)@), ls, 0) == only_lines(cells_view(cells@), ls, i as int),
        decreases lines@.len() - i,
    {
        assert(ls[i as int] == lines@[i as int].fields@);
        assert(line_ok(ls[i as int], cells@.len()));
        if lines[i].only(cells) {
            return true;
        }
        i = i + 1;
    }
    false
}

/// Cell positions of row `x`.
pub open spec fn row_line(x: int) -> Seq<usize> {
    Seq::new(9, |y: int| (9 * x + y) as usize)
}

/// Cell positions of column `y`.
pub open spec fn col_line(y: int) -> Seq<usize> {
    Seq::new(9, |x: int| (9 * x + y) as usize)
}

/// Position of the `k`-th cell of block `b`; blocks and the cells in a
/// block are counted row by row.
pub open spec fn block_cell(b: int, k: int) -> int {
    9 * (3 * (b / 3) + k / 3) + 3 * (b % 3) + k % 3
}

/// Cell positions of block `b`.
pub open spec fn block_line(b: int) -> Seq<usize> {
    Seq::new(9, |k: int| block_cell(b, k) as usize)
}

/// A 9 by 9 puzzle: 81 cells, kept row by row, and the rows, columns and
/// blocks that name them.
pub struct Sudoku {
    pub cells: Vec<Field>,
    pub rows: Vec<Line>,
    pub cols: Vec<Line>,
    pub blocks: Vec<Line>,
}

/// Checking rows, then columns, then blocks; each stops at its first
/// change.
pub open spec fn sudoku_check(cs: Seq<CellView>) -> (Seq<CellView>, bool) {
    let r1 = check_lines(cs, Seq::new(9, |x: int| row_line(x)), 0);
    let r2 = check_lines(r1.0, Seq::new(9, |y: int| col_line(y)), 0);
    let r3 = check_lines(r2.0, Seq::new(9, |b: int| block_line(b)), 0);
    (r3.0, r1.1 || r2.1 || r3.1)
}

/// `only` on rows, then columns, then blocks, each stopping at its first
/// change; once anything changed, a full check follows each of them.
pub open spec fn sudoku_only(cs: Seq<CellView>) -> (Seq<CellView>, bool) {
    let r1 = only_lines(cs, Seq::new(9, |x: int| row_line(x)), 0);
    let c1 = if r1.1 { sudoku_check(r1.0).0 } else { r1.0 };
    let r2 = only_lines(c1, Seq::new(9, |y: int| col_line(y)), 0);
    let ch2 = r1.1 || r2.1;
    let c2 = if ch2 { sudoku_check(r2.0).0 } else { r2.0 };
    let r3 = only_lines(c2, Seq::new(9, |b: int| block_line(b)), 0);
    let ch3 = ch2 || r3.1;
    (if ch3 { sudoku_check(r3.0).0 } else { r3.0 }, ch3)
}

proof fn lemma_grid_lines_ok()
    ensures
        lines_ok(Seq::new(9, |x: int| row_line(x)), 81),
        lines_ok(Seq::new(9, |y: int| col_line(y)), 81),
        lines_ok(Seq::new(9, |b: int| block_line(b)), 81),
{
    assert forall|b: int, k: int| 0 <= b < 9 && 0 <= k < 9 implies
        0 <= #[trigger] block_cell(b, k) < 81 by {
        assert(0 <= b / 3 < 3 && 0 <= k / 3 < 3 && 0 <= b % 3 < 3 && 0 <= k % 3 < 3);
    }
}

impl Sudoku {
    /// The grid is 81 cells with digit candidates, named row by row,
    /// column by column and block by block.
    pub open spec fn wf(&self) -> bool {
        &&& self.cells@.len() == 81
        &&& cells_ok(cells_view(self.cells@))
        &&& lines_view(self.rows@) == Seq::new(9, |x: int| row_line(x))
        &&& lines_view(self.cols@) == Seq::new(9, |y: int| col_line(y))
        &&& lines_view(self.blocks@) == Seq::new(9, |b: int| block_line(b))
    }

    /// Rules known digits out along rows, columns and blocks; tells whether
    /// a cell became known.
    pub fn check(&mut self) -> (changed: bool)
        requires
            old(self).wf(),
        ensures
            final(self).wf(),
            final(self).rows == old(self).rows,
            final(self).cols == old(self).cols,
            final(self).blocks == old(self).blocks,
            (cells_view(final(self).cells@), changed) == sudoku_check(cells_view(old(self).cells@)),
            coords_kept(old(self).cells@, final(self).cells@),
    {
        proof {
            lemma_grid_lines_ok();
        }
        let mut change = lines_check(&self.rows, &mut self.cells);
        change = lines_check(&self.cols, &mut self.cells) || change;
        change = lines_check(&self.blocks, &mut self.cells) || change;
        change
    }

    /// Fixes cells whose digit no other cell of a row, column or block can
    /// take (see `sudoku_only`); tells whether one was fixed.
    pub fn only(&mut self) -> (changed: bool)
        requires
            old(self).wf(),
        ensures
            final(self).wf(),
            final(self).rows == old(self).rows,
            final(self).cols == old(self).cols,
            final(self).blocks == old(self).blocks,
            (cells_view(final(self).cells@), changed) == sudoku_only(cells_view(old(self).cells@)),
            coords_kept(old(self).cells@, final(self).cells@),
    {
        proof {
            lemma_grid_lines_ok();
        }
        let mut change = lines_only(&self.rows, &mut self.cells);
        if change {
            self.check();
        }
        change = lines_only(&self.cols, &mut self.cells) || change;
        if change {
            self.check();
        }
        change = lines_only(&self.blocks, &mut self.cells) || change;
        if change {
            self.check();
        }
        change
    }
}

impl Sudoku {
    /// Names, as block `x + y / 3`, the 3 by 3 cells of the rows from `x`
    /// on and the columns from `y` on, row by row.
    pub fn init_block(&mut self, x: usize, y: usize)
        requires
            x + 3 <= old(self).rows@.len(),
            forall|i: int| x <= i < x + 3 ==> y + 3 <= (#[trigger] old(self).rows@[i]).fields@.len(),
            x + y / 3 < old(self).blocks@.len(),
        ensures
            final(self).cells == old(self).cells,
            final(self).rows == old(self).rows,
            final(self).cols == old(self).cols,
            final(self).blocks@.len() == old(self).blocks@.len(),
            lines_view(final(self).blocks@) == lines_view(old(self).blocks@).update(
                x + y / 3,
                Seq::new(9, |k: int| old(self).rows@[x + k / 3].fields@[y + k % 3]),
            ),
    {
        let ghost want = Seq::new(9, |k: int| self.rows@[x + k / 3].fields@[y + k % 3]);
        let n_rows = self.rows.len();
        let n_cols = self.rows[x].fields.len();
        let mut fields: Vec<usize> = Vec::new();
        let mut i: usize = 0;
        while i < 3
            invariant
                i <= 3,
                x + 3 <= n_rows,
                y + 3 <= n_cols,
                x + 3 <= self.rows@.len(),
                forall|r: int| x <= r < x + 3 ==> y + 3 <= (#[trigger] self.rows@[r]).fields@.len(),
                want == Seq::new(9, |k: int| self.rows@[x + k / 3].fields@[y + k % 3]),
                fields@ == want.take(3 * i),
            decreases 3 - i,
        {
            let mut j: usize = 0;
            while j < 3
                invariant
                    i < 3,
                    j <= 3,
                    x + 3 <= n_rows,
                    y + 3 <= n_cols,
                    x + 3 <= self.rows@.len(),
                    forall|r: int| x <= r < x + 3 ==> y + 3 <= (#[trigger] self.rows@[r]).fields@.len(),
                    want == Seq::new(9, |k: int| self.rows@[x + k / 3].fields@[y + k % 3]),
                    fields@ == want.take(3 * i + j),
                decreases 3 - j,
            {
                assert(self.rows@[x + i as int].fields@.len() >= y + 3);
                let c = self.rows[x + i].fields[y + j];
                proof {
                    let k = 3 * i + j;
                    assert(k / 3 == i && k % 3 == j);
                    assert(want[k as int] == c);
                }
                fields.push(c);
                assert(fields@ =~= want.take(3 * i + j + 1));
                j = j + 1;
            }
            i = i + 1;
        }
        assert(fields@ =~= want);
        let n_blocks = self.blocks.len();
        assert(x + y / 3 < n_blocks);
        let b = x + y / 3;
        self.blocks.set(b, Line { fields });
        assert(lines_view(self.blocks@) =~= lines_view(old(self).blocks@).update(b as int, want));
    }
}

impl Default for Sudoku {
    /// A grid with every cell unknown, cell `i` at row `i / 9` and column
    /// `i % 9`.
    fn default() -> (s: Self)
        ensures
            s.wf(),
            forall|i: int| 0 <= i < 81 ==> (#[trigger] s.cells@[i])@ == (None::<usize>, digits()),
            forall|i: int| 0 <= i < 81 ==> (#[trigger] s.cells@[i]).x == i / 9 && s.cells@[i].y == i % 9,
    {
        let mut cells: Vec<Field> = Vec::new();
        let mut x: usize = 0;
        while x < 9
            invariant
                x <= 9,
                cells@.len() == 9 * x,
                forall|i: int| 0 <= i < cells@.len() ==> (#[trigger] cells@[i])@ == (None::<usize>, digits()),
                forall|i: int| 0 <= i < cells@.len() ==> (#[trigger] cells@[i]).x == i / 9 && cells@[i].y == i % 9,
            decreases 9 - x,
        {
            let mut y: usize = 0;
            while y < 9
                invariant
                    x < 9,
                    y <= 9,
                    cells@.len() == 9 * x + y,
                    forall|i: int| 0 <= i < cells@.len() ==> (#[trigger] cells@[i])@ == (None::<usize>, digits()),
                    forall|i: int| 0 <= i < cells@.len() ==> (#[trigger] cells@[i]).x == i / 9 && cells@[i].y == i % 9,
                decreases 9 - y,
            {
                assert((9 * x + y) / 9 == x && (9 * x + y) % 9 == y) by (nonlinear_arith)
                    requires y < 9;
                cells.push(Field::new(x, y));
                y = y + 1;
            }
            x = x + 1;
        }
        let mut rows: Vec<Line> = Vec::new();
        let mut cols: Vec<Line> = Vec::new();
        let mut a: usize = 0;
        while a < 9
            invariant
                a <= 9,
                lines_view(rows@) == Seq::new(a as nat, |r: int| row_line(r)),
                lines_view(cols@) == Seq::new(a as nat, |c: int| col_line(c)),
            decreases 9 - a,
        {
            let mut row: Vec<usize> = Vec::new();
            let mut col: Vec<usize> = Vec::new();
            let mut b: usize = 0;
            while b < 9
                invariant
                    a < 9,
                    b <= 9,
                    row@ == row_line(a as int).take(b as int),
                    col@ == col_line(a as int).take(b as int),
                decreases 9 - b,
            {
                row.push(9 * a + b);
                col.push(9 * b + a);
                assert(row@ =~= row_line(a as int).take(b + 1));
                assert(col@ =~= col_line(a as int).take(b + 1));
                b = b + 1;
            }
            assert(row@ =~= row_line(a as int));
            assert(col@ =~= col_line(a as int));
            let ghost rows0 = lines_view(rows@);
            let ghost cols0 = lines_view(cols@);
            rows.push(Line { fields: row });
            cols.push(Line { fields: col });
            proof {
                assert(rows0.len() == a);
                assert(rows@.len() == a + 1);
                assert(rows@[a as int].fields@ == row_line(a as int));
                assert forall|r: int| 0 <= r < a + 1 implies #[trigger] lines_view(rows@)[r] == row_line(r) by {
                    if r < a {
                        assert(lines_view(rows@)[r] == rows0[r]);
                    }
                }
                assert(cols0.len() == a);
                assert(cols@.len() == a + 1);
                assert(cols@[a as int].fields@ == col_line(a as int));
                assert forall|c: int| 0 <= c < a + 1 implies #[trigger] lines_view(cols@)[c] == col_line(c) by {
                    if c < a {
                        assert(lines_view(cols@)[c] == cols0[c]);
                    }
                }
                assert(lines_view(rows@) =~= Seq::new((a + 1) as nat, |r: int| row_line(r)));
                assert(lines_view(cols@) =~= Seq::new((a + 1) as nat, |c: int| col_line(c)));
            }
            a = a + 1;
        }
        let mut blocks: Vec<Line> = Vec::new();
        let mut b: usize = 0;
        while b < 9
            invariant
                b <= 9,
                blocks@.len() == b,
            decreases 9 - b,
        {
            blocks.push(Line { fields: Vec::new() });
            b = b + 1;
        }
        let mut s = Sudoku { cells, rows, cols, blocks };
        let mut i: usize = 0;
        while i < 3
            invariant
                i <= 3,
                s.cells@.len() == 81,
                forall|n: int| 0 <= n < 81 ==> (#[trigger] s.cells@[n])@ == (None::<usize>, digits()),
                forall|n: int| 0 <= n < 81 ==> (#[trigger] s.cells@[n]).x == n / 9 && s.cells@[n].y == n % 9,
                lines_view(s.rows@) == Seq::new(9, |r: int| row_line(r)),
                lines_view(s.cols@) == Seq::new(9, |c: int| col_line(c)),
                s.blocks@.len() == 9,
                forall|c: int| 0 <= c < 3 * i ==> (#[trigger] lines_view(s.blocks@)[c]) == block_line(c),
            decreases 3 - i,
        {
            let mut j: usize = 0;
            while j < 3
                invariant
                    i < 3,
                    j <= 3,
                    s.cells@.len() == 81,
                    forall|n: int| 0 <= n < 81 ==> (#[trigger] s.cells@[n])@ == (None::<usize>, digits()),
                    forall|n: int| 0 <= n < 81 ==> (#[trigger] s.cells@[n]).x == n / 9 && s.cells@[n].y == n % 9,
                    lines_view(s.rows@) == Seq::new(9, |r: int| row_line(r)),
                    lines_view(s.cols@) == Seq::new(9, |c: int| col_line(c)),
                    s.blocks@.len() == 9,
                    forall|c: int| 0 <= c < 3 * i + j ==> (#[trigger] lines_view(s.blocks@)[c]) == block_line(c),
                decreases 3 - j,
            {
                proof {
                    assert(lines_view(s.rows@).len() == 9);
                    assert(s.rows@.len() == 9);
                    assert forall|r: int| 3 * i <= r < 3 * i + 3 implies 3 * j + 3 <= (#[trigger] s.rows@[r]).fields@.len() by {
                        assert(lines_view(s.rows@)[r] == row_line(r));
                    }
                }
                let ghost before = lines_view(s.blocks@);
                s.init_block(3 * i, 3 * j);
                proof {
                    let bi = 3 * i + j;
                    assert((3 * j) / 3 == j);
                    assert(bi / 3 == i && bi % 3 == j);
                    let got = Seq::new(9, |k: int| s.rows@[3 * i + k / 3].fields@[3 * j + k % 3]);
                    assert forall|k: int| 0 <= k < 9 implies #[trigger] got[k] == block_line(bi as int)[k] by {
                        assert(0 <= k / 3 < 3 && 0 <= k % 3 < 3);
                        assert(lines_view(s.rows@)[3 * i + k / 3] == row_line(3 * i + k / 3));
                    }
                    assert(got =~= block_line(bi as int));
                    assert forall|c: int| 0 <= c < bi + 1 implies (#[trigger] lines_view(s.blocks@)[c]) == block_line(c) by {
                        if c < bi {
                            assert(lines_view(s.blocks@)[c] == before[c]);
                        }
                    }
                }
                j = j + 1;
            }
            i = i + 1;
        }
        proof {
            assert(lines_view(s.blocks@) =~= Seq::new(9, |c: int| block_line(c)));
            assert forall|n: int| 0 <= n < cells_view(s.cells@).len() implies cell_ok(#[trigger] cells_view(s.cells@)[n]) by {
                assert(s.cells@[n]@ == (None::<usize>, digits()));
            }
        }
        s
    }
}

/// Cell `y` keeps what cell `x` knows: a known digit stays, and no
/// candidate is added.
pub open spec fn cell_keeps(x: CellView, y: CellView) -> bool {
    &&& x.0 is Some ==> y.0 == x.0
    &&& y.1.subset_of(x.1)
}

/// `b` keeps what `a` knows, cell by cell.
pub open spec fn keeps_known(a: Seq<CellView>, b: Seq<CellView>) -> bool {
    &&& a.len() == b.len()
    &&& forall|i: int| 0 <= i < a.len() ==> cell_keeps(a[i], #[trigger] b[i])
}

/// Some cell unknown in `a` is known in `b`.
pub open spec fn fixes_a_cell(a: Seq<CellView>, b: Seq<CellView>) -> bool {
    exists|i: int| 0 <= i < a.len() && a[i].0 is None && (#[trigger] b[i]).0 is Some
}

/// Number of unknown cells among the first `n`.
pub open spec fn unknown_upto(cs: Seq<CellView>, n: int) -> nat
    decreases n,
{
    if n <= 0 {
        0
    } else {
        unknown_upto(cs, n - 1) + if cs[n - 1].0 is None { 1nat } else { 0nat }
    }
}

proof fn lemma_keeps_trans(a: Seq<CellView>, b: Seq<CellView>, c: Seq<CellView>)
    requires
        keeps_known(a, b),
        keeps_known(b, c),
    ensures
        keeps_known(a, c),
        fixes_a_cell(a, b) ==> fixes_a_cell(a, c),
        fixes_a_cell(b, c) ==> fixes_a_cell(a, c),
{
    assert forall|i: int| 0 <= i < a.len() implies cell_keeps(a[i], #[trigger] c[i]) by {
        assert(cell_keeps(a[i], b[i]));
        assert(cell_keeps(b[i], c[i]));
        let (sa, sb, sc) = (a[i].1, b[i].1, c[i].1);
        assert forall|x: usize| sc.contains(x) implies sa.contains(x) by {
            assert(sb.contains(x));
        }
    }
    if fixes_a_cell(a, b) {
        let i = choose|i: int| 0 <= i < a.len() && a[i].0 is None && (#[trigger] b[i]).0 is Some;
        assert(cell_keeps(b[i], c[i]));
    }
    if fixes_a_cell(b, c) {
        let i = choose|i: int| 0 <= i < b.len() && b[i].0 is None && (#[trigger] c[i]).0 is Some;
        assert(cell_keeps(a[i], b[i]));
    }
}

proof fn lemma_keeps_refl(a: Seq<CellView>)
    ensures
        keeps_known(a, a),
{
}

/// A grid that keeps what another knows has no more unknown cells, and
/// fewer when it fixes one.
pub proof fn lemma_unknown_drops(a: Seq<CellView>, b: Seq<CellView>, n: int)
    requires
        keeps_known(a, b),
        0 <= n <= a.len(),
    ensures
        unknown_upto(b, n) <= unknown_upto(a, n),
        (exists|i: int| 0 <= i < n && a[i].0 is None && (#[trigger] b[i]).0 is Some) ==> unknown_upto(b, n) < unknown_upto(a, n),
    decreases n,
{
    if n > 0 {
        lemma_unknown_drops(a, b, n - 1);
        assert(cell_keeps(a[n - 1], b[n - 1]));
        if exists|i: int| 0 <= i < n && a[i].0 is None && (#[trigger] b[i]).0 is Some {
            let i = choose|i: int| 0 <= i < n && a[i].0 is None && (#[trigger] b[i]).0 is Some;
            if i < n - 1 {
                assert(exists|j: int| 0 <= j < n - 1 && a[j].0 is None && (#[trigger] b[j]).0 is Some);
            }
        }
    }
}

proof fn lemma_check_from_keeps(cs: Seq<CellView>, line: Seq<usize>, vs: Seq<Option<usize>>, k: int)
    requires
        line_ok(line, cs.len()),
        vs.len() == 9,
    ensures
        keeps_known(cs, check_from(cs, line, vs, k).0),
        check_from(cs, line, vs, k).1 ==> fixes_a_cell(cs, check_from(cs, line, vs, k).0),
    decreases 81 - k,
{
    if 0 <= k < 81 {
        assert(0 <= k / 9 < 9 && 0 <= k % 9 < 9);
        if let Some(v) = vs[k / 9] {
            let t = line[k % 9] as int;
            if cs[t].0 is None {
                let c2 = cs.update(t, without(cs[t], v));
                assert(keeps_known(cs, c2)) by {
                    assert forall|i: int| 0 <= i < cs.len() implies cell_keeps(cs[i], #[trigger] c2[i]) by {
                        if i == t {
                            assert(c2[i].1 == cs[t].1.remove(v));
                        }
                    }
                }
                if cs[t].1.remove(v).len() == 1 {
                    assert(c2[t].0 is Some);
                } else {
                    lemma_check_from_keeps(c2, line, vs, k + 1);
                    lemma_keeps_trans(cs, c2, check_from(c2, line, vs, k + 1).0);
                }
            } else {
                lemma_check_from_keeps(cs, line, vs, k + 1);
            }
        } else {
            lemma_check_from_keeps(cs, line, vs, k + 1);
        }
    }
}

proof fn lemma_cand_last_unknown(cs: Seq<CellView>, line: Seq<usize>, n: usize, b: int)
    requires
        b >= 0,
        cand_count(cs, line, n, b) > 0,
    ensures
        cs[line[cand_last(cs, line, n, b)] as int].0 is None,
    decreases b,
{
    if !(cs[line[b - 1] as int].0 is None && cs[line[b - 1] as int].1.contains(n)) {
        lemma_cand_last_unknown(cs, line, n, b - 1);
    }
}

/// Position `b` of the line is an unknown cell that may still be `n`.
pub open spec fn may_take(cs: Seq<CellView>, line: Seq<usize>, n: usize, b: int) -> bool {
    cs[line[b] as int].0 is None && cs[line[b] as int].1.contains(n)
}

proof fn lemma_single_candidate(cs: Seq<CellView>, line: Seq<usize>, n: usize, b: int)
    requires
        0 <= b,
        cand_count(cs, line, n, b) <= 1,
    ensures
        forall|b2: int| 0 <= b2 < b && #[trigger] may_take(cs, line, n, b2) ==> b2 == cand_last(cs, line, n, b),
        cand_count(cs, line, n, b) == 0 ==> forall|b2: int| 0 <= b2 < b ==> !#[trigger] may_take(cs, line, n, b2),
    decreases b,
{
    if b > 0 {
        lemma_single_candidate(cs, line, n, b - 1);
        if may_take(cs, line, n, b - 1) {
            assert(cand_count(cs, line, n, b - 1) == 0);
        }
    }
}

proof fn lemma_first_single_digit(cs: Seq<CellView>, line: Seq<usize>, n: usize)
    requires
        n >= 1,
    ensures
        first_single(cs, line, n) matches Some(m) ==> n <= m <= 9,
    decreases 10 - n,
{
    if 1 <= n <= 9 && cand_count(cs, line, n, 9) != 1 {
        lemma_first_single_digit(cs, line, (n + 1) as usize);
    }
}

/// The `only` rule along a line fixes a hidden single: when it reports a
/// change, it has written into one unknown cell of the line a digit that
/// this cell may still take and that no other unknown cell of the line
/// may take, leaving every other cell as it was; otherwise nothing changes.
pub proof fn lemma_only_hidden_single(cs: Seq<CellView>, line: Seq<usize>)
    requires
        line_ok(line, cs.len()),
    ensures
        !only_spec(cs, line).1 ==> only_spec(cs, line).0 == cs,
        only_spec(cs, line).1 ==> exists|b: int, n: usize| {
            &&& 0 <= b < 9
            &&& 1 <= n <= 9
            &&& #[trigger] may_take(cs, line, n, b)
            &&& only_spec(cs, line).0 == cs.update(line[b] as int, (Some(n), cs[line[b] as int].1))
            &&& forall|b2: int| 0 <= b2 < 9 && b2 != b ==> !may_take(cs, line, n, b2)
        },
{
    if let Some(n) = first_single(cs, line, 1) {
        lemma_first_single_count(cs, line, 1);
        lemma_first_single_digit(cs, line, 1);
        lemma_cand_last_range(cs, line, n, 9);
        lemma_single_candidate(cs, line, n, 9);
        let b = cand_last(cs, line, n, 9);
        lemma_cand_last_taken(cs, line, n, 9);
        assert(may_take(cs, line, n, b));
        assert forall|b2: int| 0 <= b2 < 9 && b2 != b implies !may_take(cs, line, n, b2) by {}
    }
}

proof fn lemma_cand_last_taken(cs: Seq<CellView>, line: Seq<usize>, n: usize, b: int)
    requires
        b >= 0,
        cand_count(cs, line, n, b) > 0,
    ensures
        may_take(cs, line, n, cand_last(cs, line, n, b)),
    decreases b,
{
    if !(cs[line[b - 1] as int].0 is None && cs[line[b - 1] as int].1.contains(n)) {
        lemma_cand_last_taken(cs, line, n, b - 1);
    }
}

proof fn lemma_only_keeps(cs: Seq<CellView>, line: Seq<usize>)
    requires
        line_ok(line, cs.len()),
    ensures
        keeps_known(cs, only_spec(cs, line).0),
        only_spec(cs, line).1 ==> fixes_a_cell(cs, only_spec(cs, line).0),
{
    if let Some(n) = first_single(cs, line, 1) {
        lemma_first_single_count(cs, line, 1);
        lemma_cand_last_range(cs, line, n, 9);
        lemma_cand_last_unknown(cs, line, n, 9);
        let t = line[cand_last(cs, line, n, 9)] as int;
        let c2 = cs.update(t, (Some(n), cs[t].1));
        assert(c2[t].0 is Some);
    }
}

proof fn lemma_check_lines_keeps(cs: Seq<CellView>, ls: Seq<Seq<usize>>, i: int)
    requires
        lines_ok(ls, cs.len()),
    ensures
        keeps_known(cs, check_lines(cs, ls, i).0),
        check_lines(cs, ls, i).1 ==> fixes_a_cell(cs, check_lines(cs, ls, i).0),
    decreases ls.len() - i,
{
    if 0 <= i < ls.len() {
        assert(line_ok(ls[i], cs.len()));
        let r = check_from(cs, ls[i], line_vals(cs, ls[i]), 0);
        lemma_check_from_keeps(cs, ls[i], line_vals(cs, ls[i]), 0);
        if !r.1 {
            lemma_check_lines_keeps(r.0, ls, i + 1);
            lemma_keeps_trans(cs, r.0, check_lines(r.0, ls, i + 1).0);
        }
    }
}

proof fn lemma_only_lines_keeps(cs: Seq<CellView>, ls: Seq<Seq<usize>>, i: int)
    requires
        lines_ok(ls, cs.len()),
    ensures
        keeps_known(cs, only_lines(cs, ls, i).0),
        only_lines(cs, ls, i).1 ==> fixes_a_cell(cs, only_lines(cs, ls, i).0),
    decreases ls.len() - i,
{
    if 0 <= i < ls.len() {
        assert(line_ok(ls[i], cs.len()));
        let r = only_spec(cs, ls[i]);
        lemma_only_keeps(cs, ls[i]);
        if !r.1 {
            lemma_only_lines_keeps(r.0, ls, i + 1);
            lemma_keeps_trans(cs, r.0, only_lines(r.0, ls, i + 1).0);
        }
    }
}

/// Checking the grid keeps every known digit and adds no candidate; when
/// it reports a change, some unknown cell has become known.
pub proof fn lemma_check_progress(cs: Seq<CellView>)
    requires
        cs.len() == 81,
    ensures
        keeps_known(cs, sudoku_check(cs).0),
        sudoku_check(cs).1 ==> fixes_a_cell(cs, sudoku_check(cs).0),
{
    lemma_grid_lines_ok();
    let rows = Seq::new(9, |x: int| row_line(x));
    let cols = Seq::new(9, |y: int| col_line(y));
    let blocks = Seq::new(9, |b: int| block_line(b));
    let r1 = check_lines(cs, rows, 0);
    lemma_check_lines_keeps(cs, rows, 0);
    let r2 = check_lines(r1.0, cols, 0);
    lemma_check_lines_keeps(r1.0, cols, 0);
    let r3 = check_lines(r2.0, blocks, 0);
    lemma_check_lines_keeps(r2.0, blocks, 0);
    lemma_keeps_trans(cs, r1.0, r2.0);
    lemma_keeps_trans(cs, r2.0, r3.0);
    lemma_keeps_trans(r1.0, r2.0, r3.0);
}

/// The same holds of the `only` pass over the grid.
pub proof fn lemma_only_progress(cs: Seq<CellView>)
    requires
        cs.len() == 81,
    ensures
        keeps_known(cs, sudoku_only(cs).0),
        sudoku_only(cs).1 ==> fixes_a_cell(cs, sudoku_only(cs).0),
{
    lemma_grid_lines_ok();
    let rows = Seq::new(9, |x: int| row_line(x));
    let cols = Seq::new(9, |y: int| col_line(y));
    let blocks = Seq::new(9, |b: int| block_line(b));
    let r1 = only_lines(cs, rows, 0);
    lemma_only_lines_keeps(cs, rows, 0);
    let c1 = if r1.1 { sudoku_check(r1.0).0 } else { r1.0 };
    lemma_check_progress(r1.0);
    lemma_keeps_refl(r1.0);
    lemma_keeps_trans(cs, r1.0, c1);
    let r2 = only_lines(c1, cols, 0);
    lemma_only_lines_keeps(c1, cols, 0);
    lemma_keeps_trans(cs, c1, r2.0);
    let ch2 = r1.1 || r2.1;
    let c2 = if ch2 { sudoku_check(r2.0).0 } else { r2.0 };
    lemma_check_progress(r2.0);
    lemma_keeps_refl(r2.0);
    lemma_keeps_trans(cs, r2.0, c2);
    lemma_keeps_trans(c1, r2.0, c2);
    let r3 = only_lines(c2, blocks, 0);
    lemma_only_lines_keeps(c2, blocks, 0);
    lemma_keeps_trans(cs, c2, r3.0);
    let c3 = if r2.1 || r1.1 || r3.1 { sudoku_check(r3.0).0 } else { r3.0 };
    lemma_check_progress(r3.0);
    lemma_keeps_refl(r3.0);
    lemma_keeps_trans(cs, r3.0, c3);
}

/// The grid after applying the rules as far as they go: check until
/// nothing changes, then try `only`, and start over whenever that fixes a
/// cell.
pub open spec fn solve_spec(cs: Seq<CellView>) -> Seq<CellView>
    decreases unknown_upto(cs, 81),
{
    if cs.len() != 81 {
        cs
    } else {
        let r = sudoku_check(cs);
        if r.1 {
            proof {
                lemma_check_progress(cs);
                lemma_unknown_drops(cs, r.0, 81);
            }
            solve_spec(r.0)
        } else {
            let o = sudoku_only(r.0);
            if o.1 {
                proof {
                    lemma_check_progress(cs);
                    lemma_only_progress(r.0);
                    lemma_unknown_drops(cs, r.0, 81);
                    lemma_unknown_drops(r.0, o.0, 81);
                }
                solve_spec(o.0)
            } else {
                o.0
            }
        }
    }
}

impl Sudoku {
    /// Applies the rules until they change nothing (see `solve_spec`).
    pub fn solve(&mut self)
        requires
            old(self).wf(),
        ensures
            final(self).wf(),
            final(self).rows == old(self).rows,
            final(self).cols == old(self).cols,
            final(self).blocks == old(self).blocks,
            cells_view(final(self).cells@) == solve_spec(cells_view(old(self).cells@)),
            coords_kept(old(self).cells@, final(self).cells@),
    {
        let ghost target = solve_spec(cells_view(self.cells@));
        let mut x = true;
        while x
            invariant
                self.wf(),
                self.rows == old(self).rows,
                self.cols == old(self).cols,
                self.blocks == old(self).blocks,
                target == solve_spec(cells_view(old(self).cells@)),
                coords_kept(old(self).cells@, self.cells@),
                x ==> solve_spec(cells_view(self.cells@)) == target,
                !x ==> cells_view(self.cells@) == target,
            decreases unknown_upto(cells_view(self.cells@), 81) + if x { 1int } else { 0int },
        {
            let ghost before = cells_view(self.cells@);
            proof {
                lemma_check_progress(before);
                lemma_unknown_drops(before, sudoku_check(before).0, 81);
            }
            x = self.check();
            if !x {
                let ghost mid = cells_view(self.cells@);
                proof {
                    lemma_only_progress(mid);
                    lemma_unknown_drops(mid, sudoku_only(mid).0, 81);
                }
                x = self.only();
            }
        }
    }
}
} // verus!
