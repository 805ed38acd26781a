//! The mathematical model of the box algebra.
//!
//! A [`BoxModel`] is a width together with a sequence of rows; every
//! executable operation on [`crate::boxes::Box`] promises that the model of
//! its result equals the corresponding spec function defined here.

use crate::align::Horizontal;
use crate::align::Vertical;
use vstd::prelude::*;

verus! {

/// The abstract value of a box: its width and its rows, each row a sequence
/// of characters that is `width` long in a well-formed box.
pub struct BoxModel {
    pub width: nat,
    pub rows: Seq<Seq<char>>,
}

/// The larger of two naturals.
pub open spec fn max_nat(a: nat, b: nat) -> nat {
    if a >= b {
        a
    } else {
        b
    }
}

/// A row of `w` spaces.
pub open spec fn blank_row(w: nat) -> Seq<char> {
    Seq::new(w, |j: int| ' ')
}

/// `r` with `before` spaces on its left and `after` spaces on its right.
pub open spec fn pad_row(r: Seq<char>, before: nat, after: nat) -> Seq<char> {
    blank_row(before) + r + blank_row(after)
}

/// How many of `d` missing rows go above the contents.
pub open spec fn pad_above(d: nat, alignment: Vertical) -> nat {
    match alignment {
        Vertical::Top => 0,
        Vertical::Center => d / 2,
        Vertical::Bottom => d,
    }
}

/// How many of `d` missing columns go left of the contents.
pub open spec fn pad_left(d: nat, alignment: Horizontal) -> nat {
    match alignment {
        Horizontal::Left => 0,
        Horizontal::Center => d / 2,
        Horizontal::Right => d,
    }
}

impl BoxModel {
    pub open spec fn height(self) -> nat {
        self.rows.len()
    }

    /// Every row has exactly `width` characters.
    pub open spec fn wf(self) -> bool {
        forall|i: int| 0 <= i < self.rows.len() ==> (#[trigger] self.rows[i]).len() == self.width
    }

    /// A proper box has either both dimensions zero or neither; only the
    /// degenerate boxes (one dimension zero, the other not) lack this.
    pub open spec fn proper(self) -> bool {
        self.width == 0 <==> self.height() == 0
    }

    /// The zero-by-zero box, the identity of `beside` and `above`.
    pub open spec fn empty() -> BoxModel {
        BoxModel { width: 0, rows: Seq::empty() }
    }

    /// `h` rows of `w` copies of `c`.
    pub open spec fn fill(c: char, w: nat, h: nat) -> BoxModel {
        BoxModel { width: w, rows: Seq::new(h, |i: int| Seq::new(w, |j: int| c)) }
    }

    /// `h` rows of `w` spaces.
    pub open spec fn blank(w: nat, h: nat) -> BoxModel {
        Self::fill(' ', w, h)
    }

    /// The box padded with blank rows to at least `target` rows; a box at
    /// least `target` tall is left unchanged, and the alignment says how
    /// many of the new rows go above the contents.
    pub open spec fn heighten(self, target: nat, alignment: Vertical) -> BoxModel {
        if self.height() >= target {
            self
        } else {
            let d = (target - self.height()) as nat;
            let before = pad_above(d, alignment);
            BoxModel {
                width: self.width,
                rows: blank_rows(self.width, before) + self.rows + blank_rows(
                    self.width,
                    (d - before) as nat,
                ),
            }
        }
    }

    /// The box padded with space columns to at least `target` columns; a box
    /// at least `target` wide is left unchanged.
    pub open spec fn widen(self, target: nat, alignment: Horizontal) -> BoxModel {
        if self.width >= target {
            self
        } else {
            let d = (target - self.width) as nat;
            let before = pad_left(d, alignment);
            BoxModel {
                width: target,
                rows: self.rows.map(|i: int, r: Seq<char>| pad_row(r, before, (d - before) as nat)),
            }
        }
    }

    /// Horizontal join: a zero-width operand yields the other operand
    /// unchanged; otherwise both are heightened to the taller height and the
    /// rows are concatenated pairwise.
    pub open spec fn beside(self, other: BoxModel, alignment: Vertical) -> BoxModel {
        if self.width == 0 {
            other
        } else if other.width == 0 {
            self
        } else {
            let h = max_nat(self.height(), other.height());
            let a = self.heighten(h, alignment);
            let b = other.heighten(h, alignment);
            BoxModel { width: self.width + other.width, rows: Seq::new(h, |i: int| a.rows[i] + b.rows[i]) }
        }
    }

    /// Vertical join: a zero-height operand yields the other operand
    /// unchanged; otherwise both are widened to the wider width and the top
    /// operand's rows are followed by the bottom operand's.
    pub open spec fn above(self, other: BoxModel, alignment: Horizontal) -> BoxModel {
        if self.height() == 0 {
            other
        } else if other.height() == 0 {
            self
        } else {
            let w = max_nat(self.width, other.width);
            BoxModel {
                width: w,
                rows: self.widen(w, alignment).rows + other.widen(w, alignment).rows,
            }
        }
    }

    /// A one-cell frame around the box: `+` corners, `-` bars as wide as the
    /// box, `|` bars as tall as the box, assembled as a three-by-three grid.
    pub open spec fn framed(self) -> BoxModel {
        grid_model(
            seq![
                seq![
                    Self::fill('+', 1, 1),
                    Self::fill('-', self.width, 1),
                    Self::fill('+', 1, 1),
                ],
                seq![
                    Self::fill('|', 1, self.height()),
                    self,
                    Self::fill('|', 1, self.height()),
                ],
                seq![
                    Self::fill('+', 1, 1),
                    Self::fill('-', self.width, 1),
                    Self::fill('+', 1, 1),
                ],
            ],
        )
    }

    /// The rendered text: each row in order, each followed by a newline.
    pub open spec fn text(self) -> Seq<char> {
        flat(self.rows.map(|i: int, r: Seq<char>| r.push('\n')))
    }
}

/// `h` blank rows of width `w`.
pub open spec fn blank_rows(w: nat, h: nat) -> Seq<Seq<char>> {
    Seq::new(h, |i: int| blank_row(w))
}

/// Left fold of `beside` over a sequence, seeded with the empty box.
pub open spec fn hconcat_model(bs: Seq<BoxModel>, alignment: Vertical) -> BoxModel
    decreases bs.len(),
{
    if bs.len() == 0 {
        BoxModel::empty()
    } else {
        hconcat_model(bs.drop_last(), alignment).beside(bs.last(), alignment)
    }
}

/// Left fold of `above` over a sequence, seeded with the empty box.
pub open spec fn vconcat_model(bs: Seq<BoxModel>, alignment: Horizontal) -> BoxModel
    decreases bs.len(),
{
    if bs.len() == 0 {
        BoxModel::empty()
    } else {
        vconcat_model(bs.drop_last(), alignment).above(bs.last(), alignment)
    }
}

/// Each row of a grid joined horizontally with the default `Center`
/// alignment.
pub open spec fn row_boxes(rss: Seq<Seq<BoxModel>>) -> Seq<BoxModel> {
    rss.map(|i: int, r: Seq<BoxModel>| hconcat_model(r, Vertical::Center))
}

/// Each row joined horizontally, the row boxes then joined vertically, both
/// with the default `Center` alignment.
pub open spec fn grid_model(rss: Seq<Seq<BoxModel>>) -> BoxModel {
    vconcat_model(row_boxes(rss), Horizontal::Center)
}

/// The sum of the widths of a sequence of boxes.
pub open spec fn sum_widths(bs: Seq<BoxModel>) -> nat
    decreases bs.len(),
{
    if bs.len() == 0 {
        0
    } else {
        sum_widths(bs.drop_last()) + bs.last().width
    }
}

/// The sum of the heights of a sequence of boxes.
pub open spec fn sum_heights(bs: Seq<BoxModel>) -> nat
    decreases bs.len(),
{
    if bs.len() == 0 {
        0
    } else {
        sum_heights(bs.drop_last()) + bs.last().height()
    }
}

/// The largest width in a sequence of boxes, zero when it is empty.
pub open spec fn max_widths(bs: Seq<BoxModel>) -> nat
    decreases bs.len(),
{
    if bs.len() == 0 {
        0
    } else {
        max_nat(max_widths(bs.drop_last()), bs.last().width)
    }
}

/// The largest height in a sequence of boxes, zero when it is empty.
pub open spec fn max_heights(bs: Seq<BoxModel>) -> nat
    decreases bs.len(),
{
    if bs.len() == 0 {
        0
    } else {
        max_nat(max_heights(bs.drop_last()), bs.last().height())
    }
}

/// The rows of a sequence concatenated into one flat sequence.
pub open spec fn flat(rows: Seq<Seq<char>>) -> Seq<char>
    decreases rows.len(),
{
    if rows.len() == 0 {
        Seq::empty()
    } else {
        flat(rows.drop_last()) + rows.last()
    }
}

/// A flat, row-major buffer of `h` rows of `w` characters cut back into its
/// rows.
pub open spec fn rows_of(s: Seq<char>, w: nat, h: nat) -> Seq<Seq<char>> {
    Seq::new(h, |i: int| s.subrange(i * (w as int), (i + 1) * (w as int)))
}

/// Flattening distributes over concatenation of row sequences.
pub proof fn lemma_flat_concat(a: Seq<Seq<char>>, b: Seq<Seq<char>>)
    ensures
        flat(a + b) == flat(a) + flat(b),
    decreases b.len(),
{
    if b.len() == 0 {
        assert(a + b =~= a);
        assert(flat(a) + flat(b) =~= flat(a));
    } else {
        lemma_flat_concat(a, b.drop_last());
        assert((a + b).drop_last() =~= a + b.drop_last());
        assert((a + b).last() == b.last());
        assert((flat(a) + flat(b.drop_last())) + b.last() =~= flat(a) + (flat(b.drop_last())
            + b.last()));
    }
}

/// Flattening rows of a common width `w` gives a buffer of `len * w`
/// characters from which `rows_of` recovers exactly the rows.
pub proof fn lemma_flat_uniform(rows: Seq<Seq<char>>, w: nat)
    requires
        forall|i: int| 0 <= i < rows.len() ==> (#[trigger] rows[i]).len() == w,
    ensures
        flat(rows).len() == rows.len() * w,
        rows_of(flat(rows), w, rows.len()) == rows,
    decreases rows.len(),
{
    if rows.len() == 0 {
        assert(rows.len() * w == 0) by (nonlinear_arith)
            requires
                rows.len() == 0,
        ;
        assert(rows_of(flat(rows), w, rows.len()) =~= rows);
    } else {
        let n = rows.len() as int;
        let dl = rows.drop_last();
        lemma_flat_uniform(dl, w);
        assert((n - 1) * (w as int) + w == n * (w as int)) by (nonlinear_arith);
        let s = flat(rows);
        assert(rows[n - 1].len() == w);
        assert(s == flat(dl) + rows.last());
        assert(flat(dl).len() == (n - 1) * (w as int));
        assert(s.len() == n * (w as int));
        assert forall|i: int| 0 <= i < n implies rows_of(s, w, rows.len())[i] == rows[i] by {
            assert(0 <= i * (w as int) && i * (w as int) <= (i + 1) * (w as int) && (i + 1) * (
            w as int) <= n * (w as int)) by (nonlinear_arith)
                requires
                    0 <= i < n,
                    0 <= w,
            ;
            if i < n - 1 {
                assert((i + 1) * (w as int) <= (n - 1) * (w as int)) by (nonlinear_arith)
                    requires
                        i + 1 <= n - 1,
                        0 <= w,
                ;
                assert(s.subrange(i * (w as int), (i + 1) * (w as int)) =~= flat(dl).subrange(
                    i * (w as int),
                    (i + 1) * (w as int),
                ));
                assert(rows_of(flat(dl), w, dl.len())[i] == dl[i]);
            } else {
                assert(s.subrange(i * (w as int), (i + 1) * (w as int)) =~= rows.last());
            }
        }
        assert(rows_of(s, w, rows.len()) =~= rows);
    }
}

/// Cutting a buffer of `h * w` characters into rows and flattening them
/// again gives the buffer back.
pub proof fn lemma_flat_rows_of(s: Seq<char>, w: nat, h: nat)
    requires
        s.len() == h * w,
    ensures
        flat(rows_of(s, w, h)) == s,
    decreases h,
{
    if h == 0 {
        assert(h * w == 0) by (nonlinear_arith)
            requires
                h == 0,
        ;
        assert(rows_of(s, w, 0) =~= Seq::<Seq<char>>::empty());
        assert(s =~= Seq::<char>::empty());
    } else {
        assert((h - 1) * (w as int) + (w as int) == (h as int) * (w as int)) by (nonlinear_arith);
        assert(0 <= (h - 1) * (w as int)) by (nonlinear_arith)
            requires
                h >= 1,
                0 <= w,
        ;
        let hw = (h as int) * (w as int);
        let pw = (h - 1) * (w as int);
        let s0 = s.subrange(0, pw);
        assert(s0.len() == pw);
        assert(s0.len() == ((h - 1) as nat) * w);
        lemma_flat_rows_of(s0, w, (h - 1) as nat);
        let rs = rows_of(s, w, h);
        assert forall|i: int| 0 <= i < h - 1 implies rs[i] == rows_of(s0, w, (h - 1) as nat)[i] by {
            assert(0 <= i * (w as int) && i * (w as int) <= (i + 1) * (w as int) && (i + 1) * (
            w as int) <= pw) by (nonlinear_arith)
                requires
                    0 <= i,
                    i + 1 <= h - 1,
                    0 <= w,
                    pw == (h - 1) * (w as int),
            ;
            assert(s0.subrange(i * (w as int), (i + 1) * (w as int)) =~= s.subrange(
                i * (w as int),
                (i + 1) * (w as int),
            ));
        }
        assert(rs.drop_last() =~= rows_of(s0, w, (h - 1) as nat));
        assert(rs.last() == s.subrange(pw, hw));
        assert(flat(rs) == flat(rs.drop_last()) + rs.last());
        assert(s0 + s.subrange(pw, hw) =~= s);
    }
}

/// Flattening `h` rows of `w` copies of `c` gives `h * w` copies of `c`.
pub proof fn lemma_flat_const(c: char, w: nat, h: nat)
    ensures
        flat(Seq::new(h, |i: int| Seq::new(w, |j: int| c))) == Seq::new(h * w, |k: int| c),
    decreases h,
{
    let rows = Seq::new(h, |i: int| Seq::new(w, |j: int| c));
    if h == 0 {
        assert(h * w == 0) by (nonlinear_arith)
            requires
                h == 0,
        ;
        assert(flat(rows) =~= Seq::new(h * w, |k: int| c));
    } else {
        let hm = (h - 1) as nat;
        lemma_flat_const(c, w, hm);
        assert(rows.drop_last() =~= Seq::new(hm, |i: int| Seq::new(w, |j: int| c)));
        assert(hm * w + w == h * w) by (nonlinear_arith)
            requires
                hm + 1 == h,
        ;
        assert(Seq::new(hm * w, |k: int| c) + Seq::new(w, |j: int| c) =~= Seq::new(
            h * w,
            |k: int| c,
        ));
    }
}

/// Heightening keeps every row `width` characters long.
pub proof fn lemma_heighten_wf(m: BoxModel, t: nat, alignment: Vertical)
    requires
        m.wf(),
    ensures
        m.heighten(t, alignment).wf(),
        m.heighten(t, alignment).width == m.width,
        m.heighten(t, alignment).height() == max_nat(m.height(), t),
{
}

/// Widening keeps the rows uniform, now at the target width.
pub proof fn lemma_widen_wf(m: BoxModel, t: nat, alignment: Horizontal)
    requires
        m.wf(),
    ensures
        m.widen(t, alignment).wf(),
        m.widen(t, alignment).width == max_nat(m.width, t),
        m.widen(t, alignment).height() == m.height(),
{
    if m.width < t {
        let d = (t - m.width) as nat;
        let before = pad_left(d, alignment);
        assert forall|i: int| 0 <= i < m.rows.len() implies (#[trigger] m.widen(
            t,
            alignment,
        ).rows[i]).len() == t by {
            assert(m.widen(t, alignment).rows[i] == pad_row(m.rows[i], before, (d - before) as nat));
        }
    }
}

/// A horizontal join of well-formed boxes is well-formed.
pub proof fn lemma_beside_wf(a: BoxModel, b: BoxModel, alignment: Vertical)
    requires
        a.wf(),
        b.wf(),
    ensures
        a.beside(b, alignment).wf(),
{
    if a.width != 0 && b.width != 0 {
        let h = max_nat(a.height(), b.height());
        lemma_heighten_wf(a, h, alignment);
        lemma_heighten_wf(b, h, alignment);
    }
}

/// A vertical join of well-formed boxes is well-formed.
pub proof fn lemma_above_wf(a: BoxModel, b: BoxModel, alignment: Horizontal)
    requires
        a.wf(),
        b.wf(),
    ensures
        a.above(b, alignment).wf(),
{
    if a.height() != 0 && b.height() != 0 {
        let w = max_nat(a.width, b.width);
        lemma_widen_wf(a, w, alignment);
        lemma_widen_wf(b, w, alignment);
    }
}

/// The dimensions a horizontal concatenation can possibly reach: its width
/// is exactly the sum of the widths, its height at most the largest height.
pub proof fn lemma_hconcat_dims(bs: Seq<BoxModel>, alignment: Vertical)
    ensures
        hconcat_model(bs, alignment).width == sum_widths(bs),
        hconcat_model(bs, alignment).height() <= max_heights(bs),
    decreases bs.len(),
{
    if bs.len() > 0 {
        lemma_hconcat_dims(bs.drop_last(), alignment);
    }
}

/// The dimensions a vertical concatenation can possibly reach: its height is
/// exactly the sum of the heights, its width at most the largest width.
pub proof fn lemma_vconcat_dims(bs: Seq<BoxModel>, alignment: Horizontal)
    ensures
        vconcat_model(bs, alignment).height() == sum_heights(bs),
        vconcat_model(bs, alignment).width <= max_widths(bs),
    decreases bs.len(),
{
    if bs.len() > 0 {
        lemma_vconcat_dims(bs.drop_last(), alignment);
    }
}

/// A prefix of a sequence of boxes never exceeds the whole sequence's width
/// sum or height maximum.
pub proof fn lemma_prefix_widths(bs: Seq<BoxModel>, k: int)
    requires
        0 <= k < bs.len(),
    ensures
        sum_widths(bs.subrange(0, k)) + bs[k].width <= sum_widths(bs),
        max_heights(bs.subrange(0, k)) <= max_heights(bs),
        bs[k].height() <= max_heights(bs),
    decreases bs.len(),
{
    if k == bs.len() - 1 {
        assert(bs.subrange(0, k) =~= bs.drop_last());
    } else {
        lemma_prefix_widths(bs.drop_last(), k);
        assert(bs.drop_last().subrange(0, k) =~= bs.subrange(0, k));
    }
}

/// A prefix of a sequence of boxes never exceeds the whole sequence's height
/// sum or width maximum.
pub proof fn lemma_prefix_heights(bs: Seq<BoxModel>, k: int)
    requires
        0 <= k < bs.len(),
    ensures
        sum_heights(bs.subrange(0, k)) + bs[k].height() <= sum_heights(bs),
        max_widths(bs.subrange(0, k)) <= max_widths(bs),
        bs[k].width <= max_widths(bs),
    decreases bs.len(),
{
    if k == bs.len() - 1 {
        assert(bs.subrange(0, k) =~= bs.drop_last());
    } else {
        lemma_prefix_heights(bs.drop_last(), k);
        assert(bs.drop_last().subrange(0, k) =~= bs.subrange(0, k));
    }
}

/// The buffers every intermediate step of `hconcat` builds fit in a `usize`.
pub open spec fn hconcat_fits(bs: Seq<BoxModel>) -> bool {
    &&& sum_widths(bs) <= usize::MAX
    &&& sum_widths(bs) * max_heights(bs) <= usize::MAX
}

/// The buffers every intermediate step of `vconcat` builds fit in a `usize`.
pub open spec fn vconcat_fits(bs: Seq<BoxModel>) -> bool {
    &&& sum_heights(bs) <= usize::MAX
    &&& max_widths(bs) * sum_heights(bs) <= usize::MAX
}

/// The sum over the rows of a grid of each row's largest height: an upper
/// bound for the grid's height.
pub open spec fn row_height_sum(rss: Seq<Seq<BoxModel>>) -> nat
    decreases rss.len(),
{
    if rss.len() == 0 {
        0
    } else {
        row_height_sum(rss.drop_last()) + max_heights(rss.last())
    }
}

/// The largest over the rows of a grid of each row's width sum: an upper
/// bound for the grid's width.
pub open spec fn row_width_max(rss: Seq<Seq<BoxModel>>) -> nat
    decreases rss.len(),
{
    if rss.len() == 0 {
        0
    } else {
        max_nat(row_width_max(rss.drop_last()), sum_widths(rss.last()))
    }
}

/// The buffers every intermediate step of `grid` builds fit in a `usize`.
pub open spec fn grid_fits(rss: Seq<Seq<BoxModel>>) -> bool {
    &&& forall|i: int| 0 <= i < rss.len() ==> hconcat_fits(#[trigger] rss[i])
    &&& row_height_sum(rss) <= usize::MAX
    &&& row_width_max(rss) * row_height_sum(rss) <= usize::MAX
}

/// The joined rows of a grid stay within the grid's height-sum and
/// width-maximum bounds.
pub proof fn lemma_row_boxes_bounds(rss: Seq<Seq<BoxModel>>)
    ensures
        sum_heights(row_boxes(rss)) <= row_height_sum(rss),
        max_widths(row_boxes(rss)) <= row_width_max(rss),
    decreases rss.len(),
{
    if rss.len() > 0 {
        lemma_row_boxes_bounds(rss.drop_last());
        assert(row_boxes(rss).drop_last() =~= row_boxes(rss.drop_last()));
        assert(row_boxes(rss).last() == hconcat_model(rss.last(), Vertical::Center));
        lemma_hconcat_dims(rss.last(), Vertical::Center);
    }
}

/// The width sums and height maxima of a three-element sequence, written
/// out.
pub proof fn lemma_dims_triple(a: BoxModel, b: BoxModel, c: BoxModel)
    ensures
        sum_widths(seq![a, b, c]) == a.width + b.width + c.width,
        max_heights(seq![a, b, c]) == max_nat(max_nat(a.height(), b.height()), c.height()),
        sum_heights(seq![a, b, c]) == a.height() + b.height() + c.height(),
        max_widths(seq![a, b, c]) == max_nat(max_nat(a.width, b.width), c.width),
{
    assert(seq![a, b, c].drop_last() =~= seq![a, b]);
    assert(seq![a, b].drop_last() =~= seq![a]);
    assert(seq![a].drop_last() =~= Seq::<BoxModel>::empty());
    assert(sum_widths(Seq::<BoxModel>::empty()) == 0);
    assert(max_heights(Seq::<BoxModel>::empty()) == 0);
    assert(sum_heights(Seq::<BoxModel>::empty()) == 0);
    assert(max_widths(Seq::<BoxModel>::empty()) == 0);
    assert(sum_widths(seq![a]) == a.width);
    assert(sum_widths(seq![a, b]) == a.width + b.width);
    assert(max_heights(seq![a]) == a.height());
    assert(max_heights(seq![a, b]) == max_nat(a.height(), b.height()));
    assert(sum_heights(seq![a]) == a.height());
    assert(sum_heights(seq![a, b]) == a.height() + b.height());
    assert(max_widths(seq![a]) == a.width);
    assert(max_widths(seq![a, b]) == max_nat(a.width, b.width));
}

/// The row bounds of a three-row grid, written out.
pub proof fn lemma_grid_triple(r1: Seq<BoxModel>, r2: Seq<BoxModel>, r3: Seq<BoxModel>)
    ensures
        row_height_sum(seq![r1, r2, r3]) == max_heights(r1) + max_heights(r2) + max_heights(r3),
        row_width_max(seq![r1, r2, r3]) == max_nat(max_nat(sum_widths(r1), sum_widths(r2)),
        sum_widths(r3)),
{
    assert(seq![r1, r2, r3].drop_last() =~= seq![r1, r2]);
    assert(seq![r1, r2].drop_last() =~= seq![r1]);
    assert(seq![r1].drop_last() =~= Seq::<Seq<BoxModel>>::empty());
    assert(row_height_sum(Seq::<Seq<BoxModel>>::empty()) == 0);
    assert(row_width_max(Seq::<Seq<BoxModel>>::empty()) == 0);
    assert(row_height_sum(seq![r1]) == max_heights(r1));
    assert(row_height_sum(seq![r1, r2]) == max_heights(r1) + max_heights(r2));
    assert(row_width_max(seq![r1]) == sum_widths(r1));
    assert(row_width_max(seq![r1, r2]) == max_nat(sum_widths(r1), sum_widths(r2)));
}

/// Flattening `h` blank rows of width `w` gives one blank row of `h * w`.
pub proof fn lemma_flat_blank_rows(w: nat, h: nat)
    ensures
        flat(blank_rows(w, h)) == blank_row(h * w),
{
    lemma_flat_const(' ', w, h);
    assert(blank_rows(w, h) =~~= Seq::new(h, |i: int| Seq::new(w, |j: int| ' ')));
    assert(blank_row(h * w) =~= Seq::new(h * w, |k: int| ' '));
}

} // verus!
