//! The executable box type and its operations.

use crate::align::Horizontal;
use crate::align::Vertical;
use crate::model::BoxModel;
use crate::model::blank_row;
use crate::model::blank_rows;
use crate::model::flat;
use crate::model::lemma_flat_blank_rows;
use crate::model::lemma_flat_concat;
use crate::model::lemma_flat_const;
use crate::model::lemma_flat_rows_of;
use crate::model::lemma_flat_uniform;
use crate::model::grid_fits;
use crate::model::grid_model;
use crate::model::hconcat_fits;
use crate::model::hconcat_model;
use crate::model::lemma_dims_triple;
use crate::model::lemma_grid_triple;
use crate::model::lemma_hconcat_dims;
use crate::model::lemma_prefix_heights;
use crate::model::lemma_prefix_widths;
use crate::model::lemma_row_boxes_bounds;
use crate::model::lemma_vconcat_dims;
use crate::model::max_heights;
use crate::model::max_nat;
use crate::model::max_widths;
use crate::model::pad_above;
use crate::model::row_boxes;
use crate::model::row_height_sum;
use crate::model::row_width_max;
use crate::model::sum_heights;
use crate::model::sum_widths;
use crate::model::vconcat_fits;
use crate::model::vconcat_model;
use crate::model::pad_left;
use crate::model::pad_row;
use crate::model::rows_of;
use vstd::prelude::*;

verus! {

/// A rectangular block of text: `height` rows of `width` characters, stored
/// row-major in one flat buffer.
pub struct Box {
    contents: Vec<char>,
    width: usize,
    height: usize,
}

/// The models of a sequence of boxes.
pub open spec fn models(s: Seq<Box>) -> Seq<BoxModel> {
    s.map(|i: int, b: Box| b@)
}

/// The models of a two-dimensional sequence of boxes.
pub open spec fn grid_models(rss: Seq<Vec<Box>>) -> Seq<Seq<BoxModel>> {
    rss.map(|i: int, r: Vec<Box>| models(r@))
}

/// Every box in the sequence is well-formed.
pub open spec fn all_wf(s: Seq<Box>) -> bool {
    forall|i: int| 0 <= i < s.len() ==> (#[trigger] s[i]).wf()
}

/// Every box in every row is well-formed.
pub open spec fn all_rows_wf(rss: Seq<Vec<Box>>) -> bool {
    forall|i: int| 0 <= i < rss.len() ==> all_wf((#[trigger] rss[i])@)
}

impl View for Box {
    type V = BoxModel;

    closed spec fn view(&self) -> BoxModel {
        BoxModel {
            width: self.width as nat,
            rows: rows_of(self.contents@, self.width as nat, self.height as nat),
        }
    }
}

impl Box {
    /// The buffer holds exactly `width * height` characters, and that
    /// product fits in a `usize`.
    pub closed spec fn wf(self) -> bool {
        &&& self.contents@.len() == self.width * self.height
        &&& self.width * self.height <= usize::MAX
    }

    /// The canonical empty box: zero wide, zero tall.
    pub fn empty() -> (r: Box)
        ensures
            r.wf(),
            r@ == BoxModel::empty(),
    {
        let r = Box { contents: Vec::new(), width: 0, height: 0 };
        proof {
            assert(r@.rows =~= BoxModel::empty().rows);
        }
        r
    }

    /// The number of columns.
    pub fn width(&self) -> (w: usize)
        ensures
            w as nat == self@.width,
    {
        self.width
    }

    /// The number of rows.
    pub fn height(&self) -> (h: usize)
        ensures
            h as nat == self@.height(),
    {
        self.height
    }

    /// A box of the given dimensions whose every cell holds `c`.
    pub fn fill(c: char, width: usize, height: usize) -> (r: Box)
        requires
            width * height <= usize::MAX,
        ensures
            r.wf(),
            r@ == BoxModel::fill(c, width as nat, height as nat),
    {
        let n = width * height;
        let contents: Vec<char> = vec![c; n];
        let r = Box { contents, width, height };
        proof {
            let m = BoxModel::fill(c, width as nat, height as nat);
            lemma_flat_const(c, width as nat, height as nat);
            assert(m.rows =~~= Seq::new(height as nat, |i: int| Seq::new(width as nat, |j: int| c)));
            assert((width as int) * (height as int) == (height as int) * (width as int))
                by (nonlinear_arith);
            assert(r.contents@ =~= Seq::new((height as nat) * (width as nat), |k: int| c));
            assert(forall|i: int|
                0 <= i < m.rows.len() ==> (#[trigger] m.rows[i]).len() == width as nat);
            lemma_flat_uniform(m.rows, width as nat);
            assert(r@.rows == m.rows);
        }
        r
    }

    /// A box of the given dimensions filled with spaces.
    pub fn space(width: usize, height: usize) -> (r: Box)
        requires
            width * height <= usize::MAX,
        ensures
            r.wf(),
            r@ == BoxModel::blank(width as nat, height as nat),
    {
        Self::fill(' ', width, height)
    }

    /// A box at least `height` rows tall: a shorter box is padded with blank
    /// rows placed per the alignment, a taller one is returned unchanged.
    /// Padding never truncates.
    pub fn heighten(self, height: usize, alignment: Vertical) -> (r: Box)
        requires
            self.wf(),
            self@.height() < height as nat ==> self@.width * (height as nat) <= usize::MAX,
        ensures
            r.wf(),
            r@ == self@.heighten(height as nat, alignment),
    {
        if self.height >= height {
            return self;
        }
        let d = height - self.height;
        let before: usize = match alignment {
            Vertical::Top => 0,
            Vertical::Center => d / 2,
            Vertical::Bottom => d,
        };
        let after = d - before;
        let ghost m = self@;
        let ghost target = m.heighten(height as nat, alignment);
        proof {
            lemma_buffer(&self);
            assert(before as nat == pad_above(d as nat, alignment));
            assert((before as int) * (self.width as int) <= (height as int) * (self.width as int)
                && (after as int) * (self.width as int) <= (height as int) * (self.width as int))
                by (nonlinear_arith)
                requires
                    0 <= before as int <= height as int,
                    0 <= after as int <= height as int,
                    0 <= self.width as int,
            ;
            assert((height as int) * (self.width as int) == (self.width as int) * (height as int))
                by (nonlinear_arith);
        }
        let w = self.width;
        let ghost rows_mid = m.rows;
        let mut contents: Vec<char> = vec![' '; before * w];
        let mut mid = self.contents;
        contents.append(&mut mid);
        let mut tail: Vec<char> = vec![' '; after * w];
        contents.append(&mut tail);
        let r = Box { contents, width: w, height };
        proof {
            let wn = w as nat;
            lemma_flat_blank_rows(wn, before as nat);
            lemma_flat_blank_rows(wn, after as nat);
            lemma_flat_concat(blank_rows(wn, before as nat), rows_mid);
            lemma_flat_concat(blank_rows(wn, before as nat) + rows_mid, blank_rows(wn, after as nat));
            assert(target.rows == (blank_rows(wn, before as nat) + rows_mid) + blank_rows(
                wn,
                after as nat,
            ));
            assert(r.contents@ =~= flat(target.rows));
            assert forall|i: int| 0 <= i < target.rows.len() implies (#[trigger] target.rows[i]).len()
                == wn by {}
            lemma_flat_uniform(target.rows, wn);
            assert(r@.rows == target.rows);
            assert((height as int) * (w as int) == (w as int) * (height as int))
                by (nonlinear_arith);
        }
        r
    }

    /// A box at least `width` columns wide: a narrower box is padded with
    /// space columns placed per the alignment, a wider one is returned
    /// unchanged. Padding never truncates.
    pub fn widen(self, width: usize, alignment: Horizontal) -> (r: Box)
        requires
            self.wf(),
            self@.width < width as nat ==> (width as nat) * self@.height() <= usize::MAX,
        ensures
            r.wf(),
            r@ == self@.widen(width as nat, alignment),
    {
        if self.width >= width {
            return self;
        }
        let d = width - self.width;
        let before: usize = match alignment {
            Horizontal::Left => 0,
            Horizontal::Center => d / 2,
            Horizontal::Right => d,
        };
        let after = d - before;
        let ghost m = self@;
        let ghost target = m.widen(width as nat, alignment);
        proof {
            lemma_buffer(&self);
            assert(before as nat == pad_left(d as nat, alignment));
            assert forall|i: int| 0 <= i < target.rows.len() implies (#[trigger] target.rows[i]).len()
                == width as nat by {
                assert(target.rows[i] == pad_row(m.rows[i], before as nat, after as nat));
            }
        }
        let mut contents: Vec<char> = Vec::new();
        let mut i: usize = 0;
        while i < self.height
            invariant
                self.wf(),
                i <= self.height,
                m == self@,
                target == m.widen(width as nat, alignment),
                self.width < width,
                before + after == width - self.width,
                before as nat == pad_left((width - self.width) as nat, alignment),
                target.rows.len() == self.height as nat,
                forall|k: int|
                    0 <= k < target.rows.len() ==> (#[trigger] target.rows[k]) == pad_row(
                        m.rows[k],
                        before as nat,
                        after as nat,
                    ),
                contents@ == flat(target.rows.subrange(0, i as int)),
            decreases self.height - i,
        {
            let ghost cpre = contents@;
            let mut pre: Vec<char> = vec![' '; before];
            contents.append(&mut pre);
            let mut row = self.chunk(i);
            contents.append(&mut row);
            let mut post: Vec<char> = vec![' '; after];
            contents.append(&mut post);
            proof {
                assert(contents@ =~= cpre + (blank_row(before as nat) + m.rows[i as int]
                    + blank_row(after as nat)));
                assert(target.rows.subrange(0, i + 1).drop_last() =~= target.rows.subrange(
                    0,
                    i as int,
                ));
                assert(flat(target.rows.subrange(0, i + 1)) == cpre + target.rows[i as int]);
                assert(target.rows[i as int] == blank_row(before as nat) + m.rows[i as int]
                    + blank_row(after as nat));
                assert(cpre + (blank_row(before as nat) + m.rows[i as int] + blank_row(
                    after as nat,
                )) =~= cpre + target.rows[i as int]);
            }
            i += 1;
        }
        let r = Box { contents, width, height: self.height };
        proof {
            assert(target.rows.subrange(0, self.height as int) =~= target.rows);
            lemma_flat_uniform(target.rows, width as nat);
            assert(r@.rows == target.rows);
            assert((self.height as int) * (width as int) == (width as int) * (self.height as int))
                by (nonlinear_arith);
        }
        r
    }

    /// Joins `self` and `other` side by side, `self` on the left. A
    /// zero-width operand yields the other operand unchanged; otherwise the
    /// shorter operand is heightened to the taller one's height per the
    /// alignment, the result is as wide as both together and as tall as the
    /// taller of the two.
    pub fn beside(self, other: Box, alignment: Vertical) -> (r: Box)
        requires
            self.wf(),
            other.wf(),
            self@.width != 0 && other@.width != 0 ==> self@.width + other@.width <= usize::MAX
                && (self@.width + other@.width) * max_nat(self@.height(), other@.height())
                <= usize::MAX,
        ensures
            r.wf(),
            r@ == self@.beside(other@, alignment),
    {
        if self.width == 0 {
            return other;
        }
        if other.width == 0 {
            return self;
        }
        let target_h = if self.height >= other.height {
            self.height
        } else {
            other.height
        };
        let ghost ma = self@;
        let ghost mb = other@;
        proof {
            assert((self.width as int) * (target_h as int) <= (self.width as int
                + other.width as int) * (target_h as int) && (other.width as int) * (
            target_h as int) <= (self.width as int + other.width as int) * (target_h as int))
                by (nonlinear_arith)
                requires
                    0 < self.width as int,
                    0 < other.width as int,
                    0 <= target_h as int,
            ;
        }
        let left = self.heighten(target_h, alignment);
        let right = other.heighten(target_h, alignment);
        let ghost pa = left@;
        let ghost pb = right@;
        let ghost target = Seq::new(target_h as nat, |i: int| pa.rows[i] + pb.rows[i]);
        proof {
            lemma_buffer(&left);
            lemma_buffer(&right);
            assert(pa.height() == target_h as nat && pb.height() == target_h as nat);
        }
        let w = left.width + right.width;
        let mut contents: Vec<char> = Vec::new();
        let mut i: usize = 0;
        while i < target_h
            invariant
                left.wf(),
                right.wf(),
                pa == left@,
                pb == right@,
                i <= target_h,
                pa.height() == target_h as nat,
                pb.height() == target_h as nat,
                target == Seq::new(target_h as nat, |k: int| pa.rows[k] + pb.rows[k]),
                contents@ == flat(target.subrange(0, i as int)),
            decreases target_h - i,
        {
            let ghost cpre = contents@;
            let mut a = left.chunk(i);
            contents.append(&mut a);
            let mut b = right.chunk(i);
            contents.append(&mut b);
            proof {
                assert(target.subrange(0, i + 1).drop_last() =~= target.subrange(0, i as int));
                assert(flat(target.subrange(0, i + 1)) == cpre + target[i as int]);
                assert(contents@ =~= cpre + target[i as int]);
            }
            i += 1;
        }
        let r = Box { contents, width: w, height: target_h };
        proof {
            assert(target.subrange(0, target_h as int) =~= target);
            assert(pa.wf() && pb.wf());
            assert forall|k: int| 0 <= k < target.len() implies (#[trigger] target[k]).len() == w by {
                assert(pa.rows[k].len() == pa.width && pb.rows[k].len() == pb.width);
            }
            lemma_flat_uniform(target, w as nat);
            assert(r@.rows == target);
            let expect = ma.beside(mb, alignment);
            assert(expect.rows =~= target);
            assert((target_h as int) * (w as int) == (w as int) * (target_h as int))
                by (nonlinear_arith);
            assert(r@ == expect);
        }
        r
    }

    /// Stacks `self` on top of `other`. A zero-height operand yields the
    /// other operand unchanged; otherwise the narrower operand is widened to
    /// the wider one's width per the alignment, the result is as tall as
    /// both together and as wide as the wider of the two.
    pub fn above(self, other: Box, alignment: Horizontal) -> (r: Box)
        requires
            self.wf(),
            other.wf(),
            self@.height() != 0 && other@.height() != 0 ==> self@.height() + other@.height()
                <= usize::MAX && max_nat(self@.width, other@.width) * (self@.height()
                + other@.height()) <= usize::MAX,
        ensures
            r.wf(),
            r@ == self@.above(other@, alignment),
    {
        if self.height == 0 {
            return other;
        }
        if other.height == 0 {
            return self;
        }
        let w = if self.width >= other.width {
            self.width
        } else {
            other.width
        };
        let ghost ma = self@;
        let ghost mb = other@;
        proof {
            assert((w as int) * (self.height as int) <= (w as int) * (self.height as int
                + other.height as int) && (w as int) * (other.height as int) <= (w as int) * (
            self.height as int + other.height as int)) by (nonlinear_arith)
                requires
                    0 < self.height as int,
                    0 < other.height as int,
                    0 <= w as int,
            ;
        }
        let top = self.widen(w, alignment);
        let bottom = other.widen(w, alignment);
        let ghost pt = top@;
        let ghost pb = bottom@;
        proof {
            lemma_buffer(&top);
            lemma_buffer(&bottom);
        }
        let h = top.height + bottom.height;
        let ghost ct = top.contents@;
        let ghost cb = bottom.contents@;
        let mut contents = top.contents;
        let mut rest = bottom.contents;
        contents.append(&mut rest);
        let r = Box { contents, width: w, height: h };
        proof {
            lemma_flat_concat(pt.rows, pb.rows);
            assert(r.contents@ == flat(pt.rows + pb.rows));
            assert forall|k: int| 0 <= k < (pt.rows + pb.rows).len() implies (#[trigger] (pt.rows
                + pb.rows)[k]).len() == w by {}
            lemma_flat_uniform(pt.rows + pb.rows, w as nat);
            assert(r@.rows == pt.rows + pb.rows);
            let expect = ma.above(mb, alignment);
            assert(expect.rows == pt.rows + pb.rows);
            assert((h as int) * (w as int) == (w as int) * (h as int)) by (nonlinear_arith);
            assert(r@ == expect);
        }
        r
    }

    /// Joins a sequence of boxes horizontally: a left fold of `beside`
    /// seeded with the empty box. An empty sequence yields the empty box.
    pub fn hconcat(boxes: Vec<Box>, alignment: Vertical) -> (r: Box)
        requires
            all_wf(boxes@),
            hconcat_fits(models(boxes@)),
        ensures
            r.wf(),
            r@ == hconcat_model(models(boxes@), alignment),
    {
        let ghost orig = models(boxes@);
        let mut rest = boxes;
        let mut acc = Box::empty();
        let ghost mut k: int = 0;
        proof {
            assert(models(rest@) =~= orig.subrange(0, orig.len() as int));
            assert(orig.subrange(0, 0) =~= Seq::<BoxModel>::empty());
        }
        while rest.len() > 0
            invariant
                0 <= k <= orig.len(),
                models(rest@) == orig.subrange(k, orig.len() as int),
                all_wf(rest@),
                acc.wf(),
                acc@ == hconcat_model(orig.subrange(0, k), alignment),
                hconcat_fits(orig),
            decreases rest@.len(),
        {
            proof {
                assert(models(rest@).len() == rest@.len());
                assert(models(rest@)[0] == rest@[0]@);
                assert(orig[k] == rest@[0]@);
                lemma_hconcat_dims(orig.subrange(0, k), alignment);
                lemma_prefix_widths(orig, k);
                assert((acc@.width + rest@[0]@.width) * max_nat(acc@.height(), rest@[0]@.height())
                    <= sum_widths(orig) * max_heights(orig)) by (nonlinear_arith)
                    requires
                        0 <= acc@.width + rest@[0]@.width,
                        acc@.width + rest@[0]@.width <= sum_widths(orig),
                        0 <= max_nat(acc@.height(), rest@[0]@.height()),
                        max_nat(acc@.height(), rest@[0]@.height()) <= max_heights(orig),
                ;
            }
            let ghost prev_rest = rest@;
            let b = rest.remove(0);
            acc = acc.beside(b, alignment);
            proof {
                prev_rest.remove_ensures(0);
                assert forall|j: int| 0 <= j < rest@.len() implies models(rest@)[j]
                    == orig.subrange(k + 1, orig.len() as int)[j] by {
                    assert(rest@[j] == prev_rest[j + 1]);
                    assert(models(prev_rest)[j + 1] == prev_rest[j + 1]@);
                }
                assert(models(rest@) =~= orig.subrange(k + 1, orig.len() as int));
                assert(orig.subrange(0, k + 1).drop_last() =~= orig.subrange(0, k));
                assert(orig.subrange(0, k + 1).last() == orig[k]);
                k = k + 1;
            }
        }
        proof {
            assert(orig.subrange(k, orig.len() as int).len() == 0);
            assert(orig.subrange(0, k) =~= orig);
        }
        acc
    }

    /// Joins a sequence of boxes vertically: a left fold of `above` seeded
    /// with the empty box. An empty sequence yields the empty box.
    pub fn vconcat(boxes: Vec<Box>, alignment: Horizontal) -> (r: Box)
        requires
            all_wf(boxes@),
            vconcat_fits(models(boxes@)),
        ensures
            r.wf(),
            r@ == vconcat_model(models(boxes@), alignment),
    {
        let ghost orig = models(boxes@);
        let mut rest = boxes;
        let mut acc = Box::empty();
        let ghost mut k: int = 0;
        proof {
            assert(models(rest@) =~= orig.subrange(0, orig.len() as int));
            assert(orig.subrange(0, 0) =~= Seq::<BoxModel>::empty());
        }
        while rest.len() > 0
            invariant
                0 <= k <= orig.len(),
                models(rest@) == orig.subrange(k, orig.len() as int),
                all_wf(rest@),
                acc.wf(),
                acc@ == vconcat_model(orig.subrange(0, k), alignment),
                vconcat_fits(orig),
            decreases rest@.len(),
        {
            proof {
                assert(models(rest@).len() == rest@.len());
                assert(models(rest@)[0] == rest@[0]@);
                assert(orig[k] == rest@[0]@);
                lemma_vconcat_dims(orig.subrange(0, k), alignment);
                lemma_prefix_heights(orig, k);
                assert(max_nat(acc@.width, rest@[0]@.width) * (acc@.height() + rest@[0]@.height())
                    <= max_widths(orig) * sum_heights(orig)) by (nonlinear_arith)
                    requires
                        0 <= max_nat(acc@.width, rest@[0]@.width),
                        max_nat(acc@.width, rest@[0]@.width) <= max_widths(orig),
                        0 <= acc@.height() + rest@[0]@.height(),
                        acc@.height() + rest@[0]@.height() <= sum_heights(orig),
                ;
            }
            let ghost prev_rest = rest@;
            let b = rest.remove(0);
            acc = acc.above(b, alignment);
            proof {
                prev_rest.remove_ensures(0);
                assert forall|j: int| 0 <= j < rest@.len() implies models(rest@)[j]
                    == orig.subrange(k + 1, orig.len() as int)[j] by {
                    assert(rest@[j] == prev_rest[j + 1]);
                    assert(models(prev_rest)[j + 1] == prev_rest[j + 1]@);
                }
                assert(models(rest@) =~= orig.subrange(k + 1, orig.len() as int));
                assert(orig.subrange(0, k + 1).drop_last() =~= orig.subrange(0, k));
                assert(orig.subrange(0, k + 1).last() == orig[k]);
                k = k + 1;
            }
        }
        proof {
            assert(orig.subrange(k, orig.len() as int).len() == 0);
            assert(orig.subrange(0, k) =~= orig);
        }
        acc
    }

    /// Lays out a two-dimensional sequence of boxes: each row is joined
    /// horizontally, the row boxes are then stacked vertically, both with
    /// the default `Center` alignment. Rows of unequal size are reconciled
    /// by the same padding rules as `beside` and `above`.
    pub fn grid(rows: Vec<Vec<Box>>) -> (r: Box)
        requires
            all_rows_wf(rows@),
            grid_fits(grid_models(rows@)),
        ensures
            r.wf(),
            r@ == grid_model(grid_models(rows@)),
    {
        let ghost gm = grid_models(rows@);
        let ghost target = row_boxes(gm);
        let mut rest = rows;
        let mut row_bs: Vec<Box> = Vec::new();
        let ghost mut k: int = 0;
        proof {
            assert(grid_models(rest@) =~= gm.subrange(0, gm.len() as int));
            assert(models(row_bs@) =~= target.subrange(0, 0));
        }
        while rest.len() > 0
            invariant
                0 <= k <= gm.len(),
                target == row_boxes(gm),
                target.len() == gm.len(),
                grid_models(rest@) == gm.subrange(k, gm.len() as int),
                all_rows_wf(rest@),
                all_wf(row_bs@),
                models(row_bs@) == target.subrange(0, k),
                grid_fits(gm),
            decreases rest@.len(),
        {
            proof {
                assert(grid_models(rest@).len() == rest@.len());
                assert(grid_models(rest@)[0] == models(rest@[0]@));
                assert(gm[k] == models(rest@[0]@));
            }
            let ghost prev_rest = rest@;
            let ghost prev_bs = row_bs@;
            let rv = rest.remove(0);
            let rb = Self::hconcat(rv, Vertical::Center);
            row_bs.push(rb);
            proof {
                prev_rest.remove_ensures(0);
                assert forall|j: int| 0 <= j < rest@.len() implies grid_models(rest@)[j]
                    == gm.subrange(k + 1, gm.len() as int)[j] by {
                    assert(rest@[j] == prev_rest[j + 1]);
                    assert(grid_models(prev_rest)[j + 1] == models(prev_rest[j + 1]@));
                }
                assert(grid_models(rest@) =~= gm.subrange(k + 1, gm.len() as int));
                assert(target[k] == hconcat_model(gm[k], Vertical::Center));
                assert(models(prev_bs).len() == prev_bs.len());
                assert(prev_bs.len() == k);
                assert(row_bs@ == prev_bs.push(rb));
                assert forall|j: int| 0 <= j < k + 1 implies models(row_bs@)[j]
                    == target.subrange(0, k + 1)[j] by {
                    if j < k {
                        assert(row_bs@[j] == prev_bs[j]);
                        assert(models(prev_bs)[j] == prev_bs[j]@);
                    } else {
                        assert(row_bs@[j] == rb);
                    }
                }
                assert(models(row_bs@) =~= target.subrange(0, k + 1));
                k = k + 1;
            }
        }
        proof {
            assert(gm.subrange(k, gm.len() as int).len() == 0);
            assert(target.subrange(0, k) =~= target);
            lemma_row_boxes_bounds(gm);
            assert(max_widths(target) * sum_heights(target) <= row_width_max(gm) * row_height_sum(
                gm,
            )) by (nonlinear_arith)
                requires
                    0 <= max_widths(target),
                    max_widths(target) <= row_width_max(gm),
                    0 <= sum_heights(target),
                    sum_heights(target) <= row_height_sum(gm),
            ;
        }
        Self::vconcat(row_bs, Horizontal::Center)
    }

    /// Wraps the box in a one-cell frame: `+` corners, `-` bars along the
    /// top and bottom, `|` bars along the sides.
    pub fn framed(self) -> (r: Box)
        requires
            self.wf(),
            self@.width + 2 <= usize::MAX,
            (self@.width + 2) * (self@.height() + 2) <= usize::MAX,
        ensures
            r.wf(),
            r@ == self@.framed(),
    {
        let w = self.width;
        let h = self.height;
        let ghost m = self@;
        proof {
            assert((h as int + 2) * 1 <= (h as int + 2) * (w as int + 2) && (w as int + 2) * (
            h as int) <= (w as int + 2) * (h as int + 2) && (h as int + 2) * (w as int + 2) == (
            w as int + 2) * (h as int + 2)) by (nonlinear_arith)
                requires
                    0 <= w as int,
                    0 <= h as int,
            ;
        }
        let ghost corner = BoxModel::fill('+', 1, 1);
        let ghost hbar = BoxModel::fill('-', m.width, 1);
        let ghost vbar = BoxModel::fill('|', 1, m.height());
        let mut top_row: Vec<Box> = Vec::new();
        top_row.push(Self::fill('+', 1, 1));
        top_row.push(Self::fill('-', w, 1));
        top_row.push(Self::fill('+', 1, 1));
        let mut mid_row: Vec<Box> = Vec::new();
        mid_row.push(Self::fill('|', 1, h));
        mid_row.push(self);
        mid_row.push(Self::fill('|', 1, h));
        let mut bot_row: Vec<Box> = Vec::new();
        bot_row.push(Self::fill('+', 1, 1));
        bot_row.push(Self::fill('-', w, 1));
        bot_row.push(Self::fill('+', 1, 1));
        let mut rows: Vec<Vec<Box>> = Vec::new();
        rows.push(top_row);
        rows.push(mid_row);
        rows.push(bot_row);
        proof {
            let gm = grid_models(rows@);
            let bar_row = seq![corner, hbar, corner];
            let mid = seq![vbar, m, vbar];
            assert(models(rows@[0]@) =~= bar_row);
            assert(models(rows@[1]@) =~= mid);
            assert(models(rows@[2]@) =~= bar_row);
            assert(gm =~= seq![bar_row, mid, bar_row]);
            lemma_dims_triple(corner, hbar, corner);
            lemma_dims_triple(vbar, m, vbar);
            lemma_grid_triple(bar_row, mid, bar_row);
            assert(sum_widths(bar_row) == m.width + 2);
            assert(max_heights(bar_row) == 1);
            assert(sum_widths(mid) == m.width + 2);
            assert(max_heights(mid) == m.height());
            assert(row_height_sum(gm) == m.height() + 2);
            assert(row_width_max(gm) == m.width + 2);
            assert(sum_widths(bar_row) * max_heights(bar_row) == sum_widths(bar_row));
            assert(forall|i: int| 0 <= i < gm.len() ==> hconcat_fits(#[trigger] gm[i]));
            assert(grid_fits(gm));
        }
        Self::grid(rows)
    }

    /// A one-row box holding the given characters: its width is their
    /// count, its height one. An empty line gives a zero-width box of
    /// height one.
    pub fn from_line(chars: Vec<char>) -> (r: Box)
        ensures
            r.wf(),
            r@ == (BoxModel { width: chars@.len(), rows: seq![chars@] }),
    {
        let w = chars.len();
        let r = Box { contents: chars, width: w, height: 1 };
        proof {
            assert(r@.rows =~~= seq![r.contents@]);
        }
        r
    }

    /// A one-by-one box holding the single character `c`.
    pub fn from_char(c: char) -> (r: Box)
        ensures
            r.wf(),
            r@ == BoxModel::fill(c, 1, 1),
    {
        Self::fill(c, 1, 1)
    }

    /// The box as displayable text: each row in top-to-bottom order, each
    /// followed by a newline. A zero-height box renders as the empty
    /// string.
    pub fn render(&self) -> (r: String)
        requires
            self.wf(),
        ensures
            r@ == self@.text(),
    {
        let ghost lines = self@.rows.map(|i: int, row: Seq<char>| row.push('\n'));
        let mut out: Vec<char> = Vec::new();
        let mut i: usize = 0;
        proof {
            assert(lines.subrange(0, 0) =~= Seq::<Seq<char>>::empty());
        }
        while i < self.height
            invariant
                self.wf(),
                i <= self.height,
                lines == self@.rows.map(|k: int, row: Seq<char>| row.push('\n')),
                lines.len() == self.height as nat,
                out@ == flat(lines.subrange(0, i as int)),
            decreases self.height - i,
        {
            let ghost opre = out@;
            let mut row = self.chunk(i);
            out.append(&mut row);
            out.push('\n');
            proof {
                assert(lines[i as int] == self@.rows[i as int].push('\n'));
                assert(lines.subrange(0, i + 1).drop_last() =~= lines.subrange(0, i as int));
                assert(flat(lines.subrange(0, i + 1)) == opre + lines[i as int]);
                assert(out@ =~= opre + lines[i as int]);
            }
            i += 1;
        }
        proof {
            assert(lines.subrange(0, self.height as int) =~= lines);
        }
        chars_to_string(&out)
    }

    /// A fresh copy of the `n`-th row.
    fn chunk(&self, n: usize) -> (r: Vec<char>)
        requires
            self.wf(),
            (n as nat) < self@.height(),
        ensures
            r@ == self@.rows[n as int],
    {
        proof {
            assert((n as int) * (self.width as int) + (self.width as int) <= (self.height as int)
                * (self.width as int)) by (nonlinear_arith)
                requires
                    (n as int) + 1 <= (self.height as int),
                    0 <= n as int,
                    0 <= self.width as int,
            ;
        }
        let base = n * self.width;
        let mut r: Vec<char> = Vec::new();
        let mut j: usize = 0;
        while j < self.width
            invariant
                self.wf(),
                j <= self.width,
                base as int == (n as int) * (self.width as int),
                base as int + self.width as int <= self.contents@.len(),
                r@ == self.contents@.subrange(base as int, base as int + j as int),
            decreases self.width - j,
        {
            let ch = self.contents[base + j];
            r.push(ch);
            proof {
                assert(r@ =~= self.contents@.subrange(base as int, base as int + (j + 1) as int));
            }
            j += 1;
        }
        proof {
            assert((n as int + 1) * (self.width as int) == (n as int) * (self.width as int) + (
            self.width as int)) by (nonlinear_arith);
            assert(r@ == self@.rows[n as int]);
        }
        r
    }
}

impl Clone for Box {
    /// A clone has the same model as the original, and is well-formed
    /// whenever the original is.
    fn clone(&self) -> (r: Self)
        ensures
            r@ == self@,
            self.wf() ==> r.wf(),
    {
        let contents = self.contents.clone();
        proof {
            assert(contents@ =~= self.contents@);
        }
        Box { contents, width: self.width, height: self.height }
    }
}

impl Default for Box {
    /// The default box is the empty box.
    fn default() -> (r: Self)
        ensures
            r.wf(),
            r@ == BoxModel::empty(),
    {
        Box::empty()
    }
}

/// Relies on `String`'s `FromIterator<char>` impl: collecting characters
/// yields a string whose characters are exactly those collected, in order.
#[verifier::external_body]
fn chars_to_string(v: &Vec<char>) -> (r: String)
    ensures
        r@ == v@,
{
    v.iter().collect()
}

/// A well-formed box's model is itself well-formed: every row is exactly
/// `width` characters long. This carries a box's `wf` over to the `wf` the
/// laws ask of its model.
pub proof fn lemma_wf_model(b: &Box)
    requires
        b.wf(),
    ensures
        b@.wf(),
{
    lemma_buffer(b);
}

/// A well-formed box's model has rows of exactly `width` characters, and
/// flattening them gives the buffer back.
proof fn lemma_buffer(b: &Box)
    requires
        b.wf(),
    ensures
        b@.wf(),
        flat(b@.rows) == b.contents@,
{
    let w = b.width as int;
    let h = b.height as int;
    assert forall|i: int| 0 <= i < b@.rows.len() implies (#[trigger] b@.rows[i]).len()
        == b@.width by {
        assert(0 <= i * w && (i + 1) * w == i * w + w && (i + 1) * w <= w * h)
            by (nonlinear_arith)
            requires
                0 <= i < h,
                0 <= w,
        ;
    }
    assert((b.width as int) * (b.height as int) == (b.height as int) * (b.width as int))
        by (nonlinear_arith);
    lemma_flat_rows_of(b.contents@, b.width as nat, b.height as nat);
}

} // verus!
