//! The laws of the box algebra, stated and proved over the model.
//!
//! Every executable operation promises that its result's model equals the
//! corresponding spec function, so each law proved here carries over to the
//! executable functions. The dimension and identity laws exclude the
//! degenerate boxes (one dimension zero, the other not, see
//! [`BoxModel::proper`]): a degenerate operand is swallowed whole by the
//! zero-width or zero-height short cut, taking its positive dimension with
//! it.

use crate::align::Horizontal;
use crate::align::Vertical;
use crate::model::BoxModel;
use crate::model::blank_rows;
use crate::model::flat;
use crate::model::hconcat_model;
use crate::model::lemma_above_wf;
use crate::model::lemma_beside_wf;
use crate::model::lemma_flat_uniform;
use crate::model::max_heights;
use crate::model::max_nat;
use crate::model::max_widths;
use crate::model::pad_left;
use crate::model::pad_row;
use crate::model::grid_model;
use crate::model::row_boxes;
use crate::model::row_height_sum;
use crate::model::row_width_max;
use crate::model::sum_heights;
use crate::model::sum_widths;
use crate::model::vconcat_model;
use vstd::prelude::*;

verus! {

/// Dimension law for the horizontal join: the width is the sum of the
/// widths, the height the larger of the heights.
pub proof fn lemma_beside_dimensions(a: BoxModel, b: BoxModel, v: Vertical)
    requires
        a.proper(),
        b.proper(),
    ensures
        a.beside(b, v).width == a.width + b.width,
        a.beside(b, v).height() == max_nat(a.height(), b.height()),
{
}

/// Dimension law for the vertical join: the height is the sum of the
/// heights, the width the larger of the widths.
pub proof fn lemma_above_dimensions(a: BoxModel, b: BoxModel, h: Horizontal)
    requires
        a.proper(),
        b.proper(),
    ensures
        a.above(b, h).height() == a.height() + b.height(),
        a.above(b, h).width == max_nat(a.width, b.width),
{
}

/// Identity law: the empty box is a left and right identity of both join
/// operators, whatever the alignment.
pub proof fn lemma_identity(b: BoxModel, v: Vertical, h: Horizontal)
    requires
        b.proper(),
    ensures
        BoxModel::empty().beside(b, v) == b,
        b.beside(BoxModel::empty(), v) == b,
        BoxModel::empty().above(b, h) == b,
        b.above(BoxModel::empty(), h) == b,
{
    if b.width == 0 {
        assert(b.rows =~= Seq::<Seq<char>>::empty());
        assert(b == BoxModel::empty());
    }
}

/// Shape law for horizontal concatenation: whatever the grouping of the
/// fold, the width is the sum of the widths and the height the largest
/// height; the result is again proper.
pub proof fn lemma_hconcat_shape(bs: Seq<BoxModel>, alignment: Vertical)
    requires
        forall|i: int| 0 <= i < bs.len() ==> (#[trigger] bs[i]).proper(),
    ensures
        hconcat_model(bs, alignment).width == sum_widths(bs),
        hconcat_model(bs, alignment).height() == max_heights(bs),
        hconcat_model(bs, alignment).proper(),
    decreases bs.len(),
{
    if bs.len() > 0 {
        lemma_hconcat_shape(bs.drop_last(), alignment);
        assert(bs[bs.len() - 1].proper());
    }
}

/// Shape law for vertical concatenation: whatever the grouping of the fold,
/// the height is the sum of the heights and the width the largest width;
/// the result is again proper.
pub proof fn lemma_vconcat_shape(bs: Seq<BoxModel>, alignment: Horizontal)
    requires
        forall|i: int| 0 <= i < bs.len() ==> (#[trigger] bs[i]).proper(),
    ensures
        vconcat_model(bs, alignment).height() == sum_heights(bs),
        vconcat_model(bs, alignment).width == max_widths(bs),
        vconcat_model(bs, alignment).proper(),
    decreases bs.len(),
{
    if bs.len() > 0 {
        lemma_vconcat_shape(bs.drop_last(), alignment);
        assert(bs[bs.len() - 1].proper());
    }
}

/// Where the original contents sit inside a widened box: at the left edge
/// for `Left`, at the right edge for `Right`, and at the floored midpoint
/// for `Center`.
pub open spec fn widen_offset(bw: nat, w: nat, alignment: Horizontal) -> int {
    if bw >= w {
        0
    } else {
        pad_left((w - bw) as nat, alignment) as int
    }
}

/// Padding conservation: widening never truncates, keeps the height, and
/// every original row reappears contiguously at the alignment's offset.
pub proof fn lemma_widen_conserves(b: BoxModel, w: nat, alignment: Horizontal)
    requires
        b.wf(),
    ensures
        b.widen(w, alignment).width == max_nat(b.width, w),
        b.widen(w, alignment).height() == b.height(),
        forall|i: int|
            0 <= i < b.height() ==> (#[trigger] b.widen(w, alignment).rows[i]).subrange(
                widen_offset(b.width, w, alignment),
                widen_offset(b.width, w, alignment) + b.width,
            ) == b.rows[i],
{
    let off = widen_offset(b.width, w, alignment);
    if b.width >= w {
        assert forall|i: int| 0 <= i < b.height() implies (#[trigger] b.widen(
            w,
            alignment,
        ).rows[i]).subrange(off, off + b.width) == b.rows[i] by {
            assert(b.rows[i].subrange(0, b.width as int) =~= b.rows[i]);
        }
    } else {
        let d = (w - b.width) as nat;
        let before = pad_left(d, alignment);
        assert forall|i: int| 0 <= i < b.height() implies (#[trigger] b.widen(
            w,
            alignment,
        ).rows[i]).subrange(off, off + b.width) == b.rows[i] by {
            assert(b.widen(w, alignment).rows[i] == pad_row(b.rows[i], before, (d - before) as nat));
            assert(pad_row(b.rows[i], before, (d - before) as nat).subrange(off, off + b.width)
                =~= b.rows[i]);
        }
    }
}

/// Centre-split bias for widening: an odd shortfall puts the extra space
/// column on the right.
pub proof fn lemma_widen_center_bias(b: BoxModel, w: nat)
    requires
        b.width < w,
        ((w - b.width) as nat) % 2 == 1,
    ensures
        forall|i: int|
            0 <= i < b.height() ==> (#[trigger] b.widen(w, Horizontal::Center).rows[i]) == pad_row(
                b.rows[i],
                ((w - b.width) as nat) / 2,
                ((w - b.width) as nat) / 2 + 1,
            ),
{
    let d = (w - b.width) as nat;
    assert(d - d / 2 == d / 2 + 1);
}

/// Centre-split bias for heightening: an odd shortfall puts the extra blank
/// row at the bottom.
pub proof fn lemma_heighten_center_bias(b: BoxModel, h: nat)
    requires
        b.height() < h,
        ((h - b.height()) as nat) % 2 == 1,
    ensures
        b.heighten(h, Vertical::Center).rows == blank_rows(b.width, ((h - b.height()) as nat) / 2)
            + b.rows + blank_rows(b.width, ((h - b.height()) as nat) / 2 + 1),
{
    let d = (h - b.height()) as nat;
    assert(d - d / 2 == d / 2 + 1);
}

/// The top and bottom line of a frame: a `+`, then `w` dashes, then a `+`.
pub open spec fn bar_line(w: nat) -> Seq<char> {
    seq!['+'] + Seq::new(w, |j: int| '-') + seq!['+']
}

/// Framing law: the frame adds one cell on each side, and the first and
/// last rendered rows are `+`, the box's width of `-`, `+`.
pub proof fn lemma_framed_shape(m: BoxModel)
    requires
        m.wf(),
    ensures
        m.framed().width == m.width + 2,
        m.framed().height() == m.height() + 2,
        m.framed().rows[0] == bar_line(m.width),
        m.framed().rows[m.height() as int + 1] == bar_line(m.width),
        m.framed().wf(),
{
    let corner = BoxModel::fill('+', 1, 1);
    let hbar = BoxModel::fill('-', m.width, 1);
    let vbar = BoxModel::fill('|', 1, m.height());
    let bar_row = seq![corner, hbar, corner];
    let mid = seq![vbar, m, vbar];
    let rss = seq![bar_row, mid, bar_row];
    assert(seq![bar_row, mid, bar_row].drop_last() =~= seq![bar_row, mid]);
    assert(seq![bar_row, mid].drop_last() =~= seq![bar_row]);
    assert(seq![bar_row].drop_last() =~= Seq::<Seq<BoxModel>>::empty());
    let r1 = hconcat_row(bar_row);
    let r2 = hconcat_row(mid);
    assert(row_boxes(rss) =~= seq![r1, r2, r1]);
    let top = lemma_bar_row(m.width);
    assert(r1 == top);
    let body = lemma_mid_row(m);
    assert(r2 == body);
    assert(seq![r1, r2, r1].drop_last() =~= seq![r1, r2]);
    assert(seq![r1, r2].drop_last() =~= seq![r1]);
    assert(seq![r1].drop_last() =~= Seq::<BoxModel>::empty());
    assert(vconcat_model(Seq::<BoxModel>::empty(), Horizontal::Center) == BoxModel::empty());
    assert(vconcat_model(seq![r1], Horizontal::Center) == BoxModel::empty().above(
        r1,
        Horizontal::Center,
    ));
    assert(vconcat_model(seq![r1], Horizontal::Center) == r1);
    let v2 = vconcat_model(seq![r1, r2], Horizontal::Center);
    assert(v2 == r1.above(r2, Horizontal::Center));
    let v3 = r1.above(r2, Horizontal::Center).above(r1, Horizontal::Center);
    assert(grid_model(rss) == v3);
    lemma_above_wf(r1, r2, Horizontal::Center);
    lemma_above_wf(r1.above(r2, Horizontal::Center), r1, Horizontal::Center);
    if m.height() == 0 {
        assert(v2 == r1);
        assert(v3.rows == r1.rows + r1.rows);
        assert(v3.rows[0] == r1.rows[0]);
        assert(v3.rows[1] == r1.rows[0]);
    } else {
        assert(v2.rows == r1.rows + r2.rows);
        assert(v2.width == m.width + 2);
        assert(v2.height() == 1 + m.height());
        assert(v3.rows == v2.rows + r1.rows);
        assert(v3.rows[0] == r1.rows[0]);
        assert(v3.rows[m.height() as int + 1] == r1.rows[0]);
    }
}

/// Framing law, on the rendered text: the first and the last line of a
/// rendered frame read `+`, the box's width of `-`, `+`.
pub proof fn lemma_framed_text(m: BoxModel)
    requires
        m.wf(),
    ensures
        m.framed().text().len() == (m.height() + 2) * (m.width + 3),
        m.framed().text().subrange(0, m.width as int + 3) == bar_line(m.width).push('\n'),
        m.framed().text().subrange(
            (m.height() as int + 1) * (m.width as int + 3),
            (m.height() as int + 2) * (m.width as int + 3),
        ) == bar_line(m.width).push('\n'),
{
    lemma_framed_shape(m);
    let f = m.framed();
    let lines = f.rows.map(|i: int, r: Seq<char>| r.push('\n'));
    assert(f.text() == flat(lines));
    assert forall|i: int| 0 <= i < lines.len() implies (#[trigger] lines[i]).len() == m.width
        + 3 by {
        assert(lines[i] == f.rows[i].push('\n'));
    }
    lemma_flat_uniform(lines, (m.width + 3) as nat);
    assert(flat(lines).subrange(0 * (m.width as int + 3), 1 * (m.width as int + 3)) == lines[0]);
    assert(flat(lines).subrange(
        (m.height() as int + 1) * (m.width as int + 3),
        (m.height() as int + 2) * (m.width as int + 3),
    ) == lines[m.height() as int + 1]);
    assert(lines[0] == f.rows[0].push('\n'));
    assert(lines[m.height() as int + 1] == f.rows[m.height() as int + 1].push('\n'));
}

/// The horizontal join of one grid row, with the default alignment.
pub open spec fn hconcat_row(r: Seq<BoxModel>) -> BoxModel {
    hconcat_model(r, Vertical::Center)
}

/// The top or bottom row of a frame joins to a one-row box whose line is
/// `bar_line`.
proof fn lemma_bar_row(w: nat) -> (r: BoxModel)
    ensures
        r == hconcat_row(seq![BoxModel::fill('+', 1, 1), BoxModel::fill('-', w, 1), BoxModel::fill(
            '+',
            1,
            1,
        )]),
        r.width == w + 2,
        r.height() == 1,
        r.rows[0] == bar_line(w),
        r.wf(),
{
    let corner = BoxModel::fill('+', 1, 1);
    let hbar = BoxModel::fill('-', w, 1);
    assert(corner.wf());
    assert(hbar.wf());
    let row = seq![corner, hbar, corner];
    assert(seq![corner, hbar, corner].drop_last() =~= seq![corner, hbar]);
    assert(seq![corner, hbar].drop_last() =~= seq![corner]);
    assert(seq![corner].drop_last() =~= Seq::<BoxModel>::empty());
    assert(hconcat_model(Seq::<BoxModel>::empty(), Vertical::Center) == BoxModel::empty());
    assert(hconcat_model(seq![corner], Vertical::Center) == BoxModel::empty().beside(
        corner,
        Vertical::Center,
    ));
    let s1 = corner;
    let s2 = hconcat_model(seq![corner, hbar], Vertical::Center);
    assert(s2 == s1.beside(hbar, Vertical::Center));
    lemma_beside_wf(s1, hbar, Vertical::Center);
    let out = hconcat_model(row, Vertical::Center);
    assert(out == s2.beside(corner, Vertical::Center));
    lemma_beside_wf(s2, corner, Vertical::Center);
    if w == 0 {
        assert(s2 == s1);
        assert(out.rows[0] =~= bar_line(w));
        assert(out.width == w + 2);
    } else {
        assert(s2.rows[0] == s1.rows[0] + hbar.rows[0]);
        assert(out.rows[0] == s2.rows[0] + s1.rows[0]);
        assert(out.rows[0] =~= bar_line(w));
    }
    assert(out.rows.len() == 1);
    out
}

/// The middle row of a frame joins to a box of the contents' height, two
/// cells wider than the contents.
proof fn lemma_mid_row(m: BoxModel) -> (r: BoxModel)
    requires
        m.wf(),
    ensures
        r == hconcat_row(seq![BoxModel::fill('|', 1, m.height()), m, BoxModel::fill(
            '|',
            1,
            m.height(),
        )]),
        r.width == m.width + 2,
        r.height() == m.height(),
        r.wf(),
{
    let vbar = BoxModel::fill('|', 1, m.height());
    assert(vbar.wf());
    let row = seq![vbar, m, vbar];
    assert(seq![vbar, m, vbar].drop_last() =~= seq![vbar, m]);
    assert(seq![vbar, m].drop_last() =~= seq![vbar]);
    assert(seq![vbar].drop_last() =~= Seq::<BoxModel>::empty());
    assert(hconcat_model(Seq::<BoxModel>::empty(), Vertical::Center) == BoxModel::empty());
    assert(hconcat_model(seq![vbar], Vertical::Center) == BoxModel::empty().beside(
        vbar,
        Vertical::Center,
    ));
    let s1 = vbar;
    let s2 = hconcat_model(seq![vbar, m], Vertical::Center);
    assert(s2 == s1.beside(m, Vertical::Center));
    lemma_beside_wf(s1, m, Vertical::Center);
    let out = hconcat_model(row, Vertical::Center);
    assert(out == s2.beside(vbar, Vertical::Center));
    lemma_beside_wf(s2, vbar, Vertical::Center);
    if m.width == 0 {
        assert(s2 == s1);
        assert(out.width == 2);
    } else {
        assert(s2.width == m.width + 1);
        assert(s2.height() == m.height());
        assert(out.width == m.width + 2);
    }
    out
}

/// The joined rows of a grid of proper boxes: each is proper, its width the
/// row's width sum, and together their heights add up to the sum of the
/// rows' height maxima.
proof fn lemma_row_boxes_shape(rss: Seq<Seq<BoxModel>>)
    requires
        forall|i: int, j: int|
            0 <= i < rss.len() && 0 <= j < rss[i].len() ==> (#[trigger] rss[i][j]).proper(),
    ensures
        sum_heights(row_boxes(rss)) == row_height_sum(rss),
        max_widths(row_boxes(rss)) == row_width_max(rss),
        forall|i: int| 0 <= i < rss.len() ==> (#[trigger] row_boxes(rss)[i]).proper(),
    decreases rss.len(),
{
    if rss.len() > 0 {
        lemma_row_boxes_shape(rss.drop_last());
        assert(row_boxes(rss).drop_last() =~= row_boxes(rss.drop_last()));
        assert(row_boxes(rss).last() == hconcat_model(rss.last(), Vertical::Center));
        lemma_hconcat_shape(rss.last(), Vertical::Center);
        assert forall|i: int| 0 <= i < rss.len() implies (#[trigger] row_boxes(
            rss,
        )[i]).proper() by {
            if i < rss.len() - 1 {
                assert(row_boxes(rss)[i] == row_boxes(rss.drop_last())[i]);
            } else {
                assert(row_boxes(rss)[i] == hconcat_model(rss.last(), Vertical::Center));
            }
        }
    }
}

/// Grid rectangularity: the grid's height is the sum over the rows of the
/// tallest box in each, its width the largest over the rows of each row's
/// width sum.
pub proof fn lemma_grid_shape(rss: Seq<Seq<BoxModel>>)
    requires
        forall|i: int, j: int|
            0 <= i < rss.len() && 0 <= j < rss[i].len() ==> (#[trigger] rss[i][j]).proper(),
    ensures
        grid_model(rss).height() == row_height_sum(rss),
        grid_model(rss).width == row_width_max(rss),
{
    lemma_row_boxes_shape(rss);
    lemma_vconcat_shape(row_boxes(rss), Horizontal::Center);
}

} // verus!


