use caixas::Box;
use caixas::Horizontal;
use caixas::Vertical;

fn line(s: &str) -> Box {
    Box::from_line(s.chars().collect())
}

#[test]
fn empty_box_has_no_size() {
    let b = Box::empty();
    assert_eq!(b.width(), 0);
    assert_eq!(b.height(), 0);
    assert_eq!(b.render(), "");
}

#[test]
fn default_box_is_empty() {
    let b = Box::default();
    assert_eq!(b.width(), 0);
    assert_eq!(b.height(), 0);
    assert_eq!(b.render(), "");
}

#[test]
fn fill_repeats_the_character() {
    let b = Box::fill('z', 3, 2);
    assert_eq!(b.width(), 3);
    assert_eq!(b.height(), 2);
    assert_eq!(b.render(), "zzz\nzzz\n");
}

#[test]
fn fill_with_zero_width_keeps_height() {
    let b = Box::fill('z', 0, 5);
    assert_eq!(b.width(), 0);
    assert_eq!(b.height(), 5);
    assert_eq!(b.render(), "\n\n\n\n\n");
}

#[test]
fn fill_with_zero_height_renders_nothing() {
    let b = Box::space(3, 0);
    assert_eq!(b.width(), 3);
    assert_eq!(b.height(), 0);
    assert_eq!(b.render(), "");
}

#[test]
fn space_is_fill_with_spaces() {
    assert_eq!(Box::space(2, 2).render(), "  \n  \n");
}

#[test]
fn from_line_is_one_row() {
    let b = line("hello");
    assert_eq!(b.width(), 5);
    assert_eq!(b.height(), 1);
    assert_eq!(b.render(), "hello\n");
}

#[test]
fn from_empty_line_is_zero_wide() {
    let b = Box::from_line(Vec::new());
    assert_eq!(b.width(), 0);
    assert_eq!(b.height(), 1);
    assert_eq!(b.render(), "\n");
}

#[test]
fn from_char_is_one_by_one() {
    let b = Box::from_char('*');
    assert_eq!(b.width(), 1);
    assert_eq!(b.height(), 1);
    assert_eq!(b.render(), "*\n");
}

#[test]
fn clone_renders_the_same() {
    let b = line("ab").above(line("cd"), Horizontal::Center);
    let c = b.clone();
    assert_eq!(b.width(), c.width());
    assert_eq!(b.height(), c.height());
    assert_eq!(b.render(), c.render());
}

#[test]
fn beside_top_pads_below() {
    let r = line("ab").beside(Box::fill('b', 1, 3), Vertical::Top);
    assert_eq!(r.render(), "abb\n  b\n  b\n");
}

#[test]
fn beside_bottom_pads_above() {
    let r = line("ab").beside(Box::fill('b', 1, 3), Vertical::Bottom);
    assert_eq!(r.render(), "  b\n  b\nabb\n");
}

#[test]
fn beside_center_splits_padding() {
    let r = line("ab").beside(Box::fill('b', 1, 3), Vertical::Center);
    assert_eq!(r.render(), "  b\nabb\n  b\n");
}

#[test]
fn above_left_pads_right() {
    let r = line("a").above(line("def"), Horizontal::Left);
    assert_eq!(r.render(), "a  \ndef\n");
}

#[test]
fn above_right_pads_left() {
    let r = line("a").above(line("def"), Horizontal::Right);
    assert_eq!(r.render(), "  a\ndef\n");
}

#[test]
fn widen_left_pads_on_the_right() {
    assert_eq!(line("ab").widen(5, Horizontal::Left).render(), "ab   \n");
}

#[test]
fn widen_right_pads_on_the_left() {
    assert_eq!(line("ab").widen(5, Horizontal::Right).render(), "   ab\n");
}

#[test]
fn widen_center_floors_the_left_pad() {
    assert_eq!(line("ab").widen(5, Horizontal::Center).render(), " ab  \n");
}

#[test]
fn widen_never_truncates() {
    let b = line("abc").widen(2, Horizontal::Left);
    assert_eq!(b.width(), 3);
    assert_eq!(b.render(), "abc\n");
}

#[test]
fn heighten_top_pads_below() {
    assert_eq!(line("ab").heighten(3, Vertical::Top).render(), "ab\n  \n  \n");
}

#[test]
fn heighten_bottom_pads_above() {
    assert_eq!(line("ab").heighten(3, Vertical::Bottom).render(), "  \n  \nab\n");
}

#[test]
fn heighten_center_floors_the_top_pad() {
    assert_eq!(line("ab").heighten(4, Vertical::Center).render(), "  \nab\n  \n  \n");
}

#[test]
fn heighten_never_truncates() {
    let b = Box::fill('q', 1, 3).heighten(2, Vertical::Top);
    assert_eq!(b.height(), 3);
    assert_eq!(b.render(), "q\nq\nq\n");
}

#[test]
fn hconcat_of_nothing_is_empty() {
    let r = Box::hconcat(Vec::new(), Vertical::Top);
    assert_eq!(r.width(), 0);
    assert_eq!(r.height(), 0);
    assert_eq!(r.render(), "");
}

#[test]
fn hconcat_joins_in_order() {
    let r = Box::hconcat(vec![line("a"), line("b"), line("c")], Vertical::Top);
    assert_eq!(r.render(), "abc\n");
}

#[test]
fn vconcat_of_nothing_is_empty() {
    let r = Box::vconcat(Vec::new(), Horizontal::Left);
    assert_eq!(r.render(), "");
}

#[test]
fn vconcat_stacks_in_order() {
    let r = Box::vconcat(vec![line("a"), line("b")], Horizontal::Left);
    assert_eq!(r.render(), "a\nb\n");
}

#[test]
fn grid_of_nothing_is_empty() {
    let r = Box::grid(Vec::new());
    assert_eq!(r.render(), "");
}

#[test]
fn grid_lays_out_rows_and_columns() {
    let r = Box::grid(vec![
        vec![line("ab"), Box::fill('x', 1, 2)],
        vec![line("def")],
    ]);
    assert_eq!(r.width(), 3);
    assert_eq!(r.height(), 3);
    assert_eq!(r.render(), "abx\n  x\ndef\n");
}

#[test]
fn framed_square_box() {
    let r = Box::fill('x', 2, 2).framed();
    assert_eq!(r.width(), 4);
    assert_eq!(r.height(), 4);
    assert_eq!(r.render(), "+--+\n|xx|\n|xx|\n+--+\n");
}

#[test]
fn framed_empty_box_is_a_closed_frame() {
    let r = Box::empty().framed();
    assert_eq!(r.width(), 2);
    assert_eq!(r.height(), 2);
    assert_eq!(r.render(), "++\n++\n");
}
