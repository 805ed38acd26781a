//! Concrete instances of the algebra's laws, and the reference scenarios.

use caixas::Box;
use caixas::Horizontal;
use caixas::Vertical;

fn line(s: &str) -> Box {
    Box::from_line(s.chars().collect())
}

#[test]
fn beside_text_scenario() {
    let r = line("ab").beside(line("x"), Vertical::Top);
    assert_eq!(r.width(), 3);
    assert_eq!(r.height(), 1);
    assert_eq!(r.render(), "abx\n");
}

#[test]
fn above_center_scenario() {
    let r = line("ab").above(line("x"), Horizontal::Center);
    assert_eq!(r.width(), 2);
    assert_eq!(r.height(), 2);
    assert_eq!(r.render(), "ab\nx \n");
}

#[test]
fn framed_char_scenario() {
    let r = Box::from_char('*').framed();
    assert_eq!(r.render(), "+-+\n|*|\n+-+\n");
}

#[test]
fn beside_dimension_law_instance() {
    let a = Box::fill('a', 2, 3);
    let b = Box::fill('b', 4, 1);
    let r = a.beside(b, Vertical::Center);
    assert_eq!(r.width(), 6);
    assert_eq!(r.height(), 3);
}

#[test]
fn above_dimension_law_instance() {
    let a = Box::fill('a', 2, 3);
    let b = Box::fill('b', 4, 1);
    let r = a.above(b, Horizontal::Center);
    assert_eq!(r.width(), 4);
    assert_eq!(r.height(), 4);
}

#[test]
fn identity_law_instance() {
    let b = || line("ab").above(line("c"), Horizontal::Left);
    let expect = b().render();
    assert_eq!(Box::empty().beside(b(), Vertical::Top).render(), expect);
    assert_eq!(b().beside(Box::empty(), Vertical::Bottom).render(), expect);
    assert_eq!(Box::empty().above(b(), Horizontal::Right).render(), expect);
    assert_eq!(b().above(Box::empty(), Horizontal::Center).render(), expect);
}

#[test]
fn hconcat_shape_law_instance() {
    let boxes = || vec![Box::fill('a', 2, 3), Box::fill('b', 1, 1), Box::fill('c', 4, 2)];
    let folded = Box::hconcat(boxes(), Vertical::Top);
    assert_eq!(folded.width(), 7);
    assert_eq!(folded.height(), 3);
    let mut bs = boxes();
    let c = bs.pop().unwrap();
    let b = bs.pop().unwrap();
    let a = bs.pop().unwrap();
    let regrouped = a.beside(b.beside(c, Vertical::Top), Vertical::Top);
    assert_eq!(regrouped.width(), folded.width());
    assert_eq!(regrouped.height(), folded.height());
}

#[test]
fn vconcat_shape_law_instance() {
    let folded = Box::vconcat(
        vec![Box::fill('a', 2, 3), Box::fill('b', 1, 1), Box::fill('c', 4, 2)],
        Horizontal::Left,
    );
    assert_eq!(folded.width(), 4);
    assert_eq!(folded.height(), 6);
}

#[test]
fn padding_conservation_instance() {
    let widened = line("ab").widen(7, Horizontal::Center);
    assert_eq!(widened.width(), 7);
    assert_eq!(widened.height(), 1);
    let rendered = widened.render();
    assert_eq!(&rendered[2..4], "ab");
}

#[test]
fn center_split_bias_instance() {
    assert_eq!(line("ab").widen(5, Horizontal::Center).render(), " ab  \n");
    assert_eq!(line("ab").heighten(2, Vertical::Center).render(), "ab\n  \n");
}

#[test]
fn framed_round_trip_instance() {
    let b = line("ab").above(line("c"), Horizontal::Left);
    let f = b.clone().framed();
    assert_eq!(f.width(), b.width() + 2);
    assert_eq!(f.height(), b.height() + 2);
    let rendered = f.render();
    let lines: Vec<&str> = rendered.lines().collect();
    assert_eq!(lines.first().copied(), Some("+--+"));
    assert_eq!(lines.last().copied(), Some("+--+"));
    assert_eq!(rendered, "+--+\n|ab|\n|c |\n+--+\n");
}

#[test]
fn grid_rectangularity_instance() {
    let r = Box::grid(vec![
        vec![Box::fill('a', 2, 1), Box::fill('b', 1, 2)],
        vec![Box::fill('c', 5, 1)],
    ]);
    assert_eq!(r.height(), 2 + 1);
    assert_eq!(r.width(), 5);
}
