use easy_shell_core::text::ParseError;
use easy_shell_core::{Fraction, Point, Rectangle, Vector};

fn f(n: i64) -> Fraction {
    Fraction::new(n, 1)
}

fn pt(x: i64, y: i64) -> Point {
    Point::new(f(x), f(y))
}

fn vector(x: i64, y: i64) -> Vector {
    Vector::new(f(x), f(y))
}

fn square(x0: i64, y0: i64, x1: i64, y1: i64) -> Rectangle {
    Rectangle::with_diagonal_point(pt(x0, y0), pt(x1, y1))
}

#[test]
fn point_more_left() {
    let (a, b) = (
        Point::default(),
        Point::new(Fraction::from_str("0").unwrap(), Fraction::from_str("1").unwrap()),
    );
    assert_eq!(&a, a.more_left(&b));
}

#[test]
fn rectangle_new() {
    let (dx, dy) = (Fraction::from_str("2").unwrap(), Fraction::from_str("1").unwrap());
    let (p1, p2, p3, p4) = (
        Point::default(),
        Point::new(dx, Fraction::zero()),
        Point::new(Fraction::zero(), dy),
        Point::new(dx, dy),
    );

    assert_eq!(
        Rectangle::new(p1.clone(), p2.clone(), p3.clone(), p4.clone()),
        Rectangle::new(p2, p1, p4, p3)
    );
}

#[test]
fn rectangle_with_diagonal() {
    let (dx, dy) = (Fraction::from_str("2").unwrap(), Fraction::from_str("1").unwrap());

    assert_eq!(
        Rectangle::with_diagonal(Point::default(), &Vector::new(dx, dy)),
        Rectangle::new(
            Point::default(),
            Point::new(dx, Fraction::zero()),
            Point::new(Fraction::zero(), dy),
            Point::new(dx, dy)
        )
    );
}

#[test]
fn rectangle_from_str() {
    assert_eq!(
        Rectangle::from_str("[(0, 0), (1, 0), (1, 1), (0, 1)]").unwrap(),
        Rectangle::with_diagonal(
            Point::default(),
            &Vector::new(Fraction::one(), Fraction::one())
        )
    )
}

#[test]
fn extremum_ties_keep_self() {
    let a = pt(0, 0);
    let b = pt(0, 0);
    assert!(std::ptr::eq(a.more_left(&b), &a));
    assert!(std::ptr::eq(a.more_right(&b), &a));
    assert!(std::ptr::eq(a.more_up(&b), &a));
    assert!(std::ptr::eq(a.more_down(&b), &a));
    let c = pt(-1, 5);
    assert_eq!(a.more_left(&c), &c);
    assert_eq!(a.more_right(&c), &a);
    assert_eq!(a.more_up(&c), &a);
    assert_eq!(a.more_down(&c), &c);
}

#[test]
fn directions() {
    let a = pt(0, 0);
    let b = pt(1, 1);
    assert!(a.is_left_of(&b) && a.is_up_of(&b) && b.is_right_of(&a) && b.is_down_of(&a));
    assert!(!a.is_left_of(&a) && !a.is_up_of(&a) && !a.is_right_of(&a) && !a.is_down_of(&a));
    assert!(a.is_horizontal_with(&pt(7, 0)) && !a.is_horizontal_with(&b));
    assert!(a.is_vertical_with(&pt(0, 7)) && !a.is_vertical_with(&b));
}

#[test]
fn point_add_moves() {
    let mut p = pt(1, 2);
    p.add(&Vector::new(Fraction::new(1, 2), f(-3)));
    assert_eq!(p, Point::new(Fraction::new(3, 2), f(-1)));
}

#[test]
fn text_forms() {
    assert_eq!(Point::new(Fraction::new(1, 2), f(3)).to_string(), "(1/2,3)");
    assert_eq!(Vector::new(f(-1), f(0)).to_string(), "v(-1,0)");
    assert_eq!(square(0, 0, 2, 1).to_string(), "[(0,0),(2,0),(2,1),(0,1)]");
}

#[test]
fn point_and_vector_parsing() {
    assert_eq!(Point::from_str("(1/2,3)").unwrap(), Point::new(Fraction::new(1, 2), f(3)));
    assert_eq!(Point::from_str("4,-5").unwrap(), pt(4, -5));
    assert_eq!(Vector::from_str(" v(2, 1) ").unwrap(), vector(2, 1));
    assert_eq!(Vector::from_str("v(1,2,3)").unwrap(), vector(1, 2));
    assert_eq!(Vector::from_str("v(1)"), Err(ParseError::MalformedStructure));
    assert_eq!(Vector::from_str("v(a)"), Err(ParseError::MalformedInteger));
    assert_eq!(Point::from_str("(1,b)"), Err(ParseError::MalformedInteger));
}

#[test]
fn rectangle_parse_errors() {
    assert_eq!(
        Rectangle::from_str("[(0,0),(1,0),(1,1)]"),
        Err(ParseError::MalformedStructure)
    );
    assert_eq!(
        Rectangle::from_str("[(0,0),(1,0),(1,1),(0,1),(2,2)]"),
        Err(ParseError::MalformedStructure)
    );
    assert_eq!(
        Rectangle::from_str("[(0,0),(1,q),(1,1),(0,1)]"),
        Err(ParseError::MalformedInteger)
    );
}

#[test]
fn rectangle_any_corner_order() {
    let expected = square(0, 0, 2, 1);
    let (a, b, c, d) = (pt(0, 0), pt(2, 0), pt(2, 1), pt(0, 1));
    assert_eq!(Rectangle::new(a, b, c, d), expected);
    assert_eq!(Rectangle::new(c, d, b, a), expected);
    assert_eq!(Rectangle::new(a, c, d, b), expected);
    assert_eq!(Rectangle::new(d, b, a, c), expected);
    assert_eq!(Rectangle::with_diagonal_point(pt(2, 1), pt(0, 0)), expected);
    assert_eq!(Rectangle::with_diagonal_point(pt(0, 1), pt(2, 0)), expected);
}

#[test]
fn edge_points_are_inside() {
    let r = square(0, 0, 2, 1);
    assert!(r.check_point_in(&pt(0, 0)));
    assert!(r.check_point_in(&pt(2, 1)));
    assert!(r.check_point_in(&pt(1, 0)));
    assert!(r.check_point_in(&pt(2, 1)));
    assert!(r.check_point_in(&Point::new(Fraction::new(1, 2), Fraction::new(1, 3))));
    assert!(r.check_point_out(&pt(-1, 0)));
    assert!(r.check_point_out(&pt(3, 0)));
    assert!(r.check_point_out(&pt(0, -1)));
    assert!(r.check_point_out(&pt(0, 2)));
    assert!(!r.check_point_in(&pt(3, 1)));
}

#[test]
fn hits_touching_and_separated() {
    let a = square(0, 0, 2, 2);
    let right = square(2, 0, 4, 2);
    let below = square(0, 2, 2, 4);
    let gap_x = square(3, 0, 5, 2);
    let gap_y = square(0, 3, 2, 5);
    let inside = square(1, 1, 2, 2);
    assert!(a.check_hit(&right) && right.check_hit(&a));
    assert!(a.check_hit(&below) && below.check_hit(&a));
    assert!(a.check_hit(&inside));
    assert!(!a.check_hit(&gap_x) && a.check_no_hit(&gap_x) && gap_x.check_no_hit(&a));
    assert!(!a.check_hit(&gap_y) && gap_y.check_no_hit(&a));
}

#[test]
fn fix_point_grows_to_bounding_box() {
    let mut r = square(0, 0, 2, 1);
    r.fix_point(&pt(1, 1));
    assert_eq!(r, square(0, 0, 2, 1));
    r.fix_point(&pt(3, -2));
    assert_eq!(r, square(0, -2, 3, 1));
    r.fix_point(&pt(-1, 4));
    assert_eq!(r, square(-1, -2, 3, 4));
}

#[test]
fn corner_accessors() {
    let r = square(0, 0, 2, 1);
    assert_eq!(r.left_point(), &pt(0, 0));
    assert_eq!(r.up_point(), &pt(0, 0));
    assert_eq!(r.right_point(), &pt(2, 1));
    assert_eq!(r.down_point(), &pt(2, 1));
}
