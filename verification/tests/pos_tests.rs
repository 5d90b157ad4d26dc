use pos2d::{origin, x_unit, y_unit, Pos};

#[test]
fn test_pos() {
    let one = Pos::new(1, 1);
    let two = Pos::new(2, 2);
    let pos = Pos::new(1, 2);

    assert_eq!(Pos::dot(one, two), 4, "`Pos::dot` failed.");
    assert_eq!(pos.mag2(), 5, "`Pos::mag2` failed.");
    assert_eq!(one.dist2_from(two), 2, "`Pos::dist2_from` failed.");
    assert_eq!(pos.part(x_unit()), x_unit(), "`Pos::part 1` failed.");
    assert_eq!(pos.part(y_unit()), y_unit().scale(2), "`Pos::part 2` failed.");
    assert_eq!(pos.complement(y_unit()), x_unit(), "`Pos::complement 1` failed.");
    assert_eq!(pos.complement(x_unit()), y_unit().scale(2), "`Pos::complement 2` failed.");
    assert_eq!(
        pos.componenets(x_unit()),
        (x_unit(), y_unit().scale(2)),
        "`Pos::components 1` failed."
    );
    assert_eq!(
        pos.componenets(y_unit()),
        (y_unit().scale(2), x_unit()),
        "`Pos::components 2` failed."
    );
}

#[test]
fn test_pos_arithmetic() {
    let one = Pos::new(1, 1);
    let two = Pos::new(2, 2);

    assert_eq!(Pos::default(), origin(), "`Pos::default` unexpected value.");
    assert_eq!(one.plus(one), two, "`Pos::add` failed.");
    assert_eq!(two.minus(one), one, "`Pos::sub` failed.");
    assert_eq!(one.scale(2), two, "`Pos::mul` failed.");
    assert_eq!(two.divide(2), one, "`Pos::div` failed.");

    let mut temp = one;

    temp.plus_assign(one);
    assert_eq!(temp, two, "`Pos::add_assign` failed.");
    temp.minus_assign(one);
    assert_eq!(temp, one, "`Pos::sub_assign` failed.");
    temp.scale_assign(2);
    assert_eq!(temp, two, "`Pos::mul_assign` failed.");
    temp.divide_assign(2);
    assert_eq!(temp, one, "`Pos::div_assign` failed.");
}

#[test]
fn dot_is_commutative() {
    let a = Pos::new(3, -7);
    let b = Pos::new(-2, 11);
    assert_eq!(Pos::dot(a, b), Pos::dot(b, a));
    assert_eq!(Pos::dot(a, b), -83);
}

#[test]
fn mag2_is_dot_with_self_and_nonnegative() {
    let v = Pos::new(-4, 3);
    assert_eq!(v.mag2(), Pos::dot(v, v));
    assert_eq!(v.mag2(), 25);
    assert!(v.mag2() >= 0);
    assert!(Pos::new(0, 0).mag2() >= 0);
}

#[test]
fn dist2_is_symmetric() {
    let a = Pos::new(5, -1);
    let b = Pos::new(-3, 2);
    assert_eq!(a.dist2_from(b), b.dist2_from(a));
    assert_eq!(a.dist2_from(b), 73);
}

#[test]
fn components_match_part_and_complement() {
    let v = Pos::new(7, -9);
    let u = x_unit();
    let (par, perp) = v.componenets(u);
    assert_eq!(par, v.part(u));
    assert_eq!(perp, v.complement(u));
    assert_eq!(par.plus(perp), v);
    let w = y_unit();
    let (par2, perp2) = v.componenets(w);
    assert_eq!((par2, perp2), (v.part(w), v.complement(w)));
    assert_eq!(par2.plus(perp2), v);
}

#[test]
fn projection_of_parallel_is_identity() {
    let dir = Pos::new(2, -1);
    let v = dir.scale(-6);
    assert_eq!(v.part(dir), v);
    assert_eq!(v.complement(dir), origin());
}

#[test]
fn projection_of_perpendicular_is_zero() {
    let dir = Pos::new(2, 1);
    let v = Pos::new(-1, 2);
    assert_eq!(Pos::dot(v, dir), 0);
    assert_eq!(v.part(dir), origin());
    assert_eq!(v.complement(dir), v);
}

#[test]
fn group_laws_hold() {
    let p = Pos::new(12, -34);
    let q = Pos::new(-5, 8);
    assert_eq!(p.plus(p.negate()), Pos::default());
    assert_eq!(p.plus(q).minus(q), p);
    assert_eq!(p.scale(9).divide(9), p);
    assert_eq!(p.scale(-3).divide(-3), p);
}

#[test]
fn truncating_division_rounds_toward_zero() {
    assert_eq!(Pos::new(7, -7).divide(2), Pos::new(3, -3));
    assert_eq!(Pos::new(7, -7).divide(-2), Pos::new(-3, 3));
    assert_eq!(Pos::new(1, 2).part(Pos::new(1, 1)), Pos::new(1, 1));
}

#[test]
fn indexing_yields_components() {
    let pos = Pos::new(1, 2);
    assert_eq!(pos.index(0), 1);
    assert_eq!(pos.index(1), 2);
    let mut q = pos;
    q.set_index(0, 10);
    q.set_index(1, 20);
    assert_eq!(q, Pos::new(10, 20));
}

#[test]
fn tuple_conversions_round_trip() {
    let pos = Pos::from((4, -5));
    assert_eq!(pos, Pos::new(4, -5));
    assert_eq!(pos.to_pair(), (4, -5));
}

#[test]
fn sum_folds_in_order_from_zero() {
    let ps = vec![Pos::new(1, 2), Pos::new(3, 4), Pos::new(-5, -6)];
    assert_eq!(Pos::sum(&ps), Pos::new(-1, 0));
    let empty: Vec<Pos> = vec![];
    assert_eq!(Pos::sum(&empty), Pos::default());
}

#[test]
fn unit_vectors_are_the_axes() {
    assert_eq!(origin(), Pos::new(0, 0));
    assert_eq!(x_unit(), Pos::new(1, 0));
    assert_eq!(y_unit(), Pos::new(0, 1));
}
