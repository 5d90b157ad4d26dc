use pos2d::traits::{GetPos, Positioned};
use pos2d::Pos;

#[test]
fn test_traits() {
    let pos = Pos::default();
    let other = Pos::new(1, 2);

    assert_eq!(pos.get_position(), Pos::default(), "`Positioned::get_position` failed.");
    assert_eq!(pos.set_position(other), other, "`Positioned::set_position` failed.");
    assert_eq!(other.translate(other), other.scale(2), "`Positioned::translate` failed.");
}
