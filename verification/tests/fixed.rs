use nphysics::body::{BodyKind, BodyRef};
use nphysics::fixed::{Anchor, AnchorPosition, Fixed};

#[test]
fn new_joint_is_not_up_to_date() {
    let mut j = Fixed::new(Anchor::new(None, 1i64), Anchor::new(None, 2i64));
    assert!(!j.up_to_date());
    j.update();
    assert!(j.up_to_date());
    assert_eq!(j.anchor1().position, 1);
    assert_eq!(j.anchor2().position, 2);
}

#[test]
fn setting_the_same_position_keeps_the_joint_up_to_date() {
    let mut j = Fixed::new(Anchor::new(None, 1i64), Anchor::new(None, 2i64));
    j.update();
    j.set_local1(1);
    j.set_local2(2);
    assert!(j.up_to_date());
}

#[test]
fn setting_a_new_position_marks_the_joint_out_of_date() {
    let mut j = Fixed::new(Anchor::new(None, 1i64), Anchor::new(None, 2i64));
    j.update();
    j.set_local1(5);
    assert!(!j.up_to_date());
    assert_eq!(j.anchor1().position, 5);
    assert_eq!(j.anchor2().position, 2);
    j.update();
    j.set_local2(6);
    assert!(!j.up_to_date());
    assert_eq!(j.anchor2().position, 6);
}

#[test]
fn anchor_positions() {
    let b = BodyRef { key: 3, kind: BodyKind::Rigid };
    let j = Fixed::new(Anchor::new(Some(b), 10i64), Anchor::new(None, 20i64));
    assert!(matches!(j.anchor1_pos(), AnchorPosition::OnBody { body: 3, local: 10 }));
    assert!(matches!(j.anchor2_pos(), AnchorPosition::World(20)));
}
