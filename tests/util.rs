use pack::geometry::Position;
use pack::piece::Piece;
use pack::util::{brick, rectangle};

#[test]
fn should_create_a_brick() {
    let target = brick(1, 2, 3);

    assert!(target.fits(&Piece::new(vec![Position::new(0, 0, 0)])));
    assert!(target.fits(&Piece::new(vec![Position::new(0, 0, 1)])));
    assert!(target.fits(&Piece::new(vec![Position::new(0, 0, 2)])));
    assert!(target.fits(&Piece::new(vec![Position::new(0, 1, 0)])));
    assert!(target.fits(&Piece::new(vec![Position::new(0, 1, 1)])));
    assert!(target.fits(&Piece::new(vec![Position::new(0, 1, 2)])));
}

#[test]
fn should_create_a_rectangle() {
    let target = rectangle(2, 2);

    assert!(target.fits(&Piece::new(vec![Position::d2(0, 0)])));
    assert!(target.fits(&Piece::new(vec![Position::d2(0, 1)])));
    assert!(target.fits(&Piece::new(vec![Position::d2(1, 0)])));
    assert!(target.fits(&Piece::new(vec![Position::d2(1, 1)])));
}

#[test]
fn brick_holds_nothing_outside() {
    let target = brick(1, 2, 3);
    assert!(!target.fits(&Piece::new(vec![Position::new(1, 0, 0)])));
    assert!(!target.fits(&Piece::new(vec![Position::new(0, 2, 0)])));
    assert!(!target.fits(&Piece::new(vec![Position::new(0, 0, 3)])));
    assert!(brick(0, 5, 5).is_packed());
}
