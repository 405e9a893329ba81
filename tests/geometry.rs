use pack::geometry::{MinimumPosition, Position, Positionable, Translatable, Translation};
use pack::piece::Piece;
use pack::symmetry::{CubeSymmetry, Transformable};

#[test]
fn position_positions_are_equal_on_values() {
    let a = Position::new(0, 1, 2);
    let b = Position::new(0, 1, 2);

    assert_eq!(a, b);
}

#[test]
fn piece_positions_are_equal_on_values() {
    let a = Position::new(0, 1, 2);
    let b = Position::new(0, 1, 2);

    assert_eq!(a, b);
}

#[test]
fn piece_should_translate() {
    let mut piece = Piece::new(vec![
        Position::new(0, 0, 0),
        Position::new(1, 0, 0),
        Position::new(1, 1, 0),
        Position::new(1, 1, 1),
    ]);
    let translation = Translation::new(5, -3, 0);

    piece.translate(&translation);

    assert_eq!(
        piece,
        Piece::new(vec![
            Position::new(5, -3, 0),
            Position::new(6, -3, 0),
            Position::new(6, -2, 0),
            Position::new(6, -2, 1),
        ])
    );
}

#[test]
fn piece_should_tranform() {
    let mut piece = Piece::new(vec![
        Position::new(0, 0, 0),
        Position::new(1, 0, 0),
        Position::new(1, 1, 0),
        Position::new(1, 1, 1),
    ]);

    piece.transform(&CubeSymmetry::E2103);

    assert_eq!(
        piece,
        Piece::new(vec![
            Position::new(0, 0, 0),
            Position::new(0, 1, 0),
            Position::new(1, 1, 0),
            Position::new(1, 1, -1),
        ])
    );
}

#[test]
fn position_to_gives_the_difference() {
    let a = Position::new(1, 2, 3);
    let b = Position::new(4, 4, -4);
    assert_eq!(a.to(&b), Translation::new(3, 2, -7));
}

#[test]
fn translation_then_inverse_restores_the_piece() {
    let original = Piece::new(vec![
        Position::new(2, 0, 0),
        Position::new(0, 1, 0),
        Position::new(1, 1, 3),
    ]);
    let mut piece = original.clone();
    let translation = Translation::new(-7, 4, 11);
    piece.translate(&translation);
    assert_ne!(piece, original);
    piece.translate(&translation.inverse());
    assert_eq!(piece, original);
    assert_eq!(piece.positions(), original.positions());
}

#[test]
fn translation_moves_the_minimum_along() {
    let mut piece = Piece::new(vec![
        Position::new(3, 1, 2),
        Position::new(0, 5, 1),
        Position::new(4, 0, 1),
    ]);
    let before = piece.minimum_position().unwrap();
    assert_eq!(before, Position::new(4, 0, 1));
    let translation = Translation::new(-10, 2, 6);
    piece.translate(&translation);
    let mut expected = before;
    expected.translate(&translation);
    assert_eq!(piece.minimum_position(), Some(expected));
    assert_eq!(expected, Position::new(-6, 2, 7));
}

#[test]
fn empty_piece_has_no_minimum() {
    let piece = Piece::new(vec![]);
    assert_eq!(piece.minimum_position(), None);
}

#[test]
fn pieces_are_sorted_last_axis_first() {
    let piece = Piece::new(vec![
        Position::new(1, 1, 1),
        Position::new(0, 1, 1),
        Position::new(1, 0, 1),
        Position::new(1, 1, 0),
    ]);
    assert_eq!(
        piece.positions(),
        &vec![
            Position::new(1, 1, 0),
            Position::new(1, 0, 1),
            Position::new(0, 1, 1),
            Position::new(1, 1, 1),
        ]
    );
    assert!(piece.contains(&Position::new(0, 1, 1)));
    assert!(!piece.contains(&Position::new(0, 0, 0)));
}

#[test]
fn identity_symmetry_keeps_a_position() {
    let mut p = Position::new(-3, 7, 2);
    p.transform(&CubeSymmetry::E0123);
    assert_eq!(p, Position::new(-3, 7, 2));
    p.transform(&CubeSymmetry::E0132);
    assert_eq!(p, Position::new(-2, -7, 3));
}

#[test]
fn symmetry_iterator_lists_each_rotation_once() {
    let mut symmetries = pack::symmetry::CubeSymmetryIterator::new();
    let mut seen: Vec<CubeSymmetry> = vec![];
    while let Some(s) = symmetries.next() {
        assert!(!seen.contains(&s));
        seen.push(s);
    }
    assert_eq!(seen.len(), 24);
    assert_eq!(seen[0], CubeSymmetry::E0123);
    assert_eq!(seen[23], CubeSymmetry::E3210);
}

#[test]
fn composed_rotations_act_as_one_listed_rotation() {
    let mut outer = pack::symmetry::CubeSymmetryIterator::new();
    while let Some(a) = outer.next() {
        let mut inner = pack::symmetry::CubeSymmetryIterator::new();
        while let Some(b) = inner.next() {
            let mut probe = Position::new(1, 2, 3);
            probe.transform(&b);
            probe.transform(&a);
            let mut found = false;
            let mut all = pack::symmetry::CubeSymmetryIterator::new();
            while let Some(c) = all.next() {
                let mut q = Position::new(1, 2, 3);
                q.transform(&c);
                if q == probe {
                    let mut x = Position::new(-5, 9, 4);
                    x.transform(&b);
                    x.transform(&a);
                    let mut y = Position::new(-5, 9, 4);
                    y.transform(&c);
                    assert_eq!(x, y);
                    found = true;
                }
            }
            assert!(found);
        }
    }
}

#[test]
fn positions_render_as_triples() {
    assert_eq!(Position::new(-12, 0, 305).to_string(), String::from("(-12, 0, 305)"));
}

#[test]
fn positions_order_by_z_then_y_then_x() {
    let mut cells = vec![
        Position::new(0, 0, 1),
        Position::new(5, 1, 0),
        Position::new(9, 0, 0),
        Position::new(-1, 0, 0),
    ];
    cells.sort();
    assert_eq!(
        cells,
        vec![
            Position::new(-1, 0, 0),
            Position::new(9, 0, 0),
            Position::new(5, 1, 0),
            Position::new(0, 0, 1),
        ]
    );
    assert!(Position::new(9, 9, 0) < Position::new(0, 0, 1));
    assert!(Position::new(3, 2, 1).precedes(&Position::new(3, 2, 1)));
    assert!(!Position::new(4, 2, 1).precedes(&Position::new(3, 2, 1)));
}
