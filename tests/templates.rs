use pack::geometry::Position;
use pack::piece::Piece;
use pack::symmetry::CubeSymmetry;
use pack::template::{PieceIterator, Template};

fn count(mut iterator: PieceIterator) -> usize {
    let mut n: usize = 0;
    while iterator.next().is_some() {
        n += 1;
    }
    n
}

#[test]
fn template_templates_are_equal_on_values() {
    let a = Template::new(vec![Position::new(0, 0, 0), Position::new(1, 0, 0)]);
    let b = Template::new(vec![Position::new(0, 0, 0), Position::new(1, 0, 0)]);

    assert_eq!(a, b);
}

#[test]
fn piece_templates_are_equal_on_values() {
    let a = Template::new(vec![Position::new(0, 0, 0), Position::new(1, 0, 0)]);
    let b = Template::new(vec![Position::new(0, 0, 0), Position::new(1, 0, 0)]);

    assert_eq!(a, b);
}

#[test]
fn template_templates_should_return_24_pieces_unsymmetric_templates() {
    let template = Template::new(vec![
        Position::new(0, 0, 0),
        Position::new(1, 0, 0),
        Position::new(1, 1, 0),
        Position::new(1, 1, 1),
        Position::new(1, 1, 2),
    ]);

    let iterator: PieceIterator = template.into_iter();

    assert_eq!(count(iterator), 24);
}

#[test]
fn piece_templates_should_return_24_pieces_unsymmetric_templates() {
    let template = Template::new(vec![
        Position::new(0, 0, 0),
        Position::new(1, 0, 0),
        Position::new(1, 1, 0),
        Position::new(1, 1, 1),
        Position::new(1, 1, 2),
    ]);

    let iterator: PieceIterator = template.into_iter();

    assert_eq!(count(iterator), 24);
}

#[test]
fn template_templates_should_return_less_than_24_pieces_for_symmetric_templates() {
    let template = Template::new(vec![
        Position::new(0, 0, 0),
        Position::new(0, 1, 0),
        Position::new(1, 0, 0),
        Position::new(1, 1, 0),
    ]);

    let iterator: PieceIterator = template.into_iter();

    assert_eq!(count(iterator), 3);
}

#[test]
fn piece_templates_should_return_less_than_24_pieces_for_symmetric_templates() {
    let template = Template::new(vec![
        Position::new(0, 0, 0),
        Position::new(0, 1, 0),
        Position::new(1, 0, 0),
        Position::new(1, 1, 0),
    ]);

    let iterator: PieceIterator = template.into_iter();

    assert_eq!(count(iterator), 3);
}

#[test]
fn single_cell_template_has_one_orientation() {
    let template = Template::new(vec![Position::new(7, -2, 5)]);
    let mut iterator = template.into_iter();
    let only = iterator.next().unwrap();
    assert_eq!(only, Piece::new(vec![Position::new(0, 0, 0)]));
    assert!(iterator.next().is_none());
}

#[test]
fn orientations_are_distinct_and_start_at_the_origin() {
    let template = Template::new(vec![
        Position::new(0, 0, 0),
        Position::new(1, 0, 0),
        Position::new(1, 1, 0),
        Position::new(1, 1, 1),
    ])
    .with_name("twist");
    let mut iterator = template.into_iter();
    let mut pieces: Vec<Piece> = vec![];
    while let Some(piece) = iterator.next() {
        assert_eq!(piece.positions()[0], Position::new(0, 0, 0));
        assert_eq!(piece.name(), &Some(String::from("twist")));
        assert!(!pieces.contains(&piece));
        pieces.push(piece);
    }
    assert_eq!(pieces.len(), 12);
}

#[test]
fn first_orientation_is_the_normalized_template() {
    let template = Template::new(vec![
        Position::new(5, 5, 5),
        Position::new(6, 5, 5),
        Position::new(5, 6, 5),
    ]);
    let piece = template.into_iter().next().unwrap();
    assert_eq!(
        piece.positions(),
        &vec![Position::new(0, 0, 0), Position::new(1, 0, 0), Position::new(0, 1, 0)]
    );
}

#[test]
fn oriented_rotates_then_normalizes() {
    let template = Template::new(vec![
        Position::new(0, 0, 0),
        Position::new(1, 0, 0),
        Position::new(1, 1, 0),
        Position::new(1, 1, 1),
    ]);
    let piece = template.oriented(&CubeSymmetry::E2103);
    assert_eq!(
        piece,
        Piece::new(vec![
            Position::new(0, 0, 0),
            Position::new(-1, -1, 1),
            Position::new(-1, 0, 1),
            Position::new(0, 0, 1),
        ])
    );
}

#[test]
fn template_validity() {
    assert!(Template::new(vec![Position::new(0, 0, 0)]).is_valid());
    assert!(!Template::new(vec![]).is_valid());
    assert!(!Template::new(vec![Position::new(0, 2_000_000, 0)]).is_valid());
}

fn square_pieces(a: (i32, i32, i32), u: (i32, i32, i32), v: (i32, i32, i32)) -> Vec<Piece> {
    let at = |p: (i32, i32, i32)| Position::new(p.0, p.1, p.2);
    let template = Template::new(vec![
        at(a),
        at((a.0 + u.0, a.1 + u.1, a.2 + u.2)),
        at((a.0 + v.0, a.1 + v.1, a.2 + v.2)),
        at((a.0 + u.0 + v.0, a.1 + u.1 + v.1, a.2 + u.2 + v.2)),
    ]);
    let mut iterator = template.into_iter();
    let mut pieces = vec![];
    while let Some(piece) = iterator.next() {
        pieces.push(piece);
    }
    pieces
}

#[test]
fn unit_squares_in_every_plane_have_the_same_three_orientations() {
    let expected = vec![
        Piece::new(vec![Position::new(0, 0, 0), Position::new(1, 0, 0), Position::new(0, 1, 0), Position::new(1, 1, 0)]),
        Piece::new(vec![Position::new(0, 0, 0), Position::new(1, 0, 0), Position::new(0, 0, 1), Position::new(1, 0, 1)]),
        Piece::new(vec![Position::new(0, 0, 0), Position::new(0, 1, 0), Position::new(0, 0, 1), Position::new(0, 1, 1)]),
    ];
    let cases = vec![
        ((0, 0, 0), (1, 0, 0), (0, 1, 0)),
        ((7, -3, 12), (0, 0, 1), (1, 0, 0)),
        ((-100, 100, 5), (0, -1, 0), (0, 0, -1)),
        ((2, 2, 2), (-1, 0, 0), (0, 0, 1)),
    ];
    for (a, u, v) in cases {
        let pieces = square_pieces(a, u, v);
        assert_eq!(pieces.len(), 3);
        for piece in &expected {
            assert!(pieces.contains(piece));
        }
    }
}
