use pack::bag::Bag;
use pack::geometry::{MinimumPosition, Position};
use pack::piece::Piece;
use pack::solver::{solve, solve_all, solve_with, Solution, Target};
use pack::template::Template;
use pack::util::brick;

fn corner() -> Template {
    Template::new(vec![
        Position::new(0, 0, 0),
        Position::new(1, 0, 0),
        Position::new(0, 1, 0),
        Position::new(0, 0, 1),
    ])
}

fn cube_target() -> Target {
    Target::new(vec![
        Position::new(0, 0, 0),
        Position::new(1, 0, 0),
        Position::new(0, 1, 0),
        Position::new(1, 1, 0),
        Position::new(0, 0, 1),
        Position::new(1, 0, 1),
        Position::new(0, 1, 1),
        Position::new(1, 1, 1),
    ])
}

#[test]
fn piece_should_fit_in_target() {
    let target = cube_target();

    let piece = Piece::new(vec![
        Position::new(0, 0, 0),
        Position::new(1, 0, 0),
        Position::new(0, 1, 0),
        Position::new(0, 0, 1),
    ]);

    assert!(target.fits(&piece));
}

#[test]
fn solve_should_pack_pieces() {
    let target = cube_target();

    let bag = Bag::new(vec![(1, corner()), (1, corner())]);

    let mut solutions: Vec<Solution> = vec![];
    solve(&target, bag, &mut |solution| solutions.push(solution));
    assert_eq!(solutions.len(), 8);
}

#[test]
fn solutions_should_display_nicely() {
    let solution = Solution::empty()
        .record(&Piece::new(vec![
            Position::new(0, 0, 0),
            Position::new(1, 0, 0),
            Position::new(0, 1, 0),
            Position::new(0, 0, 1),
        ]))
        .record(&Piece::new(vec![
            Position::new(1, 1, 1),
            Position::new(0, 1, 1),
            Position::new(1, 0, 1),
            Position::new(1, 1, 0),
        ]));

    let output: String = solution.to_string();

    assert_eq!(
        output,
        String::from("<[(0, 0, 0)(1, 0, 0)(0, 1, 0)(0, 0, 1)][(1, 1, 0)(1, 0, 1)(0, 1, 1)(1, 1, 1)]>")
    );
}

#[test]
fn named_pieces_display_their_name() {
    let solution = Solution::empty()
        .record(&Piece::named(vec![Position::new(0, -1, 0)], "I"))
        .record(&Piece::new(vec![]));
    assert_eq!(solution.to_string(), String::from("<[I(0, -1, 0)][]>"));
    assert_eq!(Solution::empty().to_string(), String::from("<>"));
}

#[test]
fn two_corners_pack_a_cube_eight_ways_once_per_copy() {
    let target = brick(2, 2, 2);
    let bag = Bag::new(vec![(1, corner()), (1, corner())]);
    let solutions = solve_all(&target, bag, Solution::empty());
    assert_eq!(solutions.len(), 8);
    let mut distinct: Vec<String> = vec![];
    for solution in solutions.iter() {
        assert_eq!(solution.pieces().len(), 2);
        let mut cells: Vec<Position> = vec![];
        for piece in solution.pieces() {
            for p in piece.positions() {
                assert!(!cells.contains(p));
                cells.push(*p);
            }
        }
        assert_eq!(cells.len(), 8);
        if !distinct.contains(&solution.to_string()) {
            distinct.push(solution.to_string());
        }
    }
    assert_eq!(distinct.len(), 4);
    assert_eq!(
        solutions[0].to_string(),
        String::from("<[(0, 0, 0)(1, 0, 0)(0, 1, 0)(0, 0, 1)][(1, 1, 0)(1, 0, 1)(0, 1, 1)(1, 1, 1)]>")
    );
}

#[test]
fn slothouber_graatsma_cube_has_eight_fixed_packings() {
    let block = Template::new(vec![
        Position::new(0, 0, 0),
        Position::new(1, 0, 0),
        Position::new(0, 1, 0),
        Position::new(1, 1, 0),
    ]);
    let cubelet = Template::new(vec![Position::new(0, 0, 0)]);
    let target = brick(3, 3, 3);
    let bag = Bag::new(vec![(6, block), (3, cubelet)]);
    let mut count = 0;
    solve(&target, bag, &mut |_| count += 1);
    assert_eq!(count, 8);
}

#[test]
fn empty_target_and_bag_report_the_empty_solution_once() {
    let target = Target::new(vec![]);
    let bag = Bag::new(vec![]);
    let mut solutions: Vec<Solution> = vec![];
    solve(&target, bag, &mut |solution| solutions.push(solution));
    assert_eq!(solutions.len(), 1);
    assert!(solutions[0].pieces().is_empty());
}

#[test]
fn piece_larger_than_target_gives_no_solution() {
    let target = Target::new(vec![
        Position::new(0, 0, 0),
        Position::new(1, 0, 0),
        Position::new(2, 0, 0),
        Position::new(3, 0, 0),
    ]);
    let bag = Bag::new(vec![(
        1,
        Template::new(vec![
            Position::new(0, 0, 0),
            Position::new(1, 0, 0),
            Position::new(2, 0, 0),
            Position::new(3, 0, 0),
            Position::new(4, 0, 0),
        ]),
    )]);
    let mut calls = 0;
    solve(&target, bag, &mut |_| calls += 1);
    assert_eq!(calls, 0);
}

#[test]
fn solve_with_extends_the_partial_solution() {
    let target = Target::new(vec![Position::new(0, 0, 0)]);
    let bag = Bag::new(vec![(1, Template::new(vec![Position::new(3, 3, 3)]).with_name("a"))]);
    let start = Solution::empty().record(&Piece::named(vec![Position::new(9, 9, 9)], "z"));
    let mut rendered: Vec<String> = vec![];
    solve_with(&target, bag, start, &mut |solution| rendered.push(solution.to_string()));
    assert_eq!(rendered, vec![String::from("<[z(9, 9, 9)][a(0, 0, 0)]>")]);
}

#[test]
fn dominoes_tile_a_square_two_ways_in_search_order() {
    let target = pack::util::rectangle(2, 2);
    let bag = Bag::new(vec![(2, Template::new(vec![Position::new(0, 0, 0), Position::new(1, 0, 0)]))]);
    let solutions = solve_all(&target, bag, Solution::empty());
    let rendered: Vec<String> = solutions.iter().map(|s| s.to_string()).collect();
    assert_eq!(
        rendered,
        vec![
            String::from("<[(0, 0, 0)(1, 0, 0)][(0, 1, 0)(1, 1, 0)]>"),
            String::from("<[(0, 0, 0)(0, 1, 0)][(1, 0, 0)(1, 1, 0)]>"),
        ]
    );
}

#[test]
fn place_removes_exactly_the_piece() {
    let target = cube_target();
    let piece = Piece::new(vec![Position::new(1, 1, 1), Position::new(0, 0, 0)]);
    let rest = target.place(&piece);
    assert!(!rest.is_packed());
    assert!(!rest.fits(&Piece::new(vec![Position::new(0, 0, 0)])));
    assert!(rest.fits(&Piece::new(vec![Position::new(1, 0, 0), Position::new(0, 1, 1)])));
    assert_eq!(rest.minimum_position(), Some(Position::new(1, 0, 0)));
    assert!(!target.fits(&Piece::new(vec![Position::new(2, 0, 0)])));
}

#[test]
fn target_validity() {
    assert!(cube_target().is_valid());
    assert!(!Target::new(vec![Position::new(-1_000_001, 0, 0)]).is_valid());
}

#[test]
fn no_packing_while_pieces_remain() {
    let target = Target::new(vec![Position::new(0, 0, 0)]);
    let bag = Bag::new(vec![(2, Template::new(vec![Position::new(0, 0, 0)]))]);
    let mut calls = 0;
    solve(&target, bag, &mut |_| calls += 1);
    assert_eq!(calls, 0);
}

#[test]
fn entries_without_copies_are_never_placed() {
    let target = Target::new(vec![Position::new(0, 0, 0)]);
    let bag = Bag::new(vec![(0, Template::new(vec![Position::new(0, 0, 0)]))]);
    assert!(solve_all(&target, bag, Solution::empty()).is_empty());

    let bag = Bag::new(vec![
        (0, Template::new(vec![Position::new(0, 0, 0)])),
        (1, Template::new(vec![Position::new(0, 0, 0)]).with_name("b")),
    ]);
    let solutions = solve_all(&target, bag, Solution::empty());
    assert_eq!(solutions.len(), 1);
    assert_eq!(solutions[0].to_string(), String::from("<[b(0, 0, 0)]>"));

    let empty_target = Target::new(vec![]);
    let bag = Bag::new(vec![(0, Template::new(vec![Position::new(0, 0, 0)]))]);
    assert_eq!(solve_all(&empty_target, bag, Solution::empty()).len(), 1);
}
