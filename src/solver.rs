//! Solver for packing problems: targets, solutions, and the backtracking search.
use vstd::prelude::*;
use crate::bag::{
    bag_weight, lemma_next_stocked, lemma_select_weight, lemma_weight_nonnegative, next_stocked,
    no_copies, select, valid_bag, Bag, BagModel,
};
use crate::geometry::{
    is_least, lemma_least_unique, minimum_of, point_sub, points, small, small_coordinate,
    small_point, translate_cells, MinimumPosition, Point, Position, Positionable, Translatable,
};
use crate::piece::{lemma_sorted_least, Piece, PieceModel};
use crate::template::{
    lemma_orient_facts, lemma_orientations_are_orientations, orient, orientation_pieces,
    orientations, valid_cells,
};
use crate::symmetry::{CubeSymmetry, SYMMETRY_COUNT};

verus! {

/// Every cell of `cells` is open in `target`.
pub open spec fn fits_cells(target: Seq<Point>, cells: Seq<Point>) -> bool {
    forall|k: int| 0 <= k < cells.len() ==> target.contains(#[trigger] cells[k])
}

/// The cells of `target` that `cells` leaves open, in their order.
pub open spec fn place_cells(target: Seq<Point>, cells: Seq<Point>) -> Seq<Point>
    decreases target.len(),
{
    if target.len() == 0 {
        target
    } else {
        let rest = place_cells(target.drop_last(), cells);
        if cells.contains(target.last()) {
            rest
        } else {
            rest.push(target.last())
        }
    }
}

/// The least cell of `cells`.
pub open spec fn least(cells: Seq<Point>) -> Point {
    choose|m: Point| is_least(cells, m)
}

/// The piece `o` moved so that its first cell lies on `open`.
pub open spec fn anchor(o: PieceModel, open: Point) -> PieceModel {
    (translate_cells(o.0, point_sub(open, o.0[0])), o.1)
}

/// Every cell of the target has small coordinates.
pub open spec fn valid_target(cells: Seq<Point>) -> bool {
    forall|i: int| 0 <= i < cells.len() ==> small_point(#[trigger] cells[i])
}

/// Every complete packing reachable from `partial`, in the order the search
/// finds them: when the target is packed and the bag holds no copy, `partial`
/// itself; when only one of the two is empty, none; otherwise the packings
/// that cover the target's least open cell with each entry of the bag that
/// holds a copy in turn, each in its orientations in turn.
pub open spec fn solutions(
    target: Seq<Point>,
    bag: BagModel,
    partial: Seq<PieceModel>,
) -> Seq<Seq<PieceModel>>
    decreases bag_weight(bag), 1int, 0int, 0int,
{
    if target.len() == 0 {
        if no_copies(bag) {
            seq![partial]
        } else {
            Seq::empty()
        }
    } else {
        search_from(target, bag, partial, least(target), 0, 0)
    }
}

/// The packings found by placing, on `open`, entry `i` of the bag in its
/// orientations from `j` on, then every later entry in all its orientations;
/// entries holding no copy are passed over.
pub open spec fn search_from(
    target: Seq<Point>,
    bag: BagModel,
    partial: Seq<PieceModel>,
    open: Point,
    i: int,
    j: int,
) -> Seq<Seq<PieceModel>>
    decreases bag_weight(bag), 0int, bag.len() - i, orientation_pieces(bag[i].1).len() - j,
    via search_from_decreases
{
    if i < 0 || i >= bag.len() {
        Seq::empty()
    } else if bag[i].0 <= 0 || j < 0 || j >= orientation_pieces(bag[i].1).len() {
        search_from(target, bag, partial, open, i + 1, 0)
    } else {
        let piece = anchor(orientation_pieces(bag[i].1)[j], open);
        let later = search_from(target, bag, partial, open, i, j + 1);
        if fits_cells(target, piece.0) {
            solutions(place_cells(target, piece.0), select(bag, i), partial.push(piece)) + later
        } else {
            later
        }
    }
}

#[via_fn]
proof fn search_from_decreases(
    target: Seq<Point>,
    bag: BagModel,
    partial: Seq<PieceModel>,
    open: Point,
    i: int,
    j: int,
) {
    if 0 <= i < bag.len() {
        lemma_select_weight(bag, i);
    }
}

/// Cells left open after placing are exactly the target's cells outside the piece.
pub proof fn lemma_place_cells(target: Seq<Point>, cells: Seq<Point>)
    ensures
        forall|x: Point|
            #[trigger] place_cells(target, cells).contains(x) <==> (target.contains(x)
                && !cells.contains(x)),
        place_cells(target, cells).len() <= target.len(),
    decreases target.len(),
{
    if target.len() > 0 {
        let init = target.drop_last();
        lemma_place_cells(init, cells);
        assert forall|x: Point| #[trigger] target.contains(x) <==> (init.contains(x) || x
            == target.last()) by {
            if target.contains(x) {
                let k = choose|k: int| 0 <= k < target.len() && target[k] == x;
                if k < target.len() - 1 {
                    assert(init[k] == x);
                }
            }
            if init.contains(x) {
                let k = choose|k: int| 0 <= k < init.len() && init[k] == x;
                assert(target[k] == x);
            }
            if x == target.last() {
                assert(target[target.len() - 1] == x);
            }
        }
        let rest = place_cells(init, cells);
        if !cells.contains(target.last()) {
            assert forall|x: Point| #[trigger] rest.push(target.last()).contains(x) <==> (
            rest.contains(x) || x == target.last()) by {
                if rest.push(target.last()).contains(x) {
                    let k = choose|k: int|
                        0 <= k < rest.push(target.last()).len() && rest.push(target.last())[k]
                            == x;
                    if k < rest.len() {
                        assert(rest[k] == x);
                    }
                }
                if rest.contains(x) {
                    let k = choose|k: int| 0 <= k < rest.len() && rest[k] == x;
                    assert(rest.push(target.last())[k] == x);
                }
                if x == target.last() {
                    assert(rest.push(target.last())[rest.len() as int] == x);
                }
            }
        }
    }
}

/// The search passes over entries that hold no copy.
pub proof fn lemma_search_skips_empty(
    target: Seq<Point>,
    bag: BagModel,
    partial: Seq<PieceModel>,
    open: Point,
    i: int,
)
    requires
        0 <= i <= bag.len(),
    ensures
        search_from(target, bag, partial, open, i, 0) == search_from(
            target,
            bag,
            partial,
            open,
            next_stocked(bag, i),
            0,
        ),
    decreases bag.len() - i,
{
    if i < bag.len() && bag[i].0 <= 0 {
        lemma_search_skips_empty(target, bag, partial, open, i + 1);
    }
}

/// Region to be packed: the cells still open.
#[derive(Debug)]
pub struct Target {
    collection: Vec<Position>,
}

impl View for Target {
    type V = Seq<Point>;

    closed spec fn view(&self) -> Seq<Point> {
        points(self.collection@)
    }
}

impl Target {
    /// Create a new `Target` from a collection of `Position`s.
    pub fn new(collection: Vec<Position>) -> (r: Target)
        ensures
            r@ == points(collection@),
    {
        Target { collection }
    }

    /// Determine if there is nothing left to pack.
    pub fn is_packed(&self) -> (r: bool)
        ensures
            r == (self@.len() == 0),
    {
        self.collection.len() == 0
    }

    /// Whether every coordinate is within `COORDINATE_LIMIT`, as the solver requires.
    pub fn is_valid(&self) -> (r: bool)
        ensures
            r == valid_target(self@),
    {
        let mut i: usize = 0;
        while i < self.collection.len()
            invariant
                i <= self.collection.len(),
                forall|k: int| 0 <= k < i ==> small_point(#[trigger] self@[k]),
            decreases self.collection.len() - i,
        {
            let p = self.collection[i];
            assert(self@[i as int] == p@);
            if !(small_coordinate(p.x) && small_coordinate(p.y) && small_coordinate(p.z)) {
                return false;
            }
            i = i + 1;
        }
        true
    }

    /// Determine if a `Piece` can be placed in the `Target`: each of its cells is open.
    pub fn fits(&self, piece: &Piece) -> (r: bool)
        ensures
            r == fits_cells(self@, piece.cells()),
    {
        let mut positions = piece.iter();
        let mut k: usize = 0;
        while k < piece.positions().len()
            invariant
                positions.items() == piece.cells(),
                positions.position() == k,
                k <= piece.cells().len(),
                forall|m: int| 0 <= m < k ==> self@.contains(#[trigger] piece.cells()[m]),
            decreases piece.cells().len() - k,
        {
            let p = positions.next().unwrap();
            if !self.contains(&p) {
                return false;
            }
            k = k + 1;
        }
        true
    }

    /// Whether `position` is open.
    fn contains(&self, position: &Position) -> (r: bool)
        ensures
            r == self@.contains(position@),
    {
        let mut i: usize = 0;
        while i < self.collection.len()
            invariant
                i <= self.collection.len(),
                forall|k: int| 0 <= k < i ==> #[trigger] self@[k] != position@,
            decreases self.collection.len() - i,
        {
            if self.collection[i] == *position {
                assert(self@[i as int] == position@);
                return true;
            }
            i = i + 1;
        }
        false
    }

    /// Place a `Piece` in the `Target`: the result holds the open cells that
    /// the piece does not cover. The caller checks first that the piece fits.
    pub fn place(&self, piece: &Piece) -> (r: Target)
        ensures
            r@ == place_cells(self@, piece.cells()),
    {
        let mut collection: Vec<Position> = Vec::new();
        let mut i: usize = 0;
        while i < self.collection.len()
            invariant
                i <= self.collection.len(),
                points(collection@) == place_cells(self@.subrange(0, i as int), piece.cells()),
            decreases self.collection.len() - i,
        {
            let p = self.collection[i];
            let ghost prefix = self@.subrange(0, i + 1);
            assert(prefix.drop_last() =~= self@.subrange(0, i as int));
            assert(prefix.last() == p@);
            if !piece.contains(&p) {
                let ghost before = points(collection@);
                collection.push(p);
                assert(points(collection@) =~= before.push(p@));
            }
            i = i + 1;
        }
        assert(self@.subrange(0, self@.len() as int) =~= self@);
        Target::new(collection)
    }
}

impl MinimumPosition for Target {
    open spec fn cells_of(&self) -> Seq<Point> {
        self@
    }

    fn minimum_position(&self) -> (r: Option<Position>) {
        minimum_of(&self.collection)
    }
}

/// (Partial) solution of a packing problem: the pieces placed so far, in order.
#[derive(Debug)]
pub struct Solution {
    pieces: Vec<Piece>,
}

/// The models of a list of pieces.
pub open spec fn piece_models(v: Seq<Piece>) -> Seq<PieceModel> {
    v.map_values(|p: Piece| p@)
}

/// The models of a list of solutions.
pub open spec fn solution_models(v: Seq<Solution>) -> Seq<Seq<PieceModel>> {
    v.map_values(|s: Solution| s@)
}

impl View for Solution {
    type V = Seq<PieceModel>;

    closed spec fn view(&self) -> Seq<PieceModel> {
        piece_models(self.pieces@)
    }
}

/// A copy of a list of pieces.
fn copy_pieces(v: &Vec<Piece>) -> (r: Vec<Piece>)
    ensures
        piece_models(r@) == piece_models(v@),
{
    let mut r: Vec<Piece> = Vec::new();
    let mut i: usize = 0;
    while i < v.len()
        invariant
            i <= v.len(),
            piece_models(r@) == piece_models(v@).subrange(0, i as int),
        decreases v.len() - i,
    {
        let ghost before = piece_models(r@);
        r.push(v[i].clone());
        assert(piece_models(r@) =~= before.push(v@[i as int]@));
        assert(piece_models(r@) =~= piece_models(v@).subrange(0, i + 1));
        i = i + 1;
    }
    assert(piece_models(r@) =~= piece_models(v@));
    r
}

impl Solution {
    /// Empty solution: the starting point of a search.
    pub fn empty() -> (r: Solution)
        ensures
            r@ == Seq::<PieceModel>::empty(),
    {
        let r = Solution { pieces: Vec::new() };
        assert(r@ =~= Seq::<PieceModel>::empty());
        r
    }

    /// Record a `Piece` as part of the `Solution`: a new `Solution` with the
    /// piece appended. The caller checks first that the piece fits.
    pub fn record(&self, piece: &Piece) -> (r: Solution)
        ensures
            r@ == self@.push(piece@),
    {
        let mut pieces = copy_pieces(&self.pieces);
        let ghost before = piece_models(pieces@);
        pieces.push(piece.clone());
        assert(piece_models(pieces@) =~= before.push(piece@));
        Solution { pieces }
    }

    /// The placed pieces, in placement order.
    pub fn pieces(&self) -> (r: &Vec<Piece>)
        ensures
            piece_models(r@) == self@,
    {
        &self.pieces
    }
}

impl Clone for Solution {
    fn clone(&self) -> (r: Solution)
        ensures
            r@ == self@,
    {
        Solution { pieces: copy_pieces(&self.pieces) }
    }
}

/// Taking one copy from a valid bag leaves a valid bag.
proof fn lemma_select_valid(bag: BagModel, i: int)
    requires
        0 <= i < bag.len(),
        valid_bag(bag),
    ensures
        valid_bag(select(bag, i)),
{
    let r = select(bag, i);
    assert forall|k: int| 0 <= k < r.len() implies valid_cells(#[trigger] r[k].1.0) by {
        if bag[i].0 > 1 {
            assert(r[k].1 == bag[k].1);
        } else if k == i {
            assert(r[k].1 == bag[bag.len() - 1].1);
        } else {
            assert(r[k].1 == bag[k].1);
        }
    }
}

/// Every solution of the search, appended to `found` in the order it is found.
fn collect(target: &Target, bag: Bag, partial: Solution, found: &mut Vec<Solution>)
    requires
        valid_target(target@),
        valid_bag(bag@),
    ensures
        solution_models(final(found)@) == solution_models(old(found)@) + solutions(
            target@,
            bag@,
            partial@,
        ),
    decreases bag_weight(bag@),
{
    let ghost cells = target@;
    let ghost b = bag@;
    let ghost s = partial@;
    if target.is_packed() {
        if bag.is_empty() {
            let ghost before = solution_models(found@);
            found.push(partial);
            assert(solution_models(found@) =~= before.push(s));
            assert(solution_models(found@) =~= before + seq![s]);
        } else {
            assert(solution_models(found@) =~= solution_models(found@) + Seq::<
                Seq<PieceModel>,
            >::empty());
        }
        return;
    }
    let open = target.minimum_position().unwrap();
    proof {
        assert(is_least(cells, open@));
        let l = least(cells);
        lemma_least_unique(cells, l, open@);
        let k = choose|k: int| 0 <= k < cells.len() && cells[k] == open@;
        assert(small_point(cells[k]));
    }
    let ghost o = open@;
    let ghost start = solution_models(found@);
    assert(solutions(cells, b, s) == search_from(cells, b, s, o, 0, 0));
    let mut entries = bag.into_iter();
    loop
        invariant
            entries.entries() == b,
            b == bag@,
            0 <= entries.position() <= b.len(),
            valid_bag(b),
            valid_target(cells),
            cells == target@,
            s == partial@,
            o == open@,
            small_point(o),
            cells.len() > 0,
            o == least(cells),
            start == solution_models(old(found)@),
            start + solutions(cells, b, s) == solution_models(found@) + search_from(
                cells,
                b,
                s,
                o,
                entries.position(),
                0,
            ),
        decreases b.len() - entries.position(),
    {
        let ghost i0 = entries.position();
        proof {
            lemma_next_stocked(b, i0);
            lemma_search_skips_empty(cells, b, s, o, i0);
        }
        let ghost i = next_stocked(b, i0);
        match entries.next() {
            None => {
                assert(search_from(cells, b, s, o, i, 0) =~= Seq::<Seq<PieceModel>>::empty());
                assert(solution_models(found@) + Seq::<Seq<PieceModel>>::empty() =~= solution_models(found@));
                assert(solution_models(found@) == start + solutions(cells, b, s));
                return;
            },
            Some(pair) => {
                let (template, rest) = pair;
                let ghost t = b[i].1;
                proof {
                    lemma_select_valid(b, i);
                    lemma_select_weight(b, i);
                    lemma_weight_nonnegative(select(b, i));
                }
                let mut pieces = template.into_iter();
                loop
                    invariant
                        pieces.wf(),
                        pieces.template() == t,
                        t == b[i].1,
                        0 <= i < b.len(),
                        b[i].0 > 0,
                        entries.entries() == b,
                        b == bag@,
                        entries.position() == i + 1,
                        rest@ == select(b, i),
                        valid_bag(select(b, i)),
                        0 <= bag_weight(select(b, i)) < bag_weight(b),
                        pieces.yielded() <= orientation_pieces(t).len(),
                        valid_bag(b),
                        valid_target(cells),
                        cells == target@,
                        s == partial@,
                        o == open@,
                        small_point(o),
                        start == solution_models(old(found)@),
                        start + solutions(cells, b, s) == solution_models(found@) + search_from(
                            cells,
                            b,
                            s,
                            o,
                            i,
                            pieces.yielded() as int,
                        ),
                    ensures
                        start + solutions(cells, b, s) == solution_models(found@) + search_from(
                            cells,
                            b,
                            s,
                            o,
                            i + 1,
                            0,
                        ),
                    decreases orientation_pieces(t).len() - pieces.yielded(),
                {
                    let ghost j = pieces.yielded() as int;
                    match pieces.next() {
                        None => {
                            assert(search_from(cells, b, s, o, i, j) == search_from(
                                cells,
                                b,
                                s,
                                o,
                                i + 1,
                                0,
                            ));
                            break;
                        },
                        Some(piece) => {
                            let mut piece = piece;
                            let ghost oriented = piece@;
                            proof {
                                assert(oriented == orientation_pieces(t)[j]);
                                assert(oriented.0 == orientations(t.0)[j]);
                                lemma_orientations_are_orientations(t.0, SYMMETRY_COUNT as nat, j);
                                let sym = choose|sym: CubeSymmetry|
                                    orientations(t.0)[j] == orient(t.0, sym);
                                lemma_orient_facts(t.0, sym);
                            }
                            let block = piece.minimum_position().unwrap();
                            proof {
                                lemma_sorted_least(oriented.0, block@);
                            }
                            let translation = block.to(&open);
                            piece.translate(&translation);
                            assert(piece@ == anchor(oriented, o));
                            if target.fits(&piece) {
                                let remaining = target.place(&piece);
                                let candidate = partial.record(&piece);
                                proof {
                                    lemma_place_cells(cells, piece.cells());
                                    assert forall|k: int|
                                        0 <= k < remaining@.len() implies small_point(
                                        #[trigger] remaining@[k],
                                    ) by {
                                        assert(remaining@.contains(remaining@[k]));
                                        let m = choose|m: int|
                                            0 <= m < cells.len() && cells[m] == remaining@[k];
                                        assert(small_point(cells[m]));
                                    }
                                }
                                let ghost before = solution_models(found@);
                                let next_bag = rest.clone();
                                assert(bag_weight(next_bag@) < bag_weight(bag@));
                                collect(&remaining, next_bag, candidate, found);
                                assert(solution_models(found@) + search_from(cells, b, s, o, i, j + 1)
                                    =~= before + search_from(cells, b, s, o, i, j));
                            }
                        },
                    }
                }
            },
        }
    }
}

/// Every packing of `target` with pieces of `bag`, each extending
/// `partial_solution`, in the order the search finds them. A packing fills
/// the target and uses every copy the bag holds, each once.
pub fn solve_all(target: &Target, bag: Bag, partial_solution: Solution) -> (r: Vec<Solution>)
    requires
        valid_target(target@),
        valid_bag(bag@),
    ensures
        solution_models(r@) == solutions(target@, bag@, partial_solution@),
{
    let mut found: Vec<Solution> = Vec::new();
    collect(target, bag, partial_solution, &mut found);
    assert(solution_models(found@) =~= solutions(target@, bag@, partial_solution@));
    found
}

/// The callback `f` was called with a solution whose pieces are `expected`.
pub open spec fn handed_to<F: FnMut(Solution)>(f: F, expected: Seq<PieceModel>) -> bool {
    exists|s: Solution| s@ == expected && call_ensures(f, (s,), ())
}

/// Attempt to pack all the `Piece`s of the `Bag` into the `Target`, starting
/// from `partial_solution`. The search runs to its end first (see `solve_all`);
/// `when_solved` is then called once with each packing, in the order found.
/// Its precondition is granted only for packings of `solutions`, so it can
/// receive nothing else, and it is not called at all when there is none.
pub fn solve_with<F: FnMut(Solution)>(
    target: &Target,
    bag: Bag,
    partial_solution: Solution,
    when_solved: &mut F,
)
    requires
        valid_target(target@),
        valid_bag(bag@),
        forall|s: Solution|
            #[trigger] solutions(target@, bag@, partial_solution@).contains(s@) ==> call_requires(
                *old(when_solved),
                (s,),
            ),
    ensures
        forall|k: int|
            0 <= k < solutions(target@, bag@, partial_solution@).len() ==> handed_to(
                *old(when_solved),
                #[trigger] solutions(target@, bag@, partial_solution@)[k],
            ),
{
    let ghost all = solutions(target@, bag@, partial_solution@);
    let found = solve_all(target, bag, partial_solution);
    let mut i: usize = 0;
    while i < found.len()
        invariant
            i <= found.len(),
            solution_models(found@) == all,
            *when_solved == *old(when_solved),
            forall|s: Solution| #[trigger] all.contains(s@) ==> call_requires(*old(when_solved), (s,)),
            forall|k: int| 0 <= k < i ==> handed_to(*old(when_solved), #[trigger] all[k]),
        decreases found.len() - i,
    {
        let solution = found[i].clone();
        assert(solution@ == all[i as int]);
        assert(all.contains(solution@));
        when_solved(solution);
        i = i + 1;
    }
}

/// Attempt to pack all the `Piece`s of the `Bag` into the `Target`, starting
/// from an empty solution: `when_solved` is called once with each packing, in
/// the order the search finds them, and with nothing else.
pub fn solve<F: FnMut(Solution)>(target: &Target, bag: Bag, when_solved: &mut F)
    requires
        valid_target(target@),
        valid_bag(bag@),
        forall|s: Solution|
            #[trigger] solutions(target@, bag@, Seq::empty()).contains(s@) ==> call_requires(
                *old(when_solved),
                (s,),
            ),
    ensures
        forall|k: int|
            0 <= k < solutions(target@, bag@, Seq::empty()).len() ==> handed_to(
                *old(when_solved),
                #[trigger] solutions(target@, bag@, Seq::empty())[k],
            ),
{
    let partial_solution = Solution::empty();
    solve_with(target, bag, partial_solution, when_solved)
}

} // verus!
