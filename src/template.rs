//! Templates: piece shapes, and the distinct orientations each can take.
use vstd::prelude::*;
use crate::geometry::{
    COORDINATE_LIMIT, point_sub, small_coordinate, points, small_point, translate_cells, MinimumPosition, Normalizable, Point,
    Position, Translatable,
};
use crate::piece::{
    copy_name, copy_positions, lemma_sort_cells, sorted_positions, lemma_translate_keeps_sorted, sorted_cells, lemma_sorted_least, name_view, sort_cells, transform_cells, Piece,
    PieceModel,
};
use crate::symmetry::{
    symmetry_at, CubeSymmetry, CubeSymmetryIterator, Transformable, SYMMETRY_COUNT,
};

verus! {

/// What a template is: its cells as given, and its name if it has one.
pub type TemplateModel = (Seq<Point>, Option<Seq<char>>);

/// The cells of a template that the orientation generator accepts: at least
/// one, each within `COORDINATE_LIMIT`.
pub open spec fn valid_cells(cells: Seq<Point>) -> bool {
    &&& cells.len() > 0
    &&& forall|i: int| 0 <= i < cells.len() ==> small_point(#[trigger] cells[i])
}

/// The orientation of `cells` under `s`: rotate every cell, sort the cells,
/// then move them so that the least cell lies at the origin.
pub open spec fn orient(cells: Seq<Point>, s: CubeSymmetry) -> Seq<Point> {
    let sorted = sort_cells(transform_cells(cells, s));
    translate_cells(sorted, point_sub((0, 0, 0), sorted[0]))
}

/// The distinct orientations under the first `k` rotations of the canonical
/// order, each where it first appears.
pub open spec fn orientations_upto(cells: Seq<Point>, k: nat) -> Seq<Seq<Point>>
    decreases k,
{
    if k == 0 {
        Seq::empty()
    } else {
        let earlier = orientations_upto(cells, (k - 1) as nat);
        let o = orient(cells, symmetry_at(k - 1));
        if earlier.contains(o) {
            earlier
        } else {
            earlier.push(o)
        }
    }
}

/// The distinct orientations of `cells` under all rotations, in the order in
/// which the rotations first produce them.
pub open spec fn orientations(cells: Seq<Point>) -> Seq<Seq<Point>> {
    orientations_upto(cells, SYMMETRY_COUNT as nat)
}

/// The pieces the orientation generator yields for a template.
pub open spec fn orientation_pieces(t: TemplateModel) -> Seq<PieceModel> {
    orientations(t.0).map_values(|c: Seq<Point>| (c, t.1))
}

/// Orientations found among fewer rotations stay a prefix as more are tried.
pub proof fn lemma_orientations_prefix(cells: Seq<Point>, k: nat, m: nat)
    requires
        k <= m,
    ensures
        orientations_upto(cells, k).len() <= orientations_upto(cells, m).len(),
        orientations_upto(cells, k) == orientations_upto(cells, m).subrange(
            0,
            orientations_upto(cells, k).len() as int,
        ),
    decreases m - k,
{
    if k < m {
        lemma_orientations_prefix(cells, k, (m - 1) as nat);
        let a = orientations_upto(cells, (m - 1) as nat);
        let b = orientations_upto(cells, m);
        assert(a == b.subrange(0, a.len() as int));
        assert(orientations_upto(cells, k) =~= b.subrange(
            0,
            orientations_upto(cells, k).len() as int,
        ));
    } else {
        let a = orientations_upto(cells, k);
        assert(a =~= a.subrange(0, a.len() as int));
    }
}

/// Each orientation found is the orientation under some rotation.
pub proof fn lemma_orientations_are_orientations(cells: Seq<Point>, k: nat, idx: int)
    requires
        0 <= idx < orientations_upto(cells, k).len(),
    ensures
        exists|s: CubeSymmetry| orientations_upto(cells, k)[idx] == orient(cells, s),
    decreases k,
{
    let earlier = orientations_upto(cells, (k - 1) as nat);
    if idx < earlier.len() {
        lemma_orientations_are_orientations(cells, (k - 1) as nat, idx);
    } else {
        assert(orientations_upto(cells, k)[idx] == orient(cells, symmetry_at(k - 1)));
    }
}

/// The orientations found are pairwise distinct.
pub proof fn lemma_orientations_distinct(cells: Seq<Point>, k: nat)
    ensures
        orientations_upto(cells, k).no_duplicates(),
    decreases k,
{
    if k > 0 {
        lemma_orientations_distinct(cells, (k - 1) as nat);
    }
}

/// A template none of whose rotations maps it onto a translate of itself
/// yields a different piece for every rotation: 24 in all.
pub proof fn lemma_asymmetric_orientations(cells: Seq<Point>)
    requires
        forall|a: int, b: int|
            0 <= a < b < SYMMETRY_COUNT ==> #[trigger] orient(cells, symmetry_at(a)) != #[trigger] orient(
                cells,
                symmetry_at(b),
            ),
    ensures
        orientations(cells).len() == SYMMETRY_COUNT,
{
    lemma_distinct_orientations_upto(cells, SYMMETRY_COUNT as nat);
}

proof fn lemma_distinct_orientations_upto(cells: Seq<Point>, k: nat)
    requires
        k <= SYMMETRY_COUNT,
        forall|a: int, b: int|
            0 <= a < b < SYMMETRY_COUNT ==> #[trigger] orient(cells, symmetry_at(a)) != #[trigger] orient(
                cells,
                symmetry_at(b),
            ),
    ensures
        orientations_upto(cells, k) == Seq::new(k, |i: int| orient(cells, symmetry_at(i))),
    decreases k,
{
    if k > 0 {
        let km = (k - 1) as nat;
        lemma_distinct_orientations_upto(cells, km);
        let earlier = orientations_upto(cells, km);
        let o = orient(cells, symmetry_at(km as int));
        if earlier.contains(o) {
            let i = choose|i: int| 0 <= i < earlier.len() && earlier[i] == o;
            assert(orient(cells, symmetry_at(i)) == o);
            assert(false);
        }
        assert(orientations_upto(cells, k) =~= Seq::new(k, |i: int| orient(cells, symmetry_at(i))));
    }
}

/// A single-cell template looks the same under every rotation: it yields one
/// piece, the cell at the origin.
pub proof fn lemma_single_cell_orientations(c: Point)
    requires
        small_point(c),
    ensures
        orientations(seq![c]).len() == 1,
        orientations(seq![c]) == seq![seq![(0int, 0int, 0int)]],
{
    lemma_single_cell_upto(c, SYMMETRY_COUNT as nat);
}

proof fn lemma_single_cell_upto(c: Point, k: nat)
    requires
        small_point(c),
        1 <= k <= SYMMETRY_COUNT,
    ensures
        orientations_upto(seq![c], k) == seq![seq![(0int, 0int, 0int)]],
    decreases k,
{
    let cells = seq![c];
    let s = symmetry_at(k - 1);
    assert(valid_cells(cells));
    lemma_orient_facts(cells, s);
    let o = orient(cells, s);
    assert(o =~= seq![(0int, 0int, 0int)]);
    if k > 1 {
        lemma_single_cell_upto(c, (k - 1) as nat);
        assert(orientations_upto(cells, (k - 1) as nat).contains(o)) by {
            assert(orientations_upto(cells, (k - 1) as nat)[0] == o);
        }
    } else {
        assert(orientations_upto(cells, 0) =~= Seq::<Seq<Point>>::empty());
        assert(orientations_upto(cells, 1) =~= seq![o]);
    }
}

/// A coordinate within twice `COORDINATE_LIMIT`.
pub open spec fn within_double(c: int) -> bool {
    -2 * (COORDINATE_LIMIT as int) <= c <= 2 * (COORDINATE_LIMIT as int)
}

/// An orientation of a valid template is sorted, starts at the origin, has as
/// many cells as the template, and stays within twice `COORDINATE_LIMIT`.
pub proof fn lemma_orient_facts(cells: Seq<Point>, s: CubeSymmetry)
    requires
        valid_cells(cells),
    ensures
        orient(cells, s).len() == cells.len(),
        sorted_cells(orient(cells, s)),
        orient(cells, s)[0] == (0int, 0int, 0int),
        forall|k: int|
            0 <= k < cells.len() ==> {
                let p = #[trigger] orient(cells, s)[k];
                within_double(p.0) && within_double(p.1) && within_double(p.2)
            },
{
    let moved = transform_cells(cells, s);
    let sorted = sort_cells(moved);
    lemma_sort_cells(moved);
    assert forall|i: int| 0 <= i < sorted.len() implies small_point(#[trigger] sorted[i]) by {
        let j = choose|j: int| 0 <= j < moved.len() && moved[j] == sorted[i];
        assert(small_point(cells[j]));
    }
    lemma_translate_keeps_sorted(sorted, point_sub((0, 0, 0), sorted[0]));
    let o = orient(cells, s);
    assert forall|k: int| 0 <= k < cells.len() implies {
        let p = #[trigger] o[k];
        within_double(p.0) && within_double(p.1) && within_double(p.2)
    } by {
        assert(small_point(sorted[k]));
        assert(small_point(sorted[0]));
    }
}

/// A `Template` holds a piece shape in its reference orientation. Iterating
/// over one gives the piece in all its distinct orientations.
#[derive(Debug)]
pub struct Template {
    positions: Vec<Position>,
    name: Option<String>,
}

impl View for Template {
    type V = TemplateModel;

    closed spec fn view(&self) -> TemplateModel {
        (points(self.positions@), name_view(self.name))
    }
}

impl Template {
    /// The cells of the template, as given.
    pub open spec fn cells(&self) -> Seq<Point> {
        self@.0
    }

    /// Create a `Template` from a vector of `Position`s.
    pub fn new(positions: Vec<Position>) -> (r: Template)
        ensures
            r@ == (points(positions@), None::<Seq<char>>),
    {
        Template { positions, name: None }
    }

    /// This `Template`, named.
    pub fn with_name(self, name: &str) -> (r: Template)
        ensures
            r@ == (self.cells(), Some(name@)),
    {
        Template { positions: self.positions, name: Some(name.to_owned()) }
    }

    /// Whether the orientation generator accepts this template: it has at
    /// least one cell, and each coordinate is within `COORDINATE_LIMIT`.
    pub fn is_valid(&self) -> (r: bool)
        ensures
            r == valid_cells(self.cells()),
    {
        if self.positions.len() == 0 {
            return false;
        }
        let mut i: usize = 0;
        while i < self.positions.len()
            invariant
                i <= self.positions.len(),
                forall|k: int| 0 <= k < i ==> small_point(#[trigger] self.cells()[k]),
            decreases self.positions.len() - i,
        {
            let p = self.positions[i];
            assert(self.cells()[i as int] == p@);
            if !(small_coordinate(p.x) && small_coordinate(p.y) && small_coordinate(p.z)) {
                return false;
            }
            i = i + 1;
        }
        true
    }

    /// The template as a piece: its cells sorted, and its name.
    pub fn to_piece(&self) -> (r: Piece)
        ensures
            r@ == (sort_cells(self.cells()), self@.1),
            sorted_cells(r.cells()),
    {
        let r = Piece::from_parts(sorted_positions(&self.positions), copy_name(&self.name));
        r
    }

    /// The orientation of this template under `symmetry`, as a named piece.
    pub fn oriented(&self, symmetry: &CubeSymmetry) -> (r: Piece)
        requires
            valid_cells(self.cells()),
        ensures
            r@ == (orient(self.cells(), *symmetry), self@.1),
    {
        let ghost moved = transform_cells(self.cells(), *symmetry);
        let mut piece = Piece::from_parts(copy_positions(&self.positions), copy_name(&self.name));
        piece.transform(symmetry);
        let ghost sorted = piece.cells();
        proof {
            lemma_sort_cells(moved);
            assert forall|i: int| 0 <= i < sorted.len() implies small_point(#[trigger] sorted[i]) by {
                let j = choose|j: int| 0 <= j < moved.len() && moved[j] == sorted[i];
                assert(small_point(self.cells()[j]));
            }
        }
        let m = piece.minimum_position().unwrap();
        proof {
            lemma_sorted_least(sorted, m@);
        }
        let translation = m.to_reference();
        piece.translate(&translation);
        piece
    }

    /// Iterate over the distinct orientations of this template.
    pub fn into_iter(self) -> (r: PieceIterator)
        requires
            valid_cells(self.cells()),
        ensures
            r.wf(),
            r.template() == self@,
            r.yielded() == 0,
    {
        PieceIterator::new(self)
    }
}

impl Clone for Template {
    fn clone(&self) -> (r: Template)
        ensures
            r@ == self@,
    {
        Template { positions: copy_positions(&self.positions), name: copy_name(&self.name) }
    }
}

impl PartialEq for Template {
    fn eq(&self, other: &Template) -> (r: bool) {
        let same_name = match (&self.name, &other.name) {
            (Some(a), Some(b)) => *a == *b,
            (None, None) => true,
            _ => false,
        };
        if !same_name || self.positions.len() != other.positions.len() {
            proof {
                if !same_name {
                    assert(self@.1 != other@.1);
                } else {
                    assert(self@.0.len() != other@.0.len());
                }
            }
            return false;
        }
        let mut i: usize = 0;
        while i < self.positions.len()
            invariant
                i <= self.positions.len(),
                self.positions.len() == other.positions.len(),
                self@.1 == other@.1,
                forall|k: int| 0 <= k < i ==> #[trigger] self.cells()[k] == other.cells()[k],
            decreases self.positions.len() - i,
        {
            if self.positions[i] != other.positions[i] {
                assert(self.cells()[i as int] != other.cells()[i as int]);
                return false;
            }
            i = i + 1;
        }
        assert(self.cells() =~= other.cells());
        true
    }
}

impl vstd::std_specs::cmp::PartialEqSpecImpl for Template {
    open spec fn obeys_eq_spec() -> bool {
        true
    }

    open spec fn eq_spec(&self, other: &Template) -> bool {
        self@ == other@
    }
}

impl Eq for Template {
}

/// The `PieceIterator` returns the `Piece`s in all the distinct orientations
/// of a `Template`, skipping orientations it has already returned.
pub struct PieceIterator {
    symmetry_iterator: CubeSymmetryIterator,
    seen_pieces: Vec<Piece>,
    template: Template,
}

impl PieceIterator {
    /// The template whose orientations are handed out.
    pub closed spec fn template(&self) -> TemplateModel {
        self.template@
    }

    /// How many orientations have been handed out.
    pub closed spec fn yielded(&self) -> nat {
        self.seen_pieces@.len()
    }

    /// The iterator's record of what it handed out matches the rotations it tried.
    pub closed spec fn wf(&self) -> bool {
        &&& valid_cells(self.template.cells())
        &&& 0 <= self.symmetry_iterator.position() <= SYMMETRY_COUNT
        &&& piece_cells(self.seen_pieces@) == orientations_upto(
            self.template.cells(),
            self.symmetry_iterator.position() as nat,
        )
    }

    /// Creates a `PieceIterator` for the `Template` passed as an argument.
    pub fn new(template: Template) -> (r: PieceIterator)
        requires
            valid_cells(template.cells()),
        ensures
            r.wf(),
            r.template() == template@,
            r.yielded() == 0,
    {
        let r = PieceIterator {
            symmetry_iterator: CubeSymmetryIterator::new(),
            seen_pieces: Vec::new(),
            template,
        };
        assert(piece_cells(r.seen_pieces@) =~= Seq::<Seq<Point>>::empty());
        r
    }

    /// The next distinct orientation, or `None` once every rotation was tried.
    pub fn next(&mut self) -> (r: Option<Piece>)
        requires
            old(self).wf(),
        ensures
            final(self).wf(),
            final(self).template() == old(self).template(),
            old(self).yielded() < orientation_pieces(old(self).template()).len() ==> (r matches Some(
                p,
            ) && p@ == orientation_pieces(old(self).template())[old(self).yielded() as int])
                && final(self).yielded() == old(self).yielded() + 1,
            old(self).yielded() >= orientation_pieces(old(self).template()).len() ==> r is None
                && final(self).yielded() == old(self).yielded(),
    {
        let ghost cells = self.template.cells();
        proof {
            lemma_orientations_prefix(
                cells,
                self.symmetry_iterator.position() as nat,
                SYMMETRY_COUNT as nat,
            );
        }
        loop
            invariant
                self.wf(),
                self.template@ == old(self).template@,
                cells == self.template.cells(),
                self.seen_pieces@.len() == old(self).seen_pieces@.len(),
                piece_cells(self.seen_pieces@) == orientations(cells).subrange(
                    0,
                    self.seen_pieces@.len() as int,
                ),
                orientations(cells).len() >= self.seen_pieces@.len(),
            decreases SYMMETRY_COUNT - self.symmetry_iterator.position(),
        {
            let ghost k = self.symmetry_iterator.position();
            let symmetry_option = self.symmetry_iterator.next();
            match symmetry_option {
                None => {
                    assert(orientations(cells) =~= orientations(cells).subrange(
                        0,
                        self.seen_pieces@.len() as int,
                    ));
                    return None;
                },
                Some(symmetry) => {
                    let piece = self.template.oriented(&symmetry);
                    proof {
                        lemma_orientations_prefix(cells, (k + 1) as nat, SYMMETRY_COUNT as nat);
                    }
                    let ghost before = piece_cells(self.seen_pieces@);
                    assert(symmetry == symmetry_at(k));
                    assert(piece.cells() == orient(cells, symmetry_at(k)));
                    if !contains_cells(&self.seen_pieces, &piece) {
                        assert(orientations_upto(cells, (k + 1) as nat) == before.push(
                            piece.cells(),
                        ));
                        let copy = piece.clone();
                        self.seen_pieces.push(copy);
                        proof {
                            assert(piece_cells(self.seen_pieces@) =~= before.push(piece.cells()));
                            let a = orientations_upto(cells, (k + 1) as nat);
                            assert(a[before.len() as int] == piece.cells());
                            assert(orientations(cells).subrange(0, a.len() as int)[before.len() as int]
                                == orientations(cells)[before.len() as int]);
                            assert(orientations(cells)[before.len() as int] == piece.cells());
                            assert(orientation_pieces(self.template@)[before.len() as int] == (
                            piece.cells(), self.template@.1));
                        }
                        return Some(piece);
                    }
                    assert(orientations_upto(cells, (k + 1) as nat) == before);
                },
            }
        }
    }
}

/// The cells of each piece of a list.
pub open spec fn piece_cells(v: Seq<Piece>) -> Seq<Seq<Point>> {
    v.map_values(|p: Piece| p.cells())
}

/// Whether some piece of `pieces` has the cells of `piece`.
fn contains_cells(pieces: &Vec<Piece>, piece: &Piece) -> (r: bool)
    ensures
        r == piece_cells(pieces@).contains(piece.cells()),
{
    let mut i: usize = 0;
    while i < pieces.len()
        invariant
            i <= pieces.len(),
            forall|k: int| 0 <= k < i ==> #[trigger] piece_cells(pieces@)[k] != piece.cells(),
        decreases pieces.len() - i,
    {
        if pieces[i].same_cells(piece) {
            assert(piece_cells(pieces@)[i as int] == piece.cells());
            return true;
        }
        i = i + 1;
    }
    false
}

} // verus!
