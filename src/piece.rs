//! Pieces: sorted sets of cells, as placed or oriented in space.
use vstd::prelude::*;
use vstd::relations::sorted_by;
use vstd::seq_lib::lemma_sorted_unique;
use crate::geometry::{
    cell_order, is_least, lemma_cell_order_total, lemma_least_unique, minimum_of, point_add, point_le, points,
    translate_cells, MinimumPosition, Point, Position, Translatable, Translation,
};
use crate::symmetry::{apply, CubeSymmetry, Transformable};

verus! {

broadcast use vstd::seq_lib::group_to_multiset_ensures;

/// What a piece is: its cells in order, and its name if it has one.
pub type PieceModel = (Seq<Point>, Option<Seq<char>>);

/// The text of an optional name.
pub open spec fn name_view(n: Option<String>) -> Option<Seq<char>> {
    match n {
        Some(s) => Some(s@),
        None => None,
    }
}

/// The cells appear in the cell order.
pub open spec fn sorted_cells(c: Seq<Point>) -> bool {
    forall|i: int, j: int| 0 <= i < j < c.len() ==> point_le(#[trigger] c[i], #[trigger] c[j])
}

/// The cells of `c` rearranged into the cell order.
pub open spec fn sort_cells(c: Seq<Point>) -> Seq<Point> {
    c.sort_by(cell_order())
}

/// Every cell of `c` rotated by `s`, in the same order.
pub open spec fn transform_cells(c: Seq<Point>, s: CubeSymmetry) -> Seq<Point> {
    c.map_values(|p: Point| apply(s, p))
}

/// A sorted rearrangement of `c` is the one `sort_cells` gives.
pub proof fn lemma_sort_unique(r: Seq<Point>, c: Seq<Point>)
    requires
        sorted_cells(r),
        r.to_multiset() == c.to_multiset(),
    ensures
        r == sort_cells(c),
{
    lemma_cell_order_total();
    c.lemma_sort_by_ensures(cell_order());
    assert(sorted_by(r, cell_order())) by {
        assert forall|i: int, j: int| 0 <= i < j < r.len() implies #[trigger] (cell_order())(
            r[i],
            r[j],
        ) by {
            assert(point_le(r[i], r[j]));
        }
    }
    lemma_sorted_unique(r, sort_cells(c), cell_order());
}

/// Sorting yields sorted cells, the same cells as before.
pub proof fn lemma_sort_cells(c: Seq<Point>)
    ensures
        sorted_cells(sort_cells(c)),
        sort_cells(c).to_multiset() == c.to_multiset(),
        sort_cells(c).len() == c.len(),
        forall|i: int| 0 <= i < c.len() ==> c.contains(#[trigger] sort_cells(c)[i]),
{
    lemma_cell_order_total();
    c.lemma_sort_by_ensures(cell_order());
    let s = sort_cells(c);
    assert(s.to_multiset().len() == s.len());
    assert(c.to_multiset().len() == c.len());
    assert forall|i: int, j: int| 0 <= i < j < s.len() implies point_le(
        #[trigger] s[i],
        #[trigger] s[j],
    ) by {
        assert((cell_order())(s[i], s[j]));
    }
    assert forall|i: int| 0 <= i < c.len() implies c.contains(#[trigger] s[i]) by {
        assert(s.contains(s[i]));
        assert(s.to_multiset().count(s[i]) > 0);
        assert(c.to_multiset().count(s[i]) > 0);
    }
}

/// The least cell of sorted cells is the first.
pub proof fn lemma_sorted_least(c: Seq<Point>, m: Point)
    requires
        sorted_cells(c),
        is_least(c, m),
    ensures
        c.len() > 0,
        m == c[0],
{
    assert(c.len() > 0);
    assert(is_least(c, c[0])) by {
        assert forall|k: int| 0 <= k < c.len() implies point_le(c[0], #[trigger] c[k]) by {
            if k > 0 {
                assert(point_le(c[0], c[k]));
            }
        }
    }
    lemma_least_unique(c, m, c[0]);
}

/// Translation keeps sorted cells sorted.
pub proof fn lemma_translate_keeps_sorted(c: Seq<Point>, d: Point)
    requires
        sorted_cells(c),
    ensures
        sorted_cells(translate_cells(c, d)),
{
    let t = translate_cells(c, d);
    assert forall|i: int, j: int| 0 <= i < j < t.len() implies point_le(
        #[trigger] t[i],
        #[trigger] t[j],
    ) by {
        assert(point_le(c[i], c[j]));
    }
}

/// The positions of `v`, sorted into the cell order.
pub fn sorted_positions(v: &Vec<Position>) -> (r: Vec<Position>)
    ensures
        sorted_cells(points(r@)),
        points(r@).to_multiset() == points(v@).to_multiset(),
        points(r@) == sort_cells(points(v@)),
{
    let mut r: Vec<Position> = Vec::new();
    let mut i: usize = 0;
    while i < v.len()
        invariant
            i <= v.len(),
            sorted_cells(points(r@)),
            points(r@).to_multiset() == points(v@.subrange(0, i as int)).to_multiset(),
        decreases v.len() - i,
    {
        let p = v[i];
        let mut j: usize = 0;
        while j < r.len() && r[j].precedes(&p)
            invariant
                j <= r.len(),
                forall|k: int| 0 <= k < j ==> point_le(#[trigger] points(r@)[k], p@),
            decreases r.len() - j,
        {
            j = j + 1;
        }
        let ghost before = points(r@);
        r.insert(j, p);
        proof {
            assert(points(r@) =~= before.insert(j as int, p@));
            assert(points(v@.subrange(0, i + 1)) =~= points(v@.subrange(0, i as int)).push(p@));
            let after = points(r@);
            assert forall|a: int, b: int| 0 <= a < b < after.len() implies point_le(
                #[trigger] after[a],
                #[trigger] after[b],
            ) by {
                if b < j {
                    assert(point_le(before[a], before[b]));
                } else if b == j {
                } else if a < j {
                    assert(point_le(before[a], p@));
                    assert(point_le(p@, before[j as int]));
                    assert(point_le(before[j as int], before[b - 1]));
                } else if a == j {
                    assert(point_le(p@, before[j as int]));
                    if b - 1 > j {
                        assert(point_le(before[j as int], before[b - 1]));
                    }
                } else {
                    assert(point_le(before[a - 1], before[b - 1]));
                }
            }
        }
        i = i + 1;
    }
    assert(v@.subrange(0, v@.len() as int) =~= v@);
    proof {
        lemma_sort_unique(points(r@), points(v@));
    }
    r
}

/// A piece that gets packed: its positions in the cell order, and an optional name.
#[derive(Debug)]
pub struct Piece {
    positions: Vec<Position>,
    name: Option<String>,
}

impl View for Piece {
    type V = PieceModel;

    closed spec fn view(&self) -> PieceModel {
        (points(self.positions@), name_view(self.name))
    }
}

impl Piece {
    /// The cells of the piece, in order.
    pub open spec fn cells(&self) -> Seq<Point> {
        self@.0
    }

    /// Create a new `Piece` from a collection of `Position`s, sorting them.
    pub fn new(positions: Vec<Position>) -> (r: Piece)
        ensures
            r.cells() == sort_cells(points(positions@)),
            sorted_cells(r.cells()),
            r.cells().to_multiset() == points(positions@).to_multiset(),
            r.cells().len() == positions@.len(),
            r@.1 is None,
    {
        proof {
            lemma_sort_cells(points(positions@));
        }
        Piece { positions: sorted_positions(&positions), name: None }
    }

    /// Create a named `Piece` from a collection of `Position`s, sorting them.
    pub fn named(positions: Vec<Position>, name: &str) -> (r: Piece)
        ensures
            r.cells() == sort_cells(points(positions@)),
            sorted_cells(r.cells()),
            r.cells().to_multiset() == points(positions@).to_multiset(),
            r.cells().len() == positions@.len(),
            r@.1 == Some(name@),
    {
        proof {
            lemma_sort_cells(points(positions@));
        }
        Piece { positions: sorted_positions(&positions), name: Some(name.to_owned()) }
    }

    /// A piece with the given cells and name, kept in the given order.
    pub(crate) fn from_parts(positions: Vec<Position>, name: Option<String>) -> (r: Piece)
        ensures
            r@ == (points(positions@), name_view(name)),
    {
        Piece { positions, name }
    }

    /// Determine if a `Position` is contained in this `Piece`.
    pub fn contains(&self, position: &Position) -> (r: bool)
        ensures
            r == self.cells().contains(position@),
    {
        let mut i: usize = 0;
        while i < self.positions.len()
            invariant
                i <= self.positions.len(),
                forall|k: int| 0 <= k < i ==> #[trigger] self.cells()[k] != position@,
            decreases self.positions.len() - i,
        {
            if self.positions[i] == *position {
                assert(self.cells()[i as int] == position@);
                return true;
            }
            i = i + 1;
        }
        false
    }

    /// The positions of the piece, in order.
    pub fn positions(&self) -> (r: &Vec<Position>)
        ensures
            points(r@) == self.cells(),
    {
        &self.positions
    }

    /// The name of the piece, if it has one.
    pub fn name(&self) -> (r: &Option<String>)
        ensures
            name_view(*r) == self@.1,
    {
        &self.name
    }

    /// Create an iterator over all `Position`s, in order.
    pub fn iter(&self) -> (r: PositionIterator)
        ensures
            r.items() == self.cells(),
            r.position() == 0,
    {
        PositionIterator::new(copy_positions(&self.positions))
    }

    /// Whether both pieces have the same cells in the same order.
    pub fn same_cells(&self, other: &Piece) -> (r: bool)
        ensures
            r == (self.cells() == other.cells()),
    {
        if self.positions.len() != other.positions.len() {
            assert(self.cells().len() != other.cells().len());
            return false;
        }
        let mut i: usize = 0;
        while i < self.positions.len()
            invariant
                i <= self.positions.len(),
                self.positions.len() == other.positions.len(),
                forall|k: int| 0 <= k < i ==> #[trigger] self.cells()[k] == other.cells()[k],
            decreases self.positions.len() - i,
        {
            if self.positions[i] != other.positions[i] {
                assert(self.cells()[i as int] != other.cells()[i as int]);
                return false;
            }
            i = i + 1;
        }
        assert(self.cells() =~= other.cells());
        true
    }
}

/// A copy of a list of positions.
pub(crate) fn copy_positions(v: &Vec<Position>) -> (r: Vec<Position>)
    ensures
        r@ == v@,
{
    let mut r: Vec<Position> = Vec::new();
    let mut i: usize = 0;
    while i < v.len()
        invariant
            i <= v.len(),
            r@ == v@.subrange(0, i as int),
        decreases v.len() - i,
    {
        r.push(v[i]);
        i = i + 1;
    }
    assert(r@ =~= v@);
    r
}

/// A copy of an optional name.
pub(crate) fn copy_name(n: &Option<String>) -> (r: Option<String>)
    ensures
        name_view(r) == name_view(*n),
{
    match n {
        Some(s) => Some(s.clone()),
        None => None,
    }
}

impl Clone for Piece {
    fn clone(&self) -> (r: Piece)
        ensures
            r@ == self@,
    {
        Piece { positions: copy_positions(&self.positions), name: copy_name(&self.name) }
    }
}

impl PartialEq for Piece {
    fn eq(&self, other: &Piece) -> (r: bool) {
        let same_name = match (&self.name, &other.name) {
            (Some(a), Some(b)) => *a == *b,
            (None, None) => true,
            _ => false,
        };
        same_name && self.same_cells(other)
    }
}

impl vstd::std_specs::cmp::PartialEqSpecImpl for Piece {
    open spec fn obeys_eq_spec() -> bool {
        true
    }

    open spec fn eq_spec(&self, other: &Piece) -> bool {
        self@ == other@
    }
}

impl Eq for Piece {
}

impl Transformable for Piece {
    open spec fn can_transform(&self) -> bool {
        forall|i: int| 0 <= i < self.cells().len() ==> {
            let p = #[trigger] self.cells()[i];
            p.0 > i32::MIN && p.1 > i32::MIN && p.2 > i32::MIN
        }
    }

    open spec fn is_transform_of(&self, original: Piece, symmetry: CubeSymmetry) -> bool {
        &&& self.cells() == sort_cells(transform_cells(original.cells(), symmetry))
        &&& self@.1 == original@.1
    }

    fn transform(&mut self, symmetry: &CubeSymmetry) {
        let ghost start = self.cells();
        let mut moved: Vec<Position> = Vec::new();
        let mut i: usize = 0;
        while i < self.positions.len()
            invariant
                i <= self.positions.len(),
                start == points(self.positions@),
                forall|k: int| 0 <= k < start.len() ==> {
                    let p = #[trigger] start[k];
                    p.0 > i32::MIN && p.1 > i32::MIN && p.2 > i32::MIN
                },
                points(moved@) == transform_cells(start, *symmetry).subrange(0, i as int),
                self.name == old(self).name,
            decreases self.positions.len() - i,
        {
            let mut p = self.positions[i];
            assert(start[i as int] == p@);
            let ghost before = points(moved@);
            p.transform(symmetry);
            assert(p@ == apply(*symmetry, start[i as int]));
            moved.push(p);
            assert(points(moved@) =~= before.push(p@));
            assert(points(moved@) =~= transform_cells(start, *symmetry).subrange(0, i + 1));
            i = i + 1;
        }
        assert(points(moved@) =~= transform_cells(start, *symmetry));
        self.positions = sorted_positions(&moved);
    }
}

impl Translatable for Piece {
    open spec fn can_translate(&self, translation: Translation) -> bool {
        forall|i: int| 0 <= i < self.cells().len() ==> {
            let p = point_add(#[trigger] self.cells()[i], translation@);
            i32::MIN <= p.0 <= i32::MAX && i32::MIN <= p.1 <= i32::MAX && i32::MIN <= p.2
                <= i32::MAX
        }
    }

    open spec fn is_translation_of(&self, original: Piece, translation: Translation) -> bool {
        &&& self.cells() == translate_cells(original.cells(), translation@)
        &&& self@.1 == original@.1
    }

    fn translate(&mut self, translation: &Translation) {
        let ghost start = self.cells();
        let mut i: usize = 0;
        while i < self.positions.len()
            invariant
                i <= self.positions.len(),
                start.len() == self.positions.len(),
                forall|k: int| 0 <= k < start.len() ==> {
                    let p = point_add(#[trigger] start[k], translation@);
                    i32::MIN <= p.0 <= i32::MAX && i32::MIN <= p.1 <= i32::MAX && i32::MIN
                        <= p.2 <= i32::MAX
                },
                forall|k: int|
                    0 <= k < i ==> #[trigger] points(self.positions@)[k] == point_add(
                        start[k],
                        translation@,
                    ),
                forall|k: int| i <= k < start.len() ==> #[trigger] points(self.positions@)[k] == start[k],
                self.name == old(self).name,
            decreases self.positions.len() - i,
        {
            let mut p = self.positions[i];
            assert(points(self.positions@)[i as int] == p@);
            let ghost before = points(self.positions@);
            p.translate(translation);
            self.positions.set(i, p);
            assert(points(self.positions@) =~= before.update(i as int, p@));
            i = i + 1;
        }
        assert(points(self.positions@) =~= translate_cells(start, translation@));
    }
}

impl MinimumPosition for Piece {
    open spec fn cells_of(&self) -> Seq<Point> {
        self.cells()
    }

    fn minimum_position(&self) -> (r: Option<Position>) {
        minimum_of(&self.positions)
    }
}

/// Iterate over the `Position`s of entities.
pub struct PositionIterator {
    index: usize,
    positions: Vec<Position>,
}

impl PositionIterator {
    /// The cells this iterator hands out, in order.
    pub closed spec fn items(&self) -> Seq<Point> {
        points(self.positions@)
    }

    /// How many cells it has handed out.
    pub closed spec fn position(&self) -> int {
        self.index as int
    }

    /// Create a `PositionIterator` that iterates over the provided positions.
    pub fn new(positions: Vec<Position>) -> (r: PositionIterator)
        ensures
            r.items() == points(positions@),
            r.position() == 0,
    {
        PositionIterator { index: 0, positions }
    }

    /// The next position, or `None` once all were handed out.
    pub fn next(&mut self) -> (r: Option<Position>)
        requires
            old(self).position() <= old(self).items().len(),
        ensures
            final(self).items() == old(self).items(),
            old(self).position() < old(self).items().len() ==> (r matches Some(p) && p@
                == old(self).items()[old(self).position()]) && final(self).position() == old(
                self,
            ).position() + 1,
            old(self).position() == old(self).items().len() ==> r is None && final(self).position()
                == old(self).position(),
    {
        if self.index < self.positions.len() {
            let p = self.positions[self.index];
            self.index = self.index + 1;
            Some(p)
        } else {
            None
        }
    }
}

} // verus!
