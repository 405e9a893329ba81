//! Grid cells, translations between them, and the order in which cells are filled.
use vstd::prelude::*;

verus! {

/// A grid cell with exact integer coordinates `(x, y, z)`.
pub type Point = (int, int, int);

/// Largest coordinate magnitude of puzzle geometry that the search accepts;
/// every intermediate coordinate it computes then fits in an `i32`.
pub const COORDINATE_LIMIT: i32 = 1_000_000;

/// A coordinate within `COORDINATE_LIMIT`.
pub open spec fn small(c: int) -> bool {
    -(COORDINATE_LIMIT as int) <= c <= COORDINATE_LIMIT as int
}

/// A point with all coordinates within `COORDINATE_LIMIT`.
pub open spec fn small_point(p: Point) -> bool {
    small(p.0) && small(p.1) && small(p.2)
}

/// Whether a coordinate is within `COORDINATE_LIMIT`.
pub fn small_coordinate(c: i32) -> (r: bool)
    ensures
        r == small(c as int),
{
    -COORDINATE_LIMIT <= c && c <= COORDINATE_LIMIT
}

/// The total order on cells: compare `z` first, then `y`, then `x`.
pub open spec fn point_le(a: Point, b: Point) -> bool {
    a.2 < b.2 || (a.2 == b.2 && (a.1 < b.1 || (a.1 == b.1 && a.0 <= b.0)))
}

/// `point_le` as a value, for use with sequence orderings.
pub open spec fn cell_order() -> spec_fn(Point, Point) -> bool {
    |a: Point, b: Point| point_le(a, b)
}

/// `a` moved by `d`.
pub open spec fn point_add(a: Point, d: Point) -> Point {
    (a.0 + d.0, a.1 + d.1, a.2 + d.2)
}

/// The vector that moves `a` onto `b`.
pub open spec fn point_sub(b: Point, a: Point) -> Point {
    (b.0 - a.0, b.1 - a.1, b.2 - a.2)
}

/// `p` is in `cells` and no cell of `cells` comes before it.
pub open spec fn is_least(cells: Seq<Point>, p: Point) -> bool {
    &&& cells.contains(p)
    &&& forall|i: int| 0 <= i < cells.len() ==> point_le(p, #[trigger] cells[i])
}

/// The cell order is a total order.
pub proof fn lemma_cell_order_total()
    ensures
        vstd::relations::total_ordering(cell_order()),
{
}

/// Whether a 32-bit value can hold `c`.
pub open spec fn fits_i32(c: int) -> bool {
    i32::MIN <= c <= i32::MAX
}

/// The cells of a list of positions.
pub open spec fn points(v: Seq<Position>) -> Seq<Point> {
    v.map_values(|p: Position| p@)
}

/// `cells` moved by `d`, in the same order.
pub open spec fn translate_cells(cells: Seq<Point>, d: Point) -> Seq<Point> {
    cells.map_values(|p: Point| point_add(p, d))
}

/// Position of a cubelet. The fields are declared `z`, `y`, `x` so that the
/// derived `Ord` compares them in the cell order.
#[derive(Debug, Clone, Copy, PartialEq, Eq, Hash, Structural, Ord)]
pub struct Position {
    pub z: i32,
    pub y: i32,
    pub x: i32,
}

impl View for Position {
    type V = Point;

    open spec fn view(&self) -> Point {
        (self.x as int, self.y as int, self.z as int)
    }
}

impl Position {
    /// Create a position at the given coordinates.
    pub fn new(x: i32, y: i32, z: i32) -> (r: Position)
        ensures
            r@ == (x as int, y as int, z as int),
    {
        Position { x, y, z }
    }

    /// Create a position of the plane `z == 0`.
    pub fn d2(x: i32, y: i32) -> (r: Position)
        ensures
            r@ == (x as int, y as int, 0int),
    {
        Position { x, y, z: 0 }
    }

    /// Whether `self` comes before `other`, or equals it, in the cell order.
    pub fn precedes(&self, other: &Position) -> (r: bool)
        ensures
            r == point_le(self@, other@),
    {
        self.z < other.z || (self.z == other.z && (self.y < other.y || (self.y == other.y
            && self.x <= other.x)))
    }
}

impl PartialOrd for Position {
    fn partial_cmp(&self, other: &Position) -> (r: Option<core::cmp::Ordering>) {
        if self.z != other.z {
            if self.z < other.z {
                Some(core::cmp::Ordering::Less)
            } else {
                Some(core::cmp::Ordering::Greater)
            }
        } else if self.y != other.y {
            if self.y < other.y {
                Some(core::cmp::Ordering::Less)
            } else {
                Some(core::cmp::Ordering::Greater)
            }
        } else if self.x != other.x {
            if self.x < other.x {
                Some(core::cmp::Ordering::Less)
            } else {
                Some(core::cmp::Ordering::Greater)
            }
        } else {
            Some(core::cmp::Ordering::Equal)
        }
    }
}

impl vstd::std_specs::cmp::PartialOrdSpecImpl for Position {
    open spec fn obeys_partial_cmp_spec() -> bool {
        true
    }

    open spec fn partial_cmp_spec(&self, other: &Position) -> Option<core::cmp::Ordering> {
        if self@ == other@ {
            Some(core::cmp::Ordering::Equal)
        } else if point_le(self@, other@) {
            Some(core::cmp::Ordering::Less)
        } else {
            Some(core::cmp::Ordering::Greater)
        }
    }
}

/// Entities can be translated through space. This struct determines how.
#[derive(Debug, Clone, Copy, PartialEq, Eq, Hash)]
pub struct Translation {
    /// By how much an entity gets translated in space.
    pub delta: (i32, i32, i32),
}

impl View for Translation {
    type V = Point;

    open spec fn view(&self) -> Point {
        (self.delta.0 as int, self.delta.1 as int, self.delta.2 as int)
    }
}

impl Translation {
    /// Create a translation by stating how to move along each coordinate.
    pub fn new(x: i32, y: i32, z: i32) -> (r: Translation)
        ensures
            r@ == (x as int, y as int, z as int),
    {
        Translation { delta: (x, y, z) }
    }

    /// The translation that undoes this one.
    pub fn inverse(&self) -> (r: Translation)
        requires
            self.delta.0 > i32::MIN && self.delta.1 > i32::MIN && self.delta.2 > i32::MIN,
        ensures
            r@ == point_sub((0, 0, 0), self@),
    {
        Translation { delta: (-self.delta.0, -self.delta.1, -self.delta.2) }
    }
}

/// Contract how to translate entities.
pub trait Translatable: Sized {
    /// Every coordinate of the moved entity fits in an `i32`.
    spec fn can_translate(&self, translation: Translation) -> bool;

    /// `self` is `original` moved by `translation`.
    spec fn is_translation_of(&self, original: Self, translation: Translation) -> bool;

    /// Move the entity by the `Translation`.
    fn translate(&mut self, translation: &Translation)
        requires
            old(self).can_translate(*translation),
        ensures
            final(self).is_translation_of(*old(self), *translation),
    ;
}

impl Translatable for Position {
    open spec fn can_translate(&self, translation: Translation) -> bool {
        let p = point_add(self@, translation@);
        fits_i32(p.0) && fits_i32(p.1) && fits_i32(p.2)
    }

    open spec fn is_translation_of(&self, original: Position, translation: Translation) -> bool {
        self@ == point_add(original@, translation@)
    }

    fn translate(&mut self, translation: &Translation) {
        self.x = self.x + translation.delta.0;
        self.y = self.y + translation.delta.1;
        self.z = self.z + translation.delta.2;
    }
}

/// Move an entity to a `Position`.
pub trait Positionable: Sized {
    /// The difference `other - self` fits in an `i32` on every axis.
    spec fn can_reach(&self, other: Self) -> bool;

    /// The vector that takes `self` onto `other`.
    spec fn spec_to(&self, other: Self) -> Point;

    /// Determine the `Translation` which takes the entity to `other`.
    fn to(&self, other: &Self) -> (r: Translation)
        requires
            self.can_reach(*other),
        ensures
            r@ == self.spec_to(*other),
    ;
}

impl Positionable for Position {
    open spec fn can_reach(&self, other: Position) -> bool {
        let d = point_sub(other@, self@);
        fits_i32(d.0) && fits_i32(d.1) && fits_i32(d.2)
    }

    open spec fn spec_to(&self, other: Position) -> Point {
        point_sub(other@, self@)
    }

    fn to(&self, other: &Position) -> (r: Translation) {
        Translation::new(other.x - self.x, other.y - self.y, other.z - self.z)
    }
}

/// Move an entity to the origin.
pub trait Normalizable: Sized {
    /// The move to the origin fits in an `i32` on every axis.
    spec fn can_normalize(&self) -> bool;

    /// The vector that takes the entity to the origin.
    spec fn spec_to_reference(&self) -> Point;

    /// Determine the `Translation` which takes the entity to the origin.
    fn to_reference(&self) -> (r: Translation)
        requires
            self.can_normalize(),
        ensures
            r@ == self.spec_to_reference(),
    ;
}

impl Normalizable for Position {
    open spec fn can_normalize(&self) -> bool {
        self.x > i32::MIN && self.y > i32::MIN && self.z > i32::MIN
    }

    open spec fn spec_to_reference(&self) -> Point {
        point_sub((0, 0, 0), self@)
    }

    fn to_reference(&self) -> (r: Translation) {
        Translation::new(-self.x, -self.y, -self.z)
    }
}

/// Contract to find the minimal `Position`.
pub trait MinimumPosition {
    /// The cells among which the minimum is sought.
    spec fn cells_of(&self) -> Seq<Point>;

    /// Return the minimal `Position` of the entity, `None` when it has no cells.
    fn minimum_position(&self) -> (r: Option<Position>)
        ensures
            r is None <==> self.cells_of().len() == 0,
            r matches Some(m) ==> is_least(self.cells_of(), m@),
    ;
}

/// The least position of `v` in the cell order, `None` when `v` is empty.
pub fn minimum_of(v: &Vec<Position>) -> (r: Option<Position>)
    ensures
        r is None <==> v@.len() == 0,
        r matches Some(m) ==> is_least(points(v@), m@),
{
    if v.len() == 0 {
        return None;
    }
    let mut best = v[0];
    assert(points(v@)[0] == best@);
    let mut i: usize = 1;
    while i < v.len()
        invariant
            1 <= i <= v.len(),
            points(v@).contains(best@),
            forall|k: int| 0 <= k < i ==> point_le(best@, #[trigger] points(v@)[k]),
        decreases v.len() - i,
    {
        if !best.precedes(&v[i]) {
            best = v[i];
            assert(points(v@)[i as int] == best@);
        }
        i = i + 1;
    }
    Some(best)
}

/// No two cells of the order are both least: the least cell is unique.
pub proof fn lemma_least_unique(cells: Seq<Point>, a: Point, b: Point)
    requires
        is_least(cells, a),
        is_least(cells, b),
    ensures
        a == b,
{
    let i = choose|i: int| 0 <= i < cells.len() && cells[i] == a;
    let j = choose|j: int| 0 <= j < cells.len() && cells[j] == b;
    assert(point_le(a, cells[j]));
    assert(point_le(b, cells[i]));
}

/// Translation keeps the cell order between any two cells.
pub proof fn lemma_translate_keeps_order(a: Point, b: Point, d: Point)
    ensures
        point_le(a, b) <==> point_le(point_add(a, d), point_add(b, d)),
{
}

/// The least cell of a translated shape is the translated least cell.
pub proof fn lemma_translate_keeps_minimum(cells: Seq<Point>, m: Point, d: Point)
    requires
        is_least(cells, m),
    ensures
        is_least(translate_cells(cells, d), point_add(m, d)),
{
    let t = translate_cells(cells, d);
    let i = choose|i: int| 0 <= i < cells.len() && cells[i] == m;
    assert(t[i] == point_add(m, d));
    assert forall|k: int| 0 <= k < t.len() implies point_le(point_add(m, d), #[trigger] t[k]) by {
        assert(point_le(m, cells[k]));
    }
}

/// Translating by `d` and then by its inverse gives back every cell, in order.
pub proof fn lemma_translate_round_trip(cells: Seq<Point>, d: Point)
    ensures
        translate_cells(translate_cells(cells, d), point_sub((0, 0, 0), d)) == cells,
{
    assert(translate_cells(translate_cells(cells, d), point_sub((0, 0, 0), d)) =~= cells);
}

} // verus!
