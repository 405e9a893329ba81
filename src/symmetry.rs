//! The 24 rotations of the cube and how they act on cells.
use vstd::prelude::*;
use crate::geometry::{Point, Position};

verus! {

/// Symmetries of the cube.
///
/// The group of rotations of the cube is isomorphic to S<sub>4</sub>, the
/// permutations of its four space diagonals; each element is named after the
/// permutation it induces on them.
#[derive(Debug, Clone, Copy, PartialEq, Eq, Hash, Structural)]
pub enum CubeSymmetry {
    E0123,
    E0132,
    E0213,
    E0231,
    E0312,
    E0321,
    E1023,
    E1032,
    E1203,
    E1230,
    E1302,
    E1320,
    E2013,
    E2031,
    E2103,
    E2130,
    E2301,
    E2310,
    E3012,
    E3021,
    E3102,
    E3120,
    E3201,
    E3210,
}

/// Number of rotations of the cube.
pub const SYMMETRY_COUNT: usize = 24;

/// The image of the point `(1, 2, 3)` under a rotation. Component `i` is `k`
/// or `-k` when output axis `i` takes input axis `k` (1 for x, 2 for y, 3 for
/// z), negated or not: a signed permutation, which determines the rotation.
pub open spec fn code(s: CubeSymmetry) -> Point {
    match s {
        CubeSymmetry::E0123 => (1, 2, 3),
        CubeSymmetry::E0132 => (-3, -2, -1),
        CubeSymmetry::E0213 => (-1, -3, -2),
        CubeSymmetry::E0231 => (2, 3, 1),
        CubeSymmetry::E0312 => (3, 1, 2),
        CubeSymmetry::E0321 => (-2, -1, -3),
        CubeSymmetry::E1023 => (3, -2, 1),
        CubeSymmetry::E1032 => (-1, 2, -3),
        CubeSymmetry::E1203 => (-3, -1, 2),
        CubeSymmetry::E1230 => (-2, 1, 3),
        CubeSymmetry::E1302 => (1, 3, -2),
        CubeSymmetry::E1320 => (2, -3, -1),
        CubeSymmetry::E2013 => (-2, 3, -1),
        CubeSymmetry::E2031 => (1, -3, 2),
        CubeSymmetry::E2103 => (2, 1, -3),
        CubeSymmetry::E2130 => (3, -1, -2),
        CubeSymmetry::E2301 => (-1, -2, 3),
        CubeSymmetry::E2310 => (-3, 2, 1),
        CubeSymmetry::E3012 => (2, -1, 3),
        CubeSymmetry::E3021 => (-3, 1, -2),
        CubeSymmetry::E3102 => (-2, -3, 1),
        CubeSymmetry::E3120 => (-1, 3, 2),
        CubeSymmetry::E3201 => (3, 2, -1),
        CubeSymmetry::E3210 => (1, -2, -3),
    }
}

/// Signed axis `k` of `p`: `p.0`, `p.1` or `p.2` for `k` = 1, 2, 3, and their
/// negations for `k` = -1, -2, -3.
pub open spec fn pick(p: Point, k: int) -> int {
    if k == 1 {
        p.0
    } else if k == 2 {
        p.1
    } else if k == 3 {
        p.2
    } else if k == -1 {
        -p.0
    } else if k == -2 {
        -p.1
    } else {
        -p.2
    }
}

/// The rotation `s` applied to the point `p`.
pub open spec fn apply(s: CubeSymmetry, p: Point) -> Point {
    let c = code(s);
    (pick(p, c.0), pick(p, c.1), pick(p, c.2))
}

/// The rotations in their canonical order, the identity first.
pub open spec fn symmetry_at(i: int) -> CubeSymmetry {
    if i == 0 {
        CubeSymmetry::E0123
    } else if i == 1 {
        CubeSymmetry::E0132
    } else if i == 2 {
        CubeSymmetry::E0213
    } else if i == 3 {
        CubeSymmetry::E0231
    } else if i == 4 {
        CubeSymmetry::E0312
    } else if i == 5 {
        CubeSymmetry::E0321
    } else if i == 6 {
        CubeSymmetry::E1023
    } else if i == 7 {
        CubeSymmetry::E1032
    } else if i == 8 {
        CubeSymmetry::E1203
    } else if i == 9 {
        CubeSymmetry::E1230
    } else if i == 10 {
        CubeSymmetry::E1302
    } else if i == 11 {
        CubeSymmetry::E1320
    } else if i == 12 {
        CubeSymmetry::E2013
    } else if i == 13 {
        CubeSymmetry::E2031
    } else if i == 14 {
        CubeSymmetry::E2103
    } else if i == 15 {
        CubeSymmetry::E2130
    } else if i == 16 {
        CubeSymmetry::E2301
    } else if i == 17 {
        CubeSymmetry::E2310
    } else if i == 18 {
        CubeSymmetry::E3012
    } else if i == 19 {
        CubeSymmetry::E3021
    } else if i == 20 {
        CubeSymmetry::E3102
    } else if i == 21 {
        CubeSymmetry::E3120
    } else if i == 22 {
        CubeSymmetry::E3201
    } else {
        CubeSymmetry::E3210
    }
}

/// Position of a rotation in the canonical order.
pub open spec fn symmetry_index(s: CubeSymmetry) -> int {
    match s {
        CubeSymmetry::E0123 => 0,
        CubeSymmetry::E0132 => 1,
        CubeSymmetry::E0213 => 2,
        CubeSymmetry::E0231 => 3,
        CubeSymmetry::E0312 => 4,
        CubeSymmetry::E0321 => 5,
        CubeSymmetry::E1023 => 6,
        CubeSymmetry::E1032 => 7,
        CubeSymmetry::E1203 => 8,
        CubeSymmetry::E1230 => 9,
        CubeSymmetry::E1302 => 10,
        CubeSymmetry::E1320 => 11,
        CubeSymmetry::E2013 => 12,
        CubeSymmetry::E2031 => 13,
        CubeSymmetry::E2103 => 14,
        CubeSymmetry::E2130 => 15,
        CubeSymmetry::E2301 => 16,
        CubeSymmetry::E2310 => 17,
        CubeSymmetry::E3012 => 18,
        CubeSymmetry::E3021 => 19,
        CubeSymmetry::E3102 => 20,
        CubeSymmetry::E3120 => 21,
        CubeSymmetry::E3201 => 22,
        CubeSymmetry::E3210 => 23,
    }
}

/// The rotation whose code is `c`.
pub open spec fn symmetry_with_code(c: Point) -> CubeSymmetry {
    if c.0 == 1 && c.1 == 2 && c.2 == 3 {
        CubeSymmetry::E0123
    } else if c.0 == -3 && c.1 == -2 && c.2 == -1 {
        CubeSymmetry::E0132
    } else if c.0 == -1 && c.1 == -3 && c.2 == -2 {
        CubeSymmetry::E0213
    } else if c.0 == 2 && c.1 == 3 && c.2 == 1 {
        CubeSymmetry::E0231
    } else if c.0 == 3 && c.1 == 1 && c.2 == 2 {
        CubeSymmetry::E0312
    } else if c.0 == -2 && c.1 == -1 && c.2 == -3 {
        CubeSymmetry::E0321
    } else if c.0 == 3 && c.1 == -2 && c.2 == 1 {
        CubeSymmetry::E1023
    } else if c.0 == -1 && c.1 == 2 && c.2 == -3 {
        CubeSymmetry::E1032
    } else if c.0 == -3 && c.1 == -1 && c.2 == 2 {
        CubeSymmetry::E1203
    } else if c.0 == -2 && c.1 == 1 && c.2 == 3 {
        CubeSymmetry::E1230
    } else if c.0 == 1 && c.1 == 3 && c.2 == -2 {
        CubeSymmetry::E1302
    } else if c.0 == 2 && c.1 == -3 && c.2 == -1 {
        CubeSymmetry::E1320
    } else if c.0 == -2 && c.1 == 3 && c.2 == -1 {
        CubeSymmetry::E2013
    } else if c.0 == 1 && c.1 == -3 && c.2 == 2 {
        CubeSymmetry::E2031
    } else if c.0 == 2 && c.1 == 1 && c.2 == -3 {
        CubeSymmetry::E2103
    } else if c.0 == 3 && c.1 == -1 && c.2 == -2 {
        CubeSymmetry::E2130
    } else if c.0 == -1 && c.1 == -2 && c.2 == 3 {
        CubeSymmetry::E2301
    } else if c.0 == -3 && c.1 == 2 && c.2 == 1 {
        CubeSymmetry::E2310
    } else if c.0 == 2 && c.1 == -1 && c.2 == 3 {
        CubeSymmetry::E3012
    } else if c.0 == -3 && c.1 == 1 && c.2 == -2 {
        CubeSymmetry::E3021
    } else if c.0 == -2 && c.1 == -3 && c.2 == 1 {
        CubeSymmetry::E3102
    } else if c.0 == -1 && c.1 == 3 && c.2 == 2 {
        CubeSymmetry::E3120
    } else if c.0 == 3 && c.1 == 2 && c.2 == -1 {
        CubeSymmetry::E3201
    } else if c.0 == 1 && c.1 == -2 && c.2 == -3 {
        CubeSymmetry::E3210
    } else {
        CubeSymmetry::E0123
    }
}

/// The rotation that first applies `b`, then `a`.
#[verifier::opaque]
pub open spec fn compose(a: CubeSymmetry, b: CubeSymmetry) -> CubeSymmetry {
    symmetry_with_code(apply(a, code(b)))
}

/// Whether `k` names a signed axis.
pub open spec fn signed_axis(k: int) -> bool {
    k == 1 || k == 2 || k == 3 || k == -1 || k == -2 || k == -3
}

proof fn lemma_code_axes(s: CubeSymmetry)
    ensures
        signed_axis(code(s).0) && signed_axis(code(s).1) && signed_axis(code(s).2),
{
}

proof fn lemma_pick_apply(b: CubeSymmetry, p: Point, k: int)
    requires
        signed_axis(k),
    ensures
        pick(apply(b, p), k) == pick(p, pick(code(b), k)),
{
}

proof fn lemma_code_of_compose(a: CubeSymmetry, b: CubeSymmetry)
    ensures
        code(compose(a, b)) == apply(a, code(b)),
{
    reveal(compose);
}

/// The canonical order lists each of the 24 rotations once.
pub proof fn lemma_symmetry_order(s: CubeSymmetry, i: int)
    ensures
        0 <= symmetry_index(s) < SYMMETRY_COUNT,
        symmetry_at(symmetry_index(s)) == s,
        0 <= i < SYMMETRY_COUNT ==> symmetry_index(symmetry_at(i)) == i,
{
}

/// The rotations are closed under composition: applying `b` and then `a` is
/// the same, on every point, as applying the single rotation `compose(a, b)`.
pub proof fn lemma_composition_closed(a: CubeSymmetry, b: CubeSymmetry, p: Point)
    ensures
        apply(a, apply(b, p)) == apply(compose(a, b), p),
{
    lemma_code_axes(a);
    lemma_code_of_compose(a, b);
    let ca = code(a);
    lemma_pick_apply(b, p, ca.0);
    lemma_pick_apply(b, p, ca.1);
    lemma_pick_apply(b, p, ca.2);
}

/// The signed axis of `c` that holds axis `k`, with the sign that undoes it.
pub open spec fn undo_axis(c: Point, k: int) -> int {
    if c.0 == k {
        1
    } else if c.0 == -k {
        -1
    } else if c.1 == k {
        2
    } else if c.1 == -k {
        -2
    } else if c.2 == k {
        3
    } else {
        -3
    }
}

/// The rotation that undoes `s`.
#[verifier::opaque]
pub open spec fn inverse(s: CubeSymmetry) -> CubeSymmetry {
    let c = code(s);
    symmetry_with_code((undo_axis(c, 1), undo_axis(c, 2), undo_axis(c, 3)))
}

proof fn lemma_inverse_codes(s: CubeSymmetry)
    ensures
        code(compose(inverse(s), s)) == (1int, 2int, 3int),
        code(compose(s, inverse(s))) == (1int, 2int, 3int),
{
    reveal(compose);
    reveal(inverse);
}

/// Undoing a rotation gives every point back, from either side.
pub proof fn lemma_inverse(s: CubeSymmetry, p: Point)
    ensures
        apply(inverse(s), apply(s, p)) == p,
        apply(s, apply(inverse(s), p)) == p,
{
    lemma_inverse_codes(s);
    lemma_composition_closed(inverse(s), s, p);
    lemma_composition_closed(s, inverse(s), p);
}

/// A rotation is determined by where it sends `(1, 2, 3)`.
pub proof fn lemma_code_determines(a: CubeSymmetry, b: CubeSymmetry)
    requires
        apply(a, (1, 2, 3)) == apply(b, (1, 2, 3)),
    ensures
        a == b,
{
}

/// Rotations are linear: they commute with translation.
pub proof fn lemma_apply_linear(s: CubeSymmetry, p: Point, d: Point)
    ensures
        apply(s, (p.0 + d.0, p.1 + d.1, p.2 + d.2)) == {
            let (a, b) = (apply(s, p), apply(s, d));
            (a.0 + b.0, a.1 + b.1, a.2 + b.2)
        },
{
}

/// The first rotation of the order is the identity: it maps every point to itself.
pub proof fn lemma_identity(p: Point)
    ensures
        apply(symmetry_at(0), p) == p,
{
}

impl CubeSymmetry {
    /// The image of `(1, 2, 3)` under this rotation, as `code` gives it.
    pub fn code(&self) -> (r: (i8, i8, i8))
        ensures
            (r.0 as int, r.1 as int, r.2 as int) == code(*self),
    {
        match self {
            CubeSymmetry::E0123 => (1, 2, 3),
            CubeSymmetry::E0132 => (-3, -2, -1),
            CubeSymmetry::E0213 => (-1, -3, -2),
            CubeSymmetry::E0231 => (2, 3, 1),
            CubeSymmetry::E0312 => (3, 1, 2),
            CubeSymmetry::E0321 => (-2, -1, -3),
            CubeSymmetry::E1023 => (3, -2, 1),
            CubeSymmetry::E1032 => (-1, 2, -3),
            CubeSymmetry::E1203 => (-3, -1, 2),
            CubeSymmetry::E1230 => (-2, 1, 3),
            CubeSymmetry::E1302 => (1, 3, -2),
            CubeSymmetry::E1320 => (2, -3, -1),
            CubeSymmetry::E2013 => (-2, 3, -1),
            CubeSymmetry::E2031 => (1, -3, 2),
            CubeSymmetry::E2103 => (2, 1, -3),
            CubeSymmetry::E2130 => (3, -1, -2),
            CubeSymmetry::E2301 => (-1, -2, 3),
            CubeSymmetry::E2310 => (-3, 2, 1),
            CubeSymmetry::E3012 => (2, -1, 3),
            CubeSymmetry::E3021 => (-3, 1, -2),
            CubeSymmetry::E3102 => (-2, -3, 1),
            CubeSymmetry::E3120 => (-1, 3, 2),
            CubeSymmetry::E3201 => (3, 2, -1),
            CubeSymmetry::E3210 => (1, -2, -3),
        }
    }

    /// The rotation at position `i` of the canonical order.
    pub fn at(i: usize) -> (r: CubeSymmetry)
        requires
            i < SYMMETRY_COUNT,
        ensures
            r == symmetry_at(i as int),
    {
        match i {
            0 => CubeSymmetry::E0123,
            1 => CubeSymmetry::E0132,
            2 => CubeSymmetry::E0213,
            3 => CubeSymmetry::E0231,
            4 => CubeSymmetry::E0312,
            5 => CubeSymmetry::E0321,
            6 => CubeSymmetry::E1023,
            7 => CubeSymmetry::E1032,
            8 => CubeSymmetry::E1203,
            9 => CubeSymmetry::E1230,
            10 => CubeSymmetry::E1302,
            11 => CubeSymmetry::E1320,
            12 => CubeSymmetry::E2013,
            13 => CubeSymmetry::E2031,
            14 => CubeSymmetry::E2103,
            15 => CubeSymmetry::E2130,
            16 => CubeSymmetry::E2301,
            17 => CubeSymmetry::E2310,
            18 => CubeSymmetry::E3012,
            19 => CubeSymmetry::E3021,
            20 => CubeSymmetry::E3102,
            21 => CubeSymmetry::E3120,
            22 => CubeSymmetry::E3201,
            _ => CubeSymmetry::E3210,
        }
    }
}

/// Iterator over the symmetries of the cube, in the canonical order.
pub struct CubeSymmetryIterator {
    index: usize,
}

impl CubeSymmetryIterator {
    /// How many rotations this iterator has handed out.
    pub closed spec fn position(&self) -> int {
        self.index as int
    }

    /// Create a `CubeSymmetryIterator` at the start of the order.
    pub fn new() -> (r: CubeSymmetryIterator)
        ensures
            r.position() == 0,
    {
        CubeSymmetryIterator { index: 0 }
    }

    /// The next rotation of the order, or `None` once all 24 were handed out.
    pub fn next(&mut self) -> (r: Option<CubeSymmetry>)
        requires
            old(self).position() <= SYMMETRY_COUNT,
        ensures
            old(self).position() < SYMMETRY_COUNT ==> r == Some(symmetry_at(old(self).position()))
                && final(self).position() == old(self).position() + 1,
            old(self).position() == SYMMETRY_COUNT ==> r is None && final(self).position()
                == old(self).position(),
    {
        if self.index < SYMMETRY_COUNT {
            let s = CubeSymmetry::at(self.index);
            self.index = self.index + 1;
            Some(s)
        } else {
            None
        }
    }
}

/// Signed axis `k` of a position.
fn pick_coordinate(p: &Position, k: i8) -> (r: i32)
    requires
        signed_axis(k as int),
        p.x > i32::MIN && p.y > i32::MIN && p.z > i32::MIN,
    ensures
        r as int == pick(p@, k as int),
{
    if k == 1 {
        p.x
    } else if k == 2 {
        p.y
    } else if k == 3 {
        p.z
    } else if k == -1 {
        -p.x
    } else if k == -2 {
        -p.y
    } else {
        -p.z
    }
}

/// Contract how entities transform under the symmetries of the cube.
pub trait Transformable: Sized {
    /// Every coordinate can be negated within an `i32`.
    spec fn can_transform(&self) -> bool;

    /// `self` is `original` rotated by `symmetry`.
    spec fn is_transform_of(&self, original: Self, symmetry: CubeSymmetry) -> bool;

    /// Apply a symmetry and transform the entity.
    fn transform(&mut self, symmetry: &CubeSymmetry)
        requires
            old(self).can_transform(),
        ensures
            final(self).is_transform_of(*old(self), *symmetry),
    ;
}

impl Transformable for Position {
    open spec fn can_transform(&self) -> bool {
        self.x > i32::MIN && self.y > i32::MIN && self.z > i32::MIN
    }

    open spec fn is_transform_of(&self, original: Position, symmetry: CubeSymmetry) -> bool {
        self@ == apply(symmetry, original@)
    }

    fn transform(&mut self, symmetry: &CubeSymmetry) {
        let c = symmetry.code();
        proof {
            lemma_code_axes(*symmetry);
        }
        let x = pick_coordinate(self, c.0);
        let y = pick_coordinate(self, c.1);
        let z = pick_coordinate(self, c.2);
        *self = Position::new(x, y, z);
    }
}

} // verus!
