//! How rotations relate the orientations of one template: a template with no
//! rotational symmetry has 24 distinct orientations.
use vstd::prelude::*;
use crate::geometry::{point_add, point_sub, translate_cells, Point};
use crate::piece::{lemma_sort_cells, lemma_sort_unique, lemma_translate_keeps_sorted, sort_cells, transform_cells};
use crate::symmetry::{
    apply, compose, inverse, lemma_apply_linear, lemma_code_determines, lemma_composition_closed,
    lemma_inverse, lemma_symmetry_order, symmetry_at, symmetry_index, CubeSymmetry,
    SYMMETRY_COUNT,
};
use crate::template::{
    lemma_asymmetric_orientations, lemma_orientations_distinct, orient, orientations, valid_cells,
};

verus! {

broadcast use vstd::seq_lib::group_to_multiset_ensures, vstd::multiset::group_multiset_axioms;

/// Two sequences without repeats that hold the same cells hold them equally often.
proof fn lemma_same_members(y: Seq<Point>, z: Seq<Point>)
    requires
        y.no_duplicates(),
        z.no_duplicates(),
        forall|x: Point| y.contains(x) <==> z.contains(x),
    ensures
        y.to_multiset() == z.to_multiset(),
{
    y.lemma_multiset_has_no_duplicates();
    z.lemma_multiset_has_no_duplicates();
    assert forall|x: Point| #[trigger] y.to_multiset().count(x) == z.to_multiset().count(x) by {
        if y.contains(x) {
            assert(y.to_multiset().count(x) > 0);
            assert(z.to_multiset().count(x) > 0);
        } else {
            assert(y.to_multiset().count(x) == 0);
            assert(z.to_multiset().count(x) == 0);
        }
    }
    assert(y.to_multiset() =~= z.to_multiset());
}

/// Sorting sees only which cells there are, and how often.
proof fn lemma_sort_by_multiset(y: Seq<Point>, z: Seq<Point>)
    requires
        y.to_multiset() == z.to_multiset(),
    ensures
        sort_cells(y) == sort_cells(z),
{
    lemma_sort_cells(y);
    lemma_sort_unique(sort_cells(y), z);
}

/// The sorted cells are the same cells.
proof fn lemma_sort_members(y: Seq<Point>)
    ensures
        sort_cells(y).len() == y.len(),
        forall|x: Point| #[trigger] sort_cells(y).contains(x) <==> y.contains(x),
        y.no_duplicates() ==> sort_cells(y).no_duplicates(),
{
    lemma_sort_cells(y);
    assert forall|x: Point| #[trigger] sort_cells(y).contains(x) <==> y.contains(x) by {
        assert(sort_cells(y).to_multiset().count(x) == y.to_multiset().count(x));
    }
    if y.no_duplicates() {
        y.lemma_multiset_has_no_duplicates();
        sort_cells(y).lemma_multiset_has_no_duplicates_conv();
    }
}

/// A translated sequence holds `x` exactly when the original holds `x - d`.
proof fn lemma_translate_members(c: Seq<Point>, d: Point)
    ensures
        forall|x: Point|
            #[trigger] translate_cells(c, d).contains(x) <==> c.contains(point_sub(x, d)),
        c.no_duplicates() ==> translate_cells(c, d).no_duplicates(),
{
    let t = translate_cells(c, d);
    assert forall|x: Point| #[trigger] t.contains(x) <==> c.contains(point_sub(x, d)) by {
        if t.contains(x) {
            let k = choose|k: int| 0 <= k < t.len() && t[k] == x;
            assert(c[k] == point_sub(x, d));
        }
        if c.contains(point_sub(x, d)) {
            let k = choose|k: int| 0 <= k < c.len() && c[k] == point_sub(x, d);
            assert(t[k] == x);
        }
    }
}

/// A rotated sequence of distinct cells has distinct cells.
proof fn lemma_transform_distinct(c: Seq<Point>, s: CubeSymmetry)
    requires
        c.no_duplicates(),
    ensures
        transform_cells(c, s).no_duplicates(),
{
    let t = transform_cells(c, s);
    assert forall|i: int, j: int| 0 <= i < t.len() && 0 <= j < t.len() && i != j implies t[i]
        != t[j] by {
        if t[i] == t[j] {
            lemma_inverse(s, c[i]);
            lemma_inverse(s, c[j]);
        }
    }
}

/// The least cell of a rotated copy of the template.
pub open spec fn rotated_least(cells: Seq<Point>, s: CubeSymmetry) -> Point {
    sort_cells(transform_cells(cells, s))[0]
}

/// Where the first rotated copy of the template has a cell, the second has
/// the matching cell, shifted by the difference of their least cells.
proof fn lemma_matching_cell(cells: Seq<Point>, a: CubeSymmetry, b: CubeSymmetry, k: int)
    requires
        valid_cells(cells),
        orient(cells, a) == orient(cells, b),
        0 <= k < cells.len(),
    ensures
        exists|m: int|
            0 <= m < cells.len() && apply(a, cells[k]) == point_add(
                #[trigger] apply(b, cells[m]),
                point_sub(rotated_least(cells, a), rotated_least(cells, b)),
            ),
{
    let xa = transform_cells(cells, a);
    let xb = transform_cells(cells, b);
    let sa = sort_cells(xa);
    let sb = sort_cells(xb);
    lemma_sort_members(xa);
    lemma_sort_members(xb);
    assert(xa[k] == apply(a, cells[k]));
    assert(xa.contains(xa[k]));
    assert(sa.contains(xa[k]));
    let i = choose|i: int| 0 <= i < sa.len() && sa[i] == xa[k];
    let oa = orient(cells, a);
    let ob = orient(cells, b);
    assert(oa[i] == point_add(sa[i], point_sub((0, 0, 0), sa[0])));
    assert(ob[i] == point_add(sb[i], point_sub((0, 0, 0), sb[0])));
    assert(oa[i] == ob[i]);
    assert(sb.contains(sb[i]));
    assert(xb.contains(sb[i]));
    let m = choose|m: int| 0 <= m < xb.len() && xb[m] == sb[i];
    assert(xb[m] == apply(b, cells[m]));
    assert(apply(a, cells[k]) == point_add(apply(b, cells[m]), point_sub(sa[0], sb[0])));
}

/// The shift that carries the template onto its copy rotated by `a` and back by `b`.
pub open spec fn return_shift(cells: Seq<Point>, a: CubeSymmetry, b: CubeSymmetry) -> Point {
    apply(inverse(b), point_sub(rotated_least(cells, a), rotated_least(cells, b)))
}

proof fn lemma_forward(cells: Seq<Point>, a: CubeSymmetry, b: CubeSymmetry, k: int)
    requires
        valid_cells(cells),
        orient(cells, a) == orient(cells, b),
        0 <= k < cells.len(),
    ensures
        translate_cells(cells, return_shift(cells, a, b)).contains(
            apply(compose(inverse(b), a), cells[k]),
        ),
{
    let d = point_sub(rotated_least(cells, a), rotated_least(cells, b));
    let e = return_shift(cells, a, b);
    lemma_matching_cell(cells, a, b, k);
    let m = choose|m: int|
        0 <= m < cells.len() && apply(a, cells[k]) == point_add(#[trigger] apply(b, cells[m]), d);
    lemma_composition_closed(inverse(b), a, cells[k]);
    lemma_apply_linear(inverse(b), apply(b, cells[m]), d);
    lemma_inverse(b, cells[m]);
    let y = translate_cells(cells, e);
    assert(y[m] == apply(compose(inverse(b), a), cells[k]));
}

proof fn lemma_backward(cells: Seq<Point>, a: CubeSymmetry, b: CubeSymmetry, m: int)
    requires
        valid_cells(cells),
        orient(cells, a) == orient(cells, b),
        0 <= m < cells.len(),
    ensures
        transform_cells(cells, compose(inverse(b), a)).contains(
            point_add(cells[m], return_shift(cells, a, b)),
        ),
{
    let d = point_sub(rotated_least(cells, a), rotated_least(cells, b));
    lemma_matching_cell(cells, b, a, m);
    let k = choose|k: int|
        0 <= k < cells.len() && apply(b, cells[m]) == point_add(
            #[trigger] apply(a, cells[k]),
            point_sub(rotated_least(cells, b), rotated_least(cells, a)),
        );
    assert(apply(a, cells[k]) == point_add(apply(b, cells[m]), d));
    lemma_composition_closed(inverse(b), a, cells[k]);
    lemma_apply_linear(inverse(b), apply(b, cells[m]), d);
    lemma_inverse(b, cells[m]);
    let xc = transform_cells(cells, compose(inverse(b), a));
    assert(xc[k] == point_add(cells[m], return_shift(cells, a, b)));
}

/// If two rotations give a template the same orientation, then rotating by
/// one and back by the other maps the template onto a translate of itself.
pub proof fn lemma_equal_orientations(cells: Seq<Point>, a: CubeSymmetry, b: CubeSymmetry)
    requires
        valid_cells(cells),
        cells.no_duplicates(),
        orient(cells, a) == orient(cells, b),
    ensures
        orient(cells, compose(inverse(b), a)) == orient(cells, symmetry_at(0)),
{
    let c = compose(inverse(b), a);
    let e = return_shift(cells, a, b);
    let xc = transform_cells(cells, c);
    let y = translate_cells(cells, e);
    lemma_translate_members(cells, e);
    assert forall|p: Point| #[trigger] xc.contains(p) <==> y.contains(p) by {
        if xc.contains(p) {
            let k = choose|k: int| 0 <= k < xc.len() && xc[k] == p;
            lemma_forward(cells, a, b, k);
        }
        if y.contains(p) {
            let m = choose|m: int| 0 <= m < y.len() && y[m] == p;
            lemma_backward(cells, a, b, m);
        }
    }
    lemma_transform_distinct(cells, c);
    lemma_same_members(xc, y);
    lemma_sort_by_multiset(xc, y);
    lemma_shifted_sort(cells, e);
    assert(transform_cells(cells, symmetry_at(0)) =~= cells);
    assert(orient(cells, c) =~= orient(cells, symmetry_at(0)));
}

/// Sorting a translate is translating the sorted cells.
proof fn lemma_shifted_sort(cells: Seq<Point>, e: Point)
    requires
        cells.no_duplicates(),
    ensures
        sort_cells(translate_cells(cells, e)) == translate_cells(sort_cells(cells), e),
{
    let y = translate_cells(cells, e);
    let sorted = sort_cells(cells);
    lemma_sort_members(cells);
    lemma_sort_cells(cells);
    let z = translate_cells(sorted, e);
    lemma_translate_members(sorted, e);
    lemma_translate_members(cells, e);
    lemma_translate_keeps_sorted(sorted, e);
    assert forall|p: Point| #[trigger] z.contains(p) <==> y.contains(p) by {
        assert(sorted.contains(point_sub(p, e)) <==> cells.contains(point_sub(p, e)));
    }
    lemma_same_members(z, y);
    lemma_sort_unique(z, y);
}

/// A template that no rotation but the identity maps onto a translate of
/// itself yields 24 distinct pieces, one for each rotation.
pub proof fn lemma_no_symmetry_orientations(cells: Seq<Point>)
    requires
        valid_cells(cells),
        cells.no_duplicates(),
        forall|s: CubeSymmetry|
            s != symmetry_at(0) ==> #[trigger] orient(cells, s) != orient(cells, symmetry_at(0)),
    ensures
        orientations(cells).len() == SYMMETRY_COUNT,
{
    assert forall|i: int, j: int| 0 <= i < j < SYMMETRY_COUNT implies #[trigger] orient(
        cells,
        symmetry_at(i),
    ) != #[trigger] orient(cells, symmetry_at(j)) by {
        let a = symmetry_at(i);
        let b = symmetry_at(j);
        lemma_symmetry_order(a, i);
        lemma_symmetry_order(b, j);
        if orient(cells, a) == orient(cells, b) {
            lemma_equal_orientations(cells, a, b);
            let c = compose(inverse(b), a);
            assert(c == symmetry_at(0));
            let probe: Point = (1, 2, 3);
            lemma_composition_closed(inverse(b), a, probe);
            lemma_inverse(b, apply(a, probe));
            lemma_code_determines(a, b);
            assert(a == b);
        }
    }
    lemma_asymmetric_orientations(cells);
}

/// Rotating `cells` by `s` gives the same set of cells as moving them by some
/// vector: the shape is symmetric under `s`.
pub open spec fn maps_onto_translate(cells: Seq<Point>, s: CubeSymmetry) -> bool {
    exists|d: Point|
        #![trigger translate_cells(cells, d)]
        forall|x: Point| #[trigger] transform_cells(cells, s).contains(x) <==> translate_cells(
            cells,
            d,
        ).contains(x)
}

/// Equal normalized orientations under `s` and the identity mean that `s`
/// maps the cells onto a translate of themselves.
proof fn lemma_same_orientation_is_symmetry(cells: Seq<Point>, s: CubeSymmetry)
    requires
        valid_cells(cells),
        orient(cells, s) == orient(cells, symmetry_at(0)),
    ensures
        maps_onto_translate(cells, s),
{
    let xs = transform_cells(cells, s);
    assert(transform_cells(cells, symmetry_at(0)) =~= cells);
    let ss = sort_cells(xs);
    let s0 = sort_cells(cells);
    lemma_sort_members(xs);
    lemma_sort_members(cells);
    let ms = ss[0];
    let m0 = s0[0];
    let d = point_sub(ms, m0);
    lemma_translate_members(ss, point_sub((0, 0, 0), ms));
    lemma_translate_members(s0, point_sub((0, 0, 0), m0));
    lemma_translate_members(cells, d);
    assert forall|x: Point| #[trigger] xs.contains(x) <==> translate_cells(cells, d).contains(x) by {
        let y = point_sub(x, ms);
        assert(point_sub(y, point_sub((0, 0, 0), ms)) == x);
        assert(point_sub(y, point_sub((0, 0, 0), m0)) == point_sub(x, d));
        assert(ss.contains(x) <==> orient(cells, s).contains(y));
        assert(s0.contains(point_sub(x, d)) <==> orient(cells, symmetry_at(0)).contains(y));
    }
    let moved = translate_cells(cells, d);
    assert(forall|x: Point| #[trigger] xs.contains(x) <==> moved.contains(x));
}

/// A template that no rotation but the identity maps onto a translate of
/// its own set of cells yields 24 distinct pieces, one for each rotation.
pub proof fn lemma_asymmetric_shape_orientations(cells: Seq<Point>)
    requires
        valid_cells(cells),
        cells.no_duplicates(),
        forall|s: CubeSymmetry| s != symmetry_at(0) ==> !#[trigger] maps_onto_translate(cells, s),
    ensures
        orientations(cells).len() == SYMMETRY_COUNT,
        orientations(cells).no_duplicates(),
{
    assert forall|s: CubeSymmetry| s != symmetry_at(0) implies #[trigger] orient(cells, s)
        != orient(cells, symmetry_at(0)) by {
        if orient(cells, s) == orient(cells, symmetry_at(0)) {
            lemma_same_orientation_is_symmetry(cells, s);
        }
    }
    lemma_no_symmetry_orientations(cells);
    lemma_orientations_distinct(cells, SYMMETRY_COUNT as nat);
}

} // verus!
