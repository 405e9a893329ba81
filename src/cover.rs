//! The search is sound and complete: every packing it reports covers its
//! target exactly with copies of the bag's templates, each copy used once,
//! and every such cover is reported.
use vstd::prelude::*;
use crate::bag::{
    bag_multiset, bag_size, bag_weight, copies, count_in, lemma_bag_multiset_len, lemma_count_in, lemma_no_copies_empty, lemma_select_multiset, no_copies, lemma_select_weight, select,
    valid_bag, BagModel,
};
use crate::geometry::{is_least, point_le, point_sub, translate_cells, Point};
use crate::piece::{lemma_sort_cells, sort_cells, transform_cells, PieceModel};
use crate::solver::{anchor, fits_cells, least, place_cells, search_from, solutions};
use crate::symmetry::{apply, lemma_symmetry_order, symmetry_index, CubeSymmetry, SYMMETRY_COUNT};
use crate::template::{
    lemma_orient_facts, lemma_orientations_are_orientations, lemma_orientations_prefix, orient,
    orientation_pieces, orientations, orientations_upto, valid_cells, TemplateModel,
};

verus! {

broadcast use vstd::seq_lib::group_to_multiset_ensures, vstd::multiset::group_multiset_axioms;

/// The cells of all pieces of a list, piece after piece.
pub open spec fn all_cells(ps: Seq<PieceModel>) -> Seq<Point>
    decreases ps.len(),
{
    if ps.len() == 0 {
        Seq::empty()
    } else {
        all_cells(ps.drop_last()) + ps.last().0
    }
}

/// Every template of the bag lists each of its cells once.
pub open spec fn distinct_templates(bag: BagModel) -> bool {
    forall|i: int| 0 <= i < bag.len() ==> (#[trigger] bag[i].1).0.no_duplicates()
}

/// `sol` extends `partial` with pieces whose cells are the cells of `target`,
/// each covered once.
pub open spec fn covers_exactly(target: Seq<Point>, partial: Seq<PieceModel>, sol: Seq<PieceModel>) -> bool {
    &&& partial.len() <= sol.len()
    &&& sol.subrange(0, partial.len() as int) == partial
    &&& all_cells(sol.subrange(partial.len() as int, sol.len() as int)).to_multiset()
        == target.to_multiset()
}

proof fn lemma_all_cells_prepend(p: PieceModel, rest: Seq<PieceModel>)
    ensures
        all_cells(seq![p] + rest) == p.0 + all_cells(rest),
    decreases rest.len(),
{
    let whole = seq![p] + rest;
    if rest.len() == 0 {
        assert(whole.drop_last() =~= Seq::<PieceModel>::empty());
        assert(whole.last() == p);
        assert(all_cells(whole) == all_cells(whole.drop_last()) + p.0);
        assert(all_cells(whole) =~= p.0);
        assert(p.0 + all_cells(rest) =~= p.0);
    } else {
        lemma_all_cells_prepend(p, rest.drop_last());
        assert(whole.drop_last() =~= seq![p] + rest.drop_last());
        assert(whole.last() == rest.last());
        assert(all_cells(whole) == all_cells(whole.drop_last()) + rest.last().0);
        assert(p.0 + all_cells(rest) =~= (p.0 + all_cells(rest.drop_last())) + rest.last().0);
    }
}

proof fn lemma_apply_injective(s: CubeSymmetry, p: Point, q: Point)
    requires
        apply(s, p) == apply(s, q),
    ensures
        p == q,
{
}

proof fn lemma_no_duplicates_by_counts(a: Seq<Point>, b: Seq<Point>)
    requires
        a.no_duplicates(),
        a.to_multiset() == b.to_multiset(),
    ensures
        b.no_duplicates(),
{
    a.lemma_multiset_has_no_duplicates();
    b.lemma_multiset_has_no_duplicates_conv();
}

/// An orientation of distinct cells has distinct cells.
proof fn lemma_orient_distinct(cells: Seq<Point>, s: CubeSymmetry)
    requires
        cells.no_duplicates(),
        cells.len() > 0,
    ensures
        orient(cells, s).no_duplicates(),
{
    let moved = transform_cells(cells, s);
    assert forall|i: int, j: int| 0 <= i < moved.len() && 0 <= j < moved.len() && i != j implies moved[i]
        != moved[j] by {
        if moved[i] == moved[j] {
            lemma_apply_injective(s, cells[i], cells[j]);
        }
    }
    let sorted = sort_cells(moved);
    lemma_sort_cells(moved);
    lemma_no_duplicates_by_counts(moved, sorted);
    let o = orient(cells, s);
    assert forall|i: int, j: int| 0 <= i < o.len() && 0 <= j < o.len() && i != j implies o[i]
        != o[j] by {
        assert(sorted[i] != sorted[j]);
    }
}

/// Placing removes the piece's cells from the count and leaves the rest.
proof fn lemma_place_counts(target: Seq<Point>, cells: Seq<Point>, x: Point)
    ensures
        place_cells(target, cells).to_multiset().count(x) == if cells.contains(x) {
            0
        } else {
            target.to_multiset().count(x)
        },
    decreases target.len(),
{
    if target.len() > 0 {
        lemma_place_counts(target.drop_last(), cells, x);
        assert(target =~= target.drop_last().push(target.last()));
    }
}

/// Placing keeps the target free of repeated cells.
proof fn lemma_place_distinct(target: Seq<Point>, cells: Seq<Point>)
    requires
        target.no_duplicates(),
    ensures
        place_cells(target, cells).no_duplicates(),
{
    target.lemma_multiset_has_no_duplicates();
    let placed = place_cells(target, cells);
    assert forall|x: Point| placed.to_multiset().contains(x) implies placed.to_multiset().count(x)
        == 1 by {
        lemma_place_counts(target, cells, x);
    }
    placed.lemma_multiset_has_no_duplicates_conv();
}

/// A fitting piece of distinct cells together with what is left after
/// placing it holds exactly the target's cells.
proof fn lemma_place_split(target: Seq<Point>, cells: Seq<Point>)
    requires
        target.no_duplicates(),
        cells.no_duplicates(),
        fits_cells(target, cells),
    ensures
        (cells + place_cells(target, cells)).to_multiset() == target.to_multiset(),
{
    let placed = place_cells(target, cells);
    vstd::seq_lib::lemma_multiset_commutative(cells, placed);
    target.lemma_multiset_has_no_duplicates();
    cells.lemma_multiset_has_no_duplicates();
    assert forall|x: Point| #[trigger] (cells + placed).to_multiset().count(x)
        == target.to_multiset().count(x) by {
        lemma_place_counts(target, cells, x);
        if cells.contains(x) {
            let k = choose|k: int| 0 <= k < cells.len() && cells[k] == x;
            assert(target.contains(cells[k]));
        }
    }
    assert((cells + placed).to_multiset() =~= target.to_multiset());
}

/// Every packing the search reports covers its target exactly: it extends
/// the partial solution with pieces that together hold each cell of the
/// target once.
pub proof fn lemma_solutions_cover_target(
    target: Seq<Point>,
    bag: BagModel,
    partial: Seq<PieceModel>,
    k: int,
)
    requires
        target.no_duplicates(),
        valid_bag(bag),
        distinct_templates(bag),
        0 <= k < solutions(target, bag, partial).len(),
    ensures
        covers_exactly(target, partial, solutions(target, bag, partial)[k]),
    decreases bag_weight(bag), 1int, 0int, 0int,
{
    if target.len() == 0 {
        let sol = partial;
        assert(sol.subrange(0, partial.len() as int) =~= partial);
        assert(sol.subrange(partial.len() as int, sol.len() as int) =~= Seq::<PieceModel>::empty());
        assert(target.to_multiset() =~= Seq::<Point>::empty().to_multiset());
    } else {
        lemma_search_covers_target(target, bag, partial, least(target), 0, 0, k);
    }
}

proof fn lemma_search_covers_target(
    target: Seq<Point>,
    bag: BagModel,
    partial: Seq<PieceModel>,
    open: Point,
    i: int,
    j: int,
    k: int,
)
    requires
        target.no_duplicates(),
        valid_bag(bag),
        distinct_templates(bag),
        0 <= k < search_from(target, bag, partial, open, i, j).len(),
    ensures
        covers_exactly(target, partial, search_from(target, bag, partial, open, i, j)[k]),
    decreases bag_weight(bag), 0int, bag.len() - i, orientation_pieces(bag[i].1).len()
        - j,
{
    if i < 0 || i >= bag.len() {
    } else if bag[i].0 <= 0 || j < 0 || j >= orientation_pieces(bag[i].1).len() {
        lemma_search_covers_target(target, bag, partial, open, i + 1, 0, k);
    } else {
        let t = bag[i].1;
        let piece = anchor(orientation_pieces(t)[j], open);
        let later = search_from(target, bag, partial, open, i, j + 1);
        if fits_cells(target, piece.0) {
            let rest = select(bag, i);
            let placed = place_cells(target, piece.0);
            let extended = partial.push(piece);
            let first = solutions(placed, rest, extended);
            if k < first.len() {
                lemma_select_weight(bag, i);
                assert(valid_bag(rest) && distinct_templates(rest)) by {
                    assert forall|m: int| 0 <= m < rest.len() implies valid_cells(
                        #[trigger] rest[m].1.0,
                    ) && rest[m].1.0.no_duplicates() by {
                        if bag[i].0 > 1 {
                            assert(rest[m].1 == bag[m].1);
                        } else if m == i {
                            assert(rest[m].1 == bag[bag.len() - 1].1);
                        } else {
                            assert(rest[m].1 == bag[m].1);
                        }
                    }
                }
                lemma_orientations_are_orientations(t.0, SYMMETRY_COUNT as nat, j);
                let s = choose|s: CubeSymmetry| orientations(t.0)[j] == orient(t.0, s);
                lemma_orient_facts(t.0, s);
                lemma_orient_distinct(t.0, s);
                let o = orientations(t.0)[j];
                assert forall|a: int, b: int|
                    0 <= a < piece.0.len() && 0 <= b < piece.0.len() && a != b implies piece.0[a]
                    != piece.0[b] by {
                    assert(o[a] != o[b]);
                }
                lemma_place_distinct(target, piece.0);
                lemma_solutions_cover_target(placed, rest, extended, k);
                let sol = first[k];
                assert(search_from(target, bag, partial, open, i, j)[k] == sol);
                let tail = sol.subrange(extended.len() as int, sol.len() as int);
                let whole = sol.subrange(partial.len() as int, sol.len() as int);
                assert(sol.subrange(0, partial.len() as int) =~= partial) by {
                    assert(sol.subrange(0, extended.len() as int) == extended);
                }
                assert(whole =~= seq![piece] + tail) by {
                    assert(sol.subrange(0, extended.len() as int) == extended);
                    assert(sol[partial.len() as int] == extended[partial.len() as int]);
                }
                lemma_all_cells_prepend(piece, tail);
                vstd::seq_lib::lemma_multiset_commutative(piece.0, all_cells(tail));
                vstd::seq_lib::lemma_multiset_commutative(piece.0, placed);
                lemma_place_split(target, piece.0);
            } else {
                lemma_search_covers_target(target, bag, partial, open, i, j + 1, k - first.len());
                assert(search_from(target, bag, partial, open, i, j)[k] == later[k - first.len()]);
            }
        } else {
            lemma_search_covers_target(target, bag, partial, open, i, j + 1, k);
        }
    }
}

/// `p` is a copy of `t`, rotated and moved: a translate of one of its
/// orientations, with its name.
pub open spec fn is_copy_of(p: PieceModel, t: TemplateModel) -> bool {
    &&& p.1 == t.1
    &&& exists|s: CubeSymmetry, d: Point| p.0 == translate_cells(orient(t.0, s), d)
}

/// Each piece is a copy of a template of the bag, and together they use
/// every copy the bag holds exactly once.
pub open spec fn drawn_from(pieces: Seq<PieceModel>, bag: BagModel) -> bool {
    exists|used: Seq<TemplateModel>|
        {
            &&& used.len() == pieces.len()
            &&& used.to_multiset() == bag_multiset(bag)
            &&& forall|k: int| 0 <= k < pieces.len() ==> is_copy_of(#[trigger] pieces[k], used[k])
        }
}

/// The pieces each reported packing adds are copies of the bag's templates,
/// using each copy the bag holds exactly once.
pub proof fn lemma_solutions_draw_from_bag(
    target: Seq<Point>,
    bag: BagModel,
    partial: Seq<PieceModel>,
    k: int,
)
    requires
        valid_bag(bag),
        0 <= k < solutions(target, bag, partial).len(),
    ensures
        partial.len() <= solutions(target, bag, partial)[k].len(),
        solutions(target, bag, partial)[k].subrange(0, partial.len() as int) == partial,
        drawn_from(
            solutions(target, bag, partial)[k].subrange(
                partial.len() as int,
                solutions(target, bag, partial)[k].len() as int,
            ),
            bag,
        ),
    decreases bag_weight(bag), 1int, 0int, 0int,
{
    if target.len() == 0 {
        let sol = partial;
        assert(sol.subrange(0, partial.len() as int) =~= partial);
        let none = Seq::<TemplateModel>::empty();
        lemma_no_copies_empty(bag);
        assert(none.to_multiset() =~= bag_multiset(bag));
        assert(sol.subrange(partial.len() as int, sol.len() as int).len() == 0);
        assert(drawn_from(sol.subrange(partial.len() as int, sol.len() as int), bag)) by {
            assert(none.len() == 0);
        }
    } else {
        lemma_search_draws_from_bag(target, bag, partial, least(target), 0, 0, k);
    }
}

proof fn lemma_search_draws_from_bag(
    target: Seq<Point>,
    bag: BagModel,
    partial: Seq<PieceModel>,
    open: Point,
    i: int,
    j: int,
    k: int,
)
    requires
        valid_bag(bag),
        0 <= k < search_from(target, bag, partial, open, i, j).len(),
    ensures
        partial.len() <= search_from(target, bag, partial, open, i, j)[k].len(),
        search_from(target, bag, partial, open, i, j)[k].subrange(0, partial.len() as int)
            == partial,
        drawn_from(
            search_from(target, bag, partial, open, i, j)[k].subrange(
                partial.len() as int,
                search_from(target, bag, partial, open, i, j)[k].len() as int,
            ),
            bag,
        ),
    decreases bag_weight(bag), 0int, bag.len() - i, orientation_pieces(bag[i].1).len() - j,
{
    if i < 0 || i >= bag.len() {
    } else if bag[i].0 <= 0 || j < 0 || j >= orientation_pieces(bag[i].1).len() {
        lemma_search_draws_from_bag(target, bag, partial, open, i + 1, 0, k);
    } else {
        let t = bag[i].1;
        let piece = anchor(orientation_pieces(t)[j], open);
        let later = search_from(target, bag, partial, open, i, j + 1);
        if fits_cells(target, piece.0) {
            let rest = select(bag, i);
            let placed = place_cells(target, piece.0);
            let extended = partial.push(piece);
            let first = solutions(placed, rest, extended);
            if k < first.len() {
                lemma_select_weight(bag, i);
                lemma_select_multiset(bag, i);
                assert(valid_bag(rest)) by {
                    assert forall|m: int| 0 <= m < rest.len() implies valid_cells(
                        #[trigger] rest[m].1.0,
                    ) by {
                        if bag[i].0 > 1 {
                            assert(rest[m].1 == bag[m].1);
                        } else if m == i {
                            assert(rest[m].1 == bag[bag.len() - 1].1);
                        } else {
                            assert(rest[m].1 == bag[m].1);
                        }
                    }
                }
                lemma_solutions_draw_from_bag(placed, rest, extended, k);
                let sol = first[k];
                assert(search_from(target, bag, partial, open, i, j)[k] == sol);
                let tail = sol.subrange(extended.len() as int, sol.len() as int);
                let whole = sol.subrange(partial.len() as int, sol.len() as int);
                assert(sol.subrange(0, extended.len() as int) == extended);
                assert(sol.subrange(0, partial.len() as int) =~= partial);
                assert(whole =~= seq![piece] + tail) by {
                    assert(sol[partial.len() as int] == extended[partial.len() as int]);
                }
                let used_rest = choose|used: Seq<TemplateModel>|
                    {
                        &&& used.len() == tail.len()
                        &&& used.to_multiset() == bag_multiset(rest)
                        &&& forall|m: int|
                            0 <= m < tail.len() ==> is_copy_of(#[trigger] tail[m], used[m])
                    };
                let used = seq![t] + used_rest;
                lemma_orientations_are_orientations(t.0, SYMMETRY_COUNT as nat, j);
                let s = choose|s: CubeSymmetry| orientations(t.0)[j] == orient(t.0, s);
                let o = orientations(t.0)[j];
                assert(piece.0 == translate_cells(orient(t.0, s), point_sub(open, o[0])));
                assert(is_copy_of(piece, t));
                assert forall|m: int| 0 <= m < whole.len() implies is_copy_of(
                    #[trigger] whole[m],
                    used[m],
                ) by {
                    if m > 0 {
                        assert(whole[m] == tail[m - 1]);
                        assert(used[m] == used_rest[m - 1]);
                    }
                }
                vstd::seq_lib::lemma_multiset_commutative(seq![t], used_rest);
                assert(seq![t].to_multiset() =~= vstd::multiset::Multiset::singleton(t)) by {
                    assert(seq![t] =~= Seq::<TemplateModel>::empty().push(t));
                }
                assert(used.to_multiset() =~= bag_multiset(bag)) by {
                    assert forall|x: TemplateModel| #[trigger] used.to_multiset().count(x)
                        == bag_multiset(bag).count(x) by {
                        assert(used_rest.to_multiset().count(x) == bag_multiset(rest).count(x));
                    }
                }
                assert(drawn_from(whole, bag));
            } else {
                lemma_search_draws_from_bag(target, bag, partial, open, i, j + 1, k - first.len());
                assert(search_from(target, bag, partial, open, i, j)[k] == later[k - first.len()]);
            }
        } else {
            lemma_search_draws_from_bag(target, bag, partial, open, i, j + 1, k);
        }
    }
}

/// A non-empty list of cells has a least cell.
pub proof fn lemma_least_exists(cells: Seq<Point>)
    requires
        cells.len() > 0,
    ensures
        is_least(cells, least(cells)),
    decreases cells.len(),
{
    if cells.len() == 1 {
        assert(is_least(cells, cells[0]));
    } else {
        let init = cells.drop_last();
        lemma_least_exists(init);
        let m = least(init);
        let x = cells.last();
        if point_le(m, x) {
            assert(is_least(cells, m)) by {
                let i = choose|i: int| 0 <= i < init.len() && init[i] == m;
                assert(cells[i] == m);
                assert forall|k: int| 0 <= k < cells.len() implies point_le(m, #[trigger] cells[k]) by {
                    if k < init.len() {
                        assert(cells[k] == init[k]);
                    }
                }
            }
        } else {
            assert(is_least(cells, x)) by {
                assert(cells[cells.len() - 1] == x);
                assert forall|k: int| 0 <= k < cells.len() implies point_le(x, #[trigger] cells[k]) by {
                    if k < init.len() {
                        assert(cells[k] == init[k]);
                        assert(point_le(m, init[k]));
                    }
                }
            }
        }
    }
}

/// Every orientation of a template is among those the generator lists.
pub proof fn lemma_orient_listed(cells: Seq<Point>, s: CubeSymmetry)
    ensures
        exists|j: int| 0 <= j < orientations(cells).len() && #[trigger] orientations(cells)[j]
            == orient(cells, s),
{
    let idx = symmetry_index(s);
    lemma_symmetry_order(s, 0);
    let o = orient(cells, s);
    let upto = orientations_upto(cells, (idx + 1) as nat);
    assert(upto.contains(o)) by {
        let earlier = orientations_upto(cells, idx as nat);
        if !earlier.contains(o) {
            assert(upto[earlier.len() as int] == o);
        }
        else {
            let q = choose|q: int| 0 <= q < earlier.len() && earlier[q] == o;
            assert(upto[q] == o);
        }
    }
    lemma_orientations_prefix(cells, (idx + 1) as nat, SYMMETRY_COUNT as nat);
    let q = choose|q: int| 0 <= q < upto.len() && upto[q] == o;
    assert(orientations(cells).subrange(0, upto.len() as int)[q] == orientations(cells)[q]);
}

/// The cells of a list of pieces, counted, are those of one piece and those
/// of the others.
proof fn lemma_all_cells_remove(ps: Seq<PieceModel>, m: int)
    requires
        0 <= m < ps.len(),
    ensures
        all_cells(ps).to_multiset() == all_cells(ps.remove(m)).to_multiset().add(
            ps[m].0.to_multiset(),
        ),
    decreases ps.len(),
{
    let init = ps.drop_last();
    vstd::seq_lib::lemma_multiset_commutative(all_cells(init), ps.last().0);
    if m == ps.len() - 1 {
        assert(ps.remove(m) =~= init);
    } else {
        lemma_all_cells_remove(init, m);
        let r = ps.remove(m);
        assert(r.drop_last() =~= init.remove(m));
        assert(r.last() == ps.last());
        vstd::seq_lib::lemma_multiset_commutative(all_cells(init.remove(m)), ps.last().0);
        assert(all_cells(ps).to_multiset() =~= all_cells(r).to_multiset().add(
            ps[m].0.to_multiset(),
        ));
    }
}

/// A cell of the list of pieces is a cell of one of them.
proof fn lemma_all_cells_member(ps: Seq<PieceModel>, x: Point)
    requires
        all_cells(ps).contains(x),
    ensures
        exists|m: int| 0 <= m < ps.len() && (#[trigger] ps[m]).0.contains(x),
    decreases ps.len(),
{
    let init = ps.drop_last();
    vstd::seq_lib::lemma_multiset_commutative(all_cells(init), ps.last().0);
    assert(all_cells(ps).to_multiset().count(x) > 0);
    if ps.last().0.to_multiset().count(x) > 0 {
        assert(ps[ps.len() - 1].0.contains(x));
    } else {
        assert(all_cells(init).to_multiset().count(x) > 0);
        lemma_all_cells_member(init, x);
        let m = choose|m: int| 0 <= m < init.len() && (#[trigger] init[m]).0.contains(x);
        assert(ps[m] == init[m]);
    }
}

/// Taking a copy from a valid bag of distinct templates keeps both properties.
proof fn lemma_select_keeps(bag: BagModel, i: int)
    requires
        0 <= i < bag.len(),
        valid_bag(bag),
        distinct_templates(bag),
    ensures
        valid_bag(select(bag, i)),
        distinct_templates(select(bag, i)),
{
    let rest = select(bag, i);
    assert forall|m: int| 0 <= m < rest.len() implies valid_cells(#[trigger] rest[m].1.0)
        && rest[m].1.0.no_duplicates() by {
        if bag[i].0 > 1 {
            assert(rest[m].1 == bag[m].1);
        } else if m == i {
            assert(rest[m].1 == bag[bag.len() - 1].1);
        } else {
            assert(rest[m].1 == bag[m].1);
        }
    }
}

/// The search from entry `i0`, orientation `j0`, includes every packing found
/// by placing any later orientation of any later entry.
proof fn lemma_search_includes(
    target: Seq<Point>,
    bag: BagModel,
    partial: Seq<PieceModel>,
    open: Point,
    i0: int,
    j0: int,
    i: int,
    j: int,
    k: int,
)
    requires
        0 <= i0 <= i < bag.len(),
        0 <= j0,
        i0 == i ==> j0 <= j,
        bag[i].0 > 0,
        0 <= j < orientation_pieces(bag[i].1).len(),
        fits_cells(target, anchor(orientation_pieces(bag[i].1)[j], open).0),
        0 <= k < solutions(
            place_cells(target, anchor(orientation_pieces(bag[i].1)[j], open).0),
            select(bag, i),
            partial.push(anchor(orientation_pieces(bag[i].1)[j], open)),
        ).len(),
    ensures
        exists|q: int|
            0 <= q < search_from(target, bag, partial, open, i0, j0).len() && #[trigger] search_from(
                target,
                bag,
                partial,
                open,
                i0,
                j0,
            )[q] == solutions(
                place_cells(target, anchor(orientation_pieces(bag[i].1)[j], open).0),
                select(bag, i),
                partial.push(anchor(orientation_pieces(bag[i].1)[j], open)),
            )[k],
    decreases bag.len() - i0, orientation_pieces(bag[i0].1).len() - j0,
{
    let here = search_from(target, bag, partial, open, i0, j0);
    let wanted = solutions(
        place_cells(target, anchor(orientation_pieces(bag[i].1)[j], open).0),
        select(bag, i),
        partial.push(anchor(orientation_pieces(bag[i].1)[j], open)),
    )[k];
    if bag[i0].0 <= 0 || j0 >= orientation_pieces(bag[i0].1).len() {
        lemma_search_includes(target, bag, partial, open, i0 + 1, 0, i, j, k);
        assert(here == search_from(target, bag, partial, open, i0 + 1, 0));
    } else {
        let piece = anchor(orientation_pieces(bag[i0].1)[j0], open);
        let later = search_from(target, bag, partial, open, i0, j0 + 1);
        let first = if fits_cells(target, piece.0) {
            solutions(place_cells(target, piece.0), select(bag, i0), partial.push(piece))
        } else {
            Seq::empty()
        };
        assert(here == first + later);
        if i0 == i && j0 == j {
            assert(here[k] == wanted);
        } else {
            lemma_search_includes(target, bag, partial, open, i0, j0 + 1, i, j, k);
            let q = choose|q: int| 0 <= q < later.len() && #[trigger] later[q] == wanted;
            assert(here[first.len() + q] == wanted);
        }
    }
}

proof fn lemma_count_in_entry(b: BagModel, i: int)
    requires
        0 <= i < b.len(),
        b[i].0 > 0,
    ensures
        count_in(b, b[i].1) >= b[i].0,
    decreases b.len(),
{
    lemma_count_in_nonnegative(b.drop_last(), b[i].1);
    if i < b.len() - 1 {
        lemma_count_in_entry(b.drop_last(), i);
        assert(b.drop_last()[i] == b[i]);
    }
}

proof fn lemma_count_in_nonnegative(b: BagModel, t: TemplateModel)
    ensures
        count_in(b, t) >= 0,
    decreases b.len(),
{
    if b.len() > 0 {
        lemma_count_in_nonnegative(b.drop_last(), t);
    }
}

/// `sol` is `partial` followed by the pieces of `pieces`, in some order.
pub open spec fn found_as(partial: Seq<PieceModel>, pieces: Seq<PieceModel>, sol: Seq<PieceModel>) -> bool {
    &&& partial.len() <= sol.len()
    &&& sol.subrange(0, partial.len() as int) == partial
    &&& sol.subrange(partial.len() as int, sol.len() as int).to_multiset() == pieces.to_multiset()
}

/// The piece `m` of a cover drawn from the bag is a copy of a template that
/// an entry of the bag holds.
proof fn lemma_piece_source(bag: BagModel, pieces: Seq<PieceModel>, used: Seq<TemplateModel>, m: int)
    requires
        0 <= m < pieces.len(),
        used.len() == pieces.len(),
        used.to_multiset() == bag_multiset(bag),
        valid_bag(bag),
    ensures
        exists|i: int| 0 <= i < bag.len() && #[trigger] bag[i].1 == used[m] && bag[i].0 > 0,
        valid_cells(used[m].0),
{
    assert(used.to_multiset().count(used[m]) > 0) by {
        assert(used.contains(used[m]));
    }
    lemma_count_in(bag, used[m]);
    let i = choose|i: int| 0 <= i < bag.len() && #[trigger] bag[i].1 == used[m] && bag[i].0 > 0;
}

/// Every exact cover is found: pieces that are copies of the bag's
/// templates, using each copy the bag holds once, and that together hold each
/// cell of the target once, appear in some order after `partial` in one of
/// the packings the search reports.
pub proof fn lemma_every_cover_is_found(
    target: Seq<Point>,
    bag: BagModel,
    partial: Seq<PieceModel>,
    pieces: Seq<PieceModel>,
)
    requires
        target.no_duplicates(),
        valid_bag(bag),
        distinct_templates(bag),
        all_cells(pieces).to_multiset() == target.to_multiset(),
        drawn_from(pieces, bag),
    ensures
        exists|k: int|
            0 <= k < solutions(target, bag, partial).len() && found_as(
                partial,
                pieces,
                #[trigger] solutions(target, bag, partial)[k],
            ),
    decreases bag_weight(bag),
{
    let used = choose|used: Seq<TemplateModel>|
        {
            &&& used.len() == pieces.len()
            &&& used.to_multiset() == bag_multiset(bag)
            &&& forall|k: int| 0 <= k < pieces.len() ==> is_copy_of(#[trigger] pieces[k], used[k])
        };
    if target.len() == 0 {
        if pieces.len() > 0 {
            lemma_piece_source(bag, pieces, used, 0);
            let t = used[0];
            assert(is_copy_of(pieces[0], t));
            let (sym, d) = choose|sym: CubeSymmetry, d: Point|
                pieces[0].0 == translate_cells(orient(t.0, sym), d);
            lemma_orient_facts(t.0, sym);
            let x = pieces[0].0[0];
            assert(pieces[0].0.contains(x));
            lemma_all_cells_remove(pieces, 0);
            assert(pieces[0].0.to_multiset().count(x) > 0);
            assert(target.to_multiset().count(x) > 0);
            assert(false);
        }
        assert(used.to_multiset() =~= vstd::multiset::Multiset::empty());
        assert(no_copies(bag)) by {
            assert forall|i: int| 0 <= i < bag.len() implies #[trigger] bag[i].0 <= 0 by {
                if bag[i].0 > 0 {
                    lemma_count_in_entry(bag, i);
                    lemma_count_in(bag, bag[i].1);
                }
            }
        }
        let sol = partial;
        assert(solutions(target, bag, partial)[0] == sol);
        assert(sol.subrange(0, partial.len() as int) =~= partial);
        assert(sol.subrange(partial.len() as int, sol.len() as int) =~= pieces);
        assert(found_as(partial, pieces, solutions(target, bag, partial)[0]));
    } else {
        lemma_least_exists(target);
        let open = least(target);
        assert(target.to_multiset().count(open) > 0);
        assert(all_cells(pieces).contains(open));
        lemma_all_cells_member(pieces, open);
        let m = choose|m: int| 0 <= m < pieces.len() && (#[trigger] pieces[m]).0.contains(open);
        let p = pieces[m];
        let t = used[m];
        lemma_piece_source(bag, pieces, used, m);
        let i = choose|i: int| 0 <= i < bag.len() && #[trigger] bag[i].1 == t && bag[i].0 > 0;
        assert(t.0.no_duplicates());
        assert(is_copy_of(p, t));
        let (sym, d) = choose|sym: CubeSymmetry, d: Point| p.0 == translate_cells(orient(t.0, sym), d);
        let o = orient(t.0, sym);
        lemma_orient_facts(t.0, sym);
        lemma_orient_distinct(t.0, sym);
        lemma_all_cells_remove(pieces, m);
        // every cell of the piece is a cell of the target
        assert forall|q: int| 0 <= q < p.0.len() implies target.contains(#[trigger] p.0[q]) by {
            assert(p.0.contains(p.0[q]));
            assert(p.0.to_multiset().count(p.0[q]) > 0);
            assert(target.to_multiset().count(p.0[q]) > 0);
        }
        // its least cell is the target's least cell
        let a = choose|a: int| 0 <= a < p.0.len() && p.0[a] == open;
        assert(p.0[0] == d);
        assert(point_le(o[0], o[a]));
        assert(point_le(d, open));
        assert(target.contains(p.0[0]));
        let z = choose|z: int| 0 <= z < target.len() && target[z] == d;
        assert(point_le(open, target[z]));
        assert(d == open);
        lemma_orient_listed(t.0, sym);
        let j = choose|j: int| 0 <= j < orientations(t.0).len() && #[trigger] orientations(t.0)[j] == o;
        assert(orientation_pieces(t)[j] == (o, t.1));
        assert(anchor(orientation_pieces(t)[j], open) == p);
        assert forall|x: int, y: int| 0 <= x < p.0.len() && 0 <= y < p.0.len() && x != y implies p.0[x]
            != p.0[y] by {
            assert(o[x] != o[y]);
        }
        let placed = place_cells(target, p.0);
        lemma_place_split(target, p.0);
        lemma_place_distinct(target, p.0);
        vstd::seq_lib::lemma_multiset_commutative(p.0, placed);
        let rest_pieces = pieces.remove(m);
        let rest_used = used.remove(m);
        assert(all_cells(rest_pieces).to_multiset() =~= placed.to_multiset()) by {
            assert forall|x: Point| #[trigger] all_cells(rest_pieces).to_multiset().count(x)
                == placed.to_multiset().count(x) by {
                assert(all_cells(pieces).to_multiset().count(x) == target.to_multiset().count(x));
                assert((p.0 + placed).to_multiset().count(x) == target.to_multiset().count(x));
            }
        }
        let rest = select(bag, i);
        lemma_select_multiset(bag, i);
        lemma_select_keeps(bag, i);
        lemma_select_weight(bag, i);
        assert(rest_used.to_multiset() == used.to_multiset().remove(t));
        assert forall|q: int| 0 <= q < rest_pieces.len() implies is_copy_of(
            #[trigger] rest_pieces[q],
            rest_used[q],
        ) by {
            if q < m {
                assert(rest_pieces[q] == pieces[q] && rest_used[q] == used[q]);
            } else {
                assert(rest_pieces[q] == pieces[q + 1] && rest_used[q] == used[q + 1]);
            }
        }
        assert(drawn_from(rest_pieces, rest));
        let extended = partial.push(p);
        lemma_every_cover_is_found(placed, rest, extended, rest_pieces);
        let first = solutions(placed, rest, extended);
        let k1 = choose|k1: int| 0 <= k1 < first.len() && found_as(extended, rest_pieces, #[trigger] first[k1]);
        lemma_search_includes(target, bag, partial, open, 0, 0, i, j, k1);
        let all = solutions(target, bag, partial);
        assert(all == search_from(target, bag, partial, open, 0, 0));
        let q = choose|q: int| 0 <= q < all.len() && #[trigger] all[q] == first[k1];
        let sol = first[k1];
        let tail = sol.subrange(extended.len() as int, sol.len() as int);
        let whole = sol.subrange(partial.len() as int, sol.len() as int);
        assert(sol.subrange(0, extended.len() as int) == extended);
        assert(sol.subrange(0, partial.len() as int) =~= partial);
        assert(whole =~= seq![p] + tail) by {
            assert(sol[partial.len() as int] == extended[partial.len() as int]);
        }
        vstd::seq_lib::lemma_multiset_commutative(seq![p], tail);
        assert(seq![p] =~= Seq::<PieceModel>::empty().push(p));
        assert(rest_pieces.to_multiset() == pieces.to_multiset().remove(p));
        assert(pieces.to_multiset().count(p) > 0) by {
            assert(pieces.contains(p));
        }
        assert(whole.to_multiset() =~= pieces.to_multiset());
        assert(found_as(partial, pieces, all[q]));
    }
}

/// A bag holding a single copy of one template whose cell count differs from
/// the target's yields no packing: a target of four cells cannot take a
/// piece of five.
pub proof fn lemma_single_piece_size_mismatch(
    target: Seq<Point>,
    t: TemplateModel,
    partial: Seq<PieceModel>,
)
    requires
        target.no_duplicates(),
        valid_cells(t.0),
        t.0.no_duplicates(),
        t.0.len() != target.len(),
    ensures
        solutions(target, seq![(1int, t)], partial).len() == 0,
{
    let bag = seq![(1int, t)];
    assert(valid_bag(bag) && distinct_templates(bag));
    if solutions(target, bag, partial).len() > 0 {
        lemma_solutions_cover_target(target, bag, partial, 0);
        lemma_solutions_draw_from_bag(target, bag, partial, 0);
        let sol = solutions(target, bag, partial)[0];
        let tail = sol.subrange(partial.len() as int, sol.len() as int);
        let used = choose|used: Seq<TemplateModel>|
            {
                &&& used.len() == tail.len()
                &&& used.to_multiset() == bag_multiset(bag)
                &&& forall|k: int| 0 <= k < tail.len() ==> is_copy_of(#[trigger] tail[k], used[k])
            };
        assert(bag.drop_last() =~= Seq::<(int, TemplateModel)>::empty());
        assert(copies(t, 1) == copies(t, 0).insert(t));
        assert(bag_multiset(bag.drop_last()) == vstd::multiset::Multiset::<TemplateModel>::empty());
        assert(bag_multiset(bag) == bag_multiset(bag.drop_last()).add(copies(t, 1)));
        assert(bag_multiset(bag) =~= vstd::multiset::Multiset::<TemplateModel>::empty().insert(t));
        assert(used.len() == 1) by {
            assert(used.to_multiset().len() == used.len());
        }
        assert(used[0] == t) by {
            assert(used.contains(used[0]));
            assert(used.to_multiset().count(used[0]) > 0);
        }
        assert(is_copy_of(tail[0], t));
        let (sym, d) = choose|sym: CubeSymmetry, d: Point|
            tail[0].0 == translate_cells(orient(t.0, sym), d);
        lemma_orient_facts(t.0, sym);
        assert(tail.len() == 1);
        assert(tail.drop_last() =~= Seq::<PieceModel>::empty());
        assert(all_cells(tail.drop_last()) == Seq::<Point>::empty());
        assert(tail.last() == tail[0]);
        assert(all_cells(tail) == all_cells(tail.drop_last()) + tail[0].0);
        assert(all_cells(tail) =~= tail[0].0);
        assert(all_cells(tail).to_multiset().len() == target.to_multiset().len());
        assert(false);
    }
}

/// The cells that one copy of each template of `used` holds, counted together.
pub open spec fn template_cells(used: Seq<TemplateModel>) -> int
    decreases used.len(),
{
    if used.len() == 0 {
        0
    } else {
        template_cells(used.drop_last()) + used.last().0.len()
    }
}

/// The cells that all copies the bag holds have, counted together.
pub open spec fn bag_cells(b: BagModel) -> int
    decreases b.len(),
{
    if b.len() == 0 {
        0
    } else {
        bag_cells(b.drop_last()) + if b.last().0 > 0 {
            b.last().0 * b.last().1.0.len()
        } else {
            0
        }
    }
}

spec fn expand(t: TemplateModel, n: int) -> Seq<TemplateModel>
    decreases n,
{
    if n <= 0 {
        Seq::empty()
    } else {
        expand(t, n - 1).push(t)
    }
}

spec fn expand_bag(b: BagModel) -> Seq<TemplateModel>
    decreases b.len(),
{
    if b.len() == 0 {
        Seq::empty()
    } else {
        expand_bag(b.drop_last()) + expand(b.last().1, b.last().0)
    }
}

proof fn lemma_template_cells_concat(a: Seq<TemplateModel>, c: Seq<TemplateModel>)
    ensures
        template_cells(a + c) == template_cells(a) + template_cells(c),
    decreases c.len(),
{
    if c.len() > 0 {
        lemma_template_cells_concat(a, c.drop_last());
        assert((a + c).drop_last() =~= a + c.drop_last());
        assert((a + c).last() == c.last());
    } else {
        assert(a + c =~= a);
    }
}

proof fn lemma_expand(t: TemplateModel, n: int)
    ensures
        expand(t, n).to_multiset() == copies(t, n),
        template_cells(expand(t, n)) == if n > 0 {
            n * t.0.len()
        } else {
            0
        },
    decreases n,
{
    if n > 0 {
        lemma_expand(t, n - 1);
        assert(expand(t, n).drop_last() =~= expand(t, n - 1));
        assert(n * t.0.len() == (n - 1) * t.0.len() + t.0.len()) by (nonlinear_arith);
        if n - 1 <= 0 {
            assert(n == 1);
        }
    } else {
        assert(expand(t, n).to_multiset() =~= vstd::multiset::Multiset::empty());
    }
}

proof fn lemma_expand_bag(b: BagModel)
    ensures
        expand_bag(b).to_multiset() == bag_multiset(b),
        template_cells(expand_bag(b)) == bag_cells(b),
    decreases b.len(),
{
    if b.len() > 0 {
        lemma_expand_bag(b.drop_last());
        lemma_expand(b.last().1, b.last().0);
        vstd::seq_lib::lemma_multiset_commutative(
            expand_bag(b.drop_last()),
            expand(b.last().1, b.last().0),
        );
        lemma_template_cells_concat(expand_bag(b.drop_last()), expand(b.last().1, b.last().0));
    } else {
        assert(expand_bag(b).to_multiset() =~= vstd::multiset::Multiset::empty());
    }
}

proof fn lemma_template_cells_remove(v: Seq<TemplateModel>, i: int)
    requires
        0 <= i < v.len(),
    ensures
        template_cells(v) == template_cells(v.remove(i)) + v[i].0.len(),
    decreases v.len(),
{
    if i == v.len() - 1 {
        assert(v.remove(i) =~= v.drop_last());
    } else {
        lemma_template_cells_remove(v.drop_last(), i);
        assert(v.remove(i).drop_last() =~= v.drop_last().remove(i));
        assert(v.remove(i).last() == v.last());
    }
}

/// How many cells templates hold together depends only on which templates,
/// and how often, not on their order.
proof fn lemma_template_cells_multiset(u: Seq<TemplateModel>, v: Seq<TemplateModel>)
    requires
        u.to_multiset() == v.to_multiset(),
    ensures
        template_cells(u) == template_cells(v),
    decreases u.len(),
{
    if u.len() == 0 {
        assert(v.to_multiset().len() == 0);
        assert(v.len() == 0);
    } else {
        let x = u.last();
        assert(u =~= u.drop_last().push(x));
        assert(v.to_multiset().count(x) > 0);
        assert(v.contains(x));
        let idx = choose|idx: int| 0 <= idx < v.len() && v[idx] == x;
        assert(v.remove(idx).to_multiset() =~= u.drop_last().to_multiset());
        lemma_template_cells_multiset(u.drop_last(), v.remove(idx));
        lemma_template_cells_remove(v, idx);
    }
}

/// An orientation has as many cells as its template.
proof fn lemma_orient_len(cells: Seq<Point>, s: CubeSymmetry)
    ensures
        orient(cells, s).len() == cells.len(),
{
    lemma_sort_cells(transform_cells(cells, s));
}

proof fn lemma_all_cells_len(ps: Seq<PieceModel>, used: Seq<TemplateModel>)
    requires
        used.len() == ps.len(),
        forall|k: int| 0 <= k < ps.len() ==> is_copy_of(#[trigger] ps[k], used[k]),
    ensures
        all_cells(ps).len() == template_cells(used),
    decreases ps.len(),
{
    if ps.len() > 0 {
        let n = ps.len() - 1;
        assert forall|k: int| 0 <= k < ps.drop_last().len() implies is_copy_of(
            #[trigger] ps.drop_last()[k],
            used.drop_last()[k],
        ) by {
            assert(is_copy_of(ps[k], used[k]));
        }
        lemma_all_cells_len(ps.drop_last(), used.drop_last());
        assert(is_copy_of(ps[n], used[n]));
        let (sym, d) = choose|sym: CubeSymmetry, d: Point|
            ps[n].0 == translate_cells(orient(used[n].0, sym), d);
        lemma_orient_len(used[n].0, sym);
    }
}

/// A bag whose copies hold a different number of cells than the target
/// yields no packing.
pub proof fn lemma_cell_total_mismatch(target: Seq<Point>, bag: BagModel, partial: Seq<PieceModel>)
    requires
        target.no_duplicates(),
        valid_bag(bag),
        distinct_templates(bag),
        bag_cells(bag) != target.len(),
    ensures
        solutions(target, bag, partial).len() == 0,
{
    if solutions(target, bag, partial).len() > 0 {
        lemma_solutions_cover_target(target, bag, partial, 0);
        lemma_solutions_draw_from_bag(target, bag, partial, 0);
        let sol = solutions(target, bag, partial)[0];
        let tail = sol.subrange(partial.len() as int, sol.len() as int);
        let used = choose|used: Seq<TemplateModel>|
            {
                &&& used.len() == tail.len()
                &&& used.to_multiset() == bag_multiset(bag)
                &&& forall|k: int| 0 <= k < tail.len() ==> is_copy_of(#[trigger] tail[k], used[k])
            };
        lemma_all_cells_len(tail, used);
        lemma_expand_bag(bag);
        lemma_template_cells_multiset(used, expand_bag(bag));
        assert(all_cells(tail).to_multiset().len() == target.to_multiset().len());
        assert(false);
    }
}

/// Each reported packing adds exactly one piece per copy the bag holds.
pub proof fn lemma_solution_length(
    target: Seq<Point>,
    bag: BagModel,
    partial: Seq<PieceModel>,
    k: int,
)
    requires
        valid_bag(bag),
        forall|i: int| 0 <= i < bag.len() ==> #[trigger] bag[i].0 >= 0,
        0 <= k < solutions(target, bag, partial).len(),
    ensures
        solutions(target, bag, partial)[k].len() == partial.len() + bag_size(bag),
{
    lemma_solutions_draw_from_bag(target, bag, partial, k);
    let sol = solutions(target, bag, partial)[k];
    let tail = sol.subrange(partial.len() as int, sol.len() as int);
    let used = choose|used: Seq<TemplateModel>|
        {
            &&& used.len() == tail.len()
            &&& used.to_multiset() == bag_multiset(bag)
            &&& forall|m: int| 0 <= m < tail.len() ==> is_copy_of(#[trigger] tail[m], used[m])
        };
    lemma_bag_multiset_len(bag);
    assert(used.to_multiset().len() == used.len());
}

/// The cells of `target` left open after placing `ps`, first to last.
pub open spec fn remaining(target: Seq<Point>, ps: Seq<PieceModel>) -> Seq<Point>
    decreases ps.len(),
{
    if ps.len() == 0 {
        target
    } else {
        remaining(place_cells(target, ps[0].0), ps.drop_first())
    }
}

/// Every piece a reported packing adds starts at the least cell left open
/// when it is placed: its first cell is the least cell of what the pieces
/// before it leave of the target.
pub proof fn lemma_pieces_fill_least_cell(
    target: Seq<Point>,
    bag: BagModel,
    partial: Seq<PieceModel>,
    k: int,
    n: int,
)
    requires
        valid_bag(bag),
        0 <= k < solutions(target, bag, partial).len(),
        partial.len() <= n < solutions(target, bag, partial)[k].len(),
    ensures
        solutions(target, bag, partial)[k][n].0.len() > 0,
        is_least(
            remaining(
                target,
                solutions(target, bag, partial)[k].subrange(partial.len() as int, n),
            ),
            solutions(target, bag, partial)[k][n].0[0],
        ),
    decreases bag_weight(bag), 1int, 0int, 0int,
{
    if target.len() == 0 {
        assert(solutions(target, bag, partial)[k] == partial);
    } else {
        lemma_least_exists(target);
        lemma_search_fills_least_cell(target, bag, partial, least(target), 0, 0, k, n);
    }
}

proof fn lemma_search_fills_least_cell(
    target: Seq<Point>,
    bag: BagModel,
    partial: Seq<PieceModel>,
    open: Point,
    i: int,
    j: int,
    k: int,
    n: int,
)
    requires
        valid_bag(bag),
        is_least(target, open),
        0 <= k < search_from(target, bag, partial, open, i, j).len(),
        partial.len() <= n < search_from(target, bag, partial, open, i, j)[k].len(),
    ensures
        search_from(target, bag, partial, open, i, j)[k][n].0.len() > 0,
        is_least(
            remaining(
                target,
                search_from(target, bag, partial, open, i, j)[k].subrange(partial.len() as int, n),
            ),
            search_from(target, bag, partial, open, i, j)[k][n].0[0],
        ),
    decreases bag_weight(bag), 0int, bag.len() - i, orientation_pieces(bag[i].1).len() - j,
{
    if i < 0 || i >= bag.len() {
    } else if bag[i].0 <= 0 || j < 0 || j >= orientation_pieces(bag[i].1).len() {
        lemma_search_fills_least_cell(target, bag, partial, open, i + 1, 0, k, n);
    } else {
        let t = bag[i].1;
        let piece = anchor(orientation_pieces(t)[j], open);
        let later = search_from(target, bag, partial, open, i, j + 1);
        if fits_cells(target, piece.0) {
            let rest = select(bag, i);
            let placed = place_cells(target, piece.0);
            let extended = partial.push(piece);
            let first = solutions(placed, rest, extended);
            if k < first.len() {
                let sol = first[k];
                assert(search_from(target, bag, partial, open, i, j)[k] == sol);
                lemma_select_weight(bag, i);
                lemma_select_keeps_valid(bag, i);
                lemma_solutions_draw_from_bag(placed, rest, extended, k);
                assert(sol.subrange(0, extended.len() as int) == extended);
                assert(sol[partial.len() as int] == piece) by {
                    assert(sol.subrange(0, extended.len() as int)[partial.len() as int] == extended[partial.len() as int]);
                }
                lemma_orientations_are_orientations(t.0, SYMMETRY_COUNT as nat, j);
                let s = choose|s: CubeSymmetry| orientations(t.0)[j] == orient(t.0, s);
                lemma_orient_len(t.0, s);
                let o = orientations(t.0)[j];
                assert(piece.0[0] == open);
                if n == partial.len() {
                    assert(sol.subrange(partial.len() as int, n) =~= Seq::<PieceModel>::empty());
                } else {
                    lemma_select_weight(bag, i);
                    lemma_select_keeps_valid(bag, i);
                    lemma_pieces_fill_least_cell(placed, rest, extended, k, n);
                    let before = sol.subrange(partial.len() as int, n);
                    assert(before[0] == piece);
                    assert(before.drop_first() =~= sol.subrange(extended.len() as int, n));
                    assert(remaining(target, before) == remaining(placed, before.drop_first()));
                }
            } else {
                lemma_search_fills_least_cell(target, bag, partial, open, i, j + 1, k - first.len(), n);
                assert(search_from(target, bag, partial, open, i, j)[k] == later[k - first.len()]);
            }
        } else {
            lemma_search_fills_least_cell(target, bag, partial, open, i, j + 1, k, n);
        }
    }
}

proof fn lemma_select_keeps_valid(bag: BagModel, i: int)
    requires
        0 <= i < bag.len(),
        valid_bag(bag),
    ensures
        valid_bag(select(bag, i)),
{
    let rest = select(bag, i);
    assert forall|m: int| 0 <= m < rest.len() implies valid_cells(#[trigger] rest[m].1.0) by {
        if bag[i].0 > 1 {
            assert(rest[m].1 == bag[m].1);
        } else if m == i {
            assert(rest[m].1 == bag[bag.len() - 1].1);
        } else {
            assert(rest[m].1 == bag[m].1);
        }
    }
}

} // verus!
