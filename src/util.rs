//! Utilities for creating `Target`s.
use vstd::prelude::*;
use crate::geometry::{points, small_point, Point, Position};
use crate::solver::{valid_target, Target};

verus! {

/// The cells `(x, y, 0)`, ..., `(x, y, d - 1)`.
pub open spec fn line_cells(x: int, y: int, d: nat) -> Seq<Point>
    decreases d,
{
    if d == 0 {
        Seq::empty()
    } else {
        line_cells(x, y, (d - 1) as nat).push((x, y, (d - 1) as int))
    }
}

/// The lines of depth `d` at `x` for `y` from 0 to `h - 1`.
pub open spec fn layer_cells(x: int, h: nat, d: nat) -> Seq<Point>
    decreases h,
{
    if h == 0 {
        Seq::empty()
    } else {
        layer_cells(x, (h - 1) as nat, d) + line_cells(x, (h - 1) as int, d)
    }
}

/// The cells of the box `0..w` by `0..h` by `0..d`, by `x`, then `y`, then `z`.
pub open spec fn box_cells(w: nat, h: nat, d: nat) -> Seq<Point>
    decreases w,
{
    if w == 0 {
        Seq::empty()
    } else {
        box_cells((w - 1) as nat, h, d) + layer_cells((w - 1) as int, h, d)
    }
}

/// Create a brick `Target`, defined by its dimensions.
pub fn brick(width: u8, height: u8, depth: u8) -> (r: Target)
    ensures
        r@ == box_cells(width as nat, height as nat, depth as nat),
        valid_target(r@),
{
    let mut positions: Vec<Position> = Vec::new();
    let mut x: u8 = 0;
    while x < width
        invariant
            x <= width,
            points(positions@) == box_cells(x as nat, height as nat, depth as nat),
            forall|k: int| 0 <= k < positions@.len() ==> small_point(#[trigger] points(positions@)[k]),
        decreases width - x,
    {
        let mut y: u8 = 0;
        while y < height
            invariant
                x < width,
                y <= height,
                points(positions@) == box_cells(x as nat, height as nat, depth as nat)
                    + layer_cells(x as int, y as nat, depth as nat),
                forall|k: int| 0 <= k < positions@.len() ==> small_point(#[trigger] points(positions@)[k]),
            decreases height - y,
        {
            let mut z: u8 = 0;
            while z < depth
                invariant
                    x < width,
                    y < height,
                    z <= depth,
                    points(positions@) == box_cells(x as nat, height as nat, depth as nat)
                        + layer_cells(x as int, y as nat, depth as nat) + line_cells(
                        x as int,
                        y as int,
                        z as nat,
                    ),
                    forall|k: int| 0 <= k < positions@.len() ==> small_point(#[trigger] points(positions@)[k]),
                decreases depth - z,
            {
                let ghost before = points(positions@);
                positions.push(Position::new(x as i32, y as i32, z as i32));
                assert(points(positions@) =~= before.push((x as int, y as int, z as int)));
                assert(points(positions@) =~= box_cells(x as nat, height as nat, depth as nat)
                    + layer_cells(x as int, y as nat, depth as nat) + line_cells(
                    x as int,
                    y as int,
                    (z + 1) as nat,
                ));
                z = z + 1;
            }
            assert(points(positions@) =~= box_cells(x as nat, height as nat, depth as nat)
                + layer_cells(x as int, (y + 1) as nat, depth as nat));
            y = y + 1;
        }
        assert(points(positions@) =~= box_cells((x + 1) as nat, height as nat, depth as nat));
        x = x + 1;
    }
    Target::new(positions)
}

/// The cells `(x, 0, 0)`, ..., `(x, h - 1, 0)`.
pub open spec fn column_cells(x: int, h: nat) -> Seq<Point>
    decreases h,
{
    if h == 0 {
        Seq::empty()
    } else {
        column_cells(x, (h - 1) as nat).push((x, (h - 1) as int, 0int))
    }
}

/// The cells of the rectangle `0..w` by `0..h` in the plane `z == 0`, by `x`, then `y`.
pub open spec fn rectangle_cells(w: nat, h: nat) -> Seq<Point>
    decreases w,
{
    if w == 0 {
        Seq::empty()
    } else {
        rectangle_cells((w - 1) as nat, h) + column_cells((w - 1) as int, h)
    }
}

/// Create a rectangle `Target` in the plane `z == 0`, defined by its dimensions.
pub fn rectangle(width: u8, height: u8) -> (r: Target)
    ensures
        r@ == rectangle_cells(width as nat, height as nat),
        valid_target(r@),
{
    let mut positions: Vec<Position> = Vec::new();
    let mut x: u8 = 0;
    while x < width
        invariant
            x <= width,
            points(positions@) == rectangle_cells(x as nat, height as nat),
            forall|k: int| 0 <= k < positions@.len() ==> small_point(#[trigger] points(positions@)[k]),
        decreases width - x,
    {
        let mut y: u8 = 0;
        while y < height
            invariant
                x < width,
                y <= height,
                points(positions@) == rectangle_cells(x as nat, height as nat) + column_cells(
                    x as int,
                    y as nat,
                ),
                forall|k: int| 0 <= k < positions@.len() ==> small_point(#[trigger] points(positions@)[k]),
            decreases height - y,
        {
            let ghost before = points(positions@);
            positions.push(Position::d2(x as i32, y as i32));
            assert(points(positions@) =~= before.push((x as int, y as int, 0int)));
            assert(points(positions@) =~= rectangle_cells(x as nat, height as nat) + column_cells(
                x as int,
                (y + 1) as nat,
            ));
            y = y + 1;
        }
        assert(points(positions@) =~= rectangle_cells((x + 1) as nat, height as nat));
        x = x + 1;
    }
    Target::new(positions)
}

} // verus!
