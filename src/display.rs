//! The textual rendering of solutions.
use vstd::prelude::*;
use vstd::string::StringExecFns;
use crate::geometry::{points, Point, Position};
use crate::piece::{Piece, PieceModel};
use crate::solver::{piece_models, Solution};

verus! {

/// The character of a decimal digit.
pub open spec fn digit_char(d: int) -> char {
    if d == 0 {
        '0'
    } else if d == 1 {
        '1'
    } else if d == 2 {
        '2'
    } else if d == 3 {
        '3'
    } else if d == 4 {
        '4'
    } else if d == 5 {
        '5'
    } else if d == 6 {
        '6'
    } else if d == 7 {
        '7'
    } else if d == 8 {
        '8'
    } else {
        '9'
    }
}

/// The decimal digits of `n`, most significant first.
pub open spec fn digits(n: nat) -> Seq<char>
    decreases n,
{
    if n < 10 {
        seq![digit_char(n as int)]
    } else {
        digits(n / 10) + seq![digit_char((n % 10) as int)]
    }
}

/// `n` in decimal, with a leading `-` when negative.
pub open spec fn decimal(n: int) -> Seq<char> {
    if n < 0 {
        seq!['-'] + digits((-n) as nat)
    } else {
        digits(n as nat)
    }
}

/// A cell written `(x, y, z)`.
pub open spec fn render_point(p: Point) -> Seq<char> {
    seq!['('] + decimal(p.0) + seq![',', ' '] + decimal(p.1) + seq![',', ' '] + decimal(p.2)
        + seq![')']
}

/// The cells written one after the other.
pub open spec fn render_cells(c: Seq<Point>) -> Seq<char>
    decreases c.len(),
{
    if c.len() == 0 {
        Seq::empty()
    } else {
        render_cells(c.drop_last()) + render_point(c.last())
    }
}

/// A piece written `[`, its name if any, its cells, `]`.
pub open spec fn render_piece(p: PieceModel) -> Seq<char> {
    let name = match p.1 {
        Some(n) => n,
        None => Seq::empty(),
    };
    seq!['['] + name + render_cells(p.0) + seq![']']
}

/// The pieces written one after the other.
pub open spec fn render_pieces(s: Seq<PieceModel>) -> Seq<char>
    decreases s.len(),
{
    if s.len() == 0 {
        Seq::empty()
    } else {
        render_pieces(s.drop_last()) + render_piece(s.last())
    }
}

/// A solution written `<`, its pieces in placement order, `>`.
pub open spec fn render_solution(s: Seq<PieceModel>) -> Seq<char> {
    seq!['<'] + render_pieces(s) + seq!['>']
}

/// The one-character text of a digit.
fn digit_text(d: u64) -> (r: &'static str)
    requires
        d < 10,
    ensures
        r@ == seq![digit_char(d as int)],
{
    proof {
        reveal_strlit("0");
        reveal_strlit("1");
        reveal_strlit("2");
        reveal_strlit("3");
        reveal_strlit("4");
        reveal_strlit("5");
        reveal_strlit("6");
        reveal_strlit("7");
        reveal_strlit("8");
        reveal_strlit("9");
    }
    if d == 0 {
        "0"
    } else if d == 1 {
        "1"
    } else if d == 2 {
        "2"
    } else if d == 3 {
        "3"
    } else if d == 4 {
        "4"
    } else if d == 5 {
        "5"
    } else if d == 6 {
        "6"
    } else if d == 7 {
        "7"
    } else if d == 8 {
        "8"
    } else {
        "9"
    }
}

/// Append the decimal digits of `n`.
fn push_digits(out: &mut String, n: u64)
    ensures
        final(out)@ == old(out)@ + digits(n as nat),
    decreases n,
{
    if n >= 10 {
        push_digits(out, n / 10);
        out.append(digit_text(n % 10));
        assert(final(out)@ =~= old(out)@ + digits(n as nat));
    } else {
        out.append(digit_text(n));
    }
}

/// Append `n` in decimal.
fn push_decimal(out: &mut String, n: i32)
    ensures
        final(out)@ == old(out)@ + decimal(n as int),
{
    proof {
        reveal_strlit("-");
    }
    if n < 0 {
        out.append("-");
        let magnitude: u64 = (0i64 - n as i64) as u64;
        push_digits(out, magnitude);
        assert(final(out)@ =~= old(out)@ + decimal(n as int));
    } else {
        push_digits(out, n as u64);
    }
}

/// Append a position written `(x, y, z)`.
fn push_position(out: &mut String, p: &Position)
    ensures
        final(out)@ == old(out)@ + render_point(p@),
{
    proof {
        reveal_strlit("(");
        reveal_strlit(", ");
        reveal_strlit(")");
    }
    out.append("(");
    push_decimal(out, p.x);
    out.append(", ");
    push_decimal(out, p.y);
    out.append(", ");
    push_decimal(out, p.z);
    out.append(")");
    assert(final(out)@ =~= old(out)@ + render_point(p@));
}

/// Append a piece written `[`, its name if any, its positions, `]`.
fn push_piece(out: &mut String, piece: &Piece)
    ensures
        final(out)@ == old(out)@ + render_piece(piece@),
{
    proof {
        reveal_strlit("[");
        reveal_strlit("]");
    }
    let ghost start = out@;
    out.append("[");
    match piece.name() {
        Some(name) => out.append(name.as_str()),
        None => {},
    }
    let ghost after_name = out@;
    let positions = piece.positions();
    let mut i: usize = 0;
    while i < positions.len()
        invariant
            i <= positions.len(),
            points(positions@) == piece.cells(),
            out@ == after_name + render_cells(piece.cells().subrange(0, i as int)),
        decreases positions.len() - i,
    {
        let ghost before = out@;
        push_position(out, &positions[i]);
        assert(piece.cells().subrange(0, i + 1).drop_last() =~= piece.cells().subrange(0, i as int));
        assert(piece.cells()[i as int] == positions@[i as int]@);
        assert(out@ =~= after_name + render_cells(piece.cells().subrange(0, i + 1)));
        i = i + 1;
    }
    assert(piece.cells().subrange(0, positions.len() as int) =~= piece.cells());
    out.append("]");
    assert(out@ =~= start + render_piece(piece@));
}

impl Position {
    /// The position written `(x, y, z)`.
    pub fn to_string(&self) -> (r: String)
        ensures
            r@ == render_point(self@),
    {
        let mut out = String::new();
        push_position(&mut out, self);
        assert(out@ =~= render_point(self@));
        out
    }
}

impl Piece {
    /// The piece written `[`, its name if any, its positions in order, `]`.
    pub fn to_string(&self) -> (r: String)
        ensures
            r@ == render_piece(self@),
    {
        let mut out = String::new();
        push_piece(&mut out, self);
        assert(out@ =~= render_piece(self@));
        out
    }
}

impl Solution {
    /// The solution written `<`, its pieces in placement order, `>`.
    pub fn to_string(&self) -> (r: String)
        ensures
            r@ == render_solution(self@),
    {
        proof {
            reveal_strlit("<");
            reveal_strlit(">");
        }
        let mut out = String::new();
        out.append("<");
        let ghost after_open = out@;
        let pieces = self.pieces();
        let mut i: usize = 0;
        while i < pieces.len()
            invariant
                i <= pieces.len(),
                piece_models(pieces@) == self@,
                out@ == after_open + render_pieces(self@.subrange(0, i as int)),
            decreases pieces.len() - i,
        {
            push_piece(&mut out, &pieces[i]);
            assert(self@.subrange(0, i + 1).drop_last() =~= self@.subrange(0, i as int));
            assert(self@[i as int] == pieces@[i as int]@);
            assert(out@ =~= after_open + render_pieces(self@.subrange(0, i + 1)));
            i = i + 1;
        }
        assert(self@.subrange(0, pieces.len() as int) =~= self@);
        out.append(">");
        assert(out@ =~= render_solution(self@));
        out
    }
}

} // verus!
