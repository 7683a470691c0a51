use vstd::prelude::*;

use crate::movedef::Movedef;
use crate::player::Colour;

verus! {

/// One checker on the board. `loc` is the cell index it occupies, in
/// row-major order (`row * 8 + col`); the board keeps `loc` equal to the
/// index of the cell that actually holds the piece.
#[derive(Clone, Copy, Debug, PartialEq, Eq, Structural)]
pub struct Piece {
    pub loc: usize,
    pub king: bool,
    pub colour: Colour,
}

impl Piece {
    pub fn new(loc: usize, colour: Colour) -> (p: Piece)
        requires
            loc < 64,
        ensures
            p.loc == loc,
            p.king == false,
            p.colour == colour,
    {
        Piece { loc, king: false, colour }
    }

    pub fn update_coord(&mut self, loc: usize)
        requires
            loc < 64,
        ensures
            final(self).loc == loc,
            final(self).king == old(self).king,
            final(self).colour == old(self).colour,
    {
        self.loc = loc;
    }

    pub fn make_king(&mut self)
        ensures
            final(self).loc == old(self).loc,
            final(self).king == true,
            final(self).colour == old(self).colour,
    {
        self.king = true;
    }

    pub fn as_piece_string(&self) -> (r: String)
        ensures
            self.colour == Colour::Black && self.king ==> r@ == " 🔲 "@,
            self.colour == Colour::Black && !self.king ==> r@ == " ⬛️ "@,
            self.colour == Colour::White && self.king ==> r@ == " 🔳 "@,
            self.colour == Colour::White && !self.king ==> r@ == " ⬜️ "@,
    {
        match self.colour {
            Colour::Black => {
                if self.king {
                    " 🔲 ".to_owned()
                } else {
                    " ⬛️ ".to_owned()
                }
            },
            Colour::White => {
                if self.king {
                    " 🔳 ".to_owned()
                } else {
                    " ⬜️ ".to_owned()
                }
            },
        }
    }
}

/// Well-formed cell contents: exactly 64 cells, and every occupied cell
/// holds a piece whose recorded location is that cell's index.
pub open spec fn squares_wf(s: Seq<Option<Piece>>) -> bool {
    &&& s.len() == 64
    &&& forall|i: int| 0 <= i < 64 ==> ((#[trigger] s[i]) matches Some(p) ==> p.loc == i)
}

/// The standard starting layout: White on the dark cells of rows 0 to 2,
/// Black on the dark cells of rows 5 to 7, all non-king.
pub open spec fn initial_square(i: int) -> Option<Piece> {
    if 0 <= i < 24 && (i / 8 + i % 8) % 2 == 1 {
        Some(Piece { loc: i as usize, king: false, colour: Colour::White })
    } else if 40 <= i < 64 && (i / 8 + i % 8) % 2 == 1 {
        Some(Piece { loc: i as usize, king: false, colour: Colour::Black })
    } else {
        None
    }
}

/// True when `loc` lies on the crowning row for `colour`: the back rank
/// a piece moves toward, row 0 for Black and row 7 for White.
pub open spec fn crowns(loc: int, colour: Colour) -> bool {
    match colour {
        Colour::Black => loc / 8 == 0,
        Colour::White => loc / 8 == 7,
    }
}

/// The pieces of `colour` among the first `n` cells, in ascending cell order.
pub open spec fn pieces_of_prefix(s: Seq<Option<Piece>>, colour: Colour, n: int) -> Seq<Piece>
    decreases n,
{
    if n <= 0 {
        Seq::empty()
    } else {
        pieces_of_prefix(s, colour, n - 1) + if s[n - 1] matches Some(p) && p.colour == colour {
            seq![s[n - 1].unwrap()]
        } else {
            Seq::empty()
        }
    }
}

/// All pieces of `colour` on the board, in ascending cell order.
pub open spec fn pieces_of(s: Seq<Option<Piece>>, colour: Colour) -> Seq<Piece> {
    pieces_of_prefix(s, colour, s.len() as int)
}

/// The material worth of one piece: 5 for a king, 3 otherwise.
pub open spec fn piece_value(p: Piece) -> int {
    if p.king {
        5
    } else {
        3
    }
}

/// The summed worth of a sequence of pieces.
pub open spec fn value_sum(ps: Seq<Piece>) -> int
    decreases ps.len(),
{
    if ps.len() == 0 {
        0
    } else {
        value_sum(ps.drop_last()) + piece_value(ps.last())
    }
}

/// The static evaluation of a position from `colour`'s side: its own
/// material minus the opponent's.
pub open spec fn evaluation(s: Seq<Option<Piece>>, colour: Colour) -> int {
    value_sum(pieces_of(s, colour)) - value_sum(pieces_of(s, colour.other_spec()))
}

/// One side has no pieces left.
pub open spec fn has_winner(s: Seq<Option<Piece>>) -> bool {
    pieces_of(s, Colour::Black).len() == 0 || pieces_of(s, Colour::White).len() == 0
}

/// The inputs on which `Board::ingest_movedef` is defined: source occupied,
/// destination empty, and any captured cell occupied and distinct from both.
pub open spec fn movedef_applicable(s: Seq<Option<Piece>>, m: Movedef) -> bool {
    &&& m.start < 64
    &&& m.end < 64
    &&& s[m.start as int] is Some
    &&& s[m.end as int] is None
    &&& (m.taken_piece matches Some(t) ==> t < 64 && t != m.start && t != m.end && s[t as int]
        is Some)
}

/// The piece that stands on `m.end` after the move: the source piece,
/// relocated, and crowned if it was a king, if the captured piece was a
/// king, or if the destination lies on its crowning row.
pub open spec fn moved_piece_spec(s: Seq<Option<Piece>>, m: Movedef) -> Piece {
    let p = s[m.start as int].unwrap();
    let captured_king = m.taken_piece matches Some(t) && s[t as int].unwrap().king;
    Piece {
        loc: m.end,
        king: p.king || captured_king || crowns(m.end as int, p.colour),
        colour: p.colour,
    }
}

/// The cell contents after applying `m`: source emptied, captured cell
/// emptied, destination holding the moved piece, all else unchanged.
pub open spec fn apply_movedef_spec(s: Seq<Option<Piece>>, m: Movedef) -> Seq<Option<Piece>> {
    Seq::new(
        s.len(),
        |i: int|
            if i == m.end as int {
                Some(moved_piece_spec(s, m))
            } else if i == m.start as int {
                None
            } else if m.taken_piece matches Some(t) && i == t as int {
                None
            } else {
                s[i]
            },
    )
}

/// The playing surface: 64 optional piece slots in row-major order.
#[derive(Clone, Debug, PartialEq)]
pub struct Board {
    pub squares: Vec<Option<Piece>>,
}

impl Board {
    pub open spec fn wf(self) -> bool {
        squares_wf(self.squares@)
    }

    pub fn new() -> (b: Board)
        ensures
            b.wf(),
            forall|i: int| 0 <= i < 64 ==> (#[trigger] b.squares@[i]) == initial_square(i),
    {
        let mut squares: Vec<Option<Piece>> = Vec::new();
        let mut i: usize = 0;
        while i < 64
            invariant
                i <= 64,
                squares@.len() == i,
                forall|j: int| 0 <= j < i ==> (#[trigger] squares@[j]) == initial_square(j),
            decreases 64 - i,
        {
            let dark = (i / 8 + i % 8) % 2 == 1;
            if i < 24 && dark {
                squares.push(Some(Piece::new(i, Colour::White)));
            } else if i >= 40 && dark {
                squares.push(Some(Piece::new(i, Colour::Black)));
            } else {
                squares.push(None);
            }
            i += 1;
        }
        Board { squares }
    }

    /// A fresh board with the same cell contents.
    pub fn duplicate(&self) -> (b: Board)
        ensures
            b.squares@ == self.squares@,
    {
        let mut squares: Vec<Option<Piece>> = Vec::new();
        let mut i: usize = 0;
        while i < self.squares.len()
            invariant
                i <= self.squares@.len(),
                squares@.len() == i,
                forall|j: int| 0 <= j < i ==> squares@[j] == self.squares@[j],
            decreases self.squares@.len() - i,
        {
            squares.push(self.squares[i]);
            i += 1;
        }
        proof {
            assert(squares@ =~= self.squares@);
        }
        Board { squares }
    }

    pub fn get_row_col_from_index(loc: usize) -> (rc: (usize, usize))
        requires
            loc < 64,
        ensures
            rc.0 == loc / 8,
            rc.1 == loc % 8,
            rc.0 < 8,
            rc.1 < 8,
    {
        let row = loc / 8;
        let col = loc % 8;
        (row, col)
    }

    pub fn get_index_from_row_col(row: usize, col: usize) -> (loc: usize)
        requires
            row < 8,
            col < 8,
        ensures
            loc == row * 8 + col,
            loc < 64,
    {
        let mut num = row * 8;
        num += col;
        num
    }

    pub fn inside_board(x: usize, y: usize) -> (r: bool)
        ensures
            r == (x < 8 && y < 8),
    {
        let x_b = x < 8;
        let y_b = y < 8;
        x_b && y_b
    }

    pub fn piece_get_crowned(loc: usize, colour: Colour) -> (r: bool)
        requires
            loc < 64,
        ensures
            r == crowns(loc as int, colour),
    {
        let rc = Board::get_row_col_from_index(loc);
        match colour {
            Colour::Black => rc.0 == 0,
            Colour::White => rc.0 == 7,
        }
    }

    pub fn move_piece(&mut self, old_index: usize, new_index: usize)
        requires
            old(self).wf(),
            old_index < 64,
            new_index < 64,
            old(self).squares@[old_index as int] is Some,
            old(self).squares@[new_index as int] is None,
        ensures
            final(self).wf(),
            final(self).squares@ == old(self).squares@.update(old_index as int, None).update(
                new_index as int,
                Some(
                    Piece {
                        loc: new_index,
                        king: old(self).squares@[old_index as int].unwrap().king,
                        colour: old(self).squares@[old_index as int].unwrap().colour,
                    },
                ),
            ),
    {
        let piece = self.squares[old_index].unwrap();
        let mut piece_copy = piece;
        piece_copy.update_coord(new_index);
        self.squares[old_index] = None;
        self.squares[new_index] = Some(piece_copy);
    }

    pub fn get_piece(&self, loc: usize) -> (r: Option<&Piece>)
        requires
            loc < self.squares@.len(),
        ensures
            r is Some <==> self.squares@[loc as int] is Some,
            r matches Some(p) ==> self.squares@[loc as int] == Some(*p),
    {
        self.squares[loc].as_ref()
    }

    pub fn get_all_colour_pieces(&self, colour: Colour) -> (r: Vec<Piece>)
        ensures
            r@ == pieces_of(self.squares@, colour),
    {
        let mut pieces: Vec<Piece> = Vec::new();
        let mut i: usize = 0;
        while i < self.squares.len()
            invariant
                i <= self.squares@.len(),
                pieces@ == pieces_of_prefix(self.squares@, colour, i as int),
            decreases self.squares@.len() - i,
        {
            match self.squares[i] {
                Some(piece) => {
                    if piece.colour == colour {
                        pieces.push(piece);
                    }
                },
                None => {},
            }
            proof {
                assert(pieces@ =~= pieces_of_prefix(self.squares@, colour, i as int + 1));
            }
            i += 1;
        }
        pieces
    }

    pub fn opposing_piece_between(
        &self,
        user_colour: Colour,
        row_s: usize,
        col_s: usize,
        row_e: usize,
        col_e: usize,
    ) -> (r: Option<usize>)
        requires
            self.squares@.len() == 64,
            row_s < 8,
            col_s < 8,
            row_e < 8,
            col_e < 8,
        ensures
            ({
                let mid = ((row_s + row_e) / 2) * 8 + (col_s + col_e) / 2;
                if self.squares@[mid as int] matches Some(q) && q.colour != user_colour {
                    r == Some(mid as usize)
                } else {
                    r is None
                }
            }),
    {
        let row = (row_s + row_e) / 2;
        let col = (col_s + col_e) / 2;
        let index = Board::get_index_from_row_col(row, col);
        match self.squares[index] {
            Some(piece) => {
                if piece.colour != user_colour {
                    Some(index)
                } else {
                    None
                }
            },
            None => None,
        }
    }

    pub fn ingest_movedef(&mut self, movedef: Movedef)
        requires
            old(self).wf(),
            movedef_applicable(old(self).squares@, movedef),
        ensures
            final(self).wf(),
            final(self).squares@ == apply_movedef_spec(old(self).squares@, movedef),
            final(self).squares@[movedef.start as int] is None,
            final(self).squares@[movedef.end as int] == Some(
                moved_piece_spec(old(self).squares@, movedef),
            ),
            movedef.taken_piece matches Some(t) ==> final(self).squares@[t as int] is None,
            crowns(movedef.end as int, old(self).squares@[movedef.start as int].unwrap().colour)
                ==> final(self).squares@[movedef.end as int].unwrap().king,
    {
        self.move_piece(movedef.start, movedef.end);
        let mut king = false;
        match movedef.taken_piece {
            Some(x) => {
                king = self.squares[x].unwrap().king;
                self.squares[x] = None;
            },
            None => {},
        }
        let piece = self.squares[movedef.end].unwrap();
        if king || Board::piece_get_crowned(movedef.end, piece.colour) {
            let mut crowned = piece;
            crowned.make_king();
            self.squares[movedef.end] = Some(crowned);
        }
        proof {
            assert(self.squares@ =~= apply_movedef_spec(old(self).squares@, movedef));
        }
    }

    /// Black wins as soon as White has no pieces; only then is White's win
    /// checked, so the doubly empty board (unreachable in normal play)
    /// counts as a Black win.
    pub fn return_winner(&self) -> (r: Option<Colour>)
        ensures
            r is Some <==> has_winner(self.squares@),
            pieces_of(self.squares@, Colour::White).len() == 0 ==> r == Some(Colour::Black),
            pieces_of(self.squares@, Colour::White).len() > 0 && pieces_of(
                self.squares@,
                Colour::Black,
            ).len() == 0 ==> r == Some(Colour::White),
            pieces_of(self.squares@, Colour::Black).len() > 0 && pieces_of(
                self.squares@,
                Colour::White,
            ).len() > 0 ==> r is None,
    {
        if self.get_all_colour_pieces(Colour::White).is_empty() {
            Some(Colour::Black)
        } else if self.get_all_colour_pieces(Colour::Black).is_empty() {
            Some(Colour::White)
        } else {
            None
        }
    }

    pub fn static_evaluation(&self, colour: Colour) -> (r: i32)
        requires
            self.squares@.len() <= 64,
        ensures
            r == evaluation(self.squares@, colour),
    {
        proof {
            lemma_pieces_of_prefix_len(self.squares@, colour, self.squares@.len() as int);
            lemma_pieces_of_prefix_len(
                self.squares@,
                colour.other_spec(),
                self.squares@.len() as int,
            );
        }
        let mut score: i32 = 0;
        let mine = self.get_all_colour_pieces(colour);
        let mut i: usize = 0;
        while i < mine.len()
            invariant
                i <= mine@.len(),
                mine@.len() <= 64,
                score == value_sum(mine@.take(i as int)),
                0 <= score <= 5 * i,
            decreases mine@.len() - i,
        {
            proof {
                assert(mine@.take(i as int + 1).drop_last() =~= mine@.take(i as int));
                assert(mine@.take(i as int + 1).last() == mine@[i as int]);
            }
            if mine[i].king {
                score += 5;
            } else {
                score += 3;
            }
            i += 1;
        }
        proof {
            assert(mine@.take(mine@.len() as int) =~= mine@);
        }
        let other_colour = colour.other();
        let theirs = self.get_all_colour_pieces(other_colour);
        let ghost base = score as int;
        let mut j: usize = 0;
        while j < theirs.len()
            invariant
                j <= theirs@.len(),
                theirs@.len() <= 64,
                -320 <= base <= 320,
                score == base - value_sum(theirs@.take(j as int)),
                base - 5 * j <= score <= base,
            decreases theirs@.len() - j,
        {
            proof {
                assert(theirs@.take(j as int + 1).drop_last() =~= theirs@.take(j as int));
                assert(theirs@.take(j as int + 1).last() == theirs@[j as int]);
            }
            if theirs[j].king {
                score -= 5;
            } else {
                score -= 3;
            }
            j += 1;
        }
        proof {
            assert(theirs@.take(theirs@.len() as int) =~= theirs@);
        }
        score
    }
}

/// The pieces collected from the first `n` cells are at most `n`.
pub proof fn lemma_pieces_of_prefix_len(s: Seq<Option<Piece>>, colour: Colour, n: int)
    ensures
        pieces_of_prefix(s, colour, n).len() <= if n >= 0 {
            n
        } else {
            0
        },
    decreases n,
{
    if n > 0 {
        lemma_pieces_of_prefix_len(s, colour, n - 1);
    }
}

/// The worth of any piece list lies between 0 and 5 per piece.
pub proof fn lemma_value_sum_bounds(ps: Seq<Piece>)
    ensures
        0 <= value_sum(ps) <= 5 * ps.len(),
    decreases ps.len(),
{
    if ps.len() > 0 {
        lemma_value_sum_bounds(ps.drop_last());
    }
}

/// On a board of at most 64 cells, the static evaluation lies in [-320, 320].
pub proof fn lemma_evaluation_bounds(s: Seq<Option<Piece>>, colour: Colour)
    requires
        s.len() <= 64,
    ensures
        -320 <= evaluation(s, colour) <= 320,
{
    lemma_pieces_of_prefix_len(s, colour, s.len() as int);
    lemma_pieces_of_prefix_len(s, colour.other_spec(), s.len() as int);
    lemma_value_sum_bounds(pieces_of(s, colour));
    lemma_value_sum_bounds(pieces_of(s, colour.other_spec()));
}

/// The static evaluation is antisymmetric: a position is worth to one side
/// exactly the opposite of what it is worth to the other.
pub proof fn lemma_static_evaluation_antisymmetric(s: Seq<Option<Piece>>, colour: Colour)
    ensures
        evaluation(s, colour) == -evaluation(s, colour.other_spec()),
{
    assert(colour.other_spec().other_spec() == colour);
}

/// Every piece collected by `pieces_of_prefix` has the stated colour and,
/// where occupied cells record their own index, sits at its recorded cell.
pub proof fn lemma_pieces_of_prefix_members(s: Seq<Option<Piece>>, colour: Colour, n: int)
    requires
        0 <= n <= s.len(),
        forall|i: int| 0 <= i < n ==> ((#[trigger] s[i]) matches Some(p) ==> p.loc == i),
    ensures
        forall|k: int|
            0 <= k < pieces_of_prefix(s, colour, n).len() ==> {
                let p = #[trigger] pieces_of_prefix(s, colour, n)[k];
                &&& p.colour == colour
                &&& p.loc < n
                &&& s[p.loc as int] == Some(p)
            },
    decreases n,
{
    if n > 0 {
        lemma_pieces_of_prefix_members(s, colour, n - 1);
    }
}

} // verus!
