use vstd::prelude::*;

use crate::board::{
    apply_movedef_spec, evaluation, has_winner, lemma_evaluation_bounds,
    lemma_pieces_of_prefix_members, pieces_of, Board, Piece,
};
use crate::movedef::Movedef;
use crate::player::Colour;

verus! {

/// The eight candidate displacement vectors, as (row delta, column delta):
/// first the four that move toward row 7 (slide left, slide right, jump
/// left, jump right), then the same four toward row 0. White men use the
/// first four, Black men the last four, kings all eight.
pub open spec fn move_vector(k: int) -> (int, int) {
    if k == 0 {
        (1, -1)
    } else if k == 1 {
        (1, 1)
    } else if k == 2 {
        (2, -2)
    } else if k == 3 {
        (2, 2)
    } else if k == 4 {
        (-1, -1)
    } else if k == 5 {
        (-1, 1)
    } else if k == 6 {
        (-2, -2)
    } else {
        (-2, 2)
    }
}

/// The candidate move for the piece on `loc` along vector `k`, if the rules
/// admit one: destination on the board and empty; a jump additionally needs
/// an opposing piece on the midpoint cell, which it captures.
pub open spec fn candidate_move(
    s: Seq<Option<Piece>>,
    colour: Colour,
    loc: int,
    k: int,
) -> Option<Movedef> {
    let row = loc / 8;
    let col = loc % 8;
    let dr = move_vector(k).0;
    let dc = move_vector(k).1;
    let nr = row + dr;
    let nc = col + dc;
    if !(0 <= nr < 8 && 0 <= nc < 8) {
        None
    } else {
        let ni = nr * 8 + nc;
        if s[ni] is Some {
            None
        } else if dr == 2 || dr == -2 {
            let mid = ((row + nr) / 2) * 8 + (col + nc) / 2;
            if s[mid] matches Some(q) && q.colour != colour {
                Some(
                    Movedef {
                        start: loc as usize,
                        end: ni as usize,
                        taken_piece: Some(mid as usize),
                    },
                )
            } else {
                None
            }
        } else {
            Some(Movedef { start: loc as usize, end: ni as usize, taken_piece: None })
        }
    }
}

/// The moves of the piece on `loc` along vectors `k0` (inclusive) up to `k`
/// (exclusive), in vector order.
pub open spec fn piece_moves_prefix(
    s: Seq<Option<Piece>>,
    colour: Colour,
    loc: int,
    k0: int,
    k: int,
) -> Seq<Movedef>
    decreases k - k0,
{
    if k <= k0 {
        Seq::empty()
    } else {
        piece_moves_prefix(s, colour, loc, k0, k - 1) + match candidate_move(
            s,
            colour,
            loc,
            k - 1,
        ) {
            Some(m) => seq![m],
            None => Seq::empty(),
        }
    }
}

/// The vectors a piece may use: all eight for a king, the two slides and
/// two jumps toward row 7 for a White man, toward row 0 for a Black man.
pub open spec fn vector_bounds(piece: Piece, colour: Colour) -> (int, int) {
    if piece.king {
        (0, 8)
    } else if colour == Colour::White {
        (0, 4)
    } else {
        (4, 8)
    }
}

/// All moves of one piece, in vector order.
pub open spec fn piece_moves(s: Seq<Option<Piece>>, colour: Colour, piece: Piece) -> Seq<Movedef> {
    piece_moves_prefix(
        s,
        colour,
        piece.loc as int,
        vector_bounds(piece, colour).0,
        vector_bounds(piece, colour).1,
    )
}

/// The moves of the first `j` pieces of `ps`, concatenated in order.
pub open spec fn moves_prefix(
    s: Seq<Option<Piece>>,
    colour: Colour,
    ps: Seq<Piece>,
    j: int,
) -> Seq<Movedef>
    decreases j,
{
    if j <= 0 {
        Seq::empty()
    } else {
        moves_prefix(s, colour, ps, j - 1) + piece_moves(s, colour, ps[j - 1])
    }
}

/// Every legal move for `colour`: per piece in ascending cell order, then
/// per vector in the fixed vector order.
pub open spec fn generated_moves(s: Seq<Option<Piece>>, colour: Colour) -> Seq<Movedef> {
    moves_prefix(s, colour, pieces_of(s, colour), pieces_of(s, colour).len() as int)
}

/// What the generator guarantees of each move it emits: the source holds a
/// piece of the moving colour, the destination is an empty cell on the
/// board, and a jump's captured cell holds an opposing piece and is
/// distinct from both endpoints.
pub open spec fn move_ok(s: Seq<Option<Piece>>, colour: Colour, m: Movedef) -> bool {
    &&& m.start < 64
    &&& m.end < 64
    &&& m.start != m.end
    &&& s[m.start as int] matches Some(p) && p.colour == colour
    &&& s[m.end as int] is None
    &&& (m.taken_piece matches Some(t) ==> t < 64 && t != m.start && t != m.end && (s[t as int]
        matches Some(q) && q.colour != colour))
}

pub open spec fn int_max(a: int, b: int) -> int {
    if a >= b {
        a
    } else {
        b
    }
}

pub open spec fn int_min(a: int, b: int) -> int {
    if a <= b {
        a
    } else {
        b
    }
}

/// The value of the position for an unpruned full-width minimax search of
/// the given remaining depth, from the machine colour's point of view.
/// A maximising node expands the human's moves, a minimising node the
/// machine's, mirroring how the plies alternate below the machine's own
/// candidate move at the root.
pub open spec fn search_value(
    s: Seq<Option<Piece>>,
    depth: int,
    maximising: bool,
    ai: Colour,
    player: Colour,
) -> int
    decreases depth, 1int, 0int,
        when depth >= 0
{
    if depth == 0 || has_winner(s) {
        evaluation(s, ai)
    } else if maximising {
        search_fold(s, generated_moves(s, player), 0, i32::MIN as int, depth, true, ai, player)
    } else {
        search_fold(s, generated_moves(s, ai), 0, i32::MAX as int, depth, false, ai, player)
    }
}

/// Folds the children `moves[i..]` into the accumulator: the running
/// maximum of the child values at a maximising node, minimum otherwise.
pub open spec fn search_fold(
    s: Seq<Option<Piece>>,
    moves: Seq<Movedef>,
    i: int,
    acc: int,
    depth: int,
    maximising: bool,
    ai: Colour,
    player: Colour,
) -> int
    decreases depth, 0int, moves.len() - i,
        when depth >= 1 && i >= 0
{
    if i >= moves.len() {
        acc
    } else {
        let child = search_value(apply_movedef_spec(s, moves[i]), depth - 1, !maximising, ai, player);
        search_fold(
            s,
            moves,
            i + 1,
            if maximising {
                int_max(acc, child)
            } else {
                int_min(acc, child)
            },
            depth,
            maximising,
            ai,
            player,
        )
    }
}

/// The best (respectively worst) child value among the first `i` children,
/// seeded with the accumulator a search node starts from.
pub open spec fn fold_prefix(
    s: Seq<Option<Piece>>,
    moves: Seq<Movedef>,
    i: int,
    depth: int,
    maximising: bool,
    ai: Colour,
    player: Colour,
) -> int
    decreases i,
{
    if i <= 0 {
        if maximising {
            i32::MIN as int
        } else {
            i32::MAX as int
        }
    } else {
        let child = search_value(
            apply_movedef_spec(s, moves[i - 1]),
            depth - 1,
            !maximising,
            ai,
            player,
        );
        if maximising {
            int_max(fold_prefix(s, moves, i - 1, depth, maximising, ai, player), child)
        } else {
            int_min(fold_prefix(s, moves, i - 1, depth, maximising, ai, player), child)
        }
    }
}

/// Adds two node counts the way the search does: exactly, until the sum
/// would leave `i32`, where it stops at `i32::MAX` instead of overflowing.
pub open spec fn saturating_count(a: int, b: int) -> int {
    if a + b <= i32::MAX as int {
        a + b
    } else {
        i32::MAX as int
    }
}

/// The exact pair the pruned search computes at one node: score and node
/// count. A terminal node is worth its static evaluation and counts once;
/// an interior node folds its children left to right with `alpha_beta_fold`,
/// starting from the sentinel accumulator and a count of one for itself.
/// The search result is a pure function of its arguments: this is the
/// determinism the engine promises.
pub open spec fn alpha_beta_result(
    s: Seq<Option<Piece>>,
    depth: int,
    maximising: bool,
    alpha: int,
    beta: int,
    ai: Colour,
    player: Colour,
) -> (int, int)
    decreases depth, 1int, 0int,
        when depth >= 0
{
    if depth == 0 || has_winner(s) {
        (evaluation(s, ai), 1)
    } else if maximising {
        alpha_beta_fold(
            s,
            generated_moves(s, player),
            0,
            i32::MIN as int,
            alpha,
            beta,
            1,
            depth,
            true,
            ai,
            player,
        )
    } else {
        alpha_beta_fold(
            s,
            generated_moves(s, ai),
            0,
            i32::MAX as int,
            alpha,
            beta,
            1,
            depth,
            false,
            ai,
            player,
        )
    }
}

/// One step of the pruned expansion: evaluate child `i` inside the current
/// window, fold its score into the accumulator, tighten alpha (maximising)
/// or beta (minimising), add its node count, and stop expanding the moment
/// the window closes. The remaining siblings are never visited, exactly as
/// the executable loop never visits them.
pub open spec fn alpha_beta_fold(
    s: Seq<Option<Piece>>,
    moves: Seq<Movedef>,
    i: int,
    acc: int,
    alpha: int,
    beta: int,
    nodes: int,
    depth: int,
    maximising: bool,
    ai: Colour,
    player: Colour,
) -> (int, int)
    decreases depth, 0int, moves.len() - i,
        when depth >= 1 && i >= 0
{
    if i >= moves.len() {
        (acc, nodes)
    } else {
        let child = alpha_beta_result(
            apply_movedef_spec(s, moves[i]),
            depth - 1,
            !maximising,
            alpha,
            beta,
            ai,
            player,
        );
        let acc2 = if maximising {
            int_max(acc, child.0)
        } else {
            int_min(acc, child.0)
        };
        let alpha2 = if maximising {
            int_max(alpha, acc2)
        } else {
            alpha
        };
        let beta2 = if maximising {
            beta
        } else {
            int_min(beta, acc2)
        };
        let nodes2 = saturating_count(nodes, child.1);
        if beta2 <= alpha2 {
            (acc2, nodes2)
        } else {
            alpha_beta_fold(s, moves, i + 1, acc2, alpha2, beta2, nodes2, depth, maximising, ai, player)
        }
    }
}

/// At depth zero the search result is the static evaluation and a count of
/// one, whatever the board holds, whichever side is to move, and whatever
/// window the caller passes.
pub proof fn lemma_alpha_beta_depth_zero(
    s: Seq<Option<Piece>>,
    maximising: bool,
    alpha: int,
    beta: int,
    ai: Colour,
    player: Colour,
)
    ensures
        alpha_beta_result(s, 0, maximising, alpha, beta, ai, player) == (evaluation(s, ai), 1int),
{
}

/// Folding the remaining children onto the prefix value yields the value of
/// the whole move list: the node's unpruned value is `fold_prefix` taken
/// over all children.
pub proof fn lemma_fold_prefix_full(
    s: Seq<Option<Piece>>,
    moves: Seq<Movedef>,
    depth: int,
    maximising: bool,
    ai: Colour,
    player: Colour,
    i: int,
)
    requires
        depth >= 1,
        0 <= i <= moves.len(),
    ensures
        search_fold(
            s,
            moves,
            i,
            fold_prefix(s, moves, i, depth, maximising, ai, player),
            depth,
            maximising,
            ai,
            player,
        ) == fold_prefix(s, moves, moves.len() as int, depth, maximising, ai, player),
    decreases moves.len() - i,
{
    if i < moves.len() {
        lemma_fold_prefix_full(s, moves, depth, maximising, ai, player, i + 1);
    }
}

/// The prefix value only improves as more children are folded in: it is
/// non-decreasing at a maximising node and non-increasing at a minimising
/// one.
pub proof fn lemma_fold_prefix_monotone(
    s: Seq<Option<Piece>>,
    moves: Seq<Movedef>,
    depth: int,
    maximising: bool,
    ai: Colour,
    player: Colour,
    i: int,
    j: int,
)
    requires
        0 <= i <= j,
    ensures
        maximising ==> fold_prefix(s, moves, i, depth, maximising, ai, player) <= fold_prefix(
            s,
            moves,
            j,
            depth,
            maximising,
            ai,
            player,
        ),
        !maximising ==> fold_prefix(s, moves, i, depth, maximising, ai, player) >= fold_prefix(
            s,
            moves,
            j,
            depth,
            maximising,
            ai,
            player,
        ),
    decreases j - i,
{
    if i < j {
        lemma_fold_prefix_monotone(s, moves, depth, maximising, ai, player, i, j - 1);
    }
}

/// On a board of at most 64 cells every search value is representable as
/// an `i32`: leaves lie in [-320, 320] and interior nodes fold children
/// starting from `i32::MIN` or `i32::MAX`.
pub proof fn lemma_search_value_in_range(
    s: Seq<Option<Piece>>,
    depth: int,
    maximising: bool,
    ai: Colour,
    player: Colour,
)
    requires
        depth >= 0,
        s.len() <= 64,
    ensures
        i32::MIN <= search_value(s, depth, maximising, ai, player) <= i32::MAX,
    decreases depth, 1int, 0int,
{
    if depth == 0 || has_winner(s) {
        lemma_evaluation_bounds(s, ai);
    } else if maximising {
        lemma_search_fold_in_range(
            s,
            generated_moves(s, player),
            0,
            i32::MIN as int,
            depth,
            true,
            ai,
            player,
        );
    } else {
        lemma_search_fold_in_range(
            s,
            generated_moves(s, ai),
            0,
            i32::MAX as int,
            depth,
            false,
            ai,
            player,
        );
    }
}

proof fn lemma_search_fold_in_range(
    s: Seq<Option<Piece>>,
    moves: Seq<Movedef>,
    i: int,
    acc: int,
    depth: int,
    maximising: bool,
    ai: Colour,
    player: Colour,
)
    requires
        depth >= 1,
        0 <= i <= moves.len(),
        i32::MIN <= acc <= i32::MAX,
        s.len() <= 64,
    ensures
        i32::MIN <= search_fold(s, moves, i, acc, depth, maximising, ai, player) <= i32::MAX,
    decreases depth, 0int, moves.len() - i,
{
    if i < moves.len() {
        let child_s = apply_movedef_spec(s, moves[i]);
        assert(child_s.len() == s.len());
        lemma_search_value_in_range(child_s, depth - 1, !maximising, ai, player);
        let child = search_value(child_s, depth - 1, !maximising, ai, player);
        lemma_search_fold_in_range(
            s,
            moves,
            i + 1,
            if maximising {
                int_max(acc, child)
            } else {
                int_min(acc, child)
            },
            depth,
            maximising,
            ai,
            player,
        );
    }
}

/// The value that move `m`, played by the machine at the root, leads to:
/// the search value of the resulting position with one ply spent and the
/// human to answer.
pub open spec fn root_value(
    s: Seq<Option<Piece>>,
    m: Movedef,
    depth: int,
    ai: Colour,
    player: Colour,
) -> int {
    search_value(apply_movedef_spec(s, m), depth - 1, false, ai, player)
}

/// The best root value seen among the first `i` root moves, seeded with
/// `i32::MIN`.
pub open spec fn best_prefix(
    s: Seq<Option<Piece>>,
    moves: Seq<Movedef>,
    i: int,
    depth: int,
    ai: Colour,
    player: Colour,
) -> int
    decreases i,
{
    if i <= 0 {
        i32::MIN as int
    } else {
        let e = root_value(s, moves[i - 1], depth, ai, player);
        if e >= best_prefix(s, moves, i - 1, depth, ai, player) {
            e
        } else {
            best_prefix(s, moves, i - 1, depth, ai, player)
        }
    }
}

/// The candidate list a single forward pass collects: each root move whose
/// value is at least the best seen so far is appended. Moves that were only
/// locally best when visited stay in the list; they are not pruned when a
/// later move beats them.
pub open spec fn candidates_prefix(
    s: Seq<Option<Piece>>,
    moves: Seq<Movedef>,
    i: int,
    depth: int,
    ai: Colour,
    player: Colour,
) -> Seq<Movedef>
    decreases i,
{
    if i <= 0 {
        Seq::empty()
    } else {
        let e = root_value(s, moves[i - 1], depth, ai, player);
        if e >= best_prefix(s, moves, i - 1, depth, ai, player) {
            candidates_prefix(s, moves, i - 1, depth, ai, player).push(moves[i - 1])
        } else {
            candidates_prefix(s, moves, i - 1, depth, ai, player)
        }
    }
}

/// The candidates the machine may return from a search of the given depth.
pub open spec fn best_move_candidates(
    s: Seq<Option<Piece>>,
    depth: int,
    ai: Colour,
    player: Colour,
) -> Seq<Movedef> {
    let moves = generated_moves(s, ai);
    candidates_prefix(s, moves, moves.len() as int, depth, ai, player)
}

/// The node count the root search reports over the first `i` root moves:
/// each machine move is searched with the full window and one ply spent,
/// the root itself is not counted, and the sums saturate exactly as the
/// loop's additions do.
pub open spec fn root_nodes_prefix(
    s: Seq<Option<Piece>>,
    moves: Seq<Movedef>,
    i: int,
    depth: int,
    ai: Colour,
    player: Colour,
) -> int
    decreases i,
{
    if i <= 0 {
        0
    } else {
        saturating_count(
            root_nodes_prefix(s, moves, i - 1, depth, ai, player),
            alpha_beta_result(
                apply_movedef_spec(s, moves[i - 1]),
                depth - 1,
                false,
                i32::MIN as int,
                i32::MAX as int,
                ai,
                player,
            ).1,
        )
    }
}

/// Drives a game: holds the board between plies and knows which side the
/// machine plays; move generation and search read it.
pub struct GameManager {
    pub board: Option<Board>,
    pub player_colour: Option<Colour>,
    pub ai_colour: Option<Colour>,
}

impl GameManager {
    /// Both sides have been assigned a colour.
    pub open spec fn colours_set(self) -> bool {
        self.player_colour is Some && self.ai_colour is Some
    }

    /// The machine's colour.
    pub open spec fn ai(self) -> Colour {
        self.ai_colour.unwrap()
    }

    /// The human's colour.
    pub open spec fn player(self) -> Colour {
        self.player_colour.unwrap()
    }

    pub fn new() -> (g: GameManager)
        ensures
            g.board is None,
            g.player_colour is None,
            g.ai_colour is None,
    {
        GameManager { board: None, player_colour: None, ai_colour: None }
    }

    pub fn set_board(&mut self, board: Board)
        ensures
            final(self).board matches Some(b) && b.squares@ == board.squares@,
            final(self).player_colour == old(self).player_colour,
            final(self).ai_colour == old(self).ai_colour,
    {
        self.board = Some(board);
    }

    /// The exec counterpart of `move_vector`.
    fn move_delta(k: usize) -> (d: (i32, i32))
        requires
            k < 8,
        ensures
            d.0 == move_vector(k as int).0,
            d.1 == move_vector(k as int).1,
    {
        if k == 0 {
            (1, -1)
        } else if k == 1 {
            (1, 1)
        } else if k == 2 {
            (2, -2)
        } else if k == 3 {
            (2, 2)
        } else if k == 4 {
            (-1, -1)
        } else if k == 5 {
            (-1, 1)
        } else if k == 6 {
            (-2, -2)
        } else {
            (-2, 2)
        }
    }

    pub fn generate_legal_moves(&self, board: &Board, colour: Colour) -> (r: Vec<Movedef>)
        requires
            board.wf(),
        ensures
            r@ == generated_moves(board.squares@, colour),
            forall|i: int| 0 <= i < r@.len() ==> move_ok(board.squares@, colour, #[trigger] r@[i]),
    {
        let ghost s = board.squares@;
        let mut legal_moves: Vec<Movedef> = Vec::new();
        let my_pieces = board.get_all_colour_pieces(colour);
        let ghost ps = my_pieces@;
        proof {
            lemma_pieces_of_prefix_members(s, colour, 64);
            assert(ps == pieces_of(s, colour));
        }
        let mut j: usize = 0;
        while j < my_pieces.len()
            invariant
                board.wf(),
                s == board.squares@,
                ps == pieces_of(s, colour),
                ps == my_pieces@,
                j <= ps.len(),
                forall|k: int|
                    0 <= k < ps.len() ==> {
                        let p = #[trigger] ps[k];
                        &&& p.colour == colour
                        &&& p.loc < 64
                        &&& s[p.loc as int] == Some(p)
                    },
                legal_moves@ == moves_prefix(s, colour, ps, j as int),
                forall|i: int|
                    0 <= i < legal_moves@.len() ==> move_ok(s, colour, #[trigger] legal_moves@[i]),
            decreases ps.len() - j,
        {
            let piece = my_pieces[j];
            let rc = Board::get_row_col_from_index(piece.loc);
            let row = rc.0;
            let col = rc.1;
            let ghost loc = piece.loc as int;
            let (k0, k1): (usize, usize) = if piece.king {
                (0, 8)
            } else if colour == Colour::White {
                (0, 4)
            } else {
                (4, 8)
            };
            proof {
                assert(vector_bounds(piece, colour) == (k0 as int, k1 as int));
            }
            let mut k = k0;
            while k < k1
                invariant
                    board.wf(),
                    s == board.squares@,
                    ps == pieces_of(s, colour),
                    ps == my_pieces@,
                    j < ps.len(),
                    piece == ps[j as int],
                    piece.colour == colour,
                    piece.loc < 64,
                    s[piece.loc as int] == Some(piece),
                    loc == piece.loc as int,
                    row == piece.loc / 8,
                    col == piece.loc % 8,
                    row < 8,
                    col < 8,
                    k0 <= k <= k1 <= 8,
                    legal_moves@ == moves_prefix(s, colour, ps, j as int) + piece_moves_prefix(
                        s,
                        colour,
                        loc,
                        k0 as int,
                        k as int,
                    ),
                    forall|i: int|
                        0 <= i < legal_moves@.len() ==> move_ok(
                            s,
                            colour,
                            #[trigger] legal_moves@[i],
                        ),
                decreases k1 - k,
            {
                let (dr, dc) = Self::move_delta(k);
                let nr = row as i32 + dr;
                let nc = col as i32 + dc;
                if 0 <= nr && nr < 8 && 0 <= nc && nc < 8 {
                    let new_index = Board::get_index_from_row_col(nr as usize, nc as usize);
                    let dest_occupied = board.get_piece(new_index).is_some();
                    if !dest_occupied {
                        if dr == 2 || dr == -2 {
                            match board.opposing_piece_between(
                                colour,
                                row,
                                col,
                                nr as usize,
                                nc as usize,
                            ) {
                                None => {
                                    proof {
                                        assert(candidate_move(s, colour, loc, k as int) is None);
                                    }
                                },
                                Some(piece_to_take) => {
                                    let m = Movedef {
                                        start: piece.loc,
                                        end: new_index,
                                        taken_piece: Some(piece_to_take),
                                    };
                                    legal_moves.push(m);
                                    proof {
                                        assert(piece_to_take as int == ((loc / 8 + nr) / 2) * 8 + (
                                        loc % 8 + nc) / 2);
                                        assert(candidate_move(s, colour, loc, k as int) == Some(m));
                                        assert(move_ok(s, colour, m));
                                    }
                                },
                            }
                        } else {
                            let m = Movedef {
                                start: piece.loc,
                                end: new_index,
                                taken_piece: None,
                            };
                            legal_moves.push(m);
                            proof {
                                assert(candidate_move(s, colour, loc, k as int) == Some(m));
                                assert(move_ok(s, colour, m));
                            }
                        }
                    } else {
                        proof {
                            assert(candidate_move(s, colour, loc, k as int) is None);
                        }
                    }
                } else {
                    proof {
                        assert(candidate_move(s, colour, loc, k as int) is None);
                    }
                }
                proof {
                    assert(piece_moves_prefix(s, colour, loc, k0 as int, k as int + 1)
                        == piece_moves_prefix(s, colour, loc, k0 as int, k as int) + match
                        candidate_move(s, colour, loc, k as int) {
                        Some(m) => seq![m],
                        None => Seq::<Movedef>::empty(),
                    });
                    assert(legal_moves@ =~= moves_prefix(s, colour, ps, j as int)
                        + piece_moves_prefix(s, colour, loc, k0 as int, k as int + 1));
                }
                k += 1;
            }
            proof {
                assert(piece_moves(s, colour, piece) == piece_moves_prefix(
                    s,
                    colour,
                    loc,
                    k0 as int,
                    k1 as int,
                ));
                assert(moves_prefix(s, colour, ps, j as int + 1) == moves_prefix(
                    s,
                    colour,
                    ps,
                    j as int,
                ) + piece_moves(s, colour, piece));
            }
            j += 1;
        }
        proof {
            assert(legal_moves@ == generated_moves(s, colour));
        }
        legal_moves
    }

    /// Depth-limited minimax with alpha-beta pruning. The result is pinned
    /// exactly: it equals `alpha_beta_result`, a pure function of the
    /// board, depth, side flag, window and the two colours — the promised
    /// determinism. The score moreover relates to the unpruned full-width
    /// value `v` of this node as the classic window property: exact inside
    /// (alpha, beta), capped at the window edge it fell off; with the full
    /// window the score equals `v` exactly, so pruning never changes the
    /// root result. The second component counts this node once plus the
    /// counts of the children the cutoff let it expand, saturating at
    /// `i32::MAX` instead of overflowing; a node whose side to move has no
    /// moves keeps the sentinel score and counts once.
    pub fn minmax(
        &self,
        board: Board,
        depth: i32,
        maximising_player: bool,
        alpha: i32,
        beta: i32,
    ) -> (r: (i32, i32))
        requires
            self.colours_set(),
            board.wf(),
            depth >= 0,
            alpha < beta,
        ensures
            ({
                let v = search_value(
                    board.squares@,
                    depth as int,
                    maximising_player,
                    self.ai(),
                    self.player(),
                );
                let exact = alpha_beta_result(
                    board.squares@,
                    depth as int,
                    maximising_player,
                    alpha as int,
                    beta as int,
                    self.ai(),
                    self.player(),
                );
                &&& r.0 as int == exact.0
                &&& r.1 as int == exact.1
                &&& alpha < v < beta ==> r.0 == v
                &&& v <= alpha ==> r.0 <= alpha
                &&& v >= beta ==> r.0 >= beta
                &&& alpha == i32::MIN && beta == i32::MAX ==> r.0 == v
                &&& r.1 >= 1
                &&& (depth == 0 || has_winner(board.squares@)) ==> (r.0 == evaluation(
                    board.squares@,
                    self.ai(),
                ) && r.1 == 1)
                &&& (depth != 0 && !has_winner(board.squares@) && maximising_player
                    && generated_moves(board.squares@, self.player()).len() == 0) ==> (r.0
                    == i32::MIN && r.1 == 1)
                &&& (depth != 0 && !has_winner(board.squares@) && !maximising_player
                    && generated_moves(board.squares@, self.ai()).len() == 0) ==> (r.0 == i32::MAX
                    && r.1 == 1)
            }),
        decreases depth,
    {
        let ghost s = board.squares@;
        let ghost ai_c = self.ai();
        let ghost pl_c = self.player();
        let ghost v = search_value(s, depth as int, maximising_player, ai_c, pl_c);
        let ghost exact = alpha_beta_result(
            s,
            depth as int,
            maximising_player,
            alpha as int,
            beta as int,
            ai_c,
            pl_c,
        );
        proof {
            lemma_search_value_in_range(s, depth as int, maximising_player, ai_c, pl_c);
        }
        if depth == 0 || board.return_winner().is_some() {
            let e = board.static_evaluation(self.ai_colour.unwrap());
            return (e, 1);
        }
        if maximising_player {
            let legal_moves = self.generate_legal_moves(&board, self.player_colour.unwrap());
            let ghost moves = legal_moves@;
            proof {
                lemma_fold_prefix_full(s, moves, depth as int, true, ai_c, pl_c, 0);
                assert(v == fold_prefix(s, moves, moves.len() as int, depth as int, true, ai_c, pl_c));
                assert(exact == alpha_beta_fold(
                    s,
                    moves,
                    0,
                    i32::MIN as int,
                    alpha as int,
                    beta as int,
                    1,
                    depth as int,
                    true,
                    ai_c,
                    pl_c,
                ));
            }
            let mut max_eval = i32::MIN;
            let mut alpha_l = alpha;
            let mut nodes_evaluated: i32 = 1;
            let mut i: usize = 0;
            let mut done = false;
            while i < legal_moves.len() && !done
                invariant
                    self.colours_set(),
                    ai_c == self.ai(),
                    pl_c == self.player(),
                    board.wf(),
                    s == board.squares@,
                    depth >= 1,
                    alpha < beta,
                    moves == legal_moves@,
                    moves == generated_moves(s, pl_c),
                    forall|t: int|
                        0 <= t < moves.len() ==> move_ok(s, pl_c, #[trigger] moves[t]),
                    0 <= i <= moves.len(),
                    v == fold_prefix(s, moves, moves.len() as int, depth as int, true, ai_c, pl_c),
                    alpha_l as int == int_max(alpha as int, max_eval as int),
                    nodes_evaluated >= 1,
                    !done ==> max_eval as int <= int_max(
                        alpha as int,
                        fold_prefix(s, moves, i as int, depth as int, true, ai_c, pl_c),
                    ),
                    !done ==> fold_prefix(s, moves, i as int, depth as int, true, ai_c, pl_c)
                        <= int_max(alpha as int, max_eval as int),
                    !done ==> alpha_l < beta,
                    done ==> max_eval >= beta && v >= beta,
                    !done ==> alpha_beta_fold(
                        s,
                        moves,
                        i as int,
                        max_eval as int,
                        alpha_l as int,
                        beta as int,
                        nodes_evaluated as int,
                        depth as int,
                        true,
                        ai_c,
                        pl_c,
                    ) == exact,
                    done ==> max_eval as int == exact.0 && nodes_evaluated as int == exact.1,
                decreases moves.len() - i,
            {
                let ghost pm_i = fold_prefix(s, moves, i as int, depth as int, true, ai_c, pl_c);
                let ghost m_i = max_eval as int;
                let ghost a_i = alpha_l as int;
                let ghost n_i = nodes_evaluated as int;
                let movedef = legal_moves[i];
                let ghost child_s = apply_movedef_spec(s, moves[i as int]);
                let mut new_board = board.duplicate();
                new_board.ingest_movedef(movedef);
                let ret = self.minmax(new_board, depth - 1, false, alpha_l, beta);
                let eval = ret.0;
                let ghost cv = search_value(child_s, depth as int - 1, false, ai_c, pl_c);
                proof {
                    lemma_search_value_in_range(child_s, depth as int - 1, false, ai_c, pl_c);
                    assert(fold_prefix(s, moves, i as int + 1, depth as int, true, ai_c, pl_c)
                        == int_max(pm_i, cv));
                    lemma_fold_prefix_monotone(
                        s,
                        moves,
                        depth as int,
                        true,
                        ai_c,
                        pl_c,
                        i as int + 1,
                        moves.len() as int,
                    );
                }
                if eval > max_eval {
                    max_eval = eval;
                }
                if max_eval > alpha_l {
                    alpha_l = max_eval;
                }
                nodes_evaluated = if nodes_evaluated <= i32::MAX - ret.1 {
                    nodes_evaluated + ret.1
                } else {
                    i32::MAX
                };
                if beta <= alpha_l {
                    done = true;
                    proof {
                        assert(max_eval as int >= beta as int);
                        assert(cv >= beta as int);
                        assert(v >= beta as int);
                    }
                }
                proof {
                    let child = alpha_beta_result(
                        child_s,
                        depth as int - 1,
                        false,
                        a_i,
                        beta as int,
                        ai_c,
                        pl_c,
                    );
                    assert(ret.0 as int == child.0);
                    assert(ret.1 as int == child.1);
                    assert(max_eval as int == int_max(m_i, child.0));
                    assert(alpha_l as int == int_max(a_i, int_max(m_i, child.0)));
                    assert(nodes_evaluated as int == saturating_count(n_i, child.1));
                    if done {
                        assert(max_eval as int == exact.0 && nodes_evaluated as int == exact.1);
                    } else {
                        assert(alpha_beta_fold(
                            s,
                            moves,
                            i as int + 1,
                            max_eval as int,
                            alpha_l as int,
                            beta as int,
                            nodes_evaluated as int,
                            depth as int,
                            true,
                            ai_c,
                            pl_c,
                        ) == exact);
                    }
                }
                i += 1;
            }
            proof {
                if !done {
                    assert(i == moves.len());
                    assert(max_eval as int <= int_max(alpha as int, v));
                    assert(v <= int_max(alpha as int, max_eval as int));
                }
                if alpha == i32::MIN && beta == i32::MAX {
                    assert(i32::MIN <= v <= i32::MAX);
                    assert(max_eval as int == v);
                }
                assert(max_eval as int == exact.0);
                assert(nodes_evaluated as int == exact.1);
            }
            (max_eval, nodes_evaluated)
        } else {
            let legal_moves = self.generate_legal_moves(&board, self.ai_colour.unwrap());
            let ghost moves = legal_moves@;
            proof {
                lemma_fold_prefix_full(s, moves, depth as int, false, ai_c, pl_c, 0);
                assert(v == fold_prefix(s, moves, moves.len() as int, depth as int, false, ai_c, pl_c));
                assert(exact == alpha_beta_fold(
                    s,
                    moves,
                    0,
                    i32::MAX as int,
                    alpha as int,
                    beta as int,
                    1,
                    depth as int,
                    false,
                    ai_c,
                    pl_c,
                ));
            }
            let mut min_eval = i32::MAX;
            let mut beta_l = beta;
            let mut nodes_evaluated: i32 = 1;
            let mut i: usize = 0;
            let mut done = false;
            while i < legal_moves.len() && !done
                invariant
                    self.colours_set(),
                    ai_c == self.ai(),
                    pl_c == self.player(),
                    board.wf(),
                    s == board.squares@,
                    depth >= 1,
                    alpha < beta,
                    moves == legal_moves@,
                    moves == generated_moves(s, ai_c),
                    forall|t: int|
                        0 <= t < moves.len() ==> move_ok(s, ai_c, #[trigger] moves[t]),
                    0 <= i <= moves.len(),
                    v == fold_prefix(s, moves, moves.len() as int, depth as int, false, ai_c, pl_c),
                    beta_l as int == int_min(beta as int, min_eval as int),
                    nodes_evaluated >= 1,
                    !done ==> min_eval as int >= int_min(
                        beta as int,
                        fold_prefix(s, moves, i as int, depth as int, false, ai_c, pl_c),
                    ),
                    !done ==> fold_prefix(s, moves, i as int, depth as int, false, ai_c, pl_c)
                        >= int_min(beta as int, min_eval as int),
                    !done ==> alpha < beta_l,
                    done ==> min_eval <= alpha && v <= alpha,
                    !done ==> alpha_beta_fold(
                        s,
                        moves,
                        i as int,
                        min_eval as int,
                        alpha as int,
                        beta_l as int,
                        nodes_evaluated as int,
                        depth as int,
                        false,
                        ai_c,
                        pl_c,
                    ) == exact,
                    done ==> min_eval as int == exact.0 && nodes_evaluated as int == exact.1,
                decreases moves.len() - i,
            {
                let ghost pm_i = fold_prefix(s, moves, i as int, depth as int, false, ai_c, pl_c);
                let ghost m_i = min_eval as int;
                let ghost b_i = beta_l as int;
                let ghost n_i = nodes_evaluated as int;
                let movedef = legal_moves[i];
                let ghost child_s = apply_movedef_spec(s, moves[i as int]);
                let mut new_board = board.duplicate();
                new_board.ingest_movedef(movedef);
                let ret = self.minmax(new_board, depth - 1, true, alpha, beta_l);
                let eval = ret.0;
                let ghost cv = search_value(child_s, depth as int - 1, true, ai_c, pl_c);
                proof {
                    lemma_search_value_in_range(child_s, depth as int - 1, true, ai_c, pl_c);
                    assert(fold_prefix(s, moves, i as int + 1, depth as int, false, ai_c, pl_c)
                        == int_min(pm_i, cv));
                    lemma_fold_prefix_monotone(
                        s,
                        moves,
                        depth as int,
                        false,
                        ai_c,
                        pl_c,
                        i as int + 1,
                        moves.len() as int,
                    );
                }
                if eval < min_eval {
                    min_eval = eval;
                }
                if min_eval < beta_l {
                    beta_l = min_eval;
                }
                nodes_evaluated = if nodes_evaluated <= i32::MAX - ret.1 {
                    nodes_evaluated + ret.1
                } else {
                    i32::MAX
                };
                if beta_l <= alpha {
                    done = true;
                    proof {
                        assert(min_eval as int <= alpha as int);
                        assert(cv <= alpha as int);
                        assert(v <= alpha as int);
                    }
                }
                proof {
                    let child = alpha_beta_result(
                        child_s,
                        depth as int - 1,
                        true,
                        alpha as int,
                        b_i,
                        ai_c,
                        pl_c,
                    );
                    assert(ret.0 as int == child.0);
                    assert(ret.1 as int == child.1);
                    assert(min_eval as int == int_min(m_i, child.0));
                    assert(beta_l as int == int_min(b_i, int_min(m_i, child.0)));
                    assert(nodes_evaluated as int == saturating_count(n_i, child.1));
                    if done {
                        assert(min_eval as int == exact.0 && nodes_evaluated as int == exact.1);
                    } else {
                        assert(alpha_beta_fold(
                            s,
                            moves,
                            i as int + 1,
                            min_eval as int,
                            alpha as int,
                            beta_l as int,
                            nodes_evaluated as int,
                            depth as int,
                            false,
                            ai_c,
                            pl_c,
                        ) == exact);
                    }
                }
                i += 1;
            }
            proof {
                if !done {
                    assert(i == moves.len());
                    assert(min_eval as int >= int_min(beta as int, v));
                    assert(v >= int_min(beta as int, min_eval as int));
                }
                if alpha == i32::MIN && beta == i32::MAX {
                    assert(i32::MIN <= v <= i32::MAX);
                    assert(min_eval as int == v);
                }
                assert(min_eval as int == exact.0);
                assert(nodes_evaluated as int == exact.1);
            }
            (min_eval, nodes_evaluated)
        }
    }

    /// The machine's ply: search every legal machine move to the given
    /// depth, and return one of the collected candidates together with the
    /// node count summed over the root moves (the root itself uncounted,
    /// sums saturating). Which candidate comes back is random; that it is
    /// drawn from the forward-pass candidate list, and the count itself,
    /// are not.
    pub fn get_best_move(&self, depth: i32) -> (r: (Movedef, i32))
        requires
            self.colours_set(),
            self.board matches Some(b) && b.wf(),
            depth >= 1,
            generated_moves(self.board.unwrap().squares@, self.ai()).len() > 0,
        ensures
            best_move_candidates(
                self.board.unwrap().squares@,
                depth as int,
                self.ai(),
                self.player(),
            ).contains(r.0),
            move_ok(self.board.unwrap().squares@, self.ai(), r.0),
            ({
                let moves = generated_moves(self.board.unwrap().squares@, self.ai());
                r.1 as int == root_nodes_prefix(
                    self.board.unwrap().squares@,
                    moves,
                    moves.len() as int,
                    depth as int,
                    self.ai(),
                    self.player(),
                )
            }),
            r.1 >= 1,
    {
        let ghost ai_c = self.ai();
        let ghost pl_c = self.player();
        let board = self.board.as_ref().unwrap().duplicate();
        let ghost s = board.squares@;
        let legal_moves = self.generate_legal_moves(&board, self.ai_colour.unwrap());
        let ghost moves = legal_moves@;
        let mut best_moves: Vec<Movedef> = Vec::new();
        let mut best_eval = i32::MIN;
        let mut nodes_evaluated: i32 = 0;
        let mut i: usize = 0;
        while i < legal_moves.len()
            invariant
                self.colours_set(),
                ai_c == self.ai(),
                pl_c == self.player(),
                board.wf(),
                s == board.squares@,
                self.board matches Some(b) && b.squares@ == s,
                depth >= 1,
                moves == legal_moves@,
                moves == generated_moves(s, ai_c),
                forall|t: int| 0 <= t < moves.len() ==> move_ok(s, ai_c, #[trigger] moves[t]),
                0 <= i <= moves.len(),
                best_moves@ == candidates_prefix(s, moves, i as int, depth as int, ai_c, pl_c),
                best_eval as int == best_prefix(s, moves, i as int, depth as int, ai_c, pl_c),
                forall|t: int|
                    0 <= t < best_moves@.len() ==> move_ok(s, ai_c, #[trigger] best_moves@[t]),
                i >= 1 ==> best_moves@.len() >= 1,
                nodes_evaluated >= 0,
                i >= 1 ==> nodes_evaluated >= 1,
                nodes_evaluated as int == root_nodes_prefix(
                    s,
                    moves,
                    i as int,
                    depth as int,
                    ai_c,
                    pl_c,
                ),
            decreases moves.len() - i,
        {
            let ghost n_i = nodes_evaluated as int;
            let movedef = legal_moves[i];
            let ghost child_s = apply_movedef_spec(s, moves[i as int]);
            let mut new_board = board.duplicate();
            new_board.ingest_movedef(movedef);
            let ret = self.minmax(new_board, depth - 1, false, i32::MIN, i32::MAX);
            let eval = ret.0;
            proof {
                lemma_search_value_in_range(child_s, depth as int - 1, false, ai_c, pl_c);
                assert(eval as int == root_value(s, moves[i as int], depth as int, ai_c, pl_c));
            }
            nodes_evaluated = if nodes_evaluated <= i32::MAX - ret.1 {
                nodes_evaluated + ret.1
            } else {
                i32::MAX
            };
            proof {
                assert(nodes_evaluated as int == saturating_count(
                    n_i,
                    alpha_beta_result(
                        child_s,
                        depth as int - 1,
                        false,
                        i32::MIN as int,
                        i32::MAX as int,
                        ai_c,
                        pl_c,
                    ).1,
                ));
                assert(nodes_evaluated as int == root_nodes_prefix(
                    s,
                    moves,
                    i as int + 1,
                    depth as int,
                    ai_c,
                    pl_c,
                ));
            }
            if eval >= best_eval {
                best_eval = eval;
                best_moves.push(movedef);
            }
            i += 1;
        }
        let idx = random_below(best_moves.len());
        let best_move = best_moves[idx];
        proof {
            assert(best_moves@.contains(best_moves@[idx as int]));
        }
        (best_move, nodes_evaluated)
    }
}

/// Relies on rand::Rng::gen_range over the range `0..n`, on the
/// thread-local generator: the sampled value is uniform in the range and
/// in particular below `n`; the range is non-empty, so the call cannot
/// panic.
#[verifier::external_body]
fn random_below(n: usize) -> (r: usize)
    requires
        n >= 1,
    ensures
        r < n,
{
    rand::Rng::gen_range(&mut rand::thread_rng(), 0..n)
}

} // verus!
