use checkers::board::{Board, Piece};
use checkers::gamemanager::GameManager;
use checkers::movedef::Movedef;
use checkers::player::Colour;

fn board_with(pieces: &[(usize, bool, Colour)]) -> Board {
    let mut squares: Vec<Option<Piece>> = Vec::new();
    for _ in 0..64 {
        squares.push(None);
    }
    for &(loc, king, colour) in pieces {
        let mut p = Piece::new(loc, colour);
        if king {
            p.make_king();
        }
        squares[loc] = Some(p);
    }
    Board { squares }
}

fn manager(board: Board, player: Colour, ai: Colour) -> GameManager {
    GameManager {
        board: Some(board),
        player_colour: Some(player),
        ai_colour: Some(ai),
    }
}

#[test]
fn starting_white_slide_is_generated() {
    let b = Board::new();
    let gm = GameManager::new();
    let moves = gm.generate_legal_moves(&b, Colour::White);
    let expected = Movedef {
        start: 17,
        end: 24,
        taken_piece: None,
    };
    assert!(moves.iter().any(|m| *m == expected));
    let mut b = b;
    b.ingest_movedef(expected);
    assert_eq!(b.squares[17], None);
    let p = b.squares[24].unwrap();
    assert_eq!(p.colour, Colour::White);
    assert_eq!(p.loc, 24);
    assert!(!p.king);
}

#[test]
fn generated_destinations_are_empty() {
    let b = Board::new();
    let gm = GameManager::new();
    for colour in [Colour::White, Colour::Black] {
        let moves = gm.generate_legal_moves(&b, colour);
        assert!(!moves.is_empty());
        for m in moves.iter() {
            assert!(b.squares[m.end].is_none());
            assert!(b.squares[m.start].unwrap().colour == colour);
        }
    }
}

#[test]
fn jump_carries_captured_cell() {
    // A White king on (3,4) can jump the Black man on (2,3) and land on the
    // empty (1,2); the descriptor must carry the midpoint cell.
    let b = board_with(&[(28, true, Colour::White), (19, false, Colour::Black)]);
    let gm = GameManager::new();
    let moves = gm.generate_legal_moves(&b, Colour::White);
    let jump = Movedef {
        start: 28,
        end: 10,
        taken_piece: Some(19),
    };
    assert!(moves.iter().any(|m| *m == jump));
    for m in moves.iter() {
        if let Some(t) = m.taken_piece {
            let captured = b.squares[t].unwrap();
            assert_eq!(captured.colour, Colour::Black);
        }
    }
    let mut b = b;
    b.ingest_movedef(jump);
    assert_eq!(b.squares[19], None);
    assert_eq!(b.squares[28], None);
    assert_eq!(b.squares[10].unwrap().colour, Colour::White);
}

#[test]
fn forward_only_for_men() {
    let b = board_with(&[(28, false, Colour::White), (35, false, Colour::Black)]);
    let gm = GameManager::new();
    for m in gm.generate_legal_moves(&b, Colour::White).iter() {
        assert!(m.end / 8 > m.start / 8);
    }
    for m in gm.generate_legal_moves(&b, Colour::Black).iter() {
        assert!(m.end / 8 < m.start / 8);
    }
}

#[test]
fn depth_zero_minmax_is_static_evaluation() {
    let start = Board::new();
    let gm = manager(start.duplicate(), Colour::White, Colour::Black);
    assert_eq!(
        gm.minmax(start.duplicate(), 0, true, i32::MIN, i32::MAX),
        (0, 1)
    );
    assert_eq!(
        gm.minmax(start.duplicate(), 0, false, i32::MIN, i32::MAX),
        (0, 1)
    );
    let skewed = board_with(&[(10, true, Colour::White), (50, false, Colour::Black)]);
    let gm = manager(skewed.duplicate(), Colour::Black, Colour::White);
    assert_eq!(
        gm.minmax(skewed.duplicate(), 0, true, i32::MIN, i32::MAX),
        (2, 1)
    );
}

#[test]
fn depth_one_minimising_picks_worst_reply() {
    // The machine plays White and has a lone man on (2,7); its only move is
    // the slide to (3,6), after which the position is still even.
    let b = board_with(&[(23, false, Colour::White), (56, false, Colour::Black)]);
    let gm = manager(b.duplicate(), Colour::Black, Colour::White);
    assert_eq!(gm.minmax(b.duplicate(), 1, false, i32::MIN, i32::MAX), (0, 2));
}

#[test]
fn depth_two_search_counts_nodes() {
    // White (machine) to move: one slide 23 -> 30; Black then has two
    // slides from (5,4); every leaf is even, so the value is 0 and the
    // tree holds 1 + (1 + 2) nodes.
    let b = board_with(&[(23, false, Colour::White), (44, false, Colour::Black)]);
    let gm = manager(b.duplicate(), Colour::Black, Colour::White);
    assert_eq!(gm.minmax(b.duplicate(), 2, false, i32::MIN, i32::MAX), (0, 4));
}

#[test]
fn stalemate_returns_sentinel() {
    // A Black man on row 0 has no moves: a maximising node (human replies,
    // Black here) expands nothing and keeps the sentinel, counting once.
    let b = board_with(&[(1, false, Colour::Black), (40, false, Colour::White)]);
    let gm = manager(b.duplicate(), Colour::Black, Colour::White);
    assert_eq!(
        gm.minmax(b.duplicate(), 1, true, i32::MIN, i32::MAX),
        (i32::MIN, 1)
    );
    // A White man on row 7 has no moves: a minimising node (machine moves,
    // White here) keeps the opposite sentinel.
    let b = board_with(&[(58, false, Colour::White), (19, false, Colour::Black)]);
    let gm = manager(b.duplicate(), Colour::Black, Colour::White);
    assert_eq!(
        gm.minmax(b.duplicate(), 1, false, i32::MIN, i32::MAX),
        (i32::MAX, 1)
    );
}

#[test]
fn best_move_with_single_candidate() {
    // White (machine) has exactly one legal move, so the random tie-break
    // has exactly one candidate to draw from.
    let b = board_with(&[(23, false, Colour::White), (56, false, Colour::Black)]);
    let gm = manager(b, Colour::Black, Colour::White);
    let (best, nodes) = gm.get_best_move(1);
    assert_eq!(
        best,
        Movedef {
            start: 23,
            end: 30,
            taken_piece: None,
        }
    );
    assert_eq!(nodes, 1);
}

#[test]
fn best_move_draws_from_candidates() {
    // Two legal moves of equal value: whichever the tie-break draws, it
    // must be one of them.
    let b = board_with(&[(19, false, Colour::White), (60, false, Colour::Black)]);
    let gm = manager(b.duplicate(), Colour::Black, Colour::White);
    let moves = gm.generate_legal_moves(&b, Colour::White);
    assert_eq!(moves.len(), 2);
    let (best, _nodes) = gm.get_best_move(1);
    assert!(moves.iter().any(|m| *m == best));
}

#[test]
fn manager_set_board() {
    let mut gm = GameManager::new();
    assert!(gm.board.is_none());
    assert!(gm.player_colour.is_none());
    assert!(gm.ai_colour.is_none());
    gm.set_board(Board::new());
    assert!(gm.board.is_some());
    assert_eq!(
        gm.board.as_ref().unwrap().squares[17].unwrap().colour,
        Colour::White
    );
}
