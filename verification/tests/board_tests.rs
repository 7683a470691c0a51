use checkers::board::{Board, Piece};
use checkers::movedef::Movedef;
use checkers::player::Colour;

fn board_with(pieces: &[(usize, bool, Colour)]) -> Board {
    let mut squares: Vec<Option<Piece>> = Vec::new();
    for _ in 0..64 {
        squares.push(None);
    }
    for &(loc, king, colour) in pieces {
        let mut p = Piece::new(loc, colour);
        if king {
            p.make_king();
        }
        squares[loc] = Some(p);
    }
    Board { squares }
}

#[test]
fn move_piece() {
    let mut b = Board::new();
    let m = Movedef {
        start: 23,
        end: 30,
        taken_piece: None,
    };
    b.ingest_movedef(m);
    assert_eq!(b.squares[23], None);
    assert_eq!(b.squares[30].unwrap().colour, Colour::White);
}

#[test]
fn take_piece() {
    let mut b = Board::new();
    let m = Movedef {
        start: 23,
        end: 30,
        taken_piece: None,
    };
    b.ingest_movedef(m);
    assert_eq!(b.squares[23], None);
    assert_eq!(b.squares[30].unwrap().colour, Colour::White);
    let m = Movedef {
        start: 44,
        end: 37,
        taken_piece: None,
    };
    b.ingest_movedef(m);
    assert_eq!(b.squares[30].unwrap().colour, Colour::White);
    let m = Movedef {
        start: 30,
        end: 44,
        taken_piece: Some(37),
    };
    b.ingest_movedef(m);
    assert_eq!(b.squares[30], None);
    assert_eq!(b.squares[44].unwrap().colour, Colour::White);
    assert_eq!(b.squares[37], None);
}

#[test]
fn piece_gets_crowned() {
    let mut b = Board::new();
    let m = Movedef {
        start: Board::get_index_from_row_col(5, 4),
        end: Board::get_index_from_row_col(4, 5),
        taken_piece: None,
    };
    b.ingest_movedef(m);
    let m = Movedef {
        start: Board::get_index_from_row_col(4, 5),
        end: Board::get_index_from_row_col(3, 6),
        taken_piece: None,
    };
    b.ingest_movedef(m);
    let m = Movedef {
        start: Board::get_index_from_row_col(6, 3),
        end: Board::get_index_from_row_col(5, 4),
        taken_piece: None,
    };
    b.ingest_movedef(m);
    let m = Movedef {
        start: Board::get_index_from_row_col(5, 4),
        end: Board::get_index_from_row_col(4, 3),
        taken_piece: None,
    };
    b.ingest_movedef(m);
    let m = Movedef {
        start: Board::get_index_from_row_col(7, 2),
        end: Board::get_index_from_row_col(6, 3),
        taken_piece: None,
    };
    b.ingest_movedef(m);
    let m = Movedef {
        start: Board::get_index_from_row_col(2, 7),
        end: Board::get_index_from_row_col(4, 5),
        taken_piece: Some(Board::get_index_from_row_col(3, 6)),
    };
    b.ingest_movedef(m);
    let m = Movedef {
        start: Board::get_index_from_row_col(4, 5),
        end: Board::get_index_from_row_col(5, 4),
        taken_piece: None,
    };
    b.ingest_movedef(m);
    let m = Movedef {
        start: Board::get_index_from_row_col(5, 4),
        end: Board::get_index_from_row_col(7, 2),
        taken_piece: Some(Board::get_index_from_row_col(6, 3)),
    };
    b.ingest_movedef(m);
    assert_eq!(
        b.squares[Board::get_index_from_row_col(7, 2)].unwrap().king,
        true
    );
}

#[test]
fn starting_layout() {
    let b = Board::new();
    assert_eq!(b.squares.len(), 64);
    for &i in &[1, 3, 5, 7, 8, 10, 12, 14, 17, 19, 21, 23] {
        let p = b.squares[i].unwrap();
        assert_eq!(p.colour, Colour::White);
        assert_eq!(p.king, false);
        assert_eq!(p.loc, i);
    }
    for &i in &[40, 42, 44, 46, 49, 51, 53, 55, 56, 58, 60, 62] {
        let p = b.squares[i].unwrap();
        assert_eq!(p.colour, Colour::Black);
        assert_eq!(p.king, false);
        assert_eq!(p.loc, i);
    }
    assert_eq!(b.get_all_colour_pieces(Colour::White).len(), 12);
    assert_eq!(b.get_all_colour_pieces(Colour::Black).len(), 12);
    assert_eq!(b.squares[0], None);
    assert_eq!(b.squares[24], None);
}

#[test]
fn colour_other() {
    assert_eq!(Colour::Black.other(), Colour::White);
    assert_eq!(Colour::White.other(), Colour::Black);
}

#[test]
fn piece_basics() {
    let mut p = Piece::new(12, Colour::Black);
    assert_eq!(p.loc, 12);
    assert_eq!(p.king, false);
    assert_eq!(p.colour, Colour::Black);
    p.update_coord(21);
    assert_eq!(p.loc, 21);
    assert_eq!(p.king, false);
    p.make_king();
    assert!(p.king);
    assert_eq!(p.as_piece_string(), " 🔲 ");
    assert_eq!(Piece::new(5, Colour::White).as_piece_string(), " ⬜️ ");
}

#[test]
fn index_helpers() {
    assert_eq!(Board::get_row_col_from_index(17), (2, 1));
    assert_eq!(Board::get_row_col_from_index(63), (7, 7));
    assert_eq!(Board::get_index_from_row_col(2, 1), 17);
    assert_eq!(Board::get_index_from_row_col(0, 0), 0);
    assert!(Board::inside_board(7, 7));
    assert!(!Board::inside_board(8, 0));
    assert!(!Board::inside_board(0, 8));
}

#[test]
fn crowning_rows() {
    assert!(Board::piece_get_crowned(2, Colour::Black));
    assert!(!Board::piece_get_crowned(2, Colour::White));
    assert!(Board::piece_get_crowned(58, Colour::White));
    assert!(!Board::piece_get_crowned(58, Colour::Black));
    assert!(!Board::piece_get_crowned(30, Colour::Black));
    assert!(!Board::piece_get_crowned(30, Colour::White));
}

#[test]
fn static_evaluation_start_is_even() {
    let b = Board::new();
    assert_eq!(b.static_evaluation(Colour::White), 0);
    assert_eq!(b.static_evaluation(Colour::Black), 0);
}

#[test]
fn static_evaluation_material() {
    let b = board_with(&[(10, true, Colour::White), (50, false, Colour::Black)]);
    assert_eq!(b.static_evaluation(Colour::White), 2);
    assert_eq!(b.static_evaluation(Colour::Black), -2);
}

#[test]
fn static_evaluation_antisymmetric() {
    let b = board_with(&[
        (10, true, Colour::White),
        (19, false, Colour::White),
        (50, false, Colour::Black),
    ]);
    assert_eq!(
        b.static_evaluation(Colour::White),
        -b.static_evaluation(Colour::Black)
    );
    let b = Board::new();
    assert_eq!(
        b.static_evaluation(Colour::White),
        -b.static_evaluation(Colour::Black)
    );
}

#[test]
fn winner_cases() {
    let both = Board::new();
    assert_eq!(both.return_winner(), None);
    let only_white = board_with(&[(17, false, Colour::White)]);
    assert_eq!(only_white.return_winner(), Some(Colour::White));
    let only_black = board_with(&[(44, false, Colour::Black)]);
    assert_eq!(only_black.return_winner(), Some(Colour::Black));
    // The doubly empty board is unreachable in play; the White-first check
    // order makes it a Black win.
    let neither = board_with(&[]);
    assert_eq!(neither.return_winner(), Some(Colour::Black));
}

#[test]
fn capture_transfers_king_status() {
    let mut b = board_with(&[(30, false, Colour::White), (37, true, Colour::Black)]);
    b.ingest_movedef(Movedef {
        start: 30,
        end: 44,
        taken_piece: Some(37),
    });
    let p = b.squares[44].unwrap();
    assert_eq!(p.colour, Colour::White);
    assert_eq!(p.loc, 44);
    assert!(p.king);
    assert_eq!(b.squares[30], None);
    assert_eq!(b.squares[37], None);
}

#[test]
fn opponent_between_finds_midpoint_piece() {
    let b = board_with(&[(28, true, Colour::White), (19, false, Colour::Black)]);
    assert_eq!(b.opposing_piece_between(Colour::White, 3, 4, 1, 2), Some(19));
    assert_eq!(b.opposing_piece_between(Colour::Black, 3, 4, 1, 2), None);
    let empty_mid = board_with(&[(28, true, Colour::White)]);
    assert_eq!(empty_mid.opposing_piece_between(Colour::White, 3, 4, 1, 2), None);
}
