use chess_engine::board::fen::Field;
use chess_engine::piece::util::{position_hides_check, threatened_at};
use chess_engine::util::{Expected, Fault};
use chess_engine::wire::{
    answer, match_color_to_char, read_answer, read_request, reply_text, Incoming, Reply, Request,
};
use chess_engine::piece::Kind;
use chess_engine::{Board, Color, Error, Game, GameState, Move, Piece, Position};

fn sq(name: &str) -> Position {
    Position::parse(name).unwrap()
}

fn mv(text: &str) -> Move {
    Move::arabic(text).unwrap()
}

fn game_from(fen: &str) -> Game {
    Game::new(Board::from_fen(fen).unwrap())
}

fn play(game: &mut Game, text: &str) -> Result<GameState, Error> {
    game.make_move(mv(text), || panic!("no promotion expected"))
}

fn destinations(board: &Board, from: &str) -> Vec<String> {
    let from = sq(from);
    let mut out = vec![];
    let mut moves = board.get(from).unwrap().moves(board, from);
    while let Some(p) = moves.next() {
        out.push(p.to_string());
    }
    out.sort();
    out
}

#[test]
fn colors_flip_and_advance() {
    assert_eq!(Color::White.other(), Color::Black);
    assert_eq!(Color::Black.other(), Color::White);
    assert_eq!(Color::White.forwards(), -1);
    assert_eq!(Color::Black.forwards(), 1);
    assert_eq!(Color::White.backwards(), 1);
    assert_eq!(Color::Black.backwards(), -1);
}

#[test]
fn positions_are_checked() {
    assert_eq!(Position::new(7, 7), Some(Position { file: 7, rank: 7 }));
    assert_eq!(Position::new(8, 0), None);
    assert_eq!(Position::new(0, 8), None);
    assert_eq!(Position::new_i8(0, 0), Some(Position { file: 0, rank: 0 }));
    assert_eq!(Position::new_i8(-1, 3), None);
    assert_eq!(Position::new_i8(3, -1), None);
    assert_eq!(Position::new_i8(8, 3), None);
    assert_eq!(Position::new_unchecked(4, 6).file(), 4);
    assert_eq!(Position::new_i8_unchecked(4, 6).rank(), 6);
}

#[test]
fn square_names_invert_the_rank() {
    assert_eq!(sq("a1"), Position { file: 0, rank: 7 });
    assert_eq!(sq("h8"), Position { file: 7, rank: 0 });
    assert_eq!(sq("e4"), Position { file: 4, rank: 4 });
    assert_eq!(Position { file: 0, rank: 7 }.to_string(), "a1");
    assert_eq!(Position { file: 7, rank: 0 }.to_string(), "h8");
    assert_eq!("c6".parse::<Position>(), Ok(Position { file: 2, rank: 2 }));
}

#[test]
fn square_names_are_rejected() {
    for bad in ["", "a", "a0", "a9", "i1", "A1", "a1 ", "11", "aa", "e\u{e9}"] {
        assert_eq!(Position::parse(bad), Err(Error::ParsingError), "at: {:?}", bad);
        assert_eq!(bad.parse::<Position>(), Err(Error::ParsingError), "at: {:?}", bad);
    }
}

#[test]
fn arabic_round_trip() {
    for from in 0..64u8 {
        for to in 0..64u8 {
            let m = Move {
                from: Position::new_unchecked(from % 8, from / 8),
                to: Position::new_unchecked(to % 8, to / 8),
            };
            let text = m.as_arabic();
            assert_eq!(text.len(), 4);
            assert_eq!(Move::arabic(&text), Ok(m));
        }
    }
    assert_eq!(mv("h8a1").as_arabic(), "h8a1");
}

#[test]
fn arabic_rejects_other_lengths_and_characters() {
    for bad in ["", "e2", "e2e", "e2e4e", "e2-e4", "e0e4", "e2e9", "j2e4", "e2k4", "E2E4", "\u{e9}2e4"] {
        assert_eq!(Move::arabic(bad), Err(Error::ParsingError), "at: {:?}", bad);
    }
}

#[test]
fn piece_letters_round_trip() {
    for (letter, color, kind) in [
        ('P', Color::White, Kind::Pawn),
        ('R', Color::White, Kind::Rook),
        ('N', Color::White, Kind::Knight),
        ('B', Color::White, Kind::Bishop),
        ('Q', Color::White, Kind::Queen),
        ('K', Color::White, Kind::King),
        ('p', Color::Black, Kind::Pawn),
        ('r', Color::Black, Kind::Rook),
        ('n', Color::Black, Kind::Knight),
        ('b', Color::Black, Kind::Bishop),
        ('q', Color::Black, Kind::Queen),
        ('k', Color::Black, Kind::King),
    ] {
        let piece = Piece::new(color, kind);
        assert_eq!(Piece::from_name(letter), Ok(piece));
        assert_eq!(piece.name(), letter);
        assert_eq!(Kind::from_name(letter), Ok(kind));
        assert_eq!(kind.name(), letter.to_ascii_uppercase());
    }
}

#[test]
fn every_other_character_names_no_piece() {
    for code in 0..0x250u32 {
        let c = char::from_u32(code).unwrap();
        let known = "prnbqkPRNBQK".contains(c);
        assert_eq!(Piece::from_name(c).is_err(), !known, "at: {:?}", c);
        assert_eq!(Kind::from_name(c).is_err(), !known, "at: {:?}", c);
        if !known {
            assert_eq!(Piece::from_name(c), Err(Error::ParsingError));
        }
    }
}

#[test]
fn figurines() {
    assert_eq!(Piece::new(Color::White, Kind::Pawn).emoji(), '♟');
    assert_eq!(Piece::new(Color::Black, Kind::Pawn).emoji(), '♙');
    assert_eq!(Piece::new(Color::White, Kind::King).emoji(), '♚');
    assert_eq!(Piece::new(Color::Black, Kind::Queen).emoji(), '♕');
    assert_eq!(Piece::new(Color::White, Kind::Knight).emoji(), '♞');
    assert_eq!(Piece::new(Color::Black, Kind::Rook).emoji(), '♖');
    assert_eq!(Piece::new(Color::White, Kind::Bishop).emoji(), '♝');
}

#[test]
fn error_messages() {
    assert_eq!(Error::OtherPlayersTurn.to_string(), "Other players turn");
    assert_eq!(Error::NoPieceToMove.to_string(), "No piece to move");
    assert_eq!(Error::IllegalMove.to_string(), "Illegal move");
    assert_eq!(Error::UnknwonPiece('x').to_string(), "Unknown piece x");
    assert_eq!(Error::ParsingError.to_string(), "Parsing error");
    assert_eq!(Error::InvalidGameState.to_string(), "Invalid game state");
}

#[test]
fn default_board_is_the_starting_record() {
    let parsed =
        Board::from_fen("rnbqkbnr/pppppppp/8/8/8/8/PPPPPPPP/RNBQKBNR w KQkq - 0 1").unwrap();
    assert_eq!(parsed, Board::default());
    assert_eq!(Board::default().next_to_move(), Color::White);
    assert_eq!(Board::default().get_king_position(Color::White), sq("e1"));
    assert_eq!(Board::default().get_king_position(Color::Black), sq("e8"));
    assert!(!Board::default().in_check());
    assert!(!Board::default().in_double_check());
}

#[test]
fn board_text() {
    let expected = "1 ♖ ♘ ♗ ♕ ♔ ♗ ♘ ♖\n\
                    2 ♙ ♙ ♙ ♙ ♙ ♙ ♙ ♙\n\
                    3 . . . . . . . .\n\
                    4 . . . . . . . .\n\
                    5 . . . . . . . .\n\
                    6 . . . . . . . .\n\
                    7 ♟ ♟ ♟ ♟ ♟ ♟ ♟ ♟\n\
                    8 ♜ ♞ ♝ ♛ ♚ ♝ ♞ ♜\n  A B C D E F G H\n";
    assert_eq!(Board::default().to_string(), expected);
}

#[test]
fn fen_round_trip() {
    for fen in [
        "rnbqkbnr/pppppppp/8/8/8/8/PPPPPPPP/RNBQKBNR w KQkq - 0 1",
        "r3k2r/p1ppqpb1/bn2pnp1/3PN3/1p2P3/2N2Q1p/PPPBBPPP/R3K2R w KQkq - 0 1",
        "8/2p5/3p4/KP5r/1R3p1k/8/4P1P1/8 w - - 0 1",
        "rnbq1k1r/pp1Pbppp/2p5/8/2B5/8/PPP1NnPP/RNBQK2R w KQ - 1 8",
        "rnbqkbnr/pp1ppppp/8/2p5/4P3/8/PPPP1PPP/RNBQKBNR w Kq c6 0 2",
        "4k3/8/8/8/8/8/8/4K3 b - - 65535 65535",
        "k6K/8/8/8/8/8/8/8 w - - 10 100",
    ] {
        let board = Board::from_fen(fen).unwrap();
        assert_eq!(board.to_fen(), fen);
        assert_eq!(Board::from_fen(&board.to_fen()), Ok(board));
    }
}

#[test]
fn fen_round_trip_through_play() {
    let mut game = Game::new(Board::default());
    for text in ["g1f3", "b8c6", "e2e4", "e7e5", "f1c4", "f8c5", "e1g1", "g8f6", "d2d4", "e5d4"] {
        assert_eq!(play(&mut game, text), Ok(GameState::Ongoing));
        let board = game.board().clone();
        assert_eq!(Board::from_fen(&board.to_fen()), Ok(board));
    }
    assert_eq!(
        game.board().to_fen(),
        "r1bqk2r/pppp1ppp/2n2n2/2b5/2BpP3/5N2/PPP2PPP/RNBQ1RK1 w kq - 0 6"
    );
}

#[test]
fn fen_forgets_recorded_checks() {
    let mut game = Game::new(Board::default());
    for text in ["e2e4", "f7f6", "d1h5"] {
        assert_eq!(play(&mut game, text), Ok(GameState::Ongoing));
    }
    assert!(game.board().in_check());
    let reread = Board::from_fen(&game.board().to_fen()).unwrap();
    assert!(!reread.in_check());
    assert_eq!(reread, Board { checking_pieces: 0, ..game.board().clone() });
}

#[test]
fn fen_blanks_and_signs() {
    let board = Board::from_fen("  4k3/8/8/8/8/8/8/4K3 \t b\n-  -   +07 0012  trailing").unwrap();
    assert_eq!(board.to_fen(), "4k3/8/8/8/8/8/8/4K3 b - - 7 12");
    let short = Board::from_fen("k/K w qK - 0 1").unwrap();
    assert_eq!(short.to_fen(), "k7/K7/8/8/8/8/8/8 w Kq - 0 1");
}

#[test]
fn fen_parse_errors() {
    for bad in [
        "",
        "4k3/8/8/8/8/8/8/4K3",
        "4k3/8/8/8/8/8/8/4K3 w - - 0",
        "4k3/8/8/8/8/8/8/4K3 x - - 0 1",
        "4k3/8/8/8/8/8/8/4K3 ww - - 0 1",
        "4k3/8/8/8/8/8/8/4K3 w KX - 0 1",
        "4k3/8/8/8/8/8/8/4K3 w K- - 0 1",
        "4k3/8/8/8/8/8/8/4K3 w - e - 0",
        "4k3/8/8/8/8/8/8/4K3 w - e9 0 1",
        "4k3/8/8/8/8/8/8/4K3 w - - x 1",
        "4k3/8/8/8/8/8/8/4K3 w - - 0 -1",
        "4k3/8/8/8/8/8/8/4K3 w - - 0 65536",
        "4k3/8/8/8/8/8/8/4K3 w - - 70000 1",
        "4k3/8/8/8/8/8/8/4K3 w - - + 1",
        "4k3/8/8/8/8/8/8/4K3/8 w - - 0 1",
        "4k4/8/8/8/8/8/8/4K3 w - - 0 1",
        "4k3/9/8/8/8/8/8/4K3 w - - 0 1",
        "4k3/0/8/8/8/8/8/4K3 w - - 0 1",
        "4k3/8/8/8/3x4/8/8/4K3 w - - 0 1",
        "ppppppppp/8/8/8/8/8/8/4K3 w - - 0 1",
    ] {
        assert_eq!(Board::from_fen(bad), Err(Error::ParsingError), "at: {:?}", bad);
    }
}

#[test]
fn fen_needs_both_kings() {
    for bad in [
        "8/8/8/8/8/8/8/8 w - - 0 1",
        "4k3/8/8/8/8/8/8/8 w - - 0 1",
        "8/8/8/8/8/8/8/4K3 w - - 0 1",
        "rnbq1bnr/pppppppp/8/8/8/8/PPPPPPPP/RNBQKBNR w KQkq - 0 1",
    ] {
        assert_eq!(Board::from_fen(bad), Err(Error::InvalidGameState), "at: {:?}", bad);
    }
}

#[test]
fn turn_enforcement() {
    let mut game = Game::new(Board::default());
    let before = game.board().clone();
    for text in ["e7e5", "b8c6", "a7a6", "e8e7"] {
        assert_eq!(play(&mut game, text), Err(Error::OtherPlayersTurn));
        assert_eq!(*game.board(), before);
    }
    assert_eq!(play(&mut game, "e2e4"), Ok(GameState::Ongoing));
    let before = game.board().clone();
    for text in ["d2d4", "g1f3", "e4e5"] {
        assert_eq!(play(&mut game, text), Err(Error::OtherPlayersTurn));
        assert_eq!(*game.board(), before);
    }
}

#[test]
fn refused_moves_leave_the_board() {
    let mut game = Game::new(Board::default());
    let before = game.board().clone();
    assert_eq!(play(&mut game, "e3e4"), Err(Error::NoPieceToMove));
    assert_eq!(play(&mut game, "e2e5"), Err(Error::IllegalMove));
    assert_eq!(play(&mut game, "e1e2"), Err(Error::IllegalMove));
    assert_eq!(play(&mut game, "a1a3"), Err(Error::IllegalMove));
    assert_eq!(play(&mut game, "e2e2"), Err(Error::IllegalMove));
    assert_eq!(game.make_move_with(mv("e3e4"), Kind::Queen), Err(Error::NoPieceToMove));
    assert_eq!(game.make_move_with(mv("e7e5"), Kind::Queen), Err(Error::OtherPlayersTurn));
    assert_eq!(game.make_move_with(mv("b1b3"), Kind::Queen), Err(Error::IllegalMove));
    assert_eq!(*game.board(), before);
}

#[test]
fn opening_moves_of_each_piece() {
    let board = Board::default();
    assert_eq!(destinations(&board, "e2"), ["e3", "e4"]);
    assert_eq!(destinations(&board, "b1"), ["a3", "c3"]);
    assert_eq!(destinations(&board, "a1"), Vec::<String>::new());
    assert_eq!(destinations(&board, "c1"), Vec::<String>::new());
    assert_eq!(destinations(&board, "d1"), Vec::<String>::new());
    assert_eq!(destinations(&board, "e1"), Vec::<String>::new());
    assert_eq!(destinations(&board, "g8"), ["f6", "h6"]);
    assert_eq!(destinations(&board, "d7"), ["d5", "d6"]);
}

#[test]
fn moves_come_in_a_fixed_order() {
    let board = Board::from_fen("4k3/8/8/8/3N4/8/8/4K3 w - - 0 1").unwrap();
    let from = sq("d4");
    let mut moves = board.get(from).unwrap().moves(&board, from);
    let mut seen = vec![];
    while let Some(p) = moves.next() {
        seen.push(p.to_string());
    }
    assert_eq!(seen, ["f5", "e6", "c6", "b5", "b3", "c2", "e2", "f3"]);
    assert_eq!(moves.next(), None);
    let mut appended = vec![sq("a1")];
    board.get(from).unwrap().append_moves(&board, from, &mut appended);
    assert_eq!(appended.len(), 9);
    assert_eq!(appended[0], sq("a1"));
    assert_eq!(appended[1], sq("f5"));
}

#[test]
fn sliders_stop_at_pieces() {
    let board = Board::from_fen("4k3/8/8/1p6/8/1R2P3/8/4K3 w - - 0 1").unwrap();
    assert_eq!(destinations(&board, "b3"), ["a3", "b1", "b2", "b4", "b5", "c3", "d3"]);
    let board = Board::from_fen("4k3/8/5p2/8/3B4/2P5/8/4K3 w - - 0 1").unwrap();
    assert_eq!(destinations(&board, "d4"), ["a7", "b6", "c5", "e3", "e5", "f2", "f6", "g1"]);
    let board = Board::from_fen("4k3/8/8/8/8/8/PP6/QP2K3 w - - 0 1").unwrap();
    assert_eq!(destinations(&board, "a1"), Vec::<String>::new());
}

#[test]
fn pinned_pieces_stay_on_the_line() {
    let board = Board::from_fen("4r1k1/8/8/8/8/8/4R3/4K3 w - - 0 1").unwrap();
    assert_eq!(destinations(&board, "e2"), ["e3", "e4", "e5", "e6", "e7", "e8"]);
    assert_eq!(position_hides_check(&board, sq("e2"), Color::White), Some((0, 1)));
    assert_eq!(position_hides_check(&board, sq("e2"), Color::Black), None);
    let board = Board::from_fen("4r1k1/8/8/8/8/8/4N3/4K3 w - - 0 1").unwrap();
    assert_eq!(destinations(&board, "e2"), Vec::<String>::new());
    let board = Board::from_fen("6k1/8/8/8/1b6/8/3P4/4K3 w - - 0 1").unwrap();
    assert_eq!(destinations(&board, "d2"), Vec::<String>::new());
    assert_eq!(position_hides_check(&board, sq("d2"), Color::White), Some((1, 1)));
    let board = Board::from_fen("6k1/8/8/8/8/2b5/3P4/4K3 w - - 0 1").unwrap();
    assert_eq!(destinations(&board, "d2"), ["c3"]);
    let board = Board::from_fen("4r1k1/8/8/8/8/8/4P3/4K3 w - - 0 1").unwrap();
    assert_eq!(destinations(&board, "e2"), ["e3", "e4"]);
}

#[test]
fn checks_must_be_answered() {
    let board = Board::from_fen("4k3/8/8/8/8/5n2/3P4/R3K3 w - - 0 1").unwrap();
    assert_eq!(destinations(&board, "a1"), Vec::<String>::new());
    assert_eq!(destinations(&board, "d2"), Vec::<String>::new());
    assert_eq!(destinations(&board, "e1"), ["d1", "e2", "f1", "f2"]);
    let board = Board::from_fen("4k3/8/8/8/8/5n2/4P3/R3K3 w - - 0 1").unwrap();
    assert_eq!(destinations(&board, "e2"), ["f3"]);
    let board = Board::from_fen("4k3/8/8/8/4r3/8/8/R3K2B w - - 0 1").unwrap();
    assert_eq!(destinations(&board, "h1"), ["e4"]);
    assert_eq!(destinations(&board, "a1"), Vec::<String>::new());
    assert_eq!(destinations(&board, "e1"), ["d1", "d2", "f1", "f2"]);
}

#[test]
fn two_recorded_checks_leave_only_the_king() {
    let mut board = Board::from_fen("4k3/8/8/8/8/8/PPPPPPPP/RNBQKBNR w KQ - 0 1").unwrap();
    assert_eq!(destinations(&board, "b1"), ["a3", "c3"]);
    board.checking_pieces = 2;
    assert!(board.in_double_check());
    for from in ["a2", "b1", "a1", "c1", "d1"] {
        assert_eq!(destinations(&board, from), Vec::<String>::new());
    }
    let board = Board::from_fen("4k3/8/8/8/8/8/8/4K3 w - - 0 1").unwrap();
    let two = Board { checking_pieces: 2, ..board };
    assert_eq!(destinations(&two, "e1"), ["d1", "d2", "e2", "f1", "f2"]);
}

#[test]
fn threat_query() {
    let board = Board::from_fen("4k3/8/8/8/4r3/8/4P3/4K3 w - - 0 1").unwrap();
    let king = sq("e1");
    assert!(!threatened_at(king, &[], &[], Color::White, &board));
    assert!(threatened_at(king, &[sq("e2")], &[], Color::White, &board));
    assert!(!threatened_at(king, &[sq("e2")], &[sq("e3")], Color::White, &board));
    assert!(!threatened_at(king, &[sq("e2")], &[sq("e4")], Color::White, &board));
    assert!(threatened_at(sq("a4"), &[], &[], Color::White, &board));
    assert!(!threatened_at(sq("a4"), &[], &[], Color::Black, &board));
    assert!(threatened_at(sq("d3"), &[], &[], Color::Black, &board));
    assert!(!threatened_at(sq("e3"), &[], &[], Color::Black, &board));
    assert!(threatened_at(sq("d2"), &[], &[], Color::Black, &board));
    let board = Board::from_fen("4k3/8/8/8/8/5n2/8/4K3 w - - 0 1").unwrap();
    assert!(threatened_at(king, &[], &[], Color::White, &board));
    assert!(!threatened_at(king, &[], &[sq("f3")], Color::White, &board));
    let board = Board::from_fen("4k3/8/8/8/8/8/3p4/4K3 w - - 0 1").unwrap();
    assert!(threatened_at(king, &[], &[], Color::White, &board));
    assert!(!threatened_at(sq("d1"), &[], &[], Color::White, &board));
    assert!(threatened_at(sq("c1"), &[], &[], Color::White, &board));
}

#[test]
fn castling_moves_the_rook() {
    let mut game = game_from("r3k2r/8/8/8/8/8/8/R3K2R w KQkq - 0 1");
    assert_eq!(destinations(game.board(), "e1"), ["c1", "d1", "d2", "e2", "f1", "f2", "g1"]);
    assert_eq!(play(&mut game, "e1g1"), Ok(GameState::Ongoing));
    assert_eq!(game.board().to_fen(), "r3k2r/8/8/8/8/8/8/R4RK1 b kq - 1 1");
    assert_eq!(play(&mut game, "e8c8"), Ok(GameState::Ongoing));
    assert_eq!(game.board().to_fen(), "2kr3r/8/8/8/8/8/8/R4RK1 w - - 2 2");
}

#[test]
fn castling_needs_safe_and_empty_squares() {
    let board = Board::from_fen("4k3/8/8/8/8/8/8/R3K1NR w KQ - 0 1").unwrap();
    assert_eq!(destinations(&board, "e1"), ["c1", "d1", "d2", "e2", "f1", "f2"]);
    let board = Board::from_fen("4k3/8/8/8/8/8/8/RN2K2R w KQ - 0 1").unwrap();
    assert_eq!(destinations(&board, "e1"), ["d1", "d2", "e2", "f1", "f2", "g1"]);
    let board = Board::from_fen("4kr2/8/8/8/8/8/8/R3K2R w KQ - 0 1").unwrap();
    assert_eq!(destinations(&board, "e1"), ["c1", "d1", "d2", "e2"]);
    let board = Board::from_fen("4k1r1/8/8/8/8/8/8/R3K2R w KQ - 0 1").unwrap();
    assert_eq!(destinations(&board, "e1"), ["c1", "d1", "d2", "e2", "f1", "f2"]);
    let board = Board::from_fen("3rk3/8/8/8/8/8/8/R3K2R w KQ - 0 1").unwrap();
    assert_eq!(destinations(&board, "e1"), ["e2", "f1", "f2", "g1"]);
    let board = Board::from_fen("1r2k3/8/8/8/8/8/8/R3K2R w KQ - 0 1").unwrap();
    assert_eq!(destinations(&board, "e1"), ["c1", "d1", "d2", "e2", "f1", "f2", "g1"]);
    let board = Board::from_fen("4r1k1/8/8/8/8/8/8/R3K2R w KQ - 0 1").unwrap();
    assert_eq!(destinations(&board, "e1"), ["d1", "d2", "f1", "f2"]);
    let board = Board::from_fen("4k3/8/8/8/8/8/8/R3K2R w - - 0 1").unwrap();
    assert_eq!(destinations(&board, "e1"), ["d1", "d2", "e2", "f1", "f2"]);
    let board = Board::from_fen("4k3/8/8/8/8/8/8/4K2R w Q - 0 1").unwrap();
    assert_eq!(destinations(&board, "e1"), ["d1", "d2", "e2", "f1", "f2"]);
}

#[test]
fn castling_rights_are_lost() {
    let mut game = game_from("r3k2r/8/8/8/8/8/8/R3K2R w KQkq - 0 1");
    assert_eq!(play(&mut game, "h1h2"), Ok(GameState::Ongoing));
    assert!(!game.board().can_castle_kingside(Color::White));
    assert!(game.board().can_castle_queenside(Color::White));
    assert_eq!(play(&mut game, "a8a7"), Ok(GameState::Ongoing));
    assert!(game.board().can_castle_kingside(Color::Black));
    assert!(!game.board().can_castle_queenside(Color::Black));
    assert_eq!(play(&mut game, "e1e2"), Ok(GameState::Ongoing));
    assert!(!game.board().can_castle_queenside(Color::White));
    assert_eq!(play(&mut game, "e8d8"), Ok(GameState::Ongoing));
    assert_eq!(game.board().to_fen(), "3k3r/r7/8/8/8/8/4K2R/R7 w - - 4 3");

    let mut game = game_from("r3k2r/8/8/8/8/8/8/R3K2R w KQkq - 0 1");
    assert_eq!(play(&mut game, "a1a8"), Ok(GameState::Ongoing));
    assert_eq!(game.board().to_fen(), "R3k2r/8/8/8/8/8/8/4K2R b Kk - 0 1");
}

#[test]
fn en_passant() {
    let mut game = game_from("4k3/8/8/8/2p5/8/3P4/4K3 w - - 0 1");
    assert_eq!(play(&mut game, "d2d4"), Ok(GameState::Ongoing));
    assert_eq!(game.board().en_passant_square(), Some(sq("d3")));
    assert_eq!(game.board().to_fen(), "4k3/8/8/8/2pP4/8/8/4K3 b - d3 0 1");
    assert_eq!(destinations(game.board(), "c4"), ["c3", "d3"]);
    assert_eq!(play(&mut game, "c4d3"), Ok(GameState::Ongoing));
    assert_eq!(game.board().to_fen(), "4k3/8/8/8/8/3p4/8/4K3 w - - 0 2");

    let mut game = game_from("4k3/8/8/8/2p5/8/3P4/4K3 w - - 0 1");
    assert_eq!(play(&mut game, "d2d4"), Ok(GameState::Ongoing));
    assert_eq!(play(&mut game, "e8e7"), Ok(GameState::Ongoing));
    assert_eq!(game.board().en_passant_square(), None);
    assert_eq!(play(&mut game, "e1e2"), Ok(GameState::Ongoing));
    assert_eq!(destinations(game.board(), "c4"), ["c3"]);
}

#[test]
fn en_passant_may_not_uncover_the_king() {
    let board = Board::from_fen("8/8/8/8/k1pP3R/8/8/4K3 b - d3 0 1").unwrap();
    assert_eq!(destinations(&board, "c4"), ["c3"]);
    let board = Board::from_fen("8/8/8/8/k1pP4/8/8/4K2R b - d3 0 1").unwrap();
    assert_eq!(destinations(&board, "c4"), ["c3", "d3"]);
}

#[test]
fn promotion_asks_for_the_kind() {
    let mut game = game_from("4k3/P7/8/8/8/8/8/4K3 w - - 0 1");
    assert_eq!(game.make_move(mv("a7a8"), || Kind::Rook), Ok(GameState::Ongoing));
    assert_eq!(game.board().to_fen(), "R3k3/8/8/8/8/8/8/4K3 b - - 0 1");
    assert!(game.board().in_check());

    let mut game = game_from("4k3/P7/8/8/8/8/8/4K3 w - - 0 1");
    assert_eq!(game.make_move_with(mv("a7a8"), Kind::Knight), Ok(GameState::Ongoing));
    assert_eq!(game.board().to_fen(), "N3k3/8/8/8/8/8/8/4K3 b - - 0 1");
    assert!(!game.board().in_check());

    let mut game = game_from("4k3/8/8/8/8/8/p7/4K3 b - - 0 1");
    assert_eq!(game.make_move(mv("a2a1"), || Kind::Queen), Ok(GameState::Ongoing));
    assert_eq!(game.board().to_fen(), "4k3/8/8/8/8/8/8/q3K3 w - - 0 2");
    assert!(game.board().in_check());
}

#[test]
fn recorded_checks_count_the_moved_piece() {
    let mut game = Game::new(Board::default());
    assert_eq!(play(&mut game, "e2e4"), Ok(GameState::Ongoing));
    assert!(!game.board().in_check());
    assert_eq!(play(&mut game, "f7f6"), Ok(GameState::Ongoing));
    assert_eq!(play(&mut game, "d1h5"), Ok(GameState::Ongoing));
    assert!(game.board().in_check());
    assert!(!game.board().in_double_check());
    assert_eq!(game.board().checking_pieces, 1);
    assert_eq!(play(&mut game, "g7g6"), Ok(GameState::Ongoing));
    assert_eq!(game.board().checking_pieces, 0);

    let mut game = game_from("5k2/8/8/8/8/8/8/R3K3 w Q - 0 1");
    assert_eq!(play(&mut game, "e1c1"), Ok(GameState::Ongoing));
    assert_eq!(game.board().checking_pieces, 0);
    let mut game = game_from("3k4/8/8/8/8/8/8/R3K3 w Q - 0 1");
    assert_eq!(play(&mut game, "e1c1"), Ok(GameState::Ongoing));
    assert_eq!(game.board().checking_pieces, 1);
    assert_eq!(game.board().to_fen(), "3k4/8/8/8/8/8/8/2KR4 b - - 1 1");
}

#[test]
fn pieces_give_check() {
    let board = Board::from_fen("4k3/8/8/8/8/8/8/4K3 w - - 0 1").unwrap();
    let white = |kind| Piece::new(Color::White, kind);
    assert!(white(Kind::Rook).checks(sq("e2"), &board));
    assert!(white(Kind::Rook).checks(sq("a8"), &board));
    assert!(!white(Kind::Rook).checks(sq("d7"), &board));
    assert!(white(Kind::Bishop).checks(sq("b5"), &board));
    assert!(!white(Kind::Bishop).checks(sq("e2"), &board));
    assert!(white(Kind::Queen).checks(sq("e2"), &board));
    assert!(white(Kind::Queen).checks(sq("h5"), &board));
    assert!(!white(Kind::Queen).checks(sq("f6"), &board));
    assert!(white(Kind::Knight).checks(sq("d6"), &board));
    assert!(white(Kind::Knight).checks(sq("g7"), &board));
    assert!(!white(Kind::Knight).checks(sq("e6"), &board));
    assert!(white(Kind::Pawn).checks(sq("d7"), &board));
    assert!(white(Kind::Pawn).checks(sq("f7"), &board));
    assert!(!white(Kind::Pawn).checks(sq("e7"), &board));
    assert!(!white(Kind::King).checks(sq("e7"), &board));
    let black = |kind| Piece::new(Color::Black, kind);
    assert!(black(Kind::Pawn).checks(sq("d2"), &board));
    assert!(!black(Kind::Pawn).checks(sq("d7"), &board));
    assert!(black(Kind::Rook).checks(sq("e7"), &board));
    let blocked = Board::from_fen("4k3/8/8/8/4p3/8/8/4K3 w - - 0 1").unwrap();
    assert!(!white(Kind::Rook).checks(sq("e2"), &blocked));
    assert!(white(Kind::Rook).checks(sq("e5"), &blocked));
}

#[test]
fn fools_mate() {
    let mut game = Game::new(Board::default());
    assert_eq!(play(&mut game, "f2f3"), Ok(GameState::Ongoing));
    assert_eq!(play(&mut game, "e7e5"), Ok(GameState::Ongoing));
    assert_eq!(play(&mut game, "g2g4"), Ok(GameState::Ongoing));
    assert_eq!(
        play(&mut game, "d8h4"),
        Ok(GameState::Checkmate { winner: Color::Black })
    );
    assert_eq!(
        game.board().to_fen(),
        "rnb1kbnr/pppp1ppp/8/4p3/6Pq/5P2/PPPPP2P/RNBQKBNR w KQkq - 1 3"
    );
}

#[test]
fn back_rank_mate() {
    let mut game = game_from("6k1/5ppp/8/8/8/8/8/R3K3 w - - 0 1");
    assert_eq!(
        play(&mut game, "a1a8"),
        Ok(GameState::Checkmate { winner: Color::White })
    );
}

#[test]
fn stalemate_is_a_draw() {
    let mut game = game_from("7k/4Q3/5K2/8/8/8/8/8 w - - 0 1");
    assert_eq!(play(&mut game, "e7f7"), Ok(GameState::Draw));
    assert!(!game.board().in_check());
}

#[test]
fn fifty_halfmoves_are_a_draw() {
    let mut game = game_from("4k3/8/8/8/8/8/8/R3K3 w - - 48 30");
    assert_eq!(play(&mut game, "a1a2"), Ok(GameState::Ongoing));
    assert_eq!(game.board().halfmove_counter, 49);
    assert_eq!(play(&mut game, "e8d8"), Ok(GameState::Draw));
    assert_eq!(game.board().halfmove_counter, 50);
    assert_eq!(game.board().move_number, 31);
}

#[test]
fn halfmove_counter_resets() {
    let mut game = game_from("4k3/8/8/8/8/p7/4P3/R3K3 w - - 10 30");
    assert_eq!(play(&mut game, "e1d1"), Ok(GameState::Ongoing));
    assert_eq!(game.board().halfmove_counter, 11);
    assert_eq!(play(&mut game, "e8d8"), Ok(GameState::Ongoing));
    assert_eq!(game.board().halfmove_counter, 12);
    assert_eq!(play(&mut game, "e2e3"), Ok(GameState::Ongoing));
    assert_eq!(game.board().halfmove_counter, 0);
    assert_eq!(play(&mut game, "d8c8"), Ok(GameState::Ongoing));
    assert_eq!(game.board().halfmove_counter, 1);
    assert_eq!(play(&mut game, "a1a3"), Ok(GameState::Ongoing));
    assert_eq!(game.board().halfmove_counter, 0);
    assert_eq!(game.board().move_number, 32);
}

#[test]
fn board_accessors() {
    let mut board = Board::default();
    assert_eq!(board.tiles()[7][4], Some(Piece::new(Color::White, Kind::King)));
    assert_eq!(board.get(sq("d8")), Some(Piece::new(Color::Black, Kind::Queen)));
    board.set(sq("d8"), None);
    assert_eq!(board.get(sq("d8")), None);
    board.switch_next_to_move();
    assert_eq!((board.next_to_move(), board.move_number), (Color::Black, 1));
    board.switch_next_to_move();
    assert_eq!((board.next_to_move(), board.move_number), (Color::White, 2));
    board.set_en_passant_square(Some(sq("e3")));
    assert_eq!(board.en_passant_square(), Some(sq("e3")));
    board.cannot_castle_kingside(Color::White);
    board.cannot_castle_queenside(Color::Black);
    assert!(!board.can_castle_kingside(Color::White));
    assert!(board.can_castle_queenside(Color::White));
    assert!(board.can_castle_kingside(Color::Black));
    assert!(!board.can_castle_queenside(Color::Black));
    board.halfmove_counter = 7;
    board.reset_halvmove_counter();
    assert_eq!(board.halfmove_counter, 0);
    assert_eq!(board.find_king(Color::Black), Some(sq("e8")));
    board.set(sq("e8"), None);
    assert_eq!(board.find_king(Color::Black), None);
}

#[test]
fn long_algebraic_notation() {
    let board = Board::default();
    assert_eq!(mv("g1f3").as_algebraic(&board, None), Some("Ng1f3".to_string()));
    assert_eq!(mv("e2e4").as_algebraic(&board, None), Some("e2e4".to_string()));
    assert_eq!(mv("e4e5").as_algebraic(&board, None), None);
    let board = Board::from_fen("r3k2r/8/8/8/7q/8/6P1/R3K2R w KQkq - 0 1").unwrap();
    assert_eq!(mv("e1g1").as_algebraic(&board, None), Some("0-0".to_string()));
    assert_eq!(mv("e1c1").as_algebraic(&board, None), Some("0-0-0".to_string()));
    assert_eq!(mv("h1h4").as_algebraic(&board, None), Some("Rh1xh4".to_string()));
    assert_eq!(mv("a1a8").as_algebraic(&board, None), Some("Ra1xa8+".to_string()));
    assert_eq!(mv("h4e1").as_algebraic(&board, None), Some("Qh4xe1".to_string()));
    let board = Board::from_fen("3rk3/2P5/8/8/8/8/8/4K3 w - - 0 1").unwrap();
    assert_eq!(
        mv("c7d8").as_algebraic(&board, Some(Kind::Queen)),
        Some("c7xd8Q".to_string())
    );
    assert_eq!(
        mv("c7c8").as_algebraic(&board, Some(Kind::Knight)),
        Some("c7c8N".to_string())
    );
}

#[test]
fn fen_faults_name_the_field() {
    for (fen, field) in [
        ("", Some(Field::Placement)),
        ("4k3/8/8/8/8/8/8/4K2x w - - 0 1", Some(Field::Placement)),
        ("4k3/8/8/8/8/8/8/4K3", Some(Field::SideToMove)),
        ("4k3/8/8/8/8/8/8/4K3 white - - 0 1", Some(Field::SideToMove)),
        ("4k3/8/8/8/8/8/8/4K3 w", Some(Field::Castling)),
        ("4k3/8/8/8/8/8/8/4K3 w kx - 0 1", Some(Field::Castling)),
        ("4k3/8/8/8/8/8/8/4K3 w -", Some(Field::EnPassant)),
        ("4k3/8/8/8/8/8/8/4K3 w - e33 0 1", Some(Field::EnPassant)),
        ("4k3/8/8/8/8/8/8/4K3 w - e3", Some(Field::Halfmoves)),
        ("4k3/8/8/8/8/8/8/4K3 w - e3 1.5 1", Some(Field::Halfmoves)),
        ("4k3/8/8/8/8/8/8/4K3 w - e3 0", Some(Field::MoveNumber)),
        ("4k3/8/8/8/8/8/8/4K3 w - e3 0 65536", Some(Field::MoveNumber)),
        ("4k3/8/8/8/8/8/8/4K3 w - e3 0 65535", None),
        ("8/8/8/8/8/8/8/8 w - - 0 1", None),
    ] {
        assert_eq!(Board::fen_fault(fen), field, "at: {:?}", fen);
        assert_eq!(
            Board::from_fen(fen) == Err(Error::ParsingError),
            field.is_some(),
            "at: {:?}",
            fen
        );
    }
}

#[test]
fn arabic_faults_name_the_place() {
    for (text, fault) in [
        ("", Some(Fault { at: 0, expected: Expected::File })),
        ("4", Some(Fault { at: 0, expected: Expected::File })),
        ("e", Some(Fault { at: 1, expected: Expected::Rank })),
        ("ee", Some(Fault { at: 1, expected: Expected::Rank })),
        ("e2", Some(Fault { at: 2, expected: Expected::File })),
        ("e2-e4", Some(Fault { at: 2, expected: Expected::File })),
        ("e2e", Some(Fault { at: 3, expected: Expected::Rank })),
        ("e2e9", Some(Fault { at: 3, expected: Expected::Rank })),
        ("e2e4q", Some(Fault { at: 4, expected: Expected::End })),
        ("e2e4", None),
    ] {
        assert_eq!(Move::arabic_fault(text), fault, "at: {:?}", text);
        assert_eq!(Move::arabic(text).is_err(), fault.is_some(), "at: {:?}", text);
    }
}

#[test]
fn sound_positions() {
    assert!(Board::default().is_sound());
    let mut game = Game::new(Board::default());
    for text in ["e2e4", "d7d5", "e4d5", "d8d5", "b1c3", "d5e5", "f1e2", "c8g4", "d2d4"] {
        assert_eq!(play(&mut game, text), Ok(GameState::Ongoing));
        assert!(game.board().is_sound(), "after: {}", text);
    }
    for fen in [
        "r3k2r/p1ppqpb1/bn2pnp1/3PN3/1p2P3/2N2Q1p/PPPBBPPP/R3K2R w KQkq - 0 1",
        "8/2p5/3p4/KP5r/1R3p1k/8/4P1P1/8 w - - 0 1",
        "rnbqkbnr/pp1ppppp/8/2p5/4P3/8/PPPP1PPP/RNBQKBNR w KQkq c6 0 2",
        "r3k2r/Pppp1ppp/1b3nbN/nP6/BBP1P3/q4N2/Pp1P2PP/R2Q1RK1 w kq - 0 1",
    ] {
        assert!(Board::from_fen(fen).unwrap().is_sound(), "at: {}", fen);
    }
}

#[test]
fn unsound_positions() {
    for fen in [
        // The side that has just moved is in check.
        "4k3/8/8/8/8/8/4R3/4K3 w - - 0 1",
        // A castling right without the rook in its corner.
        "4k3/8/8/8/8/8/8/4K3 w K - 0 1",
        // A castling right with the king off its home square.
        "4k3/8/8/8/8/8/4K3/R6R w Q - 0 1",
        // Two kings on one side.
        "4k3/8/8/8/8/8/8/2K1K3 w - - 0 1",
        // An en passant target on the wrong rank.
        "4k3/8/8/8/4P3/8/8/4K3 b - e4 0 1",
        // An en passant target without a pawn in front of it.
        "4k3/8/8/8/8/8/8/4K3 b - e3 0 1",
        // An en passant target for the side that has just moved.
        "4k3/8/8/8/4P3/8/8/4K3 w - e3 0 1",
    ] {
        assert!(!Board::from_fen(fen).unwrap().is_sound(), "at: {}", fen);
    }
    let board = Board::default();
    assert!(!Board { checking_pieces: 1, ..board.clone() }.is_sound());
    assert!(!Board { checking_pieces: 2, ..board.clone() }.is_sound());
    assert!(board.has_one_king(Color::White));
    assert!(board.has_sound_rights(Color::Black));
    assert!(board.has_sound_target());
    assert!(!board.king_attacked(Color::White));
    let check = Board::from_fen("4k3/8/8/8/8/8/4r3/4K3 w - - 0 1").unwrap();
    assert!(check.king_attacked(Color::White));
    assert!(!check.king_attacked(Color::Black));
    assert!(check.is_sound());
}

#[test]
fn requests_are_read() {
    let queen = |text: &str, promotion| Some(Request::Move { move_: mv(text), promotion });
    for (line, request) in [
        ("move:e7e5-", queen("e7e5", Kind::Queen)),
        ("move:a2a1q", queen("a2a1", Kind::Queen)),
        ("move:a2a1r", queen("a2a1", Kind::Rook)),
        ("move:a2a1b", queen("a2a1", Kind::Bishop)),
        ("move:a2a1n and more", queen("a2a1", Kind::Knight)),
        ("init:", Some(Request::Init)),
        ("init:anything", Some(Request::Init)),
        (":", Some(Request::Other)),
        ("moves:e7e5-", Some(Request::Other)),
        ("Move:e7e5-", Some(Request::Other)),
        ("board:8/8 w", Some(Request::Other)),
        ("", None),
        ("move", None),
        ("move:e7e5", None),
        ("move:e7e5k", None),
        ("move:e7e9-", None),
        ("move:e7:e5-", None),
        ("init::", None),
        ("move:", None),
    ] {
        assert_eq!(read_request(line), request, "at: {:?}", line);
    }
}

#[test]
fn requests_are_answered() {
    let mut game = Game::new(Board::default());
    let start = "rnbqkbnr/pppppppp/8/8/8/8/PPPPPPPP/RNBQKBNR w KQkq - 0 1";
    let ask = |game: &mut Game, line: &str| {
        let reply = answer(game, read_request(line).unwrap());
        (reply, reply_text(reply, game.board()))
    };
    assert_eq!(ask(&mut game, "init:"), (Reply::Board, format!("board:{};", start)));
    assert_eq!(
        ask(&mut game, "other:x"),
        (Reply::Invalid, "err: Invalid payload type;".to_string())
    );
    assert_eq!(
        ask(&mut game, "move:e2e4-"),
        (Reply::NotYours, "err: Can't move enemy pieces".to_string())
    );
    assert_eq!(
        ask(&mut game, "move:e7e5-"),
        (
            Reply::Refused { error: Error::OtherPlayersTurn },
            "err:Other players turn;".to_string()
        )
    );
    assert_eq!(
        ask(&mut game, "move:e4e5-"),
        (Reply::Refused { error: Error::NoPieceToMove }, "err:No piece to move;".to_string())
    );
    assert_eq!(game.board().to_fen(), start);
    for text in ["f2f3"] {
        assert_eq!(play(&mut game, text), Ok(GameState::Ongoing));
    }
    assert_eq!(
        ask(&mut game, "move:e7e5-"),
        (
            Reply::Board,
            "board:rnbqkbnr/pppp1ppp/8/4p3/8/5P2/PPPPP1PP/RNBQKBNR w KQkq e6 0 2;".to_string()
        )
    );
    assert_eq!(play(&mut game, "g2g4"), Ok(GameState::Ongoing));
    assert_eq!(
        ask(&mut game, "move:e7e6-"),
        (Reply::Refused { error: Error::NoPieceToMove }, "err:No piece to move;".to_string())
    );
    assert_eq!(
        ask(&mut game, "move:d8h4-"),
        (
            Reply::End { winner: Some(Color::Black) },
            "end:brnb1kbnr/pppp1ppp/8/4p3/6Pq/5P2/PPPPP2P/RNBQKBNR w KQkq - 1 3;".to_string()
        )
    );
    let mut game = game_from("7K/2q5/5k2/8/8/8/8/8 b - - 0 1");
    assert_eq!(
        ask(&mut game, "move:c7f7-"),
        (Reply::End { winner: None }, "end:-7K/5q2/5k2/8/8/8/8/8 w - - 1 2;".to_string())
    );
    assert_eq!(match_color_to_char(Color::White), 'w');
    assert_eq!(match_color_to_char(Color::Black), 'b');
}

#[test]
fn answers_are_read() {
    let start = "rnbqkbnr/pppppppp/8/8/8/8/PPPPPPPP/RNBQKBNR w KQkq - 0 1";
    assert_eq!(
        read_answer(&format!("board:{};", start)),
        Some(Incoming::Board { board: Board::default() })
    );
    assert_eq!(
        read_answer(&format!("board:;;{}", start)),
        Some(Incoming::Board { board: Board::default() })
    );
    assert_eq!(
        read_answer("board:8/8/8/8/8/8/8/8 w - - 0 1;"),
        Some(Incoming::BadBoard { error: Error::InvalidGameState })
    );
    assert_eq!(
        read_answer("board:nothing;"),
        Some(Incoming::BadBoard { error: Error::ParsingError })
    );
    assert_eq!(read_answer("end:-8/8 w"), Some(Incoming::End));
    assert_eq!(read_answer("err: Invalid payload type;"), Some(Incoming::Refusal));
    assert_eq!(read_answer("boards:x"), Some(Incoming::Other));
    assert_eq!(read_answer("board"), None);
    assert_eq!(read_answer("err:Other players turn: twice;"), None);
}

#[test]
fn moves_are_handed_out_in_turn() {
    let board = Board::default();
    let mut moves = chess_engine::piece::Moves::new(&board, sq("g1"));
    assert_eq!(moves.next(), Some(sq("h3")));
    assert_eq!(moves.next(), Some(sq("f3")));
    assert_eq!(moves.next(), None);
    assert_eq!(moves.next(), None);
    let pawn = chess_engine::piece::pawn::Moves::new(&board, sq("e7"));
    assert_eq!(pawn.from, sq("e7"));
    assert_eq!(pawn.color, Color::Black);
    assert_eq!(pawn.king, Some(sq("e8")));
    assert_eq!(pawn.pin, None);
    let piece = board.get(sq("e2")).unwrap();
    assert!(piece.can_move(mv("e2e4"), &board));
    assert!(!piece.can_move(mv("e2e5"), &board));
    let game = Game::new(board);
    assert_eq!(game.check_move(mv("e2e4")), Ok(piece));
    assert_eq!(game.check_move(mv("e2e5")), Err(Error::IllegalMove));
    assert_eq!(game.check_move(mv("e7e5")), Err(Error::OtherPlayersTurn));
    assert_eq!(game.check_move(mv("e4e5")), Err(Error::NoPieceToMove));
}
