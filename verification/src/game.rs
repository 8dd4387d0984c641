//! The game: validates a proposed move, applies it to the board and
//! classifies the position that results.

use vstd::prelude::*;
use crate::board::Board;
use crate::error::Error;
use crate::invariants::{lemma_sound_positions_stay_sound, sound};
use crate::rules::{lemma_state_is_the_verdict, verdict};
use crate::piece::king::home_rank;
use crate::piece::util::{king_safe, lemma_append_nothing, stays_safe};
use crate::piece::{destinations, gives_check, Kind, Piece};
use crate::util::{Color, Move, Position};

verus! {

/// How a game stands after a move.
#[derive(Debug, PartialEq, Eq, Clone, Copy, Structural)]
pub enum GameState {
    Ongoing,
    Checkmate { winner: Color },
    Draw,
}

/// The halfmove count at which a game is drawn.
pub const HALFMOVE_LIMIT: u16 = 50;

/// Why a move is refused, if it is: the source square is empty, its piece
/// belongs to the side that is not to move, or the destination is not among
/// the legal destinations of the piece.
pub open spec fn refusal(board: Board, mv: Move) -> Option<Error> {
    match board.at(mv.from) {
        None => Some(Error::NoPieceToMove),
        Some(p) => if p.color != board.next_to_move {
            Some(Error::OtherPlayersTurn)
        } else if !destinations(board, mv.from, p.kind).contains(mv.to) {
            Some(Error::IllegalMove)
        } else {
            None
        },
    }
}

/// Whether the move takes a pawn to the first or the last rank.
pub open spec fn is_promotion(board: Board, mv: Move) -> bool {
    match board.at(mv.from) {
        Some(p) => p.kind == Kind::Pawn && (mv.to.rank == 7 || mv.to.rank == 0),
        None => false,
    }
}

/// Whether the move takes a king two files sideways.
pub open spec fn is_castling(board: Board, mv: Move) -> bool {
    match board.at(mv.from) {
        Some(p) => p.kind == Kind::King && (mv.to.file - mv.from.file == 2 || mv.to.file
            - mv.from.file == -2),
        None => false,
    }
}

/// The corner from which the rook leaves in a castling move.
pub open spec fn rook_corner(mv: Move) -> Position {
    Position { file: if mv.to.file > mv.from.file { 7 } else { 0 }, rank: mv.to.rank }
}

/// The square on which the rook lands in a castling move: the one that the
/// king has crossed.
pub open spec fn rook_landing(mv: Move) -> Position {
    Position {
        file: if mv.to.file > mv.from.file {
            (mv.to.file - 1) as u8
        } else {
            (mv.to.file + 1) as u8
        },
        rank: mv.to.rank,
    }
}

/// Whether the move takes a pawn onto the en passant target.
pub open spec fn is_en_passant(board: Board, mv: Move) -> bool {
    match board.at(mv.from) {
        Some(p) => p.kind == Kind::Pawn && board.en_passant_square == Some(mv.to),
        None => false,
    }
}

/// The square of the pawn that an en passant capture removes, and the
/// square that a double advance passes over: one rank behind the
/// destination, as the mover sees it.
pub open spec fn square_behind(board: Board, mv: Move) -> Option<Position> {
    mv.to.shifted(0, -board.next_to_move.forward())
}

/// Whether the move takes a pawn two ranks along.
pub open spec fn is_double_advance(board: Board, mv: Move) -> bool {
    match board.at(mv.from) {
        Some(p) => p.kind == Kind::Pawn && (mv.to.rank - mv.from.rank == 2 || mv.to.rank
            - mv.from.rank == -2),
        None => false,
    }
}

/// The board with the moving piece on its destination; a pawn that reaches
/// the first or last rank is replaced by a piece of the chosen kind.
pub open spec fn piece_placed(board: Board, mv: Move, promotion: Kind) -> Board {
    let lifted = board.with_piece(mv.to, board.at(mv.from)).with_piece(mv.from, None);
    if is_promotion(board, mv) {
        lifted.with_piece(mv.to, Some(Piece { color: board.next_to_move, kind: promotion }))
    } else {
        lifted
    }
}

/// The board with the rook of a castling move relocated as well.
pub open spec fn rook_placed(board: Board, mv: Move, promotion: Kind) -> Board {
    let placed = piece_placed(board, mv, promotion);
    if is_castling(board, mv) {
        placed.with_piece(rook_landing(mv), placed.at(rook_corner(mv))).with_piece(
            rook_corner(mv),
            None,
        )
    } else {
        placed
    }
}

/// The number of checks recorded after the move: one for the moved piece
/// if it gives check from its destination, one for the piece a pawn was
/// promoted to, one for the rook of a castling move.
pub open spec fn checks_after(board: Board, mv: Move, promotion: Kind) -> u8 {
    let lifted = board.with_piece(mv.to, board.at(mv.from)).with_piece(mv.from, None);
    let placed = piece_placed(board, mv, promotion);
    let rooked = rook_placed(board, mv, promotion);
    let by_piece: u8 = if gives_check(board.at(mv.from)->Some_0, lifted, mv.to) {
        1
    } else {
        0
    };
    let by_promoted: u8 = if is_promotion(board, mv) && gives_check(
        Piece { color: board.next_to_move, kind: promotion },
        placed,
        mv.to,
    ) {
        1
    } else {
        0
    };
    let by_rook: u8 = if is_castling(board, mv) && (match rooked.at(rook_landing(mv)) {
        Some(rook) => gives_check(rook, rooked, rook_landing(mv)),
        None => false,
    }) {
        1
    } else {
        0
    };
    (by_piece + by_promoted + by_rook) as u8
}

/// The castling rights after the move. A king that moves loses both of its
/// rights, a rook that leaves the a-file or the h-file the right of that
/// side, and a capture in a corner of the enemy's home rank takes the
/// enemy's right of that corner.
pub open spec fn rights_after(board: Board, mv: Move) -> Board {
    let color = board.next_to_move;
    let piece = board.at(mv.from)->Some_0;
    let own = if piece.kind == Kind::King {
        board.without_kingside(color).without_queenside(color)
    } else if piece.kind == Kind::Rook && mv.from.file == 0 {
        board.without_queenside(color)
    } else if piece.kind == Kind::Rook && mv.from.file == 7 {
        board.without_kingside(color)
    } else {
        board
    };
    if mv.to.rank == home_rank(color.flip()) && mv.to.file == 0 {
        own.without_queenside(color.flip())
    } else if mv.to.rank == home_rank(color.flip()) && mv.to.file == 7 {
        own.without_kingside(color.flip())
    } else {
        own
    }
}

/// The occupant that the move captures, if any.
pub open spec fn captured(board: Board, mv: Move, promotion: Kind) -> Option<Piece> {
    if is_en_passant(board, mv) {
        match square_behind(board, mv) {
            Some(t) => rook_placed(board, mv, promotion).at(t),
            None => board.at(mv.to),
        }
    } else {
        board.at(mv.to)
    }
}

/// The board with every piece that the move relocates or removes in its
/// place: the moving piece, the rook of a castling move, and the pawn
/// captured en passant.
pub open spec fn pieces_placed(board: Board, mv: Move, promotion: Kind) -> Board {
    let rooked = rook_placed(board, mv, promotion);
    if is_en_passant(board, mv) && square_behind(board, mv) is Some {
        rooked.with_piece(square_behind(board, mv)->Some_0, None)
    } else {
        rooked
    }
}

/// The board after the move of the side to move, with `promotion` the kind
/// chosen for a pawn that reaches the first or last rank.
///
/// The piece is relocated, with the rook in a castling move; a pawn
/// captured en passant is removed; castling rights, the en passant target,
/// the recorded checks, the turn and both counters are brought up to date.
pub open spec fn after_move(board: Board, mv: Move, promotion: Kind) -> Board {
    let piece = board.at(mv.from)->Some_0;
    let rights = rights_after(board, mv);
    Board {
        tiles: pieces_placed(board, mv, promotion).tiles,
        next_to_move: board.next_to_move.flip(),
        can_castle_white_kingside: rights.can_castle_white_kingside,
        can_castle_white_queenside: rights.can_castle_white_queenside,
        can_castle_black_kingside: rights.can_castle_black_kingside,
        can_castle_black_queenside: rights.can_castle_black_queenside,
        en_passant_square: if is_double_advance(board, mv) {
            square_behind(board, mv)
        } else {
            None
        },
        halfmove_counter: if captured(board, mv, promotion) is Some || piece.kind == Kind::Pawn {
            0
        } else {
            (board.halfmove_counter + 1) as u16
        },
        move_number: if board.next_to_move == Color::Black {
            (board.move_number + 1) as u16
        } else {
            board.move_number
        },
        checking_pieces: checks_after(board, mv, promotion),
    }
}

/// The legal moves of the side to move from the square with number `idx`.
pub open spec fn moves_from(board: Board, idx: int) -> Seq<Position> {
    let sq = Board::square(idx);
    match board.at(sq) {
        Some(p) => if p.color == board.next_to_move {
            destinations(board, sq, p.kind)
        } else {
            seq![]
        },
        None => seq![],
    }
}

/// The legal moves of the side to move from the first `n` squares in scan
/// order.
pub open spec fn moves_upto(board: Board, n: int) -> Seq<Position>
    decreases n,
{
    if n <= 0 {
        seq![]
    } else {
        moves_upto(board, n - 1) + moves_from(board, n - 1)
    }
}

/// The destinations of all legal moves of the side to move.
pub open spec fn all_moves(board: Board) -> Seq<Position> {
    moves_upto(board, 64)
}

/// How the game stands with `board` reached: without a legal move the side
/// to move is checkmated if its king is attacked and the game is drawn if
/// not; with one, the game is drawn once the halfmove counter has reached
/// the limit, and goes on otherwise.
pub open spec fn state_of(board: Board) -> GameState {
    if all_moves(board).len() == 0 {
        if king_safe(board, board.next_to_move, seq![], seq![]) {
            GameState::Draw
        } else {
            GameState::Checkmate { winner: board.next_to_move.flip() }
        }
    } else if board.halfmove_counter >= HALFMOVE_LIMIT {
        GameState::Draw
    } else {
        GameState::Ongoing
    }
}

/// A game in progress: a board that only legal moves change.
pub struct Game {
    board: Board,
}

impl View for Game {
    type V = Board;

    closed spec fn view(&self) -> Board {
        self.board
    }
}

impl Clone for Game {
    fn clone(&self) -> (g: Game)
        ensures
            g@ == self@,
    {
        Game { board: self.board }
    }
}

/// Collects the destinations of all legal moves of the side to move.
pub fn collect_moves(board: &Board) -> (moves: Vec<Position>)
    ensures
        moves@ == all_moves(*board),
{
    let mut moves: Vec<Position> = Vec::new();
    let mut idx: u8 = 0;
    while idx < 64
        invariant
            idx <= 64,
            moves@ == moves_upto(*board, idx as int),
        decreases 64 - idx,
    {
        let pos = Position { file: idx % 8, rank: idx / 8 };
        let ghost before = moves@;
        proof {
            lemma_append_nothing(before);
        }
        if let Some(piece) = board.get(pos) {
            if piece.color == board.next_to_move() {
                piece.append_moves(board, pos, &mut moves);
            }
        }
        idx += 1;
    }
    moves
}

/// Classifies the position on `board`.
pub fn classify(board: &Board) -> (state: GameState)
    ensures
        state == state_of(*board),
{
    let moves = collect_moves(board);
    if moves.len() == 0 {
        let color = board.next_to_move();
        let king = board.find_king(color);
        let none: [Position; 0] = [];
        assert(none@ =~= Seq::<Position>::empty());
        if stays_safe(board, king, &none, &none, color) {
            GameState::Draw
        } else {
            GameState::Checkmate { winner: color.other() }
        }
    } else if board.halfmove_counter >= HALFMOVE_LIMIT {
        GameState::Draw
    } else {
        GameState::Ongoing
    }
}

impl Game {
    /// Starts a game from a board.
    pub fn new(board: Board) -> (g: Game)
        ensures
            g@ == board,
    {
        Game { board }
    }

    /// The board as it stands.
    pub fn board(&self) -> (b: &Board)
        ensures
            *b == self@,
    {
        &self.board
    }

    /// Checks a proposed move against the board without making it.
    pub fn check_move(&self, move_: Move) -> (r: Result<Piece, Error>)
        requires
            move_.wf(),
        ensures
            match refusal(self@, move_) {
                Some(e) => r == Err::<Piece, Error>(e),
                None => r == Ok::<Piece, Error>(self@.at(move_.from)->Some_0),
            },
    {
        match self.board.get(move_.from) {
            Some(piece) => {
                if piece.color != self.board.next_to_move() {
                    Err(Error::OtherPlayersTurn)
                } else if !piece.can_move(move_, &self.board) {
                    Err(Error::IllegalMove)
                } else {
                    Ok(piece)
                }
            },
            None => Err(Error::NoPieceToMove),
        }
    }

    /// Makes a move for the side to move, asking `pawn_promotion` for the
    /// kind of the new piece if the move takes a pawn to the last rank.
    ///
    /// A refused move leaves the board as it was. A move made in a sound
    /// position leads to a sound position, and the state returned is the
    /// verdict of the rules on it, as long as no pawn is promoted to a king.
    pub fn make_move<P: FnOnce() -> Kind>(&mut self, move_: Move, pawn_promotion: P) -> (r: Result<
        GameState,
        Error,
    >)
        requires
            old(self)@.wf(),
            move_.wf(),
            old(self)@.move_number < u16::MAX,
            old(self)@.halfmove_counter < u16::MAX,
            refusal(old(self)@, move_) is None && is_promotion(old(self)@, move_)
                ==> pawn_promotion.requires(()),
        ensures
            match old(self)@.at(move_.from) {
                Some(piece) => piece.color != old(self)@.next_to_move ==> r == Err::<
                    GameState,
                    Error,
                >(Error::OtherPlayersTurn) && final(self)@ == old(self)@,
                None => r == Err::<GameState, Error>(Error::NoPieceToMove) && final(self)@ == old(
                    self,
                )@,
            },
            match refusal(old(self)@, move_) {
                Some(e) => r == Err::<GameState, Error>(e) && final(self)@ == old(self)@,
                None => r == Ok::<GameState, Error>(state_of(final(self)@)) && final(self)@.wf()
                    && exists|kind: Kind|
                    {
                        &&& is_promotion(old(self)@, move_) ==> pawn_promotion.ensures((), kind)
                        &&& final(self)@ == #[trigger] after_move(old(self)@, move_, kind)
                    },
            },
            r is Ok && sound(old(self)@) && (forall|kind: Kind|
                pawn_promotion.ensures((), kind) ==> kind != Kind::King) ==> sound(final(self)@)
                && r == Ok::<GameState, Error>(verdict(final(self)@)),
    {
        let piece = match self.check_move(move_) {
            Ok(piece) => piece,
            Err(e) => {
                return Err(e);
            },
        };
        let promotes = piece.kind == Kind::Pawn && (move_.to.rank == 7 || move_.to.rank == 0);
        let kind = if promotes {
            pawn_promotion()
        } else {
            Kind::Queen
        };
        let state = self.make_move_unchecked(move_, kind);
        proof {
            if sound(old(self)@) && kind != Kind::King {
                lemma_sound_positions_stay_sound(old(self)@, move_, kind);
                lemma_state_is_the_verdict(self@);
            }
        }
        Ok(state)
    }

    /// Makes a move for the side to move, with the kind of piece that a pawn
    /// reaching the last rank turns into given up front.
    ///
    /// A refused move leaves the board as it was. A move made in a sound
    /// position leads to a sound position, and the state returned is the
    /// verdict of the rules on it, as long as no pawn is promoted to a king.
    pub fn make_move_with(&mut self, move_: Move, promotion: Kind) -> (r: Result<GameState, Error>)
        requires
            old(self)@.wf(),
            move_.wf(),
            old(self)@.move_number < u16::MAX,
            old(self)@.halfmove_counter < u16::MAX,
        ensures
            match refusal(old(self)@, move_) {
                Some(e) => r == Err::<GameState, Error>(e) && final(self)@ == old(self)@,
                None => r == Ok::<GameState, Error>(state_of(final(self)@)) && final(self)@.wf()
                    && final(self)@ == after_move(old(self)@, move_, promotion),
            },
            r is Ok && sound(old(self)@) && promotion != Kind::King ==> sound(final(self)@) && r
                == Ok::<GameState, Error>(verdict(final(self)@)),
    {
        match self.check_move(move_) {
            Ok(_) => {
                let state = self.make_move_unchecked(move_, promotion);
                proof {
                    if sound(old(self)@) && promotion != Kind::King {
                        lemma_sound_positions_stay_sound(old(self)@, move_, promotion);
                        lemma_state_is_the_verdict(self@);
                    }
                }
                Ok(state)
            },
            Err(e) => Err(e),
        }
    }

    /// Applies a move that has passed validation and classifies the result.
    fn make_move_unchecked(&mut self, move_: Move, promotion: Kind) -> (state: GameState)
        requires
            old(self)@.wf(),
            move_.wf(),
            old(self)@.move_number < u16::MAX,
            old(self)@.halfmove_counter < u16::MAX,
            old(self)@.at(move_.from) is Some,
        ensures
            final(self)@ == after_move(old(self)@, move_, promotion),
            final(self)@.wf(),
            state == state_of(final(self)@),
    {
        let ghost start = self.board;
        let piece = self.board.get(move_.from).unwrap();
        let current_color = self.board.next_to_move();
        let fw = current_color.forwards();
        let en_passant = piece.kind == Kind::Pawn && self.board.en_passant_square() == Some(
            move_.to,
        );
        let mut captured = self.board.get(move_.to);
        let mut tiles = self.board;
        tiles.set(move_.to, Some(piece));
        tiles.set(move_.from, None);
        let mut checking: u8 = 0;
        if piece.checks(move_.to, &tiles) {
            checking += 1;
        }
        // A pawn on the first or last rank gives way to the chosen piece.
        if piece.kind == Kind::Pawn && (move_.to.rank == 7 || move_.to.rank == 0) {
            let promoted = Piece::new(current_color, promotion);
            tiles.set(move_.to, Some(promoted));
            if promoted.checks(move_.to, &tiles) {
                checking += 1;
            }
        }
        assert(tiles == piece_placed(start, move_, promotion));
        // In a castling move the rook crosses the king.
        let delta_file: i8 = move_.to.file as i8 - move_.from.file as i8;
        if piece.kind == Kind::King && (delta_file == 2 || delta_file == -2) {
            let rook_pos = Position { file: if delta_file > 0 { 7 } else { 0 }, rank: move_.to.rank };
            let rook_dst = Position {
                file: if delta_file > 0 {
                    move_.to.file - 1
                } else {
                    move_.to.file + 1
                },
                rank: move_.to.rank,
            };
            let rook = tiles.get(rook_pos);
            tiles.set(rook_dst, rook);
            tiles.set(rook_pos, None);
            if let Some(rook) = rook {
                if rook.checks(rook_dst, &tiles) {
                    checking += 1;
                }
            }
        }
        assert(tiles == rook_placed(start, move_, promotion));
        assert(checking == checks_after(start, move_, promotion));
        // Castling rights go with the pieces that leave or are captured.
        let mut rights = self.board;
        if piece.kind == Kind::King {
            rights.cannot_castle_kingside(current_color);
            rights.cannot_castle_queenside(current_color);
        } else if piece.kind == Kind::Rook && move_.from.file == 0 {
            rights.cannot_castle_queenside(current_color);
        } else if piece.kind == Kind::Rook && move_.from.file == 7 {
            rights.cannot_castle_kingside(current_color);
        }
        let enemy = current_color.other();
        let enemy_home: u8 = match enemy {
            Color::White => 7,
            Color::Black => 0,
        };
        if move_.to.rank == enemy_home && move_.to.file == 0 {
            rights.cannot_castle_queenside(enemy);
        } else if move_.to.rank == enemy_home && move_.to.file == 7 {
            rights.cannot_castle_kingside(enemy);
        }
        assert(rights == rights_after(start, move_));
        // A pawn captured en passant stands behind the destination.
        let behind = move_.to.offset(0, -fw);
        if en_passant {
            if let Some(target) = behind {
                captured = tiles.get(target);
                tiles.set(target, None);
            }
        }
        let delta_rank: i8 = move_.to.rank as i8 - move_.from.rank as i8;
        let en_passant_square = if piece.kind == Kind::Pawn && (delta_rank == 2 || delta_rank
            == -2) {
            behind
        } else {
            None
        };
        let halfmove_counter: u16 = if captured.is_some() || piece.kind == Kind::Pawn {
            0
        } else {
            self.board.halfmove_counter + 1
        };
        let move_number: u16 = if current_color == Color::Black {
            self.board.move_number + 1
        } else {
            self.board.move_number
        };
        self.board = Board {
            tiles: tiles.tiles,
            next_to_move: enemy,
            can_castle_white_kingside: rights.can_castle_white_kingside,
            can_castle_white_queenside: rights.can_castle_white_queenside,
            can_castle_black_kingside: rights.can_castle_black_kingside,
            can_castle_black_queenside: rights.can_castle_black_queenside,
            en_passant_square,
            halfmove_counter,
            move_number,
            checking_pieces: checking,
        };
        classify(&self.board)
    }
}

} // verus!
