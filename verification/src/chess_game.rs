//! The full game state: board, side to move, castling rights,
//! en-passant square, clocks, undo history and the incrementally
//! maintained Zobrist hash.

use vstd::prelude::*;

use crate::castling::CastlingRights;
use crate::chess_board::ChessBoard;
use crate::chess_move::ChessMove;
use crate::chess_piece::{ChessPiece, Color, PieceType};
use crate::chess_square::ChessSquare;
use crate::zobrist::{board_hash_upto, spec_full_hash, square_key, ZobristKeys};

verus! {

/// A snapshot taken just before a move is applied; unmaking the move
/// restores the scalars from here and rebuilds the board from the
/// move and the captured piece.
#[derive(Debug, Clone, Copy, PartialEq, Eq)]
pub struct HistoryEntry {
    pub castling: CastlingRights,
    pub ep_square: Option<ChessSquare>,
    pub halfmove_clock: u32,
    pub fullmove_counter: u32,
    pub zobrist: u64,
    pub captured: Option<ChessPiece>,
    pub mv: ChessMove,
}

/// How a finished or unfinished game stands.
#[derive(Debug, Clone, Copy, PartialEq, Eq, Structural)]
pub enum Outcome {
    Unfinished,
    Draw,
    Win(Color),
}

#[derive(Debug, Clone, PartialEq, Eq)]
pub struct ChessGame {
    pub board: ChessBoard,
    pub side_to_move: Color,
    pub castling_rights: CastlingRights,
    pub en_passant: Option<ChessSquare>,
    pub halfmove_clock: u32,
    pub fullmove_counter: u32,
    pub history: Vec<HistoryEntry>,
    pub zobrist: u64,
    pub keys: ZobristKeys,
}

/// An en-passant square, when present, lies on the third rank of
/// the side that just moved, over the pawn that double-pushed, and
/// is itself empty.
pub open spec fn ep_coherent(board: ChessBoard, side: Color, ep: Option<ChessSquare>) -> bool {
    match ep {
        Some(e) => e.wf() && board.spec_piece_at(e.0 as u64) is None && (match side {
            Color::White => e.srank() == 5 && board.spec_piece_at((e.0 - 8) as u64) == Some(
                ChessPiece { color: Color::Black, piece_type: PieceType::Pawn },
            ),
            Color::Black => e.srank() == 2 && board.spec_piece_at((e.0 + 8) as u64) == Some(
                ChessPiece { color: Color::White, piece_type: PieceType::Pawn },
            ),
        }),
        None => true,
    }
}

impl ChessGame {
    /// The position's en-passant square is coherent with its board
    /// and side to move.
    pub open spec fn ep_wf(self) -> bool {
        ep_coherent(self.board, self.side_to_move, self.en_passant)
    }

    /// Well-formedness: a coherent board, a four-bit rights mask, the
    /// fixed key table, a sound en-passant square, and a hash equal
    /// to its full recomputation.
    pub open spec fn wf(self) -> bool {
        &&& self.board.wf()
        &&& self.castling_rights.0 < 16
        &&& self.keys.wf()
        &&& self.ep_wf()
        &&& self.zobrist == spec_full_hash(
            self.keys,
            self.board,
            self.castling_rights.0,
            self.en_passant,
            self.side_to_move,
        )
    }

    /// The position's hash, as maintained incrementally.
    pub fn hash(&self) -> (r: u64)
        ensures
            r == self.zobrist,
            self.wf() ==> r == spec_full_hash(
                self.keys,
                self.board,
                self.castling_rights.0,
                self.en_passant,
                self.side_to_move,
            ),
    {
        self.zobrist
    }

    /// The hash recomputed from scratch out of the current state.
    pub fn full_recomputation(&self) -> (r: u64)
        requires
            self.board.wf(),
            self.keys.wf(),
            self.castling_rights.0 < 16,
            self.en_passant matches Some(e) ==> e.wf(),
        ensures
            r == spec_full_hash(
                self.keys,
                self.board,
                self.castling_rights.0,
                self.en_passant,
                self.side_to_move,
            ),
    {
        let mut h: u64 = 0;
        let mut i: u8 = 0;
        while i < 64
            invariant
                i <= 64,
                self.board.wf(),
                self.keys.wf(),
                h == board_hash_upto(self.keys, self.board, i as int),
            decreases 64 - i,
        {
            if let Some(p) = self.board.get_piece_at(ChessSquare(i)) {
                h = h ^ self.keys.piece_key(p.color, p.piece_type, i);
            } else {
                proof {
                    crate::bits::lemma_xor_ops();
                    assert(square_key(self.keys, self.board, i as int) == 0);
                }
            }
            i = i + 1;
        }
        h = h ^ self.keys.castling_key(self.castling_rights.0);
        if let Some(e) = self.en_passant {
            h = h ^ self.keys.ep_file_key(e.0 % 8);
        }
        match self.side_to_move {
            Color::White => h,
            Color::Black => h ^ self.keys.side_to_move,
        }
    }

    /// Reads a move in UCI coordinate form.
    pub fn uci_to_move(&self, input: &str) -> (r: Result<ChessMove, &'static str>)
        ensures
            r matches Ok(mv) ==> crate::chess_move::spec_move_from_uci(input@) == Some(mv)
                && mv.from.wf() && mv.to.wf(),
            r is Err ==> crate::chess_move::spec_move_from_uci(input@) is None,
    {
        ChessMove::from_uci(input)
    }

    /// Builds a game from its parts, with a fresh history and the
    /// hash computed from scratch.
    pub(crate) fn from_parts(
        board: ChessBoard,
        side_to_move: Color,
        castling_rights: CastlingRights,
        en_passant: Option<ChessSquare>,
        halfmove_clock: u32,
        fullmove_counter: u32,
    ) -> (r: ChessGame)
        requires
            board.wf(),
            castling_rights.0 < 16,
            en_passant matches Some(e) ==> e.wf(),
        ensures
            r.board == board,
            r.side_to_move == side_to_move,
            r.castling_rights == castling_rights,
            r.en_passant == en_passant,
            r.halfmove_clock == halfmove_clock,
            r.fullmove_counter == fullmove_counter,
            r.history@.len() == 0,
            r.keys.wf(),
            r.zobrist == spec_full_hash(r.keys, board, castling_rights.0, en_passant, side_to_move),
    {
        let keys = ZobristKeys::get();
        let mut g = ChessGame {
            board,
            side_to_move,
            castling_rights,
            en_passant,
            halfmove_clock,
            fullmove_counter,
            history: Vec::new(),
            zobrist: 0,
            keys,
        };
        let h = g.full_recomputation();
        g.zobrist = h;
        g
    }
}

impl Default for ChessGame {
    /// The standard starting position.
    fn default() -> (r: Self)
        ensures
            r.wf(),
            r.side_to_move == Color::White,
            r.castling_rights.0 == 15,
            r.en_passant is None,
            r.halfmove_clock == 0,
            r.fullmove_counter == 1,
            r.history@.len() == 0,
            r.board.wf(),
            r.board.sbb(Color::White, PieceType::Pawn) == 0x0000_0000_0000_ff00u64,
            r.board.sbb(Color::White, PieceType::Knight) == 0x0000_0000_0000_0042u64,
            r.board.sbb(Color::White, PieceType::Bishop) == 0x0000_0000_0000_0024u64,
            r.board.sbb(Color::White, PieceType::Rook) == 0x0000_0000_0000_0081u64,
            r.board.sbb(Color::White, PieceType::Queen) == 0x0000_0000_0000_0008u64,
            r.board.sbb(Color::White, PieceType::King) == 0x0000_0000_0000_0010u64,
            r.board.sbb(Color::Black, PieceType::Pawn) == 0x00ff_0000_0000_0000u64,
            r.board.sbb(Color::Black, PieceType::Knight) == 0x4200_0000_0000_0000u64,
            r.board.sbb(Color::Black, PieceType::Bishop) == 0x2400_0000_0000_0000u64,
            r.board.sbb(Color::Black, PieceType::Rook) == 0x8100_0000_0000_0000u64,
            r.board.sbb(Color::Black, PieceType::Queen) == 0x0800_0000_0000_0000u64,
            r.board.sbb(Color::Black, PieceType::King) == 0x1000_0000_0000_0000u64,
    {
        Self::from_parts(ChessBoard::new(), Color::White, CastlingRights(15), None, 0, 1)
    }
}

} // verus!
