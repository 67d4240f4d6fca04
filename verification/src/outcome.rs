//! Terminal detection: fifty-move rule, threefold repetition by
//! hash, insufficient material, checkmate and stalemate.

use vstd::prelude::*;

use crate::attacks::spec_attacked;
use crate::bits::{bit64, lemma_pop_one, lemma_popn_zero, popn};
use crate::chess_board::ChessBoard;
use crate::chess_game::{ChessGame, HistoryEntry, Outcome};
use crate::chess_move::ChessMove;
use crate::chess_piece::{spec_opposite, ChessPiece, Color, PieceType};
use crate::chess_square::ChessSquare;
use crate::movegen::spec_is_legal;

verus! {

/// How many snapshots in the history carry the given hash.
pub open spec fn rep_count(h: Seq<HistoryEntry>, z: u64) -> int
    decreases h.len(),
{
    if h.len() == 0 {
        0
    } else {
        rep_count(h.drop_last(), z) + (if h.last().zobrist == z {
            1int
        } else {
            0int
        })
    }
}

/// Whether the side to move has its king attacked.
pub open spec fn spec_in_check(g: ChessGame) -> bool {
    exists|k: int|
        0 <= k < 64 && #[trigger] g.board.spec_piece_at(k as u64) == Some(
            ChessPiece { color: g.side_to_move, piece_type: PieceType::King },
        ) && spec_attacked(g.board, k, spec_opposite(g.side_to_move))
}

/// Both bishops stand on squares of one colour.
pub open spec fn same_colour_bishops(b: ChessBoard) -> bool {
    forall|i: u64, j: u64|
        i < 64 && j < 64 && #[trigger] bit64(b.sbb(Color::White, PieceType::Bishop), i)
            && #[trigger] bit64(b.sbb(Color::Black, PieceType::Bishop), j) ==> (i / 8 + i % 8) % 2
            == (j / 8 + j % 8) % 2
}

/// Material from which no mate can arise: bare kings; one minor
/// piece; knight against knight; or bishop against bishop on squares
/// of one colour.
pub open spec fn insufficient_material(b: ChessBoard) -> bool {
    let total = popn(b.all_pieces.0, 64);
    let np = popn(b.sbb(Color::White, PieceType::Pawn), 64) + popn(
        b.sbb(Color::Black, PieceType::Pawn),
        64,
    );
    let nr = popn(b.sbb(Color::White, PieceType::Rook), 64) + popn(
        b.sbb(Color::Black, PieceType::Rook),
        64,
    );
    let nq = popn(b.sbb(Color::White, PieceType::Queen), 64) + popn(
        b.sbb(Color::Black, PieceType::Queen),
        64,
    );
    let nnw = popn(b.sbb(Color::White, PieceType::Knight), 64);
    let nnb = popn(b.sbb(Color::Black, PieceType::Knight), 64);
    let nbw = popn(b.sbb(Color::White, PieceType::Bishop), 64);
    let nbb = popn(b.sbb(Color::Black, PieceType::Bishop), 64);
    let quiet = np == 0 && nr == 0 && nq == 0;
    ||| total == 2
    ||| (total == 3 && quiet)
    ||| (total == 4 && quiet && nnw == 1 && nnb == 1)
    ||| (total == 4 && quiet && nnw == 0 && nnb == 0 && nbw == 1 && nbb == 1
        && same_colour_bishops(b))
}

/// How the game stands, checked in the fixed order: fifty-move rule,
/// threefold repetition, insufficient material, then mate or
/// stalemate when no legal move remains.
pub open spec fn spec_outcome(g: ChessGame) -> Outcome {
    if g.halfmove_clock >= 100 {
        Outcome::Draw
    } else if rep_count(g.history@, g.zobrist) >= 2 {
        Outcome::Draw
    } else if insufficient_material(g.board) {
        Outcome::Draw
    } else if forall|mv: ChessMove| !spec_is_legal(g, mv) {
        if spec_in_check(g) {
            Outcome::Win(spec_opposite(g.side_to_move))
        } else {
            Outcome::Draw
        }
    } else {
        Outcome::Unfinished
    }
}

impl ChessGame {
    /// Whether the side to move stands in check.
    pub fn in_check(&self) -> (r: bool)
        requires
            self.wf(),
        ensures
            r == spec_in_check(*self),
    {
        let king = ChessPiece { color: self.side_to_move, piece_type: PieceType::King };
        let opp = self.side_to_move.opposite();
        let mut k: u8 = 0;
        while k < 64
            invariant
                k <= 64,
                self.wf(),
                king == (ChessPiece { color: self.side_to_move, piece_type: PieceType::King }),
                opp == spec_opposite(self.side_to_move),
                forall|x: int|
                    0 <= x < k ==> !(#[trigger] self.board.spec_piece_at(x as u64) == Some(
                        ChessPiece { color: self.side_to_move, piece_type: PieceType::King },
                    ) && spec_attacked(self.board, x, spec_opposite(self.side_to_move))),
            decreases 64 - k,
        {
            if let Some(q) = self.board.get_piece_at(ChessSquare(k)) {
                if q == king && self.board.is_attacked(ChessSquare(k), opp) {
                    return true;
                }
            }
            k = k + 1;
        }
        false
    }

    /// How often the current hash already occurred in the history.
    fn repetitions(&self) -> (r: usize)
        ensures
            r == rep_count(self.history@, self.zobrist),
    {
        let mut n: usize = 0;
        let mut i: usize = 0;
        while i < self.history.len()
            invariant
                i <= self.history@.len(),
                n <= i,
                n == rep_count(self.history@.subrange(0, i as int), self.zobrist),
            decreases self.history@.len() - i,
        {
            if self.history[i].zobrist == self.zobrist {
                n = n + 1;
            }
            proof {
                assert(self.history@.subrange(0, i + 1).drop_last() =~= self.history@.subrange(
                    0,
                    i as int,
                ));
                assert(self.history@.subrange(0, i + 1).last() == self.history@[i as int]);
            }
            i = i + 1;
        }
        proof {
            assert(self.history@.subrange(0, self.history@.len() as int) =~= self.history@);
        }
        n
    }

    /// Whether the remaining material cannot force mate.
    fn material_insufficient(&self) -> (r: bool)
        requires
            self.board.wf(),
        ensures
            r == insufficient_material(self.board),
    {
        let b = &self.board;
        let total = b.all_pieces.count_ones();
        let np = b.get_piece_bitboard(Color::White, PieceType::Pawn).count_ones() as u64
            + b.get_piece_bitboard(Color::Black, PieceType::Pawn).count_ones() as u64;
        let nr = b.get_piece_bitboard(Color::White, PieceType::Rook).count_ones() as u64
            + b.get_piece_bitboard(Color::Black, PieceType::Rook).count_ones() as u64;
        let nq = b.get_piece_bitboard(Color::White, PieceType::Queen).count_ones() as u64
            + b.get_piece_bitboard(Color::Black, PieceType::Queen).count_ones() as u64;
        let nnw = b.get_piece_bitboard(Color::White, PieceType::Knight).count_ones();
        let nnb = b.get_piece_bitboard(Color::Black, PieceType::Knight).count_ones();
        let nbw = b.get_piece_bitboard(Color::White, PieceType::Bishop).count_ones();
        let nbb = b.get_piece_bitboard(Color::Black, PieceType::Bishop).count_ones();
        let quiet = np == 0 && nr == 0 && nq == 0;
        if total == 2 {
            return true;
        }
        if total == 3 && quiet {
            return true;
        }
        if total == 4 && quiet && nnw == 1 && nnb == 1 {
            return true;
        }
        if total == 4 && quiet && nnw == 0 && nnb == 0 && nbw == 1 && nbb == 1 {
            let wb = b.get_piece_bitboard(Color::White, PieceType::Bishop);
            let bb = b.get_piece_bitboard(Color::Black, PieceType::Bishop);
            proof {
                if wb.0 == 0 {
                    lemma_popn_zero(64);
                }
                if bb.0 == 0 {
                    lemma_popn_zero(64);
                }
            }
            let wi = match wb.lsb_idx() {
                Some(i) => i,
                None => {
                    proof {
                        assert(false);
                    }
                    return false;
                },
            };
            let bi = match bb.lsb_idx() {
                Some(i) => i,
                None => {
                    proof {
                        assert(false);
                    }
                    return false;
                },
            };
            let same = (wi / 8 + wi % 8) % 2 == (bi / 8 + bi % 8) % 2;
            proof {
                assert forall|i: u64, j: u64|
                    i < 64 && j < 64 && #[trigger] bit64(
                        self.board.sbb(Color::White, PieceType::Bishop),
                        i,
                    ) && #[trigger] bit64(
                        self.board.sbb(Color::Black, PieceType::Bishop),
                        j,
                    ) implies same == ((i / 8 + i % 8) % 2 == (j / 8 + j % 8) % 2) by {
                    lemma_pop_one(self.board.sbb(Color::White, PieceType::Bishop), i, wi as u64);
                    lemma_pop_one(self.board.sbb(Color::Black, PieceType::Bishop), j, bi as u64);
                }
            }
            if same {
                return true;
            }
            proof {
                assert(bit64(wb.0, wi as u64) && bit64(bb.0, bi as u64));
                assert(!same_colour_bishops(self.board));
            }
            return false;
        }
        false
    }

    /// The terminal state of the position, if any.
    pub fn outcome(&self) -> (r: Outcome)
        requires
            self.wf(),
        ensures
            r == spec_outcome(*self),
    {
        if self.halfmove_clock >= 100 {
            return Outcome::Draw;
        }
        if self.repetitions() >= 2 {
            return Outcome::Draw;
        }
        if self.material_insufficient() {
            return Outcome::Draw;
        }
        let moves = self.legal_moves();
        if moves.len() == 0 {
            proof {
                assert forall|mv: ChessMove| !spec_is_legal(*self, mv) by {
                    if spec_is_legal(*self, mv) {
                        assert(moves@.contains(mv));
                    }
                }
            }
            if self.in_check() {
                return Outcome::Win(self.side_to_move.opposite());
            } else {
                return Outcome::Draw;
            }
        }
        proof {
            let m0 = moves@[0];
            assert(moves@.contains(m0));
            assert(spec_is_legal(*self, m0));
        }
        Outcome::Unfinished
    }
}

} // verus!
