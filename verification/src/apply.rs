//! Raw move application on the board: capture removal (en passant
//! included), the piece move itself, promotion, and the castling
//! rook move. Clocks, rights and hashing stay at the game layer.

use vstd::prelude::*;

use crate::attacks::{fl, iabs, pawn_attack_reach, rk};
use crate::bits::bit64;
use crate::chess_board::ChessBoard;
use crate::chess_move::ChessMove;
use crate::chess_piece::{spec_opposite, ChessPiece, Color, PieceType};
use crate::chess_square::ChessSquare;

verus! {

/// The square of the pawn an en-passant capture removes: one rank
/// behind the capture square, from the mover's point of view.
pub open spec fn spec_ep_victim(c: Color, to: int) -> int {
    match c {
        Color::White => to - 8,
        Color::Black => to + 8,
    }
}

/// Whether a move of this piece has the castling shape: a king step
/// of two files along its own rank.
pub open spec fn castle_shape(p: ChessPiece, from: int, to: int) -> bool {
    p.piece_type == PieceType::King && rk(from) == rk(to) && iabs(fl(to) - fl(from)) == 2
}

/// The corner the castling rook leaves.
pub open spec fn rook_from_sq(c: Color, kingside: bool) -> int {
    match c {
        Color::White => if kingside {
            7
        } else {
            0
        },
        Color::Black => if kingside {
            63
        } else {
            56
        },
    }
}

/// The square the castling rook lands on.
pub open spec fn rook_to_sq(c: Color, kingside: bool) -> int {
    match c {
        Color::White => if kingside {
            5
        } else {
            3
        },
        Color::Black => if kingside {
            61
        } else {
            59
        },
    }
}

impl ChessBoard {
    /// Whether the move captures en passant: a pawn landing on the
    /// position's en-passant square.
    pub open spec fn is_ep_capture(self, ep: Option<ChessSquare>, mv: ChessMove) -> bool {
        match self.spec_piece_at(mv.from.0 as u64) {
            Some(p) => p.piece_type == PieceType::Pawn && ep == Some(mv.to),
            None => false,
        }
    }

    /// The captured piece and the square it is taken from, if the
    /// move captures at all.
    pub open spec fn spec_captured(self, ep: Option<ChessSquare>, mv: ChessMove) -> Option<
        (ChessPiece, int),
    > {
        match self.spec_piece_at(mv.from.0 as u64) {
            Some(p) => if self.is_ep_capture(ep, mv) {
                Some(
                    (
                        ChessPiece { color: spec_opposite(p.color), piece_type: PieceType::Pawn },
                        spec_ep_victim(p.color, mv.to.0 as int),
                    ),
                )
            } else {
                match self.spec_piece_at(mv.to.0 as u64) {
                    Some(q) => Some((q, mv.to.0 as int)),
                    None => None,
                }
            },
            None => None,
        }
    }

    /// The board after the raw application of a move.
    pub open spec fn spec_apply_move(self, ep: Option<ChessSquare>, mv: ChessMove) -> ChessBoard {
        let from = mv.from.0 as int;
        let to = mv.to.0 as int;
        match self.spec_piece_at(mv.from.0 as u64) {
            Some(p) => {
                let b1 = match self.spec_captured(ep, mv) {
                    Some((q, vs)) => self.spec_remove_piece(q, vs as u64),
                    None => self,
                };
                let b2 = b1.spec_move_piece(p, mv.from.0 as u64, mv.to.0 as u64);
                let b3 = match mv.promotion {
                    Some(pt) => b2.spec_remove_piece(p, mv.to.0 as u64).spec_add_piece(
                        ChessPiece { color: p.color, piece_type: pt },
                        mv.to.0 as u64,
                    ),
                    None => b2,
                };
                if castle_shape(p, from, to) {
                    let kingside = fl(to) > fl(from);
                    b3.spec_move_piece(
                        ChessPiece { color: p.color, piece_type: PieceType::Rook },
                        rook_from_sq(p.color, kingside) as u64,
                        rook_to_sq(p.color, kingside) as u64,
                    )
                } else {
                    b3
                }
            },
            None => self,
        }
    }

    /// What the raw application itself needs of a move so that every
    /// board update acts on the squares it expects.
    pub open spec fn can_apply(self, ep: Option<ChessSquare>, mv: ChessMove) -> bool {
        let from = mv.from.0 as int;
        let to = mv.to.0 as int;
        &&& mv.from.wf()
        &&& mv.to.wf()
        &&& mv.from != mv.to
        &&& match self.spec_piece_at(mv.from.0 as u64) {
            Some(p) => {
                &&& (mv.promotion is Some ==> p.piece_type == PieceType::Pawn)
                &&& if self.is_ep_capture(ep, mv) {
                    &&& pawn_attack_reach(p.color, from, to)
                    &&& self.spec_piece_at(mv.to.0 as u64) is None
                    &&& self.spec_piece_at(spec_ep_victim(p.color, to) as u64) == Some(
                        ChessPiece {
                            color: spec_opposite(p.color),
                            piece_type: PieceType::Pawn,
                        },
                    )
                } else {
                    match self.spec_piece_at(mv.to.0 as u64) {
                        Some(q) => q.color != p.color,
                        None => true,
                    }
                }
                &&& castle_shape(p, from, to) ==> {
                    let kingside = fl(to) > fl(from);
                    let rf = rook_from_sq(p.color, kingside);
                    let rt = rook_to_sq(p.color, kingside);
                    &&& mv.promotion is None
                    &&& from == (match p.color {
                        Color::White => 4int,
                        Color::Black => 60int,
                    })
                    &&& self.spec_piece_at(mv.to.0 as u64) is None
                    &&& self.spec_piece_at(rf as u64) == Some(
                        ChessPiece { color: p.color, piece_type: PieceType::Rook },
                    )
                    &&& self.spec_piece_at(rt as u64) is None
                }
            },
            None => false,
        }
    }

    /// Applies the raw board mutation of a move: capture removal,
    /// the move itself, promotion, and the castling rook move.
    pub fn apply_move(&mut self, mv: ChessMove, ep: Option<ChessSquare>)
        requires
            old(self).wf(),
            old(self).can_apply(ep, mv),
        ensures
            *final(self) == old(self).spec_apply_move(ep, mv),
            final(self).wf(),
    {
        let from = mv.from;
        let to = mv.to;
        let p = match self.get_piece_at(from) {
            Some(p) => p,
            None => {
                proof {
                    assert(false);
                }
                return ;
            },
        };
        let ghost b0 = *self;
        // Capture removal, en passant included.
        let is_ep = match (p.piece_type, ep) {
            (PieceType::Pawn, Some(e)) => e.0 == to.0,
            _ => false,
        };
        proof {
            assert(is_ep == b0.is_ep_capture(ep, mv));
        }
        if is_ep {
            let vs = ChessSquare(
                match p.color {
                    Color::White => to.0 - 8,
                    Color::Black => to.0 + 8,
                },
            );
            let victim = ChessPiece { color: p.color.opposite(), piece_type: PieceType::Pawn };
            proof {
                b0.lemma_piece_at_bb(vs.0 as u64);
            }
            self.remove_piece(victim, vs);
            proof {
                b0.lemma_remove_piece_wf(victim, vs.0 as u64);
            }
        } else if let Some(q) = self.get_piece_at(to) {
            proof {
                b0.lemma_piece_at_bb(to.0 as u64);
            }
            self.remove_piece(q, to);
            proof {
                b0.lemma_remove_piece_wf(q, to.0 as u64);
            }
        }
        let ghost b1 = *self;
        proof {
            assert(b1 == (match b0.spec_captured(ep, mv) {
                Some((q, vs)) => b0.spec_remove_piece(q, vs as u64),
                None => b0,
            }));
            assert(b1.spec_piece_at(from.0 as u64) == Some(p));
            assert(b1.spec_piece_at(to.0 as u64) is None);
            b1.lemma_piece_at_bb(from.0 as u64);
            b1.lemma_bb_in_all(to.0 as u64);
        }
        self.move_piece(from, to, p);
        let ghost b2 = *self;
        proof {
            b1.lemma_remove_piece_wf(p, from.0 as u64);
            let br = b1.spec_remove_piece(p, from.0 as u64);
            assert(br.spec_piece_at(to.0 as u64) is None);
            br.lemma_bb_in_all(to.0 as u64);
            br.lemma_add_piece_wf(p, to.0 as u64);
        }
        // Promotion: the arrived pawn becomes the chosen piece.
        if let Some(pt) = mv.promotion {
            proof {
                b2.lemma_piece_at_bb(to.0 as u64);
            }
            self.remove_piece(p, to);
            proof {
                b2.lemma_remove_piece_wf(p, to.0 as u64);
                b2.spec_remove_piece(p, to.0 as u64).lemma_bb_in_all(to.0 as u64);
            }
            self.add_piece(ChessPiece { color: p.color, piece_type: pt }, to);
        }
        let ghost b3 = *self;
        // Castling: bring the rook across.
        let is_castle = match p.piece_type {
            PieceType::King => {
                let ff = from.0 % 8;
                let tf = to.0 % 8;
                from.0 / 8 == to.0 / 8 && (ff + 2 == tf || tf + 2 == ff)
            },
            _ => false,
        };
        proof {
            assert(is_castle == castle_shape(p, from.0 as int, to.0 as int));
        }
        if is_castle {
            let kingside = to.0 % 8 > from.0 % 8;
            let rf = ChessSquare(
                match (p.color, kingside) {
                    (Color::White, true) => 7,
                    (Color::White, false) => 0,
                    (Color::Black, true) => 63,
                    (Color::Black, false) => 56,
                },
            );
            let rt = ChessSquare(
                match (p.color, kingside) {
                    (Color::White, true) => 5,
                    (Color::White, false) => 3,
                    (Color::Black, true) => 61,
                    (Color::Black, false) => 59,
                },
            );
            let rook = ChessPiece { color: p.color, piece_type: PieceType::Rook };
            proof {
                assert(b3 == b2);
                assert(b3.spec_piece_at(rf.0 as u64) == Some(rook));
                assert(b3.spec_piece_at(rt.0 as u64) is None);
                b3.lemma_piece_at_bb(rf.0 as u64);
                b3.lemma_bb_in_all(rt.0 as u64);
            }
            self.move_piece(rf, rt, rook);
        }
    }
}

} // verus!
