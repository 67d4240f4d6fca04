//! Move generation: a declarative pseudo-legality predicate, its
//! enumerator, and the legality filter that discards moves leaving
//! the mover's king attacked.

use vstd::prelude::*;

use crate::apply::castle_shape;
use crate::attacks::{
    bishop_reach, fl, iabs, king_reach, knight_reach, pawn_attack_reach, pawn_push_target,
    piece_attacks, rk, rook_reach, spec_attacked,
};
use crate::chess_board::ChessBoard;
use crate::chess_game::ChessGame;
use crate::chess_move::ChessMove;
use crate::chess_piece::{spec_opposite, ChessPiece, Color, PieceType};
use crate::chess_square::ChessSquare;

verus! {

broadcast use vstd::seq_lib::lemma_seq_contains_after_push;

/// A pawn's quiet or capturing motion: a clear push, or a diagonal
/// step onto an enemy piece or the en-passant square.
pub open spec fn pawn_motion(g: ChessGame, c: Color, from: int, to: int) -> bool {
    ||| (pawn_push_target(c, from, to) && g.board.spec_piece_at(to as u64) is None && (iabs(
        rk(to) - rk(from),
    ) == 2 ==> g.board.spec_piece_at(((from + to) / 2) as u64) is None))
    ||| (pawn_attack_reach(c, from, to) && ((g.board.spec_piece_at(to as u64) matches Some(q)
        && q.color == spec_opposite(c)) || g.en_passant == Some(ChessSquare(to as u8))))
}

/// Piece motion between two squares, castling excepted: the piece on
/// `from` belongs to the side to move, the target does not hold its
/// own piece, and the step fits the piece's pattern over the current
/// occupancy.
pub open spec fn motion_ok(g: ChessGame, from: int, to: int) -> bool {
    let occ = g.board.all_pieces.0;
    &&& 0 <= from < 64
    &&& 0 <= to < 64
    &&& from != to
    &&& match g.board.spec_piece_at(from as u64) {
        Some(p) => {
            &&& p.color == g.side_to_move
            &&& !(g.board.spec_piece_at(to as u64) matches Some(q) && q.color == g.side_to_move)
            &&& match p.piece_type {
                PieceType::Pawn => pawn_motion(g, p.color, from, to),
                PieceType::Knight => knight_reach(from, to),
                PieceType::Bishop => bishop_reach(occ, from, to),
                PieceType::Rook => rook_reach(occ, from, to),
                PieceType::Queen => bishop_reach(occ, from, to) || rook_reach(occ, from, to),
                PieceType::King => king_reach(from, to),
            }
        },
        None => false,
    }
}

/// The conditions castling asks of the position: the right still
/// held, king and rook at home, the way clear, and neither the
/// king's square nor its path attacked.
pub open spec fn castle_ok(g: ChessGame, kingside: bool) -> bool {
    let c = g.side_to_move;
    let home: int = if c == Color::White {
        4
    } else {
        60
    };
    let mid: int = if kingside {
        home + 1
    } else {
        home - 1
    };
    let target: int = if kingside {
        home + 2
    } else {
        home - 2
    };
    let rook: int = if c == Color::White {
        if kingside {
            7
        } else {
            0
        }
    } else {
        if kingside {
            63
        } else {
            56
        }
    };
    let right: u8 = if c == Color::White {
        if kingside {
            1
        } else {
            2
        }
    } else {
        if kingside {
            4
        } else {
            8
        }
    };
    &&& g.castling_rights.0 & right != 0
    &&& g.board.spec_piece_at(home as u64) == Some(
        ChessPiece { color: c, piece_type: PieceType::King },
    )
    &&& g.board.spec_piece_at(rook as u64) == Some(
        ChessPiece { color: c, piece_type: PieceType::Rook },
    )
    &&& g.board.spec_piece_at(mid as u64) is None
    &&& g.board.spec_piece_at(target as u64) is None
    &&& (!kingside ==> g.board.spec_piece_at((home - 3) as u64) is None)
    &&& !spec_attacked(g.board, home, spec_opposite(c))
    &&& !spec_attacked(g.board, mid, spec_opposite(c))
    &&& !spec_attacked(g.board, target, spec_opposite(c))
}

/// On reaching the far rank a pawn must name one of the four
/// promotion pieces; no other move carries a promotion.
pub open spec fn promo_ok(p: ChessPiece, to: int, promo: Option<PieceType>) -> bool {
    if p.piece_type == PieceType::Pawn && rk(to) == (if p.color == Color::White {
        7int
    } else {
        0int
    }) {
        promo == Some(PieceType::Queen) || promo == Some(PieceType::Rook) || promo == Some(
            PieceType::Bishop,
        ) || promo == Some(PieceType::Knight)
    } else {
        promo is None
    }
}

/// Pseudo-legality: the move fits piece motion or castling, with a
/// sound promotion field. The mover's own king may still be left
/// attacked; the legality filter decides that.
pub open spec fn pseudo_ok(g: ChessGame, mv: ChessMove) -> bool {
    let from = mv.from.0 as int;
    let to = mv.to.0 as int;
    &&& mv.from.wf()
    &&& mv.to.wf()
    &&& match g.board.spec_piece_at(mv.from.0 as u64) {
        Some(p) => {
            &&& p.color == g.side_to_move
            &&& if castle_shape(p, from, to) {
                &&& mv.promotion is None
                &&& from == (if g.side_to_move == Color::White {
                    4int
                } else {
                    60int
                })
                &&& (if fl(to) > fl(from) {
                    to == from + 2 && castle_ok(g, true)
                } else {
                    to == from - 2 && castle_ok(g, false)
                })
            } else {
                motion_ok(g, from, to) && promo_ok(p, to, mv.promotion)
            }
        },
        None => false,
    }
}

/// After the raw application of the move, no square holding the
/// mover's king is attacked by the opponent.
pub open spec fn king_safe_after(g: ChessGame, mv: ChessMove) -> bool {
    let nb = g.board.spec_apply_move(g.en_passant, mv);
    forall|k: int|
        0 <= k < 64 && #[trigger] nb.spec_piece_at(k as u64) == Some(
            ChessPiece { color: g.side_to_move, piece_type: PieceType::King },
        ) ==> !spec_attacked(nb, k, spec_opposite(g.side_to_move))
}

/// A legal move: pseudo-legal, and the mover's king is left safe.
pub open spec fn spec_is_legal(g: ChessGame, mv: ChessMove) -> bool {
    pseudo_ok(g, mv) && king_safe_after(g, mv)
}

/// The order the enumerator emits moves in: by origin, then target,
/// then promotion piece.
pub open spec fn move_key(mv: ChessMove) -> int {
    mv.from.0 * 512 + mv.to.0 * 8 + (match mv.promotion {
        None => 0int,
        Some(PieceType::Queen) => 1int,
        Some(PieceType::Rook) => 2int,
        Some(PieceType::Bishop) => 3int,
        Some(PieceType::Knight) => 4int,
        Some(_) => 5int,
    })
}

/// A pseudo-legal move satisfies everything the raw board
/// application expects of it.
pub proof fn lemma_pseudo_can_apply(g: ChessGame, mv: ChessMove)
    requires
        g.wf(),
        pseudo_ok(g, mv),
    ensures
        g.board.can_apply(g.en_passant, mv),
{
    let from = mv.from.0 as int;
    let to = mv.to.0 as int;
    let p = g.board.spec_piece_at(mv.from.0 as u64).unwrap();
    if castle_shape(p, from, to) {
    } else {
        if g.board.is_ep_capture(g.en_passant, mv) {
            let e = g.en_passant.unwrap();
            assert(e == mv.to);
            match g.side_to_move {
                Color::White => {
                    assert(g.board.spec_piece_at((e.0 - 8) as u64) == Some(
                        ChessPiece { color: Color::Black, piece_type: PieceType::Pawn },
                    ));
                    if pawn_push_target(p.color, from, to) {
                        assert(fl(from) == fl(to));
                        if rk(to) - rk(from) == 1 {
                            assert(from == to - 8);
                        } else {
                            assert(rk(from) == 1 && rk(to) == 3);
                        }
                        assert(false);
                    }
                },
                Color::Black => {
                    assert(g.board.spec_piece_at((e.0 + 8) as u64) == Some(
                        ChessPiece { color: Color::White, piece_type: PieceType::Pawn },
                    ));
                    if pawn_push_target(p.color, from, to) {
                        assert(fl(from) == fl(to));
                        if rk(from) - rk(to) == 1 {
                            assert(from == to + 8);
                        } else {
                            assert(rk(from) == 6 && rk(to) == 4);
                        }
                        assert(false);
                    }
                },
            }
            assert(pawn_attack_reach(p.color, from, to));
        }
    }
}

impl ChessGame {
    /// Whether the given castling is available right now.
    pub fn castle_allowed(&self, kingside: bool) -> (r: bool)
        requires
            self.wf(),
        ensures
            r == castle_ok(*self, kingside),
    {
        let is_white = match self.side_to_move {
            Color::White => true,
            Color::Black => false,
        };
        let home: u8 = if is_white {
            4
        } else {
            60
        };
        let mid: u8 = if kingside {
            home + 1
        } else {
            home - 1
        };
        let target: u8 = if kingside {
            home + 2
        } else {
            home - 2
        };
        let rook: u8 = if is_white {
            if kingside {
                7
            } else {
                0
            }
        } else {
            if kingside {
                63
            } else {
                56
            }
        };
        let right: u8 = if is_white {
            if kingside {
                1
            } else {
                2
            }
        } else {
            if kingside {
                4
            } else {
                8
            }
        };
        if !self.castling_rights.has(right) {
            return false;
        }
        let king = ChessPiece { color: self.side_to_move, piece_type: PieceType::King };
        let rook_piece = ChessPiece { color: self.side_to_move, piece_type: PieceType::Rook };
        let king_there = match self.board.get_piece_at(ChessSquare(home)) {
            Some(p) => p == king,
            None => false,
        };
        if !king_there {
            return false;
        }
        let rook_there = match self.board.get_piece_at(ChessSquare(rook)) {
            Some(p) => p == rook_piece,
            None => false,
        };
        if !rook_there {
            return false;
        }
        if self.board.get_piece_at(ChessSquare(mid)).is_some() {
            return false;
        }
        if self.board.get_piece_at(ChessSquare(target)).is_some() {
            return false;
        }
        if !kingside && self.board.get_piece_at(ChessSquare(home - 3)).is_some() {
            return false;
        }
        let opp = self.side_to_move.opposite();
        if self.board.is_attacked(ChessSquare(home), opp) {
            return false;
        }
        if self.board.is_attacked(ChessSquare(mid), opp) {
            return false;
        }
        if self.board.is_attacked(ChessSquare(target), opp) {
            return false;
        }
        true
    }

    /// Whether the piece on `from` may step to `to`, castling aside.
    fn motion_allowed(&self, from: u8, to: u8) -> (r: bool)
        requires
            self.wf(),
            from < 64,
            to < 64,
        ensures
            r == motion_ok(*self, from as int, to as int),
    {
        if from == to {
            return false;
        }
        let p = match self.board.get_piece_at(ChessSquare(from)) {
            Some(p) => p,
            None => {
                return false;
            },
        };
        let same_side = match (p.color, self.side_to_move) {
            (Color::White, Color::White) => true,
            (Color::Black, Color::Black) => true,
            _ => false,
        };
        if !same_side {
            return false;
        }
        if let Some(q) = self.board.get_piece_at(ChessSquare(to)) {
            let own = match (q.color, self.side_to_move) {
                (Color::White, Color::White) => true,
                (Color::Black, Color::Black) => true,
                _ => false,
            };
            if own {
                return false;
            }
        }
        match p.piece_type {
            PieceType::Pawn => {
                // Pawn motion mirrors `pawn_motion` clause by clause.
                let ff = (from % 8) as i8;
                let fr = (from / 8) as i8;
                let tf = (to % 8) as i8;
                let tr = (to / 8) as i8;
                let df = tf - ff;
                let dr = tr - fr;
                let fwd: i8 = if matches!(p.color, Color::White) {
                    1
                } else {
                    -1
                };
                let home_rank: i8 = if matches!(p.color, Color::White) {
                    1
                } else {
                    6
                };
                // A clear push.
                if df == 0 && self.board.get_piece_at(ChessSquare(to)).is_none() {
                    if dr == fwd {
                        return true;
                    }
                    if fr == home_rank && dr == 2 * fwd {
                        let mid = ChessSquare((from + to) / 2);
                        if self.board.get_piece_at(mid).is_none() {
                            return true;
                        }
                    }
                }
                // A capture, en passant included.
                if (df == 1 || df == -1) && dr == fwd {
                    if let Some(q) = self.board.get_piece_at(ChessSquare(to)) {
                        let enemy = match (q.color, p.color) {
                            (Color::White, Color::Black) => true,
                            (Color::Black, Color::White) => true,
                            _ => false,
                        };
                        if enemy {
                            return true;
                        }
                    } else {
                        if let Some(e) = self.en_passant {
                            if e.0 == to {
                                return true;
                            }
                        }
                    }
                }
                proof {
                    assert(!pawn_motion(*self, p.color, from as int, to as int));
                }
                false
            },
            _ => piece_attacks(self.board.all_pieces.0, p, from, to),
        }
    }

    /// Every pseudo-legal move, in order of origin, target and
    /// promotion piece; exactly the moves `pseudo_ok` admits.
    pub fn generate_pseudolegal(&self) -> (r: Vec<ChessMove>)
        requires
            self.wf(),
        ensures
            forall|mv: ChessMove| #[trigger] r@.contains(mv) == pseudo_ok(*self, mv),
            forall|i: int, j: int| 0 <= i < j < r@.len() ==> move_key(r@[i]) < move_key(r@[j]),
    {
        let mut v: Vec<ChessMove> = Vec::new();
        let mut a: u8 = 0;
        while a < 64
            invariant
                a <= 64,
                self.wf(),
                forall|mv: ChessMove| #[trigger] v@.contains(mv) == (pseudo_ok(*self, mv)
                    && mv.from.0 < a),
                forall|i: int, j: int| 0 <= i < j < v@.len() ==> move_key(v@[i]) < move_key(v@[j]),
                forall|i: int| 0 <= i < v@.len() ==> move_key(v@[i]) < a as int * 512,
            decreases 64 - a,
        {
            let mut b: u8 = 0;
            while b < 64
                invariant
                    a < 64,
                    b <= 64,
                    self.wf(),
                    forall|mv: ChessMove| #[trigger] v@.contains(mv) == (pseudo_ok(*self, mv) && (
                    mv.from.0 < a || (mv.from.0 == a && mv.to.0 < b))),
                    forall|i: int, j: int|
                        0 <= i < j < v@.len() ==> move_key(v@[i]) < move_key(v@[j]),
                    forall|i: int|
                        0 <= i < v@.len() ==> move_key(v@[i]) < a as int * 512 + b as int * 8,
                decreases 64 - b,
            {
                let from_sq = ChessSquare(a);
                let to_sq = ChessSquare(b);
                let ghost v_before = v@;
                match self.board.get_piece_at(from_sq) {
                    None => {},
                    Some(p) => {
                        let same = p.color == self.side_to_move;
                        let cs = (match p.piece_type {
                            PieceType::King => true,
                            _ => false,
                        }) && a / 8 == b / 8 && (a % 8 + 2 == b % 8 || b % 8 + 2 == a % 8);
                        proof {
                            assert(cs == castle_shape(p, a as int, b as int));
                        }
                        if cs {
                            let is_white = match self.side_to_move {
                                Color::White => true,
                                Color::Black => false,
                            };
                            let home: u8 = if is_white {
                                4
                            } else {
                                60
                            };
                            let kingside = b % 8 > a % 8;
                            if same && a == home && self.castle_allowed(kingside) {
                                let m = ChessMove { from: from_sq, to: to_sq, promotion: None };
                                proof {
                                    if kingside {
                                        assert(b == a + 2);
                                    } else {
                                        assert(b + 2 == a);
                                    }
                                    assert(pseudo_ok(*self, m));
                                }
                                v.push(m);
                            }
                        } else {
                            if same && self.motion_allowed(a, b) {
                                let is_pawn = match p.piece_type {
                                    PieceType::Pawn => true,
                                    _ => false,
                                };
                                let last_rank = match p.color {
                                    Color::White => b / 8 == 7,
                                    Color::Black => b / 8 == 0,
                                };
                                if is_pawn && last_rank {
                                    let mq = ChessMove {
                                        from: from_sq,
                                        to: to_sq,
                                        promotion: Some(PieceType::Queen),
                                    };
                                    let mr = ChessMove {
                                        from: from_sq,
                                        to: to_sq,
                                        promotion: Some(PieceType::Rook),
                                    };
                                    let mb = ChessMove {
                                        from: from_sq,
                                        to: to_sq,
                                        promotion: Some(PieceType::Bishop),
                                    };
                                    let mn = ChessMove {
                                        from: from_sq,
                                        to: to_sq,
                                        promotion: Some(PieceType::Knight),
                                    };
                                    proof {
                                        assert(pseudo_ok(*self, mq) && pseudo_ok(*self, mr)
                                            && pseudo_ok(*self, mb) && pseudo_ok(*self, mn));
                                    }
                                    v.push(mq);
                                    v.push(mr);
                                    v.push(mb);
                                    v.push(mn);
                                } else {
                                    let m = ChessMove { from: from_sq, to: to_sq, promotion: None };
                                    proof {
                                        assert(pseudo_ok(*self, m));
                                    }
                                    v.push(m);
                                }
                            }
                        }
                    },
                }
                proof {
                    assert forall|mv: ChessMove| #[trigger] v@.contains(mv) == (pseudo_ok(
                        *self,
                        mv,
                    ) && (mv.from.0 < a || (mv.from.0 == a && mv.to.0 < b + 1))) by {
                        if mv.from.0 == a && mv.to.0 == b && !v_before.contains(mv) {
                            if pseudo_ok(*self, mv) {
                                assert(v@.contains(mv));
                            }
                            if v@.contains(mv) {
                                assert(pseudo_ok(*self, mv));
                            }
                        }
                    }
                }
                b = b + 1;
            }
            a = a + 1;
        }
        proof {
            assert forall|mv: ChessMove| #[trigger] v@.contains(mv) == pseudo_ok(*self, mv) by {
                if pseudo_ok(*self, mv) {
                    assert(mv.from.0 < 64);
                }
            }
        }
        v
    }

    /// Whether a pseudo-legal move leaves the mover's king safe.
    pub fn is_legal(&self, mv: &ChessMove) -> (r: bool)
        requires
            self.wf(),
            pseudo_ok(*self, *mv),
        ensures
            r == king_safe_after(*self, *mv),
    {
        proof {
            lemma_pseudo_can_apply(*self, *mv);
        }
        let mut nb = self.board;
        nb.apply_move(*mv, self.en_passant);
        let king = ChessPiece { color: self.side_to_move, piece_type: PieceType::King };
        let opp = self.side_to_move.opposite();
        let mut k: u8 = 0;
        while k < 64
            invariant
                k <= 64,
                nb == self.board.spec_apply_move(self.en_passant, *mv),
                nb.wf(),
                king == (ChessPiece { color: self.side_to_move, piece_type: PieceType::King }),
                opp == spec_opposite(self.side_to_move),
                forall|x: int|
                    0 <= x < k ==> (#[trigger] nb.spec_piece_at(x as u64) == Some(
                        ChessPiece { color: self.side_to_move, piece_type: PieceType::King },
                    ) ==> !spec_attacked(nb, x, spec_opposite(self.side_to_move))),
            decreases 64 - k,
        {
            if let Some(q) = nb.get_piece_at(ChessSquare(k)) {
                if q == king && nb.is_attacked(ChessSquare(k), opp) {
                    return false;
                }
            }
            k = k + 1;
        }
        true
    }

    /// Every legal move: the pseudo-legal moves whose application
    /// leaves the mover's king unattacked, in generation order.
    pub fn legal_moves(&self) -> (r: Vec<ChessMove>)
        requires
            self.wf(),
        ensures
            forall|mv: ChessMove| #[trigger] r@.contains(mv) == spec_is_legal(*self, mv),
            forall|i: int, j: int| 0 <= i < j < r@.len() ==> move_key(r@[i]) < move_key(r@[j]),
    {
        let pseudo = self.generate_pseudolegal();
        let mut out: Vec<ChessMove> = Vec::new();
        let mut i: usize = 0;
        while i < pseudo.len()
            invariant
                i <= pseudo@.len(),
                self.wf(),
                forall|mv: ChessMove| #[trigger] pseudo@.contains(mv) == pseudo_ok(*self, mv),
                forall|x: int, y: int|
                    0 <= x < y < pseudo@.len() ==> move_key(pseudo@[x]) < move_key(pseudo@[y]),
                forall|mv: ChessMove| #[trigger] out@.contains(mv) == (spec_is_legal(*self, mv)
                    && pseudo@.subrange(0, i as int).contains(mv)),
                forall|n: int, j: int|
                    0 <= n < out@.len() && i as int <= j < pseudo@.len() ==> move_key(out@[n])
                        < move_key(pseudo@[j]),
                forall|x: int, y: int|
                    0 <= x < y < out@.len() ==> move_key(out@[x]) < move_key(out@[y]),
            decreases pseudo@.len() - i,
        {
            let m = pseudo[i];
            proof {
                assert(pseudo@.contains(m)) by {
                    assert(pseudo@[i as int] == m);
                }
            }
            if self.is_legal(&m) {
                out.push(m);
            }
            proof {
                assert(pseudo@.subrange(0, i + 1) =~= pseudo@.subrange(0, i as int).push(m));
            }
            i = i + 1;
        }
        proof {
            assert(pseudo@.subrange(0, pseudo@.len() as int) =~= pseudo@);
        }
        out
    }

    /// Whether the move is pseudo-legal in this position.
    pub fn pseudo_allowed(&self, mv: &ChessMove) -> (r: bool)
        requires
            self.wf(),
        ensures
            r == pseudo_ok(*self, *mv),
    {
        if !mv.from.is_valid() || !mv.to.is_valid() {
            return false;
        }
        let a = mv.from.0;
        let b = mv.to.0;
        let p = match self.board.get_piece_at(mv.from) {
            Some(p) => p,
            None => {
                return false;
            },
        };
        if p.color != self.side_to_move {
            return false;
        }
        let cs = (match p.piece_type {
            PieceType::King => true,
            _ => false,
        }) && a / 8 == b / 8 && (a % 8 + 2 == b % 8 || b % 8 + 2 == a % 8);
        proof {
            assert(cs == castle_shape(p, a as int, b as int));
        }
        if cs {
            let is_white = match self.side_to_move {
                Color::White => true,
                Color::Black => false,
            };
            let home: u8 = if is_white {
                4
            } else {
                60
            };
            let kingside = b % 8 > a % 8;
            proof {
                if kingside && a == home {
                    assert(b == a + 2);
                }
                if !kingside && a == home {
                    assert(b + 2 == a);
                }
            }
            mv.promotion.is_none() && a == home && self.castle_allowed(kingside)
        } else {
            if !self.motion_allowed(a, b) {
                return false;
            }
            let is_pawn = match p.piece_type {
                PieceType::Pawn => true,
                _ => false,
            };
            let last_rank = match p.color {
                Color::White => b / 8 == 7,
                Color::Black => b / 8 == 0,
            };
            if is_pawn && last_rank {
                match mv.promotion {
                    Some(PieceType::Queen) => true,
                    Some(PieceType::Rook) => true,
                    Some(PieceType::Bishop) => true,
                    Some(PieceType::Knight) => true,
                    _ => false,
                }
            } else {
                mv.promotion.is_none()
            }
        }
    }

    /// Accepts exactly the legal moves; the message names what failed.
    pub fn validate_move(&self, mov: &ChessMove) -> (r: Result<(), &'static str>)
        requires
            self.wf(),
        ensures
            (r is Ok) == spec_is_legal(*self, *mov),
    {
        if !mov.from.is_valid() || !mov.to.is_valid() {
            return Err("Square off the board");
        }
        if self.board.get_piece_at(mov.from).is_none() {
            return Err("No piece selected");
        }
        if !self.pseudo_allowed(mov) {
            return Err("Invalid move");
        }
        if !self.is_legal(mov) {
            return Err("King left in check");
        }
        Ok(())
    }
}

} // verus!
