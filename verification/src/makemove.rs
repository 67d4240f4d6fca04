//! Playing and unplaying moves: the state transition of `make_move`,
//! its incremental hash update, and the exact undo of `unmake_move`.

use vstd::prelude::*;

use crate::apply::{castle_shape, rook_from_sq, rook_to_sq, spec_ep_victim};
use crate::attacks::{fl, iabs, rk};
use crate::bits::{bit64, lemma_xor_ops};
use crate::castling::CastlingRights;
use crate::chess_board::ChessBoard;
use crate::chess_game::{ChessGame, HistoryEntry};
use crate::chess_move::ChessMove;
use crate::chess_piece::{spec_opposite, ChessPiece, Color, PieceType};
use crate::chess_square::ChessSquare;
use crate::movegen::{lemma_pseudo_can_apply, pawn_motion, pseudo_ok, spec_is_legal};
use crate::zobrist::{
    board_hash_upto, lemma_hash_add, lemma_hash_remove, spec_full_hash, ZobristKeys,
};

verus! {

/// The moving piece as it stands after the move: its promotion type
/// if it promoted, itself otherwise.
pub open spec fn arrived_piece(g: ChessGame, mv: ChessMove) -> ChessPiece {
    let p = g.board.spec_piece_at(mv.from.0 as u64).unwrap();
    match mv.promotion {
        Some(pt) => ChessPiece { color: p.color, piece_type: pt },
        None => p,
    }
}

/// The rights mask after the move: a king move drops both of the
/// mover's rights, and any move touching a corner square drops the
/// right tied to that corner.
pub open spec fn make_castling_mask(g: ChessGame, mv: ChessMove) -> u8 {
    let from = mv.from.0;
    let to = mv.to.0;
    let king_mask: u8 = match g.board.spec_piece_at(mv.from.0 as u64) {
        Some(p) => if p.piece_type == PieceType::King {
            match p.color {
                Color::White => 3,
                Color::Black => 12,
            }
        } else {
            0
        },
        None => 0,
    };
    let m1: u8 = if from == 7 || to == 7 {
        1
    } else {
        0
    };
    let m2: u8 = if from == 0 || to == 0 {
        2
    } else {
        0
    };
    let m3: u8 = if from == 63 || to == 63 {
        4
    } else {
        0
    };
    let m4: u8 = if from == 56 || to == 56 {
        8
    } else {
        0
    };
    g.castling_rights.0 & !(king_mask | m1 | m2 | m3 | m4)
}

/// The en-passant square after the move: the square a double-pushing
/// pawn skipped, else none.
pub open spec fn make_ep(g: ChessGame, mv: ChessMove) -> Option<ChessSquare> {
    match g.board.spec_piece_at(mv.from.0 as u64) {
        Some(p) => if p.piece_type == PieceType::Pawn && iabs(
            rk(mv.to.0 as int) - rk(mv.from.0 as int),
        ) == 2 {
            Some(ChessSquare(((mv.from.0 + mv.to.0) / 2) as u8))
        } else {
            None
        },
        None => None,
    }
}

/// The halfmove clock after the move: reset by a pawn move or a
/// capture, incremented otherwise.
pub open spec fn make_halfmove(g: ChessGame, mv: ChessMove) -> u32 {
    match g.board.spec_piece_at(mv.from.0 as u64) {
        Some(p) => if p.piece_type == PieceType::Pawn || g.board.spec_captured(
            g.en_passant,
            mv,
        ) is Some {
            0u32
        } else {
            (g.halfmove_clock + 1) as u32
        },
        None => 0u32,
    }
}

/// The fullmove number after the move: it advances when Black moves.
pub open spec fn make_fullmove(g: ChessGame, mv: ChessMove) -> u32 {
    match g.side_to_move {
        Color::White => g.fullmove_counter,
        Color::Black => (g.fullmove_counter + 1) as u32,
    }
}

/// The history entry `make_move` pushes: the pre-move scalars, hash,
/// captured piece and the move itself.
pub open spec fn make_entry(g: ChessGame, mv: ChessMove) -> HistoryEntry {
    HistoryEntry {
        castling: g.castling_rights,
        ep_square: g.en_passant,
        halfmove_clock: g.halfmove_clock,
        fullmove_counter: g.fullmove_counter,
        zobrist: g.zobrist,
        captured: match g.board.spec_captured(g.en_passant, mv) {
            Some((q, _)) => Some(q),
            None => None,
        },
        mv,
    }
}

/// The exclusive-or of the piece keys the move toggles: the mover at
/// its origin, what arrives at the target, the captured piece, and
/// the castling rook at both of its squares.
pub open spec fn make_hash_delta(k: ZobristKeys, g: ChessGame, mv: ChessMove) -> u64 {
    let p = g.board.spec_piece_at(mv.from.0 as u64).unwrap();
    let from = mv.from.0 as int;
    let to = mv.to.0 as int;
    let arr = arrived_piece(g, mv);
    let base = k.spec_piece_key(p.color, p.piece_type, from) ^ k.spec_piece_key(
        arr.color,
        arr.piece_type,
        to,
    );
    let with_cap = match g.board.spec_captured(g.en_passant, mv) {
        Some((q, cs)) => base ^ k.spec_piece_key(q.color, q.piece_type, cs),
        None => base,
    };
    if castle_shape(p, from, to) {
        let kingside = fl(to) > fl(from);
        let rook = ChessPiece { color: p.color, piece_type: PieceType::Rook };
        with_cap ^ k.spec_piece_key(rook.color, rook.piece_type, rook_from_sq(p.color, kingside))
            ^ k.spec_piece_key(rook.color, rook.piece_type, rook_to_sq(p.color, kingside))
    } else {
        with_cap
    }
}

/// What the raw application does, square by square and to the board
/// hash, for a pseudo-legal move.
#[verifier::rlimit(100)]
#[verifier::spinoff_prover]
pub proof fn lemma_apply_effects(k: ZobristKeys, g: ChessGame, mv: ChessMove)
    requires
        g.wf(),
        pseudo_ok(g, mv),
    ensures
        ({
            let b = g.board;
            let nb = b.spec_apply_move(g.en_passant, mv);
            let p = b.spec_piece_at(mv.from.0 as u64).unwrap();
            let from = mv.from.0 as int;
            let to = mv.to.0 as int;
            let cap = b.spec_captured(g.en_passant, mv);
            let castling = castle_shape(p, from, to);
            let kingside = fl(to) > fl(from);
            &&& nb.wf()
            &&& nb.spec_piece_at(mv.to.0 as u64) == Some(arrived_piece(g, mv))
            &&& nb.spec_piece_at(mv.from.0 as u64) is None
            &&& forall|o: u64|
                o < 64 && o != mv.from.0 && o != mv.to.0 && (cap matches Some((q, cs)) ==> o as int
                    != cs) && (castling ==> o as int != rook_from_sq(p.color, kingside) && o as int
                    != rook_to_sq(p.color, kingside)) ==> #[trigger] nb.spec_piece_at(o)
                    == b.spec_piece_at(o)
            &&& (castling ==> nb.spec_piece_at(rook_from_sq(p.color, kingside) as u64) is None
                && nb.spec_piece_at(rook_to_sq(p.color, kingside) as u64) == Some(
                ChessPiece { color: p.color, piece_type: PieceType::Rook },
            ))
            &&& (cap matches Some((q, cs)) ==> (cs != to ==> nb.spec_piece_at(cs as u64) is None))
            &&& board_hash_upto(k, nb, 64) == (board_hash_upto(k, b, 64) ^ make_hash_delta(
                k,
                g,
                mv,
            ))
        }),
{
    lemma_xor_ops();
    lemma_pseudo_can_apply(g, mv);
    let b = g.board;
    let nb = b.spec_apply_move(g.en_passant, mv);
    let p = b.spec_piece_at(mv.from.0 as u64).unwrap();
    let from = mv.from.0 as int;
    let to = mv.to.0 as int;
    let cap = b.spec_captured(g.en_passant, mv);
    let castling = castle_shape(p, from, to);
    let kingside = fl(to) > fl(from);
    let arr = arrived_piece(g, mv);
    let h0 = board_hash_upto(k, b, 64);
    // Step 1: capture removal.
    let b1 = match cap {
        Some((q, cs)) => b.spec_remove_piece(q, cs as u64),
        None => b,
    };
    let h1 = match cap {
        Some((q, cs)) => h0 ^ k.spec_piece_key(q.color, q.piece_type, cs),
        None => h0,
    };
    match cap {
        Some((q, cs)) => {
            b.lemma_piece_at_bb(cs as u64);
            lemma_hash_remove(k, b, q, cs as u64);
            b.lemma_remove_piece_wf(q, cs as u64);
        },
        None => {},
    }
    assert(b1.wf());
    assert(board_hash_upto(k, b1, 64) == h1);
    assert(b1.spec_piece_at(mv.from.0 as u64) == Some(p));
    assert(b1.spec_piece_at(mv.to.0 as u64) is None);
    // Step 2: the piece moves.
    let b1r = b1.spec_remove_piece(p, mv.from.0 as u64);
    b1.lemma_piece_at_bb(mv.from.0 as u64);
    lemma_hash_remove(k, b1, p, mv.from.0 as u64);
    b1.lemma_remove_piece_wf(p, mv.from.0 as u64);
    let b2 = b1r.spec_add_piece(p, mv.to.0 as u64);
    assert(b1r.spec_piece_at(mv.to.0 as u64) is None);
    b1r.lemma_bb_in_all(mv.to.0 as u64);
    lemma_hash_add(k, b1r, p, mv.to.0 as u64);
    b1r.lemma_add_piece_wf(p, mv.to.0 as u64);
    let kf = k.spec_piece_key(p.color, p.piece_type, from);
    let kt = k.spec_piece_key(p.color, p.piece_type, to);
    assert(board_hash_upto(k, b2, 64) == ((h1 ^ kf) ^ kt));
    // Step 3: promotion.
    let b3 = match mv.promotion {
        Some(pt) => b2.spec_remove_piece(p, mv.to.0 as u64).spec_add_piece(
            ChessPiece { color: p.color, piece_type: pt },
            mv.to.0 as u64,
        ),
        None => b2,
    };
    let karr = k.spec_piece_key(arr.color, arr.piece_type, to);
    match mv.promotion {
        Some(pt) => {
            b2.lemma_piece_at_bb(mv.to.0 as u64);
            lemma_hash_remove(k, b2, p, mv.to.0 as u64);
            b2.lemma_remove_piece_wf(p, mv.to.0 as u64);
            let b2r = b2.spec_remove_piece(p, mv.to.0 as u64);
            b2r.lemma_bb_in_all(mv.to.0 as u64);
            lemma_hash_add(k, b2r, ChessPiece { color: p.color, piece_type: pt }, mv.to.0 as u64);
            b2r.lemma_add_piece_wf(ChessPiece { color: p.color, piece_type: pt }, mv.to.0 as u64);
            assert(board_hash_upto(k, b3, 64) == ((((h1 ^ kf) ^ kt) ^ kt) ^ karr));
            assert((((h1 ^ kf) ^ kt) ^ kt) == (h1 ^ kf));
            assert(board_hash_upto(k, b3, 64) == ((h1 ^ kf) ^ karr));
        },
        None => {
            assert(arr == p);
            assert(board_hash_upto(k, b3, 64) == ((h1 ^ kf) ^ karr));
        },
    }
    assert(b3.wf());
    assert(b3.spec_piece_at(mv.to.0 as u64) == Some(arr));
    assert(b3.spec_piece_at(mv.from.0 as u64) is None);
    // Step 4: the castling rook.
    if castling {
        let rook = ChessPiece { color: p.color, piece_type: PieceType::Rook };
        let rf = rook_from_sq(p.color, kingside);
        let rt = rook_to_sq(p.color, kingside);
        assert(b3.spec_piece_at(rf as u64) == Some(rook));
        assert(b3.spec_piece_at(rt as u64) is None);
        let b3r = b3.spec_remove_piece(rook, rf as u64);
        b3.lemma_piece_at_bb(rf as u64);
        lemma_hash_remove(k, b3, rook, rf as u64);
        b3.lemma_remove_piece_wf(rook, rf as u64);
        assert(b3r.spec_piece_at(rt as u64) is None);
        b3r.lemma_bb_in_all(rt as u64);
        lemma_hash_add(k, b3r, rook, rt as u64);
        b3r.lemma_add_piece_wf(rook, rt as u64);
        let krf = k.spec_piece_key(rook.color, rook.piece_type, rf);
        let krt = k.spec_piece_key(rook.color, rook.piece_type, rt);
        assert(nb == b3r.spec_add_piece(rook, rt as u64));
        assert(board_hash_upto(k, nb, 64) == ((((h1 ^ kf) ^ karr) ^ krf) ^ krt));
        assert(board_hash_upto(k, nb, 64) == (h0 ^ make_hash_delta(k, g, mv)));
    } else {
        assert(nb == b3);
        assert(board_hash_upto(k, nb, 64) == (h0 ^ make_hash_delta(k, g, mv)));
    }
}

/// Facts about four-bit masks used by the castling-rights update.
proof fn lemma_rights_mask()
    by (bit_vector)
    ensures
        forall|x: u8| (#[trigger] (x | 0u8)) == x,
        forall|x: u8| (#[trigger] (0u8 | x)) == x,
        forall|x: u8, y: u8| x < 16 ==> (#[trigger] (x & !y)) < 16,
{
}

/// The shapes in which the incremental update accumulates key
/// exclusive-ors, rearranged to the shape of `make_hash_delta`.
proof fn lemma_xor_shuffle()
    by (bit_vector)
    ensures
        forall|h: u64, a: u64, b: u64| ((h ^ a) ^ b) == h ^ (a ^ b),
        forall|h: u64, a: u64, b: u64, c: u64| (((h ^ a) ^ c) ^ b) == h ^ ((a ^ b) ^ c),
        forall|h: u64, a: u64, b: u64, d: u64, e: u64|
            ((((h ^ a) ^ b) ^ d) ^ e) == h ^ (((a ^ b) ^ d) ^ e),
{
}

/// A double push skips over an empty square and leaves the pushed
/// pawn right behind the new en-passant square.
proof fn lemma_make_ep_wf(g: ChessGame, mv: ChessMove)
    requires
        g.wf(),
        pseudo_ok(g, mv),
    ensures
        crate::chess_game::ep_coherent(
            g.board.spec_apply_move(g.en_passant, mv),
            spec_opposite(g.side_to_move),
            make_ep(g, mv),
        ),
{
    lemma_apply_effects(g.keys, g, mv);
    let nb = g.board.spec_apply_move(g.en_passant, mv);
    let p = g.board.spec_piece_at(mv.from.0 as u64).unwrap();
    let from = mv.from.0 as int;
    let to = mv.to.0 as int;
    if make_ep(g, mv) is Some {
        let e = make_ep(g, mv).unwrap();
        assert(p.piece_type == PieceType::Pawn);
        assert(!castle_shape(p, from, to));
        assert(pawn_motion(g, p.color, from, to));
        assert(fl(from) == fl(to));
        match p.color {
            Color::White => {
                assert(rk(from) == 1 && rk(to) == 3);
                assert(e.0 as int == from + 8);
            },
            Color::Black => {
                assert(rk(from) == 6 && rk(to) == 4);
                assert(e.0 as int == from - 8);
            },
        }
        assert(g.board.spec_piece_at(e.0 as u64) is None);
        assert(g.board.spec_captured(g.en_passant, mv) is None);
        assert(nb.spec_piece_at(e.0 as u64) is None);
        assert(mv.promotion is None);
        assert(nb.spec_piece_at(mv.to.0 as u64) == Some(p));
    }
}

impl ChessGame {
    /// Plays a legal move: pushes a history entry, applies the raw
    /// board change, updates rights, en passant, the clocks and the
    /// side to move, and keeps the hash equal to its recomputation.
    #[verifier::rlimit(100)]
    #[verifier::spinoff_prover]
    pub fn make_move(&mut self, mv: &ChessMove)
        requires
            old(self).wf(),
            spec_is_legal(*old(self), *mv),
            old(self).halfmove_clock < 0xffff_ffffu32,
            old(self).fullmove_counter < 0xffff_ffffu32,
        ensures
            final(self).board == old(self).board.spec_apply_move(old(self).en_passant, *mv),
            final(self).side_to_move == spec_opposite(old(self).side_to_move),
            final(self).castling_rights.0 == make_castling_mask(*old(self), *mv),
            final(self).en_passant == make_ep(*old(self), *mv),
            final(self).halfmove_clock == make_halfmove(*old(self), *mv),
            final(self).fullmove_counter == make_fullmove(*old(self), *mv),
            final(self).history@ == old(self).history@.push(make_entry(*old(self), *mv)),
            final(self).keys == old(self).keys,
            final(self).zobrist == spec_full_hash(
                final(self).keys,
                final(self).board,
                final(self).castling_rights.0,
                final(self).en_passant,
                final(self).side_to_move,
            ),
            final(self).wf(),
    {
        let ghost g = *old(self);
        proof {
            lemma_pseudo_can_apply(g, *mv);
            lemma_apply_effects(g.keys, g, *mv);
        }
        let p = match self.board.get_piece_at(mv.from) {
            Some(p) => p,
            None => {
                proof {
                    assert(false);
                }
                return ;
            },
        };
        // The captured piece, and the square it is taken from.
        let is_ep = match (p.piece_type, self.en_passant) {
            (PieceType::Pawn, Some(e)) => e.0 == mv.to.0,
            _ => false,
        };
        proof {
            assert(is_ep == g.board.is_ep_capture(g.en_passant, *mv));
        }
        let (captured, capsq): (Option<ChessPiece>, u8) = if is_ep {
            let vs = match p.color {
                Color::White => mv.to.0 - 8,
                Color::Black => mv.to.0 + 8,
            };
            (Some(ChessPiece { color: p.color.opposite(), piece_type: PieceType::Pawn }), vs)
        } else {
            match self.board.get_piece_at(mv.to) {
                Some(q) => (Some(q), mv.to.0),
                None => (None, 0),
            }
        };
        proof {
            assert(match g.board.spec_captured(g.en_passant, *mv) {
                Some((q, cs)) => captured == Some(q) && capsq as int == cs && cs < 64,
                None => captured is None,
            });
        }
        // The pre-move snapshot.
        let entry = HistoryEntry {
            castling: self.castling_rights,
            ep_square: self.en_passant,
            halfmove_clock: self.halfmove_clock,
            fullmove_counter: self.fullmove_counter,
            zobrist: self.zobrist,
            captured,
            mv: *mv,
        };
        self.history.push(entry);
        proof {
            assert(entry == make_entry(g, *mv));
        }
        // Strip the metadata keys off the hash, leaving the board part.
        let mut h = self.zobrist;
        match self.side_to_move {
            Color::Black => {
                h = h ^ self.keys.side_to_move;
            },
            Color::White => {},
        }
        if let Some(e) = self.en_passant {
            h = h ^ self.keys.ep_file_key(e.0 % 8);
        }
        h = h ^ self.keys.castling_key(self.castling_rights.0);
        proof {
            assert(h == board_hash_upto(g.keys, g.board, 64)) by {
                lemma_xor_ops();
            }
        }
        // Toggle the piece keys the move changes.
        h = h ^ self.keys.piece_key(p.color, p.piece_type, mv.from.0);
        if let Some(c) = captured {
            h = h ^ self.keys.piece_key(c.color, c.piece_type, capsq);
        }
        let arr_t = match mv.promotion {
            Some(pt) => pt,
            None => p.piece_type,
        };
        h = h ^ self.keys.piece_key(p.color, arr_t, mv.to.0);
        let is_castle = (match p.piece_type {
            PieceType::King => true,
            _ => false,
        }) && mv.from.0 / 8 == mv.to.0 / 8 && (mv.from.0 % 8 + 2 == mv.to.0 % 8 || mv.to.0 % 8 + 2
            == mv.from.0 % 8);
        proof {
            assert(is_castle == castle_shape(p, mv.from.0 as int, mv.to.0 as int));
        }
        if is_castle {
            let kingside = mv.to.0 % 8 > mv.from.0 % 8;
            let rf: u8 = match (p.color, kingside) {
                (Color::White, true) => 7,
                (Color::White, false) => 0,
                (Color::Black, true) => 63,
                (Color::Black, false) => 56,
            };
            let rt: u8 = match (p.color, kingside) {
                (Color::White, true) => 5,
                (Color::White, false) => 3,
                (Color::Black, true) => 61,
                (Color::Black, false) => 59,
            };
            h = h ^ self.keys.piece_key(p.color, PieceType::Rook, rf);
            h = h ^ self.keys.piece_key(p.color, PieceType::Rook, rt);
        }
        proof {
            assert(h == (board_hash_upto(g.keys, g.board, 64) ^ make_hash_delta(g.keys, g, *mv)))
                by {
                lemma_xor_shuffle();
            }
            assert(h == board_hash_upto(
                g.keys,
                g.board.spec_apply_move(g.en_passant, *mv),
                64,
            ));
        }
        // The raw board change.
        self.board.apply_move(*mv, self.en_passant);
        // Castling rights: king moves and corner squares drop rights.
        let mut rm: u8 = 0;
        match p.piece_type {
            PieceType::King => {
                rm = rm | (match p.color {
                    Color::White => 3,
                    Color::Black => 12,
                });
            },
            _ => {},
        }
        if mv.from.0 == 7 || mv.to.0 == 7 {
            rm = rm | 1;
        }
        if mv.from.0 == 0 || mv.to.0 == 0 {
            rm = rm | 2;
        }
        if mv.from.0 == 63 || mv.to.0 == 63 {
            rm = rm | 4;
        }
        if mv.from.0 == 56 || mv.to.0 == 56 {
            rm = rm | 8;
        }
        self.castling_rights.remove(rm);
        proof {
            assert(self.castling_rights.0 == make_castling_mask(g, *mv)
                && self.castling_rights.0 < 16) by {
                lemma_rights_mask();
            }
        }
        // En passant: set on a double push, cleared otherwise.
        let dbl = (match p.piece_type {
            PieceType::Pawn => true,
            _ => false,
        }) && (mv.from.0 / 8 + 2 == mv.to.0 / 8 || mv.to.0 / 8 + 2 == mv.from.0 / 8);
        if dbl {
            self.en_passant = Some(ChessSquare((mv.from.0 + mv.to.0) / 2));
        } else {
            self.en_passant = None;
        }
        proof {
            assert(self.en_passant == make_ep(g, *mv));
        }
        // Clocks.
        if (match p.piece_type {
            PieceType::Pawn => true,
            _ => false,
        }) || captured.is_some() {
            self.halfmove_clock = 0;
        } else {
            self.halfmove_clock = self.halfmove_clock + 1;
        }
        match self.side_to_move {
            Color::Black => {
                self.fullmove_counter = self.fullmove_counter + 1;
            },
            Color::White => {},
        }
        self.side_to_move = self.side_to_move.opposite();
        // Fold the new metadata keys back in.
        h = h ^ self.keys.castling_key(self.castling_rights.0);
        if let Some(e) = self.en_passant {
            h = h ^ self.keys.ep_file_key(e.0 % 8);
        }
        match self.side_to_move {
            Color::Black => {
                h = h ^ self.keys.side_to_move;
            },
            Color::White => {},
        }
        self.zobrist = h;
        proof {
            assert(self.zobrist == spec_full_hash(
                self.keys,
                self.board,
                self.castling_rights.0,
                self.en_passant,
                self.side_to_move,
            ));
            assert(self.ep_wf()) by {
                lemma_make_ep_wf(g, *mv);
            }
            assert(self.wf());
        }
    }

    /// Takes the last played move back: restores the scalars and the
    /// hash from the snapshot and rebuilds the board from the move
    /// and the captured piece.
    #[verifier::rlimit(100)]
    #[verifier::spinoff_prover]
    pub fn unmake_move(&mut self)
        requires
            old(self).wf(),
            can_unmake(*old(self)),
        ensures
            final(self).board == spec_unmade_board(*old(self)),
            final(self).side_to_move == spec_opposite(old(self).side_to_move),
            final(self).castling_rights == old(self).history@.last().castling,
            final(self).en_passant == old(self).history@.last().ep_square,
            final(self).halfmove_clock == old(self).history@.last().halfmove_clock,
            final(self).fullmove_counter == old(self).history@.last().fullmove_counter,
            final(self).zobrist == old(self).history@.last().zobrist,
            final(self).history@ == old(self).history@.drop_last(),
            final(self).keys == old(self).keys,
            final(self).wf(),
    {
        let ghost g = *old(self);
        let e = match self.history.pop() {
            Some(e) => e,
            None => {
                proof {
                    assert(false);
                }
                return ;
            },
        };
        let mv = e.mv;
        let mover = self.side_to_move.opposite();
        let q = match self.board.get_piece_at(mv.to) {
            Some(q) => q,
            None => {
                proof {
                    assert(false);
                }
                return ;
            },
        };
        let ghost b0 = g.board;
        // Bring the castling rook home first.
        let is_castle = (match q.piece_type {
            PieceType::King => true,
            _ => false,
        }) && mv.from.0 / 8 == mv.to.0 / 8 && (mv.from.0 % 8 + 2 == mv.to.0 % 8 || mv.to.0 % 8 + 2
            == mv.from.0 % 8);
        proof {
            assert(is_castle == castle_shape(q, mv.from.0 as int, mv.to.0 as int));
        }
        if is_castle {
            let kingside = mv.to.0 % 8 > mv.from.0 % 8;
            let rf = ChessSquare(
                match (mover, kingside) {
                    (Color::White, true) => 7,
                    (Color::White, false) => 0,
                    (Color::Black, true) => 63,
                    (Color::Black, false) => 56,
                },
            );
            let rt = ChessSquare(
                match (mover, kingside) {
                    (Color::White, true) => 5,
                    (Color::White, false) => 3,
                    (Color::Black, true) => 61,
                    (Color::Black, false) => 59,
                },
            );
            let rook = ChessPiece { color: mover, piece_type: PieceType::Rook };
            proof {
                b0.lemma_piece_at_bb(rt.0 as u64);
                b0.lemma_bb_in_all(rf.0 as u64);
            }
            self.board.move_piece(rt, rf, rook);
            proof {
                b0.lemma_remove_piece_wf(rook, rt.0 as u64);
                let br = b0.spec_remove_piece(rook, rt.0 as u64);
                assert(br.spec_piece_at(rf.0 as u64) is None);
                br.lemma_bb_in_all(rf.0 as u64);
                br.lemma_add_piece_wf(rook, rf.0 as u64);
            }
        }
        let ghost b1 = self.board;
        // Demote a promoted piece back to the pawn it was.
        let mvr = match mv.promotion {
            Some(pt) => {
                let promoted = ChessPiece { color: mover, piece_type: pt };
                let pawn = ChessPiece { color: mover, piece_type: PieceType::Pawn };
                proof {
                    b1.lemma_piece_at_bb(mv.to.0 as u64);
                }
                self.board.remove_piece(promoted, mv.to);
                proof {
                    b1.lemma_remove_piece_wf(promoted, mv.to.0 as u64);
                    b1.spec_remove_piece(promoted, mv.to.0 as u64).lemma_bb_in_all(mv.to.0 as u64);
                }
                self.board.add_piece(pawn, mv.to);
                proof {
                    b1.spec_remove_piece(promoted, mv.to.0 as u64).lemma_add_piece_wf(
                        pawn,
                        mv.to.0 as u64,
                    );
                }
                pawn
            },
            None => q,
        };
        let ghost b2 = self.board;
        // The piece steps back to its origin.
        proof {
            assert(b2.spec_piece_at(mv.to.0 as u64) == Some(mvr));
            assert(b2.spec_piece_at(mv.from.0 as u64) is None);
            b2.lemma_piece_at_bb(mv.to.0 as u64);
            b2.lemma_bb_in_all(mv.from.0 as u64);
        }
        self.board.move_piece(mv.to, mv.from, mvr);
        let ghost b3 = self.board;
        proof {
            b2.lemma_remove_piece_wf(mvr, mv.to.0 as u64);
            let br = b2.spec_remove_piece(mvr, mv.to.0 as u64);
            assert(br.spec_piece_at(mv.from.0 as u64) is None);
            br.lemma_bb_in_all(mv.from.0 as u64);
            br.lemma_add_piece_wf(mvr, mv.from.0 as u64);
        }
        // The captured piece returns to its square.
        if let Some(c) = e.captured {
            let is_ep = (match mvr.piece_type {
                PieceType::Pawn => true,
                _ => false,
            }) && (match e.ep_square {
                Some(s) => s.0 == mv.to.0,
                None => false,
            });
            let cs = if is_ep {
                ChessSquare(
                    match mover {
                        Color::White => mv.to.0 - 8,
                        Color::Black => mv.to.0 + 8,
                    },
                )
            } else {
                mv.to
            };
            proof {
                assert(b3.spec_piece_at(cs.0 as u64) is None);
                b3.lemma_bb_in_all(cs.0 as u64);
            }
            self.board.add_piece(c, cs);
            proof {
                b3.lemma_add_piece_wf(c, cs.0 as u64);
            }
        }
        // The scalars come straight from the snapshot.
        self.castling_rights = e.castling;
        self.en_passant = e.ep_square;
        self.halfmove_clock = e.halfmove_clock;
        self.fullmove_counter = e.fullmove_counter;
        self.zobrist = e.zobrist;
        self.side_to_move = mover;
        proof {
            assert(self.board == spec_unmade_board(g));
            assert(self.wf());
        }
    }
}

/// The structural facts the undo needs of the current position: the
/// moved piece stands on its target, the origin is free, the rook
/// and captured-piece squares are as the move left them, and the
/// snapshot's scalars and hash describe the position being restored.
pub open spec fn can_unmake(g: ChessGame) -> bool {
    &&& g.history@.len() > 0
    &&& ({
        let e = g.history@.last();
        let mv = e.mv;
        let mover = spec_opposite(g.side_to_move);
        let from = mv.from.0 as int;
        let to = mv.to.0 as int;
        &&& mv.from.wf()
        &&& mv.to.wf()
        &&& mv.from != mv.to
        &&& g.board.spec_piece_at(mv.from.0 as u64) is None
        &&& match g.board.spec_piece_at(mv.to.0 as u64) {
            Some(q) => {
                &&& q.color == mover
                &&& (match mv.promotion {
                    Some(pt) => q.piece_type == pt && pt != PieceType::Pawn && e.ep_square != Some(
                        mv.to,
                    )
                    ,
                    None => true,
                })
                &&& (castle_shape(q, from, to) ==> ({
                    let kingside = fl(to) > fl(from);
                    &&& mv.promotion is None
                    &&& e.captured is None
                    &&& from == (match mover {
                        Color::White => 4int,
                        Color::Black => 60int,
                    })
                    &&& g.board.spec_piece_at(rook_to_sq(mover, kingside) as u64) == Some(
                        ChessPiece { color: mover, piece_type: PieceType::Rook },
                    )
                    &&& g.board.spec_piece_at(rook_from_sq(mover, kingside) as u64) is None
                }))
                &&& (match e.captured {
                    Some(c) => {
                        let ep_cap = (match mv.promotion {
                            Some(_) => false,
                            None => q.piece_type == PieceType::Pawn,
                        }) && e.ep_square == Some(mv.to);
                        &&& c.color == g.side_to_move
                        &&& !castle_shape(q, from, to)
                        &&& (ep_cap ==> ({
                            let cs = spec_ep_victim(mover, to);
                            &&& 0 <= cs < 64
                            &&& cs != from
                            &&& g.board.spec_piece_at(cs as u64) is None
                        }))
                    },
                    None => true,
                })
            },
            None => false,
        }
        &&& e.castling.0 < 16
        &&& e.zobrist == spec_full_hash(
            g.keys,
            spec_unmade_board(g),
            e.castling.0,
            e.ep_square,
            mover,
        )
        &&& crate::chess_game::ep_coherent(spec_unmade_board(g), mover, e.ep_square)
    })
}

/// Playing a legal move and taking it back restores the position
/// bit for bit: the state after `make_move` always satisfies
/// `can_unmake`, and undoing it rebuilds exactly the old board,
/// while the snapshot returns the old scalars and hash unchanged.
#[verifier::rlimit(100)]
#[verifier::spinoff_prover]
pub proof fn lemma_make_round_trip(g: ChessGame, gm: ChessGame, mv: ChessMove)
    requires
        g.wf(),
        spec_is_legal(g, mv),
        gm.board == g.board.spec_apply_move(g.en_passant, mv),
        gm.side_to_move == spec_opposite(g.side_to_move),
        gm.castling_rights.0 == make_castling_mask(g, mv),
        gm.en_passant == make_ep(g, mv),
        gm.zobrist == spec_full_hash(
            gm.keys,
            gm.board,
            gm.castling_rights.0,
            gm.en_passant,
            gm.side_to_move,
        ),
        gm.keys == g.keys,
        gm.history@ == g.history@.push(make_entry(g, mv)),
    ensures
        can_unmake(gm),
        spec_unmade_board(gm) == g.board,
        gm.history@.last() == make_entry(g, mv),
        gm.history@.drop_last() == g.history@,
{
    lemma_pseudo_can_apply(g, mv);
    lemma_apply_effects(g.keys, g, mv);
    let b = g.board;
    let nb = gm.board;
    let p = b.spec_piece_at(mv.from.0 as u64).unwrap();
    let from = mv.from.0 as int;
    let to = mv.to.0 as int;
    let cap = b.spec_captured(g.en_passant, mv);
    let castling = castle_shape(p, from, to);
    let kingside = fl(to) > fl(from);
    let arr = arrived_piece(g, mv);
    let e = gm.history@.last();
    assert(e == make_entry(g, mv));
    assert(gm.history@.drop_last() =~= g.history@);
    let mover = spec_opposite(gm.side_to_move);
    assert(mover == g.side_to_move && mover == p.color);
    let q = nb.spec_piece_at(mv.to.0 as u64).unwrap();
    assert(q == arr);
    // Promotions go to the four named pieces, never to a pawn, and
    // never onto the en-passant square.
    if mv.promotion is Some {
        assert(crate::movegen::promo_ok(p, to, mv.promotion));
        if g.en_passant == Some(mv.to) {
            assert(rk(to) == 2 || rk(to) == 5);
            assert(false);
        }
    }
    // The shape of the arrived piece matches the shape of the move.
    assert(castle_shape(q, from, to) == castling);
    // Rebuild the intermediate boards of the application.
    let b1 = match cap {
        Some((cq, cs)) => b.spec_remove_piece(cq, cs as u64),
        None => b,
    };
    match cap {
        Some((cq, cs)) => {
            b.lemma_piece_at_bb(cs as u64);
            b.lemma_remove_piece_wf(cq, cs as u64);
        },
        None => {},
    }
    let b1r = b1.spec_remove_piece(p, mv.from.0 as u64);
    b1.lemma_piece_at_bb(mv.from.0 as u64);
    b1.lemma_remove_piece_wf(p, mv.from.0 as u64);
    let b2 = b1r.spec_add_piece(p, mv.to.0 as u64);
    b1r.lemma_bb_in_all(mv.to.0 as u64);
    b1r.lemma_add_piece_wf(p, mv.to.0 as u64);
    let b3 = match mv.promotion {
        Some(pt) => b2.spec_remove_piece(p, mv.to.0 as u64).spec_add_piece(
            ChessPiece { color: p.color, piece_type: pt },
            mv.to.0 as u64,
        ),
        None => b2,
    };
    match mv.promotion {
        Some(pt) => {
            b2.lemma_piece_at_bb(mv.to.0 as u64);
            b2.lemma_remove_piece_wf(p, mv.to.0 as u64);
            let b2r = b2.spec_remove_piece(p, mv.to.0 as u64);
            b2r.lemma_bb_in_all(mv.to.0 as u64);
            b2r.lemma_add_piece_wf(ChessPiece { color: p.color, piece_type: pt }, mv.to.0 as u64);
        },
        None => {},
    }
    let rook = ChessPiece { color: p.color, piece_type: PieceType::Rook };
    if castling {
        let rf = rook_from_sq(p.color, kingside);
        let rt = rook_to_sq(p.color, kingside);
        b3.lemma_piece_at_bb(rf as u64);
        b3.lemma_remove_piece_wf(rook, rf as u64);
        let b3r = b3.spec_remove_piece(rook, rf as u64);
        b3r.lemma_bb_in_all(rt as u64);
        b3r.lemma_add_piece_wf(rook, rt as u64);
        assert(nb == b3r.spec_add_piece(rook, rt as u64));
    } else {
        assert(nb == b3);
    }
    // Undo, step by step, with the cancellation lemmas.
    let u1 = if castle_shape(q, from, to) {
        nb.spec_move_piece(
            ChessPiece { color: mover, piece_type: PieceType::Rook },
            rook_to_sq(mover, kingside) as u64,
            rook_from_sq(mover, kingside) as u64,
        )
    } else {
        nb
    };
    if castling {
        let rf = rook_from_sq(p.color, kingside);
        let rt = rook_to_sq(p.color, kingside);
        let b3r = b3.spec_remove_piece(rook, rf as u64);
        b3r.lemma_add_remove_cancel(rook, rt as u64);
        assert(nb.spec_remove_piece(rook, rt as u64) == b3r);
        b3.lemma_remove_add_cancel(rook, rf as u64);
        assert(u1 == b3);
    } else {
        assert(u1 == b3);
    }
    let mvr = match mv.promotion {
        Some(_) => ChessPiece { color: mover, piece_type: PieceType::Pawn },
        None => q,
    };
    let u2 = match mv.promotion {
        Some(pt) => u1.spec_remove_piece(ChessPiece { color: mover, piece_type: pt }, mv.to.0 as u64)
            .spec_add_piece(mvr, mv.to.0 as u64),
        None => u1,
    };
    match mv.promotion {
        Some(pt) => {
            assert(mvr == p);
            let b2r = b2.spec_remove_piece(p, mv.to.0 as u64);
            b2r.lemma_add_remove_cancel(ChessPiece { color: p.color, piece_type: pt }, mv.to.0 as u64);
            assert(u1.spec_remove_piece(ChessPiece { color: mover, piece_type: pt }, mv.to.0 as u64)
                == b2r);
            b2.lemma_remove_add_cancel(p, mv.to.0 as u64);
            assert(u2 == b2);
        },
        None => {
            assert(mvr == p);
            assert(u2 == b2);
        },
    }
    let u3 = u2.spec_move_piece(mvr, mv.to.0 as u64, mv.from.0 as u64);
    b1r.lemma_add_remove_cancel(p, mv.to.0 as u64);
    assert(u2.spec_remove_piece(p, mv.to.0 as u64) == b1r);
    b1.lemma_remove_add_cancel(p, mv.from.0 as u64);
    assert(u3 == b1);
    let unmade = spec_unmade_board(gm);
    match cap {
        Some((cq, cs)) => {
            assert(e.captured == Some(cq));
            let ep_cap = mvr.piece_type == PieceType::Pawn && e.ep_square == Some(mv.to);
            assert(ep_cap == b.is_ep_capture(g.en_passant, mv));
            let ucs = if ep_cap {
                spec_ep_victim(mover, to)
            } else {
                to
            };
            assert(ucs == cs);
            b.lemma_remove_add_cancel(cq, cs as u64);
            assert(unmade == u3.spec_add_piece(cq, cs as u64));
            assert(unmade == b);
        },
        None => {
            assert(unmade == b);
        },
    }
    // The structural facts of `can_unmake`.
    match cap {
        Some((cq, cs)) => {
            assert(cq.color == spec_opposite(p.color));
            if b.is_ep_capture(g.en_passant, mv) {
                assert(!castling);
                assert(cs != to);
                assert(nb.spec_piece_at(cs as u64) is None);
                assert(crate::attacks::pawn_attack_reach(p.color, from, to));
                assert(fl(cs) == fl(to) && fl(from) != fl(to));
                assert(cs != from);
            }
        },
        None => {},
    }
    assert(e.zobrist == g.zobrist);
    assert(e.castling == g.castling_rights);
    assert(e.ep_square == g.en_passant);
    assert(spec_full_hash(gm.keys, unmade, e.castling.0, e.ep_square, mover) == g.zobrist);
    assert(crate::chess_game::ep_coherent(unmade, mover, e.ep_square));
}

/// The board as `unmake_move` rebuilds it: the castling rook walks
/// home, a promotion demotes, the piece steps back, and any captured
/// piece returns.
pub open spec fn spec_unmade_board(g: ChessGame) -> ChessBoard {
    let e = g.history@.last();
    let mv = e.mv;
    let mover = spec_opposite(g.side_to_move);
    let from = mv.from.0 as int;
    let to = mv.to.0 as int;
    match g.board.spec_piece_at(mv.to.0 as u64) {
        Some(q) => {
            let b1 = if castle_shape(q, from, to) {
                let kingside = fl(to) > fl(from);
                g.board.spec_move_piece(
                    ChessPiece { color: mover, piece_type: PieceType::Rook },
                    rook_to_sq(mover, kingside) as u64,
                    rook_from_sq(mover, kingside) as u64,
                )
            } else {
                g.board
            };
            let mvr = match mv.promotion {
                Some(_) => ChessPiece { color: mover, piece_type: PieceType::Pawn },
                None => q,
            };
            let b2 = match mv.promotion {
                Some(pt) => b1.spec_remove_piece(
                    ChessPiece { color: mover, piece_type: pt },
                    mv.to.0 as u64,
                ).spec_add_piece(mvr, mv.to.0 as u64),
                None => b1,
            };
            let b3 = b2.spec_move_piece(mvr, mv.to.0 as u64, mv.from.0 as u64);
            match e.captured {
                Some(c) => {
                    let cs = if mvr.piece_type == PieceType::Pawn && e.ep_square == Some(mv.to) {
                        spec_ep_victim(mover, to)
                    } else {
                        to
                    };
                    b3.spec_add_piece(c, cs as u64)
                },
                None => b3,
            }
        },
        None => g.board,
    }
}

} // verus!
