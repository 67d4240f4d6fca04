//! The piece placement: one board set per colour and piece type,
//! with redundant occupancy sets kept coherent by every mutator.

use vstd::prelude::*;

use crate::bitboard::Bitboard;
use crate::bits::{bit64, lemma_bit_ops, lemma_u64_ext, lemma_u64_no_bits};
use crate::chess_piece::{ChessPiece, Color, PieceType};
use crate::chess_square::ChessSquare;

verus! {

#[derive(Debug, Clone, Copy, PartialEq, Eq, Structural)]
pub struct ChessBoard {
    pub white_pawns: Bitboard,
    pub white_knights: Bitboard,
    pub white_bishops: Bitboard,
    pub white_rooks: Bitboard,
    pub white_queens: Bitboard,
    pub white_king: Bitboard,
    pub black_pawns: Bitboard,
    pub black_knights: Bitboard,
    pub black_bishops: Bitboard,
    pub black_rooks: Bitboard,
    pub black_queens: Bitboard,
    pub black_king: Bitboard,
    pub white_occupancy: Bitboard,
    pub black_occupancy: Bitboard,
    pub all_pieces: Bitboard,
}

impl ChessBoard {
    /// The set of squares held by the given colour and piece type.
    pub open spec fn sbb(self, c: Color, t: PieceType) -> u64 {
        match c {
            Color::White => match t {
                PieceType::Pawn => self.white_pawns.0,
                PieceType::Knight => self.white_knights.0,
                PieceType::Bishop => self.white_bishops.0,
                PieceType::Rook => self.white_rooks.0,
                PieceType::Queen => self.white_queens.0,
                PieceType::King => self.white_king.0,
            },
            Color::Black => match t {
                PieceType::Pawn => self.black_pawns.0,
                PieceType::Knight => self.black_knights.0,
                PieceType::Bishop => self.black_bishops.0,
                PieceType::Rook => self.black_rooks.0,
                PieceType::Queen => self.black_queens.0,
                PieceType::King => self.black_king.0,
            },
        }
    }

    /// The twelve piece sets in a fixed order: white pawn through
    /// king, then black pawn through king.
    pub open spec fn nth_bb(self, k: int) -> u64 {
        if k == 0 {
            self.white_pawns.0
        } else if k == 1 {
            self.white_knights.0
        } else if k == 2 {
            self.white_bishops.0
        } else if k == 3 {
            self.white_rooks.0
        } else if k == 4 {
            self.white_queens.0
        } else if k == 5 {
            self.white_king.0
        } else if k == 6 {
            self.black_pawns.0
        } else if k == 7 {
            self.black_knights.0
        } else if k == 8 {
            self.black_bishops.0
        } else if k == 9 {
            self.black_rooks.0
        } else if k == 10 {
            self.black_queens.0
        } else {
            self.black_king.0
        }
    }

    /// The index of a piece's set in the fixed order.
    pub open spec fn bb_index(c: Color, t: PieceType) -> int {
        (match c {
            Color::White => 0int,
            Color::Black => 6int,
        }) + t.idx()
    }

    /// The union of the six white piece sets, as the invariant states it.
    pub open spec fn white_union(self) -> u64 {
        self.white_pawns.0 | self.white_knights.0 | self.white_bishops.0 | self.white_rooks.0
            | self.white_queens.0 | self.white_king.0
    }

    pub open spec fn black_union(self) -> u64 {
        self.black_pawns.0 | self.black_knights.0 | self.black_bishops.0 | self.black_rooks.0
            | self.black_queens.0 | self.black_king.0
    }

    /// Occupancy coherence: each occupancy set equals the union of its
    /// colour's piece sets, the full set is their union, and no square
    /// is held by two piece sets.
    pub open spec fn wf(self) -> bool {
        &&& self.white_occupancy.0 == self.white_union()
        &&& self.black_occupancy.0 == self.black_union()
        &&& self.all_pieces.0 == (self.white_occupancy.0 | self.black_occupancy.0)
        &&& forall|i: int, j: int|
            0 <= i < j < 12 ==> (#[trigger] self.nth_bb(i) & #[trigger] self.nth_bb(j)) == 0
    }

    /// The piece on a square, if any.
    pub open spec fn spec_piece_at(self, sq: u64) -> Option<ChessPiece> {
        if bit64(self.white_pawns.0, sq) {
            Some(ChessPiece { color: Color::White, piece_type: PieceType::Pawn })
        } else if bit64(self.white_knights.0, sq) {
            Some(ChessPiece { color: Color::White, piece_type: PieceType::Knight })
        } else if bit64(self.white_bishops.0, sq) {
            Some(ChessPiece { color: Color::White, piece_type: PieceType::Bishop })
        } else if bit64(self.white_rooks.0, sq) {
            Some(ChessPiece { color: Color::White, piece_type: PieceType::Rook })
        } else if bit64(self.white_queens.0, sq) {
            Some(ChessPiece { color: Color::White, piece_type: PieceType::Queen })
        } else if bit64(self.white_king.0, sq) {
            Some(ChessPiece { color: Color::White, piece_type: PieceType::King })
        } else if bit64(self.black_pawns.0, sq) {
            Some(ChessPiece { color: Color::Black, piece_type: PieceType::Pawn })
        } else if bit64(self.black_knights.0, sq) {
            Some(ChessPiece { color: Color::Black, piece_type: PieceType::Knight })
        } else if bit64(self.black_bishops.0, sq) {
            Some(ChessPiece { color: Color::Black, piece_type: PieceType::Bishop })
        } else if bit64(self.black_rooks.0, sq) {
            Some(ChessPiece { color: Color::Black, piece_type: PieceType::Rook })
        } else if bit64(self.black_queens.0, sq) {
            Some(ChessPiece { color: Color::Black, piece_type: PieceType::Queen })
        } else if bit64(self.black_king.0, sq) {
            Some(ChessPiece { color: Color::Black, piece_type: PieceType::King })
        } else {
            None
        }
    }

    /// The board with one piece set replaced.
    pub open spec fn spec_set_bb(self, c: Color, t: PieceType, v: u64) -> ChessBoard {
        match c {
            Color::White => match t {
                PieceType::Pawn => ChessBoard { white_pawns: Bitboard(v), ..self },
                PieceType::Knight => ChessBoard { white_knights: Bitboard(v), ..self },
                PieceType::Bishop => ChessBoard { white_bishops: Bitboard(v), ..self },
                PieceType::Rook => ChessBoard { white_rooks: Bitboard(v), ..self },
                PieceType::Queen => ChessBoard { white_queens: Bitboard(v), ..self },
                PieceType::King => ChessBoard { white_king: Bitboard(v), ..self },
            },
            Color::Black => match t {
                PieceType::Pawn => ChessBoard { black_pawns: Bitboard(v), ..self },
                PieceType::Knight => ChessBoard { black_knights: Bitboard(v), ..self },
                PieceType::Bishop => ChessBoard { black_bishops: Bitboard(v), ..self },
                PieceType::Rook => ChessBoard { black_rooks: Bitboard(v), ..self },
                PieceType::Queen => ChessBoard { black_queens: Bitboard(v), ..self },
                PieceType::King => ChessBoard { black_king: Bitboard(v), ..self },
            },
        }
    }

    /// The board after adding the given piece on an empty square.
    pub open spec fn spec_add_piece(self, p: ChessPiece, sq: u64) -> ChessBoard {
        let m = 1u64 << sq;
        let b = self.spec_set_bb(p.color, p.piece_type, self.sbb(p.color, p.piece_type) | m);
        match p.color {
            Color::White => ChessBoard {
                white_occupancy: Bitboard(self.white_occupancy.0 | m),
                all_pieces: Bitboard(self.all_pieces.0 | m),
                ..b
            },
            Color::Black => ChessBoard {
                black_occupancy: Bitboard(self.black_occupancy.0 | m),
                all_pieces: Bitboard(self.all_pieces.0 | m),
                ..b
            },
        }
    }

    /// The board after removing the given piece from its square.
    pub open spec fn spec_remove_piece(self, p: ChessPiece, sq: u64) -> ChessBoard {
        let m = 1u64 << sq;
        let b = self.spec_set_bb(p.color, p.piece_type, self.sbb(p.color, p.piece_type) & !m);
        match p.color {
            Color::White => ChessBoard {
                white_occupancy: Bitboard(self.white_occupancy.0 & !m),
                all_pieces: Bitboard(self.all_pieces.0 & !m),
                ..b
            },
            Color::Black => ChessBoard {
                black_occupancy: Bitboard(self.black_occupancy.0 & !m),
                all_pieces: Bitboard(self.all_pieces.0 & !m),
                ..b
            },
        }
    }

    /// The board after moving a piece between squares.
    pub open spec fn spec_move_piece(self, p: ChessPiece, from: u64, to: u64) -> ChessBoard {
        self.spec_remove_piece(p, from).spec_add_piece(p, to)
    }

    pub fn empty() -> (r: Self)
        ensures
            r.wf(),
            forall|sq: u64| r.spec_piece_at(sq) is None,
            r.all_pieces.0 == 0,
            forall|c: Color, t: PieceType| #[trigger] r.sbb(c, t) == 0,
    {
        let r = ChessBoard {
            white_pawns: Bitboard(0),
            white_knights: Bitboard(0),
            white_bishops: Bitboard(0),
            white_rooks: Bitboard(0),
            white_queens: Bitboard(0),
            white_king: Bitboard(0),
            black_pawns: Bitboard(0),
            black_knights: Bitboard(0),
            black_bishops: Bitboard(0),
            black_rooks: Bitboard(0),
            black_queens: Bitboard(0),
            black_king: Bitboard(0),
            white_occupancy: Bitboard(0),
            black_occupancy: Bitboard(0),
            all_pieces: Bitboard(0),
        };
        proof {
            assert(0u64 | 0u64 == 0 && 0u64 & 0u64 == 0) by (bit_vector);
            lemma_bit_ops();
        }
        r
    }

    /// The standard starting position.
    pub fn new() -> (r: Self)
        ensures
            r.wf(),
            r.sbb(Color::White, PieceType::Pawn) == 0x0000_0000_0000_ff00u64,
            r.sbb(Color::White, PieceType::Knight) == 0x0000_0000_0000_0042u64,
            r.sbb(Color::White, PieceType::Bishop) == 0x0000_0000_0000_0024u64,
            r.sbb(Color::White, PieceType::Rook) == 0x0000_0000_0000_0081u64,
            r.sbb(Color::White, PieceType::Queen) == 0x0000_0000_0000_0008u64,
            r.sbb(Color::White, PieceType::King) == 0x0000_0000_0000_0010u64,
            r.sbb(Color::Black, PieceType::Pawn) == 0x00ff_0000_0000_0000u64,
            r.sbb(Color::Black, PieceType::Knight) == 0x4200_0000_0000_0000u64,
            r.sbb(Color::Black, PieceType::Bishop) == 0x2400_0000_0000_0000u64,
            r.sbb(Color::Black, PieceType::Rook) == 0x8100_0000_0000_0000u64,
            r.sbb(Color::Black, PieceType::Queen) == 0x0800_0000_0000_0000u64,
            r.sbb(Color::Black, PieceType::King) == 0x1000_0000_0000_0000u64,
    {
        let r = ChessBoard {
            white_pawns: Bitboard(0x0000_0000_0000_ff00),
            white_knights: Bitboard(0x0000_0000_0000_0042),
            white_bishops: Bitboard(0x0000_0000_0000_0024),
            white_rooks: Bitboard(0x0000_0000_0000_0081),
            white_queens: Bitboard(0x0000_0000_0000_0008),
            white_king: Bitboard(0x0000_0000_0000_0010),
            black_pawns: Bitboard(0x00ff_0000_0000_0000),
            black_knights: Bitboard(0x4200_0000_0000_0000),
            black_bishops: Bitboard(0x2400_0000_0000_0000),
            black_rooks: Bitboard(0x8100_0000_0000_0000),
            black_queens: Bitboard(0x0800_0000_0000_0000),
            black_king: Bitboard(0x1000_0000_0000_0000),
            white_occupancy: Bitboard(0x0000_0000_0000_ffff),
            black_occupancy: Bitboard(0xffff_0000_0000_0000),
            all_pieces: Bitboard(0xffff_0000_0000_ffff),
        };
        proof {
            lemma_start_position_wf();
            assert(r.wf());
        }
        r
    }

    pub fn get_piece_bitboard(&self, color: Color, piece_type: PieceType) -> (r: Bitboard)
        ensures
            r.0 == self.sbb(color, piece_type),
    {
        match color {
            Color::White => match piece_type {
                PieceType::Pawn => self.white_pawns,
                PieceType::Knight => self.white_knights,
                PieceType::Bishop => self.white_bishops,
                PieceType::Rook => self.white_rooks,
                PieceType::Queen => self.white_queens,
                PieceType::King => self.white_king,
            },
            Color::Black => match piece_type {
                PieceType::Pawn => self.black_pawns,
                PieceType::Knight => self.black_knights,
                PieceType::Bishop => self.black_bishops,
                PieceType::Rook => self.black_rooks,
                PieceType::Queen => self.black_queens,
                PieceType::King => self.black_king,
            },
        }
    }

    pub fn remove_piece(&mut self, piece: ChessPiece, square: ChessSquare)
        requires
            old(self).wf(),
            square.wf(),
            bit64(old(self).sbb(piece.color, piece.piece_type), square.0 as u64),
        ensures
            *final(self) == old(self).spec_remove_piece(piece, square.0 as u64),
            final(self).wf(),
    {
        proof {
            old(self).lemma_remove_piece_wf(piece, square.0 as u64);
        }
        let m: u64 = 1u64 << square.0;
        match piece.color {
            Color::White => {
                match piece.piece_type {
                    PieceType::Pawn => self.white_pawns.0 = self.white_pawns.0 & !m,
                    PieceType::Knight => self.white_knights.0 = self.white_knights.0 & !m,
                    PieceType::Bishop => self.white_bishops.0 = self.white_bishops.0 & !m,
                    PieceType::Rook => self.white_rooks.0 = self.white_rooks.0 & !m,
                    PieceType::Queen => self.white_queens.0 = self.white_queens.0 & !m,
                    PieceType::King => self.white_king.0 = self.white_king.0 & !m,
                }
                self.white_occupancy.0 = self.white_occupancy.0 & !m;
            },
            Color::Black => {
                match piece.piece_type {
                    PieceType::Pawn => self.black_pawns.0 = self.black_pawns.0 & !m,
                    PieceType::Knight => self.black_knights.0 = self.black_knights.0 & !m,
                    PieceType::Bishop => self.black_bishops.0 = self.black_bishops.0 & !m,
                    PieceType::Rook => self.black_rooks.0 = self.black_rooks.0 & !m,
                    PieceType::Queen => self.black_queens.0 = self.black_queens.0 & !m,
                    PieceType::King => self.black_king.0 = self.black_king.0 & !m,
                }
                self.black_occupancy.0 = self.black_occupancy.0 & !m;
            },
        }
        self.all_pieces.0 = self.all_pieces.0 & !m;
    }

    pub fn add_piece(&mut self, piece: ChessPiece, square: ChessSquare)
        requires
            old(self).wf(),
            square.wf(),
            !bit64(old(self).all_pieces.0, square.0 as u64),
        ensures
            *final(self) == old(self).spec_add_piece(piece, square.0 as u64),
            final(self).wf(),
    {
        proof {
            old(self).lemma_add_piece_wf(piece, square.0 as u64);
        }
        let m: u64 = 1u64 << square.0;
        match piece.color {
            Color::White => {
                match piece.piece_type {
                    PieceType::Pawn => self.white_pawns.0 = self.white_pawns.0 | m,
                    PieceType::Knight => self.white_knights.0 = self.white_knights.0 | m,
                    PieceType::Bishop => self.white_bishops.0 = self.white_bishops.0 | m,
                    PieceType::Rook => self.white_rooks.0 = self.white_rooks.0 | m,
                    PieceType::Queen => self.white_queens.0 = self.white_queens.0 | m,
                    PieceType::King => self.white_king.0 = self.white_king.0 | m,
                }
                self.white_occupancy.0 = self.white_occupancy.0 | m;
            },
            Color::Black => {
                match piece.piece_type {
                    PieceType::Pawn => self.black_pawns.0 = self.black_pawns.0 | m,
                    PieceType::Knight => self.black_knights.0 = self.black_knights.0 | m,
                    PieceType::Bishop => self.black_bishops.0 = self.black_bishops.0 | m,
                    PieceType::Rook => self.black_rooks.0 = self.black_rooks.0 | m,
                    PieceType::Queen => self.black_queens.0 = self.black_queens.0 | m,
                    PieceType::King => self.black_king.0 = self.black_king.0 | m,
                }
                self.black_occupancy.0 = self.black_occupancy.0 | m;
            },
        }
        self.all_pieces.0 = self.all_pieces.0 | m;
    }

    pub fn move_piece(&mut self, from_sq: ChessSquare, to_sq: ChessSquare, piece: ChessPiece)
        requires
            old(self).wf(),
            from_sq.wf(),
            to_sq.wf(),
            bit64(old(self).sbb(piece.color, piece.piece_type), from_sq.0 as u64),
            from_sq == to_sq || !bit64(old(self).all_pieces.0, to_sq.0 as u64),
        ensures
            *final(self) == old(self).spec_move_piece(piece, from_sq.0 as u64, to_sq.0 as u64),
            final(self).wf(),
    {
        proof {
            lemma_bit_ops();
            let b1 = old(self).spec_remove_piece(piece, from_sq.0 as u64);
            old(self).lemma_remove_piece_wf(piece, from_sq.0 as u64);
            assert(!bit64(b1.all_pieces.0, to_sq.0 as u64));
        }
        self.remove_piece(piece, from_sq);
        self.add_piece(piece, to_sq);
    }

    pub fn get_piece_at(&self, square: ChessSquare) -> (r: Option<ChessPiece>)
        ensures
            r == (if square.wf() {
                self.spec_piece_at(square.0 as u64)
            } else {
                None::<ChessPiece>
            }),
    {
        if !square.is_valid() {
            return None;
        }
        proof {
            lemma_bit_ops();
        }
        let m: u64 = 1u64 << square.0;
        if self.white_pawns.0 & m != 0 {
            Some(ChessPiece { color: Color::White, piece_type: PieceType::Pawn })
        } else if self.white_knights.0 & m != 0 {
            Some(ChessPiece { color: Color::White, piece_type: PieceType::Knight })
        } else if self.white_bishops.0 & m != 0 {
            Some(ChessPiece { color: Color::White, piece_type: PieceType::Bishop })
        } else if self.white_rooks.0 & m != 0 {
            Some(ChessPiece { color: Color::White, piece_type: PieceType::Rook })
        } else if self.white_queens.0 & m != 0 {
            Some(ChessPiece { color: Color::White, piece_type: PieceType::Queen })
        } else if self.white_king.0 & m != 0 {
            Some(ChessPiece { color: Color::White, piece_type: PieceType::King })
        } else if self.black_pawns.0 & m != 0 {
            Some(ChessPiece { color: Color::Black, piece_type: PieceType::Pawn })
        } else if self.black_knights.0 & m != 0 {
            Some(ChessPiece { color: Color::Black, piece_type: PieceType::Knight })
        } else if self.black_bishops.0 & m != 0 {
            Some(ChessPiece { color: Color::Black, piece_type: PieceType::Bishop })
        } else if self.black_rooks.0 & m != 0 {
            Some(ChessPiece { color: Color::Black, piece_type: PieceType::Rook })
        } else if self.black_queens.0 & m != 0 {
            Some(ChessPiece { color: Color::Black, piece_type: PieceType::Queen })
        } else if self.black_king.0 & m != 0 {
            Some(ChessPiece { color: Color::Black, piece_type: PieceType::King })
        } else {
            None
        }
    }

    /// A text picture of the board: a file-label header, then ranks 8
    /// down to 1; empty squares print as dots.
    pub fn display_ascii(&self) -> (r: String)
        ensures
            r@ == spec_ascii_board(*self),
    {
        let mut s = String::new();
        s.append("  a b c d e f g h\n");
        let mut idx: u8 = 0;
        while idx < 8
            invariant
                idx <= 8,
                s@ + (if idx < 8 {
                    spec_ascii_rows(*self, 7 - idx as int)
                } else {
                    Seq::<char>::empty()
                }) == "  a b c d e f g h\n"@ + spec_ascii_rows(*self, 7),
            decreases 8 - idx,
        {
            let rank: u8 = 7 - idx;
            let ghost s0 = s@;
            crate::fen::push_digit(&mut s, rank + 1);
            s.append(" ");
            proof {
                reveal_strlit(" ");
                assert(s@ =~= s0 + seq![
                    crate::chess_square::spec_rank_char(rank as int),
                    ' ',
                ]);
            }
            let ghost s1 = s@;
            let mut file: u8 = 0;
            while file < 8
                invariant
                    file <= 8,
                    rank <= 7,
                    s1 + spec_ascii_row(*self, rank as int, 0) == s@ + spec_ascii_row(
                        *self,
                        rank as int,
                        file as int,
                    ),
                decreases 8 - file,
            {
                match self.get_piece_at(ChessSquare(rank * 8 + file)) {
                    Some(p) => {
                        crate::fen::push_piece_char(&mut s, p);
                    },
                    None => {
                        s.append(".");
                        proof {
                            reveal_strlit(".");
                        }
                    },
                }
                s.append(" ");
                proof {
                    reveal_strlit(" ");
                    assert(s1 + spec_ascii_row(*self, rank as int, 0) =~= s@ + spec_ascii_row(
                        *self,
                        rank as int,
                        file + 1,
                    ));
                }
                file = file + 1;
            }
            s.append("\n");
            proof {
                reveal_strlit("\n");
                assert(spec_ascii_row(*self, rank as int, 8) =~= seq!['\n']);
                assert(s@ =~= s1 + spec_ascii_row(*self, rank as int, 0));
                assert(s@ =~= s0 + (seq![
                    crate::chess_square::spec_rank_char(rank as int),
                    ' ',
                ] + spec_ascii_row(*self, rank as int, 0)));
                if idx < 7 {
                    assert(spec_ascii_rows(*self, 7 - idx as int) =~= (seq![
                        crate::chess_square::spec_rank_char(rank as int),
                        ' ',
                    ] + spec_ascii_row(*self, rank as int, 0)) + spec_ascii_rows(
                        *self,
                        7 - (idx + 1) as int,
                    ));
                }
            }
            idx = idx + 1;
        }
        s
    }

    /// The index of a piece's set, and the set under that index.
    pub proof fn lemma_sbb_nth(self, c: Color, t: PieceType)
        ensures
            0 <= Self::bb_index(c, t) < 12,
            (c == Color::White) == (Self::bb_index(c, t) < 6),
            self.sbb(c, t) == self.nth_bb(Self::bb_index(c, t)),
    {
        match c {
            Color::White => match t {
                PieceType::Pawn => {},
                PieceType::Knight => {},
                PieceType::Bishop => {},
                PieceType::Rook => {},
                PieceType::Queen => {},
                PieceType::King => {},
            },
            Color::Black => match t {
                PieceType::Pawn => {},
                PieceType::Knight => {},
                PieceType::Bishop => {},
                PieceType::Rook => {},
                PieceType::Queen => {},
                PieceType::King => {},
            },
        }
    }

    /// Replacing one piece set changes that entry of the indexing
    /// alone and leaves the occupancy fields as they were.
    proof fn lemma_set_bb_nth(self, c: Color, t: PieceType, v: u64)
        ensures
            self.spec_set_bb(c, t, v).nth_bb(Self::bb_index(c, t)) == v,
            forall|k: int|
                0 <= k < 12 && k != Self::bb_index(c, t) ==> #[trigger] self.spec_set_bb(
                    c,
                    t,
                    v,
                ).nth_bb(k) == self.nth_bb(k),
            self.spec_set_bb(c, t, v).white_occupancy == self.white_occupancy,
            self.spec_set_bb(c, t, v).black_occupancy == self.black_occupancy,
            self.spec_set_bb(c, t, v).all_pieces == self.all_pieces,
    {
        match c {
            Color::White => match t {
                PieceType::Pawn => {},
                PieceType::Knight => {},
                PieceType::Bishop => {},
                PieceType::Rook => {},
                PieceType::Queen => {},
                PieceType::King => {},
            },
            Color::Black => match t {
                PieceType::Pawn => {},
                PieceType::Knight => {},
                PieceType::Bishop => {},
                PieceType::Rook => {},
                PieceType::Queen => {},
                PieceType::King => {},
            },
        }
    }

    /// A colour's union holds a square exactly when one of its six
    /// piece sets does.
    pub proof fn lemma_union_bits(self)
        ensures
            forall|w: u64|
                w < 64 ==> (#[trigger] bit64(self.white_union(), w)) == (bit64(self.nth_bb(0), w)
                    || bit64(self.nth_bb(1), w) || bit64(self.nth_bb(2), w) || bit64(
                    self.nth_bb(3),
                    w,
                ) || bit64(self.nth_bb(4), w) || bit64(self.nth_bb(5), w)),
            forall|w: u64|
                w < 64 ==> (#[trigger] bit64(self.black_union(), w)) == (bit64(self.nth_bb(6), w)
                    || bit64(self.nth_bb(7), w) || bit64(self.nth_bb(8), w) || bit64(
                    self.nth_bb(9),
                    w,
                ) || bit64(self.nth_bb(10), w) || bit64(self.nth_bb(11), w)),
    {
        lemma_bit_ops();
    }

    /// Every piece set is contained in the full occupancy set, which
    /// holds a square exactly when some piece stands there.
    pub proof fn lemma_bb_in_all(self, sq: u64)
        requires
            self.wf(),
            sq < 64,
        ensures
            forall|k: int|
                0 <= k < 12 ==> ((#[trigger] bit64(self.nth_bb(k), sq)) ==> bit64(
                    self.all_pieces.0,
                    sq,
                )),
            bit64(self.all_pieces.0, sq) == (self.spec_piece_at(sq) is Some),
    {
        lemma_bit_ops();
        self.lemma_union_bits();
        assert(bit64(self.all_pieces.0, sq) == (bit64(self.white_occupancy.0, sq) || bit64(
            self.black_occupancy.0,
            sq,
        )));
        assert(self.nth_bb(0) == self.white_pawns.0 && self.nth_bb(1) == self.white_knights.0
            && self.nth_bb(2) == self.white_bishops.0 && self.nth_bb(3) == self.white_rooks.0
            && self.nth_bb(4) == self.white_queens.0 && self.nth_bb(5) == self.white_king.0
            && self.nth_bb(6) == self.black_pawns.0 && self.nth_bb(7) == self.black_knights.0
            && self.nth_bb(8) == self.black_bishops.0 && self.nth_bb(9) == self.black_rooks.0
            && self.nth_bb(10) == self.black_queens.0 && self.nth_bb(11) == self.black_king.0);
    }

    /// On a coherent board, a square belongs to the set of a colour
    /// and type exactly when that piece stands there.
    pub proof fn lemma_piece_at_bb(self, sq: u64)
        requires
            self.wf(),
            sq < 64,
        ensures
            forall|c: Color, t: PieceType|
                (#[trigger] bit64(self.sbb(c, t), sq)) == (self.spec_piece_at(sq) == Some(
                    ChessPiece { color: c, piece_type: t },
                )),
    {
        lemma_bit_ops();
        assert forall|c: Color, t: PieceType|
            (#[trigger] bit64(self.sbb(c, t), sq)) == (self.spec_piece_at(sq) == Some(
                ChessPiece { color: c, piece_type: t },
            )) by {
            self.lemma_sbb_nth(c, t);
            let k = Self::bb_index(c, t);
            if bit64(self.sbb(c, t), sq) {
                assert forall|j: int| 0 <= j < 12 && j != k implies !bit64(
                    self.nth_bb(j),
                    sq,
                ) by {
                    if j < k {
                        crate::bits::lemma_disjoint_bits(self.nth_bb(j), self.nth_bb(k));
                    } else {
                        crate::bits::lemma_disjoint_bits(self.nth_bb(k), self.nth_bb(j));
                    }
                }
                assert(self.nth_bb(0) == self.white_pawns.0 && self.nth_bb(1)
                    == self.white_knights.0 && self.nth_bb(2) == self.white_bishops.0
                    && self.nth_bb(3) == self.white_rooks.0 && self.nth_bb(4)
                    == self.white_queens.0 && self.nth_bb(5) == self.white_king.0 && self.nth_bb(6)
                    == self.black_pawns.0 && self.nth_bb(7) == self.black_knights.0
                    && self.nth_bb(8) == self.black_bishops.0 && self.nth_bb(9)
                    == self.black_rooks.0 && self.nth_bb(10) == self.black_queens.0
                    && self.nth_bb(11) == self.black_king.0);
            } else {
                assert(self.nth_bb(k) == self.sbb(c, t));
            }
        }
    }

    /// The entry-by-entry effect of adding a piece.
    proof fn lemma_add_nth(self, p: ChessPiece, sq: u64)
        requires
            sq < 64,
        ensures
            ({
                let m = 1u64 << sq;
                let nb = self.spec_add_piece(p, sq);
                let k0 = Self::bb_index(p.color, p.piece_type);
                &&& nb.nth_bb(k0) == (self.nth_bb(k0) | m)
                &&& forall|k: int|
                    0 <= k < 12 && k != k0 ==> #[trigger] nb.nth_bb(k) == self.nth_bb(k)
                &&& nb.white_occupancy.0 == (if p.color == Color::White {
                    self.white_occupancy.0 | m
                } else {
                    self.white_occupancy.0
                })
                &&& nb.black_occupancy.0 == (if p.color == Color::Black {
                    self.black_occupancy.0 | m
                } else {
                    self.black_occupancy.0
                })
                &&& nb.all_pieces.0 == (self.all_pieces.0 | m)
            }),
    {
        self.lemma_sbb_nth(p.color, p.piece_type);
        self.lemma_set_bb_nth(
            p.color,
            p.piece_type,
            self.sbb(p.color, p.piece_type) | (1u64 << sq),
        );
        let sb = self.spec_set_bb(
            p.color,
            p.piece_type,
            self.sbb(p.color, p.piece_type) | (1u64 << sq),
        );
        let nb = self.spec_add_piece(p, sq);
        match p.color {
            Color::White => {
                assert(nb == ChessBoard {
                    white_occupancy: Bitboard(self.white_occupancy.0 | (1u64 << sq)),
                    all_pieces: Bitboard(self.all_pieces.0 | (1u64 << sq)),
                    ..sb
                });
            },
            Color::Black => {
                assert(nb == ChessBoard {
                    black_occupancy: Bitboard(self.black_occupancy.0 | (1u64 << sq)),
                    all_pieces: Bitboard(self.all_pieces.0 | (1u64 << sq)),
                    ..sb
                });
            },
        }
        assert forall|k: int|
            0 <= k < 12 && k != Self::bb_index(p.color, p.piece_type) implies #[trigger] nb.nth_bb(
            k,
        ) == self.nth_bb(k) by {
            assert(nb.nth_bb(k) == sb.nth_bb(k));
        }
        assert(nb.nth_bb(Self::bb_index(p.color, p.piece_type)) == sb.nth_bb(
            Self::bb_index(p.color, p.piece_type),
        ));
    }

    /// The entry-by-entry effect of removing a piece.
    proof fn lemma_remove_nth(self, p: ChessPiece, sq: u64)
        requires
            sq < 64,
        ensures
            ({
                let m = 1u64 << sq;
                let nb = self.spec_remove_piece(p, sq);
                let k0 = Self::bb_index(p.color, p.piece_type);
                &&& nb.nth_bb(k0) == (self.nth_bb(k0) & !m)
                &&& forall|k: int|
                    0 <= k < 12 && k != k0 ==> #[trigger] nb.nth_bb(k) == self.nth_bb(k)
                &&& nb.white_occupancy.0 == (if p.color == Color::White {
                    self.white_occupancy.0 & !m
                } else {
                    self.white_occupancy.0
                })
                &&& nb.black_occupancy.0 == (if p.color == Color::Black {
                    self.black_occupancy.0 & !m
                } else {
                    self.black_occupancy.0
                })
                &&& nb.all_pieces.0 == (self.all_pieces.0 & !m)
            }),
    {
        self.lemma_sbb_nth(p.color, p.piece_type);
        self.lemma_set_bb_nth(
            p.color,
            p.piece_type,
            self.sbb(p.color, p.piece_type) & !(1u64 << sq),
        );
        let sb = self.spec_set_bb(
            p.color,
            p.piece_type,
            self.sbb(p.color, p.piece_type) & !(1u64 << sq),
        );
        let nb = self.spec_remove_piece(p, sq);
        match p.color {
            Color::White => {
                assert(nb == ChessBoard {
                    white_occupancy: Bitboard(self.white_occupancy.0 & !(1u64 << sq)),
                    all_pieces: Bitboard(self.all_pieces.0 & !(1u64 << sq)),
                    ..sb
                });
            },
            Color::Black => {
                assert(nb == ChessBoard {
                    black_occupancy: Bitboard(self.black_occupancy.0 & !(1u64 << sq)),
                    all_pieces: Bitboard(self.all_pieces.0 & !(1u64 << sq)),
                    ..sb
                });
            },
        }
        assert forall|k: int|
            0 <= k < 12 && k != Self::bb_index(p.color, p.piece_type) implies #[trigger] nb.nth_bb(
            k,
        ) == self.nth_bb(k) by {
            assert(nb.nth_bb(k) == sb.nth_bb(k));
        }
        assert(nb.nth_bb(Self::bb_index(p.color, p.piece_type)) == sb.nth_bb(
            Self::bb_index(p.color, p.piece_type),
        ));
    }

    /// The occupant of each square determines the piece sets: used to
    /// rebuild `spec_piece_at` facts after an update.
    proof fn lemma_piece_at_from_nth(self, other: ChessBoard, o: u64)
        requires
            o < 64,
            forall|k: int|
                0 <= k < 12 ==> (#[trigger] bit64(self.nth_bb(k), o)) == bit64(other.nth_bb(k), o),
        ensures
            self.spec_piece_at(o) == other.spec_piece_at(o),
    {
        assert(bit64(self.nth_bb(0), o) == bit64(other.nth_bb(0), o) && bit64(self.nth_bb(1), o)
            == bit64(other.nth_bb(1), o) && bit64(self.nth_bb(2), o) == bit64(other.nth_bb(2), o)
            && bit64(self.nth_bb(3), o) == bit64(other.nth_bb(3), o) && bit64(self.nth_bb(4), o)
            == bit64(other.nth_bb(4), o) && bit64(self.nth_bb(5), o) == bit64(other.nth_bb(5), o)
            && bit64(self.nth_bb(6), o) == bit64(other.nth_bb(6), o) && bit64(self.nth_bb(7), o)
            == bit64(other.nth_bb(7), o) && bit64(self.nth_bb(8), o) == bit64(other.nth_bb(8), o)
            && bit64(self.nth_bb(9), o) == bit64(other.nth_bb(9), o) && bit64(self.nth_bb(10), o)
            == bit64(other.nth_bb(10), o) && bit64(self.nth_bb(11), o) == bit64(
            other.nth_bb(11),
            o,
        ));
    }

    /// Adding a piece on an empty square keeps the board coherent and
    /// changes the occupant of that square alone.
    pub proof fn lemma_add_piece_wf(self, p: ChessPiece, sq: u64)
        requires
            self.wf(),
            sq < 64,
            !bit64(self.all_pieces.0, sq),
        ensures
            self.spec_add_piece(p, sq).wf(),
            self.spec_add_piece(p, sq).spec_piece_at(sq) == Some(p),
            forall|o: u64|
                o < 64 && o != sq ==> #[trigger] self.spec_add_piece(p, sq).spec_piece_at(o)
                    == self.spec_piece_at(o),
            bit64(self.spec_add_piece(p, sq).all_pieces.0, sq),
    {
        lemma_bit_ops();
        let m = 1u64 << sq;
        let nb = self.spec_add_piece(p, sq);
        let k0 = Self::bb_index(p.color, p.piece_type);
        self.lemma_sbb_nth(p.color, p.piece_type);
        self.lemma_add_nth(p, sq);
        self.lemma_union_bits();
        nb.lemma_union_bits();
        self.lemma_bb_in_all(sq);
        assert forall|k: int| 0 <= k < 12 implies !bit64(self.nth_bb(k), sq) by {
            assert(bit64(self.nth_bb(k), sq) ==> bit64(self.all_pieces.0, sq));
        }
        assert(!bit64(self.white_occupancy.0, sq) && !bit64(self.black_occupancy.0, sq));
        assert forall|i: int, j: int| 0 <= i < j < 12 implies (#[trigger] nb.nth_bb(i)
            & #[trigger] nb.nth_bb(j)) == 0 by {
            crate::bits::lemma_disjoint_bits(self.nth_bb(i), self.nth_bb(j));
            assert forall|w: u64| w < 64 implies !(bit64(nb.nth_bb(i), w) && bit64(
                nb.nth_bb(j),
                w,
            )) by {
                if i == k0 {
                    assert(bit64(nb.nth_bb(i), w) == (bit64(self.nth_bb(i), w) || w == sq));
                    assert(bit64(nb.nth_bb(j), w) == bit64(self.nth_bb(j), w));
                } else if j == k0 {
                    assert(bit64(nb.nth_bb(j), w) == (bit64(self.nth_bb(j), w) || w == sq));
                    assert(bit64(nb.nth_bb(i), w) == bit64(self.nth_bb(i), w));
                } else {
                    assert(bit64(nb.nth_bb(i), w) == bit64(self.nth_bb(i), w));
                    assert(bit64(nb.nth_bb(j), w) == bit64(self.nth_bb(j), w));
                }
            }
            crate::bits::lemma_bits_disjoint(nb.nth_bb(i), nb.nth_bb(j));
        }
        // Occupancy coherence, pointwise.
        assert forall|w: u64| w < 64 implies bit64(nb.white_occupancy.0, w) == bit64(
            nb.white_union(),
            w,
        ) by {
            assert forall|k: int| 0 <= k < 12 implies #[trigger] bit64(nb.nth_bb(k), w) == (bit64(
                self.nth_bb(k),
                w,
            ) || (k == k0 && w == sq)) by {}
        }
        lemma_u64_ext(nb.white_occupancy.0, nb.white_union());
        assert forall|w: u64| w < 64 implies bit64(nb.black_occupancy.0, w) == bit64(
            nb.black_union(),
            w,
        ) by {
            assert forall|k: int| 0 <= k < 12 implies #[trigger] bit64(nb.nth_bb(k), w) == (bit64(
                self.nth_bb(k),
                w,
            ) || (k == k0 && w == sq)) by {}
        }
        lemma_u64_ext(nb.black_occupancy.0, nb.black_union());
        assert forall|w: u64| w < 64 implies bit64(nb.all_pieces.0, w) == bit64(
            nb.white_occupancy.0 | nb.black_occupancy.0,
            w,
        ) by {}
        lemma_u64_ext(nb.all_pieces.0, nb.white_occupancy.0 | nb.black_occupancy.0);
        assert(nb.wf());
        // The occupant changes at `sq` alone.
        nb.lemma_sbb_nth(p.color, p.piece_type);
        nb.lemma_piece_at_bb(sq);
        assert(bit64(nb.sbb(p.color, p.piece_type), sq));
        assert(nb.spec_piece_at(sq) == Some(ChessPiece { color: p.color, piece_type: p.piece_type }));
        assert(nb.spec_piece_at(sq) == Some(p));
        assert forall|o: u64| o < 64 && o != sq implies #[trigger] nb.spec_piece_at(o)
            == self.spec_piece_at(o) by {
            assert forall|k: int| 0 <= k < 12 implies (#[trigger] bit64(nb.nth_bb(k), o)) == bit64(
                self.nth_bb(k),
                o,
            ) by {}
            nb.lemma_piece_at_from_nth(self, o);
        }
    }

    /// Removing the piece on a square keeps the board coherent and
    /// empties that square alone.
    pub proof fn lemma_remove_piece_wf(self, p: ChessPiece, sq: u64)
        requires
            self.wf(),
            sq < 64,
            bit64(self.sbb(p.color, p.piece_type), sq),
        ensures
            self.spec_remove_piece(p, sq).wf(),
            self.spec_remove_piece(p, sq).spec_piece_at(sq) is None,
            !bit64(self.spec_remove_piece(p, sq).all_pieces.0, sq),
            forall|o: u64|
                o < 64 && o != sq ==> #[trigger] self.spec_remove_piece(p, sq).spec_piece_at(o)
                    == self.spec_piece_at(o),
    {
        lemma_bit_ops();
        let m = 1u64 << sq;
        let nb = self.spec_remove_piece(p, sq);
        let k0 = Self::bb_index(p.color, p.piece_type);
        self.lemma_sbb_nth(p.color, p.piece_type);
        self.lemma_remove_nth(p, sq);
        self.lemma_union_bits();
        nb.lemma_union_bits();
        // Only the removed piece's set holds the square.
        assert forall|k: int| 0 <= k < 12 && k != k0 implies !bit64(self.nth_bb(k), sq) by {
            if k < k0 {
                crate::bits::lemma_disjoint_bits(self.nth_bb(k), self.nth_bb(k0));
            } else {
                crate::bits::lemma_disjoint_bits(self.nth_bb(k0), self.nth_bb(k));
            }
        }
        assert forall|i: int, j: int| 0 <= i < j < 12 implies (#[trigger] nb.nth_bb(i)
            & #[trigger] nb.nth_bb(j)) == 0 by {
            crate::bits::lemma_disjoint_bits(self.nth_bb(i), self.nth_bb(j));
            assert forall|w: u64| w < 64 implies !(bit64(nb.nth_bb(i), w) && bit64(
                nb.nth_bb(j),
                w,
            )) by {
                if i == k0 {
                    assert(bit64(nb.nth_bb(i), w) == (bit64(self.nth_bb(i), w) && w != sq));
                    assert(bit64(nb.nth_bb(j), w) == bit64(self.nth_bb(j), w));
                } else if j == k0 {
                    assert(bit64(nb.nth_bb(j), w) == (bit64(self.nth_bb(j), w) && w != sq));
                    assert(bit64(nb.nth_bb(i), w) == bit64(self.nth_bb(i), w));
                } else {
                    assert(bit64(nb.nth_bb(i), w) == bit64(self.nth_bb(i), w));
                    assert(bit64(nb.nth_bb(j), w) == bit64(self.nth_bb(j), w));
                }
            }
            crate::bits::lemma_bits_disjoint(nb.nth_bb(i), nb.nth_bb(j));
        }
        assert forall|w: u64| w < 64 implies bit64(nb.white_occupancy.0, w) == bit64(
            nb.white_union(),
            w,
        ) by {
            assert forall|k: int| 0 <= k < 12 implies (#[trigger] bit64(nb.nth_bb(k), w)) == (bit64(
                self.nth_bb(k),
                w,
            ) && !(k == k0 && w == sq)) by {}
        }
        lemma_u64_ext(nb.white_occupancy.0, nb.white_union());
        assert forall|w: u64| w < 64 implies bit64(nb.black_occupancy.0, w) == bit64(
            nb.black_union(),
            w,
        ) by {
            assert forall|k: int| 0 <= k < 12 implies (#[trigger] bit64(nb.nth_bb(k), w)) == (bit64(
                self.nth_bb(k),
                w,
            ) && !(k == k0 && w == sq)) by {}
        }
        lemma_u64_ext(nb.black_occupancy.0, nb.black_union());
        assert forall|w: u64| w < 64 implies bit64(nb.all_pieces.0, w) == bit64(
            nb.white_occupancy.0 | nb.black_occupancy.0,
            w,
        ) by {
            assert forall|k: int| 0 <= k < 12 implies (#[trigger] bit64(nb.nth_bb(k), w)) == (bit64(
                self.nth_bb(k),
                w,
            ) && !(k == k0 && w == sq)) by {}
            if w == sq {
                assert(!bit64(nb.white_union(), sq) && !bit64(nb.black_union(), sq));
            }
        }
        lemma_u64_ext(nb.all_pieces.0, nb.white_occupancy.0 | nb.black_occupancy.0);
        assert(nb.wf());
        assert forall|k: int| 0 <= k < 12 implies !bit64(nb.nth_bb(k), sq) by {}
        nb.lemma_bb_in_all(sq);
        assert(!bit64(nb.all_pieces.0, sq));
        assert forall|o: u64| o < 64 && o != sq implies #[trigger] nb.spec_piece_at(o)
            == self.spec_piece_at(o) by {
            assert forall|k: int| 0 <= k < 12 implies (#[trigger] bit64(nb.nth_bb(k), o)) == bit64(
                self.nth_bb(k),
                o,
            ) by {}
            nb.lemma_piece_at_from_nth(self, o);
        }
    }

    /// Adding a piece on an empty square and removing it again gives
    /// the board back.
    pub proof fn lemma_add_remove_cancel(self, p: ChessPiece, sq: u64)
        requires
            self.wf(),
            sq < 64,
            !bit64(self.all_pieces.0, sq),
        ensures
            self.spec_add_piece(p, sq).spec_remove_piece(p, sq) == self,
    {
        lemma_bit_ops();
        crate::bits::lemma_mask_cancel();
        let m = 1u64 << sq;
        let nb = self.spec_add_piece(p, sq);
        let rb = nb.spec_remove_piece(p, sq);
        self.lemma_add_nth(p, sq);
        nb.lemma_remove_nth(p, sq);
        self.lemma_bb_in_all(sq);
        self.lemma_sbb_nth(p.color, p.piece_type);
        let k0 = Self::bb_index(p.color, p.piece_type);
        assert(bit64(self.all_pieces.0, sq) == (bit64(self.white_occupancy.0, sq) || bit64(
            self.black_occupancy.0,
            sq,
        )));
        assert(self.white_occupancy.0 & m == 0 && self.black_occupancy.0 & m == 0
            && self.all_pieces.0 & m == 0);
        assert forall|k: int| 0 <= k < 12 implies rb.nth_bb(k) == self.nth_bb(k) by {
            assert(!bit64(self.nth_bb(k), sq));
            assert(self.nth_bb(k) & m == 0);
        }
        assert(rb.white_pawns.0 == self.white_pawns.0 && rb.white_knights.0
            == self.white_knights.0 && rb.white_bishops.0 == self.white_bishops.0
            && rb.white_rooks.0 == self.white_rooks.0 && rb.white_queens.0 == self.white_queens.0
            && rb.white_king.0 == self.white_king.0 && rb.black_pawns.0 == self.black_pawns.0
            && rb.black_knights.0 == self.black_knights.0 && rb.black_bishops.0
            == self.black_bishops.0 && rb.black_rooks.0 == self.black_rooks.0 && rb.black_queens.0
            == self.black_queens.0 && rb.black_king.0 == self.black_king.0);
        match p.color {
            Color::White => {
                assert(rb.white_occupancy.0 == ((self.white_occupancy.0 | m) & !m));
            },
            Color::Black => {
                assert(rb.black_occupancy.0 == ((self.black_occupancy.0 | m) & !m));
            },
        }
        assert(rb.all_pieces.0 == ((self.all_pieces.0 | m) & !m));
    }

    /// Removing a piece and putting it back gives the board back.
    pub proof fn lemma_remove_add_cancel(self, p: ChessPiece, sq: u64)
        requires
            self.wf(),
            sq < 64,
            bit64(self.sbb(p.color, p.piece_type), sq),
        ensures
            self.spec_remove_piece(p, sq).spec_add_piece(p, sq) == self,
    {
        lemma_bit_ops();
        crate::bits::lemma_mask_cancel();
        let m = 1u64 << sq;
        let nb = self.spec_remove_piece(p, sq);
        let rb = nb.spec_add_piece(p, sq);
        self.lemma_remove_nth(p, sq);
        nb.lemma_add_nth(p, sq);
        self.lemma_union_bits();
        self.lemma_sbb_nth(p.color, p.piece_type);
        let k0 = Self::bb_index(p.color, p.piece_type);
        assert(bit64(self.nth_bb(k0), sq));
        assert(self.nth_bb(k0) & m == m);
        assert(rb.nth_bb(k0) == ((self.nth_bb(k0) & !m) | m));
        assert forall|k: int| 0 <= k < 12 && k != k0 implies rb.nth_bb(k) == self.nth_bb(k) by {}
        assert(rb.white_pawns.0 == self.white_pawns.0 && rb.white_knights.0
            == self.white_knights.0 && rb.white_bishops.0 == self.white_bishops.0
            && rb.white_rooks.0 == self.white_rooks.0 && rb.white_queens.0 == self.white_queens.0
            && rb.white_king.0 == self.white_king.0 && rb.black_pawns.0 == self.black_pawns.0
            && rb.black_knights.0 == self.black_knights.0 && rb.black_bishops.0
            == self.black_bishops.0 && rb.black_rooks.0 == self.black_rooks.0 && rb.black_queens.0
            == self.black_queens.0 && rb.black_king.0 == self.black_king.0);
        match p.color {
            Color::White => {
                assert(bit64(self.white_union(), sq));
                assert(self.white_occupancy.0 & m == m);
                assert(rb.white_occupancy.0 == ((self.white_occupancy.0 & !m) | m));
            },
            Color::Black => {
                assert(bit64(self.black_union(), sq));
                assert(self.black_occupancy.0 & m == m);
                assert(rb.black_occupancy.0 == ((self.black_occupancy.0 & !m) | m));
            },
        }
        assert(bit64(self.all_pieces.0, sq) == (bit64(self.white_occupancy.0, sq) || bit64(
            self.black_occupancy.0,
            sq,
        )));
        assert(self.all_pieces.0 & m == m);
        assert(rb.all_pieces.0 == ((self.all_pieces.0 & !m) | m));
    }
}

/// Two coherent boards that agree on every square's occupant are the
/// same board.
pub proof fn lemma_board_ext(b1: ChessBoard, b2: ChessBoard)
    requires
        b1.wf(),
        b2.wf(),
        forall|sq: u64| sq < 64 ==> #[trigger] b1.spec_piece_at(sq) == b2.spec_piece_at(sq),
    ensures
        b1 == b2,
{
    assert forall|c: Color, t: PieceType| #[trigger] b1.sbb(c, t) == b2.sbb(c, t) by {
        assert forall|sq: u64| sq < 64 implies bit64(b1.sbb(c, t), sq) == bit64(
            b2.sbb(c, t),
            sq,
        ) by {
            b1.lemma_piece_at_bb(sq);
            b2.lemma_piece_at_bb(sq);
        }
        lemma_u64_ext(b1.sbb(c, t), b2.sbb(c, t));
    }
    assert(b1.sbb(Color::White, PieceType::Pawn) == b2.sbb(Color::White, PieceType::Pawn));
    assert(b1.sbb(Color::White, PieceType::Knight) == b2.sbb(Color::White, PieceType::Knight));
    assert(b1.sbb(Color::White, PieceType::Bishop) == b2.sbb(Color::White, PieceType::Bishop));
    assert(b1.sbb(Color::White, PieceType::Rook) == b2.sbb(Color::White, PieceType::Rook));
    assert(b1.sbb(Color::White, PieceType::Queen) == b2.sbb(Color::White, PieceType::Queen));
    assert(b1.sbb(Color::White, PieceType::King) == b2.sbb(Color::White, PieceType::King));
    assert(b1.sbb(Color::Black, PieceType::Pawn) == b2.sbb(Color::Black, PieceType::Pawn));
    assert(b1.sbb(Color::Black, PieceType::Knight) == b2.sbb(Color::Black, PieceType::Knight));
    assert(b1.sbb(Color::Black, PieceType::Bishop) == b2.sbb(Color::Black, PieceType::Bishop));
    assert(b1.sbb(Color::Black, PieceType::Rook) == b2.sbb(Color::Black, PieceType::Rook));
    assert(b1.sbb(Color::Black, PieceType::Queen) == b2.sbb(Color::Black, PieceType::Queen));
    assert(b1.sbb(Color::Black, PieceType::King) == b2.sbb(Color::Black, PieceType::King));
    assert(b1.white_occupancy.0 == b2.white_occupancy.0);
    assert(b1.black_occupancy.0 == b2.black_occupancy.0);
    assert(b1.all_pieces.0 == b2.all_pieces.0);
}

/// One row of the board picture from `file` on: each square's letter
/// or a dot, every entry followed by a space, the row closed by a
/// line break.
pub open spec fn spec_ascii_row(b: ChessBoard, rank: int, file: int) -> Seq<char>
    decreases 8 - file,
{
    if file < 0 || file >= 8 {
        seq!['\n']
    } else {
        seq![
            match b.spec_piece_at((rank * 8 + file) as u64) {
                Some(p) => p.piece_type.spec_to_char(p.color),
                None => '.',
            },
            ' ',
        ] + spec_ascii_row(b, rank, file + 1)
    }
}

/// The rows of the board picture from `rank` down to rank 1, each
/// led by its rank digit.
pub open spec fn spec_ascii_rows(b: ChessBoard, rank: int) -> Seq<char>
    decreases rank + 1,
{
    let row = seq![crate::chess_square::spec_rank_char(rank), ' '] + spec_ascii_row(b, rank, 0);
    if rank <= 0 {
        row
    } else {
        row + spec_ascii_rows(b, rank - 1)
    }
}

/// The whole board picture: the file labels, then the eight rows.
pub open spec fn spec_ascii_board(b: ChessBoard) -> Seq<char> {
    "  a b c d e f g h\n"@ + spec_ascii_rows(b, 7)
}

/// The starting placement is coherent.
proof fn lemma_start_position_wf()
    by (bit_vector)
    ensures
        0x0000_0000_0000_ffffu64 == (0x0000_0000_0000_ff00u64 | 0x0000_0000_0000_0042u64
            | 0x0000_0000_0000_0024u64 | 0x0000_0000_0000_0081u64 | 0x0000_0000_0000_0008u64
            | 0x0000_0000_0000_0010u64),
        0xffff_0000_0000_0000u64 == (0x00ff_0000_0000_0000u64 | 0x4200_0000_0000_0000u64
            | 0x2400_0000_0000_0000u64 | 0x8100_0000_0000_0000u64 | 0x0800_0000_0000_0000u64
            | 0x1000_0000_0000_0000u64),
        0xffff_0000_0000_ffffu64 == (0x0000_0000_0000_ffffu64 | 0xffff_0000_0000_0000u64),
        forall|x: u64, y: u64|
            x & 0x0000_0000_0000_ffffu64 == x && y & 0xffff_0000_0000_0000u64 == y ==> (
            #[trigger] (x & y)) == 0,
        0x0000_0000_0000_ff00u64 & 0x0000_0000_0000_0042u64 == 0,
        0x0000_0000_0000_ff00u64 & 0x0000_0000_0000_0024u64 == 0,
        0x0000_0000_0000_ff00u64 & 0x0000_0000_0000_0081u64 == 0,
        0x0000_0000_0000_ff00u64 & 0x0000_0000_0000_0008u64 == 0,
        0x0000_0000_0000_ff00u64 & 0x0000_0000_0000_0010u64 == 0,
        0x0000_0000_0000_0042u64 & 0x0000_0000_0000_0024u64 == 0,
        0x0000_0000_0000_0042u64 & 0x0000_0000_0000_0081u64 == 0,
        0x0000_0000_0000_0042u64 & 0x0000_0000_0000_0008u64 == 0,
        0x0000_0000_0000_0042u64 & 0x0000_0000_0000_0010u64 == 0,
        0x0000_0000_0000_0024u64 & 0x0000_0000_0000_0081u64 == 0,
        0x0000_0000_0000_0024u64 & 0x0000_0000_0000_0008u64 == 0,
        0x0000_0000_0000_0024u64 & 0x0000_0000_0000_0010u64 == 0,
        0x0000_0000_0000_0081u64 & 0x0000_0000_0000_0008u64 == 0,
        0x0000_0000_0000_0081u64 & 0x0000_0000_0000_0010u64 == 0,
        0x0000_0000_0000_0008u64 & 0x0000_0000_0000_0010u64 == 0,
        0x00ff_0000_0000_0000u64 & 0x4200_0000_0000_0000u64 == 0,
        0x00ff_0000_0000_0000u64 & 0x2400_0000_0000_0000u64 == 0,
        0x00ff_0000_0000_0000u64 & 0x8100_0000_0000_0000u64 == 0,
        0x00ff_0000_0000_0000u64 & 0x0800_0000_0000_0000u64 == 0,
        0x00ff_0000_0000_0000u64 & 0x1000_0000_0000_0000u64 == 0,
        0x4200_0000_0000_0000u64 & 0x2400_0000_0000_0000u64 == 0,
        0x4200_0000_0000_0000u64 & 0x8100_0000_0000_0000u64 == 0,
        0x4200_0000_0000_0000u64 & 0x0800_0000_0000_0000u64 == 0,
        0x4200_0000_0000_0000u64 & 0x1000_0000_0000_0000u64 == 0,
        0x2400_0000_0000_0000u64 & 0x8100_0000_0000_0000u64 == 0,
        0x2400_0000_0000_0000u64 & 0x0800_0000_0000_0000u64 == 0,
        0x2400_0000_0000_0000u64 & 0x1000_0000_0000_0000u64 == 0,
        0x8100_0000_0000_0000u64 & 0x0800_0000_0000_0000u64 == 0,
        0x8100_0000_0000_0000u64 & 0x1000_0000_0000_0000u64 == 0,
        0x0800_0000_0000_0000u64 & 0x1000_0000_0000_0000u64 == 0,
        forall|x: u64| x & 0x0000_0000_0000_ffffu64 == x ==> forall|y: u64|
            y & 0xffff_0000_0000_0000u64 == y ==> x & y == 0,
        0x0000_0000_0000_ff00u64 & 0x0000_0000_0000_ffffu64 == 0x0000_0000_0000_ff00u64,
        0x0000_0000_0000_0042u64 & 0x0000_0000_0000_ffffu64 == 0x0000_0000_0000_0042u64,
        0x0000_0000_0000_0024u64 & 0x0000_0000_0000_ffffu64 == 0x0000_0000_0000_0024u64,
        0x0000_0000_0000_0081u64 & 0x0000_0000_0000_ffffu64 == 0x0000_0000_0000_0081u64,
        0x0000_0000_0000_0008u64 & 0x0000_0000_0000_ffffu64 == 0x0000_0000_0000_0008u64,
        0x0000_0000_0000_0010u64 & 0x0000_0000_0000_ffffu64 == 0x0000_0000_0000_0010u64,
        0x00ff_0000_0000_0000u64 & 0xffff_0000_0000_0000u64 == 0x00ff_0000_0000_0000u64,
        0x4200_0000_0000_0000u64 & 0xffff_0000_0000_0000u64 == 0x4200_0000_0000_0000u64,
        0x2400_0000_0000_0000u64 & 0xffff_0000_0000_0000u64 == 0x2400_0000_0000_0000u64,
        0x8100_0000_0000_0000u64 & 0xffff_0000_0000_0000u64 == 0x8100_0000_0000_0000u64,
        0x0800_0000_0000_0000u64 & 0xffff_0000_0000_0000u64 == 0x0800_0000_0000_0000u64,
        0x1000_0000_0000_0000u64 & 0xffff_0000_0000_0000u64 == 0x1000_0000_0000_0000u64,
{
}

} // verus!
