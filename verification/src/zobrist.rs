//! Zobrist keys: a fixed-seed xorshift stream gives every piece,
//! castling, en-passant and side key, and the full position hash is
//! the exclusive-or of the keys of what the position holds.

use vstd::prelude::*;

use crate::chess_board::ChessBoard;
use crate::chess_piece::{Color, PieceType};
use crate::chess_square::ChessSquare;

verus! {

/// One step of the xorshift stream.
pub open spec fn xs_next(x: u64) -> u64 {
    let a = x ^ (x << 13);
    let b = a ^ (a >> 7);
    b ^ (b << 17)
}

/// The stream's state after `n` steps from the fixed seed.
pub open spec fn xs_iter(n: nat) -> u64
    decreases n,
{
    if n == 0 {
        123456789u64
    } else {
        xs_next(xs_iter((n - 1) as nat))
    }
}

#[derive(Debug, Clone, PartialEq, Eq)]
pub struct XorShift64 {
    pub value: u64,
}

impl XorShift64 {
    /// A zero seed would freeze the stream, so it is replaced.
    pub fn new(seed: u64) -> (r: Self)
        ensures
            r.value == (if seed == 0 {
                0xDEADC0DEBAADF00Du64
            } else {
                seed
            }),
    {
        if seed == 0 {
            XorShift64 { value: 0xDEADC0DEBAADF00D }
        } else {
            XorShift64 { value: seed }
        }
    }

    pub fn next(&mut self) -> (r: u64)
        ensures
            final(self).value == xs_next(old(self).value),
            r == xs_next(old(self).value),
    {
        let mut x = self.value;
        x = x ^ (x << 13);
        x = x ^ (x >> 7);
        x = x ^ (x << 17);
        self.value = x;
        x
    }
}

#[derive(Debug, Clone, PartialEq, Eq)]
pub struct ZobristKeys {
    /// Piece keys, indexed `(colour * 6 + type) * 64 + square`.
    pub pieces: Vec<u64>,
    /// One key per castling-rights mask.
    pub castling: Vec<u64>,
    /// One key per en-passant file.
    pub en_passant: Vec<u64>,
    pub side_to_move: u64,
}

impl ZobristKeys {
    /// The keys are exactly the prefix of the xorshift stream, in the
    /// order they are drawn: pieces, castling masks, files, side.
    pub open spec fn wf(self) -> bool {
        &&& self.pieces@.len() == 768
        &&& self.castling@.len() == 16
        &&& self.en_passant@.len() == 8
        &&& forall|i: int| 0 <= i < 768 ==> self.pieces@[i] == xs_iter((i + 1) as nat)
        &&& forall|i: int| 0 <= i < 16 ==> self.castling@[i] == xs_iter((i + 769) as nat)
        &&& forall|i: int| 0 <= i < 8 ==> self.en_passant@[i] == xs_iter((i + 785) as nat)
        &&& self.side_to_move == xs_iter(793)
    }

    /// The key of a piece of the given colour and type on a square.
    pub open spec fn spec_piece_key(self, c: Color, t: PieceType, sq: int) -> u64 {
        self.pieces@[(c.idx() * 6 + t.idx()) * 64 + sq]
    }

    pub fn new() -> (r: Self)
        ensures
            r.wf(),
    {
        let mut rng = XorShift64::new(123456789);
        let mut pieces: Vec<u64> = Vec::new();
        let mut i: usize = 0;
        while i < 768
            invariant
                i <= 768,
                pieces@.len() == i as int,
                rng.value == xs_iter(i as nat),
                forall|j: int| 0 <= j < i as int ==> pieces@[j] == xs_iter((j + 1) as nat),
            decreases 768 - i,
        {
            let k = rng.next();
            pieces.push(k);
            i = i + 1;
        }
        let mut castling: Vec<u64> = Vec::new();
        let mut i: usize = 0;
        while i < 16
            invariant
                i <= 16,
                castling@.len() == i as int,
                rng.value == xs_iter((768 + i) as nat),
                forall|j: int| 0 <= j < i as int ==> castling@[j] == xs_iter((j + 769) as nat),
            decreases 16 - i,
        {
            let k = rng.next();
            castling.push(k);
            i = i + 1;
        }
        let mut en_passant: Vec<u64> = Vec::new();
        let mut i: usize = 0;
        while i < 8
            invariant
                i <= 8,
                en_passant@.len() == i as int,
                rng.value == xs_iter((784 + i) as nat),
                forall|j: int| 0 <= j < i as int ==> en_passant@[j] == xs_iter((j + 785) as nat),
            decreases 8 - i,
        {
            let k = rng.next();
            en_passant.push(k);
            i = i + 1;
        }
        let side_to_move = rng.next();
        ZobristKeys { pieces, castling, en_passant, side_to_move }
    }

    /// A fresh copy of the key table; the stream is fixed, so every
    /// copy holds the same keys.
    pub fn get() -> (r: Self)
        ensures
            r.wf(),
    {
        Self::new()
    }

    pub fn piece_key(&self, c: Color, t: PieceType, sq: u8) -> (r: u64)
        requires
            self.wf(),
            sq < 64,
        ensures
            r == self.spec_piece_key(c, t, sq as int),
    {
        let ci: usize = match c {
            Color::White => 0,
            Color::Black => 1,
        };
        let ti: usize = match t {
            PieceType::Pawn => 0,
            PieceType::Knight => 1,
            PieceType::Bishop => 2,
            PieceType::Rook => 3,
            PieceType::Queen => 4,
            PieceType::King => 5,
        };
        self.pieces[(ci * 6 + ti) * 64 + sq as usize]
    }

    pub fn castling_key(&self, mask: u8) -> (r: u64)
        requires
            self.wf(),
            mask < 16,
        ensures
            r == self.castling@[mask as int],
    {
        self.castling[mask as usize]
    }

    pub fn ep_file_key(&self, file: u8) -> (r: u64)
        requires
            self.wf(),
            file < 8,
        ensures
            r == self.en_passant@[file as int],
    {
        self.en_passant[file as usize]
    }
}

/// The key a square contributes to the board hash: its occupant's
/// key, or zero when empty.
pub open spec fn square_key(k: ZobristKeys, b: ChessBoard, sq: int) -> u64 {
    match b.spec_piece_at(sq as u64) {
        Some(p) => k.spec_piece_key(p.color, p.piece_type, sq),
        None => 0,
    }
}

/// The exclusive-or of the square keys below `n`.
pub open spec fn board_hash_upto(k: ZobristKeys, b: ChessBoard, n: int) -> u64
    decreases n,
{
    if n <= 0 {
        0
    } else {
        board_hash_upto(k, b, n - 1) ^ square_key(k, b, n - 1)
    }
}

/// The full recomputation: every piece's key, the castling mask key,
/// the en-passant file key if a square is set, and the side key when
/// Black is to move.
pub open spec fn spec_full_hash(
    k: ZobristKeys,
    b: ChessBoard,
    castling: u8,
    ep: Option<ChessSquare>,
    side: Color,
) -> u64 {
    let h = board_hash_upto(k, b, 64) ^ k.castling@[castling as int];
    let h2 = match ep {
        Some(sq) => h ^ k.en_passant@[sq.0 as int % 8],
        None => h,
    };
    match side {
        Color::White => h2,
        Color::Black => h2 ^ k.side_to_move,
    }
}

/// Adding a piece changes the board hash by that piece's key alone.
pub proof fn lemma_hash_add(k: ZobristKeys, b: ChessBoard, p: crate::chess_piece::ChessPiece, sq: u64)
    requires
        b.wf(),
        sq < 64,
        !crate::bits::bit64(b.all_pieces.0, sq),
    ensures
        board_hash_upto(k, b.spec_add_piece(p, sq), 64) == (board_hash_upto(k, b, 64)
            ^ k.spec_piece_key(p.color, p.piece_type, sq as int)),
{
    crate::bits::lemma_xor_ops();
    let nb = b.spec_add_piece(p, sq);
    b.lemma_add_piece_wf(p, sq);
    b.lemma_bb_in_all(sq);
    lemma_hash_upto_update(k, b, nb, 64, sq as int);
    assert(square_key(k, b, sq as int) == 0);
    assert(square_key(k, nb, sq as int) == k.spec_piece_key(p.color, p.piece_type, sq as int));
    let h = board_hash_upto(k, b, 64);
    let key = k.spec_piece_key(p.color, p.piece_type, sq as int);
    assert((h ^ 0 ^ key) == (h ^ key));
}

/// Removing a piece changes the board hash by that piece's key alone.
pub proof fn lemma_hash_remove(
    k: ZobristKeys,
    b: ChessBoard,
    p: crate::chess_piece::ChessPiece,
    sq: u64,
)
    requires
        b.wf(),
        sq < 64,
        crate::bits::bit64(b.sbb(p.color, p.piece_type), sq),
    ensures
        board_hash_upto(k, b.spec_remove_piece(p, sq), 64) == (board_hash_upto(k, b, 64)
            ^ k.spec_piece_key(p.color, p.piece_type, sq as int)),
{
    crate::bits::lemma_xor_ops();
    let nb = b.spec_remove_piece(p, sq);
    b.lemma_remove_piece_wf(p, sq);
    b.lemma_piece_at_bb(sq);
    lemma_hash_upto_update(k, b, nb, 64, sq as int);
    assert(square_key(k, b, sq as int) == k.spec_piece_key(p.color, p.piece_type, sq as int));
    assert(square_key(k, nb, sq as int) == 0);
    let h = board_hash_upto(k, b, 64);
    let key = k.spec_piece_key(p.color, p.piece_type, sq as int);
    assert((h ^ key ^ 0) == (h ^ key));
}

/// Boards that agree on every square below `n` except `sq` have
/// hashes that differ exactly by that square's two keys.
pub proof fn lemma_hash_upto_update(k: ZobristKeys, b1: ChessBoard, b2: ChessBoard, n: int, sq: int)
    requires
        0 <= sq < 64,
        0 <= n <= 64,
        forall|o: u64| o < 64 && o != sq ==> #[trigger] b2.spec_piece_at(o) == b1.spec_piece_at(o),
    ensures
        n <= sq ==> board_hash_upto(k, b2, n) == board_hash_upto(k, b1, n),
        n > sq ==> board_hash_upto(k, b2, n) == (board_hash_upto(k, b1, n) ^ square_key(k, b1, sq)
            ^ square_key(k, b2, sq)),
    decreases n,
{
    crate::bits::lemma_xor_ops();
    if n > 0 {
        lemma_hash_upto_update(k, b1, b2, n - 1, sq);
        if n - 1 != sq {
            assert(b2.spec_piece_at((n - 1) as u64) == b1.spec_piece_at((n - 1) as u64));
            assert(square_key(k, b2, n - 1) == square_key(k, b1, n - 1));
        }
        if n > sq {
            let h1 = board_hash_upto(k, b1, n - 1);
            let h2 = board_hash_upto(k, b2, n - 1);
            let s1 = square_key(k, b1, n - 1);
            let s2 = square_key(k, b2, n - 1);
            let x1 = square_key(k, b1, sq);
            let x2 = square_key(k, b2, sq);
            if n - 1 == sq {
                assert(board_hash_upto(k, b2, n) == h1 ^ s2);
                assert((h1 ^ s1 ^ x1 ^ x2) == (h1 ^ (s1 ^ (x1 ^ x2)))) by {
                    crate::bits::lemma_xor_ops();
                }
                assert((s1 ^ (x1 ^ x2)) == s2) by {
                    crate::bits::lemma_xor_ops();
                }
            } else {
                assert(h2 == h1 ^ x1 ^ x2);
                assert((h1 ^ x1 ^ x2) ^ s2 == (h1 ^ s2) ^ (x1 ^ x2)) by {
                    crate::bits::lemma_xor_ops();
                }
                assert((h1 ^ s1) ^ x1 ^ x2 == (h1 ^ s1) ^ (x1 ^ x2)) by {
                    crate::bits::lemma_xor_ops();
                }
                assert(s1 == s2);
            }
        }
    }
}

} // verus!
