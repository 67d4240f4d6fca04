//! The crate-level laws, stated once over the specification
//! functions the public contracts use.

use vstd::prelude::*;

use crate::attacks::{
    bishop_reach, piece_reach, ray_reach, rook_reach, spec_attacked, spec_attacks_from,
};
use crate::bits::{bit64, lemma_bit_ops};
use crate::chess_board::ChessBoard;
use crate::chess_game::ChessGame;
use crate::chess_move::ChessMove;
use crate::chess_piece::{spec_opposite, ChessPiece, Color, PieceType};
use crate::movegen::{king_safe_after, pseudo_ok, spec_is_legal};

verus! {

/// A ray walk does not consult the occupancy of its target square,
/// so two occupancies differing only there agree on reachability.
proof fn lemma_ray_target_occ(
    occ1: u64,
    occ2: u64,
    f: int,
    r: int,
    df: int,
    dr: int,
    tf: int,
    tr: int,
    fuel: nat,
)
    requires
        0 <= tf < 8,
        0 <= tr < 8,
        forall|w: u64| w < 64 && w != (tr * 8 + tf) as u64 ==> bit64(occ1, w) == bit64(occ2, w),
    ensures
        ray_reach(occ1, f, r, df, dr, tf, tr, fuel) == ray_reach(occ2, f, r, df, dr, tf, tr, fuel),
    decreases fuel,
{
    if fuel > 0 {
        let nf = f + df;
        let nr = r + dr;
        if crate::attacks::on_board(nf, nr) && !(nf == tf && nr == tr) {
            assert((nr * 8 + nf) != (tr * 8 + tf));
            assert(bit64(occ1, (nr * 8 + nf) as u64) == bit64(occ2, (nr * 8 + nf) as u64));
            lemma_ray_target_occ(occ1, occ2, nf, nr, df, dr, tf, tr, (fuel - 1) as nat);
        }
    }
}

/// Piece reach to a square is unchanged by occupancy changes on that
/// square alone.
proof fn lemma_piece_reach_target_occ(occ1: u64, occ2: u64, p: ChessPiece, a: int, sq: int)
    requires
        0 <= sq < 64,
        forall|w: u64| w < 64 && w != sq as u64 ==> bit64(occ1, w) == bit64(occ2, w),
    ensures
        piece_reach(occ1, p, a, sq) == piece_reach(occ2, p, a, sq),
{
    let tf = crate::attacks::fl(sq);
    let tr = crate::attacks::rk(sq);
    assert(tr * 8 + tf == sq);
    match p.piece_type {
        PieceType::Bishop | PieceType::Rook | PieceType::Queen => {
            if 0 <= a < 64 {
                let f = crate::attacks::fl(a);
                let r = crate::attacks::rk(a);
                lemma_ray_target_occ(occ1, occ2, f, r, 1, 1, tf, tr, 8);
                lemma_ray_target_occ(occ1, occ2, f, r, 1, -1, tf, tr, 8);
                lemma_ray_target_occ(occ1, occ2, f, r, -1, 1, tf, tr, 8);
                lemma_ray_target_occ(occ1, occ2, f, r, -1, -1, tf, tr, 8);
                lemma_ray_target_occ(occ1, occ2, f, r, 1, 0, tf, tr, 8);
                lemma_ray_target_occ(occ1, occ2, f, r, -1, 0, tf, tr, 8);
                lemma_ray_target_occ(occ1, occ2, f, r, 0, 1, tf, tr, 8);
                lemma_ray_target_occ(occ1, occ2, f, r, 0, -1, tf, tr, 8);
            }
        },
        _ => {},
    }
}

/// Attacker symmetry: a square is attacked by a colour exactly when
/// a king of the opposite colour, placed on that empty square, would
/// stand in check there.
pub proof fn lemma_attacked_iff_inserted_king_in_check(b: ChessBoard, sq: u64, c: Color)
    requires
        b.wf(),
        sq < 64,
        b.spec_piece_at(sq) is None,
    ensures
        ({
            let king = ChessPiece { color: spec_opposite(c), piece_type: PieceType::King };
            let nb = b.spec_add_piece(king, sq);
            &&& nb.spec_piece_at(sq) == Some(king)
            &&& spec_attacked(b, sq as int, c) == spec_attacked(nb, sq as int, c)
        }),
{
    lemma_bit_ops();
    let king = ChessPiece { color: spec_opposite(c), piece_type: PieceType::King };
    b.lemma_bb_in_all(sq);
    b.lemma_add_piece_wf(king, sq);
    let nb = b.spec_add_piece(king, sq);
    assert(nb.all_pieces.0 == (b.all_pieces.0 | (1u64 << sq)));
    assert forall|w: u64| w < 64 && w != sq implies bit64(nb.all_pieces.0, w) == bit64(
        b.all_pieces.0,
        w,
    ) by {}
    if spec_attacked(b, sq as int, c) {
        let a = choose|a: int| 0 <= a < 64 && #[trigger] spec_attacks_from(b, a, sq as int, c);
        let p = b.spec_piece_at(a as u64).unwrap();
        assert(a != sq);
        lemma_piece_reach_target_occ(b.all_pieces.0, nb.all_pieces.0, p, a, sq as int);
        assert(spec_attacks_from(nb, a, sq as int, c));
    }
    if spec_attacked(nb, sq as int, c) {
        let a = choose|a: int| 0 <= a < 64 && #[trigger] spec_attacks_from(nb, a, sq as int, c);
        let p = nb.spec_piece_at(a as u64).unwrap();
        assert(a != sq);
        assert(b.spec_piece_at(a as u64) == Some(p));
        lemma_piece_reach_target_occ(b.all_pieces.0, nb.all_pieces.0, p, a, sq as int);
        assert(spec_attacks_from(b, a, sq as int, c));
    }
}

/// Every legal move is pseudo-legal, and the legality filter keeps
/// exactly the pseudo-legal moves that leave the mover's king safe.
pub proof fn lemma_legal_filter(g: ChessGame, mv: ChessMove)
    ensures
        spec_is_legal(g, mv) ==> pseudo_ok(g, mv),
        spec_is_legal(g, mv) == (pseudo_ok(g, mv) && king_safe_after(g, mv)),
{
}

/// Applying a legal move leaves the mover's king unattacked.
pub proof fn lemma_legal_king_safe(g: ChessGame, mv: ChessMove)
    requires
        spec_is_legal(g, mv),
    ensures
        king_safe_after(g, mv),
{
}

/// Occupancy coherence: in a well-formed position the full set is
/// the union of the two colour sets, and each colour set is the
/// union of its six piece sets.
pub proof fn lemma_occupancy_coherence(g: ChessGame)
    requires
        g.wf(),
    ensures
        g.board.all_pieces.0 == (g.board.white_occupancy.0 | g.board.black_occupancy.0),
        g.board.white_occupancy.0 == g.board.white_union(),
        g.board.black_occupancy.0 == g.board.black_union(),
{
}

} // verus!
