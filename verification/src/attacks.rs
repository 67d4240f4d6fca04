//! Attack geometry: which squares each piece reaches, ray scanning
//! past blockers, attacker detection, and the attack tables.

use vstd::prelude::*;

use crate::bitboard::Bitboard;
use crate::bits::{bit64, lemma_bit_ops};
use crate::chess_board::ChessBoard;
use crate::chess_piece::{ChessPiece, Color, PieceType};
use crate::chess_square::ChessSquare;

verus! {

pub open spec fn iabs(x: int) -> int {
    if x < 0 {
        -x
    } else {
        x
    }
}

pub open spec fn on_board(f: int, r: int) -> bool {
    0 <= f < 8 && 0 <= r < 8
}

pub open spec fn fl(sq: int) -> int {
    sq % 8
}

pub open spec fn rk(sq: int) -> int {
    sq / 8
}

/// A knight move: one file and two ranks, or two files and one rank.
pub open spec fn knight_reach(a: int, b: int) -> bool {
    0 <= a < 64 && 0 <= b < 64 && {
        let df = iabs(fl(b) - fl(a));
        let dr = iabs(rk(b) - rk(a));
        (df == 1 && dr == 2) || (df == 2 && dr == 1)
    }
}

/// A king step: to an adjacent square.
pub open spec fn king_reach(a: int, b: int) -> bool {
    0 <= a < 64 && 0 <= b < 64 && {
        let df = iabs(fl(b) - fl(a));
        let dr = iabs(rk(b) - rk(a));
        df <= 1 && dr <= 1 && (df != 0 || dr != 0)
    }
}

/// A pawn capture: one square diagonally forward for its colour.
pub open spec fn pawn_attack_reach(c: Color, a: int, b: int) -> bool {
    0 <= a < 64 && 0 <= b < 64 && iabs(fl(b) - fl(a)) == 1 && rk(b) - rk(a) == (match c {
        Color::White => 1,
        Color::Black => -1,
    })
}

/// Walking from `(f, r)` in direction `(df, dr)`: reaches `(tf, tr)`
/// if it appears within `fuel` steps, on the board, with every square
/// strictly before it empty in `occ`. The target itself may be
/// occupied: a slider attacks the first blocker.
pub open spec fn ray_reach(
    occ: u64,
    f: int,
    r: int,
    df: int,
    dr: int,
    tf: int,
    tr: int,
    fuel: nat,
) -> bool
    decreases fuel,
{
    if fuel == 0 {
        false
    } else {
        let nf = f + df;
        let nr = r + dr;
        if !on_board(nf, nr) {
            false
        } else if nf == tf && nr == tr {
            true
        } else if bit64(occ, (nr * 8 + nf) as u64) {
            false
        } else {
            ray_reach(occ, nf, nr, df, dr, tf, tr, (fuel - 1) as nat)
        }
    }
}

/// A bishop slide from `a` to `b` over occupancy `occ`.
pub open spec fn bishop_reach(occ: u64, a: int, b: int) -> bool {
    0 <= a < 64 && 0 <= b < 64 && (ray_reach(occ, fl(a), rk(a), 1, 1, fl(b), rk(b), 8)
        || ray_reach(occ, fl(a), rk(a), 1, -1, fl(b), rk(b), 8) || ray_reach(
        occ,
        fl(a),
        rk(a),
        -1,
        1,
        fl(b),
        rk(b),
        8,
    ) || ray_reach(occ, fl(a), rk(a), -1, -1, fl(b), rk(b), 8))
}

/// A rook slide from `a` to `b` over occupancy `occ`.
pub open spec fn rook_reach(occ: u64, a: int, b: int) -> bool {
    0 <= a < 64 && 0 <= b < 64 && (ray_reach(occ, fl(a), rk(a), 1, 0, fl(b), rk(b), 8)
        || ray_reach(occ, fl(a), rk(a), -1, 0, fl(b), rk(b), 8) || ray_reach(
        occ,
        fl(a),
        rk(a),
        0,
        1,
        fl(b),
        rk(b),
        8,
    ) || ray_reach(occ, fl(a), rk(a), 0, -1, fl(b), rk(b), 8))
}

/// Whether the given piece, standing on `a`, attacks square `b` over
/// occupancy `occ`.
pub open spec fn piece_reach(occ: u64, p: ChessPiece, a: int, b: int) -> bool {
    match p.piece_type {
        PieceType::Pawn => pawn_attack_reach(p.color, a, b),
        PieceType::Knight => knight_reach(a, b),
        PieceType::Bishop => bishop_reach(occ, a, b),
        PieceType::Rook => rook_reach(occ, a, b),
        PieceType::Queen => bishop_reach(occ, a, b) || rook_reach(occ, a, b),
        PieceType::King => king_reach(a, b),
    }
}

/// Whether the piece standing on `a` belongs to `by` and attacks `sq`.
pub open spec fn spec_attacks_from(b: ChessBoard, a: int, sq: int, by: Color) -> bool {
    match b.spec_piece_at(a as u64) {
        Some(p) => p.color == by && piece_reach(b.all_pieces.0, p, a, sq),
        None => false,
    }
}

/// Whether any piece of colour `by` attacks square `sq`.
pub open spec fn spec_attacked(b: ChessBoard, sq: int, by: Color) -> bool {
    exists|a: int| 0 <= a < 64 && #[trigger] spec_attacks_from(b, a, sq, by)
}

/// One step at a time along a ray, stopping at the board edge, the
/// target, or the first occupied square.
fn ray_step(occ: u64, f: i8, r: i8, df: i8, dr: i8, tf: i8, tr: i8, fuel: u8) -> (res: bool)
    requires
        0 <= f < 8,
        0 <= r < 8,
        -1 <= df <= 1,
        -1 <= dr <= 1,
        -8 <= tf <= 8,
        -8 <= tr <= 8,
    ensures
        res == ray_reach(
            occ,
            f as int,
            r as int,
            df as int,
            dr as int,
            tf as int,
            tr as int,
            fuel as nat,
        ),
    decreases fuel,
{
    if fuel == 0 {
        return false;
    }
    let nf = f + df;
    let nr = r + dr;
    if nf < 0 || nf > 7 || nr < 0 || nr > 7 {
        return false;
    }
    if nf == tf && nr == tr {
        return true;
    }
    let idx: u8 = (nr * 8 + nf) as u8;
    if (occ >> (idx as u64)) & 1u64 == 1u64 {
        return false;
    }
    proof {
        assert(!bit64(occ, ((nr as int) * 8 + nf as int) as u64));
    }
    ray_step(occ, nf, nr, df, dr, tf, tr, fuel - 1)
}

/// Whether the piece on `from` attacks `to` over occupancy `occ`.
pub fn piece_attacks(occ: u64, p: ChessPiece, from: u8, to: u8) -> (r: bool)
    requires
        from < 64,
        to < 64,
    ensures
        r == piece_reach(occ, p, from as int, to as int),
{
    let ff = (from % 8) as i8;
    let fr = (from / 8) as i8;
    let tf = (to % 8) as i8;
    let tr = (to / 8) as i8;
    let df = tf - ff;
    let dr = tr - fr;
    match p.piece_type {
        PieceType::Pawn => {
            let fwd: i8 = match p.color {
                Color::White => 1,
                Color::Black => -1,
            };
            (df == 1 || df == -1) && dr == fwd
        },
        PieceType::Knight => {
            ((df == 1 || df == -1) && (dr == 2 || dr == -2)) || ((df == 2 || df == -2) && (dr == 1
                || dr == -1))
        },
        PieceType::King => {
            -1 <= df && df <= 1 && -1 <= dr && dr <= 1 && !(df == 0 && dr == 0)
        },
        PieceType::Bishop => {
            ray_step(occ, ff, fr, 1, 1, tf, tr, 8) || ray_step(occ, ff, fr, 1, -1, tf, tr, 8)
                || ray_step(occ, ff, fr, -1, 1, tf, tr, 8) || ray_step(
                occ,
                ff,
                fr,
                -1,
                -1,
                tf,
                tr,
                8,
            )
        },
        PieceType::Rook => {
            ray_step(occ, ff, fr, 1, 0, tf, tr, 8) || ray_step(occ, ff, fr, -1, 0, tf, tr, 8)
                || ray_step(occ, ff, fr, 0, 1, tf, tr, 8) || ray_step(occ, ff, fr, 0, -1, tf, tr, 8)
        },
        PieceType::Queen => {
            ray_step(occ, ff, fr, 1, 1, tf, tr, 8) || ray_step(occ, ff, fr, 1, -1, tf, tr, 8)
                || ray_step(occ, ff, fr, -1, 1, tf, tr, 8) || ray_step(
                occ,
                ff,
                fr,
                -1,
                -1,
                tf,
                tr,
                8,
            ) || ray_step(occ, ff, fr, 1, 0, tf, tr, 8) || ray_step(occ, ff, fr, -1, 0, tf, tr, 8)
                || ray_step(occ, ff, fr, 0, 1, tf, tr, 8) || ray_step(occ, ff, fr, 0, -1, tf, tr, 8)
        },
    }
}

/// A pawn push target: straight ahead one square, or two from the
/// pawn's home rank. Occupancy is not consulted here.
pub open spec fn pawn_push_target(c: Color, a: int, b: int) -> bool {
    0 <= a < 64 && 0 <= b < 64 && fl(b) == fl(a) && (match c {
        Color::White => rk(b) - rk(a) == 1 || (rk(a) == 1 && rk(b) - rk(a) == 2),
        Color::Black => rk(b) - rk(a) == -1 || (rk(a) == 6 && rk(b) - rk(a) == -2),
    })
}

/// The set of squares a knight on `sq` reaches.
pub fn knight_mask(sq: u8) -> (r: u64)
    requires
        sq < 64,
    ensures
        forall|t: u64| t < 64 ==> #[trigger] bit64(r, t) == knight_reach(sq as int, t as int),
{
    let mut mask: u64 = 0;
    let mut t: u8 = 0;
    proof {
        lemma_bit_ops();
    }
    while t < 64
        invariant
            t <= 64,
            sq < 64,
            forall|j: u64|
                j < 64 ==> #[trigger] bit64(mask, j) == (j < t && knight_reach(sq as int, j as int)),
        decreases 64 - t,
    {
        let df = (t % 8) as i8 - (sq % 8) as i8;
        let dr = (t / 8) as i8 - (sq / 8) as i8;
        if ((df == 1 || df == -1) && (dr == 2 || dr == -2)) || ((df == 2 || df == -2) && (dr == 1
            || dr == -1)) {
            mask = mask | (1u64 << (t as u64));
        }
        proof {
            lemma_bit_ops();
        }
        t = t + 1;
    }
    mask
}

/// The set of squares a king on `sq` reaches.
pub fn king_mask(sq: u8) -> (r: u64)
    requires
        sq < 64,
    ensures
        forall|t: u64| t < 64 ==> #[trigger] bit64(r, t) == king_reach(sq as int, t as int),
{
    let mut mask: u64 = 0;
    let mut t: u8 = 0;
    proof {
        lemma_bit_ops();
    }
    while t < 64
        invariant
            t <= 64,
            sq < 64,
            forall|j: u64|
                j < 64 ==> #[trigger] bit64(mask, j) == (j < t && king_reach(sq as int, j as int)),
        decreases 64 - t,
    {
        let df = (t % 8) as i8 - (sq % 8) as i8;
        let dr = (t / 8) as i8 - (sq / 8) as i8;
        if -1 <= df && df <= 1 && -1 <= dr && dr <= 1 && !(df == 0 && dr == 0) {
            mask = mask | (1u64 << (t as u64));
        }
        proof {
            lemma_bit_ops();
        }
        t = t + 1;
    }
    mask
}

/// The set of squares a pawn of colour `c` on `sq` attacks.
pub fn pawn_attack_mask(c: Color, sq: u8) -> (r: u64)
    requires
        sq < 64,
    ensures
        forall|t: u64|
            t < 64 ==> #[trigger] bit64(r, t) == pawn_attack_reach(c, sq as int, t as int),
{
    let mut mask: u64 = 0;
    let mut t: u8 = 0;
    proof {
        lemma_bit_ops();
    }
    while t < 64
        invariant
            t <= 64,
            sq < 64,
            forall|j: u64|
                j < 64 ==> #[trigger] bit64(mask, j) == (j < t && pawn_attack_reach(
                    c,
                    sq as int,
                    j as int,
                )),
        decreases 64 - t,
    {
        let df = (t % 8) as i8 - (sq % 8) as i8;
        let dr = (t / 8) as i8 - (sq / 8) as i8;
        let fwd: i8 = match c {
            Color::White => 1,
            Color::Black => -1,
        };
        if (df == 1 || df == -1) && dr == fwd {
            mask = mask | (1u64 << (t as u64));
        }
        proof {
            lemma_bit_ops();
        }
        t = t + 1;
    }
    mask
}

/// The set of push targets of a pawn of colour `c` on `sq`.
pub fn pawn_move_mask(c: Color, sq: u8) -> (r: u64)
    requires
        sq < 64,
    ensures
        forall|t: u64|
            t < 64 ==> #[trigger] bit64(r, t) == pawn_push_target(c, sq as int, t as int),
{
    let mut mask: u64 = 0;
    let mut t: u8 = 0;
    proof {
        lemma_bit_ops();
    }
    while t < 64
        invariant
            t <= 64,
            sq < 64,
            forall|j: u64|
                j < 64 ==> #[trigger] bit64(mask, j) == (j < t && pawn_push_target(
                    c,
                    sq as int,
                    j as int,
                )),
        decreases 64 - t,
    {
        let df = (t % 8) as i8 - (sq % 8) as i8;
        let dr = (t / 8) as i8 - (sq / 8) as i8;
        let home = match c {
            Color::White => sq / 8 == 1,
            Color::Black => sq / 8 == 6,
        };
        let fwd: i8 = match c {
            Color::White => 1,
            Color::Black => -1,
        };
        if df == 0 && (dr == fwd || (home && dr == 2 * fwd)) {
            mask = mask | (1u64 << (t as u64));
        }
        proof {
            lemma_bit_ops();
        }
        t = t + 1;
    }
    mask
}

/// The open ray from `sq` in direction `(df, dr)`: every square the
/// walk reaches on an empty board, the origin excluded.
pub fn ray_mask(sq: u8, df: i8, dr: i8) -> (r: u64)
    requires
        sq < 64,
        -1 <= df <= 1,
        -1 <= dr <= 1,
    ensures
        forall|t: u64|
            t < 64 ==> #[trigger] bit64(r, t) == ray_reach(
                0,
                fl(sq as int),
                rk(sq as int),
                df as int,
                dr as int,
                fl(t as int),
                rk(t as int),
                8,
            ),
{
    let mut mask: u64 = 0;
    let mut t: u8 = 0;
    proof {
        lemma_bit_ops();
    }
    while t < 64
        invariant
            t <= 64,
            sq < 64,
            -1 <= df <= 1,
            -1 <= dr <= 1,
            forall|j: u64|
                j < 64 ==> #[trigger] bit64(mask, j) == (j < t && ray_reach(
                    0,
                    fl(sq as int),
                    rk(sq as int),
                    df as int,
                    dr as int,
                    fl(j as int),
                    rk(j as int),
                    8,
                )),
        decreases 64 - t,
    {
        if ray_step(0, (sq % 8) as i8, (sq / 8) as i8, df, dr, (t % 8) as i8, (t / 8) as i8, 8) {
            mask = mask | (1u64 << (t as u64));
        }
        proof {
            lemma_bit_ops();
        }
        t = t + 1;
    }
    mask
}

impl ChessBoard {
    /// The knight attack table, one board set per origin square.
    pub fn generate_knight_attacks() -> (r: Vec<Bitboard>)
        ensures
            r@.len() == 64,
            forall|sq: int, t: u64|
                0 <= sq < 64 && t < 64 ==> #[trigger] bit64(r@[sq].0, t) == knight_reach(
                    sq,
                    t as int,
                ),
    {
        let mut v: Vec<Bitboard> = Vec::new();
        let mut i: u8 = 0;
        while i < 64
            invariant
                i <= 64,
                v@.len() == i as int,
                forall|sq: int, t: u64|
                    0 <= sq < i as int && t < 64 ==> #[trigger] bit64(v@[sq].0, t) == knight_reach(
                        sq,
                        t as int,
                    ),
            decreases 64 - i,
        {
            v.push(Bitboard(knight_mask(i)));
            i = i + 1;
        }
        v
    }

    /// The king attack table.
    pub fn generate_king_attacks() -> (r: Vec<Bitboard>)
        ensures
            r@.len() == 64,
            forall|sq: int, t: u64|
                0 <= sq < 64 && t < 64 ==> #[trigger] bit64(r@[sq].0, t) == king_reach(sq, t as int),
    {
        let mut v: Vec<Bitboard> = Vec::new();
        let mut i: u8 = 0;
        while i < 64
            invariant
                i <= 64,
                v@.len() == i as int,
                forall|sq: int, t: u64|
                    0 <= sq < i as int && t < 64 ==> #[trigger] bit64(v@[sq].0, t) == king_reach(
                        sq,
                        t as int,
                    ),
            decreases 64 - i,
        {
            v.push(Bitboard(king_mask(i)));
            i = i + 1;
        }
        v
    }

    /// The pawn capture table for one colour.
    pub fn generate_pawn_attacks(c: Color) -> (r: Vec<Bitboard>)
        ensures
            r@.len() == 64,
            forall|sq: int, t: u64|
                0 <= sq < 64 && t < 64 ==> #[trigger] bit64(r@[sq].0, t) == pawn_attack_reach(
                    c,
                    sq,
                    t as int,
                ),
    {
        let mut v: Vec<Bitboard> = Vec::new();
        let mut i: u8 = 0;
        while i < 64
            invariant
                i <= 64,
                v@.len() == i as int,
                forall|sq: int, t: u64|
                    0 <= sq < i as int && t < 64 ==> #[trigger] bit64(v@[sq].0, t)
                        == pawn_attack_reach(c, sq, t as int),
            decreases 64 - i,
        {
            v.push(Bitboard(pawn_attack_mask(c, i)));
            i = i + 1;
        }
        v
    }

    /// The pawn push table for one colour, double pushes included.
    pub fn generate_pawn_moves(c: Color) -> (r: Vec<Bitboard>)
        ensures
            r@.len() == 64,
            forall|sq: int, t: u64|
                0 <= sq < 64 && t < 64 ==> #[trigger] bit64(r@[sq].0, t) == pawn_push_target(
                    c,
                    sq,
                    t as int,
                ),
    {
        let mut v: Vec<Bitboard> = Vec::new();
        let mut i: u8 = 0;
        while i < 64
            invariant
                i <= 64,
                v@.len() == i as int,
                forall|sq: int, t: u64|
                    0 <= sq < i as int && t < 64 ==> #[trigger] bit64(v@[sq].0, t)
                        == pawn_push_target(c, sq, t as int),
            decreases 64 - i,
        {
            v.push(Bitboard(pawn_move_mask(c, i)));
            i = i + 1;
        }
        v
    }

    /// One open-ray table in direction `(df, dr)`.
    fn generate_ray_table(df: i8, dr: i8) -> (r: Vec<Bitboard>)
        requires
            -1 <= df <= 1,
            -1 <= dr <= 1,
        ensures
            r@.len() == 64,
            forall|sq: int, t: u64|
                0 <= sq < 64 && t < 64 ==> #[trigger] bit64(r@[sq].0, t) == ray_reach(
                    0,
                    fl(sq),
                    rk(sq),
                    df as int,
                    dr as int,
                    fl(t as int),
                    rk(t as int),
                    8,
                ),
    {
        let mut v: Vec<Bitboard> = Vec::new();
        let mut i: u8 = 0;
        while i < 64
            invariant
                i <= 64,
                -1 <= df <= 1,
                -1 <= dr <= 1,
                v@.len() == i as int,
                forall|sq: int, t: u64|
                    0 <= sq < i as int && t < 64 ==> #[trigger] bit64(v@[sq].0, t) == ray_reach(
                        0,
                        fl(sq),
                        rk(sq),
                        df as int,
                        dr as int,
                        fl(t as int),
                        rk(t as int),
                        8,
                    ),
            decreases 64 - i,
        {
            v.push(Bitboard(ray_mask(i, df, dr)));
            i = i + 1;
        }
        v
    }

    /// The eight open-ray tables, in the order north, north-east,
    /// east, south-east, south, south-west, west, north-west.
    pub fn generate_direction_masks() -> (r: (
        Vec<Bitboard>,
        Vec<Bitboard>,
        Vec<Bitboard>,
        Vec<Bitboard>,
        Vec<Bitboard>,
        Vec<Bitboard>,
        Vec<Bitboard>,
        Vec<Bitboard>,
    ))
        ensures
            r.0@.len() == 64 && r.1@.len() == 64 && r.2@.len() == 64 && r.3@.len() == 64
                && r.4@.len() == 64 && r.5@.len() == 64 && r.6@.len() == 64 && r.7@.len() == 64,
            forall|sq: int, t: u64|
                0 <= sq < 64 && t < 64 ==> #[trigger] bit64(r.0@[sq].0, t) == ray_reach(
                    0,
                    fl(sq),
                    rk(sq),
                    0,
                    1,
                    fl(t as int),
                    rk(t as int),
                    8,
                ),
            forall|sq: int, t: u64|
                0 <= sq < 64 && t < 64 ==> #[trigger] bit64(r.1@[sq].0, t) == ray_reach(
                    0,
                    fl(sq),
                    rk(sq),
                    1,
                    1,
                    fl(t as int),
                    rk(t as int),
                    8,
                ),
            forall|sq: int, t: u64|
                0 <= sq < 64 && t < 64 ==> #[trigger] bit64(r.2@[sq].0, t) == ray_reach(
                    0,
                    fl(sq),
                    rk(sq),
                    1,
                    0,
                    fl(t as int),
                    rk(t as int),
                    8,
                ),
            forall|sq: int, t: u64|
                0 <= sq < 64 && t < 64 ==> #[trigger] bit64(r.3@[sq].0, t) == ray_reach(
                    0,
                    fl(sq),
                    rk(sq),
                    1,
                    -1,
                    fl(t as int),
                    rk(t as int),
                    8,
                ),
            forall|sq: int, t: u64|
                0 <= sq < 64 && t < 64 ==> #[trigger] bit64(r.4@[sq].0, t) == ray_reach(
                    0,
                    fl(sq),
                    rk(sq),
                    0,
                    -1,
                    fl(t as int),
                    rk(t as int),
                    8,
                ),
            forall|sq: int, t: u64|
                0 <= sq < 64 && t < 64 ==> #[trigger] bit64(r.5@[sq].0, t) == ray_reach(
                    0,
                    fl(sq),
                    rk(sq),
                    -1,
                    -1,
                    fl(t as int),
                    rk(t as int),
                    8,
                ),
            forall|sq: int, t: u64|
                0 <= sq < 64 && t < 64 ==> #[trigger] bit64(r.6@[sq].0, t) == ray_reach(
                    0,
                    fl(sq),
                    rk(sq),
                    -1,
                    0,
                    fl(t as int),
                    rk(t as int),
                    8,
                ),
            forall|sq: int, t: u64|
                0 <= sq < 64 && t < 64 ==> #[trigger] bit64(r.7@[sq].0, t) == ray_reach(
                    0,
                    fl(sq),
                    rk(sq),
                    -1,
                    1,
                    fl(t as int),
                    rk(t as int),
                    8,
                ),
    {
        (
            Self::generate_ray_table(0, 1),
            Self::generate_ray_table(1, 1),
            Self::generate_ray_table(1, 0),
            Self::generate_ray_table(1, -1),
            Self::generate_ray_table(0, -1),
            Self::generate_ray_table(-1, -1),
            Self::generate_ray_table(-1, 0),
            Self::generate_ray_table(-1, 1),
        )
    }

    /// Whether any piece of `by_color` attacks the given square.
    pub fn is_attacked(&self, square: ChessSquare, by_color: Color) -> (r: bool)
        requires
            self.wf(),
            square.wf(),
        ensures
            r == spec_attacked(*self, square.0 as int, by_color),
    {
        let mut a: u8 = 0;
        while a < 64
            invariant
                a <= 64,
                self.wf(),
                square.wf(),
                forall|x: int| 0 <= x < a ==> !spec_attacks_from(*self, x, square.0 as int, by_color),
            decreases 64 - a,
        {
            if let Some(p) = self.get_piece_at(ChessSquare(a)) {
                let same = match (p.color, by_color) {
                    (Color::White, Color::White) => true,
                    (Color::Black, Color::Black) => true,
                    _ => false,
                };
                if same && piece_attacks(self.all_pieces.0, p, a, square.0) {
                    proof {
                        assert(spec_attacks_from(*self, a as int, square.0 as int, by_color));
                    }
                    return true;
                }
            }
            proof {
                assert(!spec_attacks_from(*self, a as int, square.0 as int, by_color));
            }
            a = a + 1;
        }
        false
    }
}

} // verus!
