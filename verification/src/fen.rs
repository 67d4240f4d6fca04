//! Forsyth-Edwards Notation: a deterministic parser over the six
//! space-separated fields, and the canonical emitter.

use vstd::prelude::*;

use crate::castling::{spec_castling_fen, CastlingRights};
use crate::chess_board::ChessBoard;
use crate::chess_game::{ep_coherent, ChessGame};
use crate::chess_piece::{ChessPiece, Color, PieceType};
use crate::chess_square::{spec_file_char, spec_rank_char, spec_square_name, ChessSquare};
use crate::zobrist::spec_full_hash;

verus! {

/// The index of the first space at or after `i`, or the length if
/// there is none.
pub open spec fn next_space(s: Seq<char>, i: int) -> int
    decreases s.len() - i,
{
    if i < 0 || i >= s.len() {
        s.len() as int
    } else if s[i] == ' ' {
        i
    } else {
        next_space(s, i + 1)
    }
}

/// The placement field, walked left to right: `file` and `rank` are
/// the square the next entry fills, and `acc` the squares placed so
/// far. Ranks run 8 down to 1, separated by `/`, each summing to
/// eight files.
pub open spec fn parse_placement_rec(
    s: Seq<char>,
    i: int,
    end: int,
    file: int,
    rank: int,
    acc: Seq<Option<ChessPiece>>,
) -> Option<Seq<Option<ChessPiece>>>
    decreases end - i,
{
    if i < 0 || i >= end || end > s.len() {
        if rank == 0 && file == 8 {
            Some(acc)
        } else {
            None
        }
    } else {
        let c = s[i];
        if c == '/' {
            if file == 8 && rank >= 1 {
                parse_placement_rec(s, i + 1, end, 0, rank - 1, acc)
            } else {
                None
            }
        } else if 49 <= c as u32 <= 56 {
            if file + (c as u32 - 48) <= 8 {
                parse_placement_rec(s, i + 1, end, file + (c as u32 - 48), rank, acc)
            } else {
                None
            }
        } else {
            match PieceType::spec_from_char(c) {
                Some(t) => if file < 8 {
                    let color = if 65 <= c as u32 <= 90 {
                        Color::White
                    } else {
                        Color::Black
                    };
                    parse_placement_rec(
                        s,
                        i + 1,
                        end,
                        file + 1,
                        rank,
                        acc.update(rank * 8 + file, Some(ChessPiece { color, piece_type: t })),
                    )
                } else {
                    None
                },
                None => None,
            }
        }
    }
}

/// The castling field after `-` has been ruled out: letters drawn
/// from `KQkq` in that order, each at most once.
pub open spec fn parse_castling_rec(s: Seq<char>, i: int, end: int, prev: u8, acc: u8) -> Option<
    u8,
>
    decreases end - i,
{
    if i < 0 || i >= end || end > s.len() {
        Some(acc)
    } else {
        let b: u8 = if s[i] == 'K' {
            1
        } else if s[i] == 'Q' {
            2
        } else if s[i] == 'k' {
            4
        } else if s[i] == 'q' {
            8
        } else {
            0
        };
        if b != 0 && b > prev {
            parse_castling_rec(s, i + 1, end, b, (acc + b) as u8)
        } else {
            None
        }
    }
}

/// The castling field: `-` for no rights, else the letters held.
pub open spec fn parse_castling_field(s: Seq<char>, start: int, end: int) -> Option<u8> {
    if end - start == 1 && s[start] == '-' {
        Some(0)
    } else if end - start >= 1 {
        parse_castling_rec(s, start, end, 0, 0)
    } else {
        None
    }
}

/// A nonempty all-digit run read as a decimal number.
pub open spec fn parse_decimal_rec(s: Seq<char>, i: int, end: int, acc: int) -> Option<int>
    decreases end - i,
{
    if i < 0 || i >= end || end > s.len() {
        Some(acc)
    } else if 48 <= s[i] as u32 <= 57 {
        parse_decimal_rec(s, i + 1, end, acc * 10 + (s[i] as u32 - 48))
    } else {
        None
    }
}

pub open spec fn parse_decimal_field(s: Seq<char>, start: int, end: int) -> Option<int> {
    if end - start >= 1 {
        parse_decimal_rec(s, start, end, 0)
    } else {
        None
    }
}

/// The side field: exactly `w` or `b`.
pub open spec fn parse_side_field(s: Seq<char>, start: int, end: int) -> Option<Color> {
    if end - start == 1 && s[start] == 'w' {
        Some(Color::White)
    } else if end - start == 1 && s[start] == 'b' {
        Some(Color::Black)
    } else {
        None
    }
}

/// The en-passant field: `-`, or a square name on the right rank for
/// the side to move. `Ok(None)` is no square; `Err` is a malformed
/// field, encoded as an outer `None`.
pub open spec fn parse_ep_field(s: Seq<char>, start: int, end: int, side: Color) -> Option<
    Option<ChessSquare>,
> {
    if end - start == 1 && s[start] == '-' {
        Some(None)
    } else if end - start == 2 && 97 <= s[start] as u32 <= 104 && 49 <= s[start + 1] as u32 <= 56 {
        let e = ChessSquare((((s[start + 1] as u32 - 49) * 8 + (s[start] as u32 - 97))) as u8);
        if (side == Color::White && e.srank() == 5) || (side == Color::Black && e.srank() == 2) {
            Some(Some(e))
        } else {
            None
        }
    } else {
        None
    }
}

/// The whole FEN: six space-separated fields, each well-formed, with
/// the en-passant square coherent with the placement.
pub open spec fn spec_parse_fen(s: Seq<char>) -> Option<
    (Seq<Option<ChessPiece>>, Color, u8, Option<ChessSquare>, u32, u32),
> {
    let n = s.len() as int;
    let p0 = next_space(s, 0);
    let p1 = next_space(s, p0 + 1);
    let p2 = next_space(s, p1 + 1);
    let p3 = next_space(s, p2 + 1);
    let p4 = next_space(s, p3 + 1);
    let p5 = next_space(s, p4 + 1);
    if p0 >= n || p1 >= n || p2 >= n || p3 >= n || p4 >= n || p5 != n {
        None
    } else {
        let arr0 = parse_placement_rec(s, 0, p0, 0, 7, Seq::new(64, |i: int| None));
        let side0 = parse_side_field(s, p0 + 1, p1);
        let cr0 = parse_castling_field(s, p1 + 1, p2);
        let hm0 = parse_decimal_field(s, p3 + 1, p4);
        let fm0 = parse_decimal_field(s, p4 + 1, n);
        match (arr0, side0, cr0, hm0, fm0) {
            (Some(arr), Some(side), Some(cr), Some(hm), Some(fm)) => {
                match parse_ep_field(s, p2 + 1, p3, side) {
                    Some(ep) => if hm <= 0xffff_ffff && fm <= 0xffff_ffff && (match ep {
                        Some(e) => arr[e.0 as int] is None && (match side {
                            Color::White => arr[e.0 as int - 8] == Some(
                                ChessPiece { color: Color::Black, piece_type: PieceType::Pawn },
                            ),
                            Color::Black => arr[e.0 as int + 8] == Some(
                                ChessPiece { color: Color::White, piece_type: PieceType::Pawn },
                            ),
                        }),
                        None => true,
                    }) {
                        Some((arr, side, cr, ep, hm as u32, fm as u32))
                    } else {
                        None
                    },
                    None => None,
                }
            },
            _ => None,
        }
    }
}

/// One rank of the placement field, from `file` on, with `run` empty
/// squares pending.
pub open spec fn spec_rank_fen(b: ChessBoard, rank: int, file: int, run: int) -> Seq<char>
    decreases 8 - file,
{
    if file < 0 || file >= 8 {
        if run > 0 {
            seq![spec_digit_char(run)]
        } else {
            Seq::<char>::empty()
        }
    } else {
        match b.spec_piece_at((rank * 8 + file) as u64) {
            None => spec_rank_fen(b, rank, file + 1, run + 1),
            Some(p) => (if run > 0 {
                seq![spec_digit_char(run)]
            } else {
                Seq::<char>::empty()
            }) + seq![p.piece_type.spec_to_char(p.color)] + spec_rank_fen(b, rank, file + 1, 0),
        }
    }
}

/// A decimal digit as its character.
pub open spec fn spec_digit_char(d: int) -> char {
    if d == 0 {
        '0'
    } else if d == 1 {
        '1'
    } else if d == 2 {
        '2'
    } else if d == 3 {
        '3'
    } else if d == 4 {
        '4'
    } else if d == 5 {
        '5'
    } else if d == 6 {
        '6'
    } else if d == 7 {
        '7'
    } else if d == 8 {
        '8'
    } else {
        '9'
    }
}

/// A number in decimal, most significant digit first.
pub open spec fn spec_decimal(n: int) -> Seq<char>
    decreases n,
{
    if n <= 9 {
        seq![spec_digit_char(if n < 0 {
            0
        } else {
            n
        })]
    } else {
        spec_decimal(n / 10) + seq![spec_digit_char(n % 10)]
    }
}

/// The en-passant field text.
pub open spec fn spec_ep_fen(ep: Option<ChessSquare>) -> Seq<char> {
    match ep {
        Some(e) => spec_square_name(e.sfile(), e.srank()),
        None => seq!['-'],
    }
}

/// The canonical FEN of a position.
pub open spec fn spec_fen(g: ChessGame) -> Seq<char> {
    spec_board_ranks_fen(g.board, 7) + seq![' '] + seq![g.side_to_move.spec_to_char()] + seq![' ']
        + spec_castling_fen(g.castling_rights.0) + seq![' '] + spec_ep_fen(g.en_passant) + seq![' ']
        + spec_decimal(g.halfmove_clock as int) + seq![' '] + spec_decimal(
        g.fullmove_counter as int,
    )
}

/// The placement field: ranks 8 down to 1.
pub open spec fn spec_board_ranks_fen(b: ChessBoard, rank: int) -> Seq<char>
    decreases rank + 1,
{
    if rank <= 0 {
        spec_rank_fen(b, 0, 0, 0)
    } else {
        spec_rank_fen(b, rank, 0, 0) + seq!['/'] + spec_board_ranks_fen(b, rank - 1)
    }
}

/// A parsed decimal run is at least its accumulator.
proof fn lemma_decimal_ge(s: Seq<char>, i: int, end: int, acc: int)
    requires
        acc >= 0,
    ensures
        parse_decimal_rec(s, i, end, acc) matches Some(v) ==> v >= acc,
    decreases end - i,
{
    if !(i < 0 || i >= end || end > s.len()) {
        if 48 <= s[i] as u32 <= 57 {
            lemma_decimal_ge(s, i + 1, end, acc * 10 + (s[i] as u32 - 48));
        }
    }
}

/// Appends the FEN letter of a piece.
pub(crate) fn push_piece_char(s: &mut String, p: ChessPiece)
    ensures
        final(s)@ == old(s)@ + seq![p.piece_type.spec_to_char(p.color)],
{
    match (p.color, p.piece_type) {
        (Color::White, PieceType::Pawn) => {
            s.append("P");
            proof {
                reveal_strlit("P");
            }
        },
        (Color::White, PieceType::Knight) => {
            s.append("N");
            proof {
                reveal_strlit("N");
            }
        },
        (Color::White, PieceType::Bishop) => {
            s.append("B");
            proof {
                reveal_strlit("B");
            }
        },
        (Color::White, PieceType::Rook) => {
            s.append("R");
            proof {
                reveal_strlit("R");
            }
        },
        (Color::White, PieceType::Queen) => {
            s.append("Q");
            proof {
                reveal_strlit("Q");
            }
        },
        (Color::White, PieceType::King) => {
            s.append("K");
            proof {
                reveal_strlit("K");
            }
        },
        (Color::Black, PieceType::Pawn) => {
            s.append("p");
            proof {
                reveal_strlit("p");
            }
        },
        (Color::Black, PieceType::Knight) => {
            s.append("n");
            proof {
                reveal_strlit("n");
            }
        },
        (Color::Black, PieceType::Bishop) => {
            s.append("b");
            proof {
                reveal_strlit("b");
            }
        },
        (Color::Black, PieceType::Rook) => {
            s.append("r");
            proof {
                reveal_strlit("r");
            }
        },
        (Color::Black, PieceType::Queen) => {
            s.append("q");
            proof {
                reveal_strlit("q");
            }
        },
        (Color::Black, PieceType::King) => {
            s.append("k");
            proof {
                reveal_strlit("k");
            }
        },
    }
    proof {
        assert(s@ =~= old(s)@ + seq![p.piece_type.spec_to_char(p.color)]);
    }
}

/// Appends one decimal digit.
pub(crate) fn push_digit(s: &mut String, d: u8)
    requires
        d <= 9,
    ensures
        final(s)@ == old(s)@ + seq![spec_digit_char(d as int)],
{
    if d == 0 {
        s.append("0");
        proof {
            reveal_strlit("0");
        }
    } else if d == 1 {
        s.append("1");
        proof {
            reveal_strlit("1");
        }
    } else if d == 2 {
        s.append("2");
        proof {
            reveal_strlit("2");
        }
    } else if d == 3 {
        s.append("3");
        proof {
            reveal_strlit("3");
        }
    } else if d == 4 {
        s.append("4");
        proof {
            reveal_strlit("4");
        }
    } else if d == 5 {
        s.append("5");
        proof {
            reveal_strlit("5");
        }
    } else if d == 6 {
        s.append("6");
        proof {
            reveal_strlit("6");
        }
    } else if d == 7 {
        s.append("7");
        proof {
            reveal_strlit("7");
        }
    } else if d == 8 {
        s.append("8");
        proof {
            reveal_strlit("8");
        }
    } else {
        s.append("9");
        proof {
            reveal_strlit("9");
        }
    }
    proof {
        assert(s@ =~= old(s)@ + seq![spec_digit_char(d as int)]);
    }
}

/// Appends a number in decimal.
fn append_decimal(s: &mut String, n: u32)
    ensures
        final(s)@ == old(s)@ + spec_decimal(n as int),
    decreases n,
{
    if n > 9 {
        append_decimal(s, n / 10);
        push_digit(s, (n % 10) as u8);
        proof {
            assert(s@ =~= old(s)@ + spec_decimal(n as int));
        }
    } else {
        push_digit(s, n as u8);
    }
}

/// Finds the first space at or after `start`.
fn find_space(s: &str, start: usize) -> (r: usize)
    requires
        start <= s@.len(),
    ensures
        r == next_space(s@, start as int),
        start <= r <= s@.len(),
{
    let n = s.unicode_len();
    let mut i: usize = start;
    while i < n
        invariant
            start <= i <= n,
            n == s@.len(),
            next_space(s@, start as int) == next_space(s@, i as int),
        decreases n - i,
    {
        if s.get_char(i) == ' ' {
            return i;
        }
        i = i + 1;
    }
    n
}

/// Builds a coherent board holding exactly the pieces of the array.
fn board_from_array(arr: &Vec<Option<ChessPiece>>) -> (r: ChessBoard)
    requires
        arr@.len() == 64,
    ensures
        r.wf(),
        forall|sq: u64| sq < 64 ==> #[trigger] r.spec_piece_at(sq) == arr@[sq as int],
{
    let mut b = ChessBoard::empty();
    let mut sq: u8 = 0;
    while sq < 64
        invariant
            sq <= 64,
            arr@.len() == 64,
            b.wf(),
            forall|j: u64| j < sq ==> #[trigger] b.spec_piece_at(j) == arr@[j as int],
            forall|j: u64| sq <= j < 64 ==> #[trigger] b.spec_piece_at(j) is None,
        decreases 64 - sq,
    {
        if let Some(p) = arr[sq as usize] {
            proof {
                b.lemma_bb_in_all(sq as u64);
                b.lemma_add_piece_wf(p, sq as u64);
            }
            b.add_piece(p, ChessSquare(sq));
        }
        sq = sq + 1;
    }
    b
}

impl ChessGame {
    /// Parses a FEN string; a malformed one is rejected whole.
    pub fn from_fen(fen: &str) -> (r: Result<ChessGame, &'static str>)
        ensures
            (r is Ok) == (spec_parse_fen(fen@) is Some),
            r matches Ok(g) ==> ({
                let t = spec_parse_fen(fen@).unwrap();
                &&& g.wf()
                &&& forall|sq: u64|
                    sq < 64 ==> #[trigger] g.board.spec_piece_at(sq) == t.0[sq as int]
                &&& g.side_to_move == t.1
                &&& g.castling_rights.0 == t.2
                &&& g.en_passant == t.3
                &&& g.halfmove_clock == t.4
                &&& g.fullmove_counter == t.5
                &&& g.history@.len() == 0
            }),
    {
        let n = fen.unicode_len();
        let p0 = find_space(fen, 0);
        if p0 >= n {
            return Err("FEN is missing fields");
        }
        let p1 = find_space(fen, p0 + 1);
        if p1 >= n {
            return Err("FEN is missing fields");
        }
        let p2 = find_space(fen, p1 + 1);
        if p2 >= n {
            return Err("FEN is missing fields");
        }
        let p3 = find_space(fen, p2 + 1);
        if p3 >= n {
            return Err("FEN is missing fields");
        }
        let p4 = find_space(fen, p3 + 1);
        if p4 >= n {
            return Err("FEN is missing fields");
        }
        let p5 = find_space(fen, p4 + 1);
        if p5 != n {
            return Err("FEN has extra fields");
        }
        // Field 1: piece placement.
        let mut arr: Vec<Option<ChessPiece>> = Vec::new();
        let mut k: usize = 0;
        while k < 64
            invariant
                k <= 64,
                arr@.len() == k as int,
                forall|j: int| 0 <= j < k as int ==> arr@[j] is None,
            decreases 64 - k,
        {
            arr.push(None);
            k = k + 1;
        }
        proof {
            assert(arr@ =~= Seq::new(64, |i: int| None::<ChessPiece>));
        }
        let mut i: usize = 0;
        let mut file: u8 = 0;
        let mut rank: u8 = 7;
        while i < p0
            invariant
                i <= p0,
                p0 <= n,
                n == fen@.len(),
                p0 == next_space(fen@, 0) && p0 < n,
                p1 == next_space(fen@, p0 as int + 1) && p1 < n,
                p2 == next_space(fen@, p1 as int + 1) && p2 < n,
                p3 == next_space(fen@, p2 as int + 1) && p3 < n,
                p4 == next_space(fen@, p3 as int + 1) && p4 < n,
                next_space(fen@, p4 as int + 1) == n,
                file <= 8,
                rank <= 7,
                arr@.len() == 64,
                parse_placement_rec(
                    fen@,
                    0,
                    p0 as int,
                    0,
                    7,
                    Seq::new(64, |x: int| None::<ChessPiece>),
                ) == parse_placement_rec(
                    fen@,
                    i as int,
                    p0 as int,
                    file as int,
                    rank as int,
                    arr@,
                ),
            decreases p0 - i,
        {
            let c = fen.get_char(i);
            let v = c as u32;
            if c == '/' {
                if !(file == 8 && rank >= 1) {
                    return Err("Malformed FEN rank");
                }
                rank = rank - 1;
                file = 0;
            } else if 49 <= v && v <= 56 {
                let d = (v - 48) as u8;
                if file + d > 8 {
                    return Err("FEN rank is too long");
                }
                file = file + d;
            } else {
                let t = match PieceType::from_char(c) {
                    Some(t) => t,
                    None => {
                        return Err("Bad piece letter");
                    },
                };
                if file >= 8 {
                    return Err("FEN rank is too long");
                }
                let color = if 65 <= v && v <= 90 {
                    Color::White
                } else {
                    Color::Black
                };
                let piece = ChessPiece { color, piece_type: t };
                arr[(rank * 8 + file) as usize] = Some(piece);
                file = file + 1;
            }
            i = i + 1;
        }
        if !(file == 8 && rank == 0) {
            return Err("FEN board is incomplete");
        }
        // Field 2: side to move.
        if p1 != p0 + 2 {
            return Err("Bad side to move");
        }
        let sc = fen.get_char(p0 + 1);
        let side = if sc == 'w' {
            Color::White
        } else if sc == 'b' {
            Color::Black
        } else {
            return Err("Bad side to move");
        };
        // Field 3: castling rights.
        let cstart = p1 + 1;
        let mut cr: u8 = 0;
        if p2 == cstart + 1 && fen.get_char(cstart) == '-' {
            cr = 0;
        } else {
            if p2 <= cstart {
                return Err("Bad castling field");
            }
            let mut j: usize = cstart;
            let mut prev: u8 = 0;
            while j < p2
                invariant
                    cstart <= j <= p2,
                    cstart == p1 + 1,
                    p2 <= n,
                    n == fen@.len(),
                p0 == next_space(fen@, 0) && p0 < n,
                p1 == next_space(fen@, p0 as int + 1) && p1 < n,
                p2 == next_space(fen@, p1 as int + 1) && p2 < n,
                p3 == next_space(fen@, p2 as int + 1) && p3 < n,
                p4 == next_space(fen@, p3 as int + 1) && p4 < n,
                next_space(fen@, p4 as int + 1) == n,
                    parse_placement_rec(
                        fen@,
                        0,
                        p0 as int,
                        0,
                        7,
                        Seq::new(64, |x: int| None::<ChessPiece>),
                    ) == Some(arr@),
                    file == 8 && rank == 0,
                    parse_side_field(fen@, p0 as int + 1, p1 as int) == Some(side),
                    !(p2 == cstart + 1 && fen@[cstart as int] == '-'),
                    prev == 0 ==> cr == 0,
                    prev > 0 ==> cr < 2 * prev,
                    prev == 0 || prev == 1 || prev == 2 || prev == 4 || prev == 8,
                    parse_castling_rec(fen@, cstart as int, p2 as int, 0, 0)
                        == parse_castling_rec(fen@, j as int, p2 as int, prev, cr),
                decreases p2 - j,
            {
                let c = fen.get_char(j);
                let b: u8 = if c == 'K' {
                    1
                } else if c == 'Q' {
                    2
                } else if c == 'k' {
                    4
                } else if c == 'q' {
                    8
                } else {
                    0
                };
                if !(b != 0 && b > prev) {
                    return Err("Bad castling field");
                }
                cr = cr + b;
                prev = b;
                j = j + 1;
            }
        }
        // Field 4: en passant.
        let estart = p2 + 1;
        let ep: Option<ChessSquare> = if p3 == estart + 1 && fen.get_char(estart) == '-' {
            None
        } else if p3 == estart + 2 {
            let c0 = fen.get_char(estart) as u32;
            let c1 = fen.get_char(estart + 1) as u32;
            if !(97 <= c0 && c0 <= 104 && 49 <= c1 && c1 <= 56) {
                return Err("Bad en passant square");
            }
            let e = ChessSquare((((c1 - 49) * 8 + (c0 - 97))) as u8);
            let rank_ok = match side {
                Color::White => e.0 / 8 == 5,
                Color::Black => e.0 / 8 == 2,
            };
            if !rank_ok {
                return Err("En passant square on wrong rank");
            }
            Some(e)
        } else {
            return Err("Bad en passant square");
        };
        // Fields 5 and 6: the clocks.
        let halfmove_clock = match Self::parse_clock(fen, p3 + 1, p4) {
            Ok(v) => v,
            Err(e) => {
                return Err(e);
            },
        };
        let fullmove_counter = match Self::parse_clock(fen, p4 + 1, n) {
            Ok(v) => v,
            Err(e) => {
                return Err(e);
            },
        };
        // The en-passant square must sit over the double-pushed pawn.
        if let Some(e) = ep {
            if arr[e.0 as usize].is_some() {
                return Err("En passant square is occupied");
            }
            let vs: usize = match side {
                Color::White => e.0 as usize - 8,
                Color::Black => e.0 as usize + 8,
            };
            let want = ChessPiece {
                color: side.opposite(),
                piece_type: PieceType::Pawn,
            };
            let ok = match arr[vs] {
                Some(q) => q == want,
                None => false,
            };
            if !ok {
                return Err("En passant square has no pawn behind it");
            }
        }
        let board = board_from_array(&arr);
        let g = Self::from_parts(board, side, CastlingRights(cr), ep, halfmove_clock,
            fullmove_counter);
        proof {
            assert(g.ep_wf());
            assert(g.wf());
            assert(spec_parse_fen(fen@) == Some(
                (arr@, side, cr, ep, halfmove_clock, fullmove_counter),
            ));
        }
        Ok(g)
    }

    /// The canonical FEN of the position.
    pub fn to_fen(&self) -> (r: String)
        requires
            self.castling_rights.0 < 16,
            self.en_passant matches Some(e) ==> e.wf(),
        ensures
            r@ == spec_fen(*self),
    {
        let mut s = String::new();
        let b = &self.board;
        let mut idx: u8 = 0;
        while idx < 8
            invariant
                idx <= 8,
                b == &self.board,
                s@ + (if idx < 8 {
                    spec_board_ranks_fen(self.board, 7 - idx as int)
                } else {
                    Seq::<char>::empty()
                }) == spec_board_ranks_fen(self.board, 7),
            decreases 8 - idx,
        {
            let rank: u8 = 7 - idx;
            let ghost s0 = s@;
            let mut file: u8 = 0;
            let mut run: u8 = 0;
            while file < 8
                invariant
                    file <= 8,
                    run <= file,
                    rank <= 7,
                    b == &self.board,
                    s0 + spec_rank_fen(self.board, rank as int, 0, 0) == s@ + spec_rank_fen(
                        self.board,
                        rank as int,
                        file as int,
                        run as int,
                    ),
                decreases 8 - file,
            {
                match b.get_piece_at(ChessSquare(rank * 8 + file)) {
                    None => {
                        run = run + 1;
                    },
                    Some(p) => {
                        if run > 0 {
                            push_digit(&mut s, run);
                        }
                        push_piece_char(&mut s, p);
                        run = 0;
                    },
                }
                file = file + 1;
            }
            if run > 0 {
                push_digit(&mut s, run);
            }
            proof {
                assert(s@ == s0 + spec_rank_fen(self.board, rank as int, 0, 0));
            }
            if rank > 0 {
                s.append("/");
                proof {
                    reveal_strlit("/");
                    assert(s@ =~= s0 + (spec_rank_fen(self.board, rank as int, 0, 0) + seq!['/']));
                }
            }
            idx = idx + 1;
        }
        s.append(" ");
        proof {
            reveal_strlit(" ");
        }
        match self.side_to_move {
            Color::White => {
                s.append("w");
                proof {
                    reveal_strlit("w");
                }
            },
            Color::Black => {
                s.append("b");
                proof {
                    reveal_strlit("b");
                }
            },
        }
        s.append(" ");
        proof {
            reveal_strlit(" ");
        }
        let c = self.castling_rights.to_fen();
        s.append(c.as_str());
        s.append(" ");
        proof {
            reveal_strlit(" ");
        }
        match self.en_passant {
            Some(e) => {
                let nm = e.name();
                s.append(nm.as_str());
            },
            None => {
                s.append("-");
                proof {
                    reveal_strlit("-");
                }
            },
        }
        s.append(" ");
        proof {
            reveal_strlit(" ");
        }
        append_decimal(&mut s, self.halfmove_clock);
        s.append(" ");
        proof {
            reveal_strlit(" ");
        }
        append_decimal(&mut s, self.fullmove_counter);
        proof {
            assert(s@ =~= spec_fen(*self));
        }
        s
    }

    /// Reads one clock field, rejecting non-digits and overflow.
    fn parse_clock(s: &str, start: usize, end: usize) -> (r: Result<u32, &'static str>)
        requires
            start <= s@.len(),
            end <= s@.len(),
        ensures
            r matches Ok(v) ==> parse_decimal_field(s@, start as int, end as int) == Some(v as int),
            r is Err ==> (parse_decimal_field(s@, start as int, end as int) is None
                || parse_decimal_field(s@, start as int, end as int).unwrap() > 0xffff_ffff),
    {
        if end <= start {
            return Err("Empty clock field");
        }
        let mut acc: u32 = 0;
        let mut i: usize = start;
        while i < end
            invariant
                start <= i <= end,
                end <= s@.len(),
                parse_decimal_rec(s@, start as int, end as int, 0) == parse_decimal_rec(
                    s@,
                    i as int,
                    end as int,
                    acc as int,
                ),
            decreases end - i,
        {
            let c = s.get_char(i);
            let v = c as u32;
            if !(48 <= v && v <= 57) {
                return Err("Clock is not a number");
            }
            let d = v - 48;
            if acc > 429496729 || (acc == 429496729 && d > 5) {
                proof {
                    lemma_decimal_ge(s@, i as int + 1, end as int, acc as int * 10 + d);
                }
                return Err("Clock is out of range");
            }
            acc = acc * 10 + d;
            i = i + 1;
        }
        Ok(acc)
    }
}

/// Elements of a concatenation satisfy a predicate when the elements
/// of both halves do.
proof fn lemma_all_concat(a: Seq<char>, b: Seq<char>, p: spec_fn(char) -> bool)
    requires
        forall|i: int| 0 <= i < a.len() ==> p(#[trigger] a[i]),
        forall|i: int| 0 <= i < b.len() ==> p(#[trigger] b[i]),
    ensures
        forall|i: int| 0 <= i < (a + b).len() ==> p(#[trigger] (a + b)[i]),
{
    assert forall|i: int| 0 <= i < (a + b).len() implies p((a + b)[i]) by {
        if i < a.len() {
            assert((a + b)[i] == a[i]);
        } else {
            assert((a + b)[i] == b[i - a.len()]);
        }
    }
}

/// The character code of a digit, and that a digit is not a space.
proof fn lemma_digit_char_facts(d: int)
    requires
        0 <= d <= 9,
    ensures
        spec_digit_char(d) as u32 == 48 + d,
        spec_digit_char(d) != ' ',
{
}

/// A decimal numeral is nonempty and made of digits alone.
proof fn lemma_decimal_digits(n: int)
    ensures
        spec_decimal(n).len() >= 1,
        forall|i: int|
            0 <= i < spec_decimal(n).len() ==> 48 <= (#[trigger] spec_decimal(n)[i]) as u32 <= 57,
    decreases n,
{
    if n <= 9 {
        lemma_digit_char_facts(if n < 0 {
            0
        } else {
            n
        });
    } else {
        lemma_decimal_digits(n / 10);
        lemma_digit_char_facts(n % 10);
        assert forall|i: int| 0 <= i < spec_decimal(n).len() implies 48 <= (
        #[trigger] spec_decimal(n)[i]) as u32 <= 57 by {
            if i < spec_decimal(n / 10).len() {
                assert(spec_decimal(n)[i] == spec_decimal(n / 10)[i]);
            } else {
                assert(spec_decimal(n)[i] == spec_digit_char(n % 10));
            }
        }
    }
}

/// The FEN letter of a piece: which piece it reads back as, its case
/// against its colour, and that it is neither a space, a slash nor a
/// rank digit.
proof fn lemma_piece_char_facts(c: Color, t: PieceType)
    ensures
        PieceType::spec_from_char(t.spec_to_char(c)) == Some(t),
        (65 <= t.spec_to_char(c) as u32 <= 90) == (c == Color::White),
        t.spec_to_char(c) != ' ',
        t.spec_to_char(c) != '/',
        !(49 <= t.spec_to_char(c) as u32 <= 56),
{
    match c {
        Color::White => match t {
            PieceType::Pawn => {},
            PieceType::Knight => {},
            PieceType::Bishop => {},
            PieceType::Rook => {},
            PieceType::Queen => {},
            PieceType::King => {},
        },
        Color::Black => match t {
            PieceType::Pawn => {},
            PieceType::Knight => {},
            PieceType::Bishop => {},
            PieceType::Rook => {},
            PieceType::Queen => {},
            PieceType::King => {},
        },
    }
}

/// The text of one emitted rank holds no space.
proof fn lemma_rank_fen_no_space(b: ChessBoard, rank: int, file: int, run: int)
    requires
        0 <= file <= 8,
        0 <= run <= file,
    ensures
        forall|i: int|
            0 <= i < spec_rank_fen(b, rank, file, run).len() ==> (
            #[trigger] spec_rank_fen(b, rank, file, run)[i]) != ' ',
    decreases 8 - file,
{
    let p = |c: char| c != ' ';
    if file < 0 || file >= 8 {
        if run > 0 {
            lemma_digit_char_facts(run);
        }
    } else {
        match b.spec_piece_at((rank * 8 + file) as u64) {
            None => {
                lemma_rank_fen_no_space(b, rank, file + 1, run + 1);
                assert(spec_rank_fen(b, rank, file, run) == spec_rank_fen(
                    b,
                    rank,
                    file + 1,
                    run + 1,
                ));
            },
            Some(q) => {
                lemma_piece_char_facts(q.color, q.piece_type);
                lemma_rank_fen_no_space(b, rank, file + 1, 0);
                if run > 0 {
                    lemma_digit_char_facts(run);
                }
                let head = if run > 0 {
                    seq![spec_digit_char(run)]
                } else {
                    Seq::<char>::empty()
                };
                lemma_all_concat(head, seq![q.piece_type.spec_to_char(q.color)], p);
                lemma_all_concat(
                    head + seq![q.piece_type.spec_to_char(q.color)],
                    spec_rank_fen(b, rank, file + 1, 0),
                    p,
                );
                assert(spec_rank_fen(b, rank, file, run) == (head + seq![
                    q.piece_type.spec_to_char(q.color),
                ]) + spec_rank_fen(b, rank, file + 1, 0));
            },
        }
    }
}

/// The whole emitted placement field holds no space.
proof fn lemma_ranks_fen_no_space(b: ChessBoard, rank: int)
    ensures
        forall|i: int|
            0 <= i < spec_board_ranks_fen(b, rank).len() ==> (
            #[trigger] spec_board_ranks_fen(b, rank)[i]) != ' ',
    decreases rank + 1,
{
    let p = |c: char| c != ' ';
    if rank <= 0 {
        lemma_rank_fen_no_space(b, 0, 0, 0);
    } else {
        lemma_rank_fen_no_space(b, rank, 0, 0);
        lemma_ranks_fen_no_space(b, rank - 1);
        lemma_all_concat(spec_rank_fen(b, rank, 0, 0), seq!['/'], p);
        lemma_all_concat(
            spec_rank_fen(b, rank, 0, 0) + seq!['/'],
            spec_board_ranks_fen(b, rank - 1),
            p,
        );
    }
}

/// The emitted castling field is nonempty and holds no space.
proof fn lemma_castling_fen_no_space(m: u8)
    ensures
        spec_castling_fen(m).len() >= 1,
        forall|i: int|
            0 <= i < spec_castling_fen(m).len() ==> (#[trigger] spec_castling_fen(m)[i]) != ' ',
{
    let p = |c: char| c != ' ';
    if m & 15 == 0 {
    } else {
        let c1 = if m & 1 != 0 {
            seq!['K']
        } else {
            Seq::<char>::empty()
        };
        let c2 = if m & 2 != 0 {
            seq!['Q']
        } else {
            Seq::<char>::empty()
        };
        let c3 = if m & 4 != 0 {
            seq!['k']
        } else {
            Seq::<char>::empty()
        };
        let c4 = if m & 8 != 0 {
            seq!['q']
        } else {
            Seq::<char>::empty()
        };
        lemma_all_concat(c1, c2, p);
        lemma_all_concat(c1 + c2, c3, p);
        lemma_all_concat(c1 + c2 + c3, c4, p);
        assert(m & 1 != 0 || m & 2 != 0 || m & 4 != 0 || m & 8 != 0) by {
            crate::castling::lemma_low_bits(m);
        }
    }
}

/// The emitted en-passant field is nonempty and holds no space.
proof fn lemma_ep_fen_no_space(ep: Option<ChessSquare>)
    requires
        ep matches Some(e) ==> e.wf(),
    ensures
        spec_ep_fen(ep).len() >= 1,
        forall|i: int| 0 <= i < spec_ep_fen(ep).len() ==> (#[trigger] spec_ep_fen(ep)[i]) != ' ',
{
    match ep {
        Some(e) => {
            crate::chess_square::lemma_square_name_chars(e.sfile(), e.srank());
        },
        None => {},
    }
}

/// The first space at or after `i` stands at `j` when everything
/// before `j` in that range is something else and `j` is a space or
/// the end.
proof fn lemma_next_space_at(s: Seq<char>, i: int, j: int)
    requires
        0 <= i <= j <= s.len(),
        forall|k: int| i <= k < j ==> (#[trigger] s[k]) != ' ',
        j == s.len() || s[j] == ' ',
    ensures
        next_space(s, i) == j,
    decreases j - i,
{
    if i < j {
        lemma_next_space_at(s, i + 1, j);
    }
}

/// Reading a digit run splits at any midpoint: the value read so far
/// feeds the rest of the digits.
proof fn lemma_parse_decimal_split(s: Seq<char>, i: int, mid: int, end: int, acc: int)
    requires
        0 <= i <= mid <= end <= s.len(),
    ensures
        parse_decimal_rec(s, i, end, acc) == (match parse_decimal_rec(s, i, mid, acc) {
            Some(v) => parse_decimal_rec(s, mid, end, v),
            None => None,
        }),
    decreases mid - i,
{
    if i < mid {
        if 48 <= s[i] as u32 <= 57 {
            lemma_parse_decimal_split(s, i + 1, mid, end, acc * 10 + (s[i] as u32 - 48));
        }
    }
}

/// Parsing a number's own numeral gives the number back.
proof fn lemma_parse_decimal_emitted(s: Seq<char>, i: int, n: int)
    requires
        0 <= n,
        0 <= i,
        i + spec_decimal(n).len() <= s.len(),
        s.subrange(i, i + spec_decimal(n).len()) == spec_decimal(n),
    ensures
        parse_decimal_rec(s, i, i + spec_decimal(n).len(), 0) == Some(n),
    decreases n,
{
    if n <= 9 {
        lemma_digit_char_facts(n);
        assert(s[i] == s.subrange(i, i + 1)[0]);
        assert(s[i] == spec_decimal(n)[0]);
        assert(parse_decimal_rec(s, i, i + 1, 0) == parse_decimal_rec(s, i + 1, i + 1, n));
    } else {
        let d1 = spec_decimal(n / 10);
        let l1 = d1.len() as int;
        let l = spec_decimal(n).len() as int;
        assert(spec_decimal(n) == d1 + seq![spec_digit_char(n % 10)]);
        assert(s.subrange(i, i + l1) =~= d1) by {
            assert forall|k: int| 0 <= k < l1 implies s.subrange(i, i + l1)[k] == d1[k] by {
                assert(s[i + k] == s.subrange(i, i + l)[k]);
                assert(s[i + k] == spec_decimal(n)[k]);
            }
        }
        lemma_parse_decimal_emitted(s, i, n / 10);
        lemma_parse_decimal_split(s, i, i + l1, i + l, 0);
        lemma_digit_char_facts(n % 10);
        assert(s[i + l1] == s.subrange(i, i + l)[l1]);
        assert(s[i + l1] == spec_decimal(n)[l1]);
        assert(parse_decimal_rec(s, i + l1, i + l, n / 10) == parse_decimal_rec(
            s,
            i + l,
            i + l,
            (n / 10) * 10 + n % 10,
        ));
        assert((n / 10) * 10 + n % 10 == n);
    }
}

/// Parsing the emitted castling field gives the mask back.
proof fn lemma_parse_castling_emitted(s: Seq<char>, i: int, m: u8)
    requires
        m < 16,
        0 <= i,
        i + spec_castling_fen(m).len() <= s.len(),
        s.subrange(i, i + spec_castling_fen(m).len()) == spec_castling_fen(m),
    ensures
        parse_castling_field(s, i, i + spec_castling_fen(m).len()) == Some(m),
{
    crate::castling::lemma_low_bits(m);
    let end = i + spec_castling_fen(m).len();
    if m == 0 {
        assert(s[i] == s.subrange(i, end)[0]);
        assert(s[i] == '-');
    }
    if m == 1 {
        assert(spec_castling_fen(m) =~= seq!['K']);
        assert(s[i + 0] == s.subrange(i, end)[0]);
        assert(s[i + 0] == 'K');
        assert(parse_castling_rec(s, i + 0, end, 0, 0) == parse_castling_rec(s, i + 1, end, 1, 1));
        assert(parse_castling_rec(s, i + 1, end, 1, 1) == Some(1u8));
    }
    if m == 2 {
        assert(spec_castling_fen(m) =~= seq!['Q']);
        assert(s[i + 0] == s.subrange(i, end)[0]);
        assert(s[i + 0] == 'Q');
        assert(parse_castling_rec(s, i + 0, end, 0, 0) == parse_castling_rec(s, i + 1, end, 2, 2));
        assert(parse_castling_rec(s, i + 1, end, 2, 2) == Some(2u8));
    }
    if m == 3 {
        assert(spec_castling_fen(m) =~= seq!['K', 'Q']);
        assert(s[i + 0] == s.subrange(i, end)[0]);
        assert(s[i + 0] == 'K');
        assert(s[i + 1] == s.subrange(i, end)[1]);
        assert(s[i + 1] == 'Q');
        assert(parse_castling_rec(s, i + 0, end, 0, 0) == parse_castling_rec(s, i + 1, end, 1, 1));
        assert(parse_castling_rec(s, i + 1, end, 1, 1) == parse_castling_rec(s, i + 2, end, 2, 3));
        assert(parse_castling_rec(s, i + 2, end, 2, 3) == Some(3u8));
    }
    if m == 4 {
        assert(spec_castling_fen(m) =~= seq!['k']);
        assert(s[i + 0] == s.subrange(i, end)[0]);
        assert(s[i + 0] == 'k');
        assert(parse_castling_rec(s, i + 0, end, 0, 0) == parse_castling_rec(s, i + 1, end, 4, 4));
        assert(parse_castling_rec(s, i + 1, end, 4, 4) == Some(4u8));
    }
    if m == 5 {
        assert(spec_castling_fen(m) =~= seq!['K', 'k']);
        assert(s[i + 0] == s.subrange(i, end)[0]);
        assert(s[i + 0] == 'K');
        assert(s[i + 1] == s.subrange(i, end)[1]);
        assert(s[i + 1] == 'k');
        assert(parse_castling_rec(s, i + 0, end, 0, 0) == parse_castling_rec(s, i + 1, end, 1, 1));
        assert(parse_castling_rec(s, i + 1, end, 1, 1) == parse_castling_rec(s, i + 2, end, 4, 5));
        assert(parse_castling_rec(s, i + 2, end, 4, 5) == Some(5u8));
    }
    if m == 6 {
        assert(spec_castling_fen(m) =~= seq!['Q', 'k']);
        assert(s[i + 0] == s.subrange(i, end)[0]);
        assert(s[i + 0] == 'Q');
        assert(s[i + 1] == s.subrange(i, end)[1]);
        assert(s[i + 1] == 'k');
        assert(parse_castling_rec(s, i + 0, end, 0, 0) == parse_castling_rec(s, i + 1, end, 2, 2));
        assert(parse_castling_rec(s, i + 1, end, 2, 2) == parse_castling_rec(s, i + 2, end, 4, 6));
        assert(parse_castling_rec(s, i + 2, end, 4, 6) == Some(6u8));
    }
    if m == 7 {
        assert(spec_castling_fen(m) =~= seq!['K', 'Q', 'k']);
        assert(s[i + 0] == s.subrange(i, end)[0]);
        assert(s[i + 0] == 'K');
        assert(s[i + 1] == s.subrange(i, end)[1]);
        assert(s[i + 1] == 'Q');
        assert(s[i + 2] == s.subrange(i, end)[2]);
        assert(s[i + 2] == 'k');
        assert(parse_castling_rec(s, i + 0, end, 0, 0) == parse_castling_rec(s, i + 1, end, 1, 1));
        assert(parse_castling_rec(s, i + 1, end, 1, 1) == parse_castling_rec(s, i + 2, end, 2, 3));
        assert(parse_castling_rec(s, i + 2, end, 2, 3) == parse_castling_rec(s, i + 3, end, 4, 7));
        assert(parse_castling_rec(s, i + 3, end, 4, 7) == Some(7u8));
    }
    if m == 8 {
        assert(spec_castling_fen(m) =~= seq!['q']);
        assert(s[i + 0] == s.subrange(i, end)[0]);
        assert(s[i + 0] == 'q');
        assert(parse_castling_rec(s, i + 0, end, 0, 0) == parse_castling_rec(s, i + 1, end, 8, 8));
        assert(parse_castling_rec(s, i + 1, end, 8, 8) == Some(8u8));
    }
    if m == 9 {
        assert(spec_castling_fen(m) =~= seq!['K', 'q']);
        assert(s[i + 0] == s.subrange(i, end)[0]);
        assert(s[i + 0] == 'K');
        assert(s[i + 1] == s.subrange(i, end)[1]);
        assert(s[i + 1] == 'q');
        assert(parse_castling_rec(s, i + 0, end, 0, 0) == parse_castling_rec(s, i + 1, end, 1, 1));
        assert(parse_castling_rec(s, i + 1, end, 1, 1) == parse_castling_rec(s, i + 2, end, 8, 9));
        assert(parse_castling_rec(s, i + 2, end, 8, 9) == Some(9u8));
    }
    if m == 10 {
        assert(spec_castling_fen(m) =~= seq!['Q', 'q']);
        assert(s[i + 0] == s.subrange(i, end)[0]);
        assert(s[i + 0] == 'Q');
        assert(s[i + 1] == s.subrange(i, end)[1]);
        assert(s[i + 1] == 'q');
        assert(parse_castling_rec(s, i + 0, end, 0, 0) == parse_castling_rec(s, i + 1, end, 2, 2));
        assert(parse_castling_rec(s, i + 1, end, 2, 2) == parse_castling_rec(s, i + 2, end, 8, 10));
        assert(parse_castling_rec(s, i + 2, end, 8, 10) == Some(10u8));
    }
    if m == 11 {
        assert(spec_castling_fen(m) =~= seq!['K', 'Q', 'q']);
        assert(s[i + 0] == s.subrange(i, end)[0]);
        assert(s[i + 0] == 'K');
        assert(s[i + 1] == s.subrange(i, end)[1]);
        assert(s[i + 1] == 'Q');
        assert(s[i + 2] == s.subrange(i, end)[2]);
        assert(s[i + 2] == 'q');
        assert(parse_castling_rec(s, i + 0, end, 0, 0) == parse_castling_rec(s, i + 1, end, 1, 1));
        assert(parse_castling_rec(s, i + 1, end, 1, 1) == parse_castling_rec(s, i + 2, end, 2, 3));
        assert(parse_castling_rec(s, i + 2, end, 2, 3) == parse_castling_rec(s, i + 3, end, 8, 11));
        assert(parse_castling_rec(s, i + 3, end, 8, 11) == Some(11u8));
    }
    if m == 12 {
        assert(spec_castling_fen(m) =~= seq!['k', 'q']);
        assert(s[i + 0] == s.subrange(i, end)[0]);
        assert(s[i + 0] == 'k');
        assert(s[i + 1] == s.subrange(i, end)[1]);
        assert(s[i + 1] == 'q');
        assert(parse_castling_rec(s, i + 0, end, 0, 0) == parse_castling_rec(s, i + 1, end, 4, 4));
        assert(parse_castling_rec(s, i + 1, end, 4, 4) == parse_castling_rec(s, i + 2, end, 8, 12));
        assert(parse_castling_rec(s, i + 2, end, 8, 12) == Some(12u8));
    }
    if m == 13 {
        assert(spec_castling_fen(m) =~= seq!['K', 'k', 'q']);
        assert(s[i + 0] == s.subrange(i, end)[0]);
        assert(s[i + 0] == 'K');
        assert(s[i + 1] == s.subrange(i, end)[1]);
        assert(s[i + 1] == 'k');
        assert(s[i + 2] == s.subrange(i, end)[2]);
        assert(s[i + 2] == 'q');
        assert(parse_castling_rec(s, i + 0, end, 0, 0) == parse_castling_rec(s, i + 1, end, 1, 1));
        assert(parse_castling_rec(s, i + 1, end, 1, 1) == parse_castling_rec(s, i + 2, end, 4, 5));
        assert(parse_castling_rec(s, i + 2, end, 4, 5) == parse_castling_rec(s, i + 3, end, 8, 13));
        assert(parse_castling_rec(s, i + 3, end, 8, 13) == Some(13u8));
    }
    if m == 14 {
        assert(spec_castling_fen(m) =~= seq!['Q', 'k', 'q']);
        assert(s[i + 0] == s.subrange(i, end)[0]);
        assert(s[i + 0] == 'Q');
        assert(s[i + 1] == s.subrange(i, end)[1]);
        assert(s[i + 1] == 'k');
        assert(s[i + 2] == s.subrange(i, end)[2]);
        assert(s[i + 2] == 'q');
        assert(parse_castling_rec(s, i + 0, end, 0, 0) == parse_castling_rec(s, i + 1, end, 2, 2));
        assert(parse_castling_rec(s, i + 1, end, 2, 2) == parse_castling_rec(s, i + 2, end, 4, 6));
        assert(parse_castling_rec(s, i + 2, end, 4, 6) == parse_castling_rec(s, i + 3, end, 8, 14));
        assert(parse_castling_rec(s, i + 3, end, 8, 14) == Some(14u8));
    }
    if m == 15 {
        assert(spec_castling_fen(m) =~= seq!['K', 'Q', 'k', 'q']);
        assert(s[i + 0] == s.subrange(i, end)[0]);
        assert(s[i + 0] == 'K');
        assert(s[i + 1] == s.subrange(i, end)[1]);
        assert(s[i + 1] == 'Q');
        assert(s[i + 2] == s.subrange(i, end)[2]);
        assert(s[i + 2] == 'k');
        assert(s[i + 3] == s.subrange(i, end)[3]);
        assert(s[i + 3] == 'q');
        assert(parse_castling_rec(s, i + 0, end, 0, 0) == parse_castling_rec(s, i + 1, end, 1, 1));
        assert(parse_castling_rec(s, i + 1, end, 1, 1) == parse_castling_rec(s, i + 2, end, 2, 3));
        assert(parse_castling_rec(s, i + 2, end, 2, 3) == parse_castling_rec(s, i + 3, end, 4, 7));
        assert(parse_castling_rec(s, i + 3, end, 4, 7) == parse_castling_rec(s, i + 4, end, 8, 15));
        assert(parse_castling_rec(s, i + 4, end, 8, 15) == Some(15u8));
    }
}

/// The board's placement, square by square.
pub open spec fn board_array(b: ChessBoard) -> Seq<Option<ChessPiece>> {
    Seq::new(64, |sq: int| b.spec_piece_at(sq as u64))
}

/// `acc` with the occupied squares of one rank, from `file` on,
/// written in.
spec fn fill_rank_occ(
    acc: Seq<Option<ChessPiece>>,
    b: ChessBoard,
    rank: int,
    file: int,
) -> Seq<Option<ChessPiece>>
    decreases 8 - file,
{
    if file < 0 || file >= 8 {
        acc
    } else {
        let sq = rank * 8 + file;
        let acc2 = match b.spec_piece_at(sq as u64) {
            Some(p) => acc.update(sq, Some(p)),
            None => acc,
        };
        fill_rank_occ(acc2, b, rank, file + 1)
    }
}

/// `acc` with the occupied squares of ranks `rank` down to the first
/// written in.
spec fn fill_ranks(acc: Seq<Option<ChessPiece>>, b: ChessBoard, rank: int) -> Seq<
    Option<ChessPiece>,
>
    decreases rank + 1,
{
    if rank < 0 {
        acc
    } else {
        fill_ranks(fill_rank_occ(acc, b, rank, 0), b, rank - 1)
    }
}

/// What one rank's fill writes: the occupied squares of that rank at
/// or after `file`; everything else keeps its `acc` entry.
proof fn lemma_fill_rank_occ_char(acc: Seq<Option<ChessPiece>>, b: ChessBoard, rank: int, file: int)
    requires
        0 <= rank <= 7,
        0 <= file,
        acc.len() == 64,
    ensures
        fill_rank_occ(acc, b, rank, file).len() == 64,
        forall|idx: int|
            0 <= idx < 64 ==> #[trigger] fill_rank_occ(acc, b, rank, file)[idx] == (if rank * 8
                + file <= idx < rank * 8 + 8 && b.spec_piece_at(idx as u64) is Some {
                b.spec_piece_at(idx as u64)
            } else {
                acc[idx]
            }),
    decreases 8 - file,
{
    if file < 8 {
        let sq = rank * 8 + file;
        let acc2 = match b.spec_piece_at(sq as u64) {
            Some(p) => acc.update(sq, Some(p)),
            None => acc,
        };
        lemma_fill_rank_occ_char(acc2, b, rank, file + 1);
    }
}

/// What filling the ranks down from `rank` writes: every occupied
/// square below the next rank boundary.
proof fn lemma_fill_ranks_char(acc: Seq<Option<ChessPiece>>, b: ChessBoard, rank: int)
    requires
        -1 <= rank <= 7,
        acc.len() == 64,
    ensures
        fill_ranks(acc, b, rank).len() == 64,
        forall|idx: int|
            0 <= idx < 64 ==> #[trigger] fill_ranks(acc, b, rank)[idx] == (if idx < (rank + 1) * 8
                && b.spec_piece_at(idx as u64) is Some {
                b.spec_piece_at(idx as u64)
            } else {
                acc[idx]
            }),
    decreases rank + 1,
{
    if rank >= 0 {
        lemma_fill_rank_occ_char(acc, b, rank, 0);
        lemma_fill_ranks_char(fill_rank_occ(acc, b, rank, 0), b, rank - 1);
    }
}

/// Parsing the emitted text of one rank advances the parser across
/// it and writes exactly that rank's occupied squares.
proof fn lemma_parse_rank_emitted(
    s: Seq<char>,
    end: int,
    i: int,
    b: ChessBoard,
    rank: int,
    file: int,
    run: int,
    acc: Seq<Option<ChessPiece>>,
)
    requires
        0 <= rank <= 7,
        0 <= file <= 8,
        0 <= run <= file,
        0 <= i,
        i + spec_rank_fen(b, rank, file, run).len() <= end <= s.len(),
        s.subrange(i, i + spec_rank_fen(b, rank, file, run).len()) == spec_rank_fen(
            b,
            rank,
            file,
            run,
        ),
    ensures
        parse_placement_rec(s, i, end, file - run, rank, acc) == parse_placement_rec(
            s,
            i + spec_rank_fen(b, rank, file, run).len(),
            end,
            8,
            rank,
            fill_rank_occ(acc, b, rank, file),
        ),
    decreases 8 - file,
{
    let seg = spec_rank_fen(b, rank, file, run);
    let ln = seg.len() as int;
    if file >= 8 {
        if run > 0 {
            lemma_digit_char_facts(run);
            assert(s[i] == s.subrange(i, i + ln)[0]);
            assert(s[i] == spec_digit_char(run));
            assert(parse_placement_rec(s, i, end, file - run, rank, acc) == parse_placement_rec(
                s,
                i + 1,
                end,
                8,
                rank,
                acc,
            ));
        }
    } else {
        match b.spec_piece_at((rank * 8 + file) as u64) {
            None => {
                assert(seg == spec_rank_fen(b, rank, file + 1, run + 1));
                lemma_parse_rank_emitted(s, end, i, b, rank, file + 1, run + 1, acc);
                assert(fill_rank_occ(acc, b, rank, file) == fill_rank_occ(acc, b, rank, file + 1));
            },
            Some(q) => {
                let c = q.piece_type.spec_to_char(q.color);
                let head = if run > 0 {
                    seq![spec_digit_char(run)]
                } else {
                    Seq::<char>::empty()
                };
                let lh = head.len() as int;
                let rest = spec_rank_fen(b, rank, file + 1, 0);
                assert(seg == (head + seq![c]) + rest);
                lemma_piece_char_facts(q.color, q.piece_type);
                // The pending digit run, if any.
                if run > 0 {
                    lemma_digit_char_facts(run);
                    assert(s[i] == s.subrange(i, i + ln)[0]);
                    assert(s[i] == spec_digit_char(run));
                    assert(parse_placement_rec(s, i, end, file - run, rank, acc)
                        == parse_placement_rec(s, i + 1, end, file, rank, acc));
                }
                // The piece letter.
                assert(s[i + lh] == s.subrange(i, i + ln)[lh]);
                assert(s[i + lh] == c);
                let acc2 = acc.update(rank * 8 + file, Some(q));
                assert(parse_placement_rec(s, i + lh, end, file, rank, acc)
                    == parse_placement_rec(s, i + lh + 1, end, file + 1, rank, acc2));
                // The rest of the rank.
                assert(s.subrange(i + lh + 1, i + ln) =~= rest) by {
                    assert forall|k: int| 0 <= k < rest.len() implies s.subrange(
                        i + lh + 1,
                        i + ln,
                    )[k] == rest[k] by {
                        assert(s[i + lh + 1 + k] == s.subrange(i, i + ln)[lh + 1 + k]);
                        assert(seg[lh + 1 + k] == rest[k]);
                    }
                }
                lemma_parse_rank_emitted(s, end, i + lh + 1, b, rank, file + 1, 0, acc2);
                assert(fill_rank_occ(acc, b, rank, file) == fill_rank_occ(acc2, b, rank, file + 1));
            },
        }
    }
}

/// Parsing the emitted placement from `rank` down advances across it
/// and writes every occupied square of those ranks.
proof fn lemma_parse_ranks_emitted(
    s: Seq<char>,
    end: int,
    i: int,
    b: ChessBoard,
    rank: int,
    acc: Seq<Option<ChessPiece>>,
)
    requires
        0 <= rank <= 7,
        0 <= i,
        i + spec_board_ranks_fen(b, rank).len() <= end <= s.len(),
        s.subrange(i, i + spec_board_ranks_fen(b, rank).len()) == spec_board_ranks_fen(b, rank),
    ensures
        parse_placement_rec(s, i, end, 0, rank, acc) == parse_placement_rec(
            s,
            i + spec_board_ranks_fen(b, rank).len(),
            end,
            8,
            0,
            fill_ranks(acc, b, rank),
        ),
    decreases rank,
{
    let seg = spec_board_ranks_fen(b, rank);
    let ln = seg.len() as int;
    if rank == 0 {
        assert(seg == spec_rank_fen(b, 0, 0, 0));
        lemma_parse_rank_emitted(s, end, i, b, 0, 0, 0, acc);
        assert(fill_ranks(acc, b, 0) == fill_ranks(fill_rank_occ(acc, b, 0, 0), b, -1));
        assert(fill_ranks(acc, b, 0) == fill_rank_occ(acc, b, 0, 0));
    } else {
        let first = spec_rank_fen(b, rank, 0, 0);
        let l1 = first.len() as int;
        let rest = spec_board_ranks_fen(b, rank - 1);
        assert(seg == (first + seq!['/']) + rest);
        assert(s.subrange(i, i + l1) =~= first) by {
            assert forall|k: int| 0 <= k < l1 implies s.subrange(i, i + l1)[k] == first[k] by {
                assert(s[i + k] == s.subrange(i, i + ln)[k]);
                assert(seg[k] == first[k]);
            }
        }
        lemma_parse_rank_emitted(s, end, i, b, rank, 0, 0, acc);
        let acc1 = fill_rank_occ(acc, b, rank, 0);
        assert(s[i + l1] == s.subrange(i, i + ln)[l1]);
        assert(s[i + l1] == '/');
        assert(parse_placement_rec(s, i + l1, end, 8, rank, acc1) == parse_placement_rec(
            s,
            i + l1 + 1,
            end,
            0,
            rank - 1,
            acc1,
        ));
        assert(s.subrange(i + l1 + 1, i + ln) =~= rest) by {
            assert forall|k: int| 0 <= k < rest.len() implies s.subrange(i + l1 + 1, i + ln)[k]
                == rest[k] by {
                assert(s[i + l1 + 1 + k] == s.subrange(i, i + ln)[l1 + 1 + k]);
                assert(seg[l1 + 1 + k] == rest[k]);
            }
        }
        lemma_parse_ranks_emitted(s, end, i + l1 + 1, b, rank - 1, acc1);
        assert(fill_ranks(acc, b, rank) == fill_ranks(acc1, b, rank - 1));
    }
}

/// Parsing the whole emitted placement field yields exactly the
/// board's own placement.
proof fn lemma_parse_placement_emitted(s: Seq<char>, p0: int, b: ChessBoard)
    requires
        p0 == spec_board_ranks_fen(b, 7).len(),
        p0 <= s.len(),
        s.subrange(0, p0) == spec_board_ranks_fen(b, 7),
    ensures
        parse_placement_rec(s, 0, p0, 0, 7, Seq::new(64, |i: int| None)) == Some(board_array(b)),
{
    let init = Seq::new(64, |i: int| None::<ChessPiece>);
    lemma_parse_ranks_emitted(s, p0, 0, b, 7, init);
    lemma_fill_ranks_char(init, b, 7);
    assert(fill_ranks(init, b, 7) =~= board_array(b));
}

/// Indexing into a concatenation, below and above the seam.
proof fn lemma_index_prefix(a: Seq<char>, b: Seq<char>, k: int)
    requires
        0 <= k < a.len(),
    ensures
        (a + b)[k] == a[k],
{
}

proof fn lemma_index_suffix(a: Seq<char>, b: Seq<char>, k: int)
    requires
        a.len() <= k < a.len() + b.len(),
    ensures
        (a + b)[k] == b[k - a.len()],
{
}

/// Parsing a position's own FEN gives the position back: the
/// placement square by square, the side to move, the rights mask,
/// the en-passant square and both clocks.
#[verifier::rlimit(100)]
#[verifier::spinoff_prover]
pub proof fn lemma_fen_round_trip(g: ChessGame)
    requires
        g.board.wf(),
        g.castling_rights.0 < 16,
        g.ep_wf(),
    ensures
        spec_parse_fen(spec_fen(g)) == Some(
            (
                board_array(g.board),
                g.side_to_move,
                g.castling_rights.0,
                g.en_passant,
                g.halfmove_clock,
                g.fullmove_counter,
            ),
        ),
{
    let s = spec_fen(g);
    let b = g.board;
    let m = g.castling_rights.0;
    let r_seq = spec_board_ranks_fen(b, 7);
    let side_seq = seq![g.side_to_move.spec_to_char()];
    let c_seq = spec_castling_fen(m);
    let e_seq = spec_ep_fen(g.en_passant);
    let h_seq = spec_decimal(g.halfmove_clock as int);
    let f_seq = spec_decimal(g.fullmove_counter as int);
    let sp = seq![' '];
    let a1 = r_seq + sp;
    let a2 = a1 + side_seq;
    let a3 = a2 + sp;
    let a4 = a3 + c_seq;
    let a5 = a4 + sp;
    let a6 = a5 + e_seq;
    let a7 = a6 + sp;
    let a8 = a7 + h_seq;
    let a9 = a8 + sp;
    assert(s == a9 + f_seq);
    let lr = r_seq.len() as int;
    let lc = c_seq.len() as int;
    let le = e_seq.len() as int;
    let lh = h_seq.len() as int;
    let lf = f_seq.len() as int;
    let p0 = lr;
    let p1 = p0 + 2;
    let p2 = p1 + 1 + lc;
    let p3 = p2 + 1 + le;
    let p4 = p3 + 1 + lh;
    let n = p4 + 1 + lf;
    assert(s.len() == n);
    lemma_ranks_fen_no_space(b, 7);
    lemma_castling_fen_no_space(m);
    lemma_ep_fen_no_space(g.en_passant);
    lemma_decimal_digits(g.halfmove_clock as int);
    lemma_decimal_digits(g.fullmove_counter as int);
    // Where each component of the emission stands in the string.
    assert forall|k: int| 0 <= k < lr implies s[k] == r_seq[k] by {
        lemma_index_prefix(a9, f_seq, k);
        lemma_index_prefix(a8, sp, k);
        lemma_index_prefix(a7, h_seq, k);
        lemma_index_prefix(a6, sp, k);
        lemma_index_prefix(a5, e_seq, k);
        lemma_index_prefix(a4, sp, k);
        lemma_index_prefix(a3, c_seq, k);
        lemma_index_prefix(a2, sp, k);
        lemma_index_prefix(a1, side_seq, k);
        lemma_index_prefix(r_seq, sp, k);
    }
    assert(s[p0] == ' ') by {
        lemma_index_prefix(a9, f_seq, p0);
        lemma_index_prefix(a8, sp, p0);
        lemma_index_prefix(a7, h_seq, p0);
        lemma_index_prefix(a6, sp, p0);
        lemma_index_prefix(a5, e_seq, p0);
        lemma_index_prefix(a4, sp, p0);
        lemma_index_prefix(a3, c_seq, p0);
        lemma_index_prefix(a2, sp, p0);
        lemma_index_prefix(a1, side_seq, p0);
        lemma_index_suffix(r_seq, sp, p0);
    }
    assert(s[p0 + 1] == g.side_to_move.spec_to_char()) by {
        lemma_index_prefix(a9, f_seq, p0 + 1);
        lemma_index_prefix(a8, sp, p0 + 1);
        lemma_index_prefix(a7, h_seq, p0 + 1);
        lemma_index_prefix(a6, sp, p0 + 1);
        lemma_index_prefix(a5, e_seq, p0 + 1);
        lemma_index_prefix(a4, sp, p0 + 1);
        lemma_index_prefix(a3, c_seq, p0 + 1);
        lemma_index_prefix(a2, sp, p0 + 1);
        lemma_index_suffix(a1, side_seq, p0 + 1);
    }
    assert(s[p1] == ' ') by {
        lemma_index_prefix(a9, f_seq, p1);
        lemma_index_prefix(a8, sp, p1);
        lemma_index_prefix(a7, h_seq, p1);
        lemma_index_prefix(a6, sp, p1);
        lemma_index_prefix(a5, e_seq, p1);
        lemma_index_prefix(a4, sp, p1);
        lemma_index_suffix(a2, sp, p1);
        lemma_index_prefix(a3, c_seq, p1);
    }
    assert forall|j: int| 0 <= j < lc implies s[p1 + 1 + j] == c_seq[j] by {
        lemma_index_prefix(a9, f_seq, p1 + 1 + j);
        lemma_index_prefix(a8, sp, p1 + 1 + j);
        lemma_index_prefix(a7, h_seq, p1 + 1 + j);
        lemma_index_prefix(a6, sp, p1 + 1 + j);
        lemma_index_prefix(a5, e_seq, p1 + 1 + j);
        lemma_index_prefix(a4, sp, p1 + 1 + j);
        lemma_index_suffix(a3, c_seq, p1 + 1 + j);
    }
    assert(s[p2] == ' ') by {
        lemma_index_prefix(a9, f_seq, p2);
        lemma_index_prefix(a8, sp, p2);
        lemma_index_prefix(a7, h_seq, p2);
        lemma_index_prefix(a6, sp, p2);
        lemma_index_prefix(a5, e_seq, p2);
        lemma_index_suffix(a4, sp, p2);
    }
    assert forall|j: int| 0 <= j < le implies s[p2 + 1 + j] == e_seq[j] by {
        lemma_index_prefix(a9, f_seq, p2 + 1 + j);
        lemma_index_prefix(a8, sp, p2 + 1 + j);
        lemma_index_prefix(a7, h_seq, p2 + 1 + j);
        lemma_index_prefix(a6, sp, p2 + 1 + j);
        lemma_index_suffix(a5, e_seq, p2 + 1 + j);
    }
    assert(s[p3] == ' ') by {
        lemma_index_prefix(a9, f_seq, p3);
        lemma_index_prefix(a8, sp, p3);
        lemma_index_prefix(a7, h_seq, p3);
        lemma_index_suffix(a6, sp, p3);
    }
    assert forall|j: int| 0 <= j < lh implies s[p3 + 1 + j] == h_seq[j] by {
        lemma_index_prefix(a9, f_seq, p3 + 1 + j);
        lemma_index_prefix(a8, sp, p3 + 1 + j);
        lemma_index_suffix(a7, h_seq, p3 + 1 + j);
    }
    assert(s[p4] == ' ') by {
        lemma_index_prefix(a9, f_seq, p4);
        lemma_index_suffix(a8, sp, p4);
    }
    assert forall|j: int| 0 <= j < lf implies s[p4 + 1 + j] == f_seq[j] by {
        lemma_index_suffix(a9, f_seq, p4 + 1 + j);
    }
    // The six fields, located by the five separating spaces.
    lemma_next_space_at(s, 0, p0);
    assert(g.side_to_move.spec_to_char() != ' ') by {
        match g.side_to_move {
            Color::White => {},
            Color::Black => {},
        }
    }
    lemma_next_space_at(s, p0 + 1, p1);
    lemma_next_space_at(s, p1 + 1, p2);
    lemma_next_space_at(s, p2 + 1, p3);
    lemma_next_space_at(s, p3 + 1, p4);
    lemma_next_space_at(s, p4 + 1, n);
    // The placement field.
    assert(s.subrange(0, p0) =~= r_seq);
    lemma_parse_placement_emitted(s, p0, b);
    // The side field.
    assert(parse_side_field(s, p0 + 1, p1) == Some(g.side_to_move)) by {
        match g.side_to_move {
            Color::White => {},
            Color::Black => {},
        }
    }
    // The castling field.
    assert(s.subrange(p1 + 1, p2) =~= c_seq);
    lemma_parse_castling_emitted(s, p1 + 1, m);
    // The en-passant field.
    match g.en_passant {
        Some(e) => {
            crate::chess_square::lemma_square_name_chars(e.sfile(), e.srank());
            assert(s[p2 + 1] == spec_file_char(e.sfile()));
            assert(s[p2 + 2] == spec_rank_char(e.srank()));
            assert(e.0 as int == e.srank() * 8 + e.sfile());
            assert(parse_ep_field(s, p2 + 1, p3, g.side_to_move) == Some(Some(e)));
        },
        None => {
            assert(s[p2 + 1] == '-');
            assert(parse_ep_field(s, p2 + 1, p3, g.side_to_move) == Some(
                None::<ChessSquare>,
            ));
        },
    }
    // The clocks.
    assert(s.subrange(p3 + 1, p4) =~= h_seq);
    lemma_parse_decimal_emitted(s, p3 + 1, g.halfmove_clock as int);
    assert(s.subrange(p4 + 1, n) =~= f_seq);
    lemma_parse_decimal_emitted(s, p4 + 1, g.fullmove_counter as int);
    // The en-passant square sits over its pawn in the parsed array.
    match g.en_passant {
        Some(e) => {
            assert(board_array(b)[e.0 as int] is None);
        },
        None => {},
    }
}

/// The other half of the round trip: a position carrying exactly the
/// fields parsed from a FEN emits that FEN again. Together with
/// `lemma_fen_round_trip`, parsing a canonical FEN and emitting the
/// result gives the input back.
pub proof fn lemma_fen_canonical(g: ChessGame, g2: ChessGame)
    requires
        g.board.wf(),
        g.castling_rights.0 < 16,
        g.ep_wf(),
        g2.board.wf(),
        forall|sq: u64|
            sq < 64 ==> #[trigger] g2.board.spec_piece_at(sq) == board_array(g.board)[sq as int],
        g2.side_to_move == g.side_to_move,
        g2.castling_rights.0 == g.castling_rights.0,
        g2.en_passant == g.en_passant,
        g2.halfmove_clock == g.halfmove_clock,
        g2.fullmove_counter == g.fullmove_counter,
    ensures
        spec_fen(g2) == spec_fen(g),
{
    assert forall|sq: u64| sq < 64 implies #[trigger] g2.board.spec_piece_at(sq)
        == g.board.spec_piece_at(sq) by {
        assert(board_array(g.board)[sq as int] == g.board.spec_piece_at(sq));
    }
    crate::chess_board::lemma_board_ext(g2.board, g.board);
    assert(g2.castling_rights == g.castling_rights);
}

} // verus!
