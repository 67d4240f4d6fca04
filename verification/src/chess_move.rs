//! Moves in coordinate form: origin, destination and an optional
//! promotion type, with the UCI text format.

use vstd::prelude::*;

use crate::chess_piece::PieceType;
use crate::chess_square::{
    spec_square_from_name, spec_square_name, ChessSquare,
};

verus! {

#[derive(Clone, Copy, Debug, PartialEq, Eq)]
pub struct ChessMove {
    pub from: ChessSquare,
    pub to: ChessSquare,
    pub promotion: Option<PieceType>,
}

/// The piece a UCI promotion letter denotes: lowercase `q`, `r`,
/// `b` or `n`; anything else is rejected.
pub open spec fn spec_promo_from_char(c: char) -> Option<PieceType> {
    if c == 'q' {
        Some(PieceType::Queen)
    } else if c == 'r' {
        Some(PieceType::Rook)
    } else if c == 'b' {
        Some(PieceType::Bishop)
    } else if c == 'n' {
        Some(PieceType::Knight)
    } else {
        None
    }
}

/// The move a UCI string denotes: two square names and an optional
/// promotion letter. Anything else is rejected.
pub open spec fn spec_move_from_uci(s: Seq<char>) -> Option<ChessMove> {
    if s.len() != 4 && s.len() != 5 {
        None
    } else {
        match (spec_square_from_name(s.subrange(0, 2)), spec_square_from_name(s.subrange(2, 4))) {
            (Some(f), Some(t)) => if s.len() == 4 {
                Some(ChessMove { from: f, to: t, promotion: None })
            } else {
                match spec_promo_from_char(s[4]) {
                    Some(pt) => Some(ChessMove { from: f, to: t, promotion: Some(pt) }),
                    None => None,
                }
            },
            _ => None,
        }
    }
}

/// The lowercase letter of a promotion type; promotions are always
/// to knight, bishop, rook or queen.
pub open spec fn spec_promo_char(t: PieceType) -> char {
    match t {
        PieceType::Queen => 'q',
        PieceType::Rook => 'r',
        PieceType::Bishop => 'b',
        PieceType::Knight => 'n',
        _ => ' ',
    }
}

/// The UCI text of a move.
pub open spec fn spec_move_uci(mv: ChessMove) -> Seq<char> {
    let base = spec_square_name(mv.from.sfile(), mv.from.srank()) + spec_square_name(
        mv.to.sfile(),
        mv.to.srank(),
    );
    match mv.promotion {
        Some(t) => base + seq![spec_promo_char(t)],
        None => base,
    }
}

impl ChessMove {
    pub fn new(from: ChessSquare, to: ChessSquare, promotion: Option<PieceType>) -> (r: Self)
        ensures
            r == (ChessMove { from, to, promotion }),
    {
        Self { from, to, promotion }
    }

    pub fn from_uci(uci: &str) -> (r: Result<Self, &'static str>)
        ensures
            r matches Ok(mv) ==> spec_move_from_uci(uci@) == Some(mv) && mv.from.wf() && mv.to.wf(),
            r is Err ==> spec_move_from_uci(uci@) is None,
    {
        let n = uci.unicode_len();
        if n != 4 && n != 5 {
            return Err("Invalid UCI length");
        }
        let from_str = uci.substring_char(0, 2);
        let to_str = uci.substring_char(2, 4);
        let from_sq = match ChessSquare::from_name(from_str) {
            Some(sq) => sq,
            None => {
                return Err("Invalid square name");
            },
        };
        let to_sq = match ChessSquare::from_name(to_str) {
            Some(sq) => sq,
            None => {
                return Err("Invalid square name");
            },
        };
        if n == 5 {
            let c = uci.get_char(4);
            let promo = if c == 'q' {
                PieceType::Queen
            } else if c == 'r' {
                PieceType::Rook
            } else if c == 'b' {
                PieceType::Bishop
            } else if c == 'n' {
                PieceType::Knight
            } else {
                return Err("Invalid promotion piece");
            };
            Ok(ChessMove { from: from_sq, to: to_sq, promotion: Some(promo) })
        } else {
            Ok(ChessMove { from: from_sq, to: to_sq, promotion: None })
        }
    }

    pub fn to_uci(&self) -> (r: String)
        requires
            self.from.wf(),
            self.to.wf(),
        ensures
            r@ == spec_move_uci(*self),
    {
        let mut s = self.from.name();
        let t = self.to.name();
        s.append(t.as_str());
        match self.promotion {
            Some(PieceType::Queen) => {
                s.append("q");
                proof {
                    reveal_strlit("q");
                }
            },
            Some(PieceType::Rook) => {
                s.append("r");
                proof {
                    reveal_strlit("r");
                }
            },
            Some(PieceType::Bishop) => {
                s.append("b");
                proof {
                    reveal_strlit("b");
                }
            },
            Some(PieceType::Knight) => {
                s.append("n");
                proof {
                    reveal_strlit("n");
                }
            },
            Some(PieceType::Pawn) => {
                s.append(" ");
                proof {
                    reveal_strlit(" ");
                }
            },
            Some(PieceType::King) => {
                s.append(" ");
                proof {
                    reveal_strlit(" ");
                }
            },
            None => {},
        }
        proof {
            assert(s@ =~= spec_move_uci(*self));
        }
        s
    }
}

} // verus!
