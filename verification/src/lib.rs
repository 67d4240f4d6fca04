//! A chess position engine on a bitboard representation: legal move
//! generation, make/unmake with incremental Zobrist hashing, terminal
//! outcome detection, and FEN / UCI serialisation.

pub mod apply;
pub mod attacks;
pub mod bitboard;
pub mod bits;
pub mod castling;
pub mod chess_board;
pub mod chess_game;
pub mod chess_move;
pub mod chess_piece;
pub mod chess_square;
pub mod fen;
pub mod laws;
pub mod makemove;
pub mod movegen;
pub mod outcome;
pub mod zobrist;

pub use bitboard::Bitboard;
pub use castling::CastlingRights;
pub use chess_board::ChessBoard;
pub use chess_game::ChessGame;
pub use chess_game::HistoryEntry;
pub use chess_game::Outcome;
pub use chess_move::ChessMove;
pub use chess_piece::ChessPiece;
pub use chess_piece::Color;
pub use chess_piece::PieceType;
pub use chess_square::ChessSquare;
pub use zobrist::XorShift64;
pub use zobrist::ZobristKeys;
