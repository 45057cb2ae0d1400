pub mod board;
pub mod cell;
pub mod chessmusic;
pub mod chess_move;
pub mod game;
pub mod melody;
pub mod movegen;
pub mod note;
pub mod pgn;
pub mod piece;
pub mod pitch;
pub mod text;
pub mod types;
