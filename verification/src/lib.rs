//! A chess engine library: board types, bitboards, positions, move
//! generation, evaluation, transposition table, search and UCI command logic.

pub mod types;
pub mod bitboard;
pub mod magic;
pub mod legality;
pub mod gen_split;
pub mod gen_complete;
pub mod gen_sound;
pub mod zobrist;
pub mod position;
pub mod text;
pub mod movegen;
pub mod perft;
pub mod evaluate;
pub mod tt;
pub mod search;
pub mod uci;
