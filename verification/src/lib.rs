//! A chess engine: board representation, move generation, legality, search and evaluation.
pub mod bits;
pub mod types;
pub mod board;
pub mod masks;
pub mod attacks;
pub mod movegen;
pub mod legality;
pub mod zobrist_keys;
pub mod zobrist;
pub mod make_move;
pub mod game;
pub mod search;
pub mod eval_tables;
pub mod evaluate;
pub mod text;
pub mod book;
pub mod notation;
pub mod web;
pub mod magic;
pub mod hashing;
pub mod play;
pub mod tables;
pub mod tree;
pub mod picture;
