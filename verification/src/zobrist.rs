//! Zobrist hashing of positions, and the entries of the transposition table.
use vstd::prelude::*;
use crate::bits::{
    has_bit, xor_fold, pop_lsb, lemma_xor_facts, lemma_xor_cancel, lemma_xor_fold_toggle,
    lemma_xor_fold_zero,
};
use crate::board::Board;
use crate::make_move::{Action, castle_rook_origin, castle_rook_destination, is_castle_jump};
use crate::types::{
    Color, Move, NO_SQUARE, WHITE_PAWN, WHITE_ROOK, WHITE_KNIGHT, WHITE_BISHOP, WHITE_QUEEN,
    WHITE_KING, BLACK_PAWN, BLACK_ROOK, BLACK_KNIGHT, BLACK_BISHOP, BLACK_QUEEN, BLACK_KING,
};
use crate::zobrist_keys::{PIECE_SQUARE_KEYS, SIDE_KEY, CASTLING_KEYS, EN_PASSANT_FILE_KEYS};

verus! {

/// Exact: every move was searched, `score` is the position's value.
/// LowerBound: a beta cutoff happened, the value is at least `score`.
/// UpperBound: no move beat alpha, the value is at most `score`.
#[derive(Copy, Clone, Debug, PartialEq, Eq, Structural)]
pub enum Bound {
    Exact,
    LowerBound,
    UpperBound,
}

#[derive(Copy, Clone, Debug, PartialEq, Eq, Structural)]
pub struct TTEntry {
    /// Full hash of the position the entry belongs to.
    pub key: u64,
    /// Depth the position was searched to.
    pub depth: u32,
    pub bound: Bound,
    pub score: i32,
    pub best_move: Move,
}

/// Key of piece `p` (a piece code 1..12) on square `s`.
pub open spec fn piece_key(p: u8, s: int) -> u64 {
    PIECE_SQUARE_KEYS[p - 1][s]
}

/// Keys of piece `p`, as a function of the square.
pub open spec fn piece_keys(p: u8) -> spec_fn(int) -> u64 {
    |s: int| piece_key(p, s)
}

/// Keys of the castling rights, as a function of the right's bit.
pub open spec fn castling_keys() -> spec_fn(int) -> u64 {
    |i: int| CASTLING_KEYS[i]
}

/// Hash contribution of the pieces `p` on the squares of `bb`.
pub open spec fn bitboard_hash(bb: u64, p: u8) -> u64 {
    xor_fold(bb, piece_keys(p), 64)
}

/// Hash contribution of piece `p` on board `b`.
pub open spec fn piece_hash(b: Board, p: u8) -> u64 {
    bitboard_hash(b.piece_bitboards[p - 1], p)
}

/// Hash contribution of the castling rights in the low four bits of `rights`.
pub open spec fn castling_hash(rights: u64) -> u64 {
    xor_fold(rights, castling_keys(), 4)
}

/// Hash contribution of an en passant square.
pub open spec fn en_passant_hash(ep: u8) -> u64 {
    if ep != NO_SQUARE {
        EN_PASSANT_FILE_KEYS[(ep % 8) as int]
    } else {
        0
    }
}

/// The Zobrist key of a board: the keys of every piece on its square (pawns, knights,
/// bishops, rooks, queens, kings, white before black), the side key when black is to move,
/// the keys of the castling rights held and the key of the en passant file.
pub open spec fn zobrist_key(b: Board) -> u64 {
    let pieces = 0u64 ^ piece_hash(b, WHITE_PAWN) ^ piece_hash(b, BLACK_PAWN) ^ piece_hash(
        b,
        WHITE_KNIGHT,
    ) ^ piece_hash(b, BLACK_KNIGHT) ^ piece_hash(b, WHITE_BISHOP) ^ piece_hash(b, BLACK_BISHOP)
        ^ piece_hash(b, WHITE_ROOK) ^ piece_hash(b, BLACK_ROOK) ^ piece_hash(b, WHITE_QUEEN)
        ^ piece_hash(b, BLACK_QUEEN) ^ piece_hash(b, WHITE_KING) ^ piece_hash(b, BLACK_KING);
    let side = if b.side_to_move == Color::Black {
        SIDE_KEY
    } else {
        0
    };
    pieces ^ side ^ castling_hash(b.castling_rights as u64) ^ en_passant_hash(b.en_passant_square)
}

/// The piece that ends on the destination of the action's move.
pub open spec fn placed_piece(a: Action) -> u8 {
    match a.mv.promotion {
        Some(p) => p,
        None => a.moved_piece,
    }
}

/// The hash after `update_zobrian_hash`: the mover leaves its origin, the placed piece lands
/// on the destination, a captured piece leaves its square, a castling rook moves, the side
/// flips, the castling rights that changed and the en passant files old and new are toggled.
pub open spec fn hash_after_update(h: u64, rights: u8, ep: u8, a: Action) -> u64 {
    let o = a.mv.origin as int;
    let d = a.mv.destination as int;
    let h1 = h ^ piece_key(a.moved_piece, o) ^ piece_key(placed_piece(a), d);
    let h2 = match (a.captured_piece, a.captured_square) {
        (Some(cp), Some(cs)) => h1 ^ piece_key(cp, cs as int),
        _ => h1,
    };
    let rook = if a.moved_piece == WHITE_KING {
        WHITE_ROOK
    } else {
        BLACK_ROOK
    };
    let h3 = if is_castle_jump(a.moved_piece, a.mv) {
        h2 ^ piece_key(rook, castle_rook_origin(a.mv.destination)) ^ piece_key(
            rook,
            castle_rook_destination(a.mv.destination),
        )
    } else {
        h2
    };
    let h4 = h3 ^ SIDE_KEY ^ castling_hash((rights ^ a.previous_castling_rights) as u64);
    h4 ^ en_passant_hash(a.previous_en_passant_square) ^ en_passant_hash(ep)
}

/// The action can be replayed on the hash: its pieces are piece codes, its squares are on the
/// board, and a king jumping two squares lands on a castling square.
pub open spec fn action_hashable(a: Action) -> bool {
    &&& 1 <= a.moved_piece <= 12
    &&& 1 <= placed_piece(a) <= 12
    &&& a.mv.origin < 64
    &&& a.mv.destination < 64
    &&& a.previous_castling_rights < 16
    &&& match (a.captured_piece, a.captured_square) {
        (Some(cp), Some(cs)) => 1 <= cp <= 12 && cs < 64,
        _ => true,
    }
    &&& is_castle_jump(a.moved_piece, a.mv) ==> (a.mv.destination == 2 || a.mv.destination == 6
        || a.mv.destination == 58 || a.mv.destination == 62)
}

/// Xors the keys of the set bits of `bits` (low four bits) into `result`.
fn xor_castling_keys(bits: u64, result: u64) -> (r: u64)
    requires
        bits < 16,
    ensures
        r == result ^ castling_hash(bits),
{
    let mut remaining = bits;
    let mut h = result;
    proof {
        lemma_xor_facts(result, castling_hash(bits), 0);
    }
    while remaining != 0
        invariant
            remaining < 16,
            h ^ castling_hash(remaining) == result ^ castling_hash(bits),
        decreases remaining,
    {
        let ghost before = remaining;
        let index = pop_lsb(&mut remaining);
        proof {
            assert(index < 4) by {
                assert(has_bit(before, index as int));
                let i = index as u64;
                assert((before >> i) & 1u64 == 1u64 && before < 16 ==> i < 4) by (bit_vector);
            }
            assert(remaining < 16) by {
                let i = index as u64;
                assert(before < 16 && i < 4 ==> before ^ (1u64 << i) < 16) by (bit_vector);
            }
            lemma_xor_fold_toggle(before, castling_keys(), index as int, 4);
            lemma_xor_cancel(h, castling_hash(before), CASTLING_KEYS[index as int]);
        }
        h = h ^ CASTLING_KEYS[index as usize];
    }
    proof {
        lemma_xor_fold_zero(castling_keys(), 4);
        lemma_xor_facts(h, 0, 0);
    }
    h
}

impl Board {
    /// The Zobrist key of the board, computed from scratch.
    pub fn calculate_zobric_hash(&self) -> (r: u64)
        requires
            self.castling_rights < 16,
        ensures
            r == zobrist_key(*self),
    {
        let mut result = 0u64;
        result = self.calculte_hash_piece_square_keys(WHITE_PAWN, result);
        result = self.calculte_hash_piece_square_keys(BLACK_PAWN, result);
        result = self.calculte_hash_piece_square_keys(WHITE_KNIGHT, result);
        result = self.calculte_hash_piece_square_keys(BLACK_KNIGHT, result);
        result = self.calculte_hash_piece_square_keys(WHITE_BISHOP, result);
        result = self.calculte_hash_piece_square_keys(BLACK_BISHOP, result);
        result = self.calculte_hash_piece_square_keys(WHITE_ROOK, result);
        result = self.calculte_hash_piece_square_keys(BLACK_ROOK, result);
        result = self.calculte_hash_piece_square_keys(WHITE_QUEEN, result);
        result = self.calculte_hash_piece_square_keys(BLACK_QUEEN, result);
        result = self.calculte_hash_piece_square_keys(WHITE_KING, result);
        result = self.calculte_hash_piece_square_keys(BLACK_KING, result);
        let ghost pieces = result;
        if self.side_to_move == Color::Black {
            result = result ^ SIDE_KEY;
        } else {
            proof {
                lemma_xor_facts(result, 0, 0);
            }
        }
        result = xor_castling_keys(self.castling_rights as u64, result);
        if self.en_passant_square != NO_SQUARE {
            result = result ^ EN_PASSANT_FILE_KEYS[(self.en_passant_square % 8) as usize];
        } else {
            proof {
                lemma_xor_facts(result, 0, 0);
            }
        }
        result
    }

    /// Xors into `result` the keys of every `piece` on the board.
    fn calculte_hash_piece_square_keys(&self, piece: u8, result: u64) -> (r: u64)
        requires
            1 <= piece <= 12,
        ensures
            r == result ^ piece_hash(*self, piece),
    {
        let index = piece - 1;
        let mut bitboard = self.piece_bitboards[index as usize];
        let mut h = result;
        let ghost bb0 = bitboard;
        while bitboard != 0
            invariant
                1 <= piece <= 12,
                index == piece - 1,
                h ^ bitboard_hash(bitboard, piece) == result ^ bitboard_hash(bb0, piece),
            decreases bitboard,
        {
            let ghost before = bitboard;
            let square_index = pop_lsb(&mut bitboard);
            let ghost k = piece_key(piece, square_index as int);
            proof {
                lemma_xor_fold_toggle(before, piece_keys(piece), square_index as int, 64);
                lemma_xor_cancel(h, bitboard_hash(before, piece), k);
            }
            h = h ^ PIECE_SQUARE_KEYS[index as usize][square_index as usize];
        }
        proof {
            lemma_xor_fold_zero(piece_keys(piece), 64);
            lemma_xor_facts(h, 0, 0);
        }
        h
    }

    /// Updates the hash for the move recorded in `action`; the castling rights and en passant
    /// square must already be those after the move.
    pub fn update_zobrian_hash(&mut self, action: &Action)
        requires
            action_hashable(*action),
            old(self).castling_rights < 16,
        ensures
            final(self).zobrian_hash == hash_after_update(
                old(self).zobrian_hash,
                old(self).castling_rights,
                old(self).en_passant_square,
                *action,
            ),
            final(self).squares == old(self).squares,
            final(self).piece_bitboards == old(self).piece_bitboards,
            final(self).white_pieces == old(self).white_pieces,
            final(self).black_pieces == old(self).black_pieces,
            final(self).all_pieces == old(self).all_pieces,
            final(self).same_state(*old(self)),
    {
        let placed_piece = match action.mv.promotion {
            Some(p) => p,
            None => action.moved_piece,
        };
        let is_king = action.moved_piece == WHITE_KING || action.moved_piece == BLACK_KING;
        let jump = action.mv.origin as i8 - action.mv.destination as i8;
        let rook_move: Option<(u8, u8)> = if is_king && (jump == 2 || jump == -2) {
            Some(
                if action.mv.destination == 2 {
                    (0, 3)
                } else if action.mv.destination == 6 {
                    (7, 5)
                } else if action.mv.destination == 58 {
                    (56, 59)
                } else {
                    (63, 61)
                },
            )
        } else {
            None
        };
        let mut h = self.zobrian_hash;
        h = h ^ PIECE_SQUARE_KEYS[(action.moved_piece - 1) as usize][action.mv.origin as usize];
        h = h ^ PIECE_SQUARE_KEYS[(placed_piece - 1) as usize][action.mv.destination as usize];
        match (action.captured_piece, action.captured_square) {
            (Some(captured_piece), Some(captured_square)) => {
                h = h ^ PIECE_SQUARE_KEYS[(captured_piece - 1) as usize][captured_square as usize];
            },
            _ => {},
        }
        match rook_move {
            Some((rook_origin, rook_destination)) => {
                let rook_piece = if action.moved_piece == WHITE_KING {
                    WHITE_ROOK
                } else {
                    BLACK_ROOK
                };
                h = h ^ PIECE_SQUARE_KEYS[(rook_piece - 1) as usize][rook_origin as usize];
                h = h ^ PIECE_SQUARE_KEYS[(rook_piece - 1) as usize][rook_destination as usize];
            },
            None => {},
        }
        h = h ^ SIDE_KEY;
        let changed_castling_bits = self.castling_rights ^ action.previous_castling_rights;
        assert(changed_castling_bits < 16) by {
            let a = self.castling_rights;
            let b = action.previous_castling_rights;
            assert(a < 16 && b < 16 ==> a ^ b < 16) by (bit_vector);
        }
        h = xor_castling_keys(changed_castling_bits as u64, h);
        if action.previous_en_passant_square != NO_SQUARE {
            h = h ^ EN_PASSANT_FILE_KEYS[(action.previous_en_passant_square % 8) as usize];
        } else {
            proof {
                lemma_xor_facts(h, 0, 0);
            }
        }
        let ghost h5 = h;
        if self.en_passant_square != NO_SQUARE {
            h = h ^ EN_PASSANT_FILE_KEYS[(self.en_passant_square % 8) as usize];
        } else {
            proof {
                lemma_xor_facts(h, 0, 0);
            }
        }
        self.zobrian_hash = h;
    }
}

} // verus!
