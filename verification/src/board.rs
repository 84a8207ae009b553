//! The board: a 64-square mailbox plus the bitboards derived from it.
use vstd::prelude::*;
use crate::bits::{has_bit, single, lemma_bit_zero, lemma_bit_or, lemma_bit_or_single, lemma_bits_ext};
use crate::types::{
    Color, EMPTY, WHITE_PAWN, WHITE_ROOK, WHITE_KNIGHT, WHITE_BISHOP, WHITE_QUEEN, WHITE_KING,
    BLACK_PAWN, BLACK_ROOK, BLACK_KNIGHT, BLACK_BISHOP, BLACK_QUEEN, BLACK_KING, is_white_piece,
    is_black_piece,
};

verus! {

#[derive(Copy, Clone)]
pub struct Board {
    /// One bitboard per piece code: entry `p` holds the squares of piece `p + 1`.
    pub piece_bitboards: [u64; 12],
    /// Union of the white piece bitboards.
    pub white_pieces: u64,
    /// Union of the black piece bitboards.
    pub black_pieces: u64,
    /// Union of all pieces.
    pub all_pieces: u64,
    /// Piece code on each square (0 empty, 1-6 white, 7-12 black).
    pub squares: [u8; 64],
    pub side_to_move: Color,
    /// Bit 0 white short, bit 1 white long, bit 2 black short, bit 3 black long castle.
    pub castling_rights: u8,
    /// Square a pawn may capture onto en passant, or `NO_SQUARE`.
    pub en_passant_square: u8,
    /// Half-moves since the last capture or pawn move.
    pub halfmove_clock: u8,
    /// Zobrist key of the position.
    pub zobrian_hash: u64,
}

impl Board {
    /// Every square holds a piece code or is empty.
    pub open spec fn squares_valid(self) -> bool {
        forall|s: int| 0 <= s < 64 ==> #[trigger] self.squares[s] <= 12
    }

    /// The bitboards say exactly what the squares say.
    pub open spec fn bitboards_match(self) -> bool {
        &&& forall|p: int, s: int|
            0 <= p < 12 && 0 <= s < 64 ==> (#[trigger] has_bit(self.piece_bitboards[p], s) <==> self.squares[s]
                == p + 1)
        &&& forall|s: int|
            0 <= s < 64 ==> (#[trigger] has_bit(self.white_pieces, s) <==> is_white_piece(
                self.squares[s],
            ))
        &&& forall|s: int|
            0 <= s < 64 ==> (#[trigger] has_bit(self.black_pieces, s) <==> is_black_piece(
                self.squares[s],
            ))
        &&& forall|s: int|
            0 <= s < 64 ==> (#[trigger] has_bit(self.all_pieces, s) <==> self.squares[s] != 0)
    }

    /// Well-formed board: valid squares, matching bitboards, castling flags in the low four
    /// bits and an en passant square on the board or `NO_SQUARE`.
    pub open spec fn wf(self) -> bool {
        &&& self.squares_valid()
        &&& self.bitboards_match()
        &&& self.castling_rights < 16
        &&& self.en_passant_square <= 64
    }

    /// The board holds a piece `piece` somewhere.
    pub open spec fn has_piece(self, piece: u8) -> bool {
        exists|s: int| 0 <= s < 64 && self.squares[s] == piece
    }

    /// Fields other than the squares and bitboards are equal.
    pub open spec fn same_state(self, other: Board) -> bool {
        &&& self.side_to_move == other.side_to_move
        &&& self.castling_rights == other.castling_rights
        &&& self.en_passant_square == other.en_passant_square
        &&& self.halfmove_clock == other.halfmove_clock
    }

    /// Change the player to move.
    pub fn switch_turn(&mut self)
        ensures
            final(self).side_to_move == old(self).side_to_move.spec_opposite(),
            final(self).squares == old(self).squares,
            final(self).piece_bitboards == old(self).piece_bitboards,
            final(self).white_pieces == old(self).white_pieces,
            final(self).black_pieces == old(self).black_pieces,
            final(self).all_pieces == old(self).all_pieces,
            final(self).castling_rights == old(self).castling_rights,
            final(self).en_passant_square == old(self).en_passant_square,
            final(self).halfmove_clock == old(self).halfmove_clock,
            final(self).zobrian_hash == old(self).zobrian_hash,
    {
        self.side_to_move = self.side_to_move.opposite();
    }

    /// Puts the pieces of both sides on their starting squares (ranks 1, 2, 7 and 8);
    /// the other squares are left as they are.
    pub fn initialize_board(&mut self)
        ensures
            forall|s: int|
                0 <= s < 64 ==> #[trigger] final(self).squares[s] == if 16 <= s < 48 {
                    old(self).squares[s]
                } else {
                    start_piece(s)
                },
            final(self).same_state(*old(self)),
            final(self).piece_bitboards == old(self).piece_bitboards,
            final(self).white_pieces == old(self).white_pieces,
            final(self).black_pieces == old(self).black_pieces,
            final(self).all_pieces == old(self).all_pieces,
            final(self).zobrian_hash == old(self).zobrian_hash,
    {
        self.squares[0] = WHITE_ROOK;
        self.squares[1] = WHITE_KNIGHT;
        self.squares[2] = WHITE_BISHOP;
        self.squares[3] = WHITE_QUEEN;
        self.squares[4] = WHITE_KING;
        self.squares[5] = WHITE_BISHOP;
        self.squares[6] = WHITE_KNIGHT;
        self.squares[7] = WHITE_ROOK;
        let mut i: usize = 8;
        while i < 16
            invariant
                8 <= i <= 16,
                forall|s: int|
                    0 <= s < 64 ==> #[trigger] self.squares[s] == if 8 <= s < i {
                        WHITE_PAWN
                    } else if 0 <= s < 8 {
                        start_piece(s)
                    } else {
                        old(self).squares[s]
                    },
                self.same_state(*old(self)),
                self.piece_bitboards == old(self).piece_bitboards,
                self.white_pieces == old(self).white_pieces,
                self.black_pieces == old(self).black_pieces,
                self.all_pieces == old(self).all_pieces,
                self.zobrian_hash == old(self).zobrian_hash,
            decreases 16 - i,
        {
            self.squares[i] = WHITE_PAWN;
            i = i + 1;
        }
        self.squares[56] = BLACK_ROOK;
        self.squares[57] = BLACK_KNIGHT;
        self.squares[58] = BLACK_BISHOP;
        self.squares[59] = BLACK_QUEEN;
        self.squares[60] = BLACK_KING;
        self.squares[61] = BLACK_BISHOP;
        self.squares[62] = BLACK_KNIGHT;
        self.squares[63] = BLACK_ROOK;
        let mut i: usize = 48;
        while i < 56
            invariant
                48 <= i <= 56,
                forall|s: int|
                    0 <= s < 64 ==> #[trigger] self.squares[s] == if 48 <= s < i {
                        BLACK_PAWN
                    } else if (0 <= s < 16 || 56 <= s < 64) {
                        start_piece(s)
                    } else {
                        old(self).squares[s]
                    },
                self.same_state(*old(self)),
                self.piece_bitboards == old(self).piece_bitboards,
                self.white_pieces == old(self).white_pieces,
                self.black_pieces == old(self).black_pieces,
                self.all_pieces == old(self).all_pieces,
                self.zobrian_hash == old(self).zobrian_hash,
            decreases 56 - i,
        {
            self.squares[i] = BLACK_PAWN;
            i = i + 1;
        }
    }

    /// Rebuilds every bitboard from the squares.
    pub fn update_bitboards(&mut self)
        requires
            old(self).squares_valid(),
        ensures
            final(self).bitboards_match(),
            final(self).squares == old(self).squares,
            final(self).same_state(*old(self)),
            final(self).zobrian_hash == old(self).zobrian_hash,
    {
        self.piece_bitboards = [0u64; 12];
        self.white_pieces = 0;
        self.black_pieces = 0;
        self.all_pieces = 0;
        proof {
            lemma_bit_zero();
        }
        let mut square: usize = 0;
        while square < 64
            invariant
                square <= 64,
                self.squares == old(self).squares,
                self.squares_valid(),
                self.same_state(*old(self)),
                self.zobrian_hash == old(self).zobrian_hash,
                forall|p: int, s: int|
                    0 <= p < 12 && 0 <= s < 64 ==> (#[trigger] has_bit(self.piece_bitboards[p], s)
                        <==> (s < square && self.squares[s] == p + 1)),
                forall|s: int|
                    0 <= s < 64 ==> (#[trigger] has_bit(self.white_pieces, s) <==> (s < square
                        && is_white_piece(self.squares[s]))),
                forall|s: int|
                    0 <= s < 64 ==> (#[trigger] has_bit(self.black_pieces, s) <==> (s < square
                        && is_black_piece(self.squares[s]))),
            decreases 64 - square,
        {
            let piece = self.squares[square];
            if piece != EMPTY {
                let bitmask: u64 = 1u64 << (square as u64);
                let bitboard_index = (piece - 1) as usize;
                let ghost old_bbs = self.piece_bitboards;
                assert(bitmask == single(square as int));
                let new_bb = self.piece_bitboards[bitboard_index] | bitmask;
                proof {
                    lemma_bit_or_single(old_bbs[bitboard_index as int], square as int);
                    lemma_bit_or_single(self.white_pieces, square as int);
                    lemma_bit_or_single(self.black_pieces, square as int);
                }
                self.piece_bitboards[bitboard_index] = new_bb;
                if piece <= 6 {
                    self.white_pieces = self.white_pieces | bitmask;
                } else {
                    self.black_pieces = self.black_pieces | bitmask;
                }
                assert forall|p: int, s: int|
                    0 <= p < 12 && 0 <= s < 64 implies (#[trigger] has_bit(
                        self.piece_bitboards[p],
                        s,
                    ) <==> (s < square + 1 && self.squares[s] == p + 1)) by {
                    if p != bitboard_index as int {
                        assert(self.piece_bitboards[p] == old_bbs[p]);
                    } else {
                        assert(self.piece_bitboards[p] == new_bb);
                    }
                }
            }
            square = square + 1;
        }
        proof {
            lemma_bit_or(self.white_pieces, self.black_pieces);
        }
        self.all_pieces = self.white_pieces | self.black_pieces;
        assert forall|s: int| 0 <= s < 64 implies (#[trigger] has_bit(self.all_pieces, s) <==> self.squares[s] != 0) by {
            assert(has_bit(self.white_pieces, s) <==> is_white_piece(self.squares[s]));
            assert(has_bit(self.black_pieces, s) <==> is_black_piece(self.squares[s]));
            assert(self.squares[s] <= 12);
        }
    }
}

/// Bitboard of the occupied squares among the first `n` squares.
pub open spec fn occupancy_upto(squares: Seq<u8>, n: int) -> u64
    decreases n,
{
    if n <= 0 {
        0u64
    } else if squares[n - 1] != 0 {
        occupancy_upto(squares, n - 1) | single(n - 1)
    } else {
        occupancy_upto(squares, n - 1)
    }
}

/// Bitboard of the occupied squares.
pub open spec fn occupancy(squares: Seq<u8>) -> u64 {
    occupancy_upto(squares, 64)
}

pub proof fn lemma_occupancy_upto(squares: Seq<u8>, n: int)
    requires
        0 <= n <= 64,
    ensures
        forall|t: int|
            #[trigger] has_bit(occupancy_upto(squares, n), t) <==> (0 <= t < n && squares[t] != 0),
    decreases n,
{
    lemma_bit_zero();
    if n > 0 {
        lemma_occupancy_upto(squares, n - 1);
        lemma_bit_or_single(occupancy_upto(squares, n - 1), n - 1);
    }
}

impl Board {
    /// The occupied-squares bitboard of a well-formed board is determined by its squares.
    pub proof fn lemma_all_pieces(self)
        requires
            self.bitboards_match(),
        ensures
            self.all_pieces == occupancy(self.squares@),
    {
        lemma_occupancy_upto(self.squares@, 64);
        lemma_bits_ext(self.all_pieces, occupancy(self.squares@));
    }
}

/// Piece on a square of the starting position.
pub open spec fn start_piece(s: int) -> u8 {
    if s == 0 || s == 7 {
        WHITE_ROOK
    } else if s == 1 || s == 6 {
        WHITE_KNIGHT
    } else if s == 2 || s == 5 {
        WHITE_BISHOP
    } else if s == 3 {
        WHITE_QUEEN
    } else if s == 4 {
        WHITE_KING
    } else if 8 <= s < 16 {
        WHITE_PAWN
    } else if 48 <= s < 56 {
        BLACK_PAWN
    } else if s == 56 || s == 63 {
        BLACK_ROOK
    } else if s == 57 || s == 62 {
        BLACK_KNIGHT
    } else if s == 58 || s == 61 {
        BLACK_BISHOP
    } else if s == 59 {
        BLACK_QUEEN
    } else if s == 60 {
        BLACK_KING
    } else {
        EMPTY
    }
}

} // verus!
