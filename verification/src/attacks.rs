//! Which squares a side attacks, and whether a king is in check.
use vstd::prelude::*;
use crate::bits::{has_bit, lowest_bit, lemma_bit_zero, lemma_and_nonzero, lemma_lowest_bit};
use crate::board::{Board, occupancy};
use crate::masks::{
    add_square, knight_attacks, king_attacks, rook_attacks_bruteforce, bishop_attacks_bruteforce,
    knight_jump, king_step, rook_ray, bishop_ray,
};
use crate::types::{
    Color, file_of, rank_of, piece_of, WHITE_PAWN, WHITE_ROOK, WHITE_KNIGHT, WHITE_BISHOP, WHITE_QUEEN,
    WHITE_KING, BLACK_PAWN, BLACK_ROOK, BLACK_KNIGHT, BLACK_BISHOP, BLACK_QUEEN, BLACK_KING,
};

verus! {

/// A pawn of `attacker` standing on `t` attacks `s`. A white pawn attacks the two squares
/// diagonally in front of it, a black pawn the two behind it (board seen from white). The
/// test looks only at the files of `s`, so on the edge ranks a pawn on a1 is taken to attack
/// h1 and a pawn on h8 to attack a8; pawns never stand on those ranks in a game.
pub open spec fn pawn_attacks(s: int, t: int, attacker: Color) -> bool {
    match attacker {
        Color::White => (t == s - 7 && s >= 7 && (s < 9 || file_of(s) != 7)) || (t == s - 9 && s
            >= 9 && file_of(s) != 0),
        Color::Black => (t == s + 7 && s <= 56 && (s >= 55 || file_of(s) != 0)) || (t == s + 9 && s
            < 55 && file_of(s) != 7),
    }
}

/// Law: a pawn that stands off the edge ranks attacks exactly the two squares one rank ahead
/// of it (up for White, down for Black) on the neighbouring files.
pub proof fn law_pawn_attacks_ahead(s: int, t: int, attacker: Color)
    requires
        0 <= s < 64,
        0 <= t < 64,
        1 <= rank_of(t) <= 6,
    ensures
        pawn_attacks(s, t, attacker) <==> {
            &&& rank_of(s) == rank_of(t) + match attacker {
                Color::White => 1int,
                Color::Black => -1int,
            }
            &&& (file_of(s) == file_of(t) + 1 || file_of(s) == file_of(t) - 1)
        },
{
}

/// Square `s` is attacked by a piece of colour `c` when the board's squares are `sq`.
pub open spec fn attacked_on(sq: Seq<u8>, s: int, c: Color) -> bool {
    ||| exists|t: int| 0 <= t < 64 && pawn_attacks(s, t, c) && sq[t] == piece_of(c, WHITE_PAWN)
    ||| exists|t: int| knight_jump(s, t) && sq[t] == piece_of(c, WHITE_KNIGHT)
    ||| exists|t: int|
        0 <= t < 64 && bishop_ray(occupancy(sq), s, t) && (sq[t] == piece_of(c, WHITE_BISHOP)
            || sq[t] == piece_of(c, WHITE_QUEEN))
    ||| exists|t: int|
        0 <= t < 64 && rook_ray(occupancy(sq), s, t) && (sq[t] == piece_of(c, WHITE_ROOK) || sq[t]
            == piece_of(c, WHITE_QUEEN))
    ||| exists|t: int| king_step(s, t) && sq[t] == piece_of(c, WHITE_KING)
}

/// Square `s` is attacked by a piece of colour `c` on board `b`.
pub open spec fn attacked(b: Board, s: int, c: Color) -> bool {
    attacked_on(b.squares@, s, c)
}

/// `s` is the lowest square holding piece `p`.
pub open spec fn is_lowest_square_of(sq: Seq<u8>, p: u8, s: int) -> bool {
    &&& 0 <= s < 64
    &&& sq[s] == p
    &&& forall|t: int| 0 <= t < s ==> sq[t] != p
}

/// The lowest square holding piece `p`.
pub open spec fn lowest_square_of(sq: Seq<u8>, p: u8) -> int {
    choose|s: int| is_lowest_square_of(sq, p, s)
}

pub proof fn lemma_lowest_square_of(sq: Seq<u8>, p: u8, s: int)
    requires
        is_lowest_square_of(sq, p, s),
    ensures
        lowest_square_of(sq, p) == s,
{
    let c = lowest_square_of(sq, p);
    assert(is_lowest_square_of(sq, p, c));
    if c < s {
        assert(sq[c] != p);
    } else if s < c {
        assert(sq[s] != p);
    }
}

/// The king of `player` is attacked, the king being the one on the lowest square.
pub open spec fn in_check_on(sq: Seq<u8>, player: Color) -> bool {
    attacked_on(sq, lowest_square_of(sq, piece_of(player, WHITE_KING)), player.spec_opposite())
}

impl Board {
    /// `piece_bitboards[piece - 1] & mask` is not zero exactly when `piece` stands on a
    /// square of `mask`.
    proof fn lemma_piece_in_mask(self, piece: u8, mask: u64)
        requires
            self.squares_valid(),
            self.bitboards_match(),
            1 <= piece <= 12,
        ensures
            (self.piece_bitboards[piece - 1] & mask != 0) <==> (exists|t: int|
                0 <= t < 64 && has_bit(mask, t) && self.squares[t] == piece),
    {
        lemma_and_nonzero(self.piece_bitboards[piece - 1], mask);
        if exists|t: int| 0 <= t < 64 && has_bit(mask, t) && self.squares[t] == piece {
            let t = choose|t: int| 0 <= t < 64 && has_bit(mask, t) && self.squares[t] == piece;
            assert(has_bit(self.piece_bitboards[piece - 1], t));
        }
    }

    /// Is `square` attacked by any piece of `attacker_color`?
    pub fn is_square_attacked(&self, square: u8, attacker_color: Color) -> (r: bool)
        requires
            self.squares_valid(),
            self.bitboards_match(),
            square < 64,
        ensures
            r == attacked(*self, square as int, attacker_color),
    {
        let ghost s = square as int;
        proof {
            self.lemma_all_pieces();
        }
        let (pawn, knight, bishop, rook, queen, king) = match attacker_color {
            Color::White => (
                WHITE_PAWN,
                WHITE_KNIGHT,
                WHITE_BISHOP,
                WHITE_ROOK,
                WHITE_QUEEN,
                WHITE_KING,
            ),
            Color::Black => (
                BLACK_PAWN,
                BLACK_KNIGHT,
                BLACK_BISHOP,
                BLACK_ROOK,
                BLACK_QUEEN,
                BLACK_KING,
            ),
        };
        // Pawns
        let enemy_pawns = self.piece_bitboards[(pawn - 1) as usize];
        let mut pawn_bitboard: u64 = 0;
        proof {
            lemma_bit_zero();
        }
        let file = square % 8;
        match attacker_color {
            Color::White => {
                if square < 9 || file == 0 {
                    if square >= 7 {
                        pawn_bitboard = add_square(pawn_bitboard, square - 7);
                    }
                } else if file == 7 {
                    pawn_bitboard = add_square(pawn_bitboard, square - 9);
                } else {
                    pawn_bitboard = add_square(pawn_bitboard, square - 7);
                    pawn_bitboard = add_square(pawn_bitboard, square - 9);
                }
            },
            Color::Black => {
                if square >= 55 || file == 7 {
                    if square <= 56 {
                        pawn_bitboard = add_square(pawn_bitboard, square + 7);
                    }
                } else if file == 0 {
                    pawn_bitboard = add_square(pawn_bitboard, square + 9);
                } else {
                    pawn_bitboard = add_square(pawn_bitboard, square + 7);
                    pawn_bitboard = add_square(pawn_bitboard, square + 9);
                }
            },
        }
        assert forall|t: int| #[trigger] has_bit(pawn_bitboard, t) <==> (0 <= t < 64 && pawn_attacks(
            s,
            t,
            attacker_color,
        )) by {}
        proof {
            self.lemma_piece_in_mask(pawn, pawn_bitboard);
        }
        if enemy_pawns & pawn_bitboard != 0 {
            return true;
        }
        // Knights

        let enemy_knights = self.piece_bitboards[(knight - 1) as usize];
        let knight_mask = knight_attacks(square);
        proof {
            self.lemma_piece_in_mask(knight, knight_mask);
        }
        if knight_mask & enemy_knights != 0 {
            assert(enemy_knights & knight_mask != 0) by (bit_vector)
                requires
                    knight_mask & enemy_knights != 0,
            ;
            return true;
        }
        assert(enemy_knights & knight_mask == 0) by (bit_vector)
            requires
                knight_mask & enemy_knights == 0,
        ;
        // Bishops (and queens on diagonals)
        let enemy_bishops = self.piece_bitboards[(bishop - 1) as usize];
        let bishop_attacks = bishop_attacks_bruteforce(square as i32, self.all_pieces);
        proof {
            self.lemma_piece_in_mask(bishop, bishop_attacks);
        }
        if enemy_bishops & bishop_attacks != 0 {
            return true;
        }
        // Rooks (and queens on lines)
        let enemy_rooks = self.piece_bitboards[(rook - 1) as usize];
        let rook_attacks = rook_attacks_bruteforce(square as i32, self.all_pieces);
        proof {
            self.lemma_piece_in_mask(rook, rook_attacks);
        }
        if enemy_rooks & rook_attacks != 0 {
            return true;
        }
        // Queens
        let enemy_queens = self.piece_bitboards[(queen - 1) as usize];
        proof {
            self.lemma_piece_in_mask(queen, rook_attacks);
            self.lemma_piece_in_mask(queen, bishop_attacks);
        }
        if enemy_queens & rook_attacks != 0 || enemy_queens & bishop_attacks != 0 {
            return true;
        }
        // King
        let enemy_king = self.piece_bitboards[(king - 1) as usize];
        let king_mask = king_attacks(square);
        proof {
            self.lemma_piece_in_mask(king, king_mask);
        }
        if king_mask & enemy_king != 0 {
            assert(enemy_king & king_mask != 0) by (bit_vector)
                requires
                    king_mask & enemy_king != 0,
            ;
            return true;
        }
        assert(enemy_king & king_mask == 0) by (bit_vector)
            requires
                king_mask & enemy_king == 0,
        ;
        assert(!(exists|t: int| 0 <= t < 64 && pawn_attacks(s, t, attacker_color) && self.squares[t] == piece_of(attacker_color, WHITE_PAWN))) by {
            if exists|t: int| 0 <= t < 64 && pawn_attacks(s, t, attacker_color) && self.squares[t] == piece_of(attacker_color, WHITE_PAWN) {
                let t = choose|t: int| 0 <= t < 64 && pawn_attacks(s, t, attacker_color) && self.squares[t] == piece_of(attacker_color, WHITE_PAWN);
                assert(has_bit(pawn_bitboard, t));
            }
        }
        assert(!(exists|t: int| knight_jump(s, t) && self.squares[t] == piece_of(attacker_color, WHITE_KNIGHT))) by {
            if exists|t: int| knight_jump(s, t) && self.squares[t] == piece_of(attacker_color, WHITE_KNIGHT) {
                let t = choose|t: int| knight_jump(s, t) && self.squares[t] == piece_of(attacker_color, WHITE_KNIGHT);
                assert(has_bit(knight_mask, t));
            }
        }
        assert(!(exists|t: int|
        0 <= t < 64 && bishop_ray(self.all_pieces, s, t) && (self.squares[t] == piece_of(attacker_color, WHITE_BISHOP)
            || self.squares[t] == piece_of(attacker_color, WHITE_QUEEN)))) by {
            if exists|t: int|
        0 <= t < 64 && bishop_ray(self.all_pieces, s, t) && (self.squares[t] == piece_of(attacker_color, WHITE_BISHOP)
            || self.squares[t] == piece_of(attacker_color, WHITE_QUEEN)) {
                let t = choose|t: int|
        0 <= t < 64 && bishop_ray(self.all_pieces, s, t) && (self.squares[t] == piece_of(attacker_color, WHITE_BISHOP)
            || self.squares[t] == piece_of(attacker_color, WHITE_QUEEN));
                assert(has_bit(bishop_attacks, t));
            }
        }
        assert(!(exists|t: int|
        0 <= t < 64 && rook_ray(self.all_pieces, s, t) && (self.squares[t] == piece_of(attacker_color, WHITE_ROOK)
            || self.squares[t] == piece_of(attacker_color, WHITE_QUEEN)))) by {
            if exists|t: int|
        0 <= t < 64 && rook_ray(self.all_pieces, s, t) && (self.squares[t] == piece_of(attacker_color, WHITE_ROOK)
            || self.squares[t] == piece_of(attacker_color, WHITE_QUEEN)) {
                let t = choose|t: int|
        0 <= t < 64 && rook_ray(self.all_pieces, s, t) && (self.squares[t] == piece_of(attacker_color, WHITE_ROOK)
            || self.squares[t] == piece_of(attacker_color, WHITE_QUEEN));
                assert(has_bit(rook_attacks, t));
            }
        }
        assert(!(exists|t: int| king_step(s, t) && self.squares[t] == piece_of(attacker_color, WHITE_KING))) by {
            if exists|t: int| king_step(s, t) && self.squares[t] == piece_of(attacker_color, WHITE_KING) {
                let t = choose|t: int| king_step(s, t) && self.squares[t] == piece_of(attacker_color, WHITE_KING);
                assert(has_bit(king_mask, t));
            }
        }
        false
    }

    /// Is the king of `player` attacked? The king is looked up on the lowest square of its
    /// bitboard.
    pub fn is_in_check(&self, player: Color) -> (r: bool)
        requires
            self.squares_valid(),
            self.bitboards_match(),
            self.has_piece(piece_of(player, WHITE_KING)),
        ensures
            r == in_check_on(self.squares@, player),
    {
        let mut king_bitboard = 0u64;
        match player {
            Color::White => {
                king_bitboard = king_bitboard | self.piece_bitboards[WHITE_KING as usize - 1];
            },
            Color::Black => {
                king_bitboard = king_bitboard | self.piece_bitboards[BLACK_KING as usize - 1];
            },
        }
        let ghost kb = self.piece_bitboards[piece_of(player, WHITE_KING) - 1];
        assert(king_bitboard == kb) by {
            let x = kb;
            assert(0u64 | x == x) by (bit_vector);
        }
        proof {
            let w = choose|w: int| 0 <= w < 64 && self.squares[w] == piece_of(player, WHITE_KING);
            assert(has_bit(kb, w));
            lemma_bit_zero();
            lemma_lowest_bit(kb);
            let z = lowest_bit(kb) as int;
            assert(is_lowest_square_of(self.squares@, piece_of(player, WHITE_KING), z)) by {
                assert forall|t: int| 0 <= t < z implies self.squares[t] != piece_of(
                    player,
                    WHITE_KING,
                ) by {
                    assert(!has_bit(kb, t));
                }
            }
            lemma_lowest_square_of(self.squares@, piece_of(player, WHITE_KING), z);
        }
        let king_square = king_bitboard.trailing_zeros() as u8;
        self.is_square_attacked(king_square, player.opposite())
    }
}

} // verus!
