//! Pseudo-legal move generation: the moves a piece may make before checks are considered.
use vstd::prelude::*;
use crate::bits::{
    has_bit, pop_lsb, lemma_bit_zero, lemma_bit_and, lemma_bit_not, lemma_bit_or,
    lemma_bit_xor_single, lemma_and_single,
};
use crate::board::{Board, occupancy};
use crate::attacks::attacked;
use crate::masks::{
    add_square, knight_attacks, king_attacks, rook_attacks_bruteforce, bishop_attacks_bruteforce,
    knight_jump, king_step, rook_ray, bishop_ray,
};
use crate::types::{
    Color, Move, move_key, sorted_moves, file_of, piece_of, piece_color_is, is_white_piece, is_black_piece, EMPTY,
    WHITE_PAWN, WHITE_ROOK, WHITE_KNIGHT, WHITE_BISHOP, WHITE_QUEEN, WHITE_KING, BLACK_PAWN,
    BLACK_ROOK, BLACK_KNIGHT, BLACK_BISHOP, BLACK_QUEEN,
};

verus! {

/// Colour of a piece code (codes up to 6 are white).
pub open spec fn color_of(piece: u8) -> Color {
    if piece <= 6 {
        Color::White
    } else {
        Color::Black
    }
}

/// The kind of a piece, in the white numbering (1 pawn, 2 rook, 3 knight, 4 bishop,
/// 5 queen, 6 king); 0 for an empty square or an unknown code.
pub open spec fn kind_of(piece: u8) -> u8 {
    if 1 <= piece <= 6 {
        piece
    } else if 7 <= piece <= 12 {
        (piece - 6) as u8
    } else {
        0
    }
}

/// `d` is on the rank where a pawn of colour `c` promotes.
pub open spec fn last_rank(d: int, c: Color) -> bool {
    match c {
        Color::White => d >= 56,
        Color::Black => d < 8,
    }
}

/// The promotion field fits a move to `d`: pawns (`pawn == Some(colour)`) that reach the last
/// rank become a bishop, knight, rook or queen of their colour; every other move has none.
pub open spec fn promotion_fits(pawn: Option<Color>, d: int, promotion: Option<u8>) -> bool {
    match pawn {
        Some(c) => if last_rank(d, c) {
            promotion == Some(piece_of(c, WHITE_BISHOP)) || promotion == Some(
                piece_of(c, WHITE_KNIGHT),
            ) || promotion == Some(piece_of(c, WHITE_ROOK)) || promotion == Some(
                piece_of(c, WHITE_QUEEN),
            )
        } else {
            promotion == None::<u8>
        },
        None => promotion == None::<u8>,
    }
}

/// A pawn of colour `c` on `o` can go to `d`: one square forward onto an empty square, two
/// from its starting rank over two empty squares, or diagonally forward onto an enemy piece
/// or onto the empty en passant square.
pub open spec fn pawn_reach(b: Board, o: int, c: Color, d: int) -> bool {
    let sq = b.squares;
    match c {
        Color::White => {
            ||| (d == o + 8 && d < 64 && sq[d] == EMPTY)
            ||| (8 <= o < 16 && d == o + 16 && sq[o + 8] == EMPTY && sq[d] == EMPTY)
            ||| (((d == o + 7 && file_of(o) != 0) || (d == o + 9 && file_of(o) != 7)) && d < 64 && (
            is_black_piece(sq[d]) || (d == b.en_passant_square && sq[d] == EMPTY)))
        },
        Color::Black => {
            ||| (d == o - 8 && d >= 0 && sq[d] == EMPTY)
            ||| (48 <= o < 56 && d == o - 16 && sq[o - 8] == EMPTY && sq[d] == EMPTY)
            ||| (((d == o - 7 && file_of(o) != 7) || (d == o - 9 && file_of(o) != 0)) && d >= 0 && (
            is_white_piece(sq[d]) || (d == b.en_passant_square && sq[d] == EMPTY)))
        },
    }
}

/// A king of colour `c` on `o` can castle to `d`: the castling right is held, the rook is on
/// its corner, the squares between are empty, and neither the king's square nor the square it
/// passes is attacked. Whether `d` itself is attacked is left to the legality test.
pub open spec fn castle_reach(b: Board, o: int, c: Color, d: int) -> bool {
    let sq = b.squares;
    match c {
        Color::White => o == 4 && !attacked(b, 4, Color::Black) && ((d == 6 && b.castling_rights
            & 1 != 0 && sq[5] == EMPTY && sq[6] == EMPTY && sq[7] == WHITE_ROOK && !attacked(
            b,
            5,
            Color::Black,
        )) || (d == 2 && b.castling_rights & 2 != 0 && sq[3] == EMPTY && sq[2] == EMPTY && sq[1]
            == EMPTY && sq[0] == WHITE_ROOK && !attacked(b, 3, Color::Black))),
        Color::Black => o == 60 && !attacked(b, 60, Color::White) && ((d == 62 && b.castling_rights
            & 4 != 0 && sq[61] == EMPTY && sq[62] == EMPTY && sq[63] == BLACK_ROOK && !attacked(
            b,
            61,
            Color::White,
        )) || (d == 58 && b.castling_rights & 8 != 0 && sq[59] == EMPTY && sq[58] == EMPTY
            && sq[57] == EMPTY && sq[56] == BLACK_ROOK && !attacked(b, 59, Color::White))),
    }
}

/// A piece `piece` standing on `o` can move to `d` (checks on its own king aside).
pub open spec fn reach(b: Board, o: int, piece: u8, d: int) -> bool {
    let c = color_of(piece);
    let free = !piece_color_is(b.squares[d], c);
    let occ = occupancy(b.squares@);
    &&& 0 <= d < 64
    &&& {
        let k = kind_of(piece);
        if k == WHITE_PAWN {
            pawn_reach(b, o, c, d)
        } else if k == WHITE_KNIGHT {
            knight_jump(o, d) && free
        } else if k == WHITE_BISHOP {
            bishop_ray(occ, o, d) && free
        } else if k == WHITE_ROOK {
            rook_ray(occ, o, d) && free
        } else if k == WHITE_QUEEN {
            (rook_ray(occ, o, d) || bishop_ray(occ, o, d)) && free
        } else if k == WHITE_KING {
            (king_step(o, d) && free) || castle_reach(b, o, c, d)
        } else {
            false
        }
    }
}

/// `m` is a pseudo-legal move of the piece `piece` standing on `o`.
pub open spec fn pseudo_legal(b: Board, o: int, piece: u8, m: Move) -> bool {
    let pawn = if kind_of(piece) == WHITE_PAWN {
        Some(color_of(piece))
    } else {
        None
    };
    &&& m.origin == o
    &&& reach(b, o, piece, m.destination as int)
    &&& promotion_fits(pawn, m.destination as int, m.promotion)
}

/// Appends a move that the list does not hold yet.
pub(crate) fn push_new_move(moves: &mut Vec<Move>, m: Move)
    requires
        old(moves)@.no_duplicates(),
        !old(moves)@.contains(m),
    ensures
        final(moves)@ == old(moves)@.push(m),
        final(moves)@.no_duplicates(),
        forall|x: Move| #[trigger] final(moves)@.contains(x) <==> (old(moves)@.contains(x) || x == m),
        sorted_moves(old(moves)@) && (forall|i: int| 0 <= i < old(moves)@.len() ==> move_key(old(moves)@[i]) < move_key(m)) ==> sorted_moves(final(moves)@),
{
    let ghost s = moves@;
    moves.push(m);
    proof {
        assert forall|x: Move| #[trigger] moves@.contains(x) <==> (s.contains(x) || x == m) by {
            if x == m {
                assert(moves@[s.len() as int] == m);
            }
            if s.contains(x) {
                let i = choose|i: int| 0 <= i < s.len() && s[i] == x;
                assert(moves@[i] == x);
            }
            if moves@.contains(x) {
                let i = choose|i: int| 0 <= i < moves@.len() && moves@[i] == x;
                if i < s.len() {
                    assert(s[i] == x);
                }
            }
        }
        assert forall|i: int, j: int|
            0 <= i < moves@.len() && 0 <= j < moves@.len() && i != j implies moves@[i]
            != moves@[j] by {
            if i < s.len() && j < s.len() {
            } else if i < s.len() {
                assert(s.contains(moves@[i]));
            } else if j < s.len() {
                assert(s.contains(moves@[j]));
            }
        }
    }
}

/// The moves from `origin` to every square of `targets`, in increasing order of destination;
/// a pawn (`pawn == Some(colour)`) reaching its last rank yields its four promotions instead.
fn moves_to_targets(origin: u8, targets: u64, pawn: Option<Color>) -> (moves: Vec<Move>)
    ensures
        moves@.no_duplicates(),
        sorted_moves(moves@),
        forall|m: Move| #[trigger]
            moves@.contains(m) <==> (m.origin == origin && has_bit(targets, m.destination as int)
                && promotion_fits(pawn, m.destination as int, m.promotion)),
{
    let mut moves: Vec<Move> = Vec::new();
    let mut remaining = targets;
    while remaining != 0
        invariant
            moves@.no_duplicates(),
            sorted_moves(moves@),
            forall|i: int| 0 <= i < moves@.len() ==> (#[trigger] moves@[i]).origin == origin,
            forall|i: int, t: int| 0 <= i < moves@.len() && #[trigger] has_bit(remaining, t) ==> (#[trigger] moves@[i]).destination < t,
            forall|t: int| has_bit(remaining, t) ==> has_bit(targets, t),
            forall|m: Move| #[trigger]
                moves@.contains(m) <==> (m.origin == origin && has_bit(targets, m.destination as int)
                    && !has_bit(remaining, m.destination as int) && promotion_fits(
                    pawn,
                    m.destination as int,
                    m.promotion,
                )),
        decreases remaining,
    {
        let ghost before = remaining;
        let d = pop_lsb(&mut remaining) as u8;
        proof {
            lemma_bit_xor_single(before, d as int);
            crate::bits::lemma_lowest_bit(before);
            assert forall|i: int| 0 <= i < moves@.len() implies move_key(#[trigger] moves@[i]) < origin * 76800 + d * 300 by {
                assert(moves@[i].destination < d);
            }
        }
        let ghost prev = moves@;
        let promote = match pawn {
            Some(Color::White) => d >= 56,
            Some(Color::Black) => d < 8,
            None => false,
        };
        if promote {
            let c = match pawn {
                Some(c) => c,
                None => Color::White,
            };
            push_promotions(&mut moves, origin, d, c);
        } else {
            push_new_move(&mut moves, Move { origin, destination: d, promotion: None });
        }
        assert forall|i: int, t: int| 0 <= i < moves@.len() && #[trigger] has_bit(remaining, t) implies (#[trigger] moves@[i]).destination < t by {
            assert(has_bit(before, t) && t != d);
            if i < prev.len() {
                assert(moves@[i] == prev[i]);
            }
        }
    }
    proof {
        lemma_bit_zero();
    }
    moves
}

/// Appends the four promotions (bishop, knight, rook, queen) of a pawn of colour `c`
/// moving from `origin` to `destination`.
fn push_promotions(moves: &mut Vec<Move>, origin: u8, destination: u8, c: Color)
    requires
        old(moves)@.no_duplicates(),
        sorted_moves(old(moves)@),
        forall|i: int| 0 <= i < old(moves)@.len() ==> move_key(#[trigger] old(moves)@[i]) < origin * 76800 + destination * 300,
        forall|m: Move| old(moves)@.contains(m) ==> m.destination != destination,
    ensures
        final(moves)@.no_duplicates(),
        sorted_moves(final(moves)@),
        final(moves)@.len() == old(moves)@.len() + 4,
        forall|i: int| 0 <= i < old(moves)@.len() ==> final(moves)@[i] == old(moves)@[i],
        forall|i: int| old(moves)@.len() <= i < final(moves)@.len() ==> (#[trigger] final(moves)@[i]).origin == origin && final(moves)@[i].destination == destination,
        forall|m: Move| #[trigger]
            final(moves)@.contains(m) <==> (old(moves)@.contains(m) || (m.origin == origin
                && m.destination == destination && (m.promotion == Some(piece_of(c, WHITE_BISHOP))
                || m.promotion == Some(piece_of(c, WHITE_KNIGHT)) || m.promotion == Some(
                piece_of(c, WHITE_ROOK),
            ) || m.promotion == Some(piece_of(c, WHITE_QUEEN))))),
{
    let (bishop, knight, rook, queen) = match c {
        Color::White => (WHITE_BISHOP, WHITE_KNIGHT, WHITE_ROOK, WHITE_QUEEN),
        Color::Black => (BLACK_BISHOP, BLACK_KNIGHT, BLACK_ROOK, BLACK_QUEEN),
    };
    let ghost base = origin * 76800 + destination * 300;
    push_new_move(moves, Move { origin, destination, promotion: Some(bishop) });
    push_new_move(moves, Move { origin, destination, promotion: Some(knight) });
    push_new_move(moves, Move { origin, destination, promotion: Some(rook) });
    push_new_move(moves, Move { origin, destination, promotion: Some(queen) });
}

impl Board {
    /// Is square `s` occupied?
    pub fn is_occupied(&self, s: u8) -> (r: bool)
        requires
            self.wf(),
            s < 64,
        ensures
            r == (self.squares[s as int] != EMPTY),
    {
        proof {
            lemma_and_single(self.all_pieces, s as int);
        }
        self.all_pieces & (1u64 << s) != 0
    }

    /// Does square `s` hold a piece of colour `c`?
    pub fn holds_color(&self, s: u8, c: Color) -> (r: bool)
        requires
            self.wf(),
            s < 64,
        ensures
            r == piece_color_is(self.squares[s as int], c),
    {
        let pieces = match c {
            Color::White => self.white_pieces,
            Color::Black => self.black_pieces,
        };
        proof {
            lemma_and_single(pieces, s as int);
        }
        pieces & (1u64 << s) != 0
    }

    /// Squares a pawn of colour `c` on `origin` can go to.
    fn pawn_targets(&self, origin: u8, c: Color) -> (t: u64)
        requires
            self.wf(),
            origin < 64,
        ensures
            forall|d: int| #[trigger] has_bit(t, d) <==> (0 <= d < 64 && pawn_reach(*self, origin as int, c, d)),
    {
        let mut t: u64 = 0;
        proof {
            lemma_bit_zero();
        }
        let file = origin % 8;
        let ep = self.en_passant_square;
        match c {
            Color::White => {
                if origin + 8 < 64 && !self.is_occupied(origin + 8) {
                    t = add_square(t, origin + 8);
                }
                if origin >= 8 && origin <= 15 && !self.is_occupied(origin + 8) && !self.is_occupied(origin + 16) {
                    t = add_square(t, origin + 16);
                }
                if file != 0 && origin + 7 < 64 {
                    let d = origin + 7;
                    if self.holds_color(d, Color::Black) || (d == ep && !self.is_occupied(d)) {
                        t = add_square(t, d);
                    }
                }
                if file != 7 && origin + 9 < 64 {
                    let d = origin + 9;
                    if self.holds_color(d, Color::Black) || (d == ep && !self.is_occupied(d)) {
                        t = add_square(t, d);
                    }
                }
            },
            Color::Black => {
                if origin >= 8 && !self.is_occupied(origin - 8) {
                    t = add_square(t, origin - 8);
                }
                if origin >= 48 && origin <= 55 && !self.is_occupied(origin - 8) && !self.is_occupied(origin - 16) {
                    t = add_square(t, origin - 16);
                }
                if file != 7 && origin >= 7 {
                    let d = origin - 7;
                    if self.holds_color(d, Color::White) || (d == ep && !self.is_occupied(d)) {
                        t = add_square(t, d);
                    }
                }
                if file != 0 && origin >= 9 {
                    let d = origin - 9;
                    if self.holds_color(d, Color::White) || (d == ep && !self.is_occupied(d)) {
                        t = add_square(t, d);
                    }
                }
            },
        }
        t
    }

    /// Squares a king of colour `c` on `origin` can castle to.
    fn castling_targets(&self, origin: u8, c: Color) -> (t: u64)
        requires
            self.wf(),
            origin < 64,
        ensures
            forall|d: int| #[trigger] has_bit(t, d) <==> castle_reach(*self, origin as int, c, d),
    {
        let mut t: u64 = 0;
        proof {
            lemma_bit_zero();
        }
        match c {
            Color::White => {
                if origin == 4 && !self.is_square_attacked(4, Color::Black) {
                    if self.castling_rights & 1 != 0 && self.squares[5] == EMPTY && self.squares[6]
                        == EMPTY && self.squares[7] == WHITE_ROOK && !self.is_square_attacked(
                        5,
                        Color::Black,
                    ) {
                        t = add_square(t, 6);
                    }
                    if self.castling_rights & 2 != 0 && self.squares[3] == EMPTY && self.squares[2]
                        == EMPTY && self.squares[1] == EMPTY && self.squares[0] == WHITE_ROOK
                        && !self.is_square_attacked(3, Color::Black) {
                        t = add_square(t, 2);
                    }
                }
            },
            Color::Black => {
                if origin == 60 && !self.is_square_attacked(60, Color::White) {
                    if self.castling_rights & 4 != 0 && self.squares[61] == EMPTY
                        && self.squares[62] == EMPTY && self.squares[63] == BLACK_ROOK
                        && !self.is_square_attacked(61, Color::White) {
                        t = add_square(t, 62);
                    }
                    if self.castling_rights & 8 != 0 && self.squares[59] == EMPTY
                        && self.squares[58] == EMPTY && self.squares[57] == EMPTY
                        && self.squares[56] == BLACK_ROOK && !self.is_square_attacked(
                        59,
                        Color::White,
                    ) {
                        t = add_square(t, 58);
                    }
                }
            },
        }
        t
    }

    /// Squares the piece `piece` standing on `origin` can move to.
    fn piece_targets(&self, origin: u8, piece: u8) -> (targets: u64)
        requires
            self.wf(),
            origin < 64,
        ensures
            forall|d: int| #[trigger] has_bit(targets, d) <==> reach(*self, origin as int, piece, d),
    {
        let c = if piece <= 6 {
            Color::White
        } else {
            Color::Black
        };
        let own = match c {
            Color::White => self.white_pieces,
            Color::Black => self.black_pieces,
        };
        let free = !own;
        proof {
            self.lemma_all_pieces();
            lemma_bit_not(own);
            lemma_bit_zero();
        }
        assert forall|d: int| 0 <= d < 64 implies (#[trigger] has_bit(free, d) <==> !piece_color_is(self.squares[d], c)) by {
            assert(has_bit(own, d) <==> piece_color_is(self.squares[d], c));
        }
        let kind = if 1 <= piece && piece <= 6 {
            piece
        } else if 7 <= piece && piece <= 12 {
            piece - 6
        } else {
            0
        };
        assert(kind == kind_of(piece));
        assert(c == color_of(piece));
        if kind == WHITE_PAWN {
            self.pawn_targets(origin, c)
        } else if kind == WHITE_KNIGHT {
            let a = knight_attacks(origin);
            proof {
                lemma_bit_and(a, free);
            }
            let t = a & free;
            assert forall|d: int| #[trigger] has_bit(t, d) <==> reach(*self, origin as int, piece, d) by {
                if 0 <= d < 64 {
                    assert(has_bit(free, d) <==> !piece_color_is(self.squares[d], c));
                    assert(has_bit(a, d) <==> knight_jump(origin as int, d));
                }
            }
            t
        } else if kind == WHITE_BISHOP {
            let a = bishop_attacks_bruteforce(origin as i32, self.all_pieces);
            proof {
                lemma_bit_and(a, free);
            }
            let t = a & free;
            assert forall|d: int| #[trigger] has_bit(t, d) <==> reach(*self, origin as int, piece, d) by {
                if 0 <= d < 64 {
                    assert(has_bit(free, d) <==> !piece_color_is(self.squares[d], c));
                    assert(has_bit(a, d) <==> bishop_ray(occupancy(self.squares@), origin as int, d));
                }
            }
            t
        } else if kind == WHITE_ROOK {
            let a = rook_attacks_bruteforce(origin as i32, self.all_pieces);
            proof {
                lemma_bit_and(a, free);
            }
            let t = a & free;
            assert forall|d: int| #[trigger] has_bit(t, d) <==> reach(*self, origin as int, piece, d) by {
                if 0 <= d < 64 {
                    assert(has_bit(free, d) <==> !piece_color_is(self.squares[d], c));
                    assert(has_bit(a, d) <==> rook_ray(occupancy(self.squares@), origin as int, d));
                }
            }
            t
        } else if kind == WHITE_QUEEN {
            let r = rook_attacks_bruteforce(origin as i32, self.all_pieces);
            let b = bishop_attacks_bruteforce(origin as i32, self.all_pieces);
            proof {
                lemma_bit_or(r, b);
                lemma_bit_and(r | b, free);
            }
            let t = (r | b) & free;
            assert forall|d: int| #[trigger] has_bit(t, d) <==> reach(*self, origin as int, piece, d) by {
                if 0 <= d < 64 {
                    assert(has_bit(free, d) <==> !piece_color_is(self.squares[d], c));
                    assert(has_bit(r, d) <==> rook_ray(occupancy(self.squares@), origin as int, d));
                    assert(has_bit(b, d) <==> bishop_ray(occupancy(self.squares@), origin as int, d));
                    assert(has_bit(r | b, d) <==> (has_bit(r, d) || has_bit(b, d)));
                }
            }
            t
        } else if kind == WHITE_KING {
            let a = king_attacks(origin);
            let castles = self.castling_targets(origin, c);
            proof {
                lemma_bit_and(a, free);
                lemma_bit_or(a & free, castles);
            }
            let t = (a & free) | castles;
            assert forall|d: int| #[trigger] has_bit(t, d) <==> reach(*self, origin as int, piece, d) by {
                assert(has_bit(castles, d) <==> castle_reach(*self, origin as int, c, d));
                assert(has_bit(t, d) <==> (has_bit(a & free, d) || has_bit(castles, d)));
                if 0 <= d < 64 {
                    assert(has_bit(free, d) <==> !piece_color_is(self.squares[d], c));
                    assert(has_bit(a, d) <==> king_step(origin as int, d));
                }
            }
            t
        } else {
            0
        }
    }

    /// The pseudo-legal moves of the piece `piece` standing on `origin`, without repeats.
    pub fn move_generator(&self, origin: u8, piece: u8) -> (moves: Vec<Move>)
        requires
            self.wf(),
            origin < 64,
        ensures
            moves@.no_duplicates(),
            sorted_moves(moves@),
            forall|m: Move| #[trigger] moves@.contains(m) <==> pseudo_legal(*self, origin as int, piece, m),
    {
        let targets = self.piece_targets(origin, piece);
        let pawn = if piece == WHITE_PAWN {
            Some(Color::White)
        } else if piece == BLACK_PAWN {
            Some(Color::Black)
        } else {
            None
        };
        moves_to_targets(origin, targets, pawn)
    }
}

} // verus!
