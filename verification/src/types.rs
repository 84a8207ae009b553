//! Colours, piece codes, squares and moves.
use vstd::prelude::*;

verus! {

#[derive(Copy, Clone, Debug, PartialEq, Eq, Structural)]
pub enum Color {
    White,
    Black,
}

impl Color {
    pub open spec fn spec_opposite(self) -> Color {
        match self {
            Color::White => Color::Black,
            Color::Black => Color::White,
        }
    }

    pub fn opposite(self) -> (r: Color)
        ensures
            r == self.spec_opposite(),
            r != self,
    {
        match self {
            Color::White => Color::Black,
            Color::Black => Color::White,
        }
    }
}

pub const EMPTY: u8 = 0;

pub const WHITE_PAWN: u8 = 1;

pub const WHITE_ROOK: u8 = 2;

pub const WHITE_KNIGHT: u8 = 3;

pub const WHITE_BISHOP: u8 = 4;

pub const WHITE_QUEEN: u8 = 5;

pub const WHITE_KING: u8 = 6;

pub const BLACK_PAWN: u8 = 7;

pub const BLACK_ROOK: u8 = 8;

pub const BLACK_KNIGHT: u8 = 9;

pub const BLACK_BISHOP: u8 = 10;

pub const BLACK_QUEEN: u8 = 11;

pub const BLACK_KING: u8 = 12;

/// The en passant square when there is none.
pub const NO_SQUARE: u8 = 64;

/// Piece code of the given kind (1 pawn .. 6 king, in the white numbering) for a colour.
pub open spec fn piece_of(color: Color, white_code: u8) -> u8 {
    match color {
        Color::White => white_code,
        Color::Black => (white_code + 6) as u8,
    }
}

pub open spec fn is_white_piece(p: u8) -> bool {
    1 <= p <= 6
}

pub open spec fn is_black_piece(p: u8) -> bool {
    7 <= p <= 12
}

/// The piece belongs to `color`.
pub open spec fn piece_color_is(p: u8, color: Color) -> bool {
    match color {
        Color::White => is_white_piece(p),
        Color::Black => is_black_piece(p),
    }
}

pub open spec fn rank_of(s: int) -> int {
    s / 8
}

pub open spec fn file_of(s: int) -> int {
    s % 8
}

pub open spec fn square_at(rank: int, file: int) -> int {
    rank * 8 + file
}

pub open spec fn on_board(rank: int, file: int) -> bool {
    0 <= rank < 8 && 0 <= file < 8
}

#[derive(Copy, Clone, Debug, PartialEq, Eq, Structural)]
pub struct Move {
    pub origin: u8,
    pub destination: u8,
    pub promotion: Option<u8>,
}

/// Rank of a promotion in the order moves are listed: none first, then bishop, knight, rook
/// and queen of white, then those of black.
pub open spec fn promotion_rank(p: Option<u8>) -> int {
    match p {
        None => 0,
        Some(x) => if x == WHITE_BISHOP {
            1
        } else if x == WHITE_KNIGHT {
            2
        } else if x == WHITE_ROOK {
            3
        } else if x == WHITE_QUEEN {
            4
        } else if x == BLACK_BISHOP {
            5
        } else if x == BLACK_KNIGHT {
            6
        } else if x == BLACK_ROOK {
            7
        } else if x == BLACK_QUEEN {
            8
        } else {
            9 + x
        },
    }
}

/// Sort key of a move: by origin, then destination, then promotion.
pub open spec fn move_key(m: Move) -> int {
    m.origin * 76800 + m.destination * 300 + promotion_rank(m.promotion)
}

/// The moves are listed in strictly increasing order of their keys.
pub open spec fn sorted_moves(s: Seq<Move>) -> bool {
    forall|i: int, j: int| 0 <= i < j < s.len() ==> move_key(s[i]) < move_key(s[j])
}

/// Different moves have different keys.
pub proof fn lemma_move_key_injective(a: Move, b: Move)
    requires
        move_key(a) == move_key(b),
    ensures
        a == b,
{
    assert(0 <= promotion_rank(a.promotion) < 300);
    assert(0 <= promotion_rank(b.promotion) < 300);
    let (ra, rb) = (promotion_rank(a.promotion), promotion_rank(b.promotion));
    assert(a.origin == b.origin) by (nonlinear_arith)
        requires
            a.origin * 76800 + a.destination * 300 + ra == b.origin * 76800 + b.destination * 300 + rb,
            0 <= ra < 300,
            0 <= rb < 300,
            0 <= a.destination < 256,
            0 <= b.destination < 256,
    ;
    assert(a.destination == b.destination) by (nonlinear_arith)
        requires
            a.destination * 300 + ra == b.destination * 300 + rb,
            0 <= ra < 300,
            0 <= rb < 300,
    ;
    assert(a.promotion == b.promotion);
}

/// Two strictly sorted lists holding the same moves are equal.
pub proof fn lemma_sorted_unique(s1: Seq<Move>, s2: Seq<Move>)
    requires
        sorted_moves(s1),
        sorted_moves(s2),
        forall|m: Move| s1.contains(m) <==> s2.contains(m),
    ensures
        s1 == s2,
    decreases s1.len(),
{
    if s1.len() == 0 {
        if s2.len() > 0 {
            assert(s2.contains(s2[0]));
        }
    } else {
        assert(s1.contains(s1.last()));
        assert(s2.len() > 0);
        assert(s2.contains(s2.last()));
        let i = choose|i: int| 0 <= i < s2.len() && s2[i] == s1.last();
        let j = choose|j: int| 0 <= j < s1.len() && s1[j] == s2.last();
        if i < s2.len() - 1 {
            assert(move_key(s2[i]) < move_key(s2.last()));
            if j < s1.len() - 1 {
                assert(move_key(s1[j]) < move_key(s1.last()));
            }
        }
        if j < s1.len() - 1 {
            assert(move_key(s1[j]) < move_key(s1.last()));
        }
        assert(s1.last() == s2.last()) by {
            lemma_move_key_injective(s1.last(), s2.last());
        }
        let t1 = s1.drop_last();
        let t2 = s2.drop_last();
        assert forall|m: Move| t1.contains(m) <==> t2.contains(m) by {
            if t1.contains(m) {
                let k = choose|k: int| 0 <= k < t1.len() && t1[k] == m;
                assert(s1.contains(m));
                assert(move_key(m) < move_key(s1.last()));
                let k2 = choose|k2: int| 0 <= k2 < s2.len() && s2[k2] == m;
                if k2 == s2.len() - 1 {
                    assert(false);
                }
                assert(t2[k2] == m);
            }
            if t2.contains(m) {
                let k = choose|k: int| 0 <= k < t2.len() && t2[k] == m;
                assert(s2.contains(m));
                assert(move_key(m) < move_key(s2.last()));
                let k2 = choose|k2: int| 0 <= k2 < s1.len() && s1[k2] == m;
                if k2 == s1.len() - 1 {
                    assert(false);
                }
                assert(t1[k2] == m);
            }
        }
        lemma_sorted_unique(t1, t2);
        assert(s1 =~= t1.push(s1.last()));
        assert(s2 =~= t2.push(s2.last()));
    }
}

} // verus!
