//! Legal moves: pseudo-legal moves that do not leave the mover's own king attacked.
use vstd::prelude::*;
use crate::attacks::in_check_on;
use crate::board::Board;
use crate::movegen::{pseudo_legal, color_of, kind_of, push_new_move};
use crate::types::{
    Color, Move, move_key, sorted_moves, lemma_sorted_unique, piece_of, piece_color_is, EMPTY, WHITE_PAWN, BLACK_PAWN, WHITE_KING, BLACK_KING,
};

verus! {

/// A pawn moving from `m.origin` lands on the empty en passant square, so the pawn it takes
/// stands behind that square.
pub open spec fn is_en_passant_on(sq: Seq<u8>, ep: u8, m: Move) -> bool {
    let piece = sq[m.origin as int];
    (piece == WHITE_PAWN || piece == BLACK_PAWN) && m.destination == ep && sq[m.destination as int]
        == EMPTY
}

/// Square of the pawn taken en passant by a mover of colour `mover` landing on `d`.
pub open spec fn en_passant_victim(d: int, mover: Color) -> int {
    match mover {
        Color::White => d - 8,
        Color::Black => d + 8,
    }
}

/// The squares after the piece on `m.origin` goes to `m.destination` (becoming the promotion
/// piece if there is one), taking a pawn en passant where the move does so. A castling rook
/// stays where it is: this is the board the check test looks at.
pub open spec fn squares_after_bits(b: Board, m: Move, mover: Color) -> Seq<u8> {
    let sq = b.squares@;
    let piece = sq[m.origin as int];
    let d = m.destination as int;
    let sq1 = if is_en_passant_on(sq, b.en_passant_square, m) {
        sq.update(en_passant_victim(d, mover), EMPTY)
    } else {
        sq
    };
    let placed = match m.promotion {
        Some(p) => p,
        None => piece,
    };
    sq1.update(d, placed).update(m.origin as int, EMPTY)
}

/// Some square of `sq` holds piece `p`.
pub open spec fn seq_has(sq: Seq<u8>, p: u8) -> bool {
    exists|s: int| 0 <= s < 64 && sq[s] == p
}

/// The check test of a move can run: the en passant victim square is on the board, the
/// placed piece is a piece code, and the mover still has a king afterwards.
pub open spec fn bits_move_defined(b: Board, m: Move, mover: Color) -> bool {
    &&& m.origin < 64
    &&& m.destination < 64
    &&& is_en_passant_on(b.squares@, b.en_passant_square, m) ==> 0 <= en_passant_victim(
        m.destination as int,
        mover,
    ) < 64
    &&& match m.promotion {
        Some(p) => p <= 12,
        None => true,
    }
    &&& seq_has(squares_after_bits(b, m, mover), piece_of(mover, WHITE_KING))
}

/// The en passant square does not sit in front of the side to move's own king, so taking en
/// passant never removes that king.
pub open spec fn en_passant_sane(b: Board) -> bool {
    let e = b.en_passant_square as int;
    let sq = b.squares@;
    e >= 64 || match b.side_to_move {
        Color::White => e < 8 || sq[e - 8] != WHITE_KING,
        Color::Black => e >= 56 || sq[e + 8] != BLACK_KING,
    }
}

/// `m` is a legal move on `b` for the side to move.
pub open spec fn legal(b: Board, m: Move) -> bool {
    let o = m.origin as int;
    let piece = b.squares@[o];
    &&& 0 <= o < 64
    &&& piece_color_is(piece, b.side_to_move)
    &&& pseudo_legal(b, o, piece, m)
    &&& !in_check_on(squares_after_bits(b, m, b.side_to_move), b.side_to_move)
}

impl Board {
    /// Moves the piece of `mv` on the squares only, as the check test needs it.
    fn apply_move_bits(&mut self, mv: &Move, mover_color: Color)
        requires
            mv.origin < 64,
            mv.destination < 64,
            is_en_passant_on(old(self).squares@, old(self).en_passant_square, *mv) ==> 0
                <= en_passant_victim(mv.destination as int, mover_color) < 64,
        ensures
            final(self).squares@ == squares_after_bits(*old(self), *mv, mover_color),
            final(self).same_state(*old(self)),
            final(self).zobrian_hash == old(self).zobrian_hash,
    {
        let piece = self.squares[mv.origin as usize];
        let is_pawn = piece == WHITE_PAWN || piece == BLACK_PAWN;
        if is_pawn && mv.destination == self.en_passant_square && self.squares[mv.destination
            as usize] == EMPTY {
            let captured_square = match mover_color {
                Color::White => mv.destination - 8,
                Color::Black => mv.destination + 8,
            };
            self.squares[captured_square as usize] = EMPTY;
        }
        let placed = match mv.promotion {
            Some(p) => p,
            None => piece,
        };
        self.squares[mv.destination as usize] = placed;
        self.squares[mv.origin as usize] = EMPTY;
        assert(self.squares@ =~= squares_after_bits(*old(self), *mv, mover_color));
    }

    /// Would `mv` leave the king of `mover_color` safe?
    pub fn simulate_move(&self, mv: &Move, mover_color: Color) -> (r: bool)
        requires
            self.wf(),
            bits_move_defined(*self, *mv, mover_color),
        ensures
            r == !in_check_on(squares_after_bits(*self, *mv, mover_color), mover_color),
    {
        let mut clone = *self;
        clone.apply_move_bits(mv, mover_color);
        assert forall|s: int| 0 <= s < 64 implies #[trigger] clone.squares[s] <= 12 by {
            assert(clone.squares@[s] == squares_after_bits(*self, *mv, mover_color)[s]);
        }
        clone.update_bitboards();
        assert(clone.has_piece(piece_of(mover_color, WHITE_KING))) by {
            let w = choose|w: int|
                0 <= w < 64 && squares_after_bits(*self, *mv, mover_color)[w] == piece_of(
                    mover_color,
                    WHITE_KING,
                );
            assert(clone.squares[w] == piece_of(mover_color, WHITE_KING));
        }
        !clone.is_in_check(mover_color)
    }

    /// The legal moves of the piece `piece` standing on `origin`.
    pub fn legal_moves(&self, origin: u8, piece: u8) -> (moves: Vec<Move>)
        requires
            self.wf(),
            origin < 64,
            forall|m: Move|
                pseudo_legal(*self, origin as int, piece, m) ==> bits_move_defined(
                    *self,
                    m,
                    color_of(piece),
                ),
        ensures
            moves@.no_duplicates(),
            sorted_moves(moves@),
            forall|i: int| 0 <= i < moves@.len() ==> (#[trigger] moves@[i]).origin == origin,
            forall|m: Move| #[trigger]
                moves@.contains(m) <==> (pseudo_legal(*self, origin as int, piece, m)
                    && !in_check_on(squares_after_bits(*self, m, color_of(piece)), color_of(piece))),
    {
        let mover_color = if piece <= 6 {
            Color::White
        } else {
            Color::Black
        };
        let pseudo_legal_moves = self.move_generator(origin, piece);
        let mut moves: Vec<Move> = Vec::new();
        let mut i: usize = 0;
        while i < pseudo_legal_moves.len()
            invariant
                self.wf(),
                i <= pseudo_legal_moves@.len(),
                mover_color == color_of(piece),
                pseudo_legal_moves@.no_duplicates(),
                sorted_moves(pseudo_legal_moves@),
                sorted_moves(moves@),
                forall|k: int| 0 <= k < moves@.len() ==> (#[trigger] moves@[k]).origin == origin,
                forall|k: int| #![trigger moves@[k]] 0 <= k < moves@.len() ==> exists|j: int| 0 <= j < i && #[trigger] pseudo_legal_moves@[j] == moves@[k],
                forall|m: Move| #[trigger]
                    pseudo_legal_moves@.contains(m) <==> pseudo_legal(*self, origin as int, piece, m),
                forall|m: Move|
                    pseudo_legal(*self, origin as int, piece, m) ==> bits_move_defined(
                        *self,
                        m,
                        color_of(piece),
                    ),
                moves@.no_duplicates(),
                forall|m: Move| #[trigger]
                    moves@.contains(m) <==> (exists|j: int|
                        0 <= j < i && pseudo_legal_moves@[j] == m && !in_check_on(
                            squares_after_bits(*self, m, mover_color),
                            mover_color,
                        )),
            decreases pseudo_legal_moves@.len() - i,
        {
            let mv = pseudo_legal_moves[i];
            assert(pseudo_legal_moves@.contains(mv));
            let keep = self.simulate_move(&mv, mover_color);
            let ghost prev = moves@;
            if keep {
                proof {
                    if prev.contains(mv) {
                        let j = choose|j: int|
                            0 <= j < i && pseudo_legal_moves@[j] == mv && !in_check_on(
                                squares_after_bits(*self, mv, mover_color),
                                mover_color,
                            );
                        assert(pseudo_legal_moves@[j] == pseudo_legal_moves@[i as int]);
                    }
                }
                assert forall|k: int| 0 <= k < prev.len() implies move_key(prev[k]) < move_key(mv) by {
                    let j = choose|j: int| 0 <= j < i && #[trigger] pseudo_legal_moves@[j] == prev[k];
                }
                assert(mv.origin == origin) by {
                    assert(pseudo_legal(*self, origin as int, piece, mv));
                }
                crate::movegen::push_new_move(&mut moves, mv);
                assert forall|k: int| #![trigger moves@[k]] 0 <= k < moves@.len() implies exists|j: int| 0 <= j < i + 1 && #[trigger] pseudo_legal_moves@[j] == moves@[k] by {
                    if k == prev.len() {
                        assert(pseudo_legal_moves@[i as int] == moves@[k]);
                    } else {
                        assert(moves@[k] == prev[k]);
                        let j = choose|j: int| 0 <= j < i && #[trigger] pseudo_legal_moves@[j] == prev[k];
                    }
                }
            }
            assert forall|m: Move| #[trigger]
                moves@.contains(m) <==> (exists|j: int|
                    0 <= j < i + 1 && pseudo_legal_moves@[j] == m && !in_check_on(
                        squares_after_bits(*self, m, mover_color),
                        mover_color,
                    )) by {
                if moves@.contains(m) && m != mv {
                    assert(prev.contains(m));
                }
                if m == mv && keep {
                    assert(pseudo_legal_moves@[i as int] == m);
                }
                if exists|j: int|
                    0 <= j < i + 1 && pseudo_legal_moves@[j] == m && !in_check_on(
                        squares_after_bits(*self, m, mover_color),
                        mover_color,
                    ) {
                    let j = choose|j: int|
                        0 <= j < i + 1 && pseudo_legal_moves@[j] == m && !in_check_on(
                            squares_after_bits(*self, m, mover_color),
                            mover_color,
                        );
                    if j < i {
                        assert(prev.contains(m));
                    }
                }
            }
            i = i + 1;
        }
        assert forall|m: Move| #[trigger]
            moves@.contains(m) <==> (pseudo_legal(*self, origin as int, piece, m) && !in_check_on(
                squares_after_bits(*self, m, color_of(piece)),
                color_of(piece),
            )) by {
            if pseudo_legal(*self, origin as int, piece, m) {
                assert(pseudo_legal_moves@.contains(m));
                let j = choose|j: int|
                    0 <= j < pseudo_legal_moves@.len() && pseudo_legal_moves@[j] == m;
            }
            if moves@.contains(m) {
                let j = choose|j: int|
                    0 <= j < i && pseudo_legal_moves@[j] == m && !in_check_on(
                        squares_after_bits(*self, m, mover_color),
                        mover_color,
                    );
                assert(pseudo_legal_moves@.contains(m));
            }
        }
        moves
    }
}

/// On a well-formed board whose side to move has a king and a sane en passant square, the
/// check test of every pseudo-legal move of that side's pieces can run.
pub proof fn lemma_bits_move_defined(b: Board, m: Move)
    requires
        b.wf(),
        0 <= m.origin < 64,
        piece_color_is(b.squares@[m.origin as int], b.side_to_move),
        pseudo_legal(b, m.origin as int, b.squares@[m.origin as int], m),
        en_passant_sane(b),
        b.has_piece(piece_of(b.side_to_move, WHITE_KING)),
    ensures
        bits_move_defined(b, m, b.side_to_move),
{
    law_pseudo_legal_moves_testable(b, m.origin as int, b.squares@[m.origin as int], b.side_to_move, m);
}

/// The en passant square does not sit in front of a king of `mover`, so taking en passant
/// with a pawn of `mover` never removes that king.
pub open spec fn en_passant_sane_for(b: Board, mover: Color) -> bool {
    let e = b.en_passant_square as int;
    let sq = b.squares@;
    e >= 64 || match mover {
        Color::White => e < 8 || sq[e - 8] != WHITE_KING,
        Color::Black => e >= 56 || sq[e + 8] != BLACK_KING,
    }
}

/// Law: on a well-formed board where `mover` has a king and no en passant capture of a pawn of
/// `mover` would take that king, the check test of every pseudo-legal move of a piece of
/// `mover` can run: `legal_moves` and `simulate_move` accept every such move.
pub proof fn law_pseudo_legal_moves_testable(b: Board, origin: int, piece: u8, mover: Color, m: Move)
    requires
        b.wf(),
        0 <= origin < 64,
        b.squares@[origin] == piece,
        piece_color_is(piece, mover),
        b.has_piece(piece_of(mover, WHITE_KING)),
        en_passant_sane_for(b, mover),
        pseudo_legal(b, origin, piece, m),
    ensures
        bits_move_defined(b, m, mover),
{
    let sq = b.squares@;
    let o = m.origin as int;
    let d = m.destination as int;
    let c = mover;
    let k = piece_of(c, WHITE_KING);
    assert(o == origin);
    assert(color_of(piece) == c);
    assert(!piece_color_is(sq[d], c));
    let after = squares_after_bits(b, m, c);
    let w = choose|w: int| 0 <= w < 64 && b.squares[w] == k;
    if w == o {
        assert(kind_of(piece) == WHITE_KING);
        assert(d != o);
        assert(after[d] == k);
    } else {
        assert(w != d);
        if is_en_passant_on(sq, b.en_passant_square, m) {
            assert(w != en_passant_victim(d, c));
        }
        assert(after[w] == k);
    }
}

/// The legal moves of `b` in increasing order of their keys.
pub open spec fn legal_list(b: Board) -> Seq<Move> {
    choose|s: Seq<Move>| sorted_moves(s) && (forall|m: Move| #[trigger] s.contains(m) <==> legal(b, m))
}

/// When some sorted list holds exactly the legal moves, `legal_list` is such a list.
proof fn lemma_legal_list_exists(b: Board, s: Seq<Move>)
    requires
        sorted_moves(s),
        forall|m: Move| #[trigger] s.contains(m) <==> legal(b, m),
    ensures
        sorted_moves(legal_list(b)),
        forall|m: Move| #[trigger] legal_list(b).contains(m) <==> legal(b, m),
{
}

impl Board {
    /// Every legal move of the side to move, without repeats.
    pub fn all_legal_moves(&self) -> (moves: Vec<Move>)
        requires
            self.wf(),
            self.has_piece(piece_of(self.side_to_move, WHITE_KING)),
            en_passant_sane(*self),
        ensures
            moves@.no_duplicates(),
            sorted_moves(moves@),
            forall|m: Move| #[trigger] moves@.contains(m) <==> legal(*self, m),
            moves@ == legal_list(*self),
    {
        let mut moves: Vec<Move> = Vec::new();
        let mut origin: u8 = 0;
        while origin < 64
            invariant
                self.wf(),
                self.has_piece(piece_of(self.side_to_move, WHITE_KING)),
                en_passant_sane(*self),
                origin <= 64,
                moves@.no_duplicates(),
                sorted_moves(moves@),
                forall|k: int| 0 <= k < moves@.len() ==> (#[trigger] moves@[k]).origin < origin,
                forall|m: Move| #[trigger]
                    moves@.contains(m) <==> (legal(*self, m) && m.origin < origin),
            decreases 64 - origin,
        {
            let piece = self.squares[origin as usize];
            let own = match self.side_to_move {
                Color::White => 1 <= piece && piece <= 6,
                Color::Black => 7 <= piece && piece <= 12,
            };
            if own {
                assert forall|m: Move|
                    pseudo_legal(*self, origin as int, piece, m) implies bits_move_defined(
                    *self,
                    m,
                    color_of(piece),
                ) by {
                    lemma_bits_move_defined(*self, m);
                }
                let found = self.legal_moves(origin, piece);
                let ghost before = moves@;
                let mut j: usize = 0;
                while j < found.len()
                    invariant
                        j <= found@.len(),
                        found@.no_duplicates(),
                        forall|m: Move| #[trigger]
                            found@.contains(m) <==> (pseudo_legal(*self, origin as int, piece, m)
                                && !in_check_on(
                                squares_after_bits(*self, m, color_of(piece)),
                                color_of(piece),
                            )),
                        moves@.no_duplicates(),
                        sorted_moves(found@),
                        forall|k: int| 0 <= k < found@.len() ==> (#[trigger] found@[k]).origin == origin,
                        sorted_moves(moves@),
                        moves@.len() == before.len() + j,
                        forall|k: int| 0 <= k < before.len() ==> (#[trigger] before[k]).origin < origin,
                        forall|k: int| 0 <= k < before.len() ==> moves@[k] == before[k],
                        forall|k: int| before.len() <= k < moves@.len() ==> moves@[k] == found@[k - before.len()],
                        forall|m: Move| #[trigger]
                            before.contains(m) ==> m.origin < origin,
                        forall|m: Move| #[trigger]
                            moves@.contains(m) <==> (before.contains(m) || exists|k: int|
                                0 <= k < j && found@[k] == m),
                    decreases found@.len() - j,
                {
                    let mv = found[j];
                    assert(found@.contains(mv));
                    proof {
                        if moves@.contains(mv) {
                            if !before.contains(mv) {
                                let k = choose|k: int| 0 <= k < j && found@[k] == mv;
                                assert(found@[k] == found@[j as int]);
                            }
                        }
                    }
                    let ghost prev = moves@;
                    assert forall|k: int| 0 <= k < prev.len() implies move_key(prev[k]) < move_key(mv) by {
                        if k < before.len() {
                            assert(prev[k] == before[k]);
                            assert(prev[k].origin < origin);
                        } else {
                            assert(prev[k] == found@[k - before.len()]);
                        }
                    }
                    push_new_move(&mut moves, mv);
                    assert forall|m: Move| #[trigger]
                        moves@.contains(m) <==> (before.contains(m) || exists|k: int|
                            0 <= k < j + 1 && found@[k] == m) by {
                        if m == mv {
                            assert(found@[j as int] == m);
                        }
                        if exists|k: int| 0 <= k < j + 1 && found@[k] == m {
                            let k = choose|k: int| 0 <= k < j + 1 && found@[k] == m;
                            if k < j {
                                assert(prev.contains(m));
                            }
                        }
                    }
                    j = j + 1;
                }
                assert forall|k: int| 0 <= k < moves@.len() implies (#[trigger] moves@[k]).origin < origin + 1 by {
                    if k < before.len() {
                        assert(moves@[k] == before[k]);
                    } else {
                        assert(moves@[k] == found@[k - before.len()]);
                    }
                }
                assert forall|m: Move| #[trigger]
                    moves@.contains(m) <==> (legal(*self, m) && m.origin < origin + 1) by {
                    if exists|k: int| 0 <= k < found@.len() && found@[k] == m {
                        let k = choose|k: int| 0 <= k < found@.len() && found@[k] == m;
                        assert(found@.contains(m));
                    }
                    if legal(*self, m) && m.origin == origin {
                        assert(found@.contains(m));
                        let k = choose|k: int| 0 <= k < found@.len() && found@[k] == m;
                    }
                }
            } else {
                assert forall|m: Move| #[trigger]
                    moves@.contains(m) <==> (legal(*self, m) && m.origin < origin + 1) by {
                    if legal(*self, m) && m.origin == origin {
                        assert(piece_color_is(piece, self.side_to_move));
                    }
                }
            }
            origin = origin + 1;
        }
        proof {
            lemma_legal_list_exists(*self, moves@);
            lemma_sorted_unique(moves@, legal_list(*self));
        }
        moves
    }
}

} // verus!
