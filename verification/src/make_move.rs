//! Making moves on a position, and taking them back.
use vstd::prelude::*;
use crate::bits::{has_bit, single, lemma_bit_xor, lemma_bit_or, lemma_bit_or_single};
use crate::board::Board;
use crate::game::Position;
use crate::zobrist::{hash_after_update, action_hashable, piece_key, placed_piece, castling_hash, en_passant_hash};
use crate::zobrist_keys::SIDE_KEY;
use crate::bits::lemma_xor_facts;
use crate::types::{
    Move, EMPTY, NO_SQUARE, WHITE_PAWN, BLACK_PAWN, WHITE_ROOK, BLACK_ROOK, WHITE_KING,
    BLACK_KING, is_white_piece, is_black_piece,
};

verus! {

/// What a made move changed, so that it can be taken back.
#[derive(Copy, Clone, Debug, PartialEq, Eq, Structural)]
pub struct Action {
    pub mv: Move,
    pub captured_piece: Option<u8>,
    pub captured_square: Option<u8>,
    pub moved_piece: u8,
    pub previous_castling_rights: u8,
    pub previous_en_passant_square: u8,
    pub previous_halfmove_clock: u8,
}

pub const WHITE_SHORT_CASTLE: u8 = 0x01;

pub const WHITE_LONG_CASTLE: u8 = 0x02;

pub const BLACK_SHORT_CASTLE: u8 = 0x04;

pub const BLACK_LONG_CASTLE: u8 = 0x08;

/// A king moving two squares sideways: a castle.
pub open spec fn is_castle_jump(moved: u8, m: Move) -> bool {
    (moved == WHITE_KING || moved == BLACK_KING) && (m.origin - m.destination == 2
        || m.destination - m.origin == 2)
}

/// Corner the castling rook leaves, given the king's destination.
pub open spec fn castle_rook_origin(king_destination: u8) -> int {
    if king_destination == 2 {
        0
    } else if king_destination == 6 {
        7
    } else if king_destination == 58 {
        56
    } else {
        63
    }
}

/// Square the castling rook lands on, given the king's destination.
pub open spec fn castle_rook_destination(king_destination: u8) -> int {
    if king_destination == 2 {
        3
    } else if king_destination == 6 {
        5
    } else if king_destination == 58 {
        59
    } else {
        61
    }
}

pub open spec fn is_pawn_code(p: u8) -> bool {
    p == WHITE_PAWN || p == BLACK_PAWN
}

/// The move is a pawn landing on the empty en passant square, taking the pawn behind it.
pub open spec fn takes_en_passant(b: Board, m: Move) -> bool {
    let sq = b.squares@;
    is_pawn_code(sq[m.origin as int]) && sq[m.destination as int] == EMPTY && m.destination
        == b.en_passant_square
}

/// Square of the pawn taken en passant: behind the destination, seen from the mover.
pub open spec fn en_passant_capture_square(b: Board, m: Move) -> int {
    if b.squares@[m.origin as int] == WHITE_PAWN {
        m.destination - 8
    } else {
        m.destination + 8
    }
}

/// The piece a move takes and the square it stood on.
pub open spec fn capture_of(b: Board, m: Move) -> (Option<u8>, Option<u8>) {
    let sq = b.squares@;
    if takes_en_passant(b, m) {
        let cs = en_passant_capture_square(b, m);
        (Some(sq[cs]), Some(cs as u8))
    } else if sq[m.destination as int] != EMPTY {
        (Some(sq[m.destination as int]), Some(m.destination))
    } else {
        (None, None)
    }
}

/// The record `make_move` keeps of move `m` on board `b`.
pub open spec fn action_of(b: Board, m: Move) -> Action {
    Action {
        mv: m,
        captured_piece: capture_of(b, m).0,
        captured_square: capture_of(b, m).1,
        moved_piece: b.squares@[m.origin as int],
        previous_castling_rights: b.castling_rights,
        previous_en_passant_square: b.en_passant_square,
        previous_halfmove_clock: b.halfmove_clock,
    }
}

/// Piece placed on the destination: the promotion piece, else the moved piece.
pub open spec fn placed_on_destination(b: Board, m: Move) -> u8 {
    match m.promotion {
        Some(p) => p,
        None => b.squares@[m.origin as int],
    }
}

/// The squares after `m`: an en passant victim is removed, a castling rook jumps over the
/// king, the placed piece lands on the destination and the origin is emptied.
pub open spec fn squares_after_move(b: Board, m: Move) -> Seq<u8> {
    let sq0 = b.squares@;
    let moved = sq0[m.origin as int];
    let sq1 = if takes_en_passant(b, m) {
        sq0.update(en_passant_capture_square(b, m), EMPTY)
    } else {
        sq0
    };
    let sq2 = if is_castle_jump(moved, m) {
        let ro = castle_rook_origin(m.destination);
        let rd = castle_rook_destination(m.destination);
        sq1.update(rd, sq1[ro]).update(ro, EMPTY)
    } else {
        sq1
    };
    sq2.update(m.destination as int, placed_on_destination(b, m)).update(m.origin as int, EMPTY)
}

/// Castling rights after `m`: a king move loses both rights of its side, a rook leaving its
/// corner or taken on it loses that corner's right.
pub open spec fn rights_after_move(b: Board, m: Move) -> u8 {
    let r0 = b.castling_rights;
    let moved = b.squares@[m.origin as int];
    let o = m.origin;
    let r1 = if moved == WHITE_KING {
        r0 & !(WHITE_SHORT_CASTLE | WHITE_LONG_CASTLE)
    } else if moved == BLACK_KING {
        r0 & !(BLACK_SHORT_CASTLE | BLACK_LONG_CASTLE)
    } else if moved == WHITE_ROOK && o == 0 {
        r0 & !WHITE_LONG_CASTLE
    } else if moved == WHITE_ROOK && o == 7 {
        r0 & !WHITE_SHORT_CASTLE
    } else if moved == BLACK_ROOK && o == 56 {
        r0 & !BLACK_LONG_CASTLE
    } else if moved == BLACK_ROOK && o == 63 {
        r0 & !BLACK_SHORT_CASTLE
    } else {
        r0
    };
    match capture_of(b, m) {
        (Some(cp), Some(cs)) => if cp == WHITE_ROOK && cs == 0 {
            r1 & !WHITE_LONG_CASTLE
        } else if cp == WHITE_ROOK && cs == 7 {
            r1 & !WHITE_SHORT_CASTLE
        } else if cp == BLACK_ROOK && cs == 56 {
            r1 & !BLACK_LONG_CASTLE
        } else if cp == BLACK_ROOK && cs == 63 {
            r1 & !BLACK_SHORT_CASTLE
        } else {
            r1
        },
        _ => r1,
    }
}

/// En passant square after `m`: the square a pawn passed over on a double push, else none.
pub open spec fn en_passant_after_move(b: Board, m: Move) -> u8 {
    if is_pawn_code(b.squares@[m.origin as int]) && (m.origin - m.destination == 16
        || m.destination - m.origin == 16) {
        ((m.origin + m.destination) / 2) as u8
    } else {
        NO_SQUARE
    }
}

/// Half-move clock after `m`: reset by a capture or a pawn move, else one more (staying at
/// its maximum).
pub open spec fn clock_after_move(b: Board, m: Move) -> u8 {
    if capture_of(b, m).0 is Some || is_pawn_code(b.squares@[m.origin as int]) {
        0
    } else if b.halfmove_clock < 255 {
        (b.halfmove_clock + 1) as u8
    } else {
        255
    }
}

/// `make_move` can play `m` on `b`: the squares are on the board, a piece stands on the
/// origin, the placed piece is a piece code, a castling king lands on a castling square of
/// its side with a piece on the rook's corner, and an en passant victim exists on the board.
pub open spec fn move_playable(b: Board, m: Move) -> bool {
    let sq = b.squares@;
    let moved = sq[m.origin as int];
    &&& m.origin < 64
    &&& m.destination < 64
    &&& moved != EMPTY
    &&& 1 <= placed_on_destination(b, m) <= 12
    &&& is_castle_jump(moved, m) ==> {
        &&& moved == WHITE_KING ==> (m.destination == 2 || m.destination == 6)
        &&& moved == BLACK_KING ==> (m.destination == 58 || m.destination == 62)
        &&& sq[castle_rook_origin(m.destination)] != EMPTY
    }
    &&& takes_en_passant(b, m) ==> {
        &&& 0 <= en_passant_capture_square(b, m) < 64
        &&& sq[en_passant_capture_square(b, m)] != EMPTY
    }
}

/// The squares `m` touches do not overlap, so the bitboards can follow the squares.
pub open spec fn move_sane(b: Board, m: Move) -> bool {
    let sq = b.squares@;
    let moved = sq[m.origin as int];
    &&& m.origin != m.destination
    &&& is_castle_jump(moved, m) ==> {
        &&& m.origin != castle_rook_origin(m.destination)
        &&& m.origin != castle_rook_destination(m.destination)
        &&& sq[castle_rook_destination(m.destination)] == EMPTY
    }
    &&& takes_en_passant(b, m) ==> m.origin != en_passant_capture_square(b, m)
}

/// Toggles the squares of `mask` in bitboard `idx`.
fn toggle_bitboard(bbs: &mut [u64; 12], idx: usize, mask: u64)
    requires
        idx < 12,
    ensures
        forall|p: int, t: int|
            0 <= p < 12 ==> (#[trigger] has_bit(final(bbs)[p], t) <==> (has_bit(old(bbs)[p], t)
                != (p == idx && has_bit(mask, t)))),
{
    proof {
        lemma_bit_xor(old(bbs)[idx as int], mask);
    }
    bbs[idx] = bbs[idx] ^ mask;
}

/// Union of six consecutive bitboards starting at `start`.
fn union_of_six(bbs: &[u64; 12], start: usize) -> (u: u64)
    requires
        start == 0 || start == 6,
    ensures
        forall|t: int| #[trigger] has_bit(u, t) <==> (exists|p: int| start <= p < start + 6 && has_bit(bbs[p], t)),
{
    let u = bbs[start] | bbs[start + 1] | bbs[start + 2] | bbs[start + 3] | bbs[start + 4] | bbs[start + 5];
    proof {
        let b = *bbs;
        let st = start as int;
        lemma_bit_or(b[st], b[st + 1]);
        lemma_bit_or(b[st] | b[st + 1], b[st + 2]);
        lemma_bit_or(b[st] | b[st + 1] | b[st + 2], b[st + 3]);
        lemma_bit_or(b[st] | b[st + 1] | b[st + 2] | b[st + 3], b[st + 4]);
        lemma_bit_or(b[st] | b[st + 1] | b[st + 2] | b[st + 3] | b[st + 4], b[st + 5]);
        assert forall|t: int| #[trigger] has_bit(u, t) <==> (exists|p: int| st <= p < st + 6 && has_bit(b[p], t)) by {
            if exists|p: int| st <= p < st + 6 && has_bit(b[p], t) {
                let p = choose|p: int| st <= p < st + 6 && has_bit(b[p], t);
                assert(p == st || p == st + 1 || p == st + 2 || p == st + 3 || p == st + 4 || p == st + 5);
            }
        }
    }
    u
}

impl Board {
    pub fn reset_clock(&mut self)
        ensures
            *final(self) == (Board { halfmove_clock: 0, ..*old(self) }),
    {
        self.halfmove_clock = 0;
    }

    /// One more half-move without a capture or pawn move (the clock stays at its maximum).
    pub fn increase_clock(&mut self)
        ensures
            *final(self) == (Board { halfmove_clock: if old(self).halfmove_clock < 255 {
                (old(self).halfmove_clock + 1) as u8
            } else {
                255
            }, ..*old(self) }),
    {
        if self.halfmove_clock < 255 {
            self.halfmove_clock = self.halfmove_clock + 1;
        }
    }
}

/// Bitboard `p` holds square `t` after `m` exactly when it did before, unless `m` toggles
/// that square for that piece: the mover at its origin, the placed piece at the destination,
/// a castling rook at both its squares, a captured piece at its square.
pub open spec fn toggled(b: Board, m: Move, p: int, t: int) -> bool {
    let sq = b.squares@;
    let o = m.origin as int;
    let d = m.destination as int;
    let moved = sq[o];
    let placed = placed_on_destination(b, m);
    let rook_toggle = is_castle_jump(moved, m) && p + 1 == sq[castle_rook_origin(m.destination)]
        && (t == castle_rook_origin(m.destination) || t == castle_rook_destination(m.destination));
    let capture_toggle = match capture_of(b, m) {
        (Some(cp), Some(cs)) => p + 1 == cp && t == cs,
        _ => false,
    };
    (((p + 1 == moved && t == o) != (p + 1 == placed && t == d)) != rook_toggle) != capture_toggle
}

/// The squares after a playable move hold piece codes.
proof fn lemma_squares_after_valid(b: Board, m: Move, t: int)
    requires
        b.squares_valid(),
        move_playable(b, m),
        0 <= t < 64,
    ensures
        squares_after_move(b, m)[t] <= 12,
{
}

/// The toggles of a sane, playable move turn the old bitboards into those of the new squares.
proof fn lemma_toggled(b: Board, m: Move, p: int, t: int)
    requires
        b.squares_valid(),
        move_playable(b, m),
        move_sane(b, m),
        0 <= p < 12,
        0 <= t < 64,
    ensures
        ((b.squares@[t] == p + 1) != toggled(b, m, p, t)) == (squares_after_move(b, m)[t] == p + 1),
{
    let sq = b.squares@;
    let o = m.origin as int;
    let d = m.destination as int;
    let moved = sq[o];
    let after = squares_after_move(b, m);
    if is_castle_jump(moved, m) {
        assert(!takes_en_passant(b, m));
        let ro = castle_rook_origin(m.destination);
        let rd = castle_rook_destination(m.destination);
        assert(ro != d && rd != d && ro != rd);
        assert(ro != o);
        if t == rd {
            assert(after[t] == sq[ro]);
        }
    }
    if takes_en_passant(b, m) {
        let cs = en_passant_capture_square(b, m);
        assert(cs != d);
    }
}

impl Board {
    /// Brings the bitboards from those of `b0` to those of the squares after `m`.
    fn apply_bitboard_changes(
        &mut self,
        Ghost(b0): Ghost<Board>,
        m: Move,
        moved_piece: u8,
        placed_piece: u8,
        rook_move: Option<(u8, u8)>,
        capture: Option<(u8, u8)>,
    )
        requires
            b0.wf(),
            move_playable(b0, m),
            old(self).piece_bitboards == b0.piece_bitboards,
            old(self).squares@ == squares_after_move(b0, m),
            moved_piece == b0.squares@[m.origin as int],
            placed_piece == placed_on_destination(b0, m),
            rook_move == (if is_castle_jump(moved_piece, m) {
                Some(
                    (
                        castle_rook_origin(m.destination) as u8,
                        castle_rook_destination(m.destination) as u8,
                    ),
                )
            } else {
                None
            }),
            capture == (match capture_of(b0, m) {
                (Some(cp), Some(cs)) => Some((cp, cs)),
                _ => None,
            }),
        ensures
            move_sane(b0, m) ==> final(self).bitboards_match(),
            final(self).squares == old(self).squares,
            final(self).same_state(*old(self)),
            final(self).zobrian_hash == old(self).zobrian_hash,
    {
        let origin_mask = 1u64 << m.origin;
        let destination_mask = 1u64 << m.destination;
        proof {
            lemma_bit_or_single(single(m.origin as int), m.destination as int);
            crate::bits::lemma_bit_single(m.origin as int);
            crate::bits::lemma_bit_single(m.destination as int);
        }
        let ghost o = m.origin as int;
        let ghost d = m.destination as int;
        let ghost sane = move_sane(b0, m);
        assert(origin_mask == single(o));
        assert(destination_mask == single(d));
        if placed_piece == moved_piece {
            toggle_bitboard(&mut self.piece_bitboards, (moved_piece - 1) as usize, origin_mask | destination_mask);
        } else {
            toggle_bitboard(&mut self.piece_bitboards, (moved_piece - 1) as usize, origin_mask);
            toggle_bitboard(&mut self.piece_bitboards, (placed_piece - 1) as usize, destination_mask);
        }
        let ghost bbs1 = self.piece_bitboards;
        assert forall|p: int, t: int| 0 <= p < 12 && sane implies #[trigger] has_bit(bbs1[p], t) == (has_bit(b0.piece_bitboards[p], t)
            != ((p + 1 == moved_piece && t == o) != (p + 1 == placed_piece && t == d))) by {}
        let ghost ro = castle_rook_origin(m.destination);
        let ghost rd = castle_rook_destination(m.destination);
        match rook_move {
            Some((rook_origin, rook_destination)) => {
                let rook_piece = self.squares[rook_destination as usize];
                assert(rook_piece == b0.squares@[castle_rook_origin(m.destination)]);
                proof {
                    lemma_bit_or_single(single(rook_origin as int), rook_destination as int);
                    crate::bits::lemma_bit_single(rook_origin as int);
                }
                assert(1u64 << rook_origin == single(rook_origin as int));
                assert(1u64 << rook_destination == single(rook_destination as int));
                assert(rook_origin as int == castle_rook_origin(m.destination));
                assert(rook_destination as int == castle_rook_destination(m.destination));
                let mask = (1u64 << rook_origin) | (1u64 << rook_destination);
                assert(forall|t: int| has_bit(mask, t) <==> (t == ro || t == rd));
                toggle_bitboard(&mut self.piece_bitboards, (rook_piece - 1) as usize, mask);
                assert(is_castle_jump(moved_piece, m));
                assert forall|p: int, t: int| 0 <= p < 12 implies #[trigger] has_bit(self.piece_bitboards[p], t) == (has_bit(bbs1[p], t)
                    != (is_castle_jump(moved_piece, m) && p + 1 == b0.squares@[ro] && (t == ro || t == rd))) by {}
            },
            None => {
                assert(!is_castle_jump(moved_piece, m));
            },
        }
        let ghost bbs2 = self.piece_bitboards;
        assert forall|p: int, t: int| 0 <= p < 12 implies #[trigger] has_bit(bbs2[p], t) == (has_bit(bbs1[p], t)
            != (is_castle_jump(moved_piece, m) && p + 1 == b0.squares@[ro] && (t == ro || t == rd))) by {}
        match capture {
            Some((captured, csq)) => {
                proof {
                    crate::bits::lemma_bit_single(csq as int);
                }
                assert(1u64 << csq == single(csq as int));
                toggle_bitboard(&mut self.piece_bitboards, (captured - 1) as usize, 1u64 << csq);
            },
            None => {},
        }
        assert forall|p: int, t: int| 0 <= p < 12 implies #[trigger] has_bit(self.piece_bitboards[p], t) == (has_bit(bbs2[p], t)
            != (match capture_of(b0, m) {
                (Some(cp), Some(cs)) => p + 1 == cp && t == cs,
                _ => false,
            })) by {}
        proof {
            if sane {
                assert forall|p: int, t: int| 0 <= p < 12 && 0 <= t < 64 implies
                    (#[trigger] has_bit(self.piece_bitboards[p], t) <==> self.squares[t] == p + 1) by {
                    assert(has_bit(bbs1[p], t) == (has_bit(b0.piece_bitboards[p], t)
                        != ((p + 1 == moved_piece && t == o) != (p + 1 == placed_piece && t == d))));
                    assert(has_bit(self.piece_bitboards[p], t) == (has_bit(b0.piece_bitboards[p], t) != toggled(b0, m, p, t)));
                    lemma_toggled(b0, m, p, t);
                }
            }
        }
        let white = union_of_six(&self.piece_bitboards, 0);
        let black = union_of_six(&self.piece_bitboards, 6);
        self.white_pieces = white;
        self.black_pieces = black;
        proof {
            lemma_bit_or(white, black);
        }
        self.all_pieces = white | black;
        proof {
            if sane {
                assert forall|t: int| 0 <= t < 64 implies (#[trigger] has_bit(self.white_pieces, t) <==> is_white_piece(self.squares[t])) by {
                    if is_white_piece(self.squares[t]) {
                        let p = self.squares[t] - 1;
                        assert(has_bit(self.piece_bitboards[p], t));
                    }
                }
                assert forall|t: int| 0 <= t < 64 implies (#[trigger] has_bit(self.black_pieces, t) <==> is_black_piece(self.squares[t])) by {
                    if is_black_piece(self.squares[t]) {
                        let p = self.squares[t] - 1;
                        assert(has_bit(self.piece_bitboards[p], t));
                    }
                }
                assert forall|t: int| 0 <= t < 64 implies (#[trigger] has_bit(self.all_pieces, t) <==> self.squares[t] != 0) by {
                    assert(has_bit(self.white_pieces, t) <==> is_white_piece(self.squares[t]));
                    assert(has_bit(self.black_pieces, t) <==> is_black_piece(self.squares[t]));
                    assert(self.squares[t] <= 12) by {
                        lemma_squares_after_valid(b0, m, t);
                    }
                }
            }
        }
    }
}

impl Board {
    /// Castling rights after `m`, given what it captures.
    fn rights_after(&self, m: Move, captured_piece: Option<u8>, captured_square: Option<u8>) -> (r: u8)
        requires
            self.castling_rights < 16,
            m.origin < 64,
            captured_piece == capture_of(*self, m).0,
            captured_square == capture_of(*self, m).1,
        ensures
            r == rights_after_move(*self, m),
            r < 16,
    {
        let moved_piece = self.squares[m.origin as usize];
        let mut rights = self.castling_rights;
        if moved_piece == WHITE_KING {
            rights = rights & !(WHITE_SHORT_CASTLE | WHITE_LONG_CASTLE);
        } else if moved_piece == BLACK_KING {
            rights = rights & !(BLACK_SHORT_CASTLE | BLACK_LONG_CASTLE);
        } else if moved_piece == WHITE_ROOK && m.origin == 0 {
            rights = rights & !WHITE_LONG_CASTLE;
        } else if moved_piece == WHITE_ROOK && m.origin == 7 {
            rights = rights & !WHITE_SHORT_CASTLE;
        } else if moved_piece == BLACK_ROOK && m.origin == 56 {
            rights = rights & !BLACK_LONG_CASTLE;
        } else if moved_piece == BLACK_ROOK && m.origin == 63 {
            rights = rights & !BLACK_SHORT_CASTLE;
        }
        match (captured_piece, captured_square) {
            (Some(captured), Some(csq)) => {
                if captured == WHITE_ROOK && csq == 0 {
                    rights = rights & !WHITE_LONG_CASTLE;
                } else if captured == WHITE_ROOK && csq == 7 {
                    rights = rights & !WHITE_SHORT_CASTLE;
                } else if captured == BLACK_ROOK && csq == 56 {
                    rights = rights & !BLACK_LONG_CASTLE;
                } else if captured == BLACK_ROOK && csq == 63 {
                    rights = rights & !BLACK_SHORT_CASTLE;
                }
            },
            _ => {},
        }
        assert(rights < 16) by {
            assert(forall|x: u8, y: u8| x < 16 ==> #[trigger] (x & y) < 16) by (bit_vector);
        }
        rights
    }

    /// Moves the pieces of `m` on the squares: the en passant victim, the castling rook, the
    /// placed piece.
    fn move_pieces(
        &mut self,
        m: Move,
        is_en_passant: bool,
        captured_square: Option<u8>,
        rook_move: Option<(u8, u8)>,
        placed_piece: u8,
    )
        requires
            move_playable(*old(self), m),
            is_en_passant == takes_en_passant(*old(self), m),
            captured_square == capture_of(*old(self), m).1,
            placed_piece == placed_on_destination(*old(self), m),
            rook_move == (if is_castle_jump(old(self).squares@[m.origin as int], m) {
                Some(
                    (
                        castle_rook_origin(m.destination) as u8,
                        castle_rook_destination(m.destination) as u8,
                    ),
                )
            } else {
                None
            }),
        ensures
            final(self).squares@ == squares_after_move(*old(self), m),
            final(self).piece_bitboards == old(self).piece_bitboards,
            final(self).same_state(*old(self)),
            final(self).zobrian_hash == old(self).zobrian_hash,
    {
        if is_en_passant {
            match captured_square {
                Some(cs) => {
                    self.squares[cs as usize] = EMPTY;
                },
                None => {},
            }
        }
        match rook_move {
            Some((rook_origin, rook_destination)) => {
                self.squares[rook_destination as usize] = self.squares[rook_origin as usize];
                self.squares[rook_origin as usize] = EMPTY;
            },
            None => {},
        }
        self.squares[m.destination as usize] = placed_piece;
        self.squares[m.origin as usize] = EMPTY;
        assert(self.squares@ =~= squares_after_move(*old(self), m));
    }
}

impl Position {
    /// Plays `m`: moves the piece (with promotion, en passant capture and the castling rook),
    /// updates castling rights, en passant square, half-move clock, bitboards and hash,
    /// records the action and passes the turn.
    pub fn make_move(&mut self, m: Move)
        requires
            old(self).board.wf(),
            move_playable(old(self).board, m),
        ensures
            final(self).board.squares@ == squares_after_move(old(self).board, m),
            final(self).board.castling_rights == rights_after_move(old(self).board, m),
            final(self).board.en_passant_square == en_passant_after_move(old(self).board, m),
            final(self).board.halfmove_clock == clock_after_move(old(self).board, m),
            final(self).board.side_to_move == old(self).board.side_to_move.spec_opposite(),
            final(self).board.zobrian_hash == hash_after_update(
                old(self).board.zobrian_hash,
                rights_after_move(old(self).board, m),
                en_passant_after_move(old(self).board, m),
                action_of(old(self).board, m),
            ),
            final(self).history@ == old(self).history@.push(action_of(old(self).board, m)),
            final(self).transposition_table == old(self).transposition_table,
            final(self).position_history == old(self).position_history,
            final(self).moves_counter == old(self).moves_counter,
            final(self).search_path_hashes == old(self).search_path_hashes,
            move_sane(old(self).board, m) ==> final(self).board.wf(),
    {
        let ghost b0 = self.board;
        let moved_piece = self.board.squares[m.origin as usize];
        let is_pawn = moved_piece == WHITE_PAWN || moved_piece == BLACK_PAWN;
        let is_en_passant = is_pawn && self.board.squares[m.destination as usize] == EMPTY
            && m.destination == self.board.en_passant_square;
        let (captured_piece, captured_square) = if is_en_passant {
            let captured_sq = if moved_piece == WHITE_PAWN {
                m.destination - 8
            } else {
                m.destination + 8
            };
            (Some(self.board.squares[captured_sq as usize]), Some(captured_sq))
        } else if self.board.squares[m.destination as usize] != EMPTY {
            (Some(self.board.squares[m.destination as usize]), Some(m.destination))
        } else {
            (None, None)
        };
        let action = Action {
            mv: m,
            captured_piece,
            captured_square,
            moved_piece,
            previous_castling_rights: self.board.castling_rights,
            previous_en_passant_square: self.board.en_passant_square,
            previous_halfmove_clock: self.board.halfmove_clock,
        };
        assert(action == action_of(b0, m));
        let jump = m.origin as i8 - m.destination as i8;
        let is_castle = (moved_piece == WHITE_KING || moved_piece == BLACK_KING) && (jump == 2
            || jump == -2);
        let rook_move: Option<(u8, u8)> = if is_castle {
            if m.destination == 2 {
                Some((0, 3))
            } else if m.destination == 6 {
                Some((7, 5))
            } else if m.destination == 58 {
                Some((56, 59))
            } else {
                Some((63, 61))
            }
        } else {
            None
        };
        let placed_piece = match m.promotion {
            Some(p) => p,
            None => moved_piece,
        };
        let new_rights = self.board.rights_after(m, captured_piece, captured_square);
        self.board.move_pieces(m, is_en_passant, captured_square, rook_move, placed_piece);
        self.board.castling_rights = new_rights;
        // En passant square
        let push = m.origin as i16 - m.destination as i16;
        let is_double_push = is_pawn && (push == 16 || push == -16);
        self.board.en_passant_square = if is_double_push {
            (m.origin + m.destination) / 2
        } else {
            NO_SQUARE
        };
        // Half-move clock
        if captured_piece.is_some() || is_pawn {
            self.board.reset_clock();
        } else {
            self.board.increase_clock();
        }
        // Bitboards
        assert(self.board.squares@ == squares_after_move(b0, m));
        let capture = match (captured_piece, captured_square) {
            (Some(cp), Some(cs)) => Some((cp, cs)),
            _ => None,
        };
        self.board.apply_bitboard_changes(Ghost(b0), m, moved_piece, placed_piece, rook_move, capture);
        let ghost before_hash = self.board;
        self.board.update_zobrian_hash(&action);
        self.history.push(action);
        self.board.switch_turn();
    }
}

/// The squares before the move recorded in `a`, given the squares after it: a castling rook
/// goes back to its corner, the destination is emptied, the mover returns to its origin and a
/// captured piece returns to its square.
pub open spec fn squares_before(sq: Seq<u8>, a: Action) -> Seq<u8> {
    let o = a.mv.origin as int;
    let d = a.mv.destination as int;
    let sq1 = if is_castle_jump(a.moved_piece, a.mv) {
        let ro = castle_rook_origin(a.mv.destination);
        let rd = castle_rook_destination(a.mv.destination);
        sq.update(ro, sq[rd]).update(rd, EMPTY)
    } else {
        sq
    };
    let sq2 = sq1.update(d, EMPTY).update(o, a.moved_piece);
    match (a.captured_piece, a.captured_square) {
        (Some(cp), Some(cs)) => sq2.update(cs as int, cp),
        _ => sq2,
    }
}

/// The action can be taken back: it can be replayed on the hash and its pieces are piece
/// codes.
pub open spec fn action_undoable(a: Action) -> bool {
    &&& action_hashable(a)
    &&& a.previous_en_passant_square <= 64
}

/// Whether `a` can be taken back: the pieces, squares and castling rights it records are in
/// range, a castling jump lands on a castling square, and the en passant square it saved is a
/// square or none.
pub fn is_undoable(a: &Action) -> (r: bool)
    ensures
        r == action_undoable(*a),
{
    let placed = match a.mv.promotion {
        Some(p) => p,
        None => a.moved_piece,
    };
    let captured_ok = match (a.captured_piece, a.captured_square) {
        (Some(cp), Some(cs)) => 1 <= cp && cp <= 12 && cs < 64,
        _ => true,
    };
    let origin = a.mv.origin as i16;
    let destination = a.mv.destination as i16;
    let is_king = a.moved_piece == WHITE_KING || a.moved_piece == BLACK_KING;
    let jump = is_king && (origin - destination == 2 || destination - origin == 2);
    let lands = a.mv.destination == 2 || a.mv.destination == 6 || a.mv.destination == 58
        || a.mv.destination == 62;
    1 <= a.moved_piece && a.moved_piece <= 12 && 1 <= placed && placed <= 12 && a.mv.origin < 64
        && a.mv.destination < 64 && a.previous_castling_rights < 16 && captured_ok && (!jump
        || lands) && a.previous_en_passant_square <= 64
}

impl Position {
    /// Whether every move recorded in the history can be taken back.
    pub fn history_is_undoable(&self) -> (r: bool)
        ensures
            r == forall|i: int| 0 <= i < self.history@.len() ==> action_undoable(#[trigger] self.history@[i]),
    {
        let mut i: usize = 0;
        while i < self.history.len()
            invariant
                i <= self.history@.len(),
                forall|j: int| 0 <= j < i ==> action_undoable(#[trigger] self.history@[j]),
            decreases self.history@.len() - i,
        {
            if !is_undoable(&self.history[i]) {
                return false;
            }
            i = i + 1;
        }
        true
    }
}

impl Position {
    /// Takes back the last move made, restoring the board as it was before it; does nothing
    /// when no move was made.
    pub fn undo_move(&mut self)
        requires
            old(self).board.wf(),
            old(self).history@.len() > 0 ==> action_undoable(old(self).history@.last()),
        ensures
            old(self).history@.len() == 0 ==> *final(self) == *old(self),
            old(self).history@.len() > 0 ==> {
                let a = old(self).history@.last();
                &&& final(self).history@ == old(self).history@.drop_last()
                &&& final(self).board.squares@ == squares_before(old(self).board.squares@, a)
                &&& final(self).board.bitboards_match()
                &&& final(self).board.wf()
                &&& final(self).board.castling_rights == a.previous_castling_rights
                &&& final(self).board.en_passant_square == a.previous_en_passant_square
                &&& final(self).board.halfmove_clock == a.previous_halfmove_clock
                &&& final(self).board.side_to_move == old(self).board.side_to_move.spec_opposite()
                &&& final(self).board.zobrian_hash == hash_after_update(
                    old(self).board.zobrian_hash,
                    old(self).board.castling_rights,
                    old(self).board.en_passant_square,
                    a,
                )
                &&& final(self).transposition_table == old(self).transposition_table
                &&& final(self).position_history == old(self).position_history
                &&& final(self).moves_counter == old(self).moves_counter
                &&& final(self).search_path_hashes == old(self).search_path_hashes
            },
    {
        if self.history.len() == 0 {
            return;
        }
        let action = match self.history.pop() {
            Some(a) => a,
            None => {
                return;
            },
        };
        let ghost b1 = self.board;
        self.board.update_zobrian_hash(&action);
        let m = action.mv;
        let jump = m.origin as i8 - m.destination as i8;
        let is_castle = (action.moved_piece == WHITE_KING || action.moved_piece == BLACK_KING)
            && (jump == 2 || jump == -2);
        if is_castle {
            let (rook_origin, rook_destination): (u8, u8) = if m.destination == 2 {
                (0, 3)
            } else if m.destination == 6 {
                (7, 5)
            } else if m.destination == 58 {
                (56, 59)
            } else {
                (63, 61)
            };
            self.board.squares[rook_origin as usize] = self.board.squares[rook_destination as usize];
            self.board.squares[rook_destination as usize] = EMPTY;
        }
        self.board.squares[m.destination as usize] = EMPTY;
        self.board.squares[m.origin as usize] = action.moved_piece;
        match (action.captured_piece, action.captured_square) {
            (Some(captured), Some(csq)) => {
                self.board.squares[csq as usize] = captured;
            },
            _ => {},
        }
        assert(self.board.squares@ =~= squares_before(b1.squares@, action));
        self.board.castling_rights = action.previous_castling_rights;
        self.board.en_passant_square = action.previous_en_passant_square;
        self.board.halfmove_clock = action.previous_halfmove_clock;
        assert forall|s: int| 0 <= s < 64 implies #[trigger] self.board.squares[s] <= 12 by {
            assert(self.board.squares@[s] == squares_before(b1.squares@, action)[s]);
        }
        self.board.update_bitboards();
        self.board.switch_turn();
    }
}

/// Two boards whose bitboards match the same squares have the same bitboards.
pub proof fn lemma_bitboards_determined(b1: Board, b2: Board)
    requires
        b1.bitboards_match(),
        b2.bitboards_match(),
        b1.squares@ == b2.squares@,
    ensures
        b1.piece_bitboards == b2.piece_bitboards,
        b1.white_pieces == b2.white_pieces,
        b1.black_pieces == b2.black_pieces,
        b1.all_pieces == b2.all_pieces,
{
    assert forall|p: int| 0 <= p < 12 implies b1.piece_bitboards[p] == b2.piece_bitboards[p] by {
        assert forall|t: int| 0 <= t < 64 implies has_bit(b1.piece_bitboards[p], t) == has_bit(
            b2.piece_bitboards[p],
            t,
        ) by {
            assert(b1.squares[t] == b2.squares[t]);
        }
        crate::bits::lemma_bits_ext(b1.piece_bitboards[p], b2.piece_bitboards[p]);
    }
    assert(b1.piece_bitboards@ =~= b2.piece_bitboards@);
    assert forall|t: int| 0 <= t < 64 implies has_bit(b1.white_pieces, t) == has_bit(
        b2.white_pieces,
        t,
    ) by {
        assert(b1.squares[t] == b2.squares[t]);
    }
    crate::bits::lemma_bits_ext(b1.white_pieces, b2.white_pieces);
    assert forall|t: int| 0 <= t < 64 implies has_bit(b1.black_pieces, t) == has_bit(
        b2.black_pieces,
        t,
    ) by {
        assert(b1.squares[t] == b2.squares[t]);
    }
    crate::bits::lemma_bits_ext(b1.black_pieces, b2.black_pieces);
    assert forall|t: int| 0 <= t < 64 implies has_bit(b1.all_pieces, t) == has_bit(
        b2.all_pieces,
        t,
    ) by {
        assert(b1.squares[t] == b2.squares[t]);
    }
    crate::bits::lemma_bits_ext(b1.all_pieces, b2.all_pieces);
}

/// Replaying an action on the hash xors in a fixed delta.
pub(crate) proof fn lemma_hash_update_is_xor(h: u64, r: u8, e: u8, a: Action)
    ensures
        hash_after_update(h, r, e, a) == h ^ hash_after_update(0, r, e, a),
{
    let o = a.mv.origin as int;
    let d = a.mv.destination as int;
    let k1 = piece_key(a.moved_piece, o);
    let k2 = piece_key(placed_piece(a), d);
    lemma_xor_facts(0, k1, k2);
    lemma_xor_facts(h, k1, k2);
    let dd1 = k1 ^ k2;
    assert(h ^ k1 ^ k2 == h ^ dd1);
    let k3 = match (a.captured_piece, a.captured_square) {
        (Some(cp), Some(cs)) => piece_key(cp, cs as int),
        _ => 0u64,
    };
    lemma_xor_facts(h, dd1, k3);
    lemma_xor_facts(dd1, 0, 0);
    lemma_xor_facts(h ^ dd1, 0, 0);
    let dd2 = dd1 ^ k3;
    let rook = if a.moved_piece == WHITE_KING {
        WHITE_ROOK
    } else {
        BLACK_ROOK
    };
    let k4 = piece_key(rook, castle_rook_origin(a.mv.destination));
    let k5 = piece_key(rook, castle_rook_destination(a.mv.destination));
    lemma_xor_facts(h, dd2, k4);
    lemma_xor_facts(h, dd2 ^ k4, k5);
    let dd3 = if is_castle_jump(a.moved_piece, a.mv) {
        dd2 ^ k4 ^ k5
    } else {
        dd2
    };
    let c = castling_hash((r ^ a.previous_castling_rights) as u64);
    lemma_xor_facts(h, dd3, SIDE_KEY);
    lemma_xor_facts(h, dd3 ^ SIDE_KEY, c);
    let dd4 = dd3 ^ SIDE_KEY ^ c;
    let e1 = en_passant_hash(a.previous_en_passant_square);
    let e2 = en_passant_hash(e);
    lemma_xor_facts(h, dd4, e1);
    lemma_xor_facts(h, dd4 ^ e1, e2);
}

/// Law: replaying the same action twice on the hash gives back the hash.
pub proof fn law_hash_update_involution(h: u64, r: u8, e: u8, a: Action)
    ensures
        hash_after_update(hash_after_update(h, r, e, a), r, e, a) == h,
{
    lemma_hash_update_is_xor(h, r, e, a);
    lemma_hash_update_is_xor(hash_after_update(h, r, e, a), r, e, a);
    let dlt = hash_after_update(0, r, e, a);
    lemma_xor_facts(h, dlt, dlt);
}

/// Law: taking back a sane move restores the squares it was made on.
pub proof fn law_undo_restores_squares(b: Board, m: Move)
    requires
        b.squares_valid(),
        move_playable(b, m),
        move_sane(b, m),
    ensures
        squares_before(squares_after_move(b, m), action_of(b, m)) == b.squares@,
{
    let r = squares_before(squares_after_move(b, m), action_of(b, m));
    assert forall|t: int| 0 <= t < 64 implies r[t] == b.squares@[t] by {
        if is_castle_jump(b.squares@[m.origin as int], m) {
            assert(!takes_en_passant(b, m));
        }
    }
    assert(r =~= b.squares@);
}

/// Law: making a sane move and taking it back gives back the board exactly, bitboards and
/// hash included. `after` is the board `make_move` leaves, `restored` the one `undo_move`
/// leaves.
pub proof fn law_make_then_undo(b: Board, m: Move, after: Board, restored: Board)
    requires
        b.wf(),
        move_playable(b, m),
        move_sane(b, m),
        after.squares@ == squares_after_move(b, m),
        after.castling_rights == rights_after_move(b, m),
        after.en_passant_square == en_passant_after_move(b, m),
        after.zobrian_hash == hash_after_update(
            b.zobrian_hash,
            rights_after_move(b, m),
            en_passant_after_move(b, m),
            action_of(b, m),
        ),
        after.side_to_move == b.side_to_move.spec_opposite(),
        restored.squares@ == squares_before(after.squares@, action_of(b, m)),
        restored.bitboards_match(),
        restored.castling_rights == action_of(b, m).previous_castling_rights,
        restored.en_passant_square == action_of(b, m).previous_en_passant_square,
        restored.halfmove_clock == action_of(b, m).previous_halfmove_clock,
        restored.side_to_move == after.side_to_move.spec_opposite(),
        restored.zobrian_hash == hash_after_update(
            after.zobrian_hash,
            after.castling_rights,
            after.en_passant_square,
            action_of(b, m),
        ),
    ensures
        restored == b,
{
    law_undo_restores_squares(b, m);
    lemma_bitboards_determined(restored, b);
    law_hash_update_involution(
        b.zobrian_hash,
        rights_after_move(b, m),
        en_passant_after_move(b, m),
        action_of(b, m),
    );
    assert(restored.squares@ =~= b.squares@);
    assert(restored.squares == b.squares);
}

} // verus!
