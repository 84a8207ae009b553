//! Positions reached in play: a property of boards that every legal move keeps, and that makes
//! a board safe to search to any depth.
use vstd::prelude::*;
use crate::attacks::{attacked_on, pawn_attacks, in_check_on, lowest_square_of, lemma_lowest_square_of};
use crate::evaluate::kings_for_queens;
use crate::legality::{legal, en_passant_sane, squares_after_bits, is_en_passant_on, en_passant_victim};
use crate::make_move::{
    move_playable, move_sane, is_castle_jump, castle_rook_origin, castle_rook_destination,
    takes_en_passant, en_passant_capture_square, placed_on_destination, squares_after_move,
    rights_after_move, en_passant_after_move, is_pawn_code, clock_after_move, action_of,
    lemma_bitboards_determined, squares_before, law_undo_restores_squares,
};
use crate::zobrist::hash_after_update;
use crate::movegen::{pseudo_legal, castle_reach};
use crate::search::{
    searchable, search_defined, is_board_after, board_after, lemma_board_after_unique,
    SearchLimit, best_move_choice, child_depth, tt_scores_bounded,
};
use crate::game::Position;
use crate::bits::{has_bit, single, lemma_bit_zero, lemma_bit_or_single};
use crate::board::{Board, occupancy, lemma_occupancy_upto, start_piece};
use crate::masks::{ray_hits, ray, rook_ray, bishop_ray, knight_jump, king_step};
use crate::movegen::{reach, pawn_reach, color_of, kind_of};
use crate::types::{
    Color, Move, rank_of, file_of, square_at, on_board, piece_of, piece_color_is, is_white_piece,
    is_black_piece, EMPTY, NO_SQUARE, WHITE_PAWN, WHITE_ROOK, WHITE_KNIGHT, WHITE_BISHOP, WHITE_QUEEN, WHITE_KING, BLACK_PAWN, BLACK_KING,
};

verus! {

/// Coordinate `k` steps from `x` in direction `d` (one of -1, 0, 1).
pub open spec fn walk(x: int, k: int, d: int) -> int {
    if d == 1 {
        x + k
    } else if d == -1 {
        x - k
    } else {
        x
    }
}

/// A direction of a sliding piece: each component in -1..=1, not both zero.
pub open spec fn direction(dr: int, df: int) -> bool {
    -1 <= dr <= 1 && -1 <= df <= 1 && (dr != 0 || df != 0)
}

/// Walking from (`r`, `f`) in direction (`dr`, `df`), step `k` lands on `t` on the board and
/// no earlier step lands on a blocker.
pub open spec fn ray_step(blockers: u64, r: int, f: int, dr: int, df: int, t: int, k: int) -> bool {
    &&& 1 <= k
    &&& on_board(walk(r, k, dr), walk(f, k, df))
    &&& square_at(walk(r, k, dr), walk(f, k, df)) == t
    &&& forall|j: int|
        1 <= j < k ==> !has_bit(blockers, #[trigger] square_at(walk(r, j, dr), walk(f, j, df)))
}

/// The walk of `ray_hits` reaches `t` exactly when some step within `n` is a `ray_step`.
pub(crate) proof fn lemma_ray_hits_step(blockers: u64, r: int, f: int, dr: int, df: int, t: int, n: nat)
    requires
        on_board(r, f),
        direction(dr, df),
    ensures
        ray_hits(blockers, r, f, dr, df, t, n) <==> exists|k: int|
            k <= n && #[trigger] ray_step(blockers, r, f, dr, df, t, k),
    decreases n,
{
    let r1 = r + dr;
    let f1 = f + df;
    if n == 0 {
        assert(!exists|k: int| k <= n && #[trigger] ray_step(blockers, r, f, dr, df, t, k));
    } else if !on_board(r1, f1) {
        assert forall|k: int| k <= n implies !#[trigger] ray_step(blockers, r, f, dr, df, t, k) by {
        }
    } else if square_at(r1, f1) == t {
        assert(ray_step(blockers, r, f, dr, df, t, 1));
    } else if has_bit(blockers, square_at(r1, f1)) {
        assert forall|k: int| k <= n implies !#[trigger] ray_step(blockers, r, f, dr, df, t, k) by {
            if ray_step(blockers, r, f, dr, df, t, k) && k > 1 {
                assert(square_at(walk(r, 1, dr), walk(f, 1, df)) == square_at(r1, f1));
            }
        }
    } else {
        lemma_ray_hits_step(blockers, r1, f1, dr, df, t, (n - 1) as nat);
        if ray_hits(blockers, r1, f1, dr, df, t, (n - 1) as nat) {
            let k1 = choose|k: int| k <= n - 1 && #[trigger] ray_step(blockers, r1, f1, dr, df, t, k);
            assert forall|j: int| 1 <= j < k1 + 1 implies !has_bit(
                blockers,
                #[trigger] square_at(walk(r, j, dr), walk(f, j, df)),
            ) by {
                if j > 1 {
                    assert(square_at(walk(r, j, dr), walk(f, j, df)) == square_at(
                        walk(r1, j - 1, dr),
                        walk(f1, j - 1, df),
                    ));
                }
            }
            assert(ray_step(blockers, r, f, dr, df, t, k1 + 1));
        }
        if exists|k: int| k <= n && #[trigger] ray_step(blockers, r, f, dr, df, t, k) {
            let k = choose|k: int| k <= n && #[trigger] ray_step(blockers, r, f, dr, df, t, k);
            assert(k != 1);
            assert forall|j: int| 1 <= j < k - 1 implies !has_bit(
                blockers,
                #[trigger] square_at(walk(r1, j, dr), walk(f1, j, df)),
            ) by {
                assert(square_at(walk(r1, j, dr), walk(f1, j, df)) == square_at(
                    walk(r, j + 1, dr),
                    walk(f, j + 1, df),
                ));
            }
            assert(ray_step(blockers, r1, f1, dr, df, t, k - 1));
        }
    }
}

/// Rank and file of a board square, and the square of on-board coordinates.
pub(crate) proof fn lemma_coords(s: int)
    requires
        0 <= s < 64,
    ensures
        s == square_at(rank_of(s), file_of(s)),
        on_board(rank_of(s), file_of(s)),
{
}

pub(crate) proof fn lemma_square_at_coords(r: int, f: int)
    requires
        on_board(r, f),
    ensures
        rank_of(square_at(r, f)) == r,
        file_of(square_at(r, f)) == f,
        0 <= square_at(r, f) < 64,
{
}

/// A ray step from `s` to `t` read backwards is a ray step from `t` to `s`.
proof fn lemma_ray_reverse(blockers: u64, s: int, dr: int, df: int, t: int)
    requires
        0 <= s < 64,
        direction(dr, df),
        ray(blockers, s, dr, df, t),
    ensures
        0 <= t < 64,
        t != s,
        ray(blockers, t, -dr, -df, s),
{
    let r = rank_of(s);
    let f = file_of(s);
    lemma_coords(s);
    lemma_ray_hits_step(blockers, r, f, dr, df, t, 8);
    let k = choose|k: int| k <= 8 && #[trigger] ray_step(blockers, r, f, dr, df, t, k);
    lemma_square_at_coords(walk(r, k, dr), walk(f, k, df));
    let rt = rank_of(t);
    let ft = file_of(t);
    assert forall|j: int| 1 <= j < k implies !has_bit(
        blockers,
        #[trigger] square_at(walk(rt, j, -dr), walk(ft, j, -df)),
    ) by {
        assert(square_at(walk(rt, j, -dr), walk(ft, j, -df)) == square_at(
            walk(r, k - j, dr),
            walk(f, k - j, df),
        ));
    }
    assert(ray_step(blockers, rt, ft, -dr, -df, s, k));
    lemma_ray_hits_step(blockers, rt, ft, -dr, -df, s, 8);
}

/// A rook's line from `s` to `t` is a rook's line from `t` to `s`.
pub proof fn lemma_rook_ray_symmetric(blockers: u64, s: int, t: int)
    requires
        0 <= s < 64,
        rook_ray(blockers, s, t),
    ensures
        rook_ray(blockers, t, s),
        s != t,
{
    if ray(blockers, s, 1, 0, t) {
        lemma_ray_reverse(blockers, s, 1, 0, t);
    } else if ray(blockers, s, -1, 0, t) {
        lemma_ray_reverse(blockers, s, -1, 0, t);
    } else if ray(blockers, s, 0, 1, t) {
        lemma_ray_reverse(blockers, s, 0, 1, t);
    } else {
        lemma_ray_reverse(blockers, s, 0, -1, t);
    }
}

/// A bishop's diagonal from `s` to `t` is a bishop's diagonal from `t` to `s`.
pub proof fn lemma_bishop_ray_symmetric(blockers: u64, s: int, t: int)
    requires
        0 <= s < 64,
        bishop_ray(blockers, s, t),
    ensures
        bishop_ray(blockers, t, s),
        s != t,
{
    if ray(blockers, s, 1, 1, t) {
        lemma_ray_reverse(blockers, s, 1, 1, t);
    } else if ray(blockers, s, 1, -1, t) {
        lemma_ray_reverse(blockers, s, 1, -1, t);
    } else if ray(blockers, s, -1, 1, t) {
        lemma_ray_reverse(blockers, s, -1, 1, t);
    } else {
        lemma_ray_reverse(blockers, s, -1, -1, t);
    }
}

/// A piece that can move onto a square held by an enemy piece attacks that square.
pub proof fn lemma_capture_attacks(b: Board, o: int, d: int)
    requires
        0 <= o < 64,
        1 <= b.squares@[o] <= 12,
        reach(b, o, b.squares@[o], d),
        piece_color_is(b.squares@[d], color_of(b.squares@[o]).spec_opposite()),
    ensures
        attacked_on(b.squares@, d, color_of(b.squares@[o])),
{
    let sq = b.squares@;
    let piece = sq[o];
    let c = color_of(piece);
    let k = kind_of(piece);
    let occ = occupancy(sq);
    assert(piece == piece_of(c, k));
    lemma_coords(o);
    lemma_coords(d);
    if k == WHITE_PAWN {
        assert(pawn_attacks(d, o, c));
        assert(0 <= o < 64 && pawn_attacks(d, o, c) && sq[o] == piece_of(c, WHITE_PAWN));
    } else if k == WHITE_KNIGHT {
        assert(knight_jump(d, o) && sq[o] == piece_of(c, WHITE_KNIGHT));
    } else if k == WHITE_BISHOP {
        lemma_bishop_ray_symmetric(occ, o, d);
        assert(0 <= o < 64 && bishop_ray(occ, d, o) && sq[o] == piece_of(c, WHITE_BISHOP));
    } else if k == WHITE_ROOK {
        lemma_rook_ray_symmetric(occ, o, d);
        assert(0 <= o < 64 && rook_ray(occ, d, o) && sq[o] == piece_of(c, WHITE_ROOK));
    } else if k == WHITE_QUEEN {
        if rook_ray(occ, o, d) {
            lemma_rook_ray_symmetric(occ, o, d);
            assert(0 <= o < 64 && rook_ray(occ, d, o) && sq[o] == piece_of(c, WHITE_QUEEN));
        } else {
            lemma_bishop_ray_symmetric(occ, o, d);
            assert(0 <= o < 64 && bishop_ray(occ, d, o) && sq[o] == piece_of(c, WHITE_QUEEN));
        }
    } else {
        assert(king_step(d, o) && sq[o] == piece_of(c, WHITE_KING));
    }
}

/// `sq` holds piece `p` on square `k` and on no other square.
pub open spec fn only_on(sq: Seq<u8>, p: u8, k: int) -> bool {
    &&& 0 <= k < 64
    &&& sq[k] == p
    &&& forall|t: int| 0 <= t < 64 && #[trigger] sq[t] == p ==> t == k
}

/// `sq` holds exactly one piece `p`.
pub open spec fn single_piece(sq: Seq<u8>, p: u8) -> bool {
    exists|k: int| only_on(sq, p, k)
}

/// The en passant square, when there is one, lies on the square a pawn of the side not to
/// move has just passed over with its double step: right behind that pawn.
pub open spec fn en_passant_sound(b: Board) -> bool {
    let e = b.en_passant_square as int;
    let sq = b.squares@;
    e >= 64 || match b.side_to_move {
        Color::White => 40 <= e < 48 && sq[e - 8] == BLACK_PAWN,
        Color::Black => 16 <= e < 24 && sq[e + 8] == WHITE_PAWN,
    }
}

/// A position as play produces it: a well-formed board with one king of each colour, the side
/// that has just moved not in check, and a sound en passant square.
pub open spec fn game_position(b: Board) -> bool {
    &&& b.wf()
    &&& single_piece(b.squares@, WHITE_KING)
    &&& single_piece(b.squares@, BLACK_KING)
    &&& !in_check_on(b.squares@, b.side_to_move.spec_opposite())
    &&& en_passant_sound(b)
}

/// Law: in a game position every legal move can be played and taken back: `make_move`
/// accepts it, and the bitboards can follow the squares it touches.
pub proof fn law_legal_move_playable(b: Board, m: Move)
    requires
        game_position(b),
        legal(b, m),
    ensures
        move_playable(b, m),
        move_sane(b, m),
{
    let sq = b.squares@;
    let o = m.origin as int;
    let d = m.destination as int;
    let piece = sq[o];
    let c = b.side_to_move;
    let occ = occupancy(sq);
    assert(pseudo_legal(b, o, piece, m));
    assert(reach(b, o, piece, d));
    lemma_coords(o);
    lemma_coords(d);
    let k = kind_of(piece);
    if k == WHITE_BISHOP {
        lemma_bishop_ray_symmetric(occ, o, d);
    } else if k == WHITE_ROOK {
        lemma_rook_ray_symmetric(occ, o, d);
    } else if k == WHITE_QUEEN {
        if rook_ray(occ, o, d) {
            lemma_rook_ray_symmetric(occ, o, d);
        } else {
            lemma_bishop_ray_symmetric(occ, o, d);
        }
    }
    if is_castle_jump(piece, m) {
        assert(!king_step(o, d));
        assert(castle_reach(b, o, c, d));
    }
    assert(1 <= placed_on_destination(b, m) <= 12);
}

/// Law: a game position is a board the search can stand on.
pub proof fn law_game_position_searchable(b: Board)
    requires
        game_position(b),
    ensures
        searchable(b),
{
    let sq = b.squares@;
    let wk = choose|k: int| only_on(sq, WHITE_KING, k);
    let bk = choose|k: int| only_on(sq, BLACK_KING, k);
    assert(b.has_piece(WHITE_KING)) by {
        assert(0 <= wk < 64 && b.squares[wk] == WHITE_KING);
    }
    assert(b.has_piece(BLACK_KING)) by {
        assert(0 <= bk < 64 && b.squares[bk] == BLACK_KING);
    }
    assert(kings_for_queens(b));
    assert(b.has_piece(piece_of(b.side_to_move, WHITE_KING)));
    assert(en_passant_sane(b));
    assert forall|m: Move| #[trigger] legal(b, m) implies move_playable(b, m) && move_sane(b, m) by {
        law_legal_move_playable(b, m);
    }
}

/// The only piece `p` of `sq`, on `k`, is the one the check test looks at.
proof fn lemma_only_is_lowest(sq: Seq<u8>, p: u8, k: int)
    requires
        only_on(sq, p, k),
    ensures
        lowest_square_of(sq, p) == k,
{
    lemma_lowest_square_of(sq, p, k);
}

/// In a game position a legal move lands on an empty square or an enemy piece other than
/// the king.
proof fn lemma_destination_free(b: Board, m: Move)
    requires
        game_position(b),
        legal(b, m),
    ensures
        !piece_color_is(b.squares@[m.destination as int], b.side_to_move),
        b.squares@[m.destination as int] != piece_of(b.side_to_move.spec_opposite(), WHITE_KING),
        0 <= m.destination < 64,
{
    let sq = b.squares@;
    let o = m.origin as int;
    let d = m.destination as int;
    let c = b.side_to_move;
    let e = c.spec_opposite();
    let ke = piece_of(e, WHITE_KING);
    assert(reach(b, o, sq[o], d));
    if sq[d] == ke {
        lemma_capture_attacks(b, o, d);
        let k = choose|k: int| only_on(sq, ke, k);
        assert(k == d);
        lemma_only_is_lowest(sq, ke, d);
        assert(in_check_on(sq, e));
    }
}

/// After a legal move in a game position each side still has exactly one king: the mover's
/// stands on the destination when it moved, every other king stays where it was.
proof fn lemma_kings_after(b: Board, m: Move)
    requires
        game_position(b),
        legal(b, m),
    ensures
        single_piece(squares_after_move(b, m), WHITE_KING),
        single_piece(squares_after_move(b, m), BLACK_KING),
        b.squares@[m.origin as int] == piece_of(b.side_to_move, WHITE_KING) ==> only_on(
            squares_after_move(b, m),
            piece_of(b.side_to_move, WHITE_KING),
            m.destination as int,
        ),
{
    let sq = b.squares@;
    let after = squares_after_move(b, m);
    let o = m.origin as int;
    let d = m.destination as int;
    let piece = sq[o];
    let c = b.side_to_move;
    let e = c.spec_opposite();
    let kc = piece_of(c, WHITE_KING);
    let ke = piece_of(e, WHITE_KING);
    law_legal_move_playable(b, m);
    lemma_destination_free(b, m);
    let castle = is_castle_jump(piece, m);
    let ep = takes_en_passant(b, m);
    let placed = placed_on_destination(b, m);
    assert(piece_color_is(placed, c));
    assert(placed != ke);
    assert(piece != kc ==> placed != kc);
    if castle {
        assert(castle_reach(b, o, c, d)) by {
            assert(reach(b, o, piece, d));
            lemma_coords(o);
            lemma_coords(d);
            assert(!king_step(o, d));
        }
    }
    if ep {
        assert(piece_color_is(sq[en_passant_capture_square(b, m)], e));
    }
    assert forall|t: int| 0 <= t < 64 implies #[trigger] after[t] == (if t == o {
        EMPTY
    } else if t == d {
        placed
    } else if castle && t == castle_rook_origin(m.destination) {
        EMPTY
    } else if castle && t == castle_rook_destination(m.destination) {
        piece_of(c, WHITE_ROOK)
    } else if ep && t == en_passant_capture_square(b, m) {
        EMPTY
    } else {
        sq[t]
    }) by {
    }
    let wk = choose|k: int| only_on(sq, WHITE_KING, k);
    let bk = choose|k: int| only_on(sq, BLACK_KING, k);
    let ek = choose|k: int| only_on(sq, ke, k);
    let ck = choose|k: int| only_on(sq, kc, k);
    assert(only_on(after, ke, ek));
    if piece == kc {
        assert(only_on(after, kc, d));
    } else {
        assert(only_on(after, kc, ck));
    }
    if c == Color::White {
        assert(ck == wk);
        assert(ek == bk);
    } else {
        assert(ck == bk);
        assert(ek == wk);
    }
}

/// A castling king's square and its rook's corner: the corner is the last square of its
/// line, so no ray from the king passes over it.
pub open spec fn castle_corner(s: int, corner: int) -> bool {
    (s == 6 && corner == 7) || (s == 2 && corner == 0) || (s == 62 && corner == 63) || (s == 58
        && corner == 56)
}

/// A ray from a castling king's square reaches the same squares when the corner holds a
/// blocker and no other square gains one.
proof fn lemma_ray_past_corner(b1: u64, b2: u64, s: int, dr: int, df: int, t: int, corner: int)
    requires
        castle_corner(s, corner),
        direction(dr, df),
        ray(b1, s, dr, df, t),
        forall|q: int| 0 <= q < 64 && q != corner && #[trigger] has_bit(b2, q) ==> has_bit(b1, q),
    ensures
        ray(b2, s, dr, df, t),
{
    let r = rank_of(s);
    let f = file_of(s);
    lemma_coords(s);
    lemma_ray_hits_step(b1, r, f, dr, df, t, 8);
    let k = choose|k: int| k <= 8 && #[trigger] ray_step(b1, r, f, dr, df, t, k);
    assert forall|j: int| 1 <= j < k implies !has_bit(
        b2,
        #[trigger] square_at(walk(r, j, dr), walk(f, j, df)),
    ) by {
        assert(on_board(walk(r, j, dr), walk(f, j, df)));
        lemma_square_at_coords(walk(r, j, dr), walk(f, j, df));
        assert(!has_bit(b1, square_at(walk(r, j, dr), walk(f, j, df))));
        assert(square_at(walk(r, j, dr), walk(f, j, df)) != corner);
    }
    assert(ray_step(b2, r, f, dr, df, t, k));
    lemma_ray_hits_step(b2, r, f, dr, df, t, 8);
}

/// After a legal move in a game position the mover's king is not attacked.
proof fn lemma_not_in_check_after(b: Board, m: Move)
    requires
        game_position(b),
        legal(b, m),
    ensures
        !in_check_on(squares_after_move(b, m), b.side_to_move),
{
    let sq = b.squares@;
    let after = squares_after_move(b, m);
    let c = b.side_to_move;
    let e = c.spec_opposite();
    let bits = squares_after_bits(b, m, c);
    let o = m.origin as int;
    let d = m.destination as int;
    let piece = sq[o];
    let kc = piece_of(c, WHITE_KING);
    law_legal_move_playable(b, m);
    lemma_destination_free(b, m);
    lemma_kings_after(b, m);
    if !is_castle_jump(piece, m) {
        assert(is_en_passant_on(sq, b.en_passant_square, m) == takes_en_passant(b, m));
        if takes_en_passant(b, m) {
            assert(en_passant_victim(d, c) == en_passant_capture_square(b, m));
        }
        assert(after =~= bits);
    } else {
        assert(castle_reach(b, o, c, d)) by {
            assert(reach(b, o, piece, d));
            lemma_coords(o);
            lemma_coords(d);
            assert(!king_step(o, d));
        }
        let ro = castle_rook_origin(m.destination);
        let rd = castle_rook_destination(m.destination);
        assert(piece == kc);
        assert(only_on(after, kc, d));
        let ck = choose|k: int| only_on(sq, kc, k);
        assert(ck == o);
        assert(only_on(bits, kc, d));
        lemma_only_is_lowest(after, kc, d);
        lemma_only_is_lowest(bits, kc, d);
        assert forall|t: int| 0 <= t < 64 && t != ro && t != rd implies #[trigger] after[t]
            == bits[t] by {
        }
        assert(after[ro] == EMPTY && bits[ro] == piece_of(c, WHITE_ROOK));
        assert(after[rd] == piece_of(c, WHITE_ROOK) && bits[rd] == EMPTY);
        let oa = occupancy(after);
        let ob = occupancy(bits);
        lemma_occupancy_upto(after, 64);
        lemma_occupancy_upto(bits, 64);
        assert(castle_corner(d, ro));
        assert forall|q: int| 0 <= q < 64 && q != ro && #[trigger] has_bit(ob, q) implies has_bit(
            oa,
            q,
        ) by {
            if q != rd {
                assert(after[q] == bits[q]);
            }
        }
        if attacked_on(after, d, e) {
            assert(attacked_on(bits, d, e)) by {
                if exists|t: int| 0 <= t < 64 && crate::attacks::pawn_attacks(d, t, e) && after[t]
                    == piece_of(e, WHITE_PAWN) {
                    let t = choose|t: int| 0 <= t < 64 && crate::attacks::pawn_attacks(d, t, e) && after[t]
                        == piece_of(e, WHITE_PAWN);
                    assert(bits[t] == after[t]);
                } else if exists|t: int| knight_jump(d, t) && after[t] == piece_of(e, WHITE_KNIGHT) {
                    let t = choose|t: int| knight_jump(d, t) && after[t] == piece_of(e, WHITE_KNIGHT);
                    assert(bits[t] == after[t]);
                } else if exists|t: int| 0 <= t < 64 && bishop_ray(oa, d, t) && (after[t] == piece_of(
                    e,
                    WHITE_BISHOP,
                ) || after[t] == piece_of(e, WHITE_QUEEN)) {
                    let t = choose|t: int| 0 <= t < 64 && bishop_ray(oa, d, t) && (after[t] == piece_of(
                        e,
                        WHITE_BISHOP,
                    ) || after[t] == piece_of(e, WHITE_QUEEN));
                    assert(bits[t] == after[t]);
                    if ray(oa, d, 1, 1, t) {
                        lemma_ray_past_corner(oa, ob, d, 1, 1, t, ro);
                    } else if ray(oa, d, 1, -1, t) {
                        lemma_ray_past_corner(oa, ob, d, 1, -1, t, ro);
                    } else if ray(oa, d, -1, 1, t) {
                        lemma_ray_past_corner(oa, ob, d, -1, 1, t, ro);
                    } else {
                        lemma_ray_past_corner(oa, ob, d, -1, -1, t, ro);
                    }
                    assert(bishop_ray(ob, d, t));
                } else if exists|t: int| 0 <= t < 64 && rook_ray(oa, d, t) && (after[t] == piece_of(
                    e,
                    WHITE_ROOK,
                ) || after[t] == piece_of(e, WHITE_QUEEN)) {
                    let t = choose|t: int| 0 <= t < 64 && rook_ray(oa, d, t) && (after[t] == piece_of(
                        e,
                        WHITE_ROOK,
                    ) || after[t] == piece_of(e, WHITE_QUEEN));
                    assert(bits[t] == after[t]);
                    if ray(oa, d, 1, 0, t) {
                        lemma_ray_past_corner(oa, ob, d, 1, 0, t, ro);
                    } else if ray(oa, d, -1, 0, t) {
                        lemma_ray_past_corner(oa, ob, d, -1, 0, t, ro);
                    } else if ray(oa, d, 0, 1, t) {
                        lemma_ray_past_corner(oa, ob, d, 0, 1, t, ro);
                    } else {
                        lemma_ray_past_corner(oa, ob, d, 0, -1, t, ro);
                    }
                    assert(rook_ray(ob, d, t));
                } else {
                    let t = choose|t: int| king_step(d, t) && after[t] == piece_of(e, WHITE_KING);
                    assert(bits[t] == after[t]);
                }
            }
        }
    }
}

/// Clearing bits never raises a castling-rights value above its old bound.
proof fn lemma_rights_stay_small(b: Board, m: Move)
    requires
        b.castling_rights < 16,
    ensures
        rights_after_move(b, m) < 16,
{
    let r0 = b.castling_rights;
    assert(forall|x: u8, y: u8| x < 16 ==> #[trigger] (x & y) < 16) by (bit_vector);
}

/// Law: every legal move in a game position leaves a game position. `after` is the board
/// `make_move` leaves.
pub proof fn law_legal_move_keeps_game_position(b: Board, m: Move, after: Board)
    requires
        game_position(b),
        legal(b, m),
        is_board_after(b, m, after),
    ensures
        game_position(after),
{
    let sq = b.squares@;
    let o = m.origin as int;
    let d = m.destination as int;
    let piece = sq[o];
    let c = b.side_to_move;
    law_legal_move_playable(b, m);
    lemma_destination_free(b, m);
    lemma_kings_after(b, m);
    lemma_not_in_check_after(b, m);
    lemma_rights_stay_small(b, m);
    assert(after.squares@ == squares_after_move(b, m));
    assert(1 <= placed_on_destination(b, m) <= 12);
    assert(after.squares_valid()) by {
        assert forall|t: int| 0 <= t < 64 implies #[trigger] after.squares[t] <= 12 by {
            assert(after.squares@[t] == after.squares[t]);
        }
    }
    assert(after.side_to_move.spec_opposite() == c);
    let ea = en_passant_after_move(b, m) as int;
    if ea < 64 {
        assert(is_pawn_code(piece));
        assert(reach(b, o, piece, d));
        assert(pawn_reach(b, o, c, d));
        lemma_coords(o);
        lemma_coords(d);
        if c == Color::White {
            assert(d == o + 16);
            assert(m.promotion is None);
            assert(after.squares@[ea + 8] == WHITE_PAWN);
        } else {
            assert(d == o - 16);
            assert(m.promotion is None);
            assert(after.squares@[ea - 8] == BLACK_PAWN);
        }
    }
    assert(en_passant_sound(after));
}

/// Which squares a bitboard collects: `sel` 1 to 12 a piece code, 0 every occupied square,
/// -1 the white pieces, -2 the black pieces.
pub open spec fn selected(x: u8, sel: int) -> bool {
    if sel == -1 {
        is_white_piece(x)
    } else if sel == -2 {
        is_black_piece(x)
    } else if sel == 0 {
        x != 0
    } else {
        x == sel
    }
}

/// Bitboard of the squares among the first `n` whose piece code is selected by `sel`.
pub open spec fn mask_where(sq: Seq<u8>, sel: int, n: int) -> u64
    decreases n,
{
    if n <= 0 {
        0u64
    } else if selected(sq[n - 1], sel) {
        mask_where(sq, sel, n - 1) | single(n - 1)
    } else {
        mask_where(sq, sel, n - 1)
    }
}

proof fn lemma_mask_where(sq: Seq<u8>, sel: int, n: int)
    requires
        0 <= n <= 64,
    ensures
        forall|t: int| #[trigger] has_bit(mask_where(sq, sel, n), t) <==> (0 <= t < n && selected(
            sq[t],
            sel,
        )),
    decreases n,
{
    lemma_bit_zero();
    if n > 0 {
        lemma_mask_where(sq, sel, n - 1);
        lemma_bit_or_single(mask_where(sq, sel, n - 1), n - 1);
    }
}

/// Piece bitboards for squares `sq`: entries below `n` rebuilt from the squares, the others
/// taken from `base`.
pub open spec fn bitboards_upto(base: [u64; 12], sq: Seq<u8>, n: int) -> [u64; 12]
    decreases n,
{
    if n <= 0 {
        base
    } else {
        vstd::array::spec_array_update(
            bitboards_upto(base, sq, n - 1),
            n - 1,
            mask_where(sq, n, 64),
        )
    }
}

proof fn lemma_bitboards_upto(base: [u64; 12], sq: Seq<u8>, n: int)
    requires
        0 <= n <= 12,
    ensures
        forall|p: int|
            0 <= p < n ==> #[trigger] bitboards_upto(base, sq, n)[p] == mask_where(sq, p + 1, 64),
    decreases n,
{
    broadcast use vstd::array::axiom_spec_array_update;

    if n > 0 {
        lemma_bitboards_upto(base, sq, n - 1);
        let prev = bitboards_upto(base, sq, n - 1);
        let cur = bitboards_upto(base, sq, n);
        assert forall|p: int| 0 <= p < n implies #[trigger] cur[p] == mask_where(sq, p + 1, 64) by {
            assert(cur@ == prev@.update(n - 1, mask_where(sq, n, 64)));
            assert(cur[p] == cur@[p]);
            assert(prev[p] == prev@[p]);
        }
    }
}

/// The squares of `squares_after_move`, as an array built from the board's own array.
pub open spec fn squares_array_after(b: Board, m: Move) -> [u8; 64] {
    let a0 = b.squares;
    let moved = a0[m.origin as int];
    let a1 = if takes_en_passant(b, m) {
        vstd::array::spec_array_update(a0, en_passant_capture_square(b, m), EMPTY)
    } else {
        a0
    };
    let a2 = if is_castle_jump(moved, m) {
        let ro = castle_rook_origin(m.destination);
        let rd = castle_rook_destination(m.destination);
        vstd::array::spec_array_update(
            vstd::array::spec_array_update(a1, rd, a1[ro]),
            ro,
            EMPTY,
        )
    } else {
        a1
    };
    vstd::array::spec_array_update(
        vstd::array::spec_array_update(a2, m.destination as int, placed_on_destination(b, m)),
        m.origin as int,
        EMPTY,
    )
}

/// A board with the squares, bitboards, rights, en passant square, clock, turn and hash that
/// playing `m` on `b` gives.
pub open spec fn built_board_after(b: Board, m: Move) -> Board {
    let arr = squares_array_after(b, m);
    let sq = arr@;
    Board {
        piece_bitboards: bitboards_upto(b.piece_bitboards, sq, 12),
        white_pieces: mask_where(sq, -1, 64),
        black_pieces: mask_where(sq, -2, 64),
        all_pieces: mask_where(sq, 0, 64),
        squares: arr,
        side_to_move: b.side_to_move.spec_opposite(),
        castling_rights: rights_after_move(b, m),
        en_passant_square: en_passant_after_move(b, m),
        halfmove_clock: clock_after_move(b, m),
        zobrian_hash: hash_after_update(
            b.zobrian_hash,
            rights_after_move(b, m),
            en_passant_after_move(b, m),
            action_of(b, m),
        ),
    }
}

/// For a move whose squares stay on the board, the board after it exists, and `board_after`
/// is that board.
proof fn lemma_board_after_exists(b: Board, m: Move)
    requires
        m.origin < 64,
        m.destination < 64,
        is_castle_jump(b.squares@[m.origin as int], m) ==> m.destination == 2 || m.destination == 6
            || m.destination == 58 || m.destination == 62,
        takes_en_passant(b, m) ==> 0 <= en_passant_capture_square(b, m) < 64,
    ensures
        is_board_after(b, m, board_after(b, m)),
{
    broadcast use vstd::array::axiom_spec_array_update;

    let a = built_board_after(b, m);
    assert(a.squares@ =~= squares_after_move(b, m));
    let sq = a.squares@;
    lemma_bitboards_upto(b.piece_bitboards, sq, 12);
    lemma_mask_where(sq, -1, 64);
    lemma_mask_where(sq, -2, 64);
    lemma_mask_where(sq, 0, 64);
    assert forall|p: int, s: int| 0 <= p < 12 && 0 <= s < 64 implies (#[trigger] has_bit(
        a.piece_bitboards[p],
        s,
    ) <==> a.squares[s] == p + 1) by {
        lemma_mask_where(sq, p + 1, 64);
        assert(a.squares[s] == sq[s]);
    }
    assert forall|s: int| 0 <= s < 64 implies (#[trigger] has_bit(a.white_pieces, s)
        <==> is_white_piece(a.squares[s])) by {
        assert(a.squares[s] == sq[s]);
    }
    assert forall|s: int| 0 <= s < 64 implies (#[trigger] has_bit(a.black_pieces, s)
        <==> is_black_piece(a.squares[s])) by {
        assert(a.squares[s] == sq[s]);
    }
    assert forall|s: int| 0 <= s < 64 implies (#[trigger] has_bit(a.all_pieces, s)
        <==> a.squares[s] != 0) by {
        assert(a.squares[s] == sq[s]);
    }
    assert(a.bitboards_match());
    assert(is_board_after(b, m, a));
}

/// Law: the board after a legal move in a game position is a game position.
pub proof fn law_board_after_game_position(b: Board, m: Move)
    requires
        game_position(b),
        legal(b, m),
    ensures
        is_board_after(b, m, board_after(b, m)),
        game_position(board_after(b, m)),
{
    law_legal_move_playable(b, m);
    lemma_board_after_exists(b, m);
    law_legal_move_keeps_game_position(b, m, board_after(b, m));
}

/// Law: a game position can be searched to any depth: every board reached from it by legal
/// moves is searchable.
pub proof fn law_game_position_search_defined(b: Board, depth: nat)
    requires
        game_position(b),
    ensures
        search_defined(b, depth),
    decreases depth,
{
    if depth > 0 {
        law_game_position_searchable(b);
        assert forall|m: Move| #[trigger] legal(b, m) implies search_defined(
            board_after(b, m),
            (depth - 1) as nat,
        ) by {
            law_board_after_game_position(b, m);
            law_game_position_search_defined(board_after(b, m), (depth - 1) as nat);
        }
    }
}

/// Law: in a game position, a legal move followed by a legal reply, both taken back as a
/// turn is taken back, gives back the squares, castling rights, en passant square, half-move
/// clock and side to move of the position before the two moves.
pub proof fn law_turn_taken_back(b0: Board, m1: Move, m2: Move)
    requires
        game_position(b0),
        legal(b0, m1),
        legal(board_after(b0, m1), m2),
    ensures
        ({
            let b1 = board_after(b0, m1);
            let b2 = board_after(b1, m2);
            &&& squares_before(squares_before(b2.squares@, action_of(b1, m2)), action_of(b0, m1))
                == b0.squares@
            &&& action_of(b0, m1).previous_castling_rights == b0.castling_rights
            &&& action_of(b0, m1).previous_en_passant_square == b0.en_passant_square
            &&& action_of(b0, m1).previous_halfmove_clock == b0.halfmove_clock
            &&& b2.side_to_move == b0.side_to_move
        }),
{
    let b1 = board_after(b0, m1);
    law_board_after_game_position(b0, m1);
    law_legal_move_playable(b0, m1);
    law_legal_move_playable(b1, m2);
    law_board_after_game_position(b1, m2);
    law_undo_restores_squares(b1, m2);
    law_undo_restores_squares(b0, m1);
    assert(b1.squares@ == squares_after_move(b0, m1));
}

/// The board of a new game: the pieces on their starting squares, white to move, all four
/// castling rights and no en passant square.
pub open spec fn is_start_board(b: Board) -> bool {
    &&& forall|s: int| 0 <= s < 64 ==> #[trigger] b.squares[s] == start_piece(s)
    &&& b.bitboards_match()
    &&& b.side_to_move == Color::White
    &&& b.castling_rights == 15
    &&& b.en_passant_square == NO_SQUARE
}

/// Seen from e8 on the starting board, every line stops on a neighbouring square.
proof fn lemma_start_rays(occ: u64, dr: int, df: int, t: int)
    requires
        direction(dr, df),
        has_bit(occ, 51) && has_bit(occ, 52) && has_bit(occ, 53) && has_bit(occ, 59) && has_bit(occ, 61),
        ray(occ, 60, dr, df, t),
    ensures
        t == 51 || t == 52 || t == 53 || t == 59 || t == 61,
{
    lemma_coords(60);
    lemma_ray_hits_step(occ, 7, 4, dr, df, t, 8);
    let k = choose|k: int| k <= 8 && #[trigger] ray_step(occ, 7, 4, dr, df, t, k);
    if k >= 2 {
        assert(on_board(walk(7, 1, dr), walk(4, 1, df)));
        assert(!has_bit(occ, square_at(walk(7, 1, dr), walk(4, 1, df))));
    }
}

/// Law: a new game starts in a game position; with the law that legal moves keep game
/// positions, every position of a game played from the start is one.
pub proof fn law_start_is_game_position(b: Board)
    requires
        is_start_board(b),
    ensures
        game_position(b),
{
    let sq = b.squares@;
    assert forall|s: int| 0 <= s < 64 implies #[trigger] b.squares[s] <= 12 by {
        assert(b.squares[s] == start_piece(s));
    }
    assert(forall|s: int| 0 <= s < 64 ==> #[trigger] sq[s] == start_piece(s));
    assert(only_on(sq, WHITE_KING, 4));
    assert(only_on(sq, BLACK_KING, 60));
    lemma_only_is_lowest(sq, BLACK_KING, 60);
    let occ = occupancy(sq);
    lemma_occupancy_upto(sq, 64);
    assert(has_bit(occ, 51) && has_bit(occ, 52) && has_bit(occ, 53) && has_bit(occ, 59) && has_bit(
        occ,
        61,
    ));
    assert(!attacked_on(sq, 60, Color::White)) by {
        assert forall|t: int| 0 <= t < 64 && bishop_ray(occ, 60, t) implies !(sq[t] == WHITE_BISHOP
            || sq[t] == WHITE_QUEEN) by {
            if ray(occ, 60, 1, 1, t) {
                lemma_start_rays(occ, 1, 1, t);
            } else if ray(occ, 60, 1, -1, t) {
                lemma_start_rays(occ, 1, -1, t);
            } else if ray(occ, 60, -1, 1, t) {
                lemma_start_rays(occ, -1, 1, t);
            } else {
                lemma_start_rays(occ, -1, -1, t);
            }
        }
        assert forall|t: int| 0 <= t < 64 && rook_ray(occ, 60, t) implies !(sq[t] == WHITE_ROOK
            || sq[t] == WHITE_QUEEN) by {
            if ray(occ, 60, 1, 0, t) {
                lemma_start_rays(occ, 1, 0, t);
            } else if ray(occ, 60, -1, 0, t) {
                lemma_start_rays(occ, -1, 0, t);
            } else if ray(occ, 60, 0, 1, t) {
                lemma_start_rays(occ, 0, 1, t);
            } else {
                lemma_start_rays(occ, 0, -1, t);
            }
        }
        assert forall|t: int| knight_jump(60, t) implies sq[t] != WHITE_KNIGHT by {
            lemma_coords(t);
        }
        assert forall|t: int| king_step(60, t) implies sq[t] != WHITE_KING by {
            lemma_coords(t);
        }
    }
}

/// The board of a new game as the game server and the terminal game set it up: the pieces on
/// their starting squares, white to move, all four castling rights, no en passant square, a
/// half-move clock and hash of zero.
pub fn starting_board() -> (b: Board)
    ensures
        is_start_board(b),
        b.halfmove_clock == 0,
        b.zobrian_hash == 0,
{
    let mut board = Board {
        piece_bitboards: [0u64; 12],
        white_pieces: 0,
        black_pieces: 0,
        all_pieces: 0,
        squares: [0u8; 64],
        side_to_move: Color::White,
        castling_rights: 15,
        en_passant_square: NO_SQUARE,
        halfmove_clock: 0,
        zobrian_hash: 0,
    };
    board.initialize_board();
    proof {
        assert forall|s: int| 0 <= s < 64 implies #[trigger] board.squares[s] == start_piece(s) by {
        }
        assert(board.squares_valid()) by {
            assert forall|s: int| 0 <= s < 64 implies #[trigger] board.squares[s] <= 12 by {
                assert(board.squares[s] == start_piece(s));
            }
        }
    }
    board.update_bitboards();
    board
}

impl Board {
    /// Does exactly one square hold piece `p`?
    fn holds_single(&self, p: u8) -> (r: bool)
        ensures
            r == single_piece(self.squares@, p),
    {
        let mut found: usize = 64;
        let mut i: usize = 0;
        while i < 64
            invariant
                i <= 64,
                found == 64 ==> forall|t: int| 0 <= t < i ==> self.squares@[t] != p,
                found < 64 ==> found < i && self.squares@[found as int] == p && forall|t: int|
                    0 <= t < i && self.squares@[t] == p ==> t == found,
                found <= 64,
            decreases 64 - i,
        {
            if self.squares[i] == p {
                if found < 64 {
                    proof {
                        if single_piece(self.squares@, p) {
                            let k = choose|k: int| only_on(self.squares@, p, k);
                            assert(found as int == k);
                            assert(i as int == k);
                        }
                    }
                    return false;
                }
                found = i;
            }
            i += 1;
        }
        proof {
            if found < 64 {
                assert(only_on(self.squares@, p, found as int));
            } else if single_piece(self.squares@, p) {
                let k = choose|k: int| only_on(self.squares@, p, k);
                assert(self.squares@[k] == p);
            }
        }
        found < 64
    }

    /// Is the board well formed: piece codes on the squares, bitboards that agree with them,
    /// castling rights in four bits and an en passant square on the board or none?
    pub fn is_well_formed(&self) -> (r: bool)
        ensures
            r == self.wf(),
    {
        let mut i: usize = 0;
        while i < 64
            invariant
                i <= 64,
                forall|t: int| 0 <= t < i ==> self.squares[t] <= 12,
            decreases 64 - i,
        {
            if self.squares[i] > 12 {
                return false;
            }
            i += 1;
        }
        if self.castling_rights >= 16 || self.en_passant_square > 64 {
            return false;
        }
        let mut rebuilt = *self;
        rebuilt.update_bitboards();
        proof {
            assert(rebuilt.squares@ == self.squares@);
        }
        let mut p: usize = 0;
        while p < 12
            invariant
                p <= 12,
                rebuilt.bitboards_match(),
                rebuilt.squares@ == self.squares@,
                forall|q: int| 0 <= q < p ==> rebuilt.piece_bitboards[q] == self.piece_bitboards[q],
            decreases 12 - p,
        {
            if rebuilt.piece_bitboards[p] != self.piece_bitboards[p] {
                proof {
                    if self.bitboards_match() {
                        lemma_bitboards_determined(*self, rebuilt);
                    }
                }
                return false;
            }
            p += 1;
        }
        if rebuilt.white_pieces != self.white_pieces || rebuilt.black_pieces != self.black_pieces
            || rebuilt.all_pieces != self.all_pieces {
            proof {
                if self.bitboards_match() {
                    lemma_bitboards_determined(*self, rebuilt);
                }
            }
            return false;
        }
        proof {
            assert(rebuilt.piece_bitboards =~= self.piece_bitboards);
            assert(self.squares =~= rebuilt.squares);
        }
        true
    }

    /// Is the board a game position: well formed, one king of each colour, the side that has just
    /// moved not in check, and a sound en passant square?
    pub fn is_game_position(&self) -> (r: bool)
        ensures
            r == game_position(*self),
    {
        if !self.is_well_formed() {
            return false;
        }
        if !self.holds_single(WHITE_KING) || !self.holds_single(BLACK_KING) {
            return false;
        }
        let waiting = self.side_to_move.opposite();
        proof {
            let k = choose|k: int| only_on(self.squares@, piece_of(waiting, WHITE_KING), k);
            assert(self.squares[k] == piece_of(waiting, WHITE_KING));
        }
        if self.is_in_check(waiting) {
            return false;
        }
        let e = self.en_passant_square;
        if e < 64 {
            match self.side_to_move {
                Color::White => {
                    if !(40 <= e && e < 48 && self.squares[(e - 8) as usize] == BLACK_PAWN) {
                        return false;
                    }
                },
                Color::Black => {
                    if !(16 <= e && e < 24 && self.squares[(e + 8) as usize] == WHITE_PAWN) {
                        return false;
                    }
                },
            }
        }
        true
    }
}

impl Position {
    /// Plays one half-move of a game against the engine: when the user, playing `user_color`,
    /// is to move, the user's move `user_move`; otherwise the move the engine chooses with a
    /// search to `depth`. Returns the move played, `None` when the engine has no legal move.
    pub fn user_make_move(&mut self, user_color: Color, depth: u32, user_move: Option<Move>) -> (played: Option<Move>)
        requires
            game_position(old(self).board),
            depth < 3_000_000,
            tt_scores_bounded(old(self).transposition_table@),
            user_color == old(self).board.side_to_move ==> (user_move matches Some(m) && legal(
                old(self).board,
                m,
            )),
        ensures
            user_color == old(self).board.side_to_move ==> played == user_move
                && final(self).transposition_table@ == old(self).transposition_table@,
            user_color != old(self).board.side_to_move ==> (played, final(self).transposition_table@)
                == best_move_choice(
                old(self).board,
                old(self).position_history@,
                old(self).transposition_table@,
                old(self).moves_counter,
                SearchLimit::Depth(depth),
            ),
            match played {
                Some(m) => {
                    &&& legal(old(self).board, m)
                    &&& final(self).board == board_after(old(self).board, m)
                    &&& final(self).history@ == old(self).history@.push(
                        action_of(old(self).board, m),
                    )
                },
                None => final(self).board == old(self).board && final(self).history@ == old(
                    self,
                ).history@,
            },
            game_position(final(self).board),
            tt_scores_bounded(final(self).transposition_table@),
            final(self).position_history@ == old(self).position_history@,
            final(self).moves_counter == old(self).moves_counter,
    {
        let ghost b = self.board;
        let mv = if user_color == self.board.side_to_move {
            match user_move {
                Some(m) => m,
                None => {
                    return None;
                },
            }
        } else {
            proof {
                law_game_position_search_defined(b, child_depth(SearchLimit::Depth(depth)) + 2);
            }
            match self.find_best_move(SearchLimit::Depth(depth)) {
                Some(m) => m,
                None => {
                    return None;
                },
            }
        };
        proof {
            law_legal_move_playable(b, mv);
        }
        self.make_move(mv);
        proof {
            let after = self.board;
            assert(is_board_after(b, mv, after));
            lemma_board_after_unique(b, mv, after, board_after(b, mv));
            law_board_after_game_position(b, mv);
        }
        Some(mv)
    }
}

} // verus!
