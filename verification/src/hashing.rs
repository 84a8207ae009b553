//! The incrementally updated hash of a position stays its Zobrist key.
use vstd::prelude::*;
use crate::bits::{has_bit, xor_fold, lemma_xor_facts, lemma_bit_xor};
use crate::board::Board;
use crate::make_move::{
    squares_after_move, rights_after_move, en_passant_after_move, action_of, move_playable,
    move_sane, is_castle_jump, castle_rook_origin, castle_rook_destination, takes_en_passant,
    en_passant_capture_square, placed_on_destination, lemma_hash_update_is_xor,
};
use crate::search::{is_board_after, searchable, board_after};
use crate::play::{game_position, law_board_after_game_position, law_game_position_searchable};
use crate::legality::legal;
use crate::masks::king_step;
use crate::movegen::kind_of;
use crate::types::{
    Color, Move, EMPTY, WHITE_PAWN, WHITE_ROOK, WHITE_KNIGHT, WHITE_BISHOP, WHITE_QUEEN,
    WHITE_KING, BLACK_PAWN, BLACK_ROOK, BLACK_KNIGHT, BLACK_BISHOP, BLACK_QUEEN, BLACK_KING,
};
use crate::zobrist::{
    zobrist_key, piece_key, piece_keys, castling_hash, castling_keys, en_passant_hash,
    hash_after_update, placed_piece,
};
use crate::zobrist_keys::SIDE_KEY;

verus! {

/// Key of what stands on square `t`: the key of the piece, nothing for an empty square.
pub open spec fn square_key(p: u8, t: int) -> u64 {
    if 1 <= p <= 12 {
        piece_key(p, t)
    } else {
        0
    }
}

/// Xor of the keys of what stands on the squares below `n`.
pub open spec fn square_fold(sq: Seq<u8>, n: int) -> u64
    decreases n,
{
    if n <= 0 {
        0
    } else {
        square_fold(sq, n - 1) ^ square_key(sq[n - 1], n - 1)
    }
}

/// The `i`-th piece in the order in which the Zobrist key takes the pieces: pawns, knights,
/// bishops, rooks, queens and kings, white before black.
pub open spec fn piece_order(i: int) -> u8 {
    if i == 0 {
        WHITE_PAWN
    } else if i == 1 {
        BLACK_PAWN
    } else if i == 2 {
        WHITE_KNIGHT
    } else if i == 3 {
        BLACK_KNIGHT
    } else if i == 4 {
        WHITE_BISHOP
    } else if i == 5 {
        BLACK_BISHOP
    } else if i == 6 {
        WHITE_ROOK
    } else if i == 7 {
        BLACK_ROOK
    } else if i == 8 {
        WHITE_QUEEN
    } else if i == 9 {
        BLACK_QUEEN
    } else if i == 10 {
        WHITE_KING
    } else {
        BLACK_KING
    }
}

/// Place of piece `p` in that order.
pub open spec fn order_index(p: u8) -> int {
    if p == WHITE_PAWN {
        0
    } else if p == BLACK_PAWN {
        1
    } else if p == WHITE_KNIGHT {
        2
    } else if p == BLACK_KNIGHT {
        3
    } else if p == WHITE_BISHOP {
        4
    } else if p == BLACK_BISHOP {
        5
    } else if p == WHITE_ROOK {
        6
    } else if p == BLACK_ROOK {
        7
    } else if p == WHITE_QUEEN {
        8
    } else if p == BLACK_QUEEN {
        9
    } else if p == WHITE_KING {
        10
    } else {
        11
    }
}

/// Xor over the first `k` pieces of the order of their keys on their squares below `n`.
pub open spec fn pieces_fold(b: Board, n: int, k: int) -> u64
    decreases k,
{
    if k <= 0 {
        0
    } else {
        let p = piece_order(k - 1);
        pieces_fold(b, n, k - 1) ^ xor_fold(b.piece_bitboards[p - 1], piece_keys(p), n)
    }
}

/// Xor over the first `k` pieces of the order of their key on square `t`, if they stand there.
pub open spec fn square_share(b: Board, t: int, k: int) -> u64
    decreases k,
{
    if k <= 0 {
        0
    } else {
        let p = piece_order(k - 1);
        square_share(b, t, k - 1) ^ if has_bit(b.piece_bitboards[p - 1], t) {
            piece_key(p, t)
        } else {
            0u64
        }
    }
}

proof fn lemma_xor_swap(a: u64, x: u64, c: u64, y: u64)
    ensures
        (a ^ x) ^ (c ^ y) == (a ^ c) ^ (x ^ y),
{
    assert((a ^ x) ^ (c ^ y) == (a ^ c) ^ (x ^ y)) by (bit_vector);
}

/// Going one square further adds that square's share of the pieces.
proof fn lemma_pieces_fold_step(b: Board, n: int, k: int)
    requires
        1 <= n,
        0 <= k <= 12,
    ensures
        pieces_fold(b, n, k) == pieces_fold(b, n - 1, k) ^ square_share(b, n - 1, k),
    decreases k,
{
    lemma_xor_facts(0, 0, 0);
    if k > 0 {
        lemma_pieces_fold_step(b, n, k - 1);
        let p = piece_order(k - 1);
        let e = if has_bit(b.piece_bitboards[p - 1], n - 1) {
            piece_key(p, n - 1)
        } else {
            0u64
        };
        lemma_xor_swap(
            pieces_fold(b, n - 1, k - 1),
            square_share(b, n - 1, k - 1),
            xor_fold(b.piece_bitboards[p - 1], piece_keys(p), n - 1),
            e,
        );
    }
}

/// On a board whose bitboards match its squares, the share of square `t` is the key of what
/// stands there when it is among the first `k` pieces of the order.
proof fn lemma_square_share(b: Board, t: int, k: int)
    requires
        b.bitboards_match(),
        0 <= t < 64,
        0 <= k <= 12,
    ensures
        square_share(b, t, k) == if 1 <= b.squares[t] <= 12 && order_index(b.squares[t]) < k {
            piece_key(b.squares[t], t)
        } else {
            0u64
        },
    decreases k,
{
    lemma_xor_facts(0, 0, 0);
    if k > 0 {
        lemma_square_share(b, t, k - 1);
        let p = piece_order(k - 1);
        let prev = square_share(b, t, k - 1);
        assert(1 <= p <= 12);
        assert(order_index(p) == k - 1);
        if b.squares[t] == p {
            assert(has_bit(b.piece_bitboards[p - 1], t));
            lemma_xor_facts(piece_key(p, t), 0, 0);
        } else {
            assert(!has_bit(b.piece_bitboards[p - 1], t));
            lemma_xor_facts(prev, 0, 0);
            let x = b.squares[t];
            if 1 <= x <= 12 {
                assert(piece_order(order_index(x)) == x);
            }
        }
    }
}

/// The pieces part of the key, piece by piece, is the xor over the squares.
proof fn lemma_pieces_fold_squares(b: Board, n: int)
    requires
        b.bitboards_match(),
        b.squares_valid(),
        0 <= n <= 64,
    ensures
        pieces_fold(b, n, 12) == square_fold(b.squares@, n),
    decreases n,
{
    if n == 0 {
        assert(pieces_fold(b, 0, 12) == 0) by {
            lemma_pieces_fold_zero(b, 12);
        }
    } else {
        lemma_pieces_fold_squares(b, n - 1);
        lemma_pieces_fold_step(b, n, 12);
        lemma_square_share(b, n - 1, 12);
        let p = b.squares[n - 1];
        if 1 <= p <= 12 {
            assert(order_index(p) < 12);
        } else {
            assert(p == 0);
        }
    }
}

proof fn lemma_pieces_fold_zero(b: Board, k: int)
    requires
        0 <= k <= 12,
    ensures
        pieces_fold(b, 0, k) == 0,
    decreases k,
{
    lemma_xor_facts(0, 0, 0);
    if k > 0 {
        lemma_pieces_fold_zero(b, k - 1);
    }
}

/// The pieces part of the Zobrist key is the xor of the keys of the squares.
pub proof fn lemma_zobrist_pieces(b: Board)
    requires
        b.bitboards_match(),
        b.squares_valid(),
    ensures
        zobrist_key(b) == square_fold(b.squares@, 64) ^ (if b.side_to_move == Color::Black {
            SIDE_KEY
        } else {
            0
        }) ^ castling_hash(b.castling_rights as u64) ^ en_passant_hash(b.en_passant_square),
{
    lemma_pieces_fold_squares(b, 64);
    reveal_with_fuel(pieces_fold, 13);
    lemma_xor_facts(0, 0, 0);
}

/// Changing square `t` to `v` toggles the keys of the old and the new occupant.
proof fn lemma_square_fold_update(sq: Seq<u8>, t: int, v: u8, n: int)
    requires
        0 <= t < sq.len(),
        0 <= n <= sq.len(),
    ensures
        square_fold(sq.update(t, v), n) == if t < n {
            square_fold(sq, n) ^ square_key(sq[t], t) ^ square_key(v, t)
        } else {
            square_fold(sq, n)
        },
    decreases n,
{
    if n > 0 {
        lemma_square_fold_update(sq, t, v, n - 1);
        let f = square_fold(sq, n - 1);
        let a = square_key(sq[t], t);
        let c = square_key(v, t);
        let e = square_key(sq[n - 1], n - 1);
        if n - 1 == t {
            assert(f ^ c == (f ^ e) ^ a ^ c) by (bit_vector)
                requires
                    a == e,
            ;
        } else if t < n - 1 {
            assert((f ^ a ^ c) ^ e == (f ^ e) ^ a ^ c) by (bit_vector);
        }
    }
}

/// The castling part of the key is linear in the rights.
proof fn lemma_xor_fold_linear(a: u64, b: u64, key: spec_fn(int) -> u64, n: int)
    requires
        0 <= n,
    ensures
        xor_fold(a ^ b, key, n) == xor_fold(a, key, n) ^ xor_fold(b, key, n),
    decreases n,
{
    lemma_bit_xor(a, b);
    if n == 0 {
        lemma_xor_facts(0, 0, 0);
    } else {
        lemma_xor_fold_linear(a, b, key, n - 1);
        let fa = xor_fold(a, key, n - 1);
        let fb = xor_fold(b, key, n - 1);
        let k = key(n - 1);
        let ea = if has_bit(a, n - 1) { k } else { 0u64 };
        let eb = if has_bit(b, n - 1) { k } else { 0u64 };
        let eab = if has_bit(a ^ b, n - 1) { k } else { 0u64 };
        assert(eab == ea ^ eb) by {
            lemma_xor_facts(k, 0, 0);
            lemma_xor_facts(0, 0, 0);
        }
        lemma_xor_swap(fa, ea, fb, eb);
    }
}

/// The mover's rook stands on the corner a castle takes it from.
pub open spec fn castle_rook_in_place(b: Board, m: Move) -> bool {
    let moved = b.squares@[m.origin as int];
    is_castle_jump(moved, m) ==> b.squares@[castle_rook_origin(m.destination)] == if moved
        == WHITE_KING {
        WHITE_ROOK
    } else {
        BLACK_ROOK
    }
}

/// The pieces part after a move: the squares' xor with the moved piece, the placed piece,
/// the captured piece and the castling rook toggled.
proof fn lemma_square_fold_after_move(b: Board, m: Move)
    requires
        b.wf(),
        move_playable(b, m),
        move_sane(b, m),
        castle_rook_in_place(b, m),
    ensures
        ({
            let a = action_of(b, m);
            let o = m.origin as int;
            let d = m.destination as int;
            let h1 = square_fold(b.squares@, 64) ^ piece_key(a.moved_piece, o) ^ piece_key(
                placed_piece(a),
                d,
            );
            let h2 = match (a.captured_piece, a.captured_square) {
                (Some(cp), Some(cs)) => h1 ^ piece_key(cp, cs as int),
                _ => h1,
            };
            let rook = if a.moved_piece == WHITE_KING {
                WHITE_ROOK
            } else {
                BLACK_ROOK
            };
            let h3 = if is_castle_jump(a.moved_piece, a.mv) {
                h2 ^ piece_key(rook, castle_rook_origin(m.destination)) ^ piece_key(
                    rook,
                    castle_rook_destination(m.destination),
                )
            } else {
                h2
            };
            square_fold(squares_after_move(b, m), 64) == h3
        }),
{
    let sq0 = b.squares@;
    let o = m.origin as int;
    let d = m.destination as int;
    let moved = sq0[o];
    let placed = placed_on_destination(b, m);
    let f0 = square_fold(sq0, 64);
    let k_moved = piece_key(moved, o);
    let k_placed = piece_key(placed, d);
    let ep = takes_en_passant(b, m);
    let castle = is_castle_jump(moved, m);
    let sq1 = if ep {
        sq0.update(en_passant_capture_square(b, m), EMPTY)
    } else {
        sq0
    };
    let f1 = square_fold(sq1, 64);
    let kc = if ep {
        piece_key(sq0[en_passant_capture_square(b, m)], en_passant_capture_square(b, m))
    } else {
        0u64
    };
    if ep {
        let cs = en_passant_capture_square(b, m);
        lemma_square_fold_update(sq0, cs, EMPTY, 64);
        lemma_xor_facts(f0 ^ kc, 0, 0);
    } else {
        lemma_xor_facts(f0, 0, 0);
    }
    assert(f1 == f0 ^ kc);
    let ro = castle_rook_origin(m.destination);
    let rd = castle_rook_destination(m.destination);
    let rook = if moved == WHITE_KING {
        WHITE_ROOK
    } else {
        BLACK_ROOK
    };
    let sq2 = if castle {
        sq1.update(rd, sq1[ro]).update(ro, EMPTY)
    } else {
        sq1
    };
    let f2 = square_fold(sq2, 64);
    let kr = if castle {
        piece_key(rook, ro) ^ piece_key(rook, rd)
    } else {
        0u64
    };
    if castle {
        assert(!ep);
        let s1 = sq1.update(rd, sq1[ro]);
        lemma_square_fold_update(sq1, rd, sq1[ro], 64);
        lemma_square_fold_update(s1, ro, EMPTY, 64);
        let a1 = piece_key(rook, rd);
        let a2 = piece_key(rook, ro);
        assert(square_fold(s1, 64) == f1 ^ 0u64 ^ a1);
        assert(f2 == square_fold(s1, 64) ^ a2 ^ 0u64);
        assert(f2 == f1 ^ (a2 ^ a1)) by {
            assert((f1 ^ 0u64 ^ a1) ^ a2 ^ 0u64 == f1 ^ (a2 ^ a1)) by (bit_vector);
        }
    } else {
        lemma_xor_facts(f1, 0, 0);
    }
    assert(f2 == f1 ^ kr);
    let sq3 = sq2.update(d, placed);
    assert(sq2[d] == sq0[d]);
    let kd = square_key(sq0[d], d);
    lemma_square_fold_update(sq2, d, placed, 64);
    let f3 = square_fold(sq3, 64);
    assert(f3 == f2 ^ kd ^ k_placed);
    let sq4 = sq3.update(o, EMPTY);
    assert(sq3[o] == moved);
    lemma_square_fold_update(sq3, o, EMPTY, 64);
    assert(sq4 == squares_after_move(b, m));
    let f4 = square_fold(sq4, 64);
    assert(f4 == f3 ^ k_moved ^ 0u64);
    let a = action_of(b, m);
    assert(a.moved_piece == moved);
    assert(placed_piece(a) == placed);
    let kcap = match (a.captured_piece, a.captured_square) {
        (Some(cp), Some(cs)) => piece_key(cp, cs as int),
        _ => 0u64,
    };
    assert(kcap == kc ^ kd) by {
        lemma_xor_facts(kc, 0, 0);
        lemma_xor_facts(kd, 0, 0);
        if ep {
            assert(sq0[d] == EMPTY);
        }
    }
    assert(f4 == f0 ^ k_moved ^ k_placed ^ kcap ^ kr) by {
        assert(((((f0 ^ kc) ^ kr) ^ kd ^ k_placed) ^ k_moved ^ 0u64) == f0 ^ k_moved ^ k_placed
            ^ (kc ^ kd) ^ kr) by (bit_vector);
    }
    let h1 = f0 ^ k_moved ^ k_placed;
    lemma_xor_facts(h1, 0, 0);
    if castle {
        assert(h1 ^ kcap ^ kr == h1 ^ kcap ^ piece_key(rook, ro) ^ piece_key(rook, rd)) by {
            lemma_xor_facts(h1 ^ kcap, piece_key(rook, ro), piece_key(rook, rd));
        }
    } else {
        lemma_xor_facts(h1 ^ kcap, 0, 0);
    }
}

/// Law: when a board's hash is its Zobrist key, the hash `make_move` leaves is the Zobrist key
/// of the board it leaves, for every playable, sane move whose castling rook is the mover's
/// own rook. `after` is the board `make_move` leaves.
pub proof fn law_hash_follows_position(b: Board, m: Move, after: Board)
    requires
        b.wf(),
        move_playable(b, m),
        move_sane(b, m),
        castle_rook_in_place(b, m),
        b.zobrian_hash == zobrist_key(b),
        is_board_after(b, m, after),
        after.squares_valid(),
    ensures
        after.zobrian_hash == zobrist_key(after),
{
    lemma_zobrist_pieces(b);
    lemma_zobrist_pieces(after);
    lemma_square_fold_after_move(b, m);
    let a = action_of(b, m);
    let r0 = b.castling_rights;
    let r1 = rights_after_move(b, m);
    let e0 = b.en_passant_square;
    let e1 = en_passant_after_move(b, m);
    assert((r1 ^ r0) as u64 == (r1 as u64) ^ (r0 as u64)) by (bit_vector);
    lemma_xor_fold_linear(r0 as u64, (r1 ^ r0) as u64, castling_keys(), 4);
    assert((r0 as u64) ^ ((r1 as u64) ^ (r0 as u64)) == r1 as u64) by (bit_vector);
    let c0 = castling_hash(r0 as u64);
    let c1 = castling_hash(r1 as u64);
    let cd = castling_hash((r1 ^ r0) as u64);
    assert(c1 == c0 ^ cd);
    let s0 = if b.side_to_move == Color::Black {
        SIDE_KEY
    } else {
        0
    };
    let s1 = if after.side_to_move == Color::Black {
        SIDE_KEY
    } else {
        0
    };
    assert(s1 == s0 ^ SIDE_KEY) by {
        lemma_xor_facts(SIDE_KEY, 0, 0);
    }
    let p0 = square_fold(b.squares@, 64);
    let p1 = square_fold(after.squares@, 64);
    let o = m.origin as int;
    let d = m.destination as int;
    let h1 = p0 ^ piece_key(a.moved_piece, o) ^ piece_key(placed_piece(a), d);
    let t1 = b.zobrian_hash ^ piece_key(a.moved_piece, o) ^ piece_key(placed_piece(a), d);
    let x0 = en_passant_hash(e0);
    let x1 = en_passant_hash(e1);
    let delta = p1 ^ p0;
    assert(after.zobrian_hash == hash_after_update(b.zobrian_hash, r1, e1, a));
    let k1 = piece_key(a.moved_piece, o);
    let k2 = piece_key(placed_piece(a), d);
    let k3 = match (a.captured_piece, a.captured_square) {
        (Some(cp), Some(cs)) => piece_key(cp, cs as int),
        _ => 0u64,
    };
    let rook = if a.moved_piece == WHITE_KING {
        WHITE_ROOK
    } else {
        BLACK_ROOK
    };
    let k4 = if is_castle_jump(a.moved_piece, a.mv) {
        piece_key(rook, castle_rook_origin(m.destination)) ^ piece_key(
            rook,
            castle_rook_destination(m.destination),
        )
    } else {
        0u64
    };
    assert(p1 == p0 ^ k1 ^ k2 ^ k3 ^ k4) by {
        lemma_xor_facts(p0 ^ k1 ^ k2, 0, 0);
        lemma_xor_facts(p0 ^ k1 ^ k2 ^ k3, 0, 0);
        if is_castle_jump(a.moved_piece, a.mv) {
            lemma_xor_facts(
                p0 ^ k1 ^ k2 ^ k3,
                piece_key(rook, castle_rook_origin(m.destination)),
                piece_key(rook, castle_rook_destination(m.destination)),
            );
        }
    }
    let hz = b.zobrian_hash;
    assert(hash_after_update(hz, r1, e1, a) == hz ^ k1 ^ k2 ^ k3 ^ k4 ^ SIDE_KEY ^ cd ^ x0 ^ x1) by {
        lemma_xor_facts(hz ^ k1 ^ k2, 0, 0);
        lemma_xor_facts(hz ^ k1 ^ k2 ^ k3, 0, 0);
        if is_castle_jump(a.moved_piece, a.mv) {
            lemma_xor_facts(
                hz ^ k1 ^ k2 ^ k3,
                piece_key(rook, castle_rook_origin(m.destination)),
                piece_key(rook, castle_rook_destination(m.destination)),
            );
        }
    }
    assert(hz == p0 ^ s0 ^ c0 ^ x0);
    assert(zobrist_key(after) == p1 ^ s1 ^ c1 ^ x1);
    assert((p0 ^ s0 ^ c0 ^ x0) ^ k1 ^ k2 ^ k3 ^ k4 ^ SIDE_KEY ^ cd ^ x0 ^ x1 == (p0 ^ k1 ^ k2 ^ k3
        ^ k4) ^ (s0 ^ SIDE_KEY) ^ (c0 ^ cd) ^ x1) by (bit_vector);
}

/// Every legal castle finds the mover's rook on its corner.
pub proof fn lemma_legal_castle_rook(b: Board, m: Move)
    requires
        b.wf(),
        legal(b, m),
    ensures
        castle_rook_in_place(b, m),
{
    let o = m.origin as int;
    let d = m.destination as int;
    let moved = b.squares@[o];
    if is_castle_jump(moved, m) {
        assert(kind_of(moved) == WHITE_KING);
        assert(!king_step(o, d)) by {
            if king_step(o, d) {
                assert(o / 8 - d / 8 <= 1 && d / 8 - o / 8 <= 1);
                assert(o % 8 - d % 8 <= 1 && d % 8 - o % 8 <= 1);
            }
        }
    }
}

/// Law: on a searchable board whose hash is its Zobrist key, every legal move leaves a board
/// whose hash is again its Zobrist key. `after` is the board `make_move` leaves.
pub proof fn law_legal_move_keeps_hash(b: Board, m: Move, after: Board)
    requires
        searchable(b),
        legal(b, m),
        b.zobrian_hash == zobrist_key(b),
        is_board_after(b, m, after),
        after.squares_valid(),
    ensures
        after.zobrian_hash == zobrist_key(after),
{
    lemma_legal_castle_rook(b, m);
    law_hash_follows_position(b, m, after);
}

/// Law: whatever hash a board starts from, playing a legal move keeps the difference (the
/// exclusive or) between the board's hash and its Zobrist key. A game whose first hash is the
/// Zobrist key of its first position, or zero, therefore gives equal positions equal hashes.
pub proof fn law_legal_move_keeps_hash_offset(b: Board, m: Move)
    requires
        game_position(b),
        legal(b, m),
    ensures
        board_after(b, m).zobrian_hash ^ zobrist_key(board_after(b, m)) == b.zobrian_hash
            ^ zobrist_key(b),
{
    law_game_position_searchable(b);
    law_board_after_game_position(b, m);
    let after = board_after(b, m);
    let k0 = zobrist_key(b);
    let r1 = rights_after_move(b, m);
    let e1 = en_passant_after_move(b, m);
    let a = action_of(b, m);
    let b1 = Board { zobrian_hash: k0, ..b };
    let after1 = Board { zobrian_hash: hash_after_update(k0, r1, e1, a), ..after };
    assert(zobrist_key(b1) == k0) by {
        assert(b1.squares == b.squares);
    }
    assert(searchable(b1)) by {
        assert forall|mm: Move| #[trigger] legal(b1, mm) implies crate::make_move::move_playable(
            b1,
            mm,
        ) && crate::make_move::move_sane(b1, mm) by {
            assert(legal(b, mm));
        }
    }
    assert(legal(b1, m));
    assert(is_board_after(b1, m, after1));
    law_legal_move_keeps_hash(b1, m, after1);
    assert(zobrist_key(after1) == zobrist_key(after)) by {
        assert(after1.squares == after.squares);
    }
    let dlt = hash_after_update(0, r1, e1, a);
    lemma_hash_update_is_xor(b.zobrian_hash, r1, e1, a);
    lemma_hash_update_is_xor(k0, r1, e1, a);
    lemma_xor_facts(b.zobrian_hash, dlt, k0 ^ dlt);
    lemma_xor_facts(k0, dlt, dlt);
    lemma_xor_facts(b.zobrian_hash ^ dlt, k0, dlt);
    lemma_xor_facts(b.zobrian_hash, dlt, k0);
    lemma_xor_facts(b.zobrian_hash, k0, dlt);
}

} // verus!
