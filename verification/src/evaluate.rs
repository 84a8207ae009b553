//! Static evaluation of a position from the side to move, and the scores that order captures.
use vstd::prelude::*;
use crate::bits::{
    has_bit, single, popcount, count_ones, lowest_bit, lemma_lowest_bit, pop_lsb, lemma_bits_ext,
    lemma_bit_xor_single,
};
use crate::board::Board;
use crate::eval_tables::{
    KNIGHT_PST, BISHOP_PST, ROOK_PST, PAWN_PST, QUEEN_PST, KING_MG_PST, KING_EG_PST,
    WHITE_PASSED_PAWN_MASKS, BLACK_PASSED_PAWN_MASKS, ISOLATED_MASKS, FILE_MASKS, RANK_MASKS,
};
use crate::make_move::{WHITE_SHORT_CASTLE, WHITE_LONG_CASTLE, BLACK_SHORT_CASTLE, BLACK_LONG_CASTLE};
use crate::masks::{rook_ray, bishop_ray, rook_attacks_bruteforce, bishop_attacks_bruteforce};
use crate::types::{
    Color, Move, EMPTY, WHITE_PAWN, WHITE_ROOK, WHITE_KNIGHT, WHITE_BISHOP, WHITE_QUEEN,
    WHITE_KING, BLACK_PAWN, BLACK_ROOK, BLACK_KNIGHT, BLACK_BISHOP, BLACK_QUEEN, BLACK_KING,
};

verus! {

/// The light squares (b1, d1, ..., a2, c2, ...).
pub const WHITE_SQUARES_MASK: u64 = 0xAA55_AA55_AA55_AA55;

/// The dark squares.
pub const BLACK_SQUARES_MASK: u64 = 0x55AA_55AA_55AA_55AA;

/// Passed pawn bonus by rank from its own side, middlegame.
pub const PASSED_PAWN_MG_BY_RANK: [i32; 8] = [0, 5, 10, 15, 25, 40, 60, 0];

/// Passed pawn bonus by rank from its own side, endgame.
pub const PASSED_PAWN_EG_BY_RANK: [i32; 8] = [0, 10, 20, 35, 60, 100, 180, 0];

/// b1, c1, f1 and g1: where the white knights and bishops start.
pub const WHITE_MINOR_HOME_MASK: u64 = 0x0000_0000_0000_0066;

/// b8, c8, f8 and g8: where the black knights and bishops start.
pub const BLACK_MINOR_HOME_MASK: u64 = 0x6600_0000_0000_0000;

pub const PAWN_VALUE: i32 = 100;

pub const KNIGHT_VALUE: i32 = 300;

pub const BISHOP_VALUE: i32 = 300;

pub const ROOK_VALUE: i32 = 500;

pub const QUEEN_VALUE: i32 = 900;

pub const KING_VALUE: i32 = 2000;

/// Phase of a position with all pieces on the board.
pub const MAX_PHASE: i32 = 24;

pub const KNIGHT_PHASE: i32 = 1;

pub const BISHOP_PHASE: i32 = 1;

pub const ROOK_PHASE: i32 = 2;

pub const QUEEN_PHASE: i32 = 4;

/// Plies during which a king that lost its castling rights without castling is penalised.
pub const CASTLE_GRACE_PERIOD_PLIES: u32 = 30;

/// Plies during which a queen leaving home early is penalised.
pub const QUEEN_DEVELOPMENT_GRACE_PERIOD_PLIES: u32 = 20;

/// Plies after which a rook still on its corner is penalised.
pub const ROOK_DEVELOPMENT_GRACE_PERIOD_PLIES: u32 = 24;

/// Bitboard of piece `piece` (a piece code 1..12).
pub open spec fn pieces_of(b: Board, piece: u8) -> u64 {
    b.piece_bitboards[piece - 1]
}

/// Number of pieces `piece` on the board.
pub open spec fn count_of(b: Board, piece: u8) -> int {
    popcount(pieces_of(b, piece)) as int
}

/// Game phase: knights and bishops count 1, rooks 2, queens 4, capped at `MAX_PHASE`.
pub open spec fn game_phase(b: Board) -> int {
    let p = (count_of(b, WHITE_KNIGHT) + count_of(b, BLACK_KNIGHT)) * KNIGHT_PHASE + (count_of(
        b,
        WHITE_BISHOP,
    ) + count_of(b, BLACK_BISHOP)) * BISHOP_PHASE + (count_of(b, WHITE_ROOK) + count_of(
        b,
        BLACK_ROOK,
    )) * ROOK_PHASE + (count_of(b, WHITE_QUEEN) + count_of(b, BLACK_QUEEN)) * QUEEN_PHASE;
    if p < MAX_PHASE {
        p
    } else {
        MAX_PHASE as int
    }
}

/// Integer division rounding towards zero, as machine division does.
pub open spec fn div_toward_zero(a: int, d: int) -> int {
    if a >= 0 {
        a / d
    } else {
        -((-a) / d)
    }
}

/// Blend of a middlegame and an endgame score by the game phase.
pub open spec fn interpolate(mg: int, eg: int, phase: int) -> int {
    div_toward_zero(mg * phase + eg * (MAX_PHASE - phase), MAX_PHASE as int)
}

/// `r` holds exactly the squares a rook on `s` attacks with `occ` occupied.
pub open spec fn is_rook_attack_set(occ: u64, s: int, r: u64) -> bool {
    forall|t: int| #[trigger] has_bit(r, t) <==> rook_ray(occ, s, t)
}

/// `r` holds exactly the squares a bishop on `s` attacks with `occ` occupied.
pub open spec fn is_bishop_attack_set(occ: u64, s: int, r: u64) -> bool {
    forall|t: int| #[trigger] has_bit(r, t) <==> bishop_ray(occ, s, t)
}

/// Squares a rook on `s` attacks with `occ` occupied.
pub open spec fn rook_attack_set(occ: u64, s: int) -> u64 {
    choose|r: u64| is_rook_attack_set(occ, s, r)
}

/// Squares a bishop on `s` attacks with `occ` occupied.
pub open spec fn bishop_attack_set(occ: u64, s: int) -> u64 {
    choose|r: u64| is_bishop_attack_set(occ, s, r)
}

/// Square index seen from the side of `white`: the rank is mirrored for black.
pub open spec fn side_index(white: bool, square: u8) -> int {
    if white {
        square as int
    } else {
        (square ^ 56u8) as int
    }
}

/// The queens of each side have the other side's king on the board.
pub open spec fn kings_for_queens(b: Board) -> bool {
    &&& b.has_piece(WHITE_QUEEN) ==> b.has_piece(BLACK_KING)
    &&& b.has_piece(BLACK_QUEEN) ==> b.has_piece(WHITE_KING)
}

pub open spec fn knight_value_spec(square: u8) -> int {
    KNIGHT_PST[square as int] as int
}

pub open spec fn pawn_value_spec(b: Board, piece: u8, square: u8, phase: int) -> int {
    let white = piece == WHITE_PAWN;
    let index = side_index(white, square);
    let column = square % 8;
    let rank = index / 8;
    let own = if white {
        pieces_of(b, WHITE_PAWN)
    } else {
        pieces_of(b, BLACK_PAWN)
    };
    let enemy = if white {
        pieces_of(b, BLACK_PAWN)
    } else {
        pieces_of(b, WHITE_PAWN)
    };
    let ahead = if white {
        WHITE_PASSED_PAWN_MASKS[square as int]
    } else {
        BLACK_PASSED_PAWN_MASKS[square as int]
    };
    let passed = if enemy & ahead == 0 {
        interpolate(
            PASSED_PAWN_MG_BY_RANK[rank] as int,
            PASSED_PAWN_EG_BY_RANK[rank] as int,
            phase,
        )
    } else {
        0
    };
    let isolated = if own & ISOLATED_MASKS[column as int] == 0 {
        -15int
    } else {
        0
    };
    let doubled = if own & FILE_MASKS[column as int] & !single(square as int) != 0 {
        -15int
    } else {
        0
    };
    PAWN_PST[index] + passed + isolated + doubled
}

pub open spec fn bishop_value_spec(b: Board, piece: u8, square: u8) -> int {
    let white = piece == WHITE_BISHOP;
    let own_pieces = if white {
        b.white_pieces
    } else {
        b.black_pieces
    };
    let own_pawns = if white {
        pieces_of(b, WHITE_PAWN)
    } else {
        pieces_of(b, BLACK_PAWN)
    };
    let square_color = if single(square as int) & WHITE_SQUARES_MASK != 0 {
        WHITE_SQUARES_MASK
    } else {
        BLACK_SQUARES_MASK
    };
    let mobility = popcount(bishop_attack_set(b.all_pieces, square as int) & !own_pieces) as int;
    BISHOP_PST[square as int] - popcount(own_pawns & square_color) * 5 + (mobility - 7) * 5
}

pub open spec fn rook_value_spec(b: Board, piece: u8, square: u8) -> int {
    let white = piece == WHITE_ROOK;
    let index = side_index(white, square);
    let column = square % 8;
    let rank = square / 8;
    let (own_pieces, own_pawns, enemy_pawns, enemy_king) = if white {
        (b.white_pieces, pieces_of(b, WHITE_PAWN), pieces_of(b, BLACK_PAWN), pieces_of(b, BLACK_KING))
    } else {
        (b.black_pieces, pieces_of(b, BLACK_PAWN), pieces_of(b, WHITE_PAWN), pieces_of(b, WHITE_KING))
    };
    let file_bonus = if FILE_MASKS[column as int] & own_pawns == 0 {
        if FILE_MASKS[column as int] & enemy_pawns == 0 {
            20int
        } else {
            15
        }
    } else {
        0
    };
    let (seventh, eighth) = if white {
        (6int, 7int)
    } else {
        (1int, 0int)
    };
    let seventh_bonus = if rank == seventh && (enemy_king & RANK_MASKS[eighth] != 0 || enemy_pawns
        & RANK_MASKS[seventh] != 0) {
        30int
    } else {
        0
    };
    let mobility = popcount(rook_attack_set(b.all_pieces, square as int) & !own_pieces) as int;
    ROOK_PST[index] + file_bonus + seventh_bonus + (mobility - 7) * 3
}

pub open spec fn trapped_rook_penalty_spec(b: Board, piece: u8, square: u8) -> int {
    let white = piece == WHITE_ROOK;
    let king_square = if white {
        lowest_bit(pieces_of(b, WHITE_KING))
    } else {
        lowest_bit(pieces_of(b, BLACK_KING))
    };
    let own_pawns = if white {
        pieces_of(b, WHITE_PAWN)
    } else {
        pieces_of(b, BLACK_PAWN)
    };
    let base = if white {
        0int
    } else {
        56int
    };
    let pawn_base = if white {
        8int
    } else {
        48int
    };
    if square == base + 7 && (king_square == base + 6 || king_square == base + 5) && (own_pawns
        & single(pawn_base + 7) != 0 || own_pawns & single(pawn_base + 6) != 0) {
        -50
    } else if square == base && (king_square == base + 1 || king_square == base + 2) && (own_pawns
        & single(pawn_base) != 0 || own_pawns & single(pawn_base + 1) != 0) {
        -50
    } else {
        0
    }
}

pub open spec fn undeveloped_rook_penalty_spec(piece: u8, square: u8, moves_counter: u32) -> int {
    let home = if piece == WHITE_ROOK {
        square == 0 || square == 7
    } else {
        square == 56 || square == 63
    };
    if moves_counter >= ROOK_DEVELOPMENT_GRACE_PERIOD_PLIES && home {
        -25
    } else {
        0
    }
}

pub open spec fn early_queen_penalty_spec(b: Board, piece: u8, square: u8, moves_counter: u32) -> int {
    let white = piece == WHITE_QUEEN;
    let home = if white {
        3int
    } else {
        59int
    };
    let minors = if white {
        (pieces_of(b, WHITE_KNIGHT) | pieces_of(b, WHITE_BISHOP)) & WHITE_MINOR_HOME_MASK
    } else {
        (pieces_of(b, BLACK_KNIGHT) | pieces_of(b, BLACK_BISHOP)) & BLACK_MINOR_HOME_MASK
    };
    if moves_counter >= QUEEN_DEVELOPMENT_GRACE_PERIOD_PLIES || square == home {
        0
    } else {
        -(popcount(minors) * 10)
    }
}

pub open spec fn queen_value_spec(b: Board, piece: u8, square: u8) -> int {
    let white = piece == WHITE_QUEEN;
    let index = side_index(white, square);
    let rank = square / 8;
    let (own_pieces, enemy_pawns, enemy_king) = if white {
        (b.white_pieces, pieces_of(b, BLACK_PAWN), pieces_of(b, BLACK_KING))
    } else {
        (b.black_pieces, pieces_of(b, WHITE_PAWN), pieces_of(b, WHITE_KING))
    };
    let ks = lowest_bit(enemy_king) as int;
    let king_lines = FILE_MASKS[ks % 8] | RANK_MASKS[ks / 8];
    let line_bonus = if king_lines & single(square as int) != 0 {
        10int
    } else {
        0
    };
    let (seventh, eighth) = if white {
        (6int, 7int)
    } else {
        (1int, 0int)
    };
    let seventh_bonus = if rank == seventh && (enemy_king & RANK_MASKS[eighth] != 0 || enemy_pawns
        & RANK_MASKS[seventh] != 0) {
        20int
    } else {
        0
    };
    let attacks = rook_attack_set(b.all_pieces, square as int) | bishop_attack_set(
        b.all_pieces,
        square as int,
    );
    let mobility = popcount(attacks & !own_pieces) as int;
    QUEEN_PST[index] + line_bonus + seventh_bonus + (mobility - 14)
}

pub open spec fn king_value_spec(piece: u8, square: u8, phase: int) -> int {
    let index = side_index(piece == WHITE_KING, square);
    interpolate(KING_MG_PST[index] as int, KING_EG_PST[index] as int, phase)
}

/// Pawns missing in front of a castled king, while enough material is left for an attack.
pub open spec fn pawn_shield_penalty_spec(b: Board, piece: u8, square: u8, phase: int) -> int {
    let white = piece == WHITE_KING;
    let own_pawns = if white {
        pieces_of(b, WHITE_PAWN)
    } else {
        pieces_of(b, BLACK_PAWN)
    };
    let shield: Option<u64> = if white {
        if square == 6 {
            Some(0x0000_0000_0000_E000u64)
        } else if square == 2 {
            Some(0x0000_0000_0000_0700u64)
        } else {
            None
        }
    } else {
        if square == 62 {
            Some(0x00E0_0000_0000_0000u64)
        } else if square == 58 {
            Some(0x0007_0000_0000_0000u64)
        } else {
            None
        }
    };
    if phase <= 10 {
        0
    } else {
        match shield {
            Some(mask) => -((3 - popcount(own_pawns & mask)) * 15),
            None => 0,
        }
    }
}

/// A king that lost both castling rights of its side early, away from a castled square.
pub open spec fn lost_castling_penalty_spec(b: Board, piece: u8, square: u8, moves_counter: u32) -> int {
    let white = piece == WHITE_KING;
    let rights = if white {
        WHITE_SHORT_CASTLE | WHITE_LONG_CASTLE
    } else {
        BLACK_SHORT_CASTLE | BLACK_LONG_CASTLE
    };
    let castled = if white {
        square == 6 || square == 2
    } else {
        square == 62 || square == 58
    };
    if moves_counter >= CASTLE_GRACE_PERIOD_PLIES || castled {
        0
    } else if b.castling_rights & rights == 0 {
        -30
    } else {
        0
    }
}

/// Value of piece `piece` standing on `square`: its material plus its positional terms.
pub open spec fn piece_value_spec(b: Board, piece: u8, square: u8, phase: int, moves_counter: u32) -> int {
    if piece == WHITE_PAWN || piece == BLACK_PAWN {
        PAWN_VALUE + pawn_value_spec(b, piece, square, phase)
    } else if piece == WHITE_KNIGHT || piece == BLACK_KNIGHT {
        KNIGHT_VALUE + knight_value_spec(square)
    } else if piece == WHITE_BISHOP || piece == BLACK_BISHOP {
        BISHOP_VALUE + bishop_value_spec(b, piece, square)
    } else if piece == WHITE_ROOK || piece == BLACK_ROOK {
        ROOK_VALUE + trapped_rook_penalty_spec(b, piece, square) + undeveloped_rook_penalty_spec(
            piece,
            square,
            moves_counter,
        ) + rook_value_spec(b, piece, square)
    } else if piece == WHITE_QUEEN || piece == BLACK_QUEEN {
        QUEEN_VALUE + early_queen_penalty_spec(b, piece, square, moves_counter) + queen_value_spec(
            b,
            piece,
            square,
        )
    } else if piece == WHITE_KING || piece == BLACK_KING {
        KING_VALUE + king_value_spec(piece, square, phase) + pawn_shield_penalty_spec(
            b,
            piece,
            square,
            phase,
        ) + lost_castling_penalty_spec(b, piece, square, moves_counter)
    } else {
        0
    }
}

/// Bonus for keeping both bishops.
pub open spec fn pair_of_bishops_spec(b: Board, color: Color) -> int {
    let bishops = match color {
        Color::White => pieces_of(b, WHITE_BISHOP),
        Color::Black => pieces_of(b, BLACK_BISHOP),
    };
    if popcount(bishops) == 2 {
        40
    } else {
        0
    }
}

/// Bonus for two rooks on one rank.
pub open spec fn rooks_connected_spec(b: Board, color: Color) -> int {
    let rooks = match color {
        Color::White => pieces_of(b, WHITE_ROOK),
        Color::Black => pieces_of(b, BLACK_ROOK),
    };
    let first = lowest_bit(rooks);
    let second = lowest_bit(rooks & ((rooks - 1) as u64));
    if popcount(rooks) == 2 && first / 8 == second / 8 {
        20
    } else {
        0
    }
}

/// Sum of the values of the pieces on the squares below `n` of `bb`.
pub open spec fn values_below(b: Board, bb: u64, phase: int, moves_counter: u32, n: int) -> int
    decreases n,
{
    if n <= 0 {
        0
    } else {
        values_below(b, bb, phase, moves_counter, n - 1) + if has_bit(bb, n - 1) {
            piece_value_spec(b, b.squares[n - 1], (n - 1) as u8, phase, moves_counter)
        } else {
            0
        }
    }
}

/// Material and positional value of the pieces of `bb`, owned by `color`.
pub open spec fn material_value_spec(b: Board, bb: u64, color: Color, phase: int, moves_counter: u32) -> int {
    pair_of_bishops_spec(b, color) + rooks_connected_spec(b, color) + values_below(
        b,
        bb,
        phase,
        moves_counter,
        64,
    )
}

/// The evaluation of `b` from the side to move: its pieces' value minus the opponent's.
pub open spec fn evaluation(b: Board, moves_counter: u32) -> int {
    let phase = game_phase(b);
    match b.side_to_move {
        Color::White => material_value_spec(b, b.white_pieces, Color::White, phase, moves_counter)
            - material_value_spec(b, b.black_pieces, Color::Black, phase, moves_counter),
        Color::Black => material_value_spec(b, b.black_pieces, Color::Black, phase, moves_counter)
            - material_value_spec(b, b.white_pieces, Color::White, phase, moves_counter),
    }
}

/// The move takes a piece: its destination is occupied, or a pawn lands on the empty en
/// passant square.
pub open spec fn is_capture_spec(b: Board, m: Move) -> bool {
    let moved = b.squares[m.origin as int];
    let target = b.squares[m.destination as int];
    target != EMPTY || ((moved == WHITE_PAWN || moved == BLACK_PAWN) && target == EMPTY
        && m.destination == b.en_passant_square)
}

/// Rank of a capturing piece for ordering: the cheaper the attacker, the lower.
pub open spec fn attacker_rank_spec(piece: u8) -> int {
    if piece == WHITE_PAWN || piece == BLACK_PAWN {
        1
    } else if piece == WHITE_KNIGHT || piece == BLACK_KNIGHT || piece == WHITE_BISHOP || piece
        == BLACK_BISHOP {
        2
    } else if piece == WHITE_ROOK || piece == BLACK_ROOK {
        3
    } else if piece == WHITE_QUEEN || piece == BLACK_QUEEN {
        4
    } else if piece == WHITE_KING || piece == BLACK_KING {
        5
    } else {
        0
    }
}

/// Square of the piece a move takes: the destination, except for a pawn landing on the empty
/// en passant square, which takes the pawn just behind it.
pub open spec fn victim_square(b: Board, m: Move) -> u8 {
    let moved = b.squares[m.origin as int];
    let d = m.destination;
    if b.squares[d as int] == EMPTY && moved == WHITE_PAWN && d >= 8 {
        (d - 8) as u8
    } else if b.squares[d as int] == EMPTY && moved == BLACK_PAWN && d < 56 {
        (d + 8) as u8
    } else {
        d
    }
}

/// Ordering score of a move: ten times the value of the piece taken (on its own square)
/// minus the attacker's rank for a capture, zero otherwise.
pub open spec fn move_score(b: Board, m: Move, moves_counter: u32) -> int {
    if is_capture_spec(b, m) {
        let v = victim_square(b, m);
        piece_value_spec(b, b.squares[v as int], v, game_phase(b), moves_counter) * 10
            - attacker_rank_spec(b.squares[m.origin as int])
    } else {
        0
    }
}

/// The exact attack set of a rook, computed square by square.
fn rook_attacks(occ: u64, square: u8) -> (r: u64)
    requires
        square < 64,
    ensures
        r == rook_attack_set(occ, square as int),
{
    let r = rook_attacks_bruteforce(square as i32, occ);
    proof {
        assert(is_rook_attack_set(occ, square as int, r));
        let c = rook_attack_set(occ, square as int);
        lemma_bits_ext(r, c);
    }
    r
}

/// The exact attack set of a bishop, computed square by square.
fn bishop_attacks(occ: u64, square: u8) -> (r: u64)
    requires
        square < 64,
    ensures
        r == bishop_attack_set(occ, square as int),
{
    let r = bishop_attacks_bruteforce(square as i32, occ);
    proof {
        assert(is_bishop_attack_set(occ, square as int, r));
        let c = bishop_attack_set(occ, square as int);
        lemma_bits_ext(r, c);
    }
    r
}

/// `square ^ 56`: the same file on the mirrored rank.
fn mirror(white: bool, square: u8) -> (r: u8)
    requires
        square < 64,
    ensures
        r == side_index(white, square),
        r < 64,
{
    if white {
        square
    } else {
        assert(square ^ 56u8 < 64u8) by (bit_vector)
            requires
                square < 64u8,
        ;
        square ^ 56
    }
}

impl Board {
    fn calculate_game_phase(&self) -> (r: i32)
        ensures
            r == game_phase(*self),
            0 <= r <= MAX_PHASE,
    {
        let wn = count_ones(self.piece_bitboards[(WHITE_KNIGHT - 1) as usize]) as i32;
        let bn = count_ones(self.piece_bitboards[(BLACK_KNIGHT - 1) as usize]) as i32;
        let wb = count_ones(self.piece_bitboards[(WHITE_BISHOP - 1) as usize]) as i32;
        let bb = count_ones(self.piece_bitboards[(BLACK_BISHOP - 1) as usize]) as i32;
        let wr = count_ones(self.piece_bitboards[(WHITE_ROOK - 1) as usize]) as i32;
        let br = count_ones(self.piece_bitboards[(BLACK_ROOK - 1) as usize]) as i32;
        let wq = count_ones(self.piece_bitboards[(WHITE_QUEEN - 1) as usize]) as i32;
        let bq = count_ones(self.piece_bitboards[(BLACK_QUEEN - 1) as usize]) as i32;
        let mut phase: i32 = 0;
        phase = phase + (wn + bn) * KNIGHT_PHASE;
        phase = phase + (wb + bb) * BISHOP_PHASE;
        phase = phase + (wr + br) * ROOK_PHASE;
        phase = phase + (wq + bq) * QUEEN_PHASE;
        if phase < MAX_PHASE {
            phase
        } else {
            MAX_PHASE
        }
    }

    fn interpolate_score(&self, mg_score: i32, eg_score: i32, phase: i32) -> (r: i32)
        requires
            -200 <= mg_score <= 200,
            -200 <= eg_score <= 200,
            0 <= phase <= MAX_PHASE,
        ensures
            r == interpolate(mg_score as int, eg_score as int, phase as int),
            -200 <= r <= 200,
    {
        let mg_weight = phase;
        let eg_weight = MAX_PHASE - phase;
        assert(-4800 <= mg_score * mg_weight <= 4800) by (nonlinear_arith)
            requires
                -200 <= mg_score <= 200,
                0 <= mg_weight <= 24,
        ;
        assert(-4800 <= eg_score * eg_weight <= 4800) by (nonlinear_arith)
            requires
                -200 <= eg_score <= 200,
                0 <= eg_weight <= 24,
        ;
        assert(-4800 <= mg_score * mg_weight + eg_score * eg_weight <= 4800) by (nonlinear_arith)
            requires
                -200 <= mg_score <= 200,
                -200 <= eg_score <= 200,
                0 <= mg_weight <= 24,
                eg_weight == 24 - mg_weight,
        ;
        let mg_part = mg_score * mg_weight;
        let eg_part = eg_score * eg_weight;
        (mg_part + eg_part) / MAX_PHASE
    }

    fn pawn_value(&self, piece: u8, square: u8, phase: i32) -> (r: i32)
        requires
            square < 64,
            0 <= phase <= MAX_PHASE,
        ensures
            r == pawn_value_spec(*self, piece, square, phase as int),
            -300 <= r <= 300,
    {
        let white = piece == WHITE_PAWN;
        let index = mirror(white, square);
        let mut bonus = PAWN_PST[index as usize];
        let column = square % 8;
        let rank = index / 8;
        let (own, enemy, ahead) = if white {
            (
                self.piece_bitboards[(WHITE_PAWN - 1) as usize],
                self.piece_bitboards[(BLACK_PAWN - 1) as usize],
                WHITE_PASSED_PAWN_MASKS[square as usize],
            )
        } else {
            (
                self.piece_bitboards[(BLACK_PAWN - 1) as usize],
                self.piece_bitboards[(WHITE_PAWN - 1) as usize],
                BLACK_PASSED_PAWN_MASKS[square as usize],
            )
        };
        if enemy & ahead == 0 {
            bonus = bonus + self.interpolate_score(
                PASSED_PAWN_MG_BY_RANK[rank as usize],
                PASSED_PAWN_EG_BY_RANK[rank as usize],
                phase,
            );
        }
        if own & ISOLATED_MASKS[column as usize] == 0 {
            bonus = bonus - 15;
        }
        if own & FILE_MASKS[column as usize] & !(1u64 << square) != 0 {
            bonus = bonus - 15;
        }
        bonus
    }

    fn knight_value(&self, square: u8) -> (r: i32)
        requires
            square < 64,
        ensures
            r == knight_value_spec(square),
            -50 <= r <= 50,
    {
        KNIGHT_PST[square as usize]
    }

    fn bishop_value(&self, piece: u8, square: u8) -> (r: i32)
        requires
            square < 64,
        ensures
            r == bishop_value_spec(*self, piece, square),
            -400 <= r <= 400,
    {
        let mut valid_attacks = bishop_attacks(self.all_pieces, square);
        let mut bonus = BISHOP_PST[square as usize];
        let own_square_color_mask = if (1u64 << square) & WHITE_SQUARES_MASK != 0 {
            WHITE_SQUARES_MASK
        } else {
            BLACK_SQUARES_MASK
        };
        if piece == WHITE_BISHOP {
            valid_attacks = valid_attacks & !self.white_pieces;
            let pawns = count_ones(
                self.piece_bitboards[(WHITE_PAWN - 1) as usize] & own_square_color_mask,
            ) as i32;
            bonus = bonus - pawns * 5;
        } else {
            valid_attacks = valid_attacks & !self.black_pieces;
            let pawns = count_ones(
                self.piece_bitboards[(BLACK_PAWN - 1) as usize] & own_square_color_mask,
            ) as i32;
            bonus = bonus - pawns * 5;
        }
        bonus = bonus + (count_ones(valid_attacks) as i32 - 7) * 5;
        bonus
    }

    fn trapped_rook_penalty(&self, piece: u8, square: u8) -> (r: i32)
        ensures
            r == trapped_rook_penalty_spec(*self, piece, square),
            -50 <= r <= 0,
    {
        let is_white = piece == WHITE_ROOK;
        let king_bitboard = if is_white {
            self.piece_bitboards[(WHITE_KING - 1) as usize]
        } else {
            self.piece_bitboards[(BLACK_KING - 1) as usize]
        };
        let king_square = king_bitboard.trailing_zeros();
        let own_pawns = if is_white {
            self.piece_bitboards[(WHITE_PAWN - 1) as usize]
        } else {
            self.piece_bitboards[(BLACK_PAWN - 1) as usize]
        };
        let (a1, b1, c1, f1, g1, h1, a2, b2, g2, h2): (u32, u32, u32, u32, u32, u32, u64, u64, u64, u64) = if is_white {
            (0, 1, 2, 5, 6, 7, 8, 9, 14, 15)
        } else {
            (56, 57, 58, 61, 62, 63, 48, 49, 54, 55)
        };
        if square as u32 == h1 && (king_square == g1 || king_square == f1) {
            let h_pawn_home = own_pawns & (1u64 << h2) != 0;
            let g_pawn_home = own_pawns & (1u64 << g2) != 0;
            if h_pawn_home || g_pawn_home {
                return -50;
            }
        }
        if square as u32 == a1 && (king_square == b1 || king_square == c1) {
            let a_pawn_home = own_pawns & (1u64 << a2) != 0;
            let b_pawn_home = own_pawns & (1u64 << b2) != 0;
            if a_pawn_home || b_pawn_home {
                return -50;
            }
        }
        0
    }

    fn undeveloped_rook_penalty(&self, piece: u8, square: u8, moves_counter: u32) -> (r: i32)
        ensures
            r == undeveloped_rook_penalty_spec(piece, square, moves_counter),
            -25 <= r <= 0,
    {
        if moves_counter < ROOK_DEVELOPMENT_GRACE_PERIOD_PLIES {
            return 0;
        }
        let is_home_square = if piece == WHITE_ROOK {
            square == 0 || square == 7
        } else {
            square == 56 || square == 63
        };
        if is_home_square {
            -25
        } else {
            0
        }
    }

    fn rook_value(&self, piece: u8, square: u8) -> (r: i32)
        requires
            square < 64,
        ensures
            r == rook_value_spec(*self, piece, square),
            -50 <= r <= 300,
    {
        let mut valid_attacks = rook_attacks(self.all_pieces, square);
        let white = piece == WHITE_ROOK;
        let index = mirror(white, square);
        let mut bonus = ROOK_PST[index as usize];
        let column = square % 8;
        let rank = square / 8;
        let (own_pawns, enemy_pawns, enemy_king) = if white {
            (
                self.piece_bitboards[(WHITE_PAWN - 1) as usize],
                self.piece_bitboards[(BLACK_PAWN - 1) as usize],
                self.piece_bitboards[(BLACK_KING - 1) as usize],
            )
        } else {
            (
                self.piece_bitboards[(BLACK_PAWN - 1) as usize],
                self.piece_bitboards[(WHITE_PAWN - 1) as usize],
                self.piece_bitboards[(WHITE_KING - 1) as usize],
            )
        };
        if FILE_MASKS[column as usize] & own_pawns == 0 {
            if FILE_MASKS[column as usize] & enemy_pawns == 0 {
                bonus = bonus + 20;
            } else {
                bonus = bonus + 15;
            }
        }
        let (seventh, eighth): (u8, usize) = if white {
            (6, 7)
        } else {
            (1, 0)
        };
        if rank == seventh && (enemy_king & RANK_MASKS[eighth] != 0 || enemy_pawns
            & RANK_MASKS[seventh as usize] != 0) {
            bonus = bonus + 30;
        }
        if white {
            valid_attacks = valid_attacks & !self.white_pieces;
        } else {
            valid_attacks = valid_attacks & !self.black_pieces;
        }
        bonus = bonus + (count_ones(valid_attacks) as i32 - 7) * 3;
        bonus
    }

    fn early_queen_penalty(&self, piece: u8, square: u8, moves_counter: u32) -> (r: i32)
        ensures
            r == early_queen_penalty_spec(*self, piece, square, moves_counter),
            -640 <= r <= 0,
    {
        if moves_counter >= QUEEN_DEVELOPMENT_GRACE_PERIOD_PLIES {
            return 0;
        }
        let (home_square, minor_home_mask, own_knights, own_bishops): (u8, u64, u64, u64) = if piece
            == WHITE_QUEEN {
            (
                3,
                WHITE_MINOR_HOME_MASK,
                self.piece_bitboards[(WHITE_KNIGHT - 1) as usize],
                self.piece_bitboards[(WHITE_BISHOP - 1) as usize],
            )
        } else {
            (
                59,
                BLACK_MINOR_HOME_MASK,
                self.piece_bitboards[(BLACK_KNIGHT - 1) as usize],
                self.piece_bitboards[(BLACK_BISHOP - 1) as usize],
            )
        };
        if square == home_square {
            return 0;
        }
        let undeveloped = count_ones((own_knights | own_bishops) & minor_home_mask) as i32;
        -(undeveloped * 10)
    }

    fn queen_value(&self, piece: u8, square: u8) -> (r: i32)
        requires
            square < 64,
            piece == WHITE_QUEEN ==> pieces_of(*self, BLACK_KING) != 0,
            piece != WHITE_QUEEN ==> pieces_of(*self, WHITE_KING) != 0,
        ensures
            r == queen_value_spec(*self, piece, square),
            -50 <= r <= 100,
    {
        let white = piece == WHITE_QUEEN;
        let index = mirror(white, square);
        let mut bonus = QUEEN_PST[index as usize];
        let mut valid_attacks = rook_attacks(self.all_pieces, square) | bishop_attacks(
            self.all_pieces,
            square,
        );
        let rank = square / 8;
        let (enemy_pawns, enemy_king) = if white {
            (
                self.piece_bitboards[(BLACK_PAWN - 1) as usize],
                self.piece_bitboards[(BLACK_KING - 1) as usize],
            )
        } else {
            (
                self.piece_bitboards[(WHITE_PAWN - 1) as usize],
                self.piece_bitboards[(WHITE_KING - 1) as usize],
            )
        };
        proof {
            lemma_lowest_bit(enemy_king);
        }
        let enemy_king_square = enemy_king.trailing_zeros();
        let enemy_king_column = enemy_king_square % 8;
        let enemy_king_rank = enemy_king_square / 8;
        let king_attack_mask = FILE_MASKS[enemy_king_column as usize]
            | RANK_MASKS[enemy_king_rank as usize];
        if king_attack_mask & (1u64 << square) != 0 {
            bonus = bonus + 10;
        }
        let (seventh, eighth): (u8, usize) = if white {
            (6, 7)
        } else {
            (1, 0)
        };
        if white {
            valid_attacks = valid_attacks & !self.white_pieces;
        } else {
            valid_attacks = valid_attacks & !self.black_pieces;
        }
        if rank == seventh && (enemy_king & RANK_MASKS[eighth] != 0 || enemy_pawns
            & RANK_MASKS[seventh as usize] != 0) {
            bonus = bonus + 20;
        }
        bonus = bonus + (count_ones(valid_attacks) as i32 - 14);
        bonus
    }

    fn king_value(&self, piece: u8, square: u8, phase: i32) -> (r: i32)
        requires
            square < 64,
            0 <= phase <= MAX_PHASE,
        ensures
            r == king_value_spec(piece, square, phase as int),
            -200 <= r <= 200,
    {
        let index = mirror(piece == WHITE_KING, square);
        self.interpolate_score(KING_MG_PST[index as usize], KING_EG_PST[index as usize], phase)
    }

    fn pawn_shield_penalty(&self, piece: u8, square: u8, phase: i32) -> (r: i32)
        ensures
            r == pawn_shield_penalty_spec(*self, piece, square, phase as int),
            -50 <= r <= 1000,
    {
        if phase <= 10 {
            return 0;
        }
        let is_white = piece == WHITE_KING;
        let own_pawns = if is_white {
            self.piece_bitboards[(WHITE_PAWN - 1) as usize]
        } else {
            self.piece_bitboards[(BLACK_PAWN - 1) as usize]
        };
        let shield_mask: u64 = if is_white {
            if square == 6 {
                0x0000_0000_0000_E000
            } else if square == 2 {
                0x0000_0000_0000_0700
            } else {
                return 0;
            }
        } else {
            if square == 62 {
                0x00E0_0000_0000_0000
            } else if square == 58 {
                0x0007_0000_0000_0000
            } else {
                return 0;
            }
        };
        let missing = 3 - count_ones(own_pawns & shield_mask) as i32;
        -(missing * 15)
    }

    fn lost_castling_penalty(&self, piece: u8, square: u8, moves_counter: u32) -> (r: i32)
        ensures
            r == lost_castling_penalty_spec(*self, piece, square, moves_counter),
            -30 <= r <= 0,
    {
        if moves_counter >= CASTLE_GRACE_PERIOD_PLIES {
            return 0;
        }
        let is_white = piece == WHITE_KING;
        let (castle_rights_mask, kingside_square, queenside_square): (u8, u8, u8) = if is_white {
            (WHITE_SHORT_CASTLE | WHITE_LONG_CASTLE, 6, 2)
        } else {
            (BLACK_SHORT_CASTLE | BLACK_LONG_CASTLE, 62, 58)
        };
        if square == kingside_square || square == queenside_square {
            return 0;
        }
        if self.castling_rights & castle_rights_mask == 0 {
            -30
        } else {
            0
        }
    }

    /// Value of piece `piece` standing on `square` in game phase `phase`: its material and
    /// positional terms (0 for a code that is no piece).
    pub fn piece_value(&self, piece: u8, square: u8, phase: i32, moves_counter: u32) -> (r: i32)
        requires
            square < 64,
            0 <= phase <= MAX_PHASE,
            piece == WHITE_QUEEN ==> pieces_of(*self, BLACK_KING) != 0,
            piece == BLACK_QUEEN ==> pieces_of(*self, WHITE_KING) != 0,
        ensures
            r == piece_value_spec(*self, piece, square, phase as int, moves_counter),
            -1000 <= r <= 4000,
    {
        if piece == WHITE_PAWN || piece == BLACK_PAWN {
            PAWN_VALUE + self.pawn_value(piece, square, phase)
        } else if piece == WHITE_KNIGHT || piece == BLACK_KNIGHT {
            KNIGHT_VALUE + self.knight_value(square)
        } else if piece == WHITE_BISHOP || piece == BLACK_BISHOP {
            BISHOP_VALUE + self.bishop_value(piece, square)
        } else if piece == WHITE_ROOK || piece == BLACK_ROOK {
            ROOK_VALUE + self.trapped_rook_penalty(piece, square) + self.undeveloped_rook_penalty(
                piece,
                square,
                moves_counter,
            ) + self.rook_value(piece, square)
        } else if piece == WHITE_QUEEN || piece == BLACK_QUEEN {
            QUEEN_VALUE + self.early_queen_penalty(piece, square, moves_counter) + self.queen_value(
                piece,
                square,
            )
        } else if piece == WHITE_KING || piece == BLACK_KING {
            KING_VALUE + self.king_value(piece, square, phase) + self.pawn_shield_penalty(
                piece,
                square,
                phase,
            ) + self.lost_castling_penalty(piece, square, moves_counter)
        } else {
            0
        }
    }

    fn pair_of_bishops(&self, color: Color) -> (r: i32)
        ensures
            r == pair_of_bishops_spec(*self, color),
            0 <= r <= 40,
    {
        let bishops = match color {
            Color::White => self.piece_bitboards[(WHITE_BISHOP - 1) as usize],
            Color::Black => self.piece_bitboards[(BLACK_BISHOP - 1) as usize],
        };
        if count_ones(bishops) == 2 {
            40
        } else {
            0
        }
    }

    fn rooks_connected(&self, color: Color) -> (r: i32)
        ensures
            r == rooks_connected_spec(*self, color),
            0 <= r <= 20,
    {
        let rooks = match color {
            Color::White => self.piece_bitboards[(WHITE_ROOK - 1) as usize],
            Color::Black => self.piece_bitboards[(BLACK_ROOK - 1) as usize],
        };
        if count_ones(rooks) != 2 {
            return 0;
        }
        proof {
            lemma_bits_empty_count(rooks);
        }
        let first_square = rooks.trailing_zeros();
        let second_square = (rooks & (rooks - 1)).trailing_zeros();
        if first_square / 8 == second_square / 8 {
            20
        } else {
            0
        }
    }

    fn attacker_rank(&self, piece: u8) -> (r: i32)
        ensures
            r == attacker_rank_spec(piece),
    {
        if piece == WHITE_PAWN || piece == BLACK_PAWN {
            1
        } else if piece == WHITE_KNIGHT || piece == BLACK_KNIGHT {
            2
        } else if piece == WHITE_BISHOP || piece == BLACK_BISHOP {
            2
        } else if piece == WHITE_ROOK || piece == BLACK_ROOK {
            3
        } else if piece == WHITE_QUEEN || piece == BLACK_QUEEN {
            4
        } else if piece == WHITE_KING || piece == BLACK_KING {
            5
        } else {
            0
        }
    }

    /// Sums the values of the pieces of `bitboard`, owned by `color`, with the bishop pair
    /// and connected rook bonuses of that colour.
    fn material_value(&self, bitboard: u64, color: Color, phase: i32, moves_counter: u32) -> (r: i32)
        requires
            self.wf(),
            kings_for_queens(*self),
            0 <= phase <= MAX_PHASE,
        ensures
            r == material_value_spec(*self, bitboard, color, phase as int, moves_counter),
            -70000 <= r <= 260000,
    {
        let base = self.pair_of_bishops(color) + self.rooks_connected(color);
        let mut total = base;
        let mut rem = bitboard;
        let ghost mut k: int = 0;
        while rem != 0
            invariant
                self.wf(),
                kings_for_queens(*self),
                0 <= phase <= MAX_PHASE,
                0 <= base <= 60,
                0 <= k <= 64,
                forall|t: int| 0 <= t < k ==> !has_bit(rem, t),
                forall|t: int| k <= t < 64 ==> has_bit(rem, t) == has_bit(bitboard, t),
                total == base + values_below(*self, bitboard, phase as int, moves_counter, k),
                -1000 * k <= total - base <= 4000 * k,
            decreases rem,
        {
            let ghost old_rem = rem;
            let square = pop_lsb(&mut rem);
            proof {
                lemma_lowest_bit(old_rem);
                lemma_bit_xor_single(old_rem, square as int);
                assert(square >= k) by {
                    if square < k {
                        assert(!has_bit(old_rem, square as int));
                    }
                }
                assert(has_bit(bitboard, square as int));
                lemma_values_gap(*self, bitboard, phase as int, moves_counter, k, square as int);
                lemma_piece_queen_king(*self, square as int);
            }
            let value = self.piece_value(self.squares[square as usize], square as u8, phase, moves_counter);
            total = total + value;
            proof {
                k = square + 1;
            }
        }
        proof {
            crate::bits::lemma_bit_zero();
            lemma_values_gap(*self, bitboard, phase as int, moves_counter, k, 64);
        }
        total
    }

    /// Evaluation from the side to move: the value of its pieces minus the value of the
    /// opponent's.
    pub fn evaluate(&self, moves_counter: u32) -> (r: i32)
        requires
            self.wf(),
            kings_for_queens(*self),
        ensures
            r == evaluation(*self, moves_counter),
            -400000 <= r <= 400000,
    {
        let phase = self.calculate_game_phase();
        let (own_color, own_bitboard, enemy_color, enemy_bitboard) = match self.side_to_move {
            Color::White => (Color::White, self.white_pieces, Color::Black, self.black_pieces),
            Color::Black => (Color::Black, self.black_pieces, Color::White, self.white_pieces),
        };
        self.material_value(own_bitboard, own_color, phase, moves_counter) - self.material_value(
            enemy_bitboard,
            enemy_color,
            phase,
            moves_counter,
        )
    }

    /// The move takes a piece, en passant included.
    pub fn is_capture(&self, m: &Move) -> (r: bool)
        requires
            m.origin < 64,
            m.destination < 64,
        ensures
            r == is_capture_spec(*self, *m),
    {
        let moved_piece = self.squares[m.origin as usize];
        let is_pawn = moved_piece == WHITE_PAWN || moved_piece == BLACK_PAWN;
        let is_en_passant = is_pawn && self.squares[m.destination as usize] == EMPTY
            && m.destination == self.en_passant_square;
        self.squares[m.destination as usize] != 0 || is_en_passant
    }

    /// A pawn reaching its last rank.
    pub fn is_promotion(&self, m: &Move) -> (r: bool)
        requires
            m.origin < 64,
        ensures
            r == ((self.squares[m.origin as int] == WHITE_PAWN && m.destination >= 56) || (
            self.squares[m.origin as int] == BLACK_PAWN && m.destination <= 7)),
    {
        let moved_piece = self.squares[m.origin as usize];
        if moved_piece == WHITE_PAWN {
            m.destination >= 56
        } else if moved_piece == BLACK_PAWN {
            m.destination <= 7
        } else {
            false
        }
    }

    /// Ordering score of a move: for a capture, ten times the victim's value minus the
    /// attacker's rank; zero otherwise.
    pub fn score_move(&self, mv: &Move, moves_counter: u32) -> (r: i32)
        requires
            self.wf(),
            kings_for_queens(*self),
            mv.origin < 64,
            mv.destination < 64,
        ensures
            r == move_score(*self, *mv, moves_counter),
    {
        if self.is_capture(mv) {
            let attacker = self.squares[mv.origin as usize];
            let d = mv.destination;
            let victim_at = if self.squares[d as usize] == EMPTY && attacker == WHITE_PAWN && d >= 8 {
                d - 8
            } else if self.squares[d as usize] == EMPTY && attacker == BLACK_PAWN && d < 56 {
                d + 8
            } else {
                d
            };
            let victim = self.squares[victim_at as usize];
            let phase = self.calculate_game_phase();
            proof {
                lemma_piece_queen_king(*self, victim_at as int);
            }
            return self.piece_value(victim, victim_at, phase, moves_counter) * 10
                - self.attacker_rank(attacker);
        }
        0
    }
}

/// A bitboard holding two squares is not zero.
proof fn lemma_bits_empty_count(a: u64)
    requires
        popcount(a) == 2,
    ensures
        a != 0,
{
    if a == 0 {
        crate::bits::lemma_bit_zero();
        lemma_count_zero(a, 64);
    }
}

proof fn lemma_count_zero(a: u64, n: int)
    requires
        a == 0,
        0 <= n,
    ensures
        crate::bits::count_below(a, n) == 0,
    decreases n,
{
    crate::bits::lemma_bit_zero();
    if n > 0 {
        lemma_count_zero(a, n - 1);
    }
}

/// With no square of `bb` in `[k, z)`, the sums below `k` and below `z` agree.
proof fn lemma_values_gap(b: Board, bb: u64, phase: int, moves_counter: u32, k: int, z: int)
    requires
        0 <= k <= z,
        forall|t: int| k <= t < z ==> !has_bit(bb, t),
    ensures
        values_below(b, bb, phase, moves_counter, z) == values_below(b, bb, phase, moves_counter, k),
    decreases z - k,
{
    if k < z {
        lemma_values_gap(b, bb, phase, moves_counter, k, z - 1);
    }
}

/// On a well-formed board where queens face kings, a queen on `s` has the enemy king's
/// bitboard non-empty.
proof fn lemma_piece_queen_king(b: Board, s: int)
    requires
        b.wf(),
        kings_for_queens(b),
        0 <= s < 64,
    ensures
        b.squares[s] == WHITE_QUEEN ==> pieces_of(b, BLACK_KING) != 0,
        b.squares[s] == BLACK_QUEEN ==> pieces_of(b, WHITE_KING) != 0,
{
    crate::bits::lemma_bit_zero();
    if b.squares[s] == WHITE_QUEEN {
        assert(b.has_piece(WHITE_QUEEN));
        let t = choose|t: int| 0 <= t < 64 && b.squares[t] == BLACK_KING;
        assert(has_bit(b.piece_bitboards[BLACK_KING - 1], t));
    }
    if b.squares[s] == BLACK_QUEEN {
        assert(b.has_piece(BLACK_QUEEN));
        let t = choose|t: int| 0 <= t < 64 && b.squares[t] == WHITE_KING;
        assert(has_bit(b.piece_bitboards[WHITE_KING - 1], t));
    }
}

/// Law: the evaluation of a position for one side is the negation of its evaluation for the
/// other side.
pub proof fn law_evaluation_antisymmetric(b: Board, moves_counter: u32)
    ensures
        evaluation(Board { side_to_move: b.side_to_move.spec_opposite(), ..b }, moves_counter)
            == -evaluation(b, moves_counter),
{
    let f = Board { side_to_move: b.side_to_move.spec_opposite(), ..b };
    assert(game_phase(f) == game_phase(b));
    let phase = game_phase(b);
    assert(material_value_spec(f, b.white_pieces, Color::White, phase, moves_counter)
        == material_value_spec(b, b.white_pieces, Color::White, phase, moves_counter)) by {
        lemma_values_side_free(b, b.white_pieces, phase, moves_counter, 64);
    }
    assert(material_value_spec(f, b.black_pieces, Color::Black, phase, moves_counter)
        == material_value_spec(b, b.black_pieces, Color::Black, phase, moves_counter)) by {
        lemma_values_side_free(b, b.black_pieces, phase, moves_counter, 64);
    }
}

/// The values of the pieces do not depend on the side to move.
proof fn lemma_values_side_free(b: Board, bb: u64, phase: int, moves_counter: u32, n: int)
    ensures
        values_below(Board { side_to_move: b.side_to_move.spec_opposite(), ..b }, bb, phase, moves_counter, n)
            == values_below(b, bb, phase, moves_counter, n),
    decreases n,
{
    if n > 0 {
        lemma_values_side_free(b, bb, phase, moves_counter, n - 1);
    }
}

} // verus!
