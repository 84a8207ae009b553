//! A game in progress: the board, the moves played, and what the search remembers.
use vstd::prelude::*;
use vstd::string::StrSliceExecFns;
use crate::attacks::in_check_on;
use crate::bits::{count_ones, count_below, has_bit, lemma_bit_or, lemma_bits_empty};
use crate::board::Board;
use crate::evaluate::{pieces_of, count_of};
use crate::legality::{legal, legal_list, en_passant_sane};
use crate::make_move::{Action, action_of};
use crate::search::{occurrences, count_occurrences, searchable, board_after, is_board_after, lemma_board_after_unique};
use crate::types::{
    Color, Move, piece_of, WHITE_PAWN, WHITE_ROOK, WHITE_KNIGHT, WHITE_BISHOP, WHITE_QUEEN,
    WHITE_KING, BLACK_PAWN, BLACK_ROOK, BLACK_KNIGHT, BLACK_BISHOP, BLACK_QUEEN, BLACK_KING,
    EMPTY,
};
use crate::zobrist::TTEntry;
use crate::text::move_of_text;

verus! {

/// Number of slots of the transposition table (a power of two).
pub const TT_SIZE: usize = 262144;

pub struct Position {
    pub board: Board,
    /// Actions of the moves made, most recent last.
    pub history: Vec<Action>,
    /// Transposition table, indexed by the low bits of the position hash.
    pub transposition_table: Vec<Option<TTEntry>>,
    /// Hashes of the positions reached in the real game.
    pub position_history: Vec<u64>,
    /// Half-moves played in the real game.
    pub moves_counter: u32,
    /// Hashes of the positions on the current search path.
    pub search_path_hashes: Vec<u64>,
}

/// Slot of the transposition table that a hash goes to: its low bits.
pub open spec fn tt_slot(hash: u64) -> int {
    (hash & (TT_SIZE - 1) as u64) as int
}

/// What the table holds for `hash`: the entry in its slot when that entry has the same key.
pub open spec fn tt_lookup(tt: Seq<Option<TTEntry>>, hash: u64) -> Option<TTEntry> {
    let i = tt_slot(hash);
    if i < tt.len() {
        match tt[i] {
            Some(e) => if e.key == hash {
                Some(e)
            } else {
                None
            },
            None => None,
        }
    } else {
        None
    }
}

/// The table after storing `entry` for `hash`: the slot takes the entry, unless it already
/// holds an entry for the same key searched deeper. A slot beyond the table is not written.
pub open spec fn tt_after_store(tt: Seq<Option<TTEntry>>, hash: u64, entry: TTEntry) -> Seq<
    Option<TTEntry>,
> {
    let i = tt_slot(hash);
    if i < tt.len() {
        match tt[i] {
            Some(e) => if e.key == hash && e.depth > entry.depth {
                tt
            } else {
                tt.update(i, Some(entry))
            },
            None => tt.update(i, Some(entry)),
        }
    } else {
        tt
    }
}

/// Slot index of `hash` in the transposition table.
fn slot_of(hash: u64) -> (i: usize)
    ensures
        i == tt_slot(hash),
        i < TT_SIZE,
{
    assert(hash & 262143u64 < 262144u64) by (bit_vector);
    (hash & (TT_SIZE - 1) as u64) as usize
}

impl Position {
    /// A position on `board` with no history and an empty transposition table of `TT_SIZE`
    /// slots.
    pub fn new(board: Board) -> (p: Position)
        ensures
            p.board == board,
            p.history@.len() == 0,
            p.transposition_table@ == Seq::new(TT_SIZE as nat, |i: int| None::<TTEntry>),
            p.position_history@.len() == 0,
            p.moves_counter == 0,
            p.search_path_hashes@.len() == 0,
    {
        let mut table: Vec<Option<TTEntry>> = Vec::new();
        let mut i: usize = 0;
        while i < TT_SIZE
            invariant
                i <= TT_SIZE,
                table@ == Seq::new(i as nat, |k: int| None::<TTEntry>),
            decreases TT_SIZE - i,
        {
            table.push(None);
            i = i + 1;
            assert(table@ =~= Seq::new(i as nat, |k: int| None::<TTEntry>));
        }
        Position {
            board,
            history: Vec::new(),
            transposition_table: table,
            position_history: Vec::new(),
            moves_counter: 0,
            search_path_hashes: Vec::new(),
        }
    }

    /// Stores `entry` in the slot of `hash`, keeping an entry for the same key that was
    /// searched deeper; an entry for another key is overwritten.
    pub fn tt_store(&mut self, hash: u64, entry: TTEntry)
        ensures
            final(self).transposition_table@ == tt_after_store(
                old(self).transposition_table@,
                hash,
                entry,
            ),
            final(self).board == old(self).board,
            final(self).history == old(self).history,
            final(self).position_history == old(self).position_history,
            final(self).moves_counter == old(self).moves_counter,
            final(self).search_path_hashes == old(self).search_path_hashes,
    {
        let index = slot_of(hash);
        if index >= self.transposition_table.len() {
            return;
        }
        let keep = match self.transposition_table[index] {
            Some(e) => e.key == hash && e.depth > entry.depth,
            None => false,
        };
        if !keep {
            self.transposition_table.set(index, Some(entry));
        }
    }

    /// The entry stored for `hash`, if its slot holds one with that key.
    pub fn tt_probe(&self, hash: u64) -> (r: Option<TTEntry>)
        ensures
            r == tt_lookup(self.transposition_table@, hash),
    {
        let index = slot_of(hash);
        if index >= self.transposition_table.len() {
            return None;
        }
        match self.transposition_table[index] {
            Some(e) => if e.key == hash {
                Some(e)
            } else {
                None
            },
            None => None,
        }
    }
}

/// Law: after storing an entry for `hash`, looking `hash` up finds that entry, unless the
/// slot already held an entry for the same key searched deeper, which is then found.
pub proof fn law_tt_store_then_probe(tt: Seq<Option<TTEntry>>, hash: u64, entry: TTEntry)
    requires
        entry.key == hash,
        tt_slot(hash) < tt.len(),
    ensures
        ({
            let kept = match tt[tt_slot(hash)] {
                Some(e) => e.key == hash && e.depth > entry.depth,
                None => false,
            };
            &&& kept ==> tt_lookup(tt_after_store(tt, hash, entry), hash) == tt[tt_slot(hash)]
            &&& !kept ==> tt_lookup(tt_after_store(tt, hash, entry), hash) == Some(entry)
        }),
{
}

/// Law: storing an entry for `hash` leaves the lookups of hashes of other slots as they were.
pub proof fn law_tt_store_keeps_other_slots(tt: Seq<Option<TTEntry>>, hash: u64, entry: TTEntry, other: u64)
    requires
        tt_slot(other) != tt_slot(hash),
    ensures
        tt_lookup(tt_after_store(tt, hash, entry), other) == tt_lookup(tt, other),
{
}

/// Why a game ended drawn.
#[derive(Copy, Clone, Debug, PartialEq, Eq, Structural)]
pub enum DrawReason {
    Stalemate,
    FiftyMoveRule,
    InsufficientMaterial,
    ThreefoldRepetition,
}

/// State of a game.
#[derive(Copy, Clone, Debug, PartialEq, Eq, Structural)]
pub enum GameStatus {
    InProgress,
    WhiteWon,
    BlackWon,
    Drawn(DrawReason),
}

/// Why a move given as text was refused.
#[derive(Copy, Clone, Debug, PartialEq, Eq, Structural)]
pub enum MoveError {
    IllegalMove,
}

/// No pawn, rook or queen is left and at most one knight or bishop: no side can mate.
pub open spec fn insufficient_material(b: Board) -> bool {
    &&& (pieces_of(b, WHITE_PAWN) | pieces_of(b, WHITE_ROOK) | pieces_of(b, WHITE_QUEEN) | pieces_of(
        b,
        BLACK_PAWN,
    ) | pieces_of(b, BLACK_ROOK) | pieces_of(b, BLACK_QUEEN)) == 0
    &&& count_of(b, WHITE_KNIGHT) + count_of(b, WHITE_BISHOP) + count_of(b, BLACK_KNIGHT) + count_of(
        b,
        BLACK_BISHOP,
    ) <= 1
}

/// A pawn, rook or queen of either side.
pub open spec fn mating_material(piece: u8) -> bool {
    piece == WHITE_PAWN || piece == WHITE_ROOK || piece == WHITE_QUEEN || piece == BLACK_PAWN
        || piece == BLACK_ROOK || piece == BLACK_QUEEN
}

proof fn lemma_count_none(a: u64, n: int)
    requires
        forall|t: int| !has_bit(a, t),
    ensures
        count_below(a, n) == 0,
    decreases n,
{
    if n > 0 {
        lemma_count_none(a, n - 1);
    }
}

/// A knight or bishop of either side.
pub open spec fn minor_piece(piece: u8) -> bool {
    piece == WHITE_KNIGHT || piece == WHITE_BISHOP || piece == BLACK_KNIGHT || piece == BLACK_BISHOP
}

proof fn lemma_count_has(a: u64, s: int, t: int, n: int)
    requires
        0 <= s < n,
        has_bit(a, s),
        t == s || (0 <= t < n && has_bit(a, t)),
    ensures
        count_below(a, n) >= if t == s { 1int } else { 2int },
    decreases n,
{
    if n - 1 != s && n - 1 != t {
        lemma_count_has(a, s, t, n - 1);
    } else if t != s && n - 1 == s {
        lemma_count_has(a, t, t, n - 1);
    } else if t != s && n - 1 == t {
        lemma_count_has(a, s, s, n - 1);
    } else if s > 0 {
        lemma_count_nonneg(a, n - 1);
    }
}

proof fn lemma_count_nonneg(a: u64, n: int)
    ensures
        count_below(a, n) >= 0,
{
}

/// Law: a game is drawn for insufficient material only when no pawn, rook or queen of either
/// side stands on the board and at most one knight or bishop does; and a game with the two kings alone, a legal move to play and the
/// fifty-move clock below 100 is drawn for insufficient material.
pub proof fn law_material_draw(p: Position)
    requires
        p.board.wf(),
    ensures
        status_of(p) == GameStatus::Drawn(DrawReason::InsufficientMaterial) ==> forall|s: int|
            0 <= s < 64 ==> !mating_material(#[trigger] p.board.squares[s]),
        status_of(p) == GameStatus::Drawn(DrawReason::InsufficientMaterial) ==> forall|s: int, t: int|
            0 <= s < t < 64 && minor_piece(#[trigger] p.board.squares[s]) ==> !minor_piece(
                #[trigger] p.board.squares[t],
            ),
        (forall|s: int| 0 <= s < 64 ==> #[trigger] p.board.squares[s] == EMPTY || p.board.squares[s]
            == WHITE_KING || p.board.squares[s] == BLACK_KING) && legal_list(p.board).len() > 0
            && p.board.halfmove_clock < 100 ==> status_of(p) == GameStatus::Drawn(
            DrawReason::InsufficientMaterial,
        ),
{
    let b = p.board;
    let bb = b.piece_bitboards;
    let x1 = bb[WHITE_PAWN - 1] | bb[WHITE_ROOK - 1];
    let x2 = x1 | bb[WHITE_QUEEN - 1];
    let x3 = x2 | bb[BLACK_PAWN - 1];
    let x4 = x3 | bb[BLACK_ROOK - 1];
    let x5 = x4 | bb[BLACK_QUEEN - 1];
    lemma_bit_or(bb[WHITE_PAWN - 1], bb[WHITE_ROOK - 1]);
    lemma_bit_or(x1, bb[WHITE_QUEEN - 1]);
    lemma_bit_or(x2, bb[BLACK_PAWN - 1]);
    lemma_bit_or(x3, bb[BLACK_ROOK - 1]);
    lemma_bit_or(x4, bb[BLACK_QUEEN - 1]);
    lemma_bits_empty(x5);
    if status_of(p) == GameStatus::Drawn(DrawReason::InsufficientMaterial) {
        assert(insufficient_material(b));
        assert forall|s: int| 0 <= s < 64 implies !mating_material(#[trigger] b.squares[s]) by {
            assert(!has_bit(x5, s));
            assert(!has_bit(bb[WHITE_PAWN - 1], s));
            assert(!has_bit(bb[WHITE_ROOK - 1], s));
            assert(!has_bit(bb[WHITE_QUEEN - 1], s));
            assert(!has_bit(bb[BLACK_PAWN - 1], s));
            assert(!has_bit(bb[BLACK_ROOK - 1], s));
            assert(!has_bit(bb[BLACK_QUEEN - 1], s));
        }
        assert forall|s: int, t: int| 0 <= s < t < 64 && minor_piece(#[trigger] b.squares[s]) implies !minor_piece(
            #[trigger] b.squares[t],
        ) by {
            if minor_piece(b.squares[t]) {
                let ps = b.squares[s];
                let pt = b.squares[t];
                assert(has_bit(bb[ps - 1], s));
                assert(has_bit(bb[pt - 1], t));
                lemma_count_nonneg(bb[WHITE_KNIGHT - 1], 64);
                lemma_count_nonneg(bb[WHITE_BISHOP - 1], 64);
                lemma_count_nonneg(bb[BLACK_KNIGHT - 1], 64);
                lemma_count_nonneg(bb[BLACK_BISHOP - 1], 64);
                if ps == pt {
                    lemma_count_has(bb[ps - 1], s, t, 64);
                } else {
                    lemma_count_has(bb[ps - 1], s, s, 64);
                    lemma_count_has(bb[pt - 1], t, t, 64);
                }
            }
        }
    }
    if (forall|s: int| 0 <= s < 64 ==> #[trigger] b.squares[s] == EMPTY || b.squares[s] == WHITE_KING
        || b.squares[s] == BLACK_KING) && legal_list(b).len() > 0 && b.halfmove_clock < 100 {
        assert forall|q: int, t: int| 0 <= q < 12 && q != 5 && q != 11 implies !has_bit(bb[q], t) by {
            if 0 <= t < 64 {
                assert(b.squares[t] == EMPTY || b.squares[t] == WHITE_KING || b.squares[t] == BLACK_KING);
            }
        }
        assert forall|t: int| !has_bit(x5, t) by {
            assert(!has_bit(bb[0], t) && !has_bit(bb[1], t) && !has_bit(bb[4], t));
            assert(!has_bit(bb[6], t) && !has_bit(bb[7], t) && !has_bit(bb[10], t));
        }
        lemma_count_none(bb[WHITE_KNIGHT - 1], 64);
        lemma_count_none(bb[WHITE_BISHOP - 1], 64);
        lemma_count_none(bb[BLACK_KNIGHT - 1], 64);
        lemma_count_none(bb[BLACK_BISHOP - 1], 64);
        assert(insufficient_material(b));
    }
}

/// The current position occurred three times in the game.
pub open spec fn threefold(p: Position) -> bool {
    occurrences(p.position_history@, p.board.zobrian_hash) >= 3
}

/// The state of the game: mate or stalemate when the side to move has no legal move, then
/// the fifty-move rule, insufficient material and threefold repetition, else in progress.
pub open spec fn status_of(p: Position) -> GameStatus {
    let b = p.board;
    if legal_list(b).len() == 0 {
        if !in_check_on(b.squares@, b.side_to_move) {
            GameStatus::Drawn(DrawReason::Stalemate)
        } else {
            match b.side_to_move {
                Color::White => GameStatus::BlackWon,
                Color::Black => GameStatus::WhiteWon,
            }
        }
    } else if b.halfmove_clock >= 100 {
        GameStatus::Drawn(DrawReason::FiftyMoveRule)
    } else if insufficient_material(b) {
        GameStatus::Drawn(DrawReason::InsufficientMaterial)
    } else if threefold(p) {
        GameStatus::Drawn(DrawReason::ThreefoldRepetition)
    } else {
        GameStatus::InProgress
    }
}

/// The board supports asking for its legal moves and checks.
pub open spec fn playable_board(b: Board) -> bool {
    &&& b.wf()
    &&& b.has_piece(piece_of(b.side_to_move, WHITE_KING))
    &&& en_passant_sane(b)
}

impl Position {
    /// Records the current position as reached in the real game, one more half-move played.
    pub fn record_real_move(&mut self)
        requires
            old(self).moves_counter < u32::MAX,
        ensures
            final(self).position_history@ == old(self).position_history@.push(
                old(self).board.zobrian_hash,
            ),
            final(self).moves_counter == old(self).moves_counter + 1,
            final(self).board == old(self).board,
            final(self).history@ == old(self).history@,
            final(self).transposition_table@ == old(self).transposition_table@,
            final(self).search_path_hashes@ == old(self).search_path_hashes@,
    {
        let hash = self.board.zobrian_hash;
        self.position_history.push(hash);
        self.moves_counter = self.moves_counter + 1;
    }

    fn is_insufficient_material(&self) -> (r: bool)
        ensures
            r == insufficient_material(self.board),
    {
        let bb = &self.board.piece_bitboards;
        let pawns_or_majors = bb[(WHITE_PAWN - 1) as usize] | bb[(WHITE_ROOK - 1) as usize] | bb[(
        WHITE_QUEEN - 1) as usize] | bb[(BLACK_PAWN - 1) as usize] | bb[(BLACK_ROOK - 1) as usize]
            | bb[(BLACK_QUEEN - 1) as usize];
        if pawns_or_majors != 0 {
            return false;
        }
        let minor_count = count_ones(bb[(WHITE_KNIGHT - 1) as usize]) + count_ones(
            bb[(WHITE_BISHOP - 1) as usize],
        ) + count_ones(bb[(BLACK_KNIGHT - 1) as usize]) + count_ones(
            bb[(BLACK_BISHOP - 1) as usize],
        );
        minor_count <= 1
    }

    fn is_threefold_repetition(&self) -> (r: bool)
        ensures
            r == threefold(*self),
    {
        let current_hash = self.board.zobrian_hash;
        count_occurrences(&self.position_history, current_hash) >= 3
    }

    /// The state of the game on the current position.
    pub fn game_status(&self) -> (r: GameStatus)
        requires
            playable_board(self.board),
        ensures
            r == status_of(*self),
    {
        let moves = self.board.all_legal_moves();
        if moves.len() == 0 {
            if !self.board.is_in_check(self.board.side_to_move) {
                return GameStatus::Drawn(DrawReason::Stalemate);
            }
            return match self.board.side_to_move {
                Color::White => GameStatus::BlackWon,
                Color::Black => GameStatus::WhiteWon,
            };
        }
        if self.board.halfmove_clock >= 100 {
            return GameStatus::Drawn(DrawReason::FiftyMoveRule);
        }
        if self.is_insufficient_material() {
            return GameStatus::Drawn(DrawReason::InsufficientMaterial);
        }
        if self.is_threefold_repetition() {
            return GameStatus::Drawn(DrawReason::ThreefoldRepetition);
        }
        GameStatus::InProgress
    }
}

/// The legal move named by a text, if the text names one.
pub open spec fn legal_move_of_text(s: Seq<char>, b: Board) -> Option<Move> {
    match move_of_text(s, b.side_to_move) {
        Some(m) => if legal(b, m) {
            Some(m)
        } else {
            None
        },
        None => None,
    }
}

impl Position {
    /// The move named by `input`, when it is legal in the current position.
    pub fn parse_legal_move(&self, input: &str) -> (r: Option<Move>)
        requires
            playable_board(self.board),
        ensures
            r == legal_move_of_text(input@, self.board),
    {
        let mv = match self.move_from_string(input) {
            Some(m) => m,
            None => {
                return None;
            },
        };
        let legal_moves = self.board.all_legal_moves();
        let mut i: usize = 0;
        while i < legal_moves.len()
            invariant
                i <= legal_moves@.len(),
                forall|k: int| 0 <= k < i ==> legal_moves@[k] != mv,
                forall|m: Move| #[trigger] legal_moves@.contains(m) <==> legal(self.board, m),
                move_of_text(input@, self.board.side_to_move) == Some(mv),
            decreases legal_moves@.len() - i,
        {
            if legal_moves[i] == mv {
                assert(legal_moves@[i as int] == mv);
                assert(legal_moves@.contains(mv));
                return Some(mv);
            }
            i = i + 1;
        }
        assert(!legal_moves@.contains(mv));
        None
    }

    /// Plays the move named by `input` ("e2e4", "e7e8q") when it is legal; otherwise refuses it
    /// and leaves the position as it is.
    pub fn apply_move_str(&mut self, input: &str) -> (r: Result<(), MoveError>)
        requires
            searchable(old(self).board),
        ensures
            match legal_move_of_text(input@, old(self).board) {
                Some(m) => {
                    &&& r is Ok
                    &&& final(self).board == board_after(old(self).board, m)
                    &&& final(self).history@ == old(self).history@.push(action_of(old(self).board, m))
                    &&& final(self).transposition_table == old(self).transposition_table
                    &&& final(self).position_history == old(self).position_history
                    &&& final(self).moves_counter == old(self).moves_counter
                    &&& final(self).search_path_hashes == old(self).search_path_hashes
                },
                None => r == Err::<(), MoveError>(MoveError::IllegalMove) && *final(self) == *old(self),
            },
    {
        let mv = match self.parse_legal_move(input) {
            Some(m) => m,
            None => {
                return Err(MoveError::IllegalMove);
            },
        };
        let ghost b = self.board;
        self.make_move(mv);
        proof {
            let after = self.board;
            assert(is_board_after(b, mv, after));
            lemma_board_after_unique(b, mv, after, board_after(b, mv));
        }
        Ok(())
    }
}

} // verus!
