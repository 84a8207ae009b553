//! Searching the game tree: move counting, negamax with alpha-beta and a transposition table,
//! and the choice of the best move.
use vstd::prelude::*;
use crate::attacks::in_check_on;
use crate::board::Board;
use crate::game::Position;
use crate::legality::{legal, legal_list, en_passant_sane};
use crate::make_move::{
    squares_after_move, rights_after_move, en_passant_after_move, clock_after_move, action_of,
    move_playable, move_sane, lemma_bitboards_determined, law_make_then_undo,
};
use crate::types::{Move, piece_of, WHITE_KING};
use crate::zobrist::{hash_after_update, Bound, TTEntry};
use crate::game::{tt_lookup, tt_after_store, tt_slot};
use crate::evaluate::{kings_for_queens, evaluation, move_score};
use crate::book::{BookEntry, book_move, book_choice};
use crate::tree::{below_distinct, tree_below, search_tree, table_keys, lemma_tree_no_hits};

verus! {

/// `a` is the board that `make_move` leaves after playing `m` on `b`.
pub open spec fn is_board_after(b: Board, m: Move, a: Board) -> bool {
    &&& a.squares@ == squares_after_move(b, m)
    &&& a.bitboards_match()
    &&& a.castling_rights == rights_after_move(b, m)
    &&& a.en_passant_square == en_passant_after_move(b, m)
    &&& a.halfmove_clock == clock_after_move(b, m)
    &&& a.side_to_move == b.side_to_move.spec_opposite()
    &&& a.zobrian_hash == hash_after_update(
        b.zobrian_hash,
        rights_after_move(b, m),
        en_passant_after_move(b, m),
        action_of(b, m),
    )
}

/// The board after playing `m` on `b`.
pub open spec fn board_after(b: Board, m: Move) -> Board {
    choose|a: Board| is_board_after(b, m, a)
}

/// A board the search can stand on: well formed, the side to move has a king, the en passant
/// square is sane, and every legal move can be played and taken back.
pub open spec fn searchable(b: Board) -> bool {
    &&& b.wf()
    &&& b.has_piece(piece_of(b.side_to_move, WHITE_KING))
    &&& en_passant_sane(b)
    &&& kings_for_queens(b)
    &&& forall|m: Move| #[trigger] legal(b, m) ==> move_playable(b, m) && move_sane(b, m)
}

/// Every board reached from `b` within `depth` moves, `b` included when `depth > 0`, is
/// searchable.
pub open spec fn search_defined(b: Board, depth: nat) -> bool
    decreases depth,
{
    depth == 0 || (searchable(b) && forall|m: Move| #[trigger]
        legal(b, m) ==> search_defined(board_after(b, m), (depth - 1) as nat))
}

/// Number of move sequences of length `depth` from `b` (the leaves of the game tree).
pub open spec fn perft_count(b: Board, depth: nat) -> nat
    decreases depth, 0nat,
{
    if depth == 0 {
        1
    } else {
        perft_children(b, legal_list(b), (depth - 1) as nat)
    }
}

/// Sum of `perft_count(board_after(b, m), depth)` over the moves `m` of `ms`.
pub open spec fn perft_children(b: Board, ms: Seq<Move>, depth: nat) -> nat
    decreases depth, ms.len() + 1,
{
    if ms.len() == 0 {
        0
    } else {
        perft_children(b, ms.drop_last(), depth) + perft_count(board_after(b, ms.last()), depth)
    }
}

/// Two boards that both follow `m` on `b` are the same board.
pub proof fn lemma_board_after_unique(b: Board, m: Move, a1: Board, a2: Board)
    requires
        is_board_after(b, m, a1),
        is_board_after(b, m, a2),
    ensures
        a1 == a2,
{
    lemma_bitboards_determined(a1, a2);
    assert(a1.squares@ =~= a2.squares@);
    assert(a1.squares == a2.squares);
}

/// The sums over prefixes of a move list grow with the prefix.
proof fn lemma_perft_children_prefix(b: Board, ms: Seq<Move>, depth: nat, i: int, j: int)
    requires
        0 <= i <= j <= ms.len(),
    ensures
        perft_children(b, ms.take(i), depth) <= perft_children(b, ms.take(j), depth),
    decreases j - i,
{
    if i < j {
        lemma_perft_children_prefix(b, ms, depth, i, j - 1);
        assert(ms.take(j).drop_last() =~= ms.take(j - 1));
    }
}

impl Position {
    /// Counts the leaves of the game tree of depth `depth` below the current board, playing
    /// and taking back every legal move; the position is left as it was.
    pub fn perft(&mut self, depth: usize) -> (nodes: u64)
        requires
            search_defined(old(self).board, depth as nat),
            perft_count(old(self).board, depth as nat) <= u64::MAX,
        ensures
            nodes == perft_count(old(self).board, depth as nat),
            final(self).board == old(self).board,
            final(self).history@ == old(self).history@,
            final(self).transposition_table == old(self).transposition_table,
            final(self).position_history == old(self).position_history,
            final(self).moves_counter == old(self).moves_counter,
            final(self).search_path_hashes == old(self).search_path_hashes,
        decreases depth,
    {
        if depth == 0 {
            return 1;
        }
        let ghost b = self.board;
        let ghost h = self.history@;
        let moves = self.board.all_legal_moves();
        let mut nodes: u64 = 0;
        let mut i: usize = 0;
        while i < moves.len()
            invariant
                i <= moves@.len(),
                moves@ == legal_list(b),
                forall|m: Move| #[trigger] moves@.contains(m) <==> legal(b, m),
                depth > 0,
                search_defined(b, depth as nat),
                perft_count(b, depth as nat) <= u64::MAX,
                perft_count(b, depth as nat) == perft_children(b, moves@, (depth - 1) as nat),
                nodes == perft_children(b, moves@.take(i as int), (depth - 1) as nat),
                self.board == b,
                self.history@ == h,
                self.transposition_table == old(self).transposition_table,
                self.position_history == old(self).position_history,
                self.moves_counter == old(self).moves_counter,
                self.search_path_hashes == old(self).search_path_hashes,
            decreases moves@.len() - i,
        {
            let m = moves[i];
            assert(moves@.contains(m));
            assert(legal(b, m));
            self.make_move(m);
            let ghost after = self.board;
            proof {
                let chosen = board_after(b, m);
                assert(is_board_after(b, m, after));
                lemma_board_after_unique(b, m, after, chosen);
                lemma_perft_children_prefix(b, moves@, (depth - 1) as nat, i + 1, moves@.len() as int);
                assert(moves@.take(i + 1).drop_last() =~= moves@.take(i as int));
                assert(moves@.take(i + 1).last() == m);
                assert(moves@.take(moves@.len() as int) =~= moves@);
            }
            let child = self.perft(depth - 1);
            nodes = nodes + child;
            self.undo_move();
            proof {
                law_make_then_undo(b, m, after, self.board);
            }
            i = i + 1;
        }
        proof {
            assert(moves@.take(moves@.len() as int) =~= moves@);
        }
        nodes
    }
}

/// Bound on every score of the search.
pub const INFINITY: i32 = 2_000_000;

/// Score of being mated at the root; a mate `ply` half-moves away scores `ply` more.
pub const CHECK_MATE: i32 = 1_000_000;

/// How far the search looks.
#[derive(Copy, Clone, Debug, PartialEq, Eq, Structural)]
pub enum SearchLimit {
    /// A fixed number of half-moves.
    Depth(u32),
}

/// Number of times `h` occurs in `s`.
pub open spec fn occurrences(s: Seq<u64>, h: u64) -> nat
    decreases s.len(),
{
    if s.len() == 0 {
        0
    } else {
        occurrences(s.drop_last(), h) + if s.last() == h {
            1nat
        } else {
            0nat
        }
    }
}

/// Every score stored in the table lies strictly between `-INFINITY` and `INFINITY`.
pub open spec fn tt_scores_bounded(tt: Seq<Option<TTEntry>>) -> bool {
    forall|i: int|
        0 <= i < tt.len() ==> match #[trigger] tt[i] {
            Some(e) => -INFINITY < e.score < INFINITY,
            None => true,
        }
}

impl Position {
    /// Whether every score kept in the transposition table lies strictly between
    /// `-INFINITY` and `INFINITY`.
    pub fn table_scores_bounded(&self) -> (r: bool)
        ensures
            r == tt_scores_bounded(self.transposition_table@),
    {
        let mut i: usize = 0;
        while i < self.transposition_table.len()
            invariant
                i <= self.transposition_table@.len(),
                forall|j: int| 0 <= j < i ==> match #[trigger] self.transposition_table@[j] {
                    Some(e) => -INFINITY < e.score < INFINITY,
                    None => true,
                },
            decreases self.transposition_table@.len() - i,
        {
            match self.transposition_table[i] {
                Some(e) => {
                    if !(-INFINITY < e.score && e.score < INFINITY) {
                        return false;
                    }
                },
                None => {},
            }
            i = i + 1;
        }
        true
    }
}

/// A stored entry settles the search of a node to `depth` with window `(alpha, beta)`: it was
/// searched at least as deep and its bound is conclusive for the window.
pub open spec fn tt_cutoff(e: TTEntry, depth: u32, alpha: i32, beta: i32) -> bool {
    e.depth >= depth && match e.bound {
        Bound::Exact => true,
        Bound::LowerBound => e.score >= beta,
        Bound::UpperBound => e.score <= alpha,
    }
}

/// Score of a node without legal moves: mated, or a stalemate.
pub open spec fn terminal_score(b: Board, ply: u32) -> int {
    if in_check_on(b.squares@, b.side_to_move) {
        -CHECK_MATE + ply
    } else {
        0
    }
}

/// The position's hash occurs twice or more in the game and on the search path.
pub open spec fn repeated(p: Position) -> bool {
    occurrences(p.position_history@, p.board.zobrian_hash) + occurrences(
        p.search_path_hashes@,
        p.board.zobrian_hash,
    ) >= 2
}

/// The search of `p` to `depth` with window `(alpha, beta)` returns at once: the position is
/// repeated, or the table holds an entry that settles the window.
pub open spec fn settled_at_once(p: Position, depth: u32, alpha: i32, beta: i32) -> bool {
    ||| repeated(p)
    ||| match tt_lookup(p.transposition_table@, p.board.zobrian_hash) {
        Some(e) => tt_cutoff(e, depth, alpha, beta),
        None => false,
    }
}

/// Counts the occurrences of `h` in `v`.
pub(crate) fn count_occurrences(v: &Vec<u64>, h: u64) -> (r: usize)
    ensures
        r == occurrences(v@, h),
{
    let mut n: usize = 0;
    let mut i: usize = 0;
    while i < v.len()
        invariant
            i <= v@.len(),
            n == occurrences(v@.take(i as int), h),
            n <= i,
        decreases v@.len() - i,
    {
        assert(v@.take(i + 1).drop_last() =~= v@.take(i as int));
        if v[i] == h {
            n = n + 1;
        }
        i = i + 1;
    }
    assert(v@.take(v@.len() as int) =~= v@);
    n
}

/// Swapping two entries of a sequence keeps its elements.
proof fn lemma_swap_multiset<A>(s: Seq<A>, i: int, j: int)
    requires
        0 <= i < s.len(),
        0 <= j < s.len(),
        i != j,
    ensures
        s.update(i, s[j]).update(j, s[i]).to_multiset() == s.to_multiset(),
{
    broadcast use vstd::seq_lib::to_multiset_update;
    broadcast use vstd::seq_lib::to_multiset_contains;
    broadcast use vstd::multiset::group_multiset_axioms;
    let m = s.to_multiset();
    let s1 = s.update(i, s[j]);
    assert(s1[j] == s[j]);
    assert(s.contains(s[i]));
    assert(m.count(s[i]) > 0);
    let m1 = m.insert(s[j]).remove(s[i]);
    assert(s1.to_multiset() == m1);
    let m2 = m1.insert(s[i]).remove(s[j]);
    assert(s1.update(j, s[i]).to_multiset() == m2);
    assert forall|x: A| m2.count(x) == m.count(x) by {
        if x == s[i] && x == s[j] {
        } else if x == s[i] {
        } else if x == s[j] {
        }
    }
    assert(m2 =~= m);
}

/// `x` inserted into `s` after the moves whose score is at least its own.
pub open spec fn insert_by_score(b: Board, mc: u32, s: Seq<Move>, x: Move) -> Seq<Move>
    decreases s.len(),
{
    if s.len() == 0 {
        seq![x]
    } else if move_score(b, s.last(), mc) < move_score(b, x, mc) {
        insert_by_score(b, mc, s.drop_last(), x).push(s.last())
    } else {
        s.push(x)
    }
}

/// The moves of `s` by decreasing score, moves of equal score in their order in `s`.
pub open spec fn order_by_score(b: Board, mc: u32, s: Seq<Move>) -> Seq<Move>
    decreases s.len(),
{
    if s.len() == 0 {
        s
    } else {
        insert_by_score(b, mc, order_by_score(b, mc, s.drop_last()), s.last())
    }
}

proof fn lemma_insert_len(b: Board, mc: u32, s: Seq<Move>, x: Move)
    ensures
        insert_by_score(b, mc, s, x).len() == s.len() + 1,
    decreases s.len(),
{
    if s.len() > 0 && move_score(b, s.last(), mc) < move_score(b, x, mc) {
        lemma_insert_len(b, mc, s.drop_last(), x);
    }
}

proof fn lemma_order_len(b: Board, mc: u32, s: Seq<Move>)
    ensures
        order_by_score(b, mc, s).len() == s.len(),
    decreases s.len(),
{
    if s.len() > 0 {
        lemma_order_len(b, mc, s.drop_last());
        lemma_insert_len(b, mc, order_by_score(b, mc, s.drop_last()), s.last());
    }
}

/// Inserting `x` into `a` puts it at `j` when the moves from `j` on score less than it and
/// the one before `j` does not.
proof fn lemma_insert_at(b: Board, mc: u32, a: Seq<Move>, x: Move, j: int)
    requires
        0 <= j <= a.len(),
        forall|k: int| j <= k < a.len() ==> move_score(b, #[trigger] a[k], mc) < move_score(b, x, mc),
        j == 0 || move_score(b, a[j - 1], mc) >= move_score(b, x, mc),
    ensures
        insert_by_score(b, mc, a, x) == a.subrange(0, j) + seq![x] + a.subrange(j, a.len() as int),
    decreases a.len() - j,
{
    if j == a.len() {
        assert(a.subrange(0, j) =~= a);
        assert(a.subrange(j, a.len() as int) =~= Seq::<Move>::empty());
        if a.len() > 0 {
            assert(a.last() == a[j - 1]);
        }
        assert(insert_by_score(b, mc, a, x) =~= a.subrange(0, j) + seq![x] + a.subrange(j, a.len() as int));
    } else {
        let d = a.drop_last();
        assert(a.last() == a[a.len() - 1]);
        if j > 0 {
            assert(d[j - 1] == a[j - 1]);
        }
        assert forall|k: int| j <= k < d.len() implies move_score(b, #[trigger] d[k], mc) < move_score(b, x, mc) by {
            assert(d[k] == a[k]);
        }
        lemma_insert_at(b, mc, d, x, j);
        assert(insert_by_score(b, mc, a, x) =~= a.subrange(0, j) + seq![x] + a.subrange(j, a.len() as int));
    }
}

impl Position {
    /// Orders `moves` by decreasing `score_move`: the most promising captures first.
    pub fn order_moves(&self, moves: &mut Vec<Move>)
        requires
            self.board.wf(),
            kings_for_queens(self.board),
            forall|k: int|
                0 <= k < old(moves)@.len() ==> (#[trigger] old(moves)@[k]).origin < 64
                    && old(moves)@[k].destination < 64,
        ensures
            final(moves)@.to_multiset() == old(moves)@.to_multiset(),
            final(moves)@.len() == old(moves)@.len(),
            forall|a: int, b: int|
                0 <= a < b < final(moves)@.len() ==> move_score(
                    self.board,
                    #[trigger] final(moves)@[a],
                    self.moves_counter,
                ) >= move_score(self.board, #[trigger] final(moves)@[b], self.moves_counter),
            final(moves)@ == order_by_score(self.board, self.moves_counter, old(moves)@),
    {
        let ghost orig = moves@;
        let mut scores: Vec<i32> = Vec::new();
        let mut k: usize = 0;
        while k < moves.len()
            invariant
                k <= moves@.len(),
                moves@ == orig,
                self.board.wf(),
                kings_for_queens(self.board),
                forall|q: int| 0 <= q < orig.len() ==> (#[trigger] orig[q]).origin < 64 && orig[q].destination < 64,
                scores@.len() == k,
                forall|q: int| 0 <= q < k ==> #[trigger] scores@[q] == move_score(self.board, moves@[q], self.moves_counter),
            decreases moves@.len() - k,
        {
            let sc = self.board.score_move(&moves[k], self.moves_counter);
            scores.push(sc);
            k = k + 1;
        }
        let n = moves.len();
        let ghost bd = self.board;
        let ghost mc = self.moves_counter;
        proof {
            if n > 0 {
                assert(orig.subrange(0, 1).drop_last() =~= Seq::<Move>::empty());
                assert(order_by_score(bd, mc, orig.subrange(0, 1).drop_last()) == Seq::<Move>::empty());
                assert(insert_by_score(bd, mc, Seq::<Move>::empty(), orig[0]) == seq![orig[0]]);
                assert(moves@.subrange(0, 1) =~= order_by_score(bd, mc, orig.subrange(0, 1)));
            }
        }
        let mut i: usize = 1;
        while i < n
            invariant
                n == moves@.len(),
                n == orig.len(),
                bd == self.board,
                mc == self.moves_counter,
                n > 0 ==> i <= n && moves@.subrange(0, i as int) == order_by_score(bd, mc, orig.subrange(0, i as int))
                    && moves@.subrange(i as int, n as int) == orig.subrange(i as int, n as int),
                scores@.len() == n,
                moves@.to_multiset() == orig.to_multiset(),
                forall|q: int| 0 <= q < n ==> #[trigger] scores@[q] == move_score(self.board, moves@[q], self.moves_counter),
                forall|a: int, b: int| 0 <= a < b < i && b < n ==> #[trigger] scores@[a] >= #[trigger] scores@[b],
            decreases n - i,
        {
            let ghost a = order_by_score(bd, mc, orig.subrange(0, i as int));
            let ghost x = orig[i as int];
            proof {
                lemma_order_len(bd, mc, orig.subrange(0, i as int));
                assert(moves@[i as int] == moves@.subrange(i as int, n as int)[0]);
                assert(moves@.subrange(0, i + 1) =~= a.subrange(0, i as int) + seq![x] + a.subrange(i as int, i as int));
                assert forall|k: int| 0 <= k < n - (i + 1) implies #[trigger] moves@.subrange(i + 1, n as int)[k] == orig.subrange(i + 1, n as int)[k] by {
                    assert(moves@.subrange(i as int, n as int)[k + 1] == orig.subrange(i as int, n as int)[k + 1]);
                }
                assert(moves@.subrange(i + 1, n as int) =~= orig.subrange(i + 1, n as int));
            }
            let mut j: usize = i;
            while j > 0 && scores[j - 1] < scores[j]
                invariant
                    0 <= j <= i < n,
                    n == moves@.len(),
                    n == orig.len(),
                    bd == self.board,
                    mc == self.moves_counter,
                    a.len() == i,
                    x == orig[i as int],
                    moves@.subrange(0, i + 1) == a.subrange(0, j as int) + seq![x] + a.subrange(j as int, i as int),
                    moves@.subrange(i + 1, n as int) == orig.subrange(i + 1, n as int),
                    forall|k: int| j <= k < i ==> move_score(bd, #[trigger] a[k], mc) < move_score(bd, x, mc),
                    scores@.len() == n,
                    moves@.to_multiset() == orig.to_multiset(),
                    forall|q: int| 0 <= q < n ==> #[trigger] scores@[q] == move_score(self.board, moves@[q], self.moves_counter),
                    forall|a: int, b: int| 0 <= a < b < j ==> #[trigger] scores@[a] >= #[trigger] scores@[b],
                    forall|a: int, b: int| j < a < b <= i ==> #[trigger] scores@[a] >= #[trigger] scores@[b],
                    forall|a: int, b: int| 0 <= a < j && j < b <= i ==> #[trigger] scores@[a] >= #[trigger] scores@[b],
                    forall|b: int| j < b <= i ==> scores@[j as int] >= #[trigger] scores@[b],
                decreases j,
            {
                let s_prev = scores[j - 1];
                let s_cur = scores[j];
                scores.set(j - 1, s_cur);
                scores.set(j, s_prev);
                let m_prev = moves[j - 1];
                let m_cur = moves[j];
                let ghost before = moves@;
                moves.set(j - 1, m_cur);
                moves.set(j, m_prev);
                proof {
                    lemma_swap_multiset(before, j - 1, j as int);
                    assert(moves@ == before.update(j - 1, before[j as int]).update(j as int, before[j - 1]));
                    assert(before[j - 1] == before.subrange(0, i + 1)[j - 1]);
                    assert(before[j as int] == before.subrange(0, i + 1)[j as int]);
                    assert(before[j as int] == x);
                    assert(before[j - 1] == a[j - 1]);
                    let target = a.subrange(0, j - 1) + seq![x] + a.subrange(j - 1, i as int);
                    let old_view = a.subrange(0, j as int) + seq![x] + a.subrange(j as int, i as int);
                    assert forall|k: int| 0 <= k < i + 1 implies #[trigger] moves@.subrange(0, i + 1)[k] == target[k] by {
                        assert(before.subrange(0, i + 1)[k] == old_view[k]);
                        if k < j - 1 {
                            assert(moves@[k] == before[k]);
                        } else if k > j {
                            assert(moves@[k] == before[k]);
                        }
                    }
                    assert(moves@.subrange(0, i + 1) =~= target);
                    assert(moves@.subrange(i + 1, n as int) =~= before.subrange(i + 1, n as int));
                }
                j = j - 1;
            }
            proof {
                if j > 0 {
                    assert(moves@[j - 1] == moves@.subrange(0, i + 1)[j - 1]);
                    assert(moves@[j as int] == moves@.subrange(0, i + 1)[j as int]);
                }
                lemma_insert_at(bd, mc, a, x, j as int);
                assert(a.subrange(j as int, a.len() as int) == a.subrange(j as int, i as int));
                let o1 = orig.subrange(0, i + 1);
                assert(o1.drop_last() =~= orig.subrange(0, i as int));
                assert(o1.last() == x);
                assert(moves@.subrange(0, i + 1) == order_by_score(bd, mc, o1));
                assert(moves@.subrange(i + 1, n as int) == orig.subrange(i + 1, n as int));
            }
            i = i + 1;
        }
        proof {
            if n > 0 {
                assert(moves@ =~= moves@.subrange(0, n as int));
                assert(orig =~= orig.subrange(0, n as int));
            } else {
                assert(moves@ =~= orig);
            }
        }
        assert forall|a: int, b: int| 0 <= a < b < moves@.len() implies move_score(
            self.board,
            #[trigger] moves@[a],
            self.moves_counter,
        ) >= move_score(self.board, #[trigger] moves@[b], self.moves_counter) by {
            assert(scores@[a] >= scores@[b]);
        }
    }
}

/// Bound type of a search result `best` obtained with window `(alpha, beta)`.
pub open spec fn bound_of(best: int, alpha: int, beta: int) -> Bound {
    if best >= beta {
        Bound::LowerBound
    } else if best <= alpha {
        Bound::UpperBound
    } else {
        Bound::Exact
    }
}

/// The value and the table a negamax search to `depth` leaves, `ply` half-moves below the
/// root, from the side to move of `b`, with `game` the positions of the real game, `path` the
/// positions of the search path and `tt` the table it starts with: a draw for a position
/// seen twice; the stored score when the table's entry settles the window; the mate or
/// stalemate score without legal moves; the evaluation at depth zero; otherwise the search of
/// the moves by decreasing score, whose result is then stored in the table.
pub open spec fn search_value(
    b: Board,
    game: Seq<u64>,
    path: Seq<u64>,
    tt: Seq<Option<TTEntry>>,
    mc: u32,
    depth: u32,
    ply: u32,
    alpha: i32,
    beta: i32,
) -> (i32, Seq<Option<TTEntry>>)
    decreases depth, 1nat, 0int,
{
    let h = b.zobrian_hash;
    let hit = match tt_lookup(tt, h) {
        Some(e) => tt_cutoff(e, depth, alpha, beta),
        None => false,
    };
    if occurrences(game, h) + occurrences(path, h) >= 2 {
        (0, tt)
    } else if hit {
        (tt_lookup(tt, h)->0.score, tt)
    } else if legal_list(b).len() == 0 {
        (terminal_score(b, ply) as i32, tt)
    } else if depth == 0 {
        (evaluation(b, mc) as i32, tt)
    } else {
        let ms = order_by_score(b, mc, legal_list(b));
        let run = search_moves(b, game, path, mc, depth, ply, beta, ms, 0, alpha, (-INFINITY) as i32, ms[0], tt);
        (
            run.0,
            tt_after_store(
                run.2,
                h,
                TTEntry {
                    key: h,
                    depth,
                    bound: bound_of(run.0 as int, alpha as int, beta as int),
                    score: run.0,
                    best_move: run.1,
                },
            ),
        )
    }
}

/// Law: a position whose hash occurs twice or more in the game and on the search path scores
/// a draw, and the search leaves the table as it was: a repetition score depends on the path,
/// so it is never stored.
pub proof fn law_repetition_is_a_draw(
    b: Board,
    game: Seq<u64>,
    path: Seq<u64>,
    tt: Seq<Option<TTEntry>>,
    mc: u32,
    depth: u32,
    ply: u32,
    alpha: i32,
    beta: i32,
)
    requires
        occurrences(game, b.zobrian_hash) + occurrences(path, b.zobrian_hash) >= 2,
    ensures
        search_value(b, game, path, tt, mc, depth, ply, alpha, beta) == (0i32, tt),
{
}

/// Law: a position that is not repeated, has no settling table entry and no legal move scores
/// a mate against the side to move (nearer the root scores lower) or a stalemate draw, at any
/// depth and window, and the table is left as it was.
pub proof fn law_no_move_scores_the_end(
    b: Board,
    game: Seq<u64>,
    path: Seq<u64>,
    tt: Seq<Option<TTEntry>>,
    mc: u32,
    depth: u32,
    ply: u32,
    alpha: i32,
    beta: i32,
)
    requires
        occurrences(game, b.zobrian_hash) + occurrences(path, b.zobrian_hash) < 2,
        !(match tt_lookup(tt, b.zobrian_hash) {
            Some(e) => tt_cutoff(e, depth, alpha, beta),
            None => false,
        }),
        legal_list(b).len() == 0,
    ensures
        search_value(b, game, path, tt, mc, depth, ply, alpha, beta) == (
            (if in_check_on(b.squares@, b.side_to_move) {
                -CHECK_MATE + ply
            } else {
                0
            }) as i32,
            tt,
        ),
{
}

/// The plain negamax value of `b` to `depth`, `ply` half-moves below the root, from the side
/// to move, without window or table: a draw for a position seen twice, the mate or stalemate
/// score without legal moves, the evaluation at depth zero, else the best over the moves of
/// the negated value of the position after the move (`plain_best` over all of them).
pub open spec fn plain_value(b: Board, game: Seq<u64>, path: Seq<u64>, mc: u32, depth: u32, ply: u32) -> int
    decreases depth, 1nat, 0int,
{
    let h = b.zobrian_hash;
    if occurrences(game, h) + occurrences(path, h) >= 2 {
        0
    } else if legal_list(b).len() == 0 {
        (terminal_score(b, ply) as i32) as int
    } else if depth == 0 {
        (evaluation(b, mc) as i32) as int
    } else {
        let ms = order_by_score(b, mc, legal_list(b));
        plain_best(b, game, path, mc, depth, ply, ms, ms.len() as int)
    }
}

/// The best, over the first `k` moves of `ms`, of the negated plain value of the position after
/// the move; `-INFINITY` for none.
pub open spec fn plain_best(
    b: Board,
    game: Seq<u64>,
    path: Seq<u64>,
    mc: u32,
    depth: u32,
    ply: u32,
    ms: Seq<Move>,
    k: int,
) -> int
    decreases depth, 0nat, k,
{
    if k <= 0 || depth == 0 || k > ms.len() {
        -INFINITY
    } else {
        let child = board_after(b, ms[k - 1]);
        let t = -plain_value(
            child,
            game,
            path.push(child.zobrian_hash),
            mc,
            (depth - 1) as u32,
            (ply + 1) as u32,
        );
        let before = plain_best(b, game, path, mc, depth, ply, ms, k - 1);
        if t > before {
            t
        } else {
            before
        }
    }
}

/// What a window result says of a value: inside the window it is the value; at or below
/// `alpha` it lies between the value and `alpha`; at or above `beta` between `beta` and the value.
pub open spec fn window_holds(r: int, v: int, alpha: int, beta: int) -> bool {
    &&& alpha < v < beta ==> r == v
    &&& v <= alpha ==> v <= r <= alpha
    &&& v >= beta ==> beta <= r <= v
}

/// Law: the bound stored with a window result tells what it says of the plain value: an
/// exact entry is the value, a lower bound lies at or below it, an upper bound at or above it.
pub proof fn law_bound_meaning(r: int, v: int, alpha: int, beta: int)
    requires
        alpha < beta,
        window_holds(r, v, alpha, beta),
    ensures
        match bound_of(r, alpha, beta) {
            Bound::Exact => r == v,
            Bound::LowerBound => r <= v,
            Bound::UpperBound => v <= r,
        },
{
}

/// No node of the search of `b` (as `search_value` runs it) is settled by a table entry.
pub open spec fn no_table_hits(
    b: Board,
    game: Seq<u64>,
    path: Seq<u64>,
    tt: Seq<Option<TTEntry>>,
    mc: u32,
    depth: u32,
    ply: u32,
    alpha: i32,
    beta: i32,
) -> bool
    decreases depth, 1nat, 0int,
{
    let h = b.zobrian_hash;
    let hit = match tt_lookup(tt, h) {
        Some(e) => tt_cutoff(e, depth, alpha, beta),
        None => false,
    };
    if occurrences(game, h) + occurrences(path, h) >= 2 {
        true
    } else if hit {
        false
    } else if legal_list(b).len() == 0 || depth == 0 {
        true
    } else {
        let ms = order_by_score(b, mc, legal_list(b));
        no_table_hits_moves(b, game, path, mc, depth, ply, beta, ms, 0, alpha, (-INFINITY) as i32, ms[0], tt)
    }
}

/// No node of the search of the moves of `ms` from the `i`-th on (as `search_moves` runs it)
/// is settled by a table entry.
pub open spec fn no_table_hits_moves(
    b: Board,
    game: Seq<u64>,
    path: Seq<u64>,
    mc: u32,
    depth: u32,
    ply: u32,
    beta: i32,
    ms: Seq<Move>,
    i: int,
    alpha: i32,
    best: i32,
    bm: Move,
    tt: Seq<Option<TTEntry>>,
) -> bool
    decreases depth, 0nat, ms.len() - i,
{
    if i >= ms.len() || i < 0 || depth == 0 {
        true
    } else {
        let m = ms[i];
        let child = board_after(b, m);
        let cp = path.push(child.zobrian_hash);
        let r = search_value(child, game, cp, tt, mc, (depth - 1) as u32, (ply + 1) as u32, (-beta) as i32, (-alpha) as i32);
        let score = (-r.0) as i32;
        let best1 = if score > best { score } else { best };
        let bm1 = if score > best { m } else { bm };
        let alpha1 = if best1 > alpha { best1 } else { alpha };
        &&& no_table_hits(child, game, cp, tt, mc, (depth - 1) as u32, (ply + 1) as u32, (-beta) as i32, (-alpha) as i32)
        &&& (alpha1 >= beta || no_table_hits_moves(b, game, path, mc, depth, ply, beta, ms, i + 1, alpha1, best1, bm1, r.1))
    }
}

/// The search of the moves of `ms` from the `i`-th on, with window `(alpha, beta)`, best score
/// `best` for move `bm` so far and table `tt`: each move's score is the negated value of the
/// position after it, one half-move shallower with the window negated and swapped; a better
/// score replaces the best, raising alpha; the search stops once alpha reaches beta. Gives the
/// best score, its move and the table.
pub open spec fn search_moves(
    b: Board,
    game: Seq<u64>,
    path: Seq<u64>,
    mc: u32,
    depth: u32,
    ply: u32,
    beta: i32,
    ms: Seq<Move>,
    i: int,
    alpha: i32,
    best: i32,
    bm: Move,
    tt: Seq<Option<TTEntry>>,
) -> (i32, Move, Seq<Option<TTEntry>>)
    decreases depth, 0nat, ms.len() - i,
{
    if i >= ms.len() || i < 0 || depth == 0 {
        (best, bm, tt)
    } else {
        let m = ms[i];
        let child = board_after(b, m);
        let r = search_value(
            child,
            game,
            path.push(child.zobrian_hash),
            tt,
            mc,
            (depth - 1) as u32,
            (ply + 1) as u32,
            (-beta) as i32,
            (-alpha) as i32,
        );
        let score = (-r.0) as i32;
        let best1 = if score > best {
            score
        } else {
            best
        };
        let bm1 = if score > best {
            m
        } else {
            bm
        };
        let alpha1 = if best1 > alpha {
            best1
        } else {
            alpha
        };
        if alpha1 >= beta {
            (best1, bm1, r.1)
        } else {
            search_moves(b, game, path, mc, depth, ply, beta, ms, i + 1, alpha1, best1, bm1, r.1)
        }
    }
}

impl Position {
    /// Negamax search with alpha-beta pruning to `depth` half-moves, `ply` half-moves below the
    /// root, scored from the side to move. A repeated position is a draw; a stored entry that
    /// settles the window is used; a node without legal moves is mated or stalemated; a leaf
    /// is evaluated; otherwise the moves are searched best first and the result is stored.
    pub fn negamax(&mut self, depth: u32, ply: u32, alpha: i32, beta: i32) -> (r: i32)
        requires
            settled_at_once(*old(self), depth, alpha, beta) || search_defined(
                old(self).board,
                depth as nat + 1,
            ),
            (ply as int) + (depth as int) < CHECK_MATE + INFINITY,
            i32::MIN < alpha,
            i32::MIN < beta,
            tt_scores_bounded(old(self).transposition_table@),
        ensures
            -INFINITY < r < INFINITY,
            final(self).board == old(self).board,
            final(self).history@ == old(self).history@,
            final(self).position_history@ == old(self).position_history@,
            final(self).moves_counter == old(self).moves_counter,
            final(self).search_path_hashes@ == old(self).search_path_hashes@,
            final(self).transposition_table@.len() == old(self).transposition_table@.len(),
            tt_scores_bounded(final(self).transposition_table@),
            (r, final(self).transposition_table@) == search_value(
                old(self).board,
                old(self).position_history@,
                old(self).search_path_hashes@,
                old(self).transposition_table@,
                old(self).moves_counter,
                depth,
                ply,
                alpha,
                beta,
            ),
            no_table_hits(
                old(self).board,
                old(self).position_history@,
                old(self).search_path_hashes@,
                old(self).transposition_table@,
                old(self).moves_counter,
                depth,
                ply,
                alpha,
                beta,
            ) && -INFINITY <= alpha < beta <= INFINITY ==> window_holds(
                r as int,
                plain_value(
                    old(self).board,
                    old(self).position_history@,
                    old(self).search_path_hashes@,
                    old(self).moves_counter,
                    depth,
                    ply,
                ),
                alpha as int,
                beta as int,
            ),
        decreases depth,
    {
        let ghost b = self.board;
        let ghost h = self.history@;
        let ghost tt0 = self.transposition_table@;
        let original_alpha = alpha;
        let mut alpha = alpha;
        let hash = self.board.zobrian_hash;
        let in_game = count_occurrences(&self.position_history, hash);
        let on_path = count_occurrences(&self.search_path_hashes, hash);
        if in_game >= 2 || on_path >= 2 || (in_game == 1 && on_path >= 1) {
            return 0;
        }
        match self.tt_probe(hash) {
            Some(entry) => {
                proof {
                    assert(tt_lookup(tt0, hash) == Some(entry));
                    assert(tt0[tt_slot(hash)] == Some(entry));
                }
                if entry.depth >= depth {
                    match entry.bound {
                        Bound::Exact => {
                            return entry.score;
                        },
                        Bound::LowerBound => {
                            if entry.score >= beta {
                                return entry.score;
                            }
                        },
                        Bound::UpperBound => {
                            if entry.score <= alpha {
                                return entry.score;
                            }
                        },
                    }
                }
            },
            None => {},
        }
        proof {
            assert(!settled_at_once(*self, depth, alpha, beta));
            assert(search_defined(b, depth as nat + 1));
        }
        let mut legal_moves = self.board.all_legal_moves();
        if legal_moves.len() == 0 {
            let mated = self.board.is_in_check(self.board.side_to_move);
            return if mated {
                -CHECK_MATE + ply as i32
            } else {
                0
            };
        }
        if depth == 0 {
            return self.board.evaluate(self.moves_counter);
        }
        proof {
            assert forall|k: int| 0 <= k < legal_moves@.len() implies (#[trigger] legal_moves@[k]).origin < 64
                && legal_moves@[k].destination < 64 by {
                assert(legal_moves@.contains(legal_moves@[k]));
            }
        }
        let ghost pre = legal_moves@;
        self.order_moves(&mut legal_moves);
        proof {
            broadcast use vstd::seq_lib::to_multiset_contains;
            assert forall|m: Move| #[trigger] legal_moves@.contains(m) <==> legal(b, m) by {
                assert(legal_moves@.to_multiset().count(m) == pre.to_multiset().count(m));
                assert(pre.contains(m) <==> legal(b, m));
            }
        }
        let mut best: i32 = -INFINITY;
        let mut best_move: Move = legal_moves[0];
        let mut cut = false;
        let mut i: usize = 0;
        let ghost game = self.position_history@;
        let ghost path = self.search_path_hashes@;
        let ghost mc = self.moves_counter;
        let ghost ms = legal_moves@;
        let ghost run0 = search_moves(b, game, path, mc, depth, ply, beta, ms, 0, original_alpha, (-INFINITY) as i32, ms[0], tt0);
        assert(self.transposition_table@ == tt0);
        let ghost hyp = no_table_hits(b, game, path, tt0, mc, depth, ply, original_alpha, beta)
            && -INFINITY <= original_alpha < beta <= INFINITY;
        while i < legal_moves.len() && !cut
            invariant
                hyp == (no_table_hits(b, game, path, tt0, mc, depth, ply, original_alpha, beta)
                    && -INFINITY <= original_alpha < beta <= INFINITY),
                ms == order_by_score(b, mc, legal_list(b)),
                hyp && !cut ==> no_table_hits_moves(b, game, path, mc, depth, ply, beta, ms, i as int, alpha, best, best_move, self.transposition_table@),
                hyp && !cut ==> (plain_best(b, game, path, mc, depth, ply, ms, i as int) <= original_alpha
                    ==> plain_best(b, game, path, mc, depth, ply, ms, i as int) <= best <= original_alpha),
                hyp && !cut ==> (plain_best(b, game, path, mc, depth, ply, ms, i as int) > original_alpha
                    ==> best == plain_best(b, game, path, mc, depth, ply, ms, i as int) && best < beta),
                hyp && cut ==> beta <= best <= plain_best(b, game, path, mc, depth, ply, ms, i as int),
                ms == legal_moves@,
                game == self.position_history@,
                path == self.search_path_hashes@,
                mc == self.moves_counter,
                !cut ==> search_moves(b, game, path, mc, depth, ply, beta, ms, i as int, alpha, best, best_move, self.transposition_table@) == run0,
                cut ==> (best, best_move, self.transposition_table@) == run0,
                0 < legal_moves@.len(),
                i <= legal_moves@.len(),
                depth > 0,
                forall|m: Move| #[trigger] legal_moves@.contains(m) <==> legal(b, m),
                search_defined(b, depth as nat + 1),
                (ply as int) + (depth as int) < CHECK_MATE + INFINITY,
                i32::MIN < beta,
                original_alpha <= alpha,
                original_alpha > i32::MIN,
                i > 0 ==> -INFINITY < best < INFINITY && alpha >= best,
                i == 0 ==> best == -INFINITY && alpha == original_alpha && !cut,
                alpha == original_alpha || alpha == best,
                self.board == b,
                self.history@ == h,
                self.position_history@ == old(self).position_history@,
                self.moves_counter == old(self).moves_counter,
                self.search_path_hashes@ == old(self).search_path_hashes@,
                self.transposition_table@.len() == tt0.len(),
                tt_scores_bounded(self.transposition_table@),
                self.board.zobrian_hash == hash,
            decreases legal_moves@.len() - i,
        {
            let m = legal_moves[i];
            assert(legal_moves@.contains(m));
            assert(legal(b, m));
            self.make_move(m);
            let ghost after = self.board;
            proof {
                let chosen = board_after(b, m);
                assert(is_board_after(b, m, after));
                lemma_board_after_unique(b, m, after, chosen);
            }
            let child_hash = self.board.zobrian_hash;
            self.search_path_hashes.push(child_hash);
            let ghost tt_before = self.transposition_table@;
            let ghost cpath = self.search_path_hashes@;
            let child = self.negamax(depth - 1, ply + 1, -beta, -alpha);
            let score = -child;
            let _ = self.search_path_hashes.pop();
            self.undo_move();
            proof {
                law_make_then_undo(b, m, after, self.board);
            }
            let ghost prev_alpha = alpha;
            let ghost prev_best = best;
            let ghost prev_bm = best_move;
            if score > best {
                best = score;
                best_move = m;
            }
            if best > alpha {
                alpha = best;
            }
            if alpha >= beta {
                cut = true;
            }
            proof {
                assert(search_moves(b, game, path, mc, depth, ply, beta, ms, i as int, prev_alpha, prev_best, prev_bm, tt_before)
                    == if cut {
                        (best, best_move, self.transposition_table@)
                    } else {
                        search_moves(b, game, path, mc, depth, ply, beta, ms, i + 1, alpha, best, best_move, self.transposition_table@)
                    });
                assert(cpath == path.push(after.zobrian_hash));
                if hyp {
                    let t = -plain_value(after, game, cpath, mc, (depth - 1) as u32, (ply + 1) as u32);
                    assert(plain_best(b, game, path, mc, depth, ply, ms, i + 1) == if t > plain_best(
                        b,
                        game,
                        path,
                        mc,
                        depth,
                        ply,
                        ms,
                        i as int,
                    ) {
                        t
                    } else {
                        plain_best(b, game, path, mc, depth, ply, ms, i as int)
                    });
                    assert(no_table_hits(after, game, cpath, tt_before, mc, (depth - 1) as u32, (ply + 1) as u32, (-beta) as i32, (-prev_alpha) as i32));
                    assert(window_holds(child as int, -t, -beta, -prev_alpha));
                    if !cut {
                        assert(no_table_hits_moves(b, game, path, mc, depth, ply, beta, ms, i + 1, alpha, best, best_move, self.transposition_table@));
                    }
                }
            }
            i = i + 1;
        }
        let bound = if best >= beta {
            Bound::LowerBound
        } else if best <= original_alpha {
            Bound::UpperBound
        } else {
            Bound::Exact
        };
        self.tt_store(hash, TTEntry { key: hash, depth, bound, score: best, best_move });
        proof {
            if hyp {
                lemma_plain_best_grows(b, game, path, mc, depth, ply, ms, i as int, ms.len() as int);
                assert(plain_value(b, game, path, mc, depth, ply) == plain_best(b, game, path, mc, depth, ply, ms, ms.len() as int));
            }
        }
        best
    }
}

/// Taking more moves into the best can only raise it.
proof fn lemma_plain_best_grows(
    b: Board,
    game: Seq<u64>,
    path: Seq<u64>,
    mc: u32,
    depth: u32,
    ply: u32,
    ms: Seq<Move>,
    i: int,
    j: int,
)
    requires
        0 <= i <= j <= ms.len(),
    ensures
        plain_best(b, game, path, mc, depth, ply, ms, i) <= plain_best(b, game, path, mc, depth, ply, ms, j),
    decreases j - i,
{
    if i < j {
        lemma_plain_best_grows(b, game, path, mc, depth, ply, ms, i, j - 1);
    }
}

/// Depth of the searches below the root for a limit.
pub open spec fn child_depth(limit: SearchLimit) -> nat {
    match limit {
        SearchLimit::Depth(d) => if d == 0 {
            0
        } else {
            (d - 1) as nat
        },
    }
}

/// The root search over the moves of `ms` from the `i`-th on: each move is scored by the
/// negated value of the position after it with the window `(-INFINITY, -alpha)`, the search
/// path holding that position only; the first move of the highest score is kept; a mate in one
/// ends the search. Gives the move kept and the table.
pub open spec fn root_moves(
    b: Board,
    game: Seq<u64>,
    mc: u32,
    below: u32,
    ms: Seq<Move>,
    i: int,
    alpha: i32,
    best_score: i32,
    best: Option<Move>,
    tt: Seq<Option<TTEntry>>,
) -> (Option<Move>, Seq<Option<TTEntry>>)
    decreases ms.len() - i,
{
    if i >= ms.len() || i < 0 {
        (best, tt)
    } else {
        let m = ms[i];
        let child = board_after(b, m);
        let r = search_value(
            child,
            game,
            seq![child.zobrian_hash],
            tt,
            mc,
            below,
            1,
            (-INFINITY) as i32,
            (-alpha) as i32,
        );
        let score = (-r.0) as i32;
        let best_score1 = if score > best_score {
            score
        } else {
            best_score
        };
        let best1 = if score > best_score {
            Some(m)
        } else {
            best
        };
        let alpha1 = if best_score1 > alpha {
            best_score1
        } else {
            alpha
        };
        if best_score1 == CHECK_MATE - 1 {
            (best1, r.1)
        } else {
            root_moves(b, game, mc, below, ms, i + 1, alpha1, best_score1, best1, r.1)
        }
    }
}

/// The move the search chooses within `limit` and the table it leaves: none without legal
/// moves, else the root search over the legal moves by decreasing score.
pub open spec fn best_move_choice(
    b: Board,
    game: Seq<u64>,
    tt: Seq<Option<TTEntry>>,
    mc: u32,
    limit: SearchLimit,
) -> (Option<Move>, Seq<Option<TTEntry>>) {
    if legal_list(b).len() == 0 {
        (None, tt)
    } else {
        root_moves(
            b,
            game,
            mc,
            child_depth(limit) as u32,
            order_by_score(b, mc, legal_list(b)),
            0,
            (-INFINITY) as i32,
            (-INFINITY) as i32,
            None,
            tt,
        )
    }
}

/// The value for the side to move of playing `m` on `b`, searched `depth` half-moves further:
/// the negated plain negamax value of the position after `m`, one half-move below the root,
/// with that position alone on the search path.
pub open spec fn root_value(b: Board, game: Seq<u64>, mc: u32, m: Move, depth: u32) -> int {
    let child = board_after(b, m);
    -plain_value(child, game, seq![child.zobrian_hash], mc, depth, 1)
}

/// A search from `b` to `depth` starts from an empty table, and no position below the root
/// occurs twice in it, so no table entry is ever met.
pub open spec fn fresh_root(b: Board, game: Seq<u64>, tt: Seq<Option<TTEntry>>, mc: u32, depth: u32) -> bool {
    &&& forall|i: int| 0 <= i < tt.len() ==> #[trigger] tt[i] is None
    &&& below_distinct(b, game, Seq::empty(), mc, depth, order_by_score(b, mc, legal_list(b)), 0)
}

impl Position {
    /// The move the search prefers within `limit`, or `None` when the side to move has no
    /// legal move. Each legal move is searched, best first, with negamax one half-move
    /// shallower (not below zero); the first move with the highest score is chosen, and a
    /// mate in one ends the search.
    pub fn find_best_move(&mut self, limit: SearchLimit) -> (best: Option<Move>)
        requires
            search_defined(old(self).board, child_depth(limit) + 2),
            child_depth(limit) + 1 < CHECK_MATE + INFINITY,
            tt_scores_bounded(old(self).transposition_table@),
        ensures
            best is None <==> legal_list(old(self).board).len() == 0,
            best matches Some(m) ==> legal(old(self).board, m),
            final(self).board == old(self).board,
            final(self).history@ == old(self).history@,
            final(self).position_history@ == old(self).position_history@,
            final(self).moves_counter == old(self).moves_counter,
            final(self).search_path_hashes@.len() == 0,
            final(self).transposition_table@.len() == old(self).transposition_table@.len(),
            tt_scores_bounded(final(self).transposition_table@),
            (best, final(self).transposition_table@) == best_move_choice(
                old(self).board,
                old(self).position_history@,
                old(self).transposition_table@,
                old(self).moves_counter,
                limit,
            ),
            1 <= limit->0 && fresh_root(
                old(self).board,
                old(self).position_history@,
                old(self).transposition_table@,
                old(self).moves_counter,
                limit->0,
            ) && best is Some ==> forall|m2: Move| #[trigger]
                legal(old(self).board, m2) ==> root_value(
                    old(self).board,
                    old(self).position_history@,
                    old(self).moves_counter,
                    m2,
                    (limit->0 - 1) as u32,
                ) <= root_value(
                    old(self).board,
                    old(self).position_history@,
                    old(self).moves_counter,
                    best->0,
                    (limit->0 - 1) as u32,
                ) || root_value(
                    old(self).board,
                    old(self).position_history@,
                    old(self).moves_counter,
                    best->0,
                    (limit->0 - 1) as u32,
                ) == CHECK_MATE - 1,
            1 <= limit->0 && fresh_root(
                old(self).board,
                old(self).position_history@,
                old(self).transposition_table@,
                old(self).moves_counter,
                limit->0,
            ) && best is Some ==> exists|k: int|
                0 <= k < legal_list(old(self).board).len() && #[trigger] order_by_score(
                    old(self).board,
                    old(self).moves_counter,
                    legal_list(old(self).board),
                )[k] == best->0 && forall|j: int|
                    0 <= j < k ==> root_value(
                        old(self).board,
                        old(self).position_history@,
                        old(self).moves_counter,
                        order_by_score(old(self).board, old(self).moves_counter, legal_list(old(self).board))[j],
                        (limit->0 - 1) as u32,
                    ) < root_value(
                        old(self).board,
                        old(self).position_history@,
                        old(self).moves_counter,
                        best->0,
                        (limit->0 - 1) as u32,
                    ),
    {
        let depth = match limit {
            SearchLimit::Depth(d) => d,
        };
        let ghost b = self.board;
        let ghost h = self.history@;
        self.search_path_hashes.clear();
        let mut legal_moves = self.board.all_legal_moves();
        if legal_moves.len() == 0 {
            return None;
        }
        proof {
            assert forall|k: int| 0 <= k < legal_moves@.len() implies (#[trigger] legal_moves@[k]).origin < 64
                && legal_moves@[k].destination < 64 by {
                assert(legal_moves@.contains(legal_moves@[k]));
            }
        }
        let ghost pre = legal_moves@;
        self.order_moves(&mut legal_moves);
        proof {
            broadcast use vstd::seq_lib::to_multiset_contains;
            assert forall|m: Move| #[trigger] legal_moves@.contains(m) <==> legal(b, m) by {
                assert(legal_moves@.to_multiset().count(m) == pre.to_multiset().count(m));
                assert(pre.contains(m) <==> legal(b, m));
            }
        }
        let below = depth.saturating_sub(1);
        let mut alpha = -INFINITY;
        let beta = INFINITY;
        let mut best_move: Option<Move> = None;
        let mut best_score = -INFINITY;
        let mut done = false;
        let mut i: usize = 0;
        let ghost game = self.position_history@;
        let ghost mc = self.moves_counter;
        let ghost ms = legal_moves@;
        let ghost run0 = root_moves(b, game, mc, below, ms, 0, alpha, best_score, best_move, old(self).transposition_table@);
        let ghost fresh = 1 <= depth && fresh_root(b, game, old(self).transposition_table@, mc, depth);
        proof {
            if fresh {
                let tt0 = old(self).transposition_table@;
                assert(table_keys(tt0) =~= Set::<u64>::empty()) by {
                    assert forall|k: u64| !table_keys(tt0).contains(k) by {
                        if table_keys(tt0).contains(k) {
                            let j = choose|j: int| 0 <= j < tt0.len() && #[trigger] tt0[j] == Some(TTEntry { key: k, ..tt0[j]->0 });
                            assert(tt0[j] is None);
                        }
                    }
                }
            }
        }
        let ghost mut bk: int = 0;
        while i < legal_moves.len() && !done
            invariant
                alpha == best_score,
                fresh && i > 0 ==> 0 <= bk < i && ms[bk] == best_move->0,
                fresh && i > 0 ==> forall|j: int| 0 <= j < bk ==> #[trigger] root_value(b, game, mc, ms[j], below) < best_score,
                fresh ==> 1 <= depth && below == depth - 1,
                fresh ==> table_keys(self.transposition_table@).disjoint(
                    tree_below(b, game, Seq::empty(), mc, depth, ms, i as int),
                ),
                fresh ==> below_distinct(b, game, Seq::empty(), mc, depth, ms, i as int),
                fresh && i > 0 ==> root_value(b, game, mc, best_move->0, below) == best_score,
                fresh ==> forall|j: int| 0 <= j < i ==> #[trigger] root_value(b, game, mc, ms[j], below) <= best_score,
                done ==> best_score == CHECK_MATE - 1,
                ms == legal_moves@,
                ms == order_by_score(b, mc, legal_list(b)),
                game == self.position_history@,
                mc == self.moves_counter,
                !done ==> root_moves(b, game, mc, below, ms, i as int, alpha, best_score, best_move, self.transposition_table@) == run0,
                done ==> (best_move, self.transposition_table@) == run0,
                0 < legal_moves@.len(),
                i <= legal_moves@.len(),
                below == child_depth(limit),
                forall|m: Move| #[trigger] legal_moves@.contains(m) <==> legal(b, m),
                search_defined(b, below as nat + 2),
                below + 1 < CHECK_MATE + INFINITY,
                beta == INFINITY,
                -INFINITY <= alpha < INFINITY,
                -INFINITY <= best_score < INFINITY,
                i == 0 ==> best_move is None && best_score == -INFINITY,
                i > 0 ==> best_move is Some,
                done ==> i > 0,
                pre.len() > 0,
                pre == legal_list(b),
                best_move matches Some(m) ==> legal(b, m),
                self.board == b,
                self.history@ == h,
                self.position_history@ == old(self).position_history@,
                self.moves_counter == old(self).moves_counter,
                self.search_path_hashes@.len() == 0,
                self.transposition_table@.len() == old(self).transposition_table@.len(),
                tt_scores_bounded(self.transposition_table@),
            decreases legal_moves@.len() - i,
        {
            let m = legal_moves[i];
            assert(legal_moves@.contains(m));
            assert(legal(b, m));
            self.make_move(m);
            let ghost after = self.board;
            proof {
                let chosen = board_after(b, m);
                assert(is_board_after(b, m, after));
                lemma_board_after_unique(b, m, after, chosen);
            }
            let child_hash = self.board.zobrian_hash;
            self.search_path_hashes.push(child_hash);
            let ghost tt_before = self.transposition_table@;
            assert(self.search_path_hashes@ =~= seq![child_hash]);
            proof {
                if fresh {
                    let cb = board_after(b, m);
                    let cp = Seq::<u64>::empty().push(cb.zobrian_hash);
                    assert(cp =~= seq![child_hash]);
                    assert(ms[i as int] == m);
                    assert(tree_below(b, game, Seq::empty(), mc, depth, ms, i as int) == search_tree(
                        cb, game, cp, mc, (depth - 1) as u32) + tree_below(b, game, Seq::empty(), mc, depth, ms, i + 1));
                    lemma_tree_no_hits(cb, game, cp, tt_before, mc, below, 1, (-beta) as i32, (-alpha) as i32);
                }
            }
            let child = self.negamax(below, 1, -beta, -alpha);
            let score = -child;
            let _ = self.search_path_hashes.pop();
            self.undo_move();
            proof {
                law_make_then_undo(b, m, after, self.board);
            }
            let ghost prev_alpha = alpha;
            let ghost prev_score = best_score;
            let ghost prev_best = best_move;
            if score > best_score {
                best_score = score;
                best_move = Some(m);
                proof {
                    bk = i as int;
                }
            }
            if best_score > alpha {
                alpha = best_score;
            }
            if best_score == CHECK_MATE - 1 {
                done = true;
            }
            proof {
                if fresh {
                    let cb = board_after(b, m);
                    let v = plain_value(cb, game, seq![child_hash], mc, below, 1);
                    assert(window_holds(child as int, v, -INFINITY, -prev_alpha));
                    assert(root_value(b, game, mc, m, below) == -v);
                    assert(ms[i as int] == m);
                    assert forall|j: int| 0 <= j < i + 1 implies #[trigger] root_value(b, game, mc, ms[j], below)
                        <= best_score by {
                        if j < i {
                            assert(root_value(b, game, mc, ms[j], below) <= prev_score);
                        }
                    }
                    if i > 0 || bk == i {
                        assert forall|j: int| 0 <= j < bk implies #[trigger] root_value(b, game, mc, ms[j], below)
                            < best_score by {
                            if bk == i {
                                assert(root_value(b, game, mc, ms[j], below) <= prev_score);
                            }
                        }
                    }
                    let sub = search_tree(cb, game, seq![child_hash], mc, below);
                    assert(Seq::<u64>::empty().push(cb.zobrian_hash) =~= seq![child_hash]);
                    assert(tree_below(b, game, Seq::empty(), mc, depth, ms, i as int) == sub + tree_below(
                        b, game, Seq::empty(), mc, depth, ms, i + 1));
                    assert(table_keys(self.transposition_table@).disjoint(
                        tree_below(b, game, Seq::empty(), mc, depth, ms, i + 1)));
                }
                assert(root_moves(b, game, mc, below, ms, i as int, prev_alpha, prev_score, prev_best, tt_before)
                    == if done {
                        (best_move, self.transposition_table@)
                    } else {
                        root_moves(b, game, mc, below, ms, i + 1, alpha, best_score, best_move, self.transposition_table@)
                    });
            }
            i = i + 1;
        }
        proof {
            if fresh {
                assert forall|m2: Move| #[trigger] legal(b, m2) implies root_value(b, game, mc, m2, below)
                    <= root_value(b, game, mc, best_move->0, below) || root_value(b, game, mc, best_move->0, below)
                    == CHECK_MATE - 1 by {
                    if !done {
                        assert(legal_moves@.contains(m2));
                        let j = choose|j: int| 0 <= j < ms.len() && ms[j] == m2;
                        assert(root_value(b, game, mc, ms[j], below) <= best_score);
                    }
                }
                if best_move is Some {
                    assert(ms[bk] == best_move->0);
                }
            }
        }
        best_move
    }

    /// The move to play within `limit`, the opening book first: the book's reply for this
    /// position, whose book key is `key`, when it has a legal one (the position is then left
    /// as it was), else the search's choice as `find_best_move` makes it.
    pub fn find_best_move_with_book(&mut self, limit: SearchLimit, book: &[BookEntry], key: u64) -> (best: Option<Move>)
        requires
            search_defined(old(self).board, child_depth(limit) + 2),
            child_depth(limit) + 1 < CHECK_MATE + INFINITY,
            tt_scores_bounded(old(self).transposition_table@),
        ensures
            book_choice(old(self).board, old(self).moves_counter, book@, key) matches Some(m) ==> {
                &&& best == Some(m)
                &&& *final(self) == *old(self)
            },
            book_choice(old(self).board, old(self).moves_counter, book@, key) is None ==> {
                &&& final(self).board == old(self).board
                &&& final(self).history@ == old(self).history@
                &&& final(self).position_history@ == old(self).position_history@
                &&& final(self).moves_counter == old(self).moves_counter
                &&& final(self).search_path_hashes@.len() == 0
                &&& (best, final(self).transposition_table@) == best_move_choice(
                    old(self).board,
                    old(self).position_history@,
                    old(self).transposition_table@,
                    old(self).moves_counter,
                    limit,
                )
            },
            best is None <==> legal_list(old(self).board).len() == 0,
            best matches Some(m) ==> legal(old(self).board, m),
            tt_scores_bounded(final(self).transposition_table@),
    {
        match book_move(&self.board, self.moves_counter, book, key) {
            Some(m) => Some(m),
            None => self.find_best_move(limit),
        }
    }
}

} // verus!
