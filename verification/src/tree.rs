//! The positions a search visits, and why a fresh transposition table is never consulted by a
//! search in which no position occurs twice.
use vstd::prelude::*;
use crate::board::Board;
use crate::game::{tt_lookup, tt_after_store, tt_slot};
use crate::legality::legal_list;
use crate::search::{
    search_value, search_moves, board_after, order_by_score, occurrences, no_table_hits,
    no_table_hits_moves, INFINITY,
};
use crate::types::Move;
use crate::zobrist::TTEntry;

verus! {

/// The keys of the entries a table holds.
pub open spec fn table_keys(tt: Seq<Option<TTEntry>>) -> Set<u64> {
    Set::new(|k: u64| exists|i: int| 0 <= i < tt.len() && #[trigger] tt[i] == Some(TTEntry { key: k, ..tt[i]->0 }))
}

/// The hashes of the positions a search of `b` to `depth` can visit: `b` itself and, unless
/// it is repeated, has no legal move or is a leaf, the positions below each of its moves.
pub open spec fn search_tree(b: Board, game: Seq<u64>, path: Seq<u64>, mc: u32, depth: u32) -> Set<u64>
    decreases depth, 1nat, 0int,
{
    let h = b.zobrian_hash;
    if occurrences(game, h) + occurrences(path, h) >= 2 || legal_list(b).len() == 0 || depth == 0 {
        set![h]
    } else {
        set![h] + tree_below(b, game, path, mc, depth, order_by_score(b, mc, legal_list(b)), 0)
    }
}

/// The hashes of the positions a search can visit below the moves of `ms` from the `i`-th on.
pub open spec fn tree_below(
    b: Board,
    game: Seq<u64>,
    path: Seq<u64>,
    mc: u32,
    depth: u32,
    ms: Seq<Move>,
    i: int,
) -> Set<u64>
    decreases depth, 0nat, ms.len() - i,
{
    if i >= ms.len() || i < 0 || depth == 0 {
        Set::empty()
    } else {
        let child = board_after(b, ms[i]);
        search_tree(child, game, path.push(child.zobrian_hash), mc, (depth - 1) as u32) + tree_below(
            b,
            game,
            path,
            mc,
            depth,
            ms,
            i + 1,
        )
    }
}

/// No position of the search of `b` occurs twice: `b` is not below itself, and the positions
/// below different moves are different.
pub open spec fn tree_distinct(b: Board, game: Seq<u64>, path: Seq<u64>, mc: u32, depth: u32) -> bool
    decreases depth, 1nat, 0int,
{
    let h = b.zobrian_hash;
    if occurrences(game, h) + occurrences(path, h) >= 2 || legal_list(b).len() == 0 || depth == 0 {
        true
    } else {
        let ms = order_by_score(b, mc, legal_list(b));
        &&& !tree_below(b, game, path, mc, depth, ms, 0).contains(h)
        &&& below_distinct(b, game, path, mc, depth, ms, 0)
    }
}

/// The positions below each move of `ms` from the `i`-th on occur once, and those below
/// different moves differ.
pub open spec fn below_distinct(
    b: Board,
    game: Seq<u64>,
    path: Seq<u64>,
    mc: u32,
    depth: u32,
    ms: Seq<Move>,
    i: int,
) -> bool
    decreases depth, 0nat, ms.len() - i,
{
    if i >= ms.len() || i < 0 || depth == 0 {
        true
    } else {
        let child = board_after(b, ms[i]);
        let cp = path.push(child.zobrian_hash);
        &&& tree_distinct(child, game, cp, mc, (depth - 1) as u32)
        &&& search_tree(child, game, cp, mc, (depth - 1) as u32).disjoint(
            tree_below(b, game, path, mc, depth, ms, i + 1),
        )
        &&& below_distinct(b, game, path, mc, depth, ms, i + 1)
    }
}

/// Storing an entry for `hash` adds at most that key.
proof fn lemma_store_keys(tt: Seq<Option<TTEntry>>, hash: u64, entry: TTEntry)
    requires
        entry.key == hash,
    ensures
        table_keys(tt_after_store(tt, hash, entry)) <= table_keys(tt).insert(hash),
{
    let out = tt_after_store(tt, hash, entry);
    assert forall|k: u64| table_keys(out).contains(k) implies table_keys(tt).insert(hash).contains(k) by {
        let i = choose|i: int| 0 <= i < out.len() && #[trigger] out[i] == Some(TTEntry { key: k, ..out[i]->0 });
        if k != hash {
            assert(out[i] == tt[i]);
            assert(table_keys(tt).contains(k));
        }
    }
}

/// A table entry that settles a position carries that position's hash as its key.
proof fn lemma_lookup_key(tt: Seq<Option<TTEntry>>, h: u64)
    requires
        tt_lookup(tt, h) is Some,
    ensures
        table_keys(tt).contains(h),
{
    let i = tt_slot(h);
    let e = tt[i]->0;
    assert(tt[i] == Some(TTEntry { key: h, ..tt[i]->0 }));
}

/// A search whose table holds no key of its tree, in a tree where no position occurs twice,
/// meets no table entry, and leaves only keys of the table and of the tree.
pub(crate) proof fn lemma_tree_no_hits(
    b: Board,
    game: Seq<u64>,
    path: Seq<u64>,
    tt: Seq<Option<TTEntry>>,
    mc: u32,
    depth: u32,
    ply: u32,
    alpha: i32,
    beta: i32,
)
    requires
        tree_distinct(b, game, path, mc, depth),
        table_keys(tt).disjoint(search_tree(b, game, path, mc, depth)),
    ensures
        no_table_hits(b, game, path, tt, mc, depth, ply, alpha, beta),
        table_keys(search_value(b, game, path, tt, mc, depth, ply, alpha, beta).1) <= table_keys(tt)
            + search_tree(b, game, path, mc, depth),
    decreases depth, 1nat, 0int,
{
    let h = b.zobrian_hash;
    assert(search_tree(b, game, path, mc, depth).contains(h));
    if tt_lookup(tt, h) is Some {
        lemma_lookup_key(tt, h);
    }
    if occurrences(game, h) + occurrences(path, h) >= 2 || legal_list(b).len() == 0 || depth == 0 {
    } else {
        let ms = order_by_score(b, mc, legal_list(b));
        let below = tree_below(b, game, path, mc, depth, ms, 0);
        assert(below <= search_tree(b, game, path, mc, depth));
        lemma_tree_no_hits_moves(b, game, path, mc, depth, ply, beta, ms, 0, alpha, (-INFINITY) as i32, ms[0], tt);
        let run = search_moves(b, game, path, mc, depth, ply, beta, ms, 0, alpha, (-INFINITY) as i32, ms[0], tt);
        lemma_store_keys(
            run.2,
            h,
            TTEntry {
                key: h,
                depth,
                bound: crate::search::bound_of(run.0 as int, alpha as int, beta as int),
                score: run.0,
                best_move: run.1,
            },
        );
    }
}

proof fn lemma_tree_no_hits_moves(
    b: Board,
    game: Seq<u64>,
    path: Seq<u64>,
    mc: u32,
    depth: u32,
    ply: u32,
    beta: i32,
    ms: Seq<Move>,
    i: int,
    alpha: i32,
    best: i32,
    bm: Move,
    tt: Seq<Option<TTEntry>>,
)
    requires
        below_distinct(b, game, path, mc, depth, ms, i),
        table_keys(tt).disjoint(tree_below(b, game, path, mc, depth, ms, i)),
    ensures
        no_table_hits_moves(b, game, path, mc, depth, ply, beta, ms, i, alpha, best, bm, tt),
        table_keys(search_moves(b, game, path, mc, depth, ply, beta, ms, i, alpha, best, bm, tt).2)
            <= table_keys(tt) + tree_below(b, game, path, mc, depth, ms, i),
    decreases depth, 0nat, ms.len() - i,
{
    if i >= ms.len() || i < 0 || depth == 0 {
    } else {
        let m = ms[i];
        let child = board_after(b, m);
        let cp = path.push(child.zobrian_hash);
        let sub = search_tree(child, game, cp, mc, (depth - 1) as u32);
        let rest = tree_below(b, game, path, mc, depth, ms, i + 1);
        assert(tree_below(b, game, path, mc, depth, ms, i) == sub + rest);
        lemma_tree_no_hits(child, game, cp, tt, mc, (depth - 1) as u32, (ply + 1) as u32, (-beta) as i32, (-alpha) as i32);
        let r = search_value(child, game, cp, tt, mc, (depth - 1) as u32, (ply + 1) as u32, (-beta) as i32, (-alpha) as i32);
        let score = (-r.0) as i32;
        let best1 = if score > best { score } else { best };
        let bm1 = if score > best { m } else { bm };
        let alpha1 = if best1 > alpha { best1 } else { alpha };
        if alpha1 < beta {
            assert(table_keys(r.1).disjoint(rest));
            lemma_tree_no_hits_moves(b, game, path, mc, depth, ply, beta, ms, i + 1, alpha1, best1, bm1, r.1);
        }
    }
}

/// Law: a search that starts with an empty table, in a tree where no position occurs twice,
/// never meets a table entry; `negamax`'s result then stands to the plain negamax value as its
/// window says (`window_holds`).
pub proof fn law_fresh_table_never_hits(
    b: Board,
    game: Seq<u64>,
    path: Seq<u64>,
    tt: Seq<Option<TTEntry>>,
    mc: u32,
    depth: u32,
    ply: u32,
    alpha: i32,
    beta: i32,
)
    requires
        tree_distinct(b, game, path, mc, depth),
        forall|i: int| 0 <= i < tt.len() ==> #[trigger] tt[i] is None,
    ensures
        no_table_hits(b, game, path, tt, mc, depth, ply, alpha, beta),
{
    assert(table_keys(tt) =~= Set::empty());
    lemma_tree_no_hits(b, game, path, tt, mc, depth, ply, alpha, beta);
}

} // verus!
