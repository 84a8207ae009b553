//! Opening book in the Polyglot format: 16-byte big-endian records of a position key, a move
//! and a weight.
use vstd::prelude::*;
use vstd::std_specs::convert::FromSpecImpl;
use crate::board::Board;
use crate::game::playable_board;
use crate::legality::{legal, legal_list};
use crate::types::{
    Color, Move, WHITE_KNIGHT, WHITE_BISHOP, WHITE_ROOK, WHITE_QUEEN, BLACK_KNIGHT, BLACK_BISHOP,
    BLACK_ROOK, BLACK_QUEEN,
};

verus! {

/// Size of one book record in bytes.
pub const RECORD_SIZE: usize = 16;

/// The book is consulted during the first this many half-moves only.
pub const MAX_BOOK_PLIES: u32 = 20;

/// `std::io::Error`, carried by the error of a book that could not be read.
#[verifier::external_type_specification]
#[verifier::external_body]
pub struct ExIoError(std::io::Error);

/// One book record as stored: `promotion` is the book's own code (0 none, 1 knight,
/// 2 bishop, 3 rook, 4 queen), resolved to a piece of the side to move only when used.
#[derive(Copy, Clone, Debug, PartialEq, Eq, Structural)]
pub struct BookEntry {
    pub key: u64,
    pub origin: u8,
    pub destination: u8,
    pub promotion: u8,
    pub weight: u16,
}

#[derive(Debug)]
pub enum OpeningBookError {
    /// The book file could not be read.
    Io(std::io::Error),
    /// The length in bytes is not a multiple of the record size.
    MalformedLength(usize),
}

impl From<std::io::Error> for OpeningBookError {
    fn from(err: std::io::Error) -> (r: OpeningBookError) {
        OpeningBookError::Io(err)
    }
}

impl FromSpecImpl<std::io::Error> for OpeningBookError {
    open spec fn obeys_from_spec() -> bool {
        true
    }

    open spec fn from_spec(v: std::io::Error) -> OpeningBookError {
        OpeningBookError::Io(v)
    }
}

/// Big-endian value of a byte sequence.
pub open spec fn be_value(s: Seq<u8>) -> nat
    decreases s.len(),
{
    if s.len() == 0 {
        0
    } else {
        be_value(s.drop_last()) * 256 + (s.last() as nat)
    }
}

/// `256` to the power `n`.
pub open spec fn pow256(n: nat) -> nat
    decreases n,
{
    if n == 0 {
        1
    } else {
        256 * pow256((n - 1) as nat)
    }
}

/// The entry stored in a 16-byte record: 8 bytes of key, 2 of move, 2 of weight and 2
/// unused. The move holds, from its low bits up, the destination file and rank, the origin
/// file and rank, and the promotion code, 3 bits each.
pub open spec fn entry_of_record(r: Seq<u8>) -> BookEntry {
    let mv = be_value(r.subrange(8, 10));
    let to_file = mv % 8;
    let to_rank = (mv / 8) % 8;
    let from_file = (mv / 64) % 8;
    let from_rank = (mv / 512) % 8;
    BookEntry {
        key: be_value(r.subrange(0, 8)) as u64,
        origin: (from_rank * 8 + from_file) as u8,
        destination: (to_rank * 8 + to_file) as u8,
        promotion: ((mv / 4096) % 8) as u8,
        weight: be_value(r.subrange(10, 12)) as u16,
    }
}

/// The entries of a book file whose length is a multiple of the record size.
pub open spec fn entries_of_bytes(b: Seq<u8>) -> Seq<BookEntry> {
    Seq::new(b.len() / 16, |i: int| entry_of_record(b.subrange(16 * i, 16 * i + 16)))
}

/// Where this engine puts the king of a castle that the book writes as the king taking its
/// own rook (e1h1, e1a1, e8h8, e8a8); any other destination is kept.
pub open spec fn castle_destination(origin: u8, destination: u8) -> u8 {
    if origin == 4 && destination == 7 {
        6
    } else if origin == 4 && destination == 0 {
        2
    } else if origin == 60 && destination == 63 {
        62
    } else if origin == 60 && destination == 56 {
        58
    } else {
        destination
    }
}

/// The move of a book entry for the side to move; `None` for an unknown promotion code.
pub open spec fn move_of_entry(e: BookEntry, side: Color) -> Option<Move> {
    let white = side == Color::White;
    let promotion = if e.promotion == 1 {
        Some(Some(if white { WHITE_KNIGHT } else { BLACK_KNIGHT }))
    } else if e.promotion == 2 {
        Some(Some(if white { WHITE_BISHOP } else { BLACK_BISHOP }))
    } else if e.promotion == 3 {
        Some(Some(if white { WHITE_ROOK } else { BLACK_ROOK }))
    } else if e.promotion == 4 {
        Some(Some(if white { WHITE_QUEEN } else { BLACK_QUEEN }))
    } else if e.promotion == 0 {
        Some(None::<u8>)
    } else {
        None
    };
    match promotion {
        Some(p) => Some(
            Move {
                origin: e.origin,
                destination: castle_destination(e.origin, e.destination),
                promotion: p,
            },
        ),
        None => None,
    }
}

/// Among the first `n` entries, the last one of greatest weight with key `hash`.
pub open spec fn best_entry_upto(book: Seq<BookEntry>, hash: u64, n: int) -> Option<BookEntry>
    decreases n,
{
    if n <= 0 {
        None
    } else {
        let prev = best_entry_upto(book, hash, n - 1);
        let e = book[n - 1];
        if e.key == hash {
            match prev {
                Some(p) => if e.weight >= p.weight {
                    Some(e)
                } else {
                    prev
                },
                None => Some(e),
            }
        } else {
            prev
        }
    }
}

/// The book's move for a position with key `hash`: the heaviest entry's move (the last of
/// the heaviest), when the game is still in the opening and the move is legal on `b`.
pub open spec fn book_choice(b: Board, moves_counter: u32, book: Seq<BookEntry>, hash: u64) -> Option<Move> {
    if moves_counter >= MAX_BOOK_PLIES {
        None
    } else {
        match best_entry_upto(book, hash, book.len() as int) {
            Some(e) => match move_of_entry(e, b.side_to_move) {
                Some(m) => if legal(b, m) {
                    Some(m)
                } else {
                    None
                },
                None => None,
            },
            None => None,
        }
    }
}

proof fn lemma_be_value_bound(s: Seq<u8>)
    ensures
        be_value(s) < pow256(s.len()),
    decreases s.len(),
{
    if s.len() > 0 {
        lemma_be_value_bound(s.drop_last());
    }
}

/// Reads `len` bytes from `start` as a big-endian number.
fn read_be(bytes: &[u8], start: usize, len: usize) -> (r: u64)
    requires
        len <= 8,
        start + len <= bytes@.len(),
    ensures
        r == be_value(bytes@.subrange(start as int, start + len)),
{
    proof {
        reveal_with_fuel(pow256, 9);
    }
    let n = bytes.len();
    let mut value: u64 = 0;
    let mut k: usize = 0;
    while k < len
        invariant
            k <= len <= 8,
            start + len <= bytes@.len(),
            n == bytes@.len(),
            value == be_value(bytes@.subrange(start as int, start + k)),
            pow256(8) == 0x1_0000_0000_0000_0000,
        decreases len - k,
    {
        let ghost prefix = bytes@.subrange(start as int, start + k);
        proof {
            lemma_be_value_bound(prefix);
            lemma_pow256_monotone(k as nat, 7);
            assert(bytes@.subrange(start as int, start + k + 1).drop_last() =~= prefix);
        }
        value = value * 256 + bytes[start + k] as u64;
        k = k + 1;
    }
    value
}

proof fn lemma_pow256_monotone(a: nat, b: nat)
    requires
        a <= b,
    ensures
        pow256(a) <= pow256(b),
    decreases b,
{
    if a < b {
        lemma_pow256_monotone(a, (b - 1) as nat);
    }
}

/// The entry of the record that starts at `start`.
fn parse_record(bytes: &[u8], start: usize) -> (e: BookEntry)
    requires
        start + 16 <= bytes@.len(),
    ensures
        e == entry_of_record(bytes@.subrange(start as int, start + 16)),
{
    let ghost r = bytes@.subrange(start as int, start + 16);
    let n = bytes.len();
    let key = read_be(bytes, start, 8);
    let mv = read_be(bytes, start + 8, 2);
    let weight = read_be(bytes, start + 10, 2);
    proof {
        assert(r.subrange(0, 8) =~= bytes@.subrange(start as int, start + 8));
        assert(r.subrange(8, 10) =~= bytes@.subrange(start + 8, start + 10));
        assert(r.subrange(10, 12) =~= bytes@.subrange(start + 10, start + 12));
        lemma_be_value_bound(r.subrange(8, 10));
        lemma_be_value_bound(r.subrange(10, 12));
        reveal_with_fuel(pow256, 3);
    }
    let to_file = mv % 8;
    let to_rank = (mv / 8) % 8;
    let from_file = (mv / 64) % 8;
    let from_rank = (mv / 512) % 8;
    let promotion = ((mv / 4096) % 8) as u8;
    BookEntry {
        key,
        origin: (from_rank * 8 + from_file) as u8,
        destination: (to_rank * 8 + to_file) as u8,
        promotion,
        weight: weight as u16,
    }
}

/// The entries of a Polyglot book file; refused when its length is not a multiple of the
/// record size.
pub fn parse_book(bytes: &[u8]) -> (r: Result<Vec<BookEntry>, OpeningBookError>)
    ensures
        bytes@.len() % 16 != 0 <==> r is Err,
        r matches Err(e) ==> e matches OpeningBookError::MalformedLength(n) && n == bytes@.len(),
        r matches Ok(v) ==> v@ == entries_of_bytes(bytes@),
{
    if bytes.len() % RECORD_SIZE != 0 {
        return Err(OpeningBookError::MalformedLength(bytes.len()));
    }
    let n = bytes.len();
    let count = n / RECORD_SIZE;
    let mut entries: Vec<BookEntry> = Vec::new();
    let mut i: usize = 0;
    while i < count
        invariant
            count == bytes@.len() / 16,
            n == bytes@.len(),
            bytes@.len() % 16 == 0,
            i <= count,
            entries@ == entries_of_bytes(bytes@).take(i as int),
        decreases count - i,
    {
        assert(i * 16 + 16 <= bytes@.len()) by (nonlinear_arith)
            requires
                i < count,
                count == bytes@.len() / 16,
        ;
        let e = parse_record(bytes, i * RECORD_SIZE);
        entries.push(e);
        i = i + 1;
        assert(entries@ =~= entries_of_bytes(bytes@).take(i as int));
    }
    assert(entries@ =~= entries_of_bytes(bytes@));
    Ok(entries)
}

/// Destination of a move after turning the book's king-takes-own-rook castles into this
/// engine's king moves.
pub fn remap_castling_destination(origin: u8, destination: u8) -> (r: u8)
    ensures
        r == castle_destination(origin, destination),
{
    if origin == 4 && destination == 7 {
        6
    } else if origin == 4 && destination == 0 {
        2
    } else if origin == 60 && destination == 63 {
        62
    } else if origin == 60 && destination == 56 {
        58
    } else {
        destination
    }
}

/// The move of a book entry for the side to move; `None` for an unknown promotion code.
pub fn to_move(entry: &BookEntry, side_to_move: Color) -> (r: Option<Move>)
    ensures
        r == move_of_entry(*entry, side_to_move),
{
    let white = match side_to_move {
        Color::White => true,
        Color::Black => false,
    };
    let promotion = if entry.promotion == 0 {
        None
    } else if entry.promotion == 1 {
        Some(if white { WHITE_KNIGHT } else { BLACK_KNIGHT })
    } else if entry.promotion == 2 {
        Some(if white { WHITE_BISHOP } else { BLACK_BISHOP })
    } else if entry.promotion == 3 {
        Some(if white { WHITE_ROOK } else { BLACK_ROOK })
    } else if entry.promotion == 4 {
        Some(if white { WHITE_QUEEN } else { BLACK_QUEEN })
    } else {
        return None;
    };
    let destination = remap_castling_destination(entry.origin, entry.destination);
    Some(Move { origin: entry.origin, destination, promotion })
}

/// The book's reply for the position `board` whose book key is `hash`: the move of the
/// heaviest entry with that key (the last of equally heavy ones), when fewer than
/// `MAX_BOOK_PLIES` half-moves were played and the move is legal on `board`.
pub fn book_move(board: &Board, moves_counter: u32, book: &[BookEntry], hash: u64) -> (r: Option<Move>)
    requires
        playable_board(*board),
    ensures
        r == book_choice(*board, moves_counter, book@, hash),
        r matches Some(m) ==> legal_list(*board).contains(m),
{
    if moves_counter >= MAX_BOOK_PLIES {
        return None;
    }
    let mut best: Option<BookEntry> = None;
    let mut i: usize = 0;
    while i < book.len()
        invariant
            i <= book@.len(),
            best == best_entry_upto(book@, hash, i as int),
        decreases book@.len() - i,
    {
        let e = book[i];
        if e.key == hash {
            best = match best {
                Some(p) => if e.weight >= p.weight {
                    Some(e)
                } else {
                    Some(p)
                },
                None => Some(e),
            };
        }
        i = i + 1;
    }
    let best_entry = match best {
        Some(e) => e,
        None => {
            return None;
        },
    };
    let mv = match to_move(&best_entry, board.side_to_move) {
        Some(m) => m,
        None => {
            return None;
        },
    };
    let legal_moves = board.all_legal_moves();
    let mut k: usize = 0;
    while k < legal_moves.len()
        invariant
            k <= legal_moves@.len(),
            legal_moves@ == legal_list(*board),
            forall|j: int| 0 <= j < k ==> legal_moves@[j] != mv,
            forall|m: Move| #[trigger] legal_moves@.contains(m) <==> legal(*board, m),
            book_choice(*board, moves_counter, book@, hash) == (if legal(*board, mv) {
                Some(mv)
            } else {
                None
            }),
        decreases legal_moves@.len() - k,
    {
        if legal_moves[k] == mv {
            assert(legal_moves@[k as int] == mv);
            assert(legal_moves@.contains(mv));
            return Some(mv);
        }
        k = k + 1;
    }
    assert(!legal_moves@.contains(mv));
    None
}

/// Where the heaviest of the first `n` entries with key `hash` stands: the last of the heaviest,
/// or none when no entry has that key.
proof fn lemma_best_entry(book: Seq<BookEntry>, hash: u64, n: int) -> (i: int)
    requires
        0 <= n <= book.len(),
    ensures
        best_entry_upto(book, hash, n) is None <==> forall|j: int| 0 <= j < n ==> book[j].key != hash,
        best_entry_upto(book, hash, n) is Some ==> {
            &&& 0 <= i < n
            &&& best_entry_upto(book, hash, n) == Some(book[i])
            &&& book[i].key == hash
            &&& forall|j: int| 0 <= j < n && book[j].key == hash ==> book[j].weight <= book[i].weight
            &&& forall|j: int| i < j < n && book[j].key == hash ==> book[j].weight < book[i].weight
        },
    decreases n,
{
    if n <= 0 {
        -1
    } else {
        let k = lemma_best_entry(book, hash, n - 1);
        let e = book[n - 1];
        if e.key == hash {
            match best_entry_upto(book, hash, n - 1) {
                Some(p) => if e.weight >= p.weight {
                    n - 1
                } else {
                    k
                },
                None => n - 1,
            }
        } else {
            k
        }
    }
}

/// Law: the book's reply, when it gives one, is the move of an entry with the position's key
/// whose weight is at least that of every entry with that key (the last of the heaviest), legal
/// on the board and given within the first `MAX_BOOK_PLIES` half-moves; a book with no entry
/// for the key gives no reply.
pub proof fn law_book_reply_heaviest(b: Board, moves_counter: u32, book: Seq<BookEntry>, hash: u64)
    ensures
        book_choice(b, moves_counter, book, hash) matches Some(m) ==> {
            &&& moves_counter < MAX_BOOK_PLIES
            &&& legal(b, m)
            &&& exists|i: int|
                0 <= i < book.len() && book[i].key == hash && move_of_entry(#[trigger] book[i], b.side_to_move)
                    == Some(m) && (forall|j: int| 0 <= j < book.len() && book[j].key == hash
                    ==> book[j].weight <= book[i].weight) && (forall|j: int| i < j < book.len()
                    && book[j].key == hash ==> book[j].weight < book[i].weight)
        },
        (forall|j: int| 0 <= j < book.len() ==> book[j].key != hash) ==> book_choice(
            b,
            moves_counter,
            book,
            hash,
        ) is None,
{
    let i = lemma_best_entry(book, hash, book.len() as int);
    if book_choice(b, moves_counter, book, hash) is Some {
        assert(move_of_entry(book[i], b.side_to_move) == book_choice(b, moves_counter, book, hash));
    }
}

/// Law: the four castles the book writes as the king taking its own rook become king moves
/// of two squares, and every other destination is kept.
pub proof fn law_castle_remap(origin: u8, destination: u8)
    ensures
        castle_destination(4, 7) == 6,
        castle_destination(4, 0) == 2,
        castle_destination(60, 63) == 62,
        castle_destination(60, 56) == 58,
        !((origin == 4 && (destination == 7 || destination == 0)) || (origin == 60 && (destination
            == 63 || destination == 56))) ==> castle_destination(origin, destination) == destination,
{
}

} // verus!
