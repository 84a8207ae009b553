//! Short algebraic notation of played moves, as shown to a player.
use vstd::prelude::*;
use crate::attacks::in_check_on;
use crate::game::{Position, GameStatus, status_of, playable_board};
use crate::text::{square_name, file_letter};
use crate::types::{
    EMPTY, WHITE_PAWN, WHITE_ROOK, WHITE_KNIGHT, WHITE_BISHOP, WHITE_QUEEN, WHITE_KING,
    BLACK_PAWN, BLACK_ROOK, BLACK_KNIGHT, BLACK_BISHOP, BLACK_QUEEN, BLACK_KING,
};

verus! {

/// Calls `String::push`. Claimed of it: the string afterwards holds the characters it held
/// before, followed by `c`.
#[verifier::external_body]
pub(crate) fn push_char(s: &mut String, c: char)
    ensures
        final(s)@ == old(s)@.push(c),
{
    s.push(c);
}

/// Letter of a piece in notation: none for pawns and empty squares.
pub open spec fn letter_of(piece: u8) -> Seq<char> {
    if piece == WHITE_KNIGHT || piece == BLACK_KNIGHT {
        seq!['N']
    } else if piece == WHITE_BISHOP || piece == BLACK_BISHOP {
        seq!['B']
    } else if piece == WHITE_ROOK || piece == BLACK_ROOK {
        seq!['R']
    } else if piece == WHITE_QUEEN || piece == BLACK_QUEEN {
        seq!['Q']
    } else if piece == WHITE_KING || piece == BLACK_KING {
        seq!['K']
    } else {
        Seq::empty()
    }
}

/// The upper-case form of an ASCII letter; other characters stay as they are.
pub open spec fn ascii_upper(c: char) -> char {
    if 'a' <= c <= 'z' {
        ((c as int) - 32) as char
    } else {
        c
    }
}

/// Upper-cases an ASCII letter.
pub fn to_ascii_upper(c: char) -> (r: char)
    ensures
        r == ascii_upper(c),
{
    if 'a' <= c && c <= 'z' {
        ((c as u8) - 32) as char
    } else {
        c
    }
}

/// The letter of a promotion piece, if the piece has one.
pub open spec fn promotion_letter_of(promotion: Option<u8>) -> Option<char> {
    match promotion {
        Some(p) => if letter_of(p).len() > 0 {
            Some(letter_of(p)[0])
        } else {
            None
        },
        None => None,
    }
}

/// The letter of a promotion piece, if the piece has one.
pub fn promotion_letter(promotion: Option<u8>) -> (r: Option<char>)
    ensures
        r == promotion_letter_of(promotion),
{
    match promotion {
        Some(p) => if p == WHITE_KNIGHT || p == BLACK_KNIGHT {
            Some('N')
        } else if p == WHITE_BISHOP || p == BLACK_BISHOP {
            Some('B')
        } else if p == WHITE_ROOK || p == BLACK_ROOK {
            Some('R')
        } else if p == WHITE_QUEEN || p == BLACK_QUEEN {
            Some('Q')
        } else if p == WHITE_KING || p == BLACK_KING {
            Some('K')
        } else {
            None
        },
        None => None,
    }
}

/// The capture mark of a move: the origin file and `x` for a pawn, `x` for another piece,
/// nothing without a capture. A pawn changing file captures.
pub open spec fn capture_mark(squares_before: Seq<u8>, origin: u8, destination: u8) -> Seq<char> {
    let moved = squares_before[origin as int];
    let is_pawn = moved == WHITE_PAWN || moved == BLACK_PAWN;
    let capture = squares_before[destination as int] != EMPTY || (is_pawn && origin % 8
        != destination % 8);
    if is_pawn && capture {
        seq![(97 + origin % 8) as char, 'x']
    } else if capture {
        seq!['x']
    } else {
        Seq::empty()
    }
}

/// `=` and the promotion letter, if any.
pub open spec fn promotion_mark(promotion_letter: Option<char>) -> Seq<char> {
    match promotion_letter {
        Some(c) => seq!['=', c],
        None => Seq::empty(),
    }
}

/// `#` when the side to move is mated, `+` when it is in check, else nothing.
pub open spec fn check_mark(after: Position) -> Seq<char> {
    if in_check_on(after.board.squares@, after.board.side_to_move) {
        match status_of(after) {
            GameStatus::WhiteWon => seq!['#'],
            GameStatus::BlackWon => seq!['#'],
            _ => seq!['+'],
        }
    } else {
        Seq::empty()
    }
}

/// The notation of the move from `origin` to `destination` made on `squares_before`, with
/// `after` the position it led to: castles are O-O and O-O-O followed by the check mark;
/// otherwise the piece letter, the capture mark, the destination, the promotion mark and the
/// check mark. Pieces that
/// could reach the same square are not told apart.
pub open spec fn move_notation(
    squares_before: Seq<u8>,
    origin: u8,
    destination: u8,
    promotion_letter: Option<char>,
    after: Position,
) -> Seq<char> {
    let moved = squares_before[origin as int];
    let is_king = moved == WHITE_KING || moved == BLACK_KING;
    if is_king && (origin - destination == 2 || destination - origin == 2) {
        (if destination == 6 || destination == 62 {
            seq!['O', '-', 'O']
        } else {
            seq!['O', '-', 'O', '-', 'O']
        }) + check_mark(after)
    } else {
        letter_of(moved) + capture_mark(squares_before, origin, destination) + square_name(
            destination,
        ) + promotion_mark(promotion_letter) + check_mark(after)
    }
}

/// Law: a move that is not a castle and lands on an occupied square is written with the capture
/// mark `x` right before the destination's name, after the piece letter, or after the origin
/// file for a pawn (a pawn changing file captures, en passant too); a move to an empty square
/// that is not a pawn changing file has no capture mark.
pub proof fn law_capture_written(
    squares_before: Seq<u8>,
    origin: u8,
    destination: u8,
    promotion_letter: Option<char>,
    after: Position,
)
    requires
        origin < 64,
        destination < 64,
        !((squares_before[origin as int] == WHITE_KING || squares_before[origin as int] == BLACK_KING)
            && (origin - destination == 2 || destination - origin == 2)),
    ensures
        ({
            let moved = squares_before[origin as int];
            let is_pawn = moved == WHITE_PAWN || moved == BLACK_PAWN;
            let tail = square_name(destination) + promotion_mark(promotion_letter) + check_mark(after);
            &&& squares_before[destination as int] != EMPTY && !is_pawn ==> move_notation(
                squares_before,
                origin,
                destination,
                promotion_letter,
                after,
            ) == letter_of(moved) + seq!['x'] + tail
            &&& is_pawn && (squares_before[destination as int] != EMPTY || origin % 8 != destination
                % 8) ==> move_notation(
                squares_before,
                origin,
                destination,
                promotion_letter,
                after,
            ) == seq![(97 + origin % 8) as char, 'x'] + tail
            &&& squares_before[destination as int] == EMPTY && !is_pawn ==> move_notation(
                squares_before,
                origin,
                destination,
                promotion_letter,
                after,
            ) == letter_of(moved) + tail
            &&& squares_before[destination as int] == EMPTY && is_pawn && origin % 8 == destination % 8
                ==> move_notation(squares_before, origin, destination, promotion_letter, after) == tail
        }),
{
    let moved = squares_before[origin as int];
    let tail = square_name(destination) + promotion_mark(promotion_letter) + check_mark(after);
    let n = move_notation(squares_before, origin, destination, promotion_letter, after);
    let cm = capture_mark(squares_before, origin, destination);
    assert(n == letter_of(moved) + cm + square_name(destination) + promotion_mark(promotion_letter)
        + check_mark(after));
    assert(n =~= letter_of(moved) + cm + tail);
    if moved == WHITE_PAWN || moved == BLACK_PAWN {
        assert(letter_of(moved) =~= Seq::<char>::empty());
        if squares_before[destination as int] != EMPTY || origin % 8 != destination % 8 {
            assert(n =~= seq![(97 + origin % 8) as char, 'x'] + tail);
        } else {
            assert(cm =~= Seq::<char>::empty());
            assert(n =~= tail);
        }
    } else {
        if squares_before[destination as int] == EMPTY {
            assert(cm =~= Seq::<char>::empty());
            assert(n =~= letter_of(moved) + tail);
        }
    }
}

/// The notation letter of a piece; empty for a pawn or an empty square.
pub fn piece_letter(piece: u8) -> (r: &'static str)
    ensures
        r@ == letter_of(piece),
{
    if piece == WHITE_KNIGHT || piece == BLACK_KNIGHT {
        proof { reveal_strlit("N"); }
        "N"
    } else if piece == WHITE_BISHOP || piece == BLACK_BISHOP {
        proof { reveal_strlit("B"); }
        "B"
    } else if piece == WHITE_ROOK || piece == BLACK_ROOK {
        proof { reveal_strlit("R"); }
        "R"
    } else if piece == WHITE_QUEEN || piece == BLACK_QUEEN {
        proof { reveal_strlit("Q"); }
        "Q"
    } else if piece == WHITE_KING || piece == BLACK_KING {
        proof { reveal_strlit("K"); }
        "K"
    } else {
        proof { reveal_strlit(""); }
        ""
    }
}

/// Appends the capture mark of a move.
fn append_capture_mark(out: &mut String, squares_before: &[u8; 64], origin: u8, destination: u8)
    requires
        origin < 64,
        destination < 64,
    ensures
        final(out)@ == old(out)@ + capture_mark(squares_before@, origin, destination),
{
    let moved_piece = squares_before[origin as usize];
    let is_pawn = moved_piece == WHITE_PAWN || moved_piece == BLACK_PAWN;
    let origin_file = origin % 8;
    let destination_file = destination % 8;
    let is_capture = squares_before[destination as usize] != EMPTY || (is_pawn && origin_file
        != destination_file);
    let ghost start = out@;
    proof { reveal_strlit("x"); }
    if is_pawn && is_capture {
        out.append(file_letter(origin_file));
        out.append("x");
    } else if is_capture {
        out.append("x");
    }
    assert(out@ =~= start + capture_mark(squares_before@, origin, destination));
}

/// Appends the check mark of the position reached.
fn append_check_mark(out: &mut String, position_after: &Position)
    requires
        playable_board(position_after.board),
    ensures
        final(out)@ == old(out)@ + check_mark(*position_after),
{
    let ghost start = out@;
    let opponent = position_after.board.side_to_move;
    if position_after.board.is_in_check(opponent) {
        match position_after.game_status() {
            GameStatus::WhiteWon | GameStatus::BlackWon => {
                proof { reveal_strlit("#"); }
                out.append("#");
            },
            _ => {
                proof { reveal_strlit("+"); }
                out.append("+");
            },
        }
    }
    assert(out@ =~= start + check_mark(*position_after));
}

/// The notation of a played move (see `move_notation`).
pub fn describe_move(
    squares_before: [u8; 64],
    origin: u8,
    destination: u8,
    promotion_letter: Option<char>,
    position_after: &Position,
) -> (r: String)
    requires
        origin < 64,
        destination < 64,
        playable_board(position_after.board),
    ensures
        r@ == move_notation(
            squares_before@,
            origin,
            destination,
            promotion_letter,
            *position_after,
        ),
{
    let moved_piece = squares_before[origin as usize];
    let is_king = moved_piece == WHITE_KING || moved_piece == BLACK_KING;
    let jump = origin as i16 - destination as i16;
    if is_king && (jump == 2 || jump == -2) {
        let is_kingside = destination == 6 || destination == 62;
        let mut out = if is_kingside {
            proof { reveal_strlit("O-O"); }
            String::from_str("O-O")
        } else {
            proof { reveal_strlit("O-O-O"); }
            String::from_str("O-O-O")
        };
        append_check_mark(&mut out, position_after);
        return out;
    }
    let mut out = String::from_str(piece_letter(moved_piece));
    let ghost s1 = out@;
    append_capture_mark(&mut out, &squares_before, origin, destination);
    let ghost s2 = out@;
    let destination_name = Position::square_to_str(destination);
    out.append(destination_name.as_str());
    let ghost s3 = out@;
    match promotion_letter {
        Some(c) => {
            proof { reveal_strlit("="); }
            out.append("=");
            push_char(&mut out, c);
        },
        None => {},
    }
    assert(out@ =~= s3 + promotion_mark(promotion_letter));
    append_check_mark(&mut out, position_after);
    assert(out@ =~= letter_of(moved_piece) + capture_mark(squares_before@, origin, destination)
        + square_name(destination) + promotion_mark(promotion_letter) + check_mark(
        *position_after,
    ));
    out
}

} // verus!
