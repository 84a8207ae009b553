//! Squares and moves written as text: "e2", "e7e8q".
use vstd::prelude::*;
use vstd::string::StrSliceExecFns;
use crate::game::Position;
use crate::types::{
    Color, Move, piece_of, WHITE_ROOK, WHITE_KNIGHT, WHITE_BISHOP, WHITE_QUEEN, BLACK_ROOK, BLACK_KNIGHT,
    BLACK_BISHOP, BLACK_QUEEN,
};

verus! {

/// Code point of `c` after ASCII lowercasing (other characters are left alone).
pub open spec fn lower_code(c: char) -> int {
    let code = c as int;
    if 65 <= code <= 90 {
        code + 32
    } else {
        code
    }
}

/// `c` is white space in the Unicode sense (`char::is_whitespace`).
pub open spec fn is_white_space(c: char) -> bool {
    let x = c as int;
    (9 <= x <= 13) || x == 32 || x == 0x85 || x == 0xA0 || x == 0x1680 || (0x2000 <= x <= 0x200A)
        || x == 0x2028 || x == 0x2029 || x == 0x202F || x == 0x205F || x == 0x3000
}

/// `s` without its leading white space.
pub open spec fn trim_start(s: Seq<char>) -> Seq<char>
    decreases s.len(),
{
    if s.len() > 0 && is_white_space(s[0]) {
        trim_start(s.drop_first())
    } else {
        s
    }
}

/// `s` without its trailing white space.
pub open spec fn trim_end(s: Seq<char>) -> Seq<char>
    decreases s.len(),
{
    if s.len() > 0 && is_white_space(s.last()) {
        trim_end(s.drop_last())
    } else {
        s
    }
}

/// `s` without white space at either end (`str::trim`).
pub open spec fn trimmed(s: Seq<char>) -> Seq<char> {
    trim_end(trim_start(s))
}

/// The square named by a file letter (`a`-`h` in either case) and a rank digit (`1`-`8`).
pub open spec fn square_of_chars(file: char, rank: char) -> Option<u8> {
    let f = lower_code(file);
    let r = rank as int;
    if 97 <= f <= 104 && 49 <= r <= 56 {
        Some(((r - 49) * 8 + (f - 97)) as u8)
    } else {
        None
    }
}

/// The square named by a two-character text.
pub open spec fn square_of_text(s: Seq<char>) -> Option<u8> {
    if s.len() == 2 {
        square_of_chars(s[0], s[1])
    } else {
        None
    }
}

/// The promotion piece named by `c` (q, r, b or n in either case) for the side to move.
pub open spec fn promotion_of_char(c: char, side: Color) -> Option<u8> {
    let l = lower_code(c);
    let white = side == Color::White;
    if l == 113 {
        Some(if white { WHITE_QUEEN } else { BLACK_QUEEN })
    } else if l == 114 {
        Some(if white { WHITE_ROOK } else { BLACK_ROOK })
    } else if l == 98 {
        Some(if white { WHITE_BISHOP } else { BLACK_BISHOP })
    } else if l == 110 {
        Some(if white { WHITE_KNIGHT } else { BLACK_KNIGHT })
    } else {
        None
    }
}

/// Law: a promotion letter names, for either side, that side's piece of the letter's kind: q a
/// queen, r a rook, b a bishop, n a knight, in either case; no other character names a piece.
pub proof fn law_promotion_letter(c: char, side: Color)
    ensures
        (c == 'q' || c == 'Q') ==> promotion_of_char(c, side) == Some(piece_of(side, WHITE_QUEEN)),
        (c == 'r' || c == 'R') ==> promotion_of_char(c, side) == Some(piece_of(side, WHITE_ROOK)),
        (c == 'b' || c == 'B') ==> promotion_of_char(c, side) == Some(piece_of(side, WHITE_BISHOP)),
        (c == 'n' || c == 'N') ==> promotion_of_char(c, side) == Some(piece_of(side, WHITE_KNIGHT)),
        !(c == 'q' || c == 'Q' || c == 'r' || c == 'R' || c == 'b' || c == 'B' || c == 'n' || c
            == 'N') ==> promotion_of_char(c, side) is None,
{
}

/// The move named by a text in the form origin, destination and an optional promotion
/// letter ("e2e4", "e7e8q"), white space around it ignored.
pub open spec fn move_of_text(s: Seq<char>, side: Color) -> Option<Move> {
    let t = trimmed(s);
    if t.len() != 4 && t.len() != 5 {
        None
    } else {
        match (square_of_chars(t[0], t[1]), square_of_chars(t[2], t[3])) {
            (Some(o), Some(d)) => if t.len() == 5 {
                match promotion_of_char(t[4], side) {
                    Some(p) => Some(Move { origin: o, destination: d, promotion: Some(p) }),
                    None => None,
                }
            } else {
                Some(Move { origin: o, destination: d, promotion: None })
            },
            _ => None,
        }
    }
}

/// The decimal digits of `n` (for `n` below 100).
pub open spec fn decimal(n: int) -> Seq<char> {
    if n < 10 {
        seq![(48 + n) as char]
    } else {
        seq![(48 + n / 10) as char, (48 + n % 10) as char]
    }
}

/// The name of square `square`: its file letter and its rank number ("e2").
pub open spec fn square_name(square: u8) -> Seq<char> {
    seq![(97 + square % 8) as char] + decimal(square / 8 + 1)
}

/// `s` minus the first `i` characters, when they are white space and the next is not.
proof fn lemma_trim_start_at(s: Seq<char>, i: int)
    requires
        0 <= i <= s.len(),
        forall|k: int| 0 <= k < i ==> is_white_space(#[trigger] s[k]),
        i == s.len() || !is_white_space(s[i]),
    ensures
        trim_start(s) == s.subrange(i, s.len() as int),
    decreases i,
{
    if i > 0 {
        let t = s.drop_first();
        assert forall|k: int| 0 <= k < i - 1 implies is_white_space(#[trigger] t[k]) by {
            assert(t[k] == s[k + 1]);
        }
        if i - 1 < t.len() {
            assert(t[i - 1] == s[i]);
        }
        lemma_trim_start_at(t, i - 1);
        assert(t.subrange(i - 1, t.len() as int) =~= s.subrange(i, s.len() as int));
    } else {
        assert(s.subrange(0, s.len() as int) =~= s);
    }
}

/// `s` cut before its last `s.len() - j` characters, when they are white space and the one
/// before is not.
proof fn lemma_trim_end_at(s: Seq<char>, j: int)
    requires
        0 <= j <= s.len(),
        forall|k: int| j <= k < s.len() ==> is_white_space(#[trigger] s[k]),
        j == 0 || !is_white_space(s[j - 1]),
    ensures
        trim_end(s) == s.subrange(0, j),
    decreases s.len() - j,
{
    if j < s.len() {
        let t = s.drop_last();
        assert forall|k: int| j <= k < t.len() implies is_white_space(#[trigger] t[k]) by {
            assert(t[k] == s[k]);
        }
        if j > 0 {
            assert(t[j - 1] == s[j - 1]);
        }
        lemma_trim_end_at(t, j);
        assert(t.subrange(0, j) =~= s.subrange(0, j));
    } else {
        assert(s.subrange(0, j) =~= s);
    }
}

/// Whether `c` is white space.
fn white_space(c: char) -> (r: bool)
    ensures
        r == is_white_space(c),
{
    let x = c as u32;
    (9 <= x && x <= 13) || x == 32 || x == 0x85 || x == 0xA0 || x == 0x1680 || (0x2000 <= x && x
        <= 0x200A) || x == 0x2028 || x == 0x2029 || x == 0x202F || x == 0x205F || x == 0x3000
}

/// The code of `c` after ASCII lowercasing.
fn lower_code_of(c: char) -> (r: u32)
    ensures
        r == lower_code(c),
{
    let code = c as u32;
    if 65 <= code && code <= 90 {
        code + 32
    } else {
        code
    }
}

/// The file letter of file `f`.
pub(crate) fn file_letter(f: u8) -> (r: &'static str)
    requires
        f < 8,
    ensures
        r@ == seq![(97 + f) as char],
{
    if f == 0 {
        proof { reveal_strlit("a"); }
        "a"
    } else if f == 1 {
        proof { reveal_strlit("b"); }
        "b"
    } else if f == 2 {
        proof { reveal_strlit("c"); }
        "c"
    } else if f == 3 {
        proof { reveal_strlit("d"); }
        "d"
    } else if f == 4 {
        proof { reveal_strlit("e"); }
        "e"
    } else if f == 5 {
        proof { reveal_strlit("f"); }
        "f"
    } else if f == 6 {
        proof { reveal_strlit("g"); }
        "g"
    } else {
        proof { reveal_strlit("h"); }
        "h"
    }
}

/// The digit `d`.
pub(crate) fn digit(d: u8) -> (r: &'static str)
    requires
        d < 10,
    ensures
        r@ == seq![(48 + d) as char],
{
    if d == 0 {
        proof { reveal_strlit("0"); }
        "0"
    } else if d == 1 {
        proof { reveal_strlit("1"); }
        "1"
    } else if d == 2 {
        proof { reveal_strlit("2"); }
        "2"
    } else if d == 3 {
        proof { reveal_strlit("3"); }
        "3"
    } else if d == 4 {
        proof { reveal_strlit("4"); }
        "4"
    } else if d == 5 {
        proof { reveal_strlit("5"); }
        "5"
    } else if d == 6 {
        proof { reveal_strlit("6"); }
        "6"
    } else if d == 7 {
        proof { reveal_strlit("7"); }
        "7"
    } else if d == 8 {
        proof { reveal_strlit("8"); }
        "8"
    } else {
        proof { reveal_strlit("9"); }
        "9"
    }
}

impl Position {
    /// The square named by a file letter and a rank digit.
    pub fn square_from_chars(file: char, rank: char) -> (r: Option<u8>)
        ensures
            r == square_of_chars(file, rank),
    {
        let f = lower_code_of(file);
        let r = rank as u32;
        if 97 <= f && f <= 104 && 49 <= r && r <= 56 {
            Some(((r - 49) * 8 + (f - 97)) as u8)
        } else {
            None
        }
    }

    /// The promotion piece named by a letter for the side to move.
    fn promotion_piece_from_char(&self, c: char) -> (r: Option<u8>)
        ensures
            r == promotion_of_char(c, self.board.side_to_move),
    {
        let code = c as u32;
        let l = if 65 <= code && code <= 90 {
            code + 32
        } else {
            code
        };
        let white = match self.board.side_to_move {
            Color::White => true,
            Color::Black => false,
        };
        if l == 113 {
            Some(if white { WHITE_QUEEN } else { BLACK_QUEEN })
        } else if l == 114 {
            Some(if white { WHITE_ROOK } else { BLACK_ROOK })
        } else if l == 98 {
            Some(if white { WHITE_BISHOP } else { BLACK_BISHOP })
        } else if l == 110 {
            Some(if white { WHITE_KNIGHT } else { BLACK_KNIGHT })
        } else {
            None
        }
    }

    /// Parses a move written as origin, destination and optional promotion letter, ignoring white
    /// space around it. Legality is not checked.
    pub fn move_from_string(&self, input: &str) -> (r: Option<Move>)
        ensures
            r == move_of_text(input@, self.board.side_to_move),
    {
        let ghost s = input@;
        let n = input.unicode_len();
        let mut start: usize = 0;
        while start < n && white_space(input.get_char(start))
            invariant
                s == input@,
                n == s.len(),
                start <= n,
                forall|k: int| 0 <= k < start ==> is_white_space(#[trigger] s[k]),
            decreases n - start,
        {
            start = start + 1;
        }
        proof {
            lemma_trim_start_at(s, start as int);
        }
        let mut end: usize = n;
        while end > start && white_space(input.get_char(end - 1))
            invariant
                s == input@,
                n == s.len(),
                start <= end <= n,
                forall|k: int| 0 <= k < start ==> is_white_space(#[trigger] s[k]),
                forall|k: int| end <= k < n ==> is_white_space(#[trigger] s[k]),
            decreases end,
        {
            end = end - 1;
        }
        let ghost t0 = s.subrange(start as int, n as int);
        proof {
            assert forall|k: int| end - start <= k < t0.len() implies is_white_space(#[trigger] t0[k]) by {
                assert(t0[k] == s[k + start]);
            }
            if end > start {
                assert(t0[end - start - 1] == s[end - 1]);
            }
            lemma_trim_end_at(t0, end - start);
        }
        let ghost t = t0.subrange(0, end - start);
        assert(t == trimmed(s));
        let len = end - start;
        if len != 4 && len != 5 {
            return None;
        }
        assert(t[0] == s[start as int]);
        assert(t[1] == s[start + 1]);
        assert(t[2] == s[start + 2]);
        assert(t[3] == s[start + 3]);
        let origin = match Self::square_from_chars(input.get_char(start), input.get_char(start + 1)) {
            Some(o) => o,
            None => {
                return None;
            },
        };
        let destination = match Self::square_from_chars(input.get_char(start + 2), input.get_char(start + 3)) {
            Some(d) => d,
            None => {
                return None;
            },
        };
        if len == 5 {
            assert(t[4] == s[start + 4]);
            match self.promotion_piece_from_char(input.get_char(start + 4)) {
                Some(p) => Some(Move { origin, destination, promotion: Some(p) }),
                None => None,
            }
        } else {
            Some(Move { origin, destination, promotion: None })
        }
    }

    /// Parses a two-character square name ("e2").
    pub fn square_from_str(square: &str) -> (r: Option<u8>)
        ensures
            r == square_of_text(square@),
    {
        let n = square.unicode_len();
        if n != 2 {
            return None;
        }
        Self::square_from_chars(square.get_char(0), square.get_char(1))
    }

    /// The name of a square: file letter and rank number ("e2").
    pub fn square_to_str(square: u8) -> (r: String)
        ensures
            r@ == square_name(square),
    {
        let mut out = String::from_str(file_letter(square % 8));
        let rank = square / 8 + 1;
        if rank < 10 {
            out.append(digit(rank));
        } else {
            out.append(digit(rank / 10));
            out.append(digit(rank % 10));
        }
        assert(out@ =~= square_name(square));
        out
    }
}

/// Law: reading back the name of a board square gives the square.
pub proof fn law_square_name_round_trip(square: u8)
    requires
        square < 64,
    ensures
        square_of_text(square_name(square)) == Some(square),
{
    let n = square_name(square);
    assert(n.len() == 2);
    assert(n[0] == (97 + square % 8) as char);
    assert(n[1] == (48 + square / 8 + 1) as char);
}

} // verus!
