//! The board drawn as text from one player's side, as the terminal game shows it.
use vstd::prelude::*;
use crate::board::Board;
use crate::notation::push_char;
use crate::types::Color;

verus! {

/// Symbol of a piece code in the drawing: the chess figurines, `.` for an empty square.
pub open spec fn piece_symbol(piece: u8) -> char {
    if piece == 1 {
        '♙'
    } else if piece == 2 {
        '♖'
    } else if piece == 3 {
        '♘'
    } else if piece == 4 {
        '♗'
    } else if piece == 5 {
        '♕'
    } else if piece == 6 {
        '♔'
    } else if piece == 7 {
        '♟'
    } else if piece == 8 {
        '♜'
    } else if piece == 9 {
        '♞'
    } else if piece == 10 {
        '♝'
    } else if piece == 11 {
        '♛'
    } else if piece == 12 {
        '♚'
    } else {
        '.'
    }
}

/// The rank drawn on the `i`-th row from the top: the player's own side is at the bottom.
pub open spec fn rank_on_row(user: Color, i: int) -> int {
    match user {
        Color::White => 7 - i,
        Color::Black => i,
    }
}

/// The file drawn in the `j`-th column from the left: the a-file on White's left.
pub open spec fn file_on_column(user: Color, j: int) -> int {
    match user {
        Color::White => j,
        Color::Black => 7 - j,
    }
}

/// The frame line above and below the squares.
pub open spec fn border_line() -> Seq<char> {
    seq![' ', ' ', '+'] + Seq::new(31, |i: int| '-') + seq!['+', '\n']
}

/// The first `n` cells of the row of `rank`.
pub open spec fn cells(b: Board, user: Color, rank: int, n: nat) -> Seq<char>
    decreases n,
{
    if n == 0 {
        Seq::empty()
    } else {
        cells(b, user, rank, (n - 1) as nat) + seq![
            piece_symbol(b.squares@[8 * rank + file_on_column(user, n - 1)]),
            ' ',
            '|',
            ' ',
        ]
    }
}

/// The `i`-th row from the top: the rank's number, then each square's symbol.
pub open spec fn row_line(b: Board, user: Color, i: int) -> Seq<char> {
    let rank = rank_on_row(user, i);
    seq![(49 + rank) as char, ' ', '|', ' '] + cells(b, user, rank, 8) + seq!['\n']
}

/// The first `n` rows from the top.
pub open spec fn rows(b: Board, user: Color, n: nat) -> Seq<char>
    decreases n,
{
    if n == 0 {
        Seq::empty()
    } else {
        rows(b, user, (n - 1) as nat) + row_line(b, user, n - 1)
    }
}

/// The file letters under the columns, then an empty line.
pub open spec fn file_labels(user: Color) -> Seq<char> {
    Seq::new(
        33,
        |i: int|
            if i >= 4 && i % 4 == 0 {
                (97 + file_on_column(user, i / 4 - 1)) as char
            } else {
                ' '
            },
    ) + seq!['\n', '\n']
}

/// The last line: whose turn it is.
pub open spec fn turn_line(side: Color) -> Seq<char> {
    let name = match side {
        Color::White => seq!['W', 'h', 'i', 't', 'e'],
        Color::Black => seq!['B', 'l', 'a', 'c', 'k'],
    };
    name + seq![' ', 'p', 'l', 'a', 'y', 'e', 'r', ' ', 't', 'o', ' ', 'm', 'o', 'v', 'e', '\n']
}

/// The whole drawing of `b` from the side of `user`.
pub open spec fn board_picture(b: Board, user: Color) -> Seq<char> {
    seq!['\n'] + border_line() + rows(b, user, 8) + border_line() + file_labels(user) + turn_line(
        b.side_to_move,
    )
}

/// The symbol of a piece code.
fn symbol(piece: u8) -> (c: char)
    ensures
        c == piece_symbol(piece),
{
    if piece == 1 {
        '♙'
    } else if piece == 2 {
        '♖'
    } else if piece == 3 {
        '♘'
    } else if piece == 4 {
        '♗'
    } else if piece == 5 {
        '♕'
    } else if piece == 6 {
        '♔'
    } else if piece == 7 {
        '♟'
    } else if piece == 8 {
        '♜'
    } else if piece == 9 {
        '♞'
    } else if piece == 10 {
        '♝'
    } else if piece == 11 {
        '♛'
    } else if piece == 12 {
        '♚'
    } else {
        '.'
    }
}

/// The digit of a number below ten.
fn digit_char(n: u8) -> (c: char)
    requires
        n < 10,
    ensures
        c == (48 + n) as char,
{
    let d: u8 = 48 + n;
    d as char
}

/// The letter of a file.
fn letter_char(f: u8) -> (c: char)
    requires
        f < 8,
    ensures
        c == (97 + f) as char,
{
    let d: u8 = 97 + f;
    d as char
}

/// Appends the frame line.
fn push_border(out: &mut String)
    ensures
        final(out)@ == old(out)@ + border_line(),
{
    let ghost start = out@;
    push_char(out, ' ');
    push_char(out, ' ');
    push_char(out, '+');
    let mut k: usize = 0;
    while k < 31
        invariant
            k <= 31,
            out@ == start + seq![' ', ' ', '+'] + Seq::new(k as nat, |i: int| '-'),
        decreases 31 - k,
    {
        push_char(out, '-');
        k = k + 1;
        assert(out@ =~= start + seq![' ', ' ', '+'] + Seq::new(k as nat, |i: int| '-'));
    }
    push_char(out, '+');
    push_char(out, '\n');
    assert(out@ =~= start + border_line());
}

/// Appends the characters of `text`.
fn push_text(out: &mut String, text: &str)
    ensures
        final(out)@ == old(out)@ + text@,
{
    let ghost start = out@;
    let n = text.unicode_len();
    let mut k: usize = 0;
    while k < n
        invariant
            k <= n,
            n == text@.len(),
            out@ == start + text@.subrange(0, k as int),
        decreases n - k,
    {
        push_char(out, text.get_char(k));
        k = k + 1;
        assert(out@ =~= start + text@.subrange(0, k as int));
    }
    assert(text@.subrange(0, n as int) =~= text@);
}

impl Board {
    /// The board drawn from the side of `user_color`: a frame, the eight ranks with the
    /// player's own at the bottom, each square's piece symbol, the file letters, and whose
    /// turn it is.
    pub fn board_text(&self, user_color: Color) -> (r: String)
        ensures
            r@ == board_picture(*self, user_color),
    {
        let mut out = String::new();
        push_char(&mut out, '\n');
        push_border(&mut out);
        let ghost head = out@;
        let mut i: usize = 0;
        while i < 8
            invariant
                i <= 8,
                out@ == head + rows(*self, user_color, i as nat),
            decreases 8 - i,
        {
            let ghost before = out@;
            let rank: usize = match user_color {
                Color::White => 7 - i,
                Color::Black => i,
            };
            push_char(&mut out, digit_char(rank as u8 + 1));
            push_char(&mut out, ' ');
            push_char(&mut out, '|');
            push_char(&mut out, ' ');
            let ghost lead = out@;
            let mut j: usize = 0;
            while j < 8
                invariant
                    j <= 8,
                    rank < 8,
                    rank == rank_on_row(user_color, i as int),
                    out@ == lead + cells(*self, user_color, rank as int, j as nat),
                decreases 8 - j,
            {
                let file: usize = match user_color {
                    Color::White => j,
                    Color::Black => 7 - j,
                };
                push_char(&mut out, symbol(self.squares[8 * rank + file]));
                push_char(&mut out, ' ');
                push_char(&mut out, '|');
                push_char(&mut out, ' ');
                j = j + 1;
                assert(out@ =~= lead + cells(*self, user_color, rank as int, j as nat));
            }
            push_char(&mut out, '\n');
            i = i + 1;
            assert(out@ =~= head + rows(*self, user_color, i as nat));
        }
        push_border(&mut out);
        let ghost framed = out@;
        push_char(&mut out, ' ');
        let ghost labels_start = out@;
        let mut c: usize = 0;
        while c < 8
            invariant
                c <= 8,
                out@ == labels_start + Seq::new(
                    4 * c as nat,
                    |i: int|
                        if i % 4 == 3 {
                            (97 + file_on_column(user_color, i / 4)) as char
                        } else {
                            ' '
                        },
                ),
            decreases 8 - c,
        {
            let file: u8 = match user_color {
                Color::White => c as u8,
                Color::Black => 7 - c as u8,
            };
            push_char(&mut out, ' ');
            push_char(&mut out, ' ');
            push_char(&mut out, ' ');
            push_char(&mut out, letter_char(file));
            c = c + 1;
            assert(out@ =~= labels_start + Seq::new(
                4 * c as nat,
                |i: int|
                    if i % 4 == 3 {
                        (97 + file_on_column(user_color, i / 4)) as char
                    } else {
                        ' '
                    },
            ));
        }
        push_char(&mut out, '\n');
        push_char(&mut out, '\n');
        assert(out@ =~= framed + file_labels(user_color));
        let ghost tail = out@;
        match self.side_to_move {
            Color::White => {
                proof { reveal_strlit("White player to move\n"); }
                push_text(&mut out, "White player to move\n");
            },
            Color::Black => {
                proof { reveal_strlit("Black player to move\n"); }
                push_text(&mut out, "Black player to move\n");
            },
        }
        assert(out@ =~= tail + turn_line(self.side_to_move));
        out
    }
}

} // verus!
