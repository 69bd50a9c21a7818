//! The board and its parts as text.

use crate::board2::{Action, Board, Move};
use crate::model::BoardView;
use crate::piece2::{piece_letter, Color, Piece, Position, Type};
use vstd::prelude::*;

verus! {

/// `String::push` appends the given character to the end of the string.
pub assume_specification[ String::push ](s: &mut String, ch: char)
    ensures
        final(s)@ == old(s)@.push(ch),
;

/// The characters as a string.
pub fn string_of(chars: &Vec<char>) -> (r: String)
    ensures
        r@ == chars@,
{
    let mut out = String::new();
    let mut i: usize = 0;
    while i < chars.len()
        invariant
            0 <= i <= chars@.len(),
            out@ == chars@.subrange(0, i as int),
        decreases chars@.len() - i,
    {
        out.push(chars[i]);
        proof {
            assert(out@ =~= chars@.subrange(0, i + 1));
        }
        i += 1;
    }
    proof {
        assert(chars@.subrange(0, chars@.len() as int) =~= chars@);
    }
    out
}

/// The text `n` times in a row.
pub open spec fn repeated(text: Seq<char>, n: int) -> Seq<char>
    decreases n,
{
    if n <= 0 {
        Seq::empty()
    } else {
        repeated(text, n - 1) + text
    }
}

/// The line between two ranks of a printed board.
pub open spec fn border() -> Seq<char> {
    seq![' ', ' '] + repeated(seq!['+', '-', '-', '-'], 8) + seq!['+']
}

/// The line under a printed board that names the files.
pub open spec fn file_names() -> Seq<char> {
    seq![' ', ' ', ' ', ' ', 'a', ' ', ' ', ' ', 'b', ' ', ' ', ' ', 'c', ' ', ' ', ' ', 'd', ' ', ' ', ' ', 'e', ' ', ' ', ' ', 'f', ' ', ' ', ' ', 'g', ' ', ' ', ' ', 'h', '\n']
}

/// The digit that names a rank, `1` for the first.
pub open spec fn rank_digit(y: int) -> char {
    if y == 0 {
        '1'
    } else if y == 1 {
        '2'
    } else if y == 2 {
        '3'
    } else if y == 3 {
        '4'
    } else if y == 4 {
        '5'
    } else if y == 5 {
        '6'
    } else if y == 6 {
        '7'
    } else {
        '8'
    }
}

impl BoardView {
    /// The character shown for a square: the letter of the piece on it, upper
    /// case for White and lower case for Black, or a blank.
    pub open spec fn square_char(self, x: int, y: int) -> char {
        match self.piece_at(Position::at(x, y)) {
            Some(p) => piece_letter(p@.color, p@.kind),
            None => ' ',
        }
    }

    /// The first `n` squares of a rank as they are printed.
    pub open spec fn squares_text(self, y: int, n: int) -> Seq<char>
        decreases n,
    {
        if n <= 0 {
            Seq::empty()
        } else {
            self.squares_text(y, n - 1) + seq![' ', self.square_char(n - 1, y), ' ', '|']
        }
    }

    /// A rank as it is printed: its digit, its squares from the a-file to the
    /// h-file, and the border under it.
    pub open spec fn rank_text(self, y: int) -> Seq<char> {
        seq![rank_digit(y), ' ', '|'] + self.squares_text(y, 8) + seq!['\n'] + border()
            + seq!['\n']
    }

    /// The topmost `n` ranks as they are printed, the eighth rank first.
    pub open spec fn ranks_text(self, n: int) -> Seq<char>
        decreases n,
    {
        if n <= 0 {
            Seq::empty()
        } else {
            self.ranks_text(n - 1) + self.rank_text(8 - n)
        }
    }

    /// The board as it is printed: a grid of the ranks from the eighth down
    /// to the first, each with its squares from the a-file to the h-file, and
    /// under it the names of the files.
    pub open spec fn text(self) -> Seq<char> {
        border() + seq!['\n'] + self.ranks_text(8) + file_names()
    }
}

/// Appends the line between two ranks.
fn write_border(out: &mut Vec<char>)
    ensures
        final(out)@ == old(out)@ + border(),
{
    out.push(' ');
    out.push(' ');
    let ghost start = out@;
    let mut i: usize = 0;
    proof {
        assert(start + repeated(seq!['+', '-', '-', '-'], 0) =~= start);
    }
    while i < 8
        invariant
            0 <= i <= 8,
            out@ == start + repeated(seq!['+', '-', '-', '-'], i as int),
        decreases 8 - i,
    {
        out.push('+');
        out.push('-');
        out.push('-');
        out.push('-');
        proof {
            assert(out@ =~= start + repeated(seq!['+', '-', '-', '-'], i + 1));
        }
        i += 1;
    }
    out.push('+');
    proof {
        assert(out@ =~= old(out)@ + border());
    }
}

impl Board {
    /// The board as text: a grid of the ranks from the eighth down to the
    /// first, one letter for each piece, upper case for White and lower case
    /// for Black.
    #[verifier::rlimit(50)]
    pub fn render(&self) -> (r: String)
        ensures
            r@ == self@.text(),
    {
        let mut out: Vec<char> = Vec::new();
        write_border(&mut out);
        out.push('\n');
        let ghost head = out@;
        let mut row: i8 = 0;
        proof {
            assert(head + self@.ranks_text(0) =~= head);
        }
        while row < 8
            invariant
                0 <= row <= 8,
                head == border() + seq!['\n'],
                out@ == head + self@.ranks_text(row as int),
            decreases 8 - row,
        {
            let y: i8 = 7 - row;
            let digit: char = match y {
                0 => '1',
                1 => '2',
                2 => '3',
                3 => '4',
                4 => '5',
                5 => '6',
                6 => '7',
                _ => '8',
            };
            let ghost before = out@;
            out.push(digit);
            out.push(' ');
            out.push('|');
            let ghost lead = out@;
            let mut x: i8 = 0;
            proof {
                assert(lead + self@.squares_text(y as int, 0) =~= lead);
            }
            while x < 8
                invariant
                    0 <= x <= 8,
                    0 <= y < 8,
                    out@ == lead + self@.squares_text(y as int, x as int),
                decreases 8 - x,
            {
                let ch: char = match self.piece_at_xy(x, y) {
                    Some(piece) => piece.char(),
                    None => ' ',
                };
                out.push(' ');
                out.push(ch);
                out.push(' ');
                out.push('|');
                proof {
                    assert(out@ =~= lead + self@.squares_text(y as int, x + 1));
                }
                x += 1;
            }
            out.push('\n');
            write_border(&mut out);
            out.push('\n');
            proof {
                assert(out@ =~= before + self@.rank_text(y as int));
                assert(out@ =~= head + self@.ranks_text(row + 1));
            }
            row += 1;
        }
        let names: [char; 34] = [
            ' ',
            ' ',
            ' ',
            ' ',
            'a',
            ' ',
            ' ',
            ' ',
            'b',
            ' ',
            ' ',
            ' ',
            'c',
            ' ',
            ' ',
            ' ',
            'd',
            ' ',
            ' ',
            ' ',
            'e',
            ' ',
            ' ',
            ' ',
            'f',
            ' ',
            ' ',
            ' ',
            'g',
            ' ',
            ' ',
            ' ',
            'h',
            '\n',
        ];
        let ghost body = out@;
        let mut k: usize = 0;
        while k < 34
            invariant
                0 <= k <= 34,
                names@ == file_names(),
                out@ == body + file_names().subrange(0, k as int),
            decreases 34 - k,
        {
            out.push(names[k]);
            proof {
                assert(out@ =~= body + file_names().subrange(0, k + 1));
            }
            k += 1;
        }
        proof {
            assert(file_names().subrange(0, 34) =~= file_names());
            assert(out@ =~= self@.text());
        }
        string_of(&out)
    }
}

impl Position {
    /// The square's name in algebraic notation, such as `d5`.
    pub fn to_text(&self) -> (r: String)
        requires
            self.wf(),
        ensures
            r@ == self.name(),
    {
        let mut out: Vec<char> = Vec::new();
        self.write_name(&mut out);
        string_of(&out)
    }
}

/// Appends the name of a color.
fn write_color(color: Color, out: &mut Vec<char>)
    ensures
        final(out)@ == old(out)@ + color.spec_name(),
{
    proof {
        reveal_strlit("White");
        reveal_strlit("Black");
    }
    match color {
        Color::White => {
            out.push('W');
            out.push('h');
            out.push('i');
            out.push('t');
            out.push('e');
        },
        Color::Black => {
            out.push('B');
            out.push('l');
            out.push('a');
            out.push('c');
            out.push('k');
        },
    }
    proof {
        assert(out@ =~= old(out)@ + color.spec_name());
    }
}

/// Appends the name of a type of piece.
fn write_type(t: Type, out: &mut Vec<char>)
    ensures
        final(out)@ == old(out)@ + t.spec_name(),
{
    proof {
        reveal_strlit("Pawn");
        reveal_strlit("Rook");
        reveal_strlit("Knight");
        reveal_strlit("Bishop");
        reveal_strlit("Queen");
        reveal_strlit("King");
    }
    match t {
        Type::Pawn => {
            out.push('P');
            out.push('a');
            out.push('w');
            out.push('n');
        },
        Type::Rook => {
            out.push('R');
            out.push('o');
            out.push('o');
            out.push('k');
        },
        Type::Knight => {
            out.push('K');
            out.push('n');
            out.push('i');
            out.push('g');
            out.push('h');
            out.push('t');
        },
        Type::Bishop => {
            out.push('B');
            out.push('i');
            out.push('s');
            out.push('h');
            out.push('o');
            out.push('p');
        },
        Type::Queen => {
            out.push('Q');
            out.push('u');
            out.push('e');
            out.push('e');
            out.push('n');
        },
        Type::King => {
            out.push('K');
            out.push('i');
            out.push('n');
            out.push('g');
        },
    }
    proof {
        assert(out@ =~= old(out)@ + t.spec_name());
    }
}

impl Piece {
    /// What is shown for a piece: its color, its type and, in brackets, its
    /// square, such as `White Rook (d5)`.
    pub open spec fn text(self) -> Seq<char> {
        self@.color.spec_name() + seq![' '] + self@.kind.spec_name() + seq![' ', '(']
            + self@.position.name() + seq![')']
    }

    pub fn to_text(&self) -> (r: String)
        requires
            self@.position.wf(),
        ensures
            r@ == self.text(),
    {
        let mut out: Vec<char> = Vec::new();
        write_color(self.color(), &mut out);
        out.push(' ');
        write_type(self.t(), &mut out);
        out.push(' ');
        out.push('(');
        self.pos().write_name(&mut out);
        out.push(')');
        proof {
            assert(out@ =~= self.text());
        }
        string_of(&out)
    }
}

impl Move {
    /// What is shown for a move: for a move of a piece to an empty square the
    /// names of the two squares with a blank between them, for the
    /// placeholder of a search `<None>`, and nothing for any other move.
    pub open spec fn text(self) -> Seq<char> {
        match self.action {
            Action::NoAction => seq!['<', 'N', 'o', 'n', 'e', '>'],
            Action::Move { start, end } => start.name() + seq![' '] + end.name(),
            _ => Seq::empty(),
        }
    }

    /// Whether the squares that the text of the move names are on the board.
    pub open spec fn nameable(self) -> bool {
        match self.action {
            Action::Move { start, end } => start.wf() && end.wf(),
            _ => true,
        }
    }

    pub fn to_text(&self) -> (r: String)
        requires
            self.nameable(),
        ensures
            r@ == self.text(),
    {
        let mut out: Vec<char> = Vec::new();
        match self.action {
            Action::NoAction => {
                out.push('<');
                out.push('N');
                out.push('o');
                out.push('n');
                out.push('e');
                out.push('>');
            },
            Action::Move { start, end } => {
                start.write_name(&mut out);
                out.push(' ');
                end.write_name(&mut out);
            },
            _ => {},
        }
        proof {
            assert(out@ =~= self.text());
        }
        string_of(&out)
    }
}

} // verus!
