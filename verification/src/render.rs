//! The board as text, one line per rank.

use vstd::prelude::*;
use vstd::string::StringExecFns;

use crate::game::{Game, GameView};
use crate::location::{LocationCoords, BOARD_SIZE};
use crate::piece::PieceType;
use crate::player::Color;

verus! {

/// The letter that stands for a kind of piece.
pub open spec fn piece_letter(piece_type: PieceType) -> char {
    match piece_type {
        PieceType::Pawn => 'P',
        PieceType::Rook => 'R',
        PieceType::Knight => 'N',
        PieceType::Bishop => 'B',
        PieceType::Queen => 'Q',
        PieceType::King => 'K',
    }
}

impl GameView {
    /// The four characters that show the cell at `c`: two underscores for an empty cell,
    /// the mark of the side and the letter of the piece for an occupied one, between
    /// spaces.
    pub open spec fn cell_text(self, c: LocationCoords) -> Seq<char> {
        match self.cell(c).piece {
            Some(r) => seq![' ', r.owner.mark(), piece_letter(self.piece(r).piece_type), ' '],
            None => seq![' ', '_', '_', ' '],
        }
    }

    /// The text of the first `n` cells of rank `y`.
    pub open spec fn row_text(self, y: int, n: int) -> Seq<char>
        decreases n,
    {
        if n <= 0 {
            Seq::empty()
        } else {
            self.row_text(y, n - 1) + self.cell_text(
                LocationCoords { x: (n - 1) as usize, y: y as usize },
            )
        }
    }

    /// The text of the first `rows` ranks, with a line break between one rank and the
    /// next.
    pub open spec fn board_text(self, rows: int) -> Seq<char>
        decreases rows,
    {
        if rows <= 0 {
            Seq::empty()
        } else if rows == 1 {
            self.row_text(0, BOARD_SIZE as int)
        } else {
            self.board_text(rows - 1) + seq!['\n'] + self.row_text(rows - 1, BOARD_SIZE as int)
        }
    }

    /// The whole board as text.
    pub open spec fn text(self) -> Seq<char> {
        self.board_text(BOARD_SIZE as int)
    }
}

/// The mark of a side, as text.
fn mark_text(color: Color) -> (text: &'static str)
    ensures
        text@ == seq![color.mark()],
{
    proof {
        reveal_strlit("O");
        reveal_strlit("X");
    }
    match color {
        Color::White => {
            assert("O"@ =~= seq!['O']);
            "O"
        },
        Color::Black => {
            assert("X"@ =~= seq!['X']);
            "X"
        },
    }
}

/// The letter of a kind of piece, as text.
fn letter_text(piece_type: PieceType) -> (text: &'static str)
    ensures
        text@ == seq![piece_letter(piece_type)],
{
    proof {
        reveal_strlit("P");
        reveal_strlit("R");
        reveal_strlit("N");
        reveal_strlit("B");
        reveal_strlit("Q");
        reveal_strlit("K");
    }
    match piece_type {
        PieceType::Pawn => {
            assert("P"@ =~= seq!['P']);
            "P"
        },
        PieceType::Rook => {
            assert("R"@ =~= seq!['R']);
            "R"
        },
        PieceType::Knight => {
            assert("N"@ =~= seq!['N']);
            "N"
        },
        PieceType::Bishop => {
            assert("B"@ =~= seq!['B']);
            "B"
        },
        PieceType::Queen => {
            assert("Q"@ =~= seq!['Q']);
            "Q"
        },
        PieceType::King => {
            assert("K"@ =~= seq!['K']);
            "K"
        },
    }
}

impl Game {
    /// Draws the board: one line per rank, four characters per cell.
    pub fn render(&self) -> (text: String)
        requires
            self.wf(),
        ensures
            text@ == self@.text(),
    {
        let mut text: String = String::new();
        let mut y: usize = 0;
        while y < BOARD_SIZE
            invariant
                y <= BOARD_SIZE,
                self.wf(),
                text@ == self@.board_text(y as int),
            decreases BOARD_SIZE - y,
        {
            if y > 0 {
                proof {
                    reveal_strlit("\n");
                    assert("\n"@ =~= seq!['\n']);
                }
                text.append("\n");
            }
            let ghost line_start = text@;
            let mut x: usize = 0;
            while x < BOARD_SIZE
                invariant
                    x <= BOARD_SIZE,
                    y < BOARD_SIZE,
                    self.wf(),
                    text@ == line_start + self@.row_text(y as int, x as int),
                decreases BOARD_SIZE - x,
            {
                let here: LocationCoords = LocationCoords { x, y };
                let ghost drawn = text@;
                assert(self@.cell_wf(here));
                match self.piece_at(&here) {
                    Some(p) => {
                        proof {
                            reveal_strlit(" ");
                            assert(" "@ =~= seq![' ']);
                        }
                        text.append(" ");
                        text.append(mark_text(p.owner));
                        text.append(letter_text(p.piece_type));
                        text.append(" ");
                    },
                    None => {
                        proof {
                            reveal_strlit(" __ ");
                            assert(" __ "@ =~= seq![' ', '_', '_', ' ']);
                        }
                        text.append(" __ ");
                    },
                }
                assert(text@ =~= drawn + self@.cell_text(here));
                assert(text@ =~= line_start + self@.row_text(y as int, x + 1));
                x = x + 1;
            }
            assert(text@ =~= self@.board_text(y + 1));
            y = y + 1;
        }
        text
    }
}

} // verus!
