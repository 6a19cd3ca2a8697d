//! Text rendering of the board: a header of 1-based column numbers,
//! then each row prefixed with its 1-based row number, every tile in
//! a three-character field, and a closing blank line.

use vstd::prelude::*;
use vstd::string::*;
use crate::tile::Tile;
use crate::board::Board;

verus! {

/// The glyph of one tile: the player's letter, `_` for an empty cell.
pub open spec fn tile_text(t: Tile) -> Seq<char> {
    match t {
        Tile::Empty => seq!['_'],
        Tile::X => seq!['X'],
        Tile::O => seq!['O'],
    }
}

pub open spec fn digit_char(d: nat) -> char {
    if d == 0 {
        '0'
    } else if d == 1 {
        '1'
    } else if d == 2 {
        '2'
    } else if d == 3 {
        '3'
    } else if d == 4 {
        '4'
    } else if d == 5 {
        '5'
    } else if d == 6 {
        '6'
    } else if d == 7 {
        '7'
    } else if d == 8 {
        '8'
    } else {
        '9'
    }
}

/// The decimal numeral of `n`, most significant digit first.
pub open spec fn decimal_text(n: nat) -> Seq<char>
    decreases n,
{
    if n < 10 {
        seq![digit_char(n)]
    } else {
        decimal_text(n / 10) + seq![digit_char(n % 10)]
    }
}

/// One row's cells, each tile in a three-character field.
pub open spec fn row_cells_text(row: Seq<Tile>) -> Seq<char>
    decreases row.len(),
{
    if row.len() == 0 {
        Seq::empty()
    } else {
        row_cells_text(row.drop_last()) + seq![' '] + tile_text(row.last()) + seq![' ']
    }
}

/// The header cells: each 1-based column number in a field of spaces.
pub open spec fn header_text(w: nat) -> Seq<char>
    decreases w,
{
    if w == 0 {
        Seq::empty()
    } else {
        header_text((w - 1) as nat) + seq![' '] + decimal_text(w) + seq![' ']
    }
}

/// The first `upto` rows, each on its own line after its 1-based
/// row number.
pub open spec fn rows_text(v: Seq<Seq<Tile>>, upto: int) -> Seq<char>
    decreases upto,
{
    if upto <= 0 {
        Seq::empty()
    } else {
        rows_text(v, upto - 1) + seq!['\n'] + decimal_text(upto as nat) + seq![' ']
            + row_cells_text(v[upto - 1])
    }
}

/// The whole rendered board, numbered style.
pub open spec fn board_text(v: Seq<Seq<Tile>>, w: nat) -> Seq<char> {
    seq![' ', ' '] + header_text(w) + rows_text(v, v.len() as int) + seq!['\n']
}

/// The first `upto` rows in the plain style: just the cells, one row
/// per line, no coordinate labels.
pub open spec fn plain_rows_text(v: Seq<Seq<Tile>>, upto: int) -> Seq<char>
    decreases upto,
{
    if upto <= 0 {
        Seq::empty()
    } else {
        plain_rows_text(v, upto - 1) + row_cells_text(v[upto - 1]) + seq!['\n']
    }
}

/// The whole rendered board, plain style.
pub open spec fn plain_board_text(v: Seq<Seq<Tile>>) -> Seq<char> {
    plain_rows_text(v, v.len() as int)
}

/// The glyph of one tile as a string slice.
pub fn tile_str(t: Tile) -> (r: &'static str)
    ensures
        r@ == tile_text(t),
{
    match t {
        Tile::Empty => {
            proof {
                reveal_strlit("_");
                assert("_"@ =~= seq!['_']);
            }
            "_"
        },
        Tile::X => {
            proof {
                reveal_strlit("X");
                assert("X"@ =~= seq!['X']);
            }
            "X"
        },
        Tile::O => {
            proof {
                reveal_strlit("O");
                assert("O"@ =~= seq!['O']);
            }
            "O"
        },
    }
}

fn digit_str(d: usize) -> (r: &'static str)
    requires
        d < 10,
    ensures
        r@ == seq![digit_char(d as nat)],
{
    if d == 0 {
        proof {
            reveal_strlit("0");
            assert("0"@ =~= seq![digit_char(0)]);
        }
        "0"
    } else if d == 1 {
        proof {
            reveal_strlit("1");
            assert("1"@ =~= seq![digit_char(1)]);
        }
        "1"
    } else if d == 2 {
        proof {
            reveal_strlit("2");
            assert("2"@ =~= seq![digit_char(2)]);
        }
        "2"
    } else if d == 3 {
        proof {
            reveal_strlit("3");
            assert("3"@ =~= seq![digit_char(3)]);
        }
        "3"
    } else if d == 4 {
        proof {
            reveal_strlit("4");
            assert("4"@ =~= seq![digit_char(4)]);
        }
        "4"
    } else if d == 5 {
        proof {
            reveal_strlit("5");
            assert("5"@ =~= seq![digit_char(5)]);
        }
        "5"
    } else if d == 6 {
        proof {
            reveal_strlit("6");
            assert("6"@ =~= seq![digit_char(6)]);
        }
        "6"
    } else if d == 7 {
        proof {
            reveal_strlit("7");
            assert("7"@ =~= seq![digit_char(7)]);
        }
        "7"
    } else if d == 8 {
        proof {
            reveal_strlit("8");
            assert("8"@ =~= seq![digit_char(8)]);
        }
        "8"
    } else {
        proof {
            reveal_strlit("9");
            assert("9"@ =~= seq![digit_char(9)]);
        }
        "9"
    }
}

/// Append the decimal numeral of `n`.
fn push_decimal(out: &mut String, n: usize)
    ensures
        final(out)@ == old(out)@ + decimal_text(n as nat),
    decreases n,
{
    if n < 10 {
        out.append(digit_str(n));
    } else {
        push_decimal(out, n / 10);
        out.append(digit_str(n % 10));
        proof {
            assert(out@ =~= old(out)@ + decimal_text(n as nat));
        }
    }
}

impl Board {
    /// The numbered text rendering of the board.
    pub fn render(&self) -> (r: String)
        requires
            self.wf(),
        ensures
            r@ == board_text(self@, self.width_spec()),
    {
        let h = self.height();
        let w = self.width();
        let ghost v = self@;
        let ghost wn = self.width_spec();
        let mut out = String::new();
        out.append("  ");
        proof {
            reveal_strlit("  ");
            assert(out@ =~= seq![' ', ' '] + header_text(0));
        }
        let mut c: usize = 0;
        while c < w
            invariant
                self.wf(),
                v == self@,
                wn == self.width_spec(),
                w == wn,
                c <= w,
                out@ == seq![' ', ' '] + header_text(c as nat),
            decreases w - c,
        {
            out.append(" ");
            push_decimal(&mut out, c + 1);
            out.append(" ");
            proof {
                reveal_strlit(" ");
                assert(" "@ =~= seq![' ']);
                assert(out@ =~= seq![' ', ' '] + header_text((c + 1) as nat));
            }
            c += 1;
        }
        let ghost head = seq![' ', ' '] + header_text(wn);
        let mut i: usize = 0;
        while i < h
            invariant
                self.wf(),
                v == self@,
                wn == self.width_spec(),
                w == wn,
                h == self.height_spec(),
                i <= h,
                head == seq![' ', ' '] + header_text(wn),
                out@ == head + rows_text(v, i as int),
            decreases h - i,
        {
            out.append("\n");
            push_decimal(&mut out, i + 1);
            out.append(" ");
            proof {
                reveal_strlit("\n");
                reveal_strlit(" ");
                assert("\n"@ =~= seq!['\n']);
                assert(" "@ =~= seq![' ']);
            }
            let ghost row = v[i as int];
            let ghost line_start = head + rows_text(v, i as int) + seq!['\n'] + decimal_text(
                (i + 1) as nat,
            ) + seq![' '];
            proof {
                assert(out@ =~= line_start + row_cells_text(row.take(0)));
            }
            let mut j: usize = 0;
            while j < w
                invariant
                    self.wf(),
                    v == self@,
                    wn == self.width_spec(),
                    w == wn,
                    h == self.height_spec(),
                    i < h,
                    j <= w,
                    row == v[i as int],
                    row.len() == wn,
                    out@ == line_start + row_cells_text(row.take(j as int)),
                decreases w - j,
            {
                out.append(" ");
                out.append(tile_str(self.get(i, j).unwrap()));
                out.append(" ");
                proof {
                    reveal_strlit(" ");
                    assert(" "@ =~= seq![' ']);
                    assert(row.take(j + 1).drop_last() =~= row.take(j as int));
                    assert(row.take(j + 1).last() == row[j as int]);
                    assert(out@ =~= line_start + row_cells_text(row.take(j + 1)));
                }
                j += 1;
            }
            proof {
                assert(row.take(w as int) =~= row);
                assert(out@ =~= head + rows_text(v, i + 1));
            }
            i += 1;
        }
        out.append("\n");
        proof {
            reveal_strlit("\n");
            assert("\n"@ =~= seq!['\n']);
            assert(out@ =~= board_text(v, wn));
        }
        out
    }

    /// The plain text rendering of the board: tile glyphs only, one
    /// row per line, no coordinate labels.
    pub fn render_plain(&self) -> (r: String)
        requires
            self.wf(),
        ensures
            r@ == plain_board_text(self@),
    {
        let h = self.height();
        let w = self.width();
        let ghost v = self@;
        let mut out = String::new();
        let mut i: usize = 0;
        proof {
            assert(out@ =~= plain_rows_text(v, 0));
        }
        while i < h
            invariant
                self.wf(),
                v == self@,
                w == self.width_spec(),
                h == self.height_spec(),
                i <= h,
                out@ == plain_rows_text(v, i as int),
            decreases h - i,
        {
            let ghost row = v[i as int];
            let ghost line_start = plain_rows_text(v, i as int);
            proof {
                assert(out@ =~= line_start + row_cells_text(row.take(0)));
            }
            let mut j: usize = 0;
            while j < w
                invariant
                    self.wf(),
                    v == self@,
                    w == self.width_spec(),
                    h == self.height_spec(),
                    i < h,
                    j <= w,
                    row == v[i as int],
                    row.len() == self.width_spec(),
                    line_start == plain_rows_text(v, i as int),
                    out@ == line_start + row_cells_text(row.take(j as int)),
                decreases w - j,
            {
                out.append(" ");
                out.append(tile_str(self.get(i, j).unwrap()));
                out.append(" ");
                proof {
                    reveal_strlit(" ");
                    assert(" "@ =~= seq![' ']);
                    assert(row.take(j + 1).drop_last() =~= row.take(j as int));
                    assert(row.take(j + 1).last() == row[j as int]);
                    assert(out@ =~= line_start + row_cells_text(row.take(j + 1)));
                }
                j += 1;
            }
            out.append("\n");
            proof {
                reveal_strlit("\n");
                assert("\n"@ =~= seq!['\n']);
                assert(row.take(w as int) =~= row);
                assert(out@ =~= plain_rows_text(v, i + 1));
            }
            i += 1;
        }
        out
    }
}

} // verus!
