//! Win detection: every row, column and diagonal of the board is
//! scanned for a run of `winning_score` identical non-empty tiles.

use vstd::prelude::*;
use crate::tile::{Tile, Outcome};
use crate::board::Board;
use crate::grid::{grid_as_rows, grid_as_columns};

verus! {

/// A winning run of `t` ends at index `k` of the straight `s`.
pub open spec fn run_ends_at(s: Seq<Tile>, ws: int, k: int, t: Tile) -> bool {
    &&& t != Tile::Empty
    &&& ws >= 1
    &&& ws - 1 <= k < s.len()
    &&& forall|j: int| k + 1 - ws <= j <= k ==> s[j] == t
}

/// Some tile has a winning run somewhere in the straight `s`.
pub open spec fn has_winning_run(s: Seq<Tile>, ws: int) -> bool {
    exists|k: int, t: Tile| run_ends_at(s, ws, k, t)
}

/// Length of the maximal run of equal tiles that ends just before
/// index `n` (i.e. ends at `n - 1`).
pub open spec fn run_len_ending(s: Seq<Tile>, n: int) -> int
    decreases n,
{
    if n <= 0 {
        0
    } else if n == 1 {
        1
    } else if s[n - 1] == s[n - 2] {
        1 + run_len_ending(s, n - 1)
    } else {
        1
    }
}

proof fn lemma_run_len_window(s: Seq<Tile>, n: int, m: int)
    requires
        1 <= m <= run_len_ending(s, n),
        1 <= n <= s.len(),
    ensures
        forall|j: int| n - m <= j < n ==> #[trigger] s[j] == s[n - 1],
    decreases m,
{
    if m > 1 {
        lemma_run_len_window(s, n - 1, m - 1);
    }
}

proof fn lemma_window_run_len(s: Seq<Tile>, n: int, m: int)
    requires
        1 <= m,
        m <= n <= s.len(),
        forall|j: int| n - m <= j < n ==> #[trigger] s[j] == s[n - 1],
    ensures
        run_len_ending(s, n) >= m,
    decreases m,
{
    lemma_run_len_bounds(s, n);
    if m > 1 {
        assert(s[n - 2] == s[n - 1]);
        assert forall|j: int| (n - 1) - (m - 1) <= j < n - 1 implies #[trigger] s[j] == s[n
            - 2] by {
            assert(s[j] == s[n - 1]);
        }
        lemma_window_run_len(s, n - 1, m - 1);
        lemma_run_len_bounds(s, n - 1);
    }
}

proof fn lemma_run_len_bounds(s: Seq<Tile>, n: int)
    requires
        n >= 0,
    ensures
        n == 0 ==> run_len_ending(s, n) == 0,
        n >= 1 ==> 1 <= run_len_ending(s, n) <= n,
    decreases n,
{
    if n > 1 {
        lemma_run_len_bounds(s, n - 1);
    }
}

/// `t` is the winner that a left-to-right scan of the straight `s`
/// reports: the tile of the earliest-completed winning run.
pub open spec fn first_winner_of(s: Seq<Tile>, ws: int, t: Tile) -> bool {
    &&& t != Tile::Empty
    &&& exists|k: int|
        #[trigger] run_ends_at(s, ws, k, t) && (forall|k2: int, t2: Tile|
            0 <= k2 < k ==> !run_ends_at(s, ws, k2, t2))
}

/// The cells of column `j`, top row first.
pub open spec fn col_seq(v: Seq<Seq<Tile>>, j: int) -> Seq<Tile> {
    Seq::new(v.len(), |i: int| v[i][j])
}

/// All columns, left to right.
pub open spec fn cols_of(v: Seq<Seq<Tile>>, w: int) -> Seq<Seq<Tile>> {
    Seq::new(w as nat, |j: int| col_seq(v, j))
}

/// The down-right diagonal that starts at `(row, col)`.
pub open spec fn diag_down_seq(v: Seq<Seq<Tile>>, w: int, row: int, col: int) -> Seq<Tile> {
    Seq::new(
        if v.len() - row <= w - col {
            (v.len() - row) as nat
        } else {
            (w - col) as nat
        },
        |i: int| v[row + i][col + i],
    )
}

/// The up-right diagonal that starts at `(row, col)`.
pub open spec fn diag_up_seq(v: Seq<Seq<Tile>>, w: int, row: int, col: int) -> Seq<Tile> {
    Seq::new(
        if row + 1 <= w - col {
            (row + 1) as nat
        } else {
            (w - col) as nat
        },
        |i: int| v[row - i][col + i],
    )
}

/// Every diagonal of the grid, in enumeration order: for each row a
/// down-right and an up-right diagonal seeded in column 0, then for
/// each column from 1 on a down-right diagonal seeded in row 0 and an
/// up-right diagonal seeded in the bottom row.
pub open spec fn diags_of(v: Seq<Seq<Tile>>, w: int) -> Seq<Seq<Tile>> {
    Seq::new(
        (2 * v.len()) as nat,
        |i: int|
            if i % 2 == 0 {
                diag_down_seq(v, w, i / 2, 0)
            } else {
                diag_up_seq(v, w, i / 2, 0)
            },
    ) + Seq::new(
        (2 * (w - 1)) as nat,
        |i: int|
            if i % 2 == 0 {
                diag_down_seq(v, w, 0, 1 + i / 2)
            } else {
                diag_up_seq(v, w, v.len() - 1, 1 + i / 2)
            },
    )
}

/// Every straight of the grid: rows, then columns, then diagonals.
pub open spec fn straights_of(v: Seq<Seq<Tile>>, w: int) -> Seq<Seq<Tile>> {
    v + cols_of(v, w) + diags_of(v, w)
}

/// Every cell of the grid is occupied.
pub open spec fn board_full(v: Seq<Seq<Tile>>) -> bool {
    forall|i: int, j: int|
        0 <= i < v.len() && 0 <= j < v[i].len() ==> v[i][j] != Tile::Empty
}

/// Some straight of the grid holds a winning run.
pub open spec fn any_win(v: Seq<Seq<Tile>>, w: int, ws: int) -> bool {
    exists|i: int|
        0 <= i < straights_of(v, w).len() && #[trigger] has_winning_run(
            straights_of(v, w)[i],
            ws,
        )
}

/// Everything the winner check promises of its result: a win is
/// reported exactly when some straight holds a winning run, the
/// reported tile is the first winner of the first such straight, and
/// otherwise a full board is a draw and a board with room is open.
pub open spec fn winner_post(v: Seq<Seq<Tile>>, w: int, ws: int, r: Outcome) -> bool {
    let ss = straights_of(v, w);
    &&& (r is Win <==> any_win(v, w, ws))
    &&& (forall|t: Tile|
        r == Outcome::Win(t) ==> exists|i: int|
            0 <= i < ss.len() && #[trigger] first_winner_of(ss[i], ws, t) && (forall|i2: int|
                0 <= i2 < i ==> !has_winning_run(ss[i2], ws)))
    &&& (r is Draw <==> !any_win(v, w, ws) && board_full(v))
    &&& (r is Undecided <==> !any_win(v, w, ws) && !board_full(v))
}

impl Board {
    /// The first winner found in one straight: scanning left to right,
    /// the tile whose run first reaches `winning_score`, or `Empty` if
    /// no non-empty tile has such a run.
    pub fn winner_in_straight(winning_score: usize, tiles: &Vec<Tile>) -> (r: Tile)
        requires
            winning_score >= 1,
        ensures
            r == Tile::Empty <==> !has_winning_run(tiles@, winning_score as int),
            r != Tile::Empty ==> first_winner_of(tiles@, winning_score as int, r),
    {
        let ghost s = tiles@;
        let ghost ws = winning_score as int;
        let mut score: usize = 1;
        let mut current: Tile = Tile::Empty;
        let mut n: usize = 0;
        while n < tiles.len()
            invariant
                ws == winning_score as int,
                ws >= 1,
                s == tiles@,
                n <= s.len(),
                1 <= score <= ws,
                forall|k: int, t: Tile| 0 <= k < n ==> !run_ends_at(s, ws, k, t),
                n > 0 ==> current == s[n - 1],
                current != Tile::Empty ==> n > 0 && score == run_len_ending(s, n as int)
                    && score < ws,
            decreases tiles.len() - n,
        {
            let tile = tiles[n];
            if tile == current {
                if score < winning_score {
                    score += 1;
                }
            } else {
                score = 1;
                current = tile;
            }
            proof {
                if current != Tile::Empty {
                    assert(run_len_ending(s, n + 1) == score);
                }
            }
            n += 1;
            if score == winning_score && current != Tile::Empty {
                proof {
                    assert(current == s[n - 1]);
                    lemma_run_len_bounds(s, n as int);
                    lemma_run_len_window(s, n as int, ws);
                    assert(run_ends_at(s, ws, n - 1, current));
                }
                return current;
            }
            proof {
                if current != Tile::Empty {
                    assert forall|t2: Tile| !(#[trigger] run_ends_at(s, ws, n - 1, t2)) by {
                        if run_ends_at(s, ws, n - 1, t2) {
                            assert(t2 == s[n - 1]);
                            lemma_window_run_len(s, n as int, ws);
                        }
                    }
                } else {
                    assert forall|t2: Tile| !(#[trigger] run_ends_at(s, ws, n - 1, t2)) by {
                        if run_ends_at(s, ws, n - 1, t2) {
                            assert(t2 == s[n - 1]);
                        }
                    }
                }
            }
        }
        Tile::Empty
    }

    /// The cells of the down-right diagonal that starts at `(row, col)`.
    pub fn diagonal_down(&self, row: usize, col: usize) -> (r: Vec<Tile>)
        requires
            self.wf(),
            row < self.height_spec(),
            col < self.width_spec(),
        ensures
            r@ == diag_down_seq(self@, self.width_spec() as int, row as int, col as int),
    {
        let h = self.height();
        let w = self.width();
        let len = if h - row <= w - col {
            h - row
        } else {
            w - col
        };
        let mut result: Vec<Tile> = Vec::new();
        let mut i: usize = 0;
        while i < len
            invariant
                self.wf(),
                row < self.height_spec(),
                col < self.width_spec(),
                h == self.height_spec(),
                w == self.width_spec(),
                len == if h - row <= w - col { h - row } else { w - col },
                i <= len,
                result@.len() == i,
                forall|q: int| 0 <= q < i ==> result@[q] == self@[row + q][col + q],
            decreases len - i,
        {
            let t = self.get(row + i, col + i).unwrap();
            result.push(t);
            i += 1;
        }
        proof {
            assert(result@ =~= diag_down_seq(self@, self.width_spec() as int, row as int, col as int))
                by {
                let d = diag_down_seq(self@, self.width_spec() as int, row as int, col as int);
                assert(result@.len() == d.len());
            }
        }
        result
    }

    /// The cells of the up-right diagonal that starts at `(row, col)`.
    pub fn diagonal_up(&self, row: usize, col: usize) -> (r: Vec<Tile>)
        requires
            self.wf(),
            row < self.height_spec(),
            col < self.width_spec(),
        ensures
            r@ == diag_up_seq(self@, self.width_spec() as int, row as int, col as int),
    {
        let h = self.height();
        let w = self.width();
        proof {
            assert(row < h);
        }
        let len = if row + 1 <= w - col {
            row + 1
        } else {
            w - col
        };
        let mut result: Vec<Tile> = Vec::new();
        let mut i: usize = 0;
        while i < len
            invariant
                self.wf(),
                row < self.height_spec(),
                col < self.width_spec(),
                w == self.width_spec(),
                len == if row + 1 <= w - col { row + 1 } else { w - col },
                i <= len,
                result@.len() == i,
                forall|q: int| 0 <= q < i ==> result@[q] == self@[row - q][col + q],
            decreases len - i,
        {
            let t = self.get(row - i, col + i).unwrap();
            result.push(t);
            i += 1;
        }
        proof {
            assert(result@ =~= diag_up_seq(self@, self.width_spec() as int, row as int, col as int))
                by {
                let d = diag_up_seq(self@, self.width_spec() as int, row as int, col as int);
                assert(result@.len() == d.len());
            }
        }
        result
    }

    /// Every diagonal of the grid, both directions, in enumeration
    /// order.
    pub fn all_diagonals(&self) -> (r: Vec<Vec<Tile>>)
        requires
            self.wf(),
        ensures
            r@.len() == diags_of(self@, self.width_spec() as int).len(),
            forall|i: int|
                0 <= i < r@.len() ==> (#[trigger] r@[i])@ == diags_of(
                    self@,
                    self.width_spec() as int,
                )[i],
    {
        let h = self.height();
        let w = self.width();
        let ghost wi = self.width_spec() as int;
        let mut v: Vec<Vec<Tile>> = Vec::new();
        let mut row: usize = 0;
        while row < h
            invariant
                self.wf(),
                h == self.height_spec(),
                w == self.width_spec(),
                wi == w as int,
                row <= h,
                v@.len() == 2 * row,
                forall|i: int|
                    0 <= i < v@.len() ==> (#[trigger] v@[i])@ == diags_of(self@, wi)[i],
            decreases h - row,
        {
            v.push(self.diagonal_down(row, 0));
            v.push(self.diagonal_up(row, 0));
            proof {
                assert((2 * row as int) % 2 == 0 && (2 * row as int) / 2 == row as int);
                assert((2 * row as int + 1) % 2 == 1 && (2 * row as int + 1) / 2 == row as int);
            }
            row += 1;
        }
        let mut col: usize = 1;
        while col < w
            invariant
                self.wf(),
                h == self.height_spec(),
                w == self.width_spec(),
                wi == w as int,
                1 <= col <= w,
                v@.len() == 2 * h + 2 * (col - 1),
                forall|i: int|
                    0 <= i < v@.len() ==> (#[trigger] v@[i])@ == diags_of(self@, wi)[i],
            decreases w - col,
        {
            v.push(self.diagonal_down(0, col));
            v.push(self.diagonal_up(h - 1, col));
            proof {
                let j = 2 * (col as int - 1);
                assert(j % 2 == 0 && j / 2 == col as int - 1);
                assert((j + 1) % 2 == 1 && (j + 1) / 2 == col as int - 1);
            }
            col += 1;
        }
        v
    }

    /// Every straight of the grid: the rows, the columns, then the
    /// diagonals, in enumeration order.
    pub fn all_straights(&self) -> (r: Vec<Vec<Tile>>)
        requires
            self.wf(),
        ensures
            r@.len() == straights_of(self@, self.width_spec() as int).len(),
            forall|i: int|
                0 <= i < r@.len() ==> (#[trigger] r@[i])@ == straights_of(
                    self@,
                    self.width_spec() as int,
                )[i],
    {
        let ghost wi = self.width_spec() as int;
        proof {
            self.grid_facts();
        }
        let mut result = grid_as_rows(&self.grid);
        let mut cols = grid_as_columns(&self.grid);
        let mut diags = self.all_diagonals();
        let ghost rseq = result@;
        let ghost cseq = cols@;
        let ghost dseq = diags@;
        proof {
            assert forall|j: int| 0 <= j < cseq.len() implies (#[trigger] cseq[j])@ == col_seq(
                self@,
                j,
            ) by {
                assert(cseq[j]@ =~= col_seq(self@, j));
            }
        }
        result.append(&mut cols);
        result.append(&mut diags);
        proof {
            let v = self@;
            let ss = straights_of(v, wi);
            assert(result@ == rseq + cseq + dseq);
            assert forall|i: int| 0 <= i < result@.len() implies (#[trigger] result@[i])@ == ss[i] by {
                if i < v.len() {
                    assert(result@[i] == rseq[i]);
                    assert(ss[i] == v[i]);
                } else if i < v.len() + cols_of(v, wi).len() {
                    assert(result@[i] == cseq[i - v.len() as int]);
                    assert(ss[i] == cols_of(v, wi)[i - v.len() as int]);
                } else {
                    assert(result@[i] == dseq[i - v.len() - cols_of(v, wi).len()]);
                    assert(ss[i] == diags_of(v, wi)[i - v.len() - cols_of(v, wi).len()]);
                }
            }
        }
        result
    }

    /// Whether every cell of the board is occupied.
    fn is_full(&self) -> (r: bool)
        requires
            self.wf(),
        ensures
            r == board_full(self@),
    {
        let h = self.height();
        let w = self.width();
        let mut i: usize = 0;
        while i < h
            invariant
                self.wf(),
                h == self.height_spec(),
                w == self.width_spec(),
                i <= h,
                forall|i2: int, j2: int|
                    0 <= i2 < i && 0 <= j2 < w ==> self@[i2][j2] != Tile::Empty,
            decreases h - i,
        {
            let mut j: usize = 0;
            while j < w
                invariant
                    self.wf(),
                    h == self.height_spec(),
                    w == self.width_spec(),
                    i < h,
                    j <= w,
                    forall|i2: int, j2: int|
                        0 <= i2 < i && 0 <= j2 < w ==> self@[i2][j2] != Tile::Empty,
                    forall|j2: int| 0 <= j2 < j ==> self@[i as int][j2] != Tile::Empty,
                decreases w - j,
            {
                if self.get(i, j).unwrap() == Tile::Empty {
                    return false;
                }
                j += 1;
            }
            i += 1;
        }
        true
    }

    /// Scan every straight for a winning run of `winning_score`
    /// identical tiles; report the first winner, else a draw on a full
    /// board, else that the game is still open.
    pub fn winner(&self, winning_score: usize) -> (r: Outcome)
        requires
            self.wf(),
            winning_score >= 1,
        ensures
            winner_post(self@, self.width_spec() as int, winning_score as int, r),
    {
        let ghost wi = self.width_spec() as int;
        let ghost ws = winning_score as int;
        let ghost ss = straights_of(self@, wi);
        let straights = self.all_straights();
        let mut i: usize = 0;
        while i < straights.len()
            invariant
                self.wf(),
                winning_score >= 1,
                wi == self.width_spec() as int,
                ws == winning_score as int,
                ss == straights_of(self@, wi),
                straights@.len() == ss.len(),
                forall|q: int| 0 <= q < ss.len() ==> (#[trigger] straights@[q])@ == ss[q],
                i <= ss.len(),
                forall|q: int| 0 <= q < i ==> !has_winning_run(#[trigger] ss[q], ws),
            decreases straights.len() - i,
        {
            let t = Self::winner_in_straight(winning_score, &straights[i]);
            if t != Tile::Empty {
                proof {
                    assert(first_winner_of(ss[i as int], ws, t));
                    assert(has_winning_run(ss[i as int], ws)) by {
                        let k = choose|k: int|
                            #[trigger] run_ends_at(ss[i as int], ws, k, t) && (forall|
                                k2: int,
                                t2: Tile,
                            |
                                0 <= k2 < k ==> !run_ends_at(ss[i as int], ws, k2, t2));
                        assert(run_ends_at(ss[i as int], ws, k, t));
                    }
                }
                return Outcome::Win(t);
            }
            i += 1;
        }
        proof {
            assert(!any_win(self@, wi, ws));
        }
        if self.is_full() {
            Outcome::Draw
        } else {
            Outcome::Undecided
        }
    }
}

/// The winner check is a function of the board alone: any two results
/// that its contract admits for the same board and winning score are
/// equal, so checking twice returns the same outcome.
pub proof fn lemma_winner_deterministic(
    v: Seq<Seq<Tile>>,
    w: int,
    ws: int,
    r1: Outcome,
    r2: Outcome,
)
    requires
        winner_post(v, w, ws, r1),
        winner_post(v, w, ws, r2),
    ensures
        r1 == r2,
{
    let ss = straights_of(v, w);
    if any_win(v, w, ws) {
        match (r1, r2) {
            (Outcome::Win(t1), Outcome::Win(t2)) => {
                let i1 = choose|i: int|
                    0 <= i < ss.len() && #[trigger] first_winner_of(ss[i], ws, t1) && (forall|
                        i2: int,
                    |
                        0 <= i2 < i ==> !has_winning_run(ss[i2], ws));
                let i2 = choose|i: int|
                    0 <= i < ss.len() && #[trigger] first_winner_of(ss[i], ws, t2) && (forall|
                        i2: int,
                    |
                        0 <= i2 < i ==> !has_winning_run(ss[i2], ws));
                lemma_first_winner_pins(ss, ws, t1, t2, i1, i2);
            },
            _ => {
                assert(r1 is Win && r2 is Win);
            },
        }
    } else {
        assert(!(r1 is Win) && !(r2 is Win));
        if board_full(v) {
            assert(r1 is Draw && r2 is Draw);
        } else {
            assert(r1 is Undecided && r2 is Undecided);
        }
    }
}

proof fn lemma_first_winner_pins(ss: Seq<Seq<Tile>>, ws: int, t1: Tile, t2: Tile, i1: int, i2: int)
    requires
        0 <= i1 < ss.len(),
        0 <= i2 < ss.len(),
        first_winner_of(ss[i1], ws, t1),
        first_winner_of(ss[i2], ws, t2),
        forall|q: int| 0 <= q < i1 ==> !has_winning_run(ss[q], ws),
        forall|q: int| 0 <= q < i2 ==> !has_winning_run(ss[q], ws),
    ensures
        t1 == t2,
{
    let k1 = choose|k: int|
        #[trigger] run_ends_at(ss[i1], ws, k, t1) && (forall|k2: int, u: Tile|
            0 <= k2 < k ==> !run_ends_at(ss[i1], ws, k2, u));
    let k2 = choose|k: int|
        #[trigger] run_ends_at(ss[i2], ws, k, t2) && (forall|k2: int, u: Tile|
            0 <= k2 < k ==> !run_ends_at(ss[i2], ws, k2, u));
    assert(run_ends_at(ss[i1], ws, k1, t1));
    assert(run_ends_at(ss[i2], ws, k2, t2));
    if i1 < i2 {
        assert(has_winning_run(ss[i1], ws));
        assert(false);
    }
    if i2 < i1 {
        assert(has_winning_run(ss[i2], ws));
        assert(false);
    }
    assert(i1 == i2);
    if k1 < k2 {
        assert(false);
    }
    if k2 < k1 {
        assert(false);
    }
    assert(ss[i1][k1] == t1);
    assert(ss[i2][k2] == t2);
}

/// The diagonal enumeration is complete on a 3x3 grid: it lists
/// exactly these ten diagonals, among them the two corner-to-corner
/// diagonals of length 3, and each shorter diagonal of length 1 and 2
/// once per direction, so a length-3 diagonal run anywhere is scanned.
pub proof fn lemma_diagonals_3x3(v: Seq<Seq<Tile>>)
    requires
        v.len() == 3,
        forall|i: int| 0 <= i < 3 ==> (#[trigger] v[i]).len() == 3,
    ensures
        diags_of(v, 3).len() == 10,
        diags_of(v, 3)[0] == seq![v[0][0], v[1][1], v[2][2]],
        diags_of(v, 3)[1] == seq![v[0][0]],
        diags_of(v, 3)[2] == seq![v[1][0], v[2][1]],
        diags_of(v, 3)[3] == seq![v[1][0], v[0][1]],
        diags_of(v, 3)[4] == seq![v[2][0]],
        diags_of(v, 3)[5] == seq![v[2][0], v[1][1], v[0][2]],
        diags_of(v, 3)[6] == seq![v[0][1], v[1][2]],
        diags_of(v, 3)[7] == seq![v[2][1], v[1][2]],
        diags_of(v, 3)[8] == seq![v[0][2]],
        diags_of(v, 3)[9] == seq![v[2][2]],
{
    let d = diags_of(v, 3);
    assert(d[0] =~= seq![v[0][0], v[1][1], v[2][2]]);
    assert(d[1] =~= seq![v[0][0]]);
    assert(d[2] =~= seq![v[1][0], v[2][1]]);
    assert(d[3] =~= seq![v[1][0], v[0][1]]);
    assert(d[4] =~= seq![v[2][0]]);
    assert(d[5] =~= seq![v[2][0], v[1][1], v[0][2]]);
    assert(d[6] =~= seq![v[0][1], v[1][2]]);
    assert(d[7] =~= seq![v[2][1], v[1][2]]);
    assert(d[8] =~= seq![v[0][2]]);
    assert(d[9] =~= seq![v[2][2]]);
}

} // verus!
