//! The shared game board and the cross-word validation algorithm.
//!
//! The board is a fixed 26 x 26 grid of optional tiles. Validation walks
//! the grid twice — row-major, then column-major — accumulating maximal
//! runs of occupied cells. A horizontal run that spells a dictionary word
//! marks its cells; a vertical run that does not spell a dictionary word
//! is only acceptable when every one of its cells carries such a mark.

use vstd::prelude::*;

use crate::words::WordSet;

verus! {

/// Side length of the square board.
pub const BOARD_SIZE: usize = 26;

/// One placed letter: its character, the id of the player who placed it,
/// and the turn number it was placed in.
#[derive(Clone, Copy, PartialEq, Eq, Structural, Debug)]
pub struct Tile {
    pub ch: char,
    pub owner: u32,
    pub turn: u32,
}

impl Tile {
    pub fn new(ch: char, owner: u32, turn: u32) -> (t: Tile)
        ensures
            t == (Tile { ch, owner, turn }),
    {
        Tile { ch, owner, turn }
    }
}

/// The 26 x 26 grid, stored row-major.
#[derive(Debug)]
pub struct Board {
    cells: Vec<Option<Tile>>,
}

impl Clone for Board {
    /// A clone holds exactly the same cells.
    fn clone(&self) -> (r: Board)
        ensures
            r.grid() == self.grid(),
    {
        let n = self.cells.len();
        let mut cells: Vec<Option<Tile>> = Vec::new();
        let mut i: usize = 0;
        while i < n
            invariant
                n == self.cells@.len(),
                0 <= i <= n,
                cells@ == self.cells@.take(i as int),
            decreases n - i,
        {
            cells.push(self.cells[i]);
            proof {
                assert(cells@ =~= self.cells@.take(i + 1));
            }
            i = i + 1;
        }
        proof {
            assert(cells@ =~= self.cells@);
        }
        Board { cells }
    }
}

/// One line of the grid (a row or a column), as validation sees it.
pub type Line = Seq<Option<Tile>>;

impl Board {
    /// The whole grid, row-major, as a sequence of 676 cells.
    pub closed spec fn grid(&self) -> Seq<Option<Tile>> {
        self.cells@
    }

    pub open spec fn wf(&self) -> bool {
        self.grid().len() == 676
    }

    /// The cell at row `r`, column `c`.
    pub open spec fn cell(&self, r: int, c: int) -> Option<Tile> {
        self.grid()[r * 26 + c]
    }

    /// Row `r` as a line of 26 cells.
    pub open spec fn row(&self, r: int) -> Line {
        Seq::new(26, |c: int| self.cell(r, c))
    }

    /// Column `c` as a line of 26 cells.
    pub open spec fn col(&self, c: int) -> Line {
        Seq::new(26, |r: int| self.cell(r, c))
    }

    pub open spec fn is_empty_board(&self) -> bool {
        forall|r: int, c: int| 0 <= r < 26 && 0 <= c < 26 ==> self.cell(r, c) is None
    }

    /// A fresh board with every cell empty.
    pub fn new() -> (b: Board)
        ensures
            b.wf(),
            b.is_empty_board(),
    {
        let cells: Vec<Option<Tile>> = vec![None; 676];
        let b = Board { cells };
        proof {
            assert forall|r: int, c: int| 0 <= r < 26 && 0 <= c < 26 implies b.cell(r, c) is None by {
                assert(0 <= r * 26 + c < 676) by (nonlinear_arith)
                    requires 0 <= r < 26 && 0 <= c < 26;
            }
        }
        b
    }

    /// Runtime check of the grid's shape, for callers that cannot know
    /// it statically.
    pub fn wf_check(&self) -> (b: bool)
        ensures
            b == self.wf(),
    {
        self.cells.len() == 676
    }

    pub fn get(&self, r: usize, c: usize) -> (t: Option<Tile>)
        requires
            self.wf(),
            r < 26,
            c < 26,
        ensures
            t == self.cell(r as int, c as int),
    {
        proof {
            assert(0 <= r * 26 + c < 676) by (nonlinear_arith)
                requires r < 26 && c < 26;
        }
        self.cells[r * 26 + c]
    }

    /// Writes one cell; every other cell keeps its value.
    pub fn set(&mut self, r: usize, c: usize, t: Option<Tile>)
        requires
            old(self).wf(),
            r < 26,
            c < 26,
        ensures
            final(self).wf(),
            final(self).cell(r as int, c as int) == t,
            forall|r2: int, c2: int|
                0 <= r2 < 26 && 0 <= c2 < 26 && !(r2 == r as int && c2 == c as int)
                    ==> final(self).cell(r2, c2) == old(self).cell(r2, c2),
    {
        proof {
            assert(0 <= r * 26 + c < 676) by (nonlinear_arith)
                requires r < 26 && c < 26;
        }
        self.cells[r * 26 + c] = t;
        proof {
            assert forall|r2: int, c2: int|
                0 <= r2 < 26 && 0 <= c2 < 26 && !(r2 == r as int && c2 == c as int)
                    implies final(self).cell(r2, c2) == old(self).cell(r2, c2) by {
                assert(r2 * 26 + c2 != r * 26 + c && 0 <= r2 * 26 + c2 < 676) by (nonlinear_arith)
                    requires
                        0 <= r2 < 26 && 0 <= c2 < 26 && r < 26 && c < 26
                            && !(r2 == r as int && c2 == c as int);
            }
        }
    }
}

// ---------------------------------------------------------------------
// The mathematical model of validation: maximal runs of occupied cells.
// ---------------------------------------------------------------------

/// Cell `i` of the line is occupied.
pub open spec fn occ(line: Line, i: int) -> bool {
    0 <= i < line.len() && line[i] is Some
}

/// Cell `i` opens a maximal run: occupied, with no occupied cell before it.
pub open spec fn is_start(line: Line, i: int) -> bool {
    occ(line, i) && (i == 0 || !occ(line, i - 1))
}

/// First index at or after `i` that is unoccupied (or the line's end):
/// the exclusive end of the run through `i`.
pub open spec fn run_end(line: Line, i: int) -> int
    decreases line.len() - i when 0 <= i <= line.len()
{
    if i >= line.len() || !occ(line, i) {
        i
    } else {
        run_end(line, i + 1)
    }
}

/// The word spelled by the run opening at `s`.
pub open spec fn run_word(line: Line, s: int) -> Seq<char> {
    Seq::new((run_end(line, s) - s) as nat, |k: int| line[s + k]->Some_0.ch)
}

/// The run opening at `s` holds at least one tile of player `pid`:
/// the run was (partly) laid in this turn.
pub open spec fn run_in_turn(line: Line, s: int, pid: u32) -> bool {
    exists|k: int| s <= k < run_end(line, s) && line[k]->Some_0.owner == pid
}

/// The run opening at `s` contributes to the scored word list: it spells
/// a dictionary word and touches the finishing player's tiles.
pub open spec fn run_scored(line: Line, dict: Set<Seq<char>>, pid: u32, s: int) -> bool {
    dict.contains(run_word(line, s)) && run_in_turn(line, s, pid)
}

/// The words scored by the runs of `line` that open at or after `i`,
/// in order of position.
pub open spec fn line_words(line: Line, dict: Set<Seq<char>>, pid: u32, i: int) -> Seq<Seq<char>>
    decreases line.len() - i when 0 <= i
{
    if i >= line.len() {
        Seq::empty()
    } else if is_start(line, i) && run_scored(line, dict, pid, i) {
        seq![run_word(line, i)] + line_words(line, dict, pid, i + 1)
    } else {
        line_words(line, dict, pid, i + 1)
    }
}

/// Cell `(r, c)` lies on a horizontal run that spells a dictionary word.
pub open spec fn hcovered(b: Board, dict: Set<Seq<char>>, r: int, c: int) -> bool {
    exists|s: int|
        is_start(b.row(r), s) && s <= c < run_end(b.row(r), s) && dict.contains(
            run_word(b.row(r), s),
        )
}

/// The vertical run opening at `s` in column `c` is acceptable: it spells
/// a dictionary word itself, or every one of its cells lies on a
/// horizontal dictionary word.
pub open spec fn col_run_ok(b: Board, dict: Set<Seq<char>>, c: int, s: int) -> bool {
    dict.contains(run_word(b.col(c), s)) || (forall|k: int|
        s <= k < run_end(b.col(c), s) ==> hcovered(b, dict, k, c))
}

/// Every vertical run of the board is acceptable: the whole move passes.
pub open spec fn cols_ok(b: Board, dict: Set<Seq<char>>) -> bool {
    forall|c: int, s: int| 0 <= c < 26 && is_start(b.col(c), s) ==> col_run_ok(b, dict, c, s)
}

/// The scored words of rows `0 .. r`, row-major.
pub open spec fn rows_words(b: Board, dict: Set<Seq<char>>, pid: u32, r: int) -> Seq<Seq<char>>
    decreases r when r >= 0
{
    if r <= 0 {
        Seq::empty()
    } else {
        rows_words(b, dict, pid, r - 1) + line_words(b.row(r - 1), dict, pid, 0)
    }
}

/// The scored words of columns `0 .. c`, column-major.
pub open spec fn cols_words(b: Board, dict: Set<Seq<char>>, pid: u32, c: int) -> Seq<Seq<char>>
    decreases c when c >= 0
{
    if c <= 0 {
        Seq::empty()
    } else {
        cols_words(b, dict, pid, c - 1) + line_words(b.col(c - 1), dict, pid, 0)
    }
}

/// What validation returns: the scored words of both passes when every
/// vertical run is acceptable, or rejection.
pub open spec fn spec_validate(b: Board, dict: Set<Seq<char>>, pid: u32) -> Option<Seq<Seq<char>>> {
    if cols_ok(b, dict) {
        Some(rows_words(b, dict, pid, 26) + cols_words(b, dict, pid, 26))
    } else {
        None
    }
}

// ---------------------------------------------------------------------
// Facts about runs.
// ---------------------------------------------------------------------

/// The end of a run lies after its start and within the line, every cell
/// before it is occupied, and the cell at it (if any) is not.
pub proof fn lemma_run_end(line: Line, i: int)
    requires
        0 <= i <= line.len(),
    ensures
        i <= run_end(line, i) <= line.len(),
        forall|k: int| i <= k < run_end(line, i) ==> occ(line, k),
        run_end(line, i) < line.len() ==> !occ(line, run_end(line, i)),
        occ(line, i) ==> run_end(line, i) > i,
    decreases line.len() - i,
{
    if i < line.len() && occ(line, i) {
        lemma_run_end(line, i + 1);
    }
}

/// Two cells of one run see the same run end.
pub proof fn lemma_run_end_same(line: Line, s: int, k: int)
    requires
        0 <= s <= k <= line.len(),
        forall|j: int| s <= j < k ==> occ(line, j),
    ensures
        run_end(line, s) == run_end(line, k),
    decreases k - s,
{
    if s < k {
        lemma_run_end_same(line, s + 1, k);
    }
}

/// Every occupied cell lies in exactly one maximal run; this gives the run.
pub proof fn lemma_occ_in_run(line: Line, c: int)
    requires
        occ(line, c),
    ensures
        exists|s: int| is_start(line, s) && s <= c < run_end(line, s),
    decreases c,
{
    if is_start(line, c) {
        lemma_run_end(line, c);
        assert(is_start(line, c) && c <= c < run_end(line, c));
    } else {
        lemma_occ_in_run(line, c - 1);
        let s = choose|s: int| is_start(line, s) && s <= c - 1 < run_end(line, s);
        lemma_run_end(line, s);
        lemma_run_end_same(line, s, c);
        lemma_run_end(line, c);
        assert(s <= c < run_end(line, s));
    }
}

/// A stretch with no run start contributes no scored word.
pub proof fn lemma_line_words_skip(line: Line, dict: Set<Seq<char>>, pid: u32, a: int, b: int)
    requires
        0 <= a <= b <= line.len(),
        forall|k: int| a <= k < b ==> !is_start(line, k),
    ensures
        line_words(line, dict, pid, a) == line_words(line, dict, pid, b),
    decreases b - a,
{
    if a < b {
        lemma_line_words_skip(line, dict, pid, a + 1, b);
    }
}

/// Past the line's end there is nothing left to score.
pub proof fn lemma_line_words_end(line: Line, dict: Set<Seq<char>>, pid: u32, a: int)
    requires
        0 <= a,
        forall|k: int| a <= k < line.len() ==> !is_start(line, k),
    ensures
        line_words(line, dict, pid, a) == Seq::<Seq<char>>::empty(),
{
    if a <= line.len() {
        lemma_line_words_skip(line, dict, pid, a, line.len() as int);
    }
}

// ---------------------------------------------------------------------
// Executable scanning.
// ---------------------------------------------------------------------

impl Board {
    /// Row `r` as a vector of cells.
    fn row_vec(&self, r: usize) -> (line: Vec<Option<Tile>>)
        requires
            self.wf(),
            r < 26,
        ensures
            line@ == self.row(r as int),
    {
        let mut line: Vec<Option<Tile>> = Vec::new();
        let mut c: usize = 0;
        while c < 26
            invariant
                self.wf(),
                r < 26,
                c <= 26,
                line@ == self.row(r as int).take(c as int),
            decreases 26 - c,
        {
            line.push(self.get(r, c));
            proof {
                assert(line@ =~= self.row(r as int).take(c + 1));
            }
            c = c + 1;
        }
        proof {
            assert(line@ =~= self.row(r as int));
        }
        line
    }

    /// Column `c` as a vector of cells.
    fn col_vec(&self, c: usize) -> (line: Vec<Option<Tile>>)
        requires
            self.wf(),
            c < 26,
        ensures
            line@ == self.col(c as int),
    {
        let mut line: Vec<Option<Tile>> = Vec::new();
        let mut r: usize = 0;
        while r < 26
            invariant
                self.wf(),
                c < 26,
                r <= 26,
                line@ == self.col(c as int).take(r as int),
            decreases 26 - r,
        {
            line.push(self.get(r, c));
            proof {
                assert(line@ =~= self.col(c as int).take(r + 1));
            }
            r = r + 1;
        }
        proof {
            assert(line@ =~= self.col(c as int));
        }
        line
    }
}

/// A runs list describes exactly the maximal runs of the line, in order.
pub open spec fn runs_wf(line: Line, runs: Seq<(usize, usize)>) -> bool {
    &&& forall|j: int|
        0 <= j < runs.len() ==> is_start(line, #[trigger] runs[j].0 as int) && runs[j].1 == run_end(
            line,
            runs[j].0 as int,
        ) && runs[j].1 <= line.len()
    &&& forall|j2: int, j3: int|
        0 <= j2 < j3 < runs.len() ==> #[trigger] runs[j2].1 <= #[trigger] runs[j3].0
    &&& forall|k: int| is_start(line, k) ==> exists|j: int|
        0 <= j < runs.len() && #[trigger] runs[j].0 == k
}

/// The scan position after the first `j` runs: the end of run `j - 1`,
/// or the line's beginning.
pub open spec fn runs_pos(runs: Seq<(usize, usize)>, j: int) -> int {
    if j <= 0 {
        0
    } else {
        runs[j - 1].1 as int
    }
}

/// No maximal run opens between the end of run `j - 1` and the start of
/// run `j` (or the line's end, after the last run).
proof fn lemma_no_start_in_gap(line: Line, runs: Seq<(usize, usize)>, j: int, k: int)
    requires
        runs_wf(line, runs),
        0 <= j <= runs.len(),
        runs_pos(runs, j) <= k,
        j < runs.len() ==> k < runs[j].0 as int,
        j == runs.len() ==> k < line.len(),
    ensures
        !is_start(line, k),
{
    if is_start(line, k) {
        let j2 = choose|j2: int| 0 <= j2 < runs.len() && #[trigger] runs[j2].0 == k;
        lemma_run_end(line, runs[j2].0 as int);
        if j2 < j - 1 {
            assert(runs[j2].1 <= runs[j - 1].0);
            lemma_run_end(line, runs[j - 1].0 as int);
        } else if j2 == j - 1 {
        } else if j2 > j && j < runs.len() {
            assert(runs[j].1 <= runs[j2].0);
            lemma_run_end(line, runs[j].0 as int);
        }
    }
}

/// Scanning from the position after run `j - 1` up to run `j` (or the
/// line's end) adds no scored word.
proof fn lemma_gap_words(line: Line, runs: Seq<(usize, usize)>, j: int, dict: Set<Seq<char>>, pid: u32)
    requires
        runs_wf(line, runs),
        0 <= j <= runs.len(),
        runs_pos(runs, j) <= line.len(),
    ensures
        j < runs.len() ==> line_words(line, dict, pid, runs_pos(runs, j)) == line_words(
            line,
            dict,
            pid,
            runs[j].0 as int,
        ),
        j == runs.len() ==> line_words(line, dict, pid, runs_pos(runs, j)) == Seq::<
            Seq<char>,
        >::empty(),
{
    let pos = runs_pos(runs, j);
    if j < runs.len() {
        let s = runs[j].0 as int;
        assert(is_start(line, s));
        if j > 0 {
            assert(runs[j - 1].1 <= runs[j].0);
        }
        assert forall|k: int| pos <= k < s implies !is_start(line, k) by {
            lemma_no_start_in_gap(line, runs, j, k);
        }
        lemma_line_words_skip(line, dict, pid, pos, s);
    } else {
        assert forall|k: int| pos <= k < line.len() implies !is_start(line, k) by {
            lemma_no_start_in_gap(line, runs, j, k);
        }
        lemma_line_words_skip(line, dict, pid, pos, line.len() as int);
        lemma_line_words_end(line, dict, pid, line.len() as int);
    }
}

/// Processing run `j` contributes its scored word (if any) and moves the
/// scan position to the run's end.
proof fn lemma_run_step(line: Line, runs: Seq<(usize, usize)>, j: int, dict: Set<Seq<char>>, pid: u32)
    requires
        runs_wf(line, runs),
        0 <= j < runs.len(),
    ensures
        line_words(line, dict, pid, runs[j].0 as int) == (if run_scored(
            line,
            dict,
            pid,
            runs[j].0 as int,
        ) {
            seq![run_word(line, runs[j].0 as int)]
        } else {
            Seq::<Seq<char>>::empty()
        }) + line_words(line, dict, pid, runs_pos(runs, j + 1)),
{
    let s = runs[j].0 as int;
    let e = runs[j].1 as int;
    assert(is_start(line, s));
    lemma_run_end(line, s);
    assert forall|k: int| s + 1 <= k < e implies !is_start(line, k) by {
        assert(occ(line, k - 1));
    }
    lemma_line_words_skip(line, dict, pid, s + 1, e);
    if !(is_start(line, s) && run_scored(line, dict, pid, s)) {
        assert(Seq::<Seq<char>>::empty() + line_words(line, dict, pid, e) =~= line_words(
            line,
            dict,
            pid,
            e,
        ));
    }
}

/// Flat index of cell `(r, c)` in the grid.
proof fn lemma_grid_idx(r: int, c: int)
    requires
        0 <= r < 26,
        0 <= c < 26,
    ensures
        0 <= r * 26 + c < 676,
{
    assert(0 <= r * 26 + c < 676) by (nonlinear_arith)
        requires 0 <= r < 26 && 0 <= c < 26;
}

/// Cells of different rows have flat indices in disjoint stretches.
proof fn lemma_grid_row_sep(rr: int, c: int, r: int, lo: int, hi: int)
    requires
        0 <= rr < 26,
        0 <= c < 26,
        0 <= r < 26,
        rr != r,
        0 <= lo,
        hi <= 26,
    ensures
        rr * 26 + c < r * 26 + lo || rr * 26 + c >= r * 26 + hi,
{
    assert(rr * 26 + c < r * 26 + lo || rr * 26 + c >= r * 26 + hi) by (nonlinear_arith)
        requires
            0 <= rr < 26 && 0 <= c < 26 && 0 <= r < 26 && rr != r && 0 <= lo && hi <= 26;
}

/// The maximal runs of a line, in order: each pair is a run's start and
/// its exclusive end, and together they cover every run of the line.
fn line_runs(line: &Vec<Option<Tile>>) -> (runs: Vec<(usize, usize)>)
    requires
        line@.len() == 26,
    ensures
        runs_wf(line@, runs@),
{
    let mut runs: Vec<(usize, usize)> = Vec::new();
    let mut i: usize = 0;
    while i < 26
        invariant
            line@.len() == 26,
            i <= 26,
            forall|j: int|
                0 <= j < runs@.len() ==> is_start(line@, #[trigger] runs@[j].0 as int)
                    && runs@[j].1 == run_end(line@, runs@[j].0 as int) && runs@[j].1 <= i,
            forall|j2: int, j3: int|
                0 <= j2 < j3 < runs@.len() ==> #[trigger] runs@[j2].1 <= #[trigger] runs@[j3].0,
            forall|k: int| is_start(line@, k) && k < i ==> exists|j: int|
                0 <= j < runs@.len() && #[trigger] runs@[j].0 == k,
        decreases 26 - i,
    {
        let ghost runs0 = runs@;
        let is_run_start = line[i].is_some() && (i == 0 || line[i - 1].is_none());
        if is_run_start {
            proof {
                assert(occ(line@, i as int));
                assert(is_start(line@, i as int));
            }
            let mut j = i + 1;
            while j < 26 && line[j].is_some()
                invariant
                    line@.len() == 26,
                    i < j <= 26,
                    forall|k: int| i <= k < j ==> occ(line@, k),
                decreases 26 - j,
            {
                j = j + 1;
            }
            proof {
                assert(j == 26 || !occ(line@, j as int));
                lemma_run_end_same(line@, i as int, j as int);
                // j is unoccupied or the line's end, so the run ends there
                assert(run_end(line@, j as int) == j);
            }
            runs.push((i, j));
            proof {
                assert(runs@ == runs0.push((i, j)));
                assert forall|j2: int, j3: int| 0 <= j2 < j3 < runs@.len() implies #[trigger] runs@[j2].1
                    <= #[trigger] runs@[j3].0 by {
                    if j3 == runs0.len() as int {
                        assert(is_start(line@, runs0[j2].0 as int));
                        assert(runs0[j2].1 <= i);
                    } else {
                        assert(runs0[j2].1 <= runs0[j3].0);
                    }
                }
                assert forall|k: int| is_start(line@, k) && k < j as int implies exists|j2: int|
                    0 <= j2 < runs@.len() && #[trigger] runs@[j2].0 == k by {
                    if k < i as int {
                        let j2 = choose|j2: int| 0 <= j2 < runs0.len() && #[trigger] runs0[j2].0 == k;
                        assert(runs@[j2].0 == k);
                    } else if k == i as int {
                        assert(runs@[runs@.len() - 1].0 == k);
                    } else {
                        // inside the run: the previous cell is occupied
                        assert(occ(line@, k - 1));
                        assert(false);
                    }
                }
            }
            i = j;
        } else {
            proof {
                assert(!is_start(line@, i as int));
                assert forall|k: int| is_start(line@, k) && k < i + 1 implies exists|j2: int|
                    0 <= j2 < runs@.len() && #[trigger] runs@[j2].0 == k by {
                    assert(k < i as int || k == i as int);
                }
            }
            i = i + 1;
        }
    }
    proof {
        assert forall|k: int| is_start(line@, k) implies exists|j: int|
            0 <= j < runs@.len() && #[trigger] runs@[j].0 == k by {
            assert(0 <= k < 26);
        }
    }
    runs
}

/// The word spelled by the run `[s, e)` of the line.
fn run_word_of(line: &Vec<Option<Tile>>, s: usize, e: usize) -> (w: String)
    requires
        line@.len() == 26,
        is_start(line@, s as int),
        e == run_end(line@, s as int),
        e <= 26,
    ensures
        w@ == run_word(line@, s as int),
{
    proof {
        lemma_run_end(line@, s as int);
    }
    let mut w = String::new();
    let mut k = s;
    while k < e
        invariant
            line@.len() == 26,
            s <= k <= e,
            e == run_end(line@, s as int),
            e <= 26,
            forall|j: int| s <= j < e ==> occ(line@, j),
            w@ == run_word(line@, s as int).take(k - s),
        decreases e - k,
    {
        proof {
            assert(occ(line@, k as int));
        }
        let t = line[k].unwrap();
        crate::ext::string_push(&mut w, t.ch);
        proof {
            assert(w@ =~= run_word(line@, s as int).take(k + 1 - s));
        }
        k = k + 1;
    }
    proof {
        assert(w@ =~= run_word(line@, s as int));
    }
    w
}

impl Board {
    /// First pass: scan every row, collect the scored horizontal words,
    /// and mark each cell that lies on a horizontal dictionary word.
    fn scan_rows(&self, dict: &WordSet, pid: u32) -> (res: (Vec<String>, Vec<bool>))
        requires
            self.wf(),
        ensures
            res.1@.len() == 676,
            forall|rr: int, c: int|
                0 <= rr < 26 && 0 <= c < 26 ==> res.1@[rr * 26 + c] == hcovered(
                    *self,
                    dict@,
                    rr,
                    c,
                ),
            res.0.deep_view() == rows_words(*self, dict@, pid, 26),
    {
        let ghost b = *self;
        let ghost d = dict@;
        let mut words: Vec<String> = Vec::new();
        let mut marks: Vec<bool> = vec![false; 676];
        proof {
            assert(words.deep_view() =~= rows_words(b, d, pid, 0));
            assert forall|rr: int, c: int| 0 <= rr < 26 && 0 <= c < 26 implies !(
            #[trigger] marks@[rr * 26 + c]) by {
                lemma_grid_idx(rr, c);
            }
        }
        let mut r: usize = 0;
        while r < 26
            invariant
                self.wf(),
                b == *self,
                d == dict@,
                marks@.len() == 676,
                r <= 26,
                words.deep_view() == rows_words(b, d, pid, r as int),
                forall|rr: int, c: int|
                    0 <= rr < 26 && 0 <= c < 26 ==> #[trigger] marks@[rr * 26 + c] == (rr
                        < r as int && hcovered(b, d, rr, c)),
            decreases 26 - r,
        {
            let line = self.row_vec(r);
            let runs = line_runs(&line);
            let ghost words_r = words.deep_view();
            proof {
                assert forall|c: int| 0 <= c < 26 implies !(#[trigger] marks@[r as int * 26
                    + c]) by {
                    assert(marks@[r as int * 26 + c] == (((r as int) < r as int) && hcovered(
                        b,
                        d,
                        r as int,
                        c,
                    )));
                }
            }
            let mut j: usize = 0;
            while j < runs.len()
                invariant
                    self.wf(),
                    b == *self,
                    d == dict@,
                    marks@.len() == 676,
                    r < 26,
                    line@ == b.row(r as int),
                    runs_wf(line@, runs@),
                    j <= runs@.len(),
                    words_r == rows_words(b, d, pid, r as int),
                    words_r + line_words(line@, d, pid, 0) == words.deep_view() + line_words(
                        line@,
                        d,
                        pid,
                        runs_pos(runs@, j as int),
                    ),
                    forall|rr: int, c: int|
                        0 <= rr < 26 && 0 <= c < 26 && rr != r as int ==> #[trigger] marks@[rr * 26
                            + c] == (rr < r as int && hcovered(b, d, rr, c)),
                    forall|c: int|
                        0 <= c < 26 ==> #[trigger] marks@[r as int * 26 + c] == exists|j2: int|
                            0 <= j2 < j as int && (#[trigger] runs@[j2].0 as int) <= c
                                < runs@[j2].1 as int && d.contains(
                                run_word(line@, runs@[j2].0 as int),
                            ),
                decreases runs@.len() - j,
            {
                let (s, e) = runs[j];
                proof {
                    assert(is_start(line@, s as int));
                    assert(e == run_end(line@, s as int) && e <= 26);
                    lemma_run_end(line@, s as int);
                    lemma_gap_words(line@, runs@, j as int, d, pid);
                    lemma_run_step(line@, runs@, j as int, d, pid);
                }
                let ghost marks0 = marks@;
                let w = run_word_of(&line, s, e);
                let in_dict = dict.contains(&w);
                if in_dict {
                    let mut cpos = s;
                    while cpos < e
                        invariant
                            marks@.len() == 676,
                            marks0.len() == 676,
                            s <= cpos <= e,
                            e <= 26,
                            s < 26,
                            r < 26,
                            forall|i: int|
                                0 <= i < 676 && !(r as int * 26 + s as int <= i < r as int * 26
                                    + cpos as int) ==> marks@[i] == marks0[i],
                            forall|cc: int|
                                s as int <= cc < cpos as int ==> #[trigger] marks@[r as int * 26
                                    + cc],
                        decreases e - cpos,
                    {
                        proof {
                            lemma_grid_idx(r as int, cpos as int);
                        }
                        marks[r * 26 + cpos] = true;
                        cpos = cpos + 1;
                    }
                    if run_has_player(&line, s, e, pid) {
                        let ghost dv0 = words.deep_view();
                        words.push(w);
                        proof {
                            assert(words.deep_view() =~= dv0.push(w@));
                        }
                    }
                } else {
                    proof {
                        assert(!run_scored(line@, d, pid, s as int));
                        assert(words.deep_view() + Seq::<Seq<char>>::empty() =~= words.deep_view());
                    }
                }
                proof {
                    // words equation for j + 1
                    if in_dict && run_in_turn(line@, s as int, pid) {
                        assert(run_scored(line@, d, pid, s as int));
                    } else {
                        assert(!run_scored(line@, d, pid, s as int));
                        assert(words.deep_view() + Seq::<Seq<char>>::empty() =~= words.deep_view());
                    }
                    assert(words_r + line_words(line@, d, pid, 0) =~= words.deep_view()
                        + line_words(line@, d, pid, runs_pos(runs@, j as int + 1)));
                    // marks for rows other than r are untouched
                    assert forall|rr: int, c: int|
                        0 <= rr < 26 && 0 <= c < 26 && rr != r as int implies #[trigger] marks@[rr
                            * 26 + c] == (rr < r as int && hcovered(b, d, rr, c)) by {
                        lemma_grid_idx(rr, c);
                        lemma_grid_row_sep(rr, c, r as int, s as int, e as int);
                        assert(marks@[rr * 26 + c] == marks0[rr * 26 + c]);
                    }
                    // marks of row r describe the runs processed so far
                    assert forall|c: int| 0 <= c < 26 implies #[trigger] marks@[r as int * 26 + c]
                        == exists|j2: int|
                        0 <= j2 < j as int + 1 && (#[trigger] runs@[j2].0 as int) <= c
                            < runs@[j2].1 as int && d.contains(
                            run_word(line@, runs@[j2].0 as int),
                        ) by {
                        lemma_grid_idx(r as int, c);
                        if in_dict && s as int <= c < e as int {
                            assert(marks@[r as int * 26 + c]);
                            assert((runs@[j as int].0 as int) <= c < runs@[j as int].1 as int
                                && d.contains(run_word(line@, runs@[j as int].0 as int)));
                        } else {
                            assert(marks@[r as int * 26 + c] == marks0[r as int * 26 + c]);
                            if marks@[r as int * 26 + c] {
                                let j2 = choose|j2: int|
                                    0 <= j2 < j as int && (#[trigger] runs@[j2].0 as int) <= c
                                        < runs@[j2].1 as int && d.contains(
                                        run_word(line@, runs@[j2].0 as int),
                                    );
                                assert(0 <= j2 < j as int + 1 && (runs@[j2].0 as int) <= c
                                    < runs@[j2].1 as int);
                            } else {
                                if exists|j2: int|
                                    0 <= j2 < j as int + 1 && (#[trigger] runs@[j2].0 as int) <= c
                                        < runs@[j2].1 as int && d.contains(
                                        run_word(line@, runs@[j2].0 as int),
                                    ) {
                                    let j2 = choose|j2: int|
                                        0 <= j2 < j as int + 1 && (#[trigger] runs@[j2].0 as int)
                                            <= c < runs@[j2].1 as int && d.contains(
                                            run_word(line@, runs@[j2].0 as int),
                                        );
                                    assert(j2 == j as int ==> (in_dict && s as int <= c
                                        < e as int));
                                    assert(j2 < j as int);
                                    assert(false);
                                }
                            }
                        }
                    }
                }
                j = j + 1;
            }
            proof {
                if j > 0 {
                    assert(is_start(line@, runs@[j as int - 1].0 as int));
                }
                lemma_gap_words(line@, runs@, j as int, d, pid);
                assert(words.deep_view() + Seq::<Seq<char>>::empty() =~= words.deep_view());
                assert(words.deep_view() =~= words_r + line_words(line@, d, pid, 0));
                assert(rows_words(b, d, pid, r as int + 1) == rows_words(b, d, pid, r as int)
                    + line_words(b.row(r as int), d, pid, 0));
                // a cell of row r is marked exactly when a horizontal
                // dictionary word covers it
                assert forall|c: int| 0 <= c < 26 implies marks@[r as int * 26 + c] == hcovered(
                    b,
                    d,
                    r as int,
                    c,
                ) by {
                    lemma_grid_idx(r as int, c);
                    if marks@[r as int * 26 + c] {
                        let j2 = choose|j2: int|
                            0 <= j2 < j as int && (#[trigger] runs@[j2].0 as int) <= c
                                < runs@[j2].1 as int && d.contains(
                                run_word(line@, runs@[j2].0 as int),
                            );
                        assert(is_start(b.row(r as int), runs@[j2].0 as int));
                        assert(hcovered(b, d, r as int, c));
                    } else {
                        if hcovered(b, d, r as int, c) {
                            let s2 = choose|s2: int|
                                is_start(b.row(r as int), s2) && s2 <= c < run_end(
                                    b.row(r as int),
                                    s2,
                                ) && d.contains(run_word(b.row(r as int), s2));
                            let j2 = choose|j2: int|
                                0 <= j2 < runs@.len() && #[trigger] runs@[j2].0 == s2;
                            assert((runs@[j2].0 as int) <= c < runs@[j2].1 as int);
                            assert(false);
                        }
                    }
                }
            }
            r = r + 1;
        }
        (words, marks)
    }
}

impl Board {
    /// Second pass: scan every column. A vertical run that spells a
    /// dictionary word scores (when laid this turn); one that does not
    /// must lie wholly on marked cells, else the whole move is rejected.
    fn scan_cols(&self, dict: &WordSet, pid: u32, marks: &Vec<bool>, words: &mut Vec<String>) -> (ok:
        bool)
        requires
            self.wf(),
            marks@.len() == 676,
            forall|rr: int, cc: int|
                0 <= rr < 26 && 0 <= cc < 26 ==> #[trigger] marks@[rr * 26 + cc] == hcovered(
                    *self,
                    dict@,
                    rr,
                    cc,
                ),
        ensures
            ok == cols_ok(*self, dict@),
            ok ==> final(words).deep_view() == old(words).deep_view() + cols_words(
                *self,
                dict@,
                pid,
                26,
            ),
    {
        let ghost b = *self;
        let ghost d = dict@;
        let ghost words_in = words.deep_view();
        proof {
            assert(words.deep_view() =~= words_in + cols_words(b, d, pid, 0));
        }
        let mut c: usize = 0;
        while c < 26
            invariant
                self.wf(),
                b == *self,
                d == dict@,
                marks@.len() == 676,
                c <= 26,
                forall|rr: int, cc: int|
                    0 <= rr < 26 && 0 <= cc < 26 ==> #[trigger] marks@[rr * 26 + cc] == hcovered(
                        b,
                        d,
                        rr,
                        cc,
                    ),
                words.deep_view() == words_in + cols_words(b, d, pid, c as int),
                forall|c2: int, s: int|
                    0 <= c2 < c as int && is_start(b.col(c2), s) ==> col_run_ok(b, d, c2, s),
            decreases 26 - c,
        {
            let line = self.col_vec(c);
            let runs = line_runs(&line);
            let ghost words_c = words.deep_view();
            let mut j: usize = 0;
            while j < runs.len()
                invariant
                    self.wf(),
                    b == *self,
                    d == dict@,
                    marks@.len() == 676,
                    c < 26,
                    line@ == b.col(c as int),
                    runs_wf(line@, runs@),
                    j <= runs@.len(),
                    forall|rr: int, cc: int|
                        0 <= rr < 26 && 0 <= cc < 26 ==> #[trigger] marks@[rr * 26 + cc]
                            == hcovered(b, d, rr, cc),
                    words_c == words_in + cols_words(b, d, pid, c as int),
                    words_c + line_words(line@, d, pid, 0) == words.deep_view() + line_words(
                        line@,
                        d,
                        pid,
                        runs_pos(runs@, j as int),
                    ),
                    forall|j2: int|
                        0 <= j2 < j as int ==> col_run_ok(b, d, c as int, #[trigger] runs@[j2].0 as int),
                decreases runs@.len() - j,
            {
                let (s, e) = runs[j];
                proof {
                    assert(is_start(line@, s as int));
                    assert(e == run_end(line@, s as int) && e <= 26);
                    lemma_run_end(line@, s as int);
                    lemma_gap_words(line@, runs@, j as int, d, pid);
                    lemma_run_step(line@, runs@, j as int, d, pid);
                }
                let w = run_word_of(&line, s, e);
                if dict.contains(&w) {
                    if run_has_player(&line, s, e, pid) {
                        let ghost dv0 = words.deep_view();
                        words.push(w);
                        proof {
                            assert(words.deep_view() =~= dv0.push(w@));
                        }
                    } else {
                        proof {
                            assert(!run_scored(line@, d, pid, s as int));
                            assert(words.deep_view() + Seq::<Seq<char>>::empty()
                                =~= words.deep_view());
                        }
                    }
                } else {
                    // not a dictionary word: every cell must carry a mark
                    proof {
                        assert(!run_scored(line@, d, pid, s as int));
                        assert(words.deep_view() + Seq::<Seq<char>>::empty() =~= words.deep_view());
                    }
                    let mut k = s;
                    while k < e
                        invariant
                            self.wf(),
                            b == *self,
                            d == dict@,
                            marks@.len() == 676,
                            c < 26,
                            line@ == b.col(c as int),
                            s <= k <= e,
                            e <= 26,
                            is_start(line@, s as int),
                            e == run_end(line@, s as int),
                            !d.contains(run_word(line@, s as int)),
                            forall|rr: int, cc: int|
                                0 <= rr < 26 && 0 <= cc < 26 ==> #[trigger] marks@[rr * 26 + cc]
                                    == hcovered(b, d, rr, cc),
                            forall|kk: int| s as int <= kk < k as int ==> hcovered(b, d, kk, c as int),
                        decreases e - k,
                    {
                        proof {
                            lemma_grid_idx(k as int, c as int);
                        }
                        if !marks[k * 26 + c] {
                            proof {
                                // this vertical run is neither a word nor covered:
                                // the board is rejected
                                assert(is_start(b.col(c as int), s as int));
                                assert(!hcovered(b, d, k as int, c as int));
                                assert(!col_run_ok(b, d, c as int, s as int));
                                assert(!cols_ok(b, d));
                            }
                            return false;
                        }
                        k = k + 1;
                    }
                }
                proof {
                    assert(col_run_ok(b, d, c as int, s as int));
                    assert(words_c + line_words(line@, d, pid, 0) =~= words.deep_view()
                        + line_words(line@, d, pid, runs_pos(runs@, j as int + 1)));
                }
                j = j + 1;
            }
            proof {
                if j > 0 {
                    assert(is_start(line@, runs@[j as int - 1].0 as int));
                }
                lemma_gap_words(line@, runs@, j as int, d, pid);
                assert(words.deep_view() + Seq::<Seq<char>>::empty() =~= words.deep_view());
                assert(words.deep_view() =~= words_c + line_words(line@, d, pid, 0));
                assert(cols_words(b, d, pid, c as int + 1) == cols_words(b, d, pid, c as int)
                    + line_words(b.col(c as int), d, pid, 0));
                // every vertical run of this column was found acceptable
                assert forall|s: int| is_start(b.col(c as int), s) implies col_run_ok(
                    b,
                    d,
                    c as int,
                    s,
                ) by {
                    let j2 = choose|j2: int| 0 <= j2 < runs@.len() && #[trigger] runs@[j2].0 == s;
                    assert(col_run_ok(b, d, c as int, runs@[j2].0 as int));
                }
            }
            c = c + 1;
        }
        proof {
            assert(cols_ok(b, d));
        }
        true
    }

    /// Validates the whole board for the finishing player `pid`: returns
    /// the scored words (rows first, then columns) when every vertical
    /// run is acceptable, or `None` to reject the move.
    pub fn validate(&self, dict: &WordSet, pid: u32) -> (r: Option<Vec<String>>)
        requires
            self.wf(),
        ensures
            r is Some <==> spec_validate(*self, dict@, pid) is Some,
            r is Some ==> r.unwrap().deep_view() == spec_validate(*self, dict@, pid).unwrap(),
    {
        let (mut words, marks) = self.scan_rows(dict, pid);
        let ok = self.scan_cols(dict, pid, &marks, &mut words);
        if ok {
            Some(words)
        } else {
            None
        }
    }
}

/// Whether the run `[s, e)` holds a tile of player `pid`.
fn run_has_player(line: &Vec<Option<Tile>>, s: usize, e: usize, pid: u32) -> (r: bool)
    requires
        line@.len() == 26,
        is_start(line@, s as int),
        e == run_end(line@, s as int),
        e <= 26,
    ensures
        r == run_in_turn(line@, s as int, pid),
{
    proof {
        lemma_run_end(line@, s as int);
    }
    let mut k = s;
    while k < e
        invariant
            line@.len() == 26,
            s <= k <= e,
            e == run_end(line@, s as int),
            e <= 26,
            forall|j: int| s <= j < e ==> occ(line@, j),
            forall|j: int| s <= j < k ==> line@[j]->Some_0.owner != pid,
        decreases e - k,
    {
        proof {
            assert(occ(line@, k as int));
        }
        let t = line[k].unwrap();
        if t.owner == pid {
            return true;
        }
        k = k + 1;
    }
    false
}


// ---------------------------------------------------------------------
// Laws of validation.
// ---------------------------------------------------------------------

/// A line with no tile at all has no run and scores nothing.
proof fn lemma_line_empty(line: Line, dict: Set<Seq<char>>, pid: u32)
    requires
        forall|i: int| 0 <= i < line.len() ==> !(#[trigger] line[i] is Some),
    ensures
        forall|i: int| !is_start(line, i),
        line_words(line, dict, pid, 0) == Seq::<Seq<char>>::empty(),
{
    assert forall|i: int| !is_start(line, i) by {
        if 0 <= i < line.len() {
            assert(!(line[i] is Some));
        }
    }
    lemma_line_words_end(line, dict, pid, 0);
}

/// On an empty board no row scores, whichever the dictionary.
proof fn lemma_rows_words_empty(b: Board, dict: Set<Seq<char>>, pid: u32, r: int)
    requires
        b.wf(),
        b.is_empty_board(),
        0 <= r <= 26,
    ensures
        rows_words(b, dict, pid, r) == Seq::<Seq<char>>::empty(),
    decreases r,
{
    if r > 0 {
        lemma_rows_words_empty(b, dict, pid, r - 1);
        lemma_line_empty(b.row(r - 1), dict, pid);
        assert(rows_words(b, dict, pid, r - 1) + line_words(b.row(r - 1), dict, pid, 0)
            =~= Seq::<Seq<char>>::empty());
    }
}

/// On an empty board no column scores either.
proof fn lemma_cols_words_empty(b: Board, dict: Set<Seq<char>>, pid: u32, c: int)
    requires
        b.wf(),
        b.is_empty_board(),
        0 <= c <= 26,
    ensures
        cols_words(b, dict, pid, c) == Seq::<Seq<char>>::empty(),
    decreases c,
{
    if c > 0 {
        lemma_cols_words_empty(b, dict, pid, c - 1);
        lemma_line_empty(b.col(c - 1), dict, pid);
        assert(cols_words(b, dict, pid, c - 1) + line_words(b.col(c - 1), dict, pid, 0)
            =~= Seq::<Seq<char>>::empty());
    }
}

/// An empty board validates successfully with the empty word list, for
/// every dictionary and every finishing player.
pub proof fn lemma_validate_empty(b: Board, dict: Set<Seq<char>>, pid: u32)
    requires
        b.wf(),
        b.is_empty_board(),
    ensures
        spec_validate(b, dict, pid) == Some(Seq::<Seq<char>>::empty()),
{
    assert forall|c: int, s: int| 0 <= c < 26 && is_start(b.col(c), s) implies col_run_ok(
        b,
        dict,
        c,
        s,
    ) by {
        lemma_line_empty(b.col(c), dict, pid);
    }
    lemma_rows_words_empty(b, dict, pid, 26);
    lemma_cols_words_empty(b, dict, pid, 26);
    assert(rows_words(b, dict, pid, 26) + cols_words(b, dict, pid, 26) =~= Seq::<
        Seq<char>,
    >::empty());
}

/// A line whose only tiles fill exactly `[s, e)` has exactly one run,
/// and scores exactly that run's word (when the run scores).
proof fn lemma_line_single_run(line: Line, dict: Set<Seq<char>>, pid: u32, s: int, e: int)
    requires
        0 <= s < e <= line.len(),
        forall|i: int| s <= i < e ==> #[trigger] line[i] is Some,
        forall|i: int| 0 <= i < line.len() && !(s <= i < e) ==> !(#[trigger] line[i] is Some),
    ensures
        forall|i: int| is_start(line, i) <==> i == s,
        run_end(line, s) == e,
        line_words(line, dict, pid, 0) == (if run_scored(line, dict, pid, s) {
            seq![run_word(line, s)]
        } else {
            Seq::<Seq<char>>::empty()
        }),
{
    assert forall|i: int| is_start(line, i) <==> i == s by {
        if 0 <= i < line.len() {
            if i == s {
                assert(occ(line, i));
                if i > 0 {
                    assert(!(line[i - 1] is Some));
                }
            } else if s < i < e {
                assert(line[i - 1] is Some);
            } else {
                assert(!(line[i] is Some));
            }
        }
    }
    lemma_run_end_same(line, s, e);
    assert(e == line.len() || !occ(line, e));
    assert(run_end(line, e) == e);
    assert forall|k: int| 0 <= k < s implies !is_start(line, k) by {}
    lemma_line_words_skip(line, dict, pid, 0, s);
    assert forall|k: int| s + 1 <= k < e implies !is_start(line, k) by {}
    lemma_line_words_skip(line, dict, pid, s + 1, e);
    lemma_line_words_end(line, dict, pid, e);
    if !run_scored(line, dict, pid, s) {
        assert(line_words(line, dict, pid, 0) =~= Seq::<Seq<char>>::empty());
    } else {
        assert(line_words(line, dict, pid, 0) =~= seq![run_word(line, s)]);
    }
}

/// A board holding one straight horizontal word laid by `pid` on an
/// otherwise empty grid: tiles fill exactly `(r, c0) .. (r, c0 + n)`.
pub open spec fn single_hword(b: Board, r: int, c0: int, n: int, pid: u32) -> bool {
    &&& b.wf()
    &&& 0 <= r < 26
    &&& 0 <= c0
    &&& 1 <= n
    &&& c0 + n <= 26
    &&& forall|c: int| c0 <= c < c0 + n ==> #[trigger] b.cell(r, c) is Some
    &&& forall|rr: int, cc: int|
        0 <= rr < 26 && 0 <= cc < 26 && !(rr == r && c0 <= cc < c0 + n) ==> !(#[trigger] b.cell(
            rr,
            cc,
        ) is Some)
    &&& exists|c: int| c0 <= c < c0 + n && (#[trigger] b.cell(r, c))->Some_0.owner == pid
}

/// The word such a board spells.
pub open spec fn hword_of(b: Board, r: int, c0: int, n: int) -> Seq<char> {
    Seq::new(n as nat, |k: int| b.cell(r, c0 + k)->Some_0.ch)
}

/// A single straight horizontal dictionary word, anywhere on an otherwise
/// empty board, is accepted and scores exactly that word — provided no
/// one of its letters is itself a dictionary word (a one-letter word
/// would score separately in the column pass).
pub proof fn lemma_validate_single_horizontal(
    b: Board,
    dict: Set<Seq<char>>,
    pid: u32,
    r: int,
    c0: int,
    n: int,
)
    requires
        single_hword(b, r, c0, n, pid),
        dict.contains(hword_of(b, r, c0, n)),
        forall|k: int| 0 <= k < n ==> !dict.contains(seq![(#[trigger] b.cell(r, c0 + k))->Some_0.ch]),
    ensures
        spec_validate(b, dict, pid) == Some(seq![hword_of(b, r, c0, n)]),
{
    let row = b.row(r);
    let w = hword_of(b, r, c0, n);
    // the one horizontal run spells w and scores
    assert forall|i: int| c0 <= i < c0 + n implies #[trigger] row[i] is Some by {}
    assert forall|i: int| 0 <= i < row.len() && !(c0 <= i < c0 + n) implies !(#[trigger] row[i]
        is Some) by {}
    lemma_line_single_run(row, dict, pid, c0, c0 + n);
    assert(run_word(row, c0) =~= w);
    let cw = choose|c: int| c0 <= c < c0 + n && (#[trigger] b.cell(r, c))->Some_0.owner == pid;
    assert(row[cw]->Some_0.owner == pid);
    assert(run_in_turn(row, c0, pid));
    assert(run_scored(row, dict, pid, c0));
    assert(line_words(row, dict, pid, 0) == seq![w]);
    // every other row is empty
    assert forall|rr: int| 0 <= rr < 26 && rr != r implies line_words(b.row(rr), dict, pid, 0)
        == Seq::<Seq<char>>::empty() && (forall|s: int| !is_start(b.row(rr), s)) by {
        assert forall|i: int| 0 <= i < b.row(rr).len() implies !(#[trigger] b.row(rr)[i]
            is Some) by {
            assert(!(b.cell(rr, i) is Some));
        }
        lemma_line_empty(b.row(rr), dict, pid);
    }
    // row words: exactly w
    lemma_rows_words_single(b, dict, pid, r, c0, n, 26);
    // columns: under the word a one-tile run, covered by the word; all
    // other columns empty
    assert forall|c: int, s: int| #![trigger is_start(b.col(c), s)]
        0 <= c < 26 && is_start(b.col(c), s) implies col_run_ok(b, dict, c, s) && !run_scored(
        b.col(c),
        dict,
        pid,
        s,
    ) by {
        let col = b.col(c);
        if c0 <= c < c0 + n {
            assert forall|i: int| r <= i < r + 1 implies #[trigger] col[i] is Some by {
                assert(b.cell(r, c) is Some);
            }
            assert forall|i: int| 0 <= i < col.len() && !(r <= i < r + 1) implies !(
            #[trigger] col[i] is Some) by {
                assert(!(b.cell(i, c) is Some));
            }
            lemma_line_single_run(col, dict, pid, r, r + 1);
            assert(s == r);
            assert(run_word(col, r) =~= seq![b.cell(r, c)->Some_0.ch]);
            assert(!dict.contains(seq![(#[trigger] b.cell(r, c0 + (c - c0)))->Some_0.ch]));
            assert(b.cell(r, c0 + (c - c0)) == b.cell(r, c));
            assert(!dict.contains(run_word(col, s)));
            assert forall|k: int| s <= k < run_end(col, s) implies hcovered(b, dict, k, c) by {
                assert(k == r);
                assert(is_start(b.row(r), c0) && c0 <= c < run_end(b.row(r), c0) && dict.contains(
                    run_word(b.row(r), c0),
                ));
            }
        } else {
            assert forall|i: int| 0 <= i < col.len() implies !(#[trigger] col[i] is Some) by {
                assert(!(b.cell(i, c) is Some));
            }
            lemma_line_empty(col, dict, pid);
            assert(false);
        }
    }
    // column words: none
    lemma_cols_words_none(b, dict, pid, 26);
    assert(seq![w] + Seq::<Seq<char>>::empty() =~= seq![w]);
}

/// Row words of a board whose only scoring row is `r` (helper for the
/// single-word law): rows `0 .. m` score `w` once `m` passes `r`.
proof fn lemma_rows_words_single(
    b: Board,
    dict: Set<Seq<char>>,
    pid: u32,
    r: int,
    c0: int,
    n: int,
    m: int,
)
    requires
        b.wf(),
        0 <= r < 26,
        0 <= m <= 26,
        line_words(b.row(r), dict, pid, 0) == seq![hword_of(b, r, c0, n)],
        forall|rr: int|
            0 <= rr < 26 && rr != r ==> line_words(#[trigger] b.row(rr), dict, pid, 0) == Seq::<
                Seq<char>,
            >::empty(),
    ensures
        rows_words(b, dict, pid, m) == (if m > r {
            seq![hword_of(b, r, c0, n)]
        } else {
            Seq::<Seq<char>>::empty()
        }),
    decreases m,
{
    if m > 0 {
        lemma_rows_words_single(b, dict, pid, r, c0, n, m - 1);
        if m - 1 == r {
            assert(rows_words(b, dict, pid, m) =~= seq![hword_of(b, r, c0, n)]);
        } else if m - 1 > r {
            assert(rows_words(b, dict, pid, m) =~= seq![hword_of(b, r, c0, n)]);
        } else {
            assert(rows_words(b, dict, pid, m) =~= Seq::<Seq<char>>::empty());
        }
    }
}

/// Column words when no vertical run scores (helper).
proof fn lemma_cols_words_none(b: Board, dict: Set<Seq<char>>, pid: u32, m: int)
    requires
        b.wf(),
        0 <= m <= 26,
        forall|c: int, s: int|
            0 <= c < 26 && #[trigger] is_start(b.col(c), s) ==> !run_scored(
                b.col(c),
                dict,
                pid,
                s,
            ),
    ensures
        cols_words(b, dict, pid, m) == Seq::<Seq<char>>::empty(),
    decreases m,
{
    if m > 0 {
        lemma_cols_words_none(b, dict, pid, m - 1);
        lemma_line_words_no_score(b.col(m - 1), dict, pid, 0);
        assert(cols_words(b, dict, pid, m) =~= Seq::<Seq<char>>::empty());
    }
}

/// A line none of whose runs scores contributes no word.
proof fn lemma_line_words_no_score(line: Line, dict: Set<Seq<char>>, pid: u32, i: int)
    requires
        0 <= i,
        forall|s: int| is_start(line, s) ==> !run_scored(line, dict, pid, s),
    ensures
        line_words(line, dict, pid, i) == Seq::<Seq<char>>::empty(),
    decreases line.len() - i,
{
    if i < line.len() {
        lemma_line_words_no_score(line, dict, pid, i + 1);
    }
}

/// A placement with no dictionary word in any row or column run — a
/// diagonal placement, for one — is always rejected once any tile is on
/// the board.
pub proof fn lemma_validate_no_word_rejected(b: Board, dict: Set<Seq<char>>, pid: u32, r: int, c: int)
    requires
        b.wf(),
        0 <= r < 26,
        0 <= c < 26,
        b.cell(r, c) is Some,
        forall|rr: int, s: int|
            0 <= rr < 26 && #[trigger] is_start(b.row(rr), s) ==> !dict.contains(
                run_word(b.row(rr), s),
            ),
        forall|cc: int, s: int|
            0 <= cc < 26 && #[trigger] is_start(b.col(cc), s) ==> !dict.contains(
                run_word(b.col(cc), s),
            ),
    ensures
        spec_validate(b, dict, pid) is None,
{
    let col = b.col(c);
    assert(occ(col, r));
    lemma_occ_in_run(col, r);
    let s = choose|s: int| is_start(col, s) && s <= r < run_end(col, s);
    assert(!dict.contains(run_word(col, s)));
    assert(!hcovered(b, dict, r, c)) by {
        if hcovered(b, dict, r, c) {
            let s2 = choose|s2: int|
                is_start(b.row(r), s2) && s2 <= c < run_end(b.row(r), s2) && dict.contains(
                    run_word(b.row(r), s2),
                );
        }
    }
    assert(!col_run_ok(b, dict, c, s));
    assert(!cols_ok(b, dict));
}

/// The acceptance gate, run by run: when every other vertical run is
/// acceptable, a vertical run that is not itself a dictionary word
/// decides the move — accepted exactly when every one of its cells lies
/// on a horizontal dictionary word.
pub proof fn lemma_vertical_gate(b: Board, dict: Set<Seq<char>>, pid: u32, c: int, s: int)
    requires
        b.wf(),
        0 <= c < 26,
        is_start(b.col(c), s),
        !dict.contains(run_word(b.col(c), s)),
        forall|c2: int, s2: int|
            0 <= c2 < 26 && #[trigger] is_start(b.col(c2), s2) && !(c2 == c && s2 == s)
                ==> col_run_ok(b, dict, c2, s2),
    ensures
        spec_validate(b, dict, pid) is Some <==> (forall|k: int|
            s <= k < run_end(b.col(c), s) ==> hcovered(b, dict, k, c)),
{
    if forall|k: int| s <= k < run_end(b.col(c), s) ==> hcovered(b, dict, k, c) {
        assert forall|c2: int, s2: int|
            0 <= c2 < 26 && is_start(b.col(c2), s2) implies col_run_ok(b, dict, c2, s2) by {
            if c2 == c && s2 == s {
                assert(col_run_ok(b, dict, c, s));
            }
        }
        assert(cols_ok(b, dict));
    } else {
        assert(!col_run_ok(b, dict, c, s));
        assert(!cols_ok(b, dict));
    }
}


/// A board holding one straight vertical word laid by `pid` on an
/// otherwise empty grid: tiles fill exactly `(r0, c) .. (r0 + n, c)`.
pub open spec fn single_vword(b: Board, r0: int, c: int, n: int, pid: u32) -> bool {
    &&& b.wf()
    &&& 0 <= c < 26
    &&& 0 <= r0
    &&& 1 <= n
    &&& r0 + n <= 26
    &&& forall|r: int| r0 <= r < r0 + n ==> #[trigger] b.cell(r, c) is Some
    &&& forall|rr: int, cc: int|
        0 <= rr < 26 && 0 <= cc < 26 && !(cc == c && r0 <= rr < r0 + n) ==> !(#[trigger] b.cell(
            rr,
            cc,
        ) is Some)
    &&& exists|r: int| r0 <= r < r0 + n && (#[trigger] b.cell(r, c))->Some_0.owner == pid
}

/// The word such a board spells.
pub open spec fn vword_of(b: Board, r0: int, c: int, n: int) -> Seq<char> {
    Seq::new(n as nat, |k: int| b.cell(r0 + k, c)->Some_0.ch)
}

/// Row words when no horizontal run scores (helper).
proof fn lemma_rows_words_none(b: Board, dict: Set<Seq<char>>, pid: u32, m: int)
    requires
        b.wf(),
        0 <= m <= 26,
        forall|r: int, s: int|
            0 <= r < 26 && #[trigger] is_start(b.row(r), s) ==> !run_scored(
                b.row(r),
                dict,
                pid,
                s,
            ),
    ensures
        rows_words(b, dict, pid, m) == Seq::<Seq<char>>::empty(),
    decreases m,
{
    if m > 0 {
        lemma_rows_words_none(b, dict, pid, m - 1);
        lemma_line_words_no_score(b.row(m - 1), dict, pid, 0);
        assert(rows_words(b, dict, pid, m) =~= Seq::<Seq<char>>::empty());
    }
}

/// Column words of a board whose only scoring column is `c` (helper).
proof fn lemma_cols_words_single(
    b: Board,
    dict: Set<Seq<char>>,
    pid: u32,
    c: int,
    w: Seq<char>,
    m: int,
)
    requires
        b.wf(),
        0 <= c < 26,
        0 <= m <= 26,
        line_words(b.col(c), dict, pid, 0) == seq![w],
        forall|cc: int|
            0 <= cc < 26 && cc != c ==> line_words(#[trigger] b.col(cc), dict, pid, 0) == Seq::<
                Seq<char>,
            >::empty(),
    ensures
        cols_words(b, dict, pid, m) == (if m > c {
            seq![w]
        } else {
            Seq::<Seq<char>>::empty()
        }),
    decreases m,
{
    if m > 0 {
        lemma_cols_words_single(b, dict, pid, c, w, m - 1);
        if m - 1 >= c {
            assert(cols_words(b, dict, pid, m) =~= seq![w]);
        } else {
            assert(cols_words(b, dict, pid, m) =~= Seq::<Seq<char>>::empty());
        }
    }
}

/// A single straight vertical dictionary word, anywhere on an otherwise
/// empty board, is accepted and scores exactly that word — provided no
/// one of its letters is itself a dictionary word.
pub proof fn lemma_validate_single_vertical(
    b: Board,
    dict: Set<Seq<char>>,
    pid: u32,
    r0: int,
    c: int,
    n: int,
)
    requires
        single_vword(b, r0, c, n, pid),
        dict.contains(vword_of(b, r0, c, n)),
        forall|k: int|
            0 <= k < n ==> !dict.contains(seq![(#[trigger] b.cell(r0 + k, c))->Some_0.ch]),
    ensures
        spec_validate(b, dict, pid) == Some(seq![vword_of(b, r0, c, n)]),
{
    let col = b.col(c);
    let w = vword_of(b, r0, c, n);
    // the one vertical run spells w and scores
    assert forall|i: int| r0 <= i < r0 + n implies #[trigger] col[i] is Some by {}
    assert forall|i: int| 0 <= i < col.len() && !(r0 <= i < r0 + n) implies !(#[trigger] col[i]
        is Some) by {}
    lemma_line_single_run(col, dict, pid, r0, r0 + n);
    assert(run_word(col, r0) =~= w);
    let rw = choose|r: int| r0 <= r < r0 + n && (#[trigger] b.cell(r, c))->Some_0.owner == pid;
    assert(col[rw]->Some_0.owner == pid);
    assert(run_in_turn(col, r0, pid));
    assert(run_scored(col, dict, pid, r0));
    assert(line_words(col, dict, pid, 0) == seq![w]);
    // every other column is empty
    assert forall|cc: int| 0 <= cc < 26 && cc != c implies line_words(b.col(cc), dict, pid, 0)
        == Seq::<Seq<char>>::empty() && (forall|s: int| !is_start(b.col(cc), s)) by {
        assert forall|i: int| 0 <= i < b.col(cc).len() implies !(#[trigger] b.col(cc)[i]
            is Some) by {
            assert(!(b.cell(i, cc) is Some));
        }
        lemma_line_empty(b.col(cc), dict, pid);
    }
    // each crossed row holds a one-letter run that does not score
    assert forall|r: int, s: int| #![trigger is_start(b.row(r), s)]
        0 <= r < 26 && is_start(b.row(r), s) implies !run_scored(b.row(r), dict, pid, s) by {
        let row = b.row(r);
        if r0 <= r < r0 + n {
            assert forall|i: int| c <= i < c + 1 implies #[trigger] row[i] is Some by {
                assert(b.cell(r, c) is Some);
            }
            assert forall|i: int| 0 <= i < row.len() && !(c <= i < c + 1) implies !(
            #[trigger] row[i] is Some) by {
                assert(!(b.cell(r, i) is Some));
            }
            lemma_line_single_run(row, dict, pid, c, c + 1);
            assert(s == c);
            assert(run_word(row, c) =~= seq![b.cell(r, c)->Some_0.ch]);
            assert(!dict.contains(seq![(#[trigger] b.cell(r0 + (r - r0), c))->Some_0.ch]));
            assert(b.cell(r0 + (r - r0), c) == b.cell(r, c));
            assert(!dict.contains(run_word(row, s)));
        } else {
            assert forall|i: int| 0 <= i < row.len() implies !(#[trigger] row[i] is Some) by {
                assert(!(b.cell(r, i) is Some));
            }
            lemma_line_empty(row, dict, pid);
            assert(false);
        }
    }
    lemma_rows_words_none(b, dict, pid, 26);
    lemma_cols_words_single(b, dict, pid, c, w, 26);
    // the one vertical run is a dictionary word, so every column passes
    assert forall|c2: int, s2: int| 0 <= c2 < 26 && is_start(b.col(c2), s2) implies col_run_ok(
        b,
        dict,
        c2,
        s2,
    ) by {
        if c2 == c {
            assert(s2 == r0);
            assert(dict.contains(run_word(b.col(c2), s2)));
        }
    }
    assert(Seq::<Seq<char>>::empty() + seq![w] =~= seq![w]);
}

} // verus!
