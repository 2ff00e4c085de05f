//! The game in progress: cells, claim arbitration and bingo detection.

use vstd::prelude::*;

use crate::room::{Medal, NetworkPlayer};

verus! {

/// A claim on a cell: who claimed it, with which time (ms) and medal.
#[derive(Debug)]
pub struct MapClaim {
    pub player: NetworkPlayer,
    pub time: u64,
    pub medal: Medal,
}

impl Clone for MapClaim {
    fn clone(&self) -> (r: Self)
        ensures
            r == *self,
    {
        MapClaim { player: self.player.clone(), time: self.time, medal: self.medal }
    }
}

/// One square of the grid.
#[derive(Debug)]
pub struct MapCell {
    pub claim: Option<MapClaim>,
}

impl Clone for MapCell {
    fn clone(&self) -> (r: Self)
        ensures
            r == *self,
    {
        match &self.claim {
            Some(c) => MapCell { claim: Some(c.clone()) },
            None => MapCell { claim: None },
        }
    }
}

/// Orientation of a winning line. On the wire: Horizontal=1, Vertical=2, Diagonal=3.
#[derive(Clone, Copy, Debug, PartialEq, Eq, Structural)]
pub enum Direction {
    Horizontal,
    Vertical,
    Diagonal,
}

impl Direction {
    /// The number that stands for the direction on the wire.
    pub fn code(&self) -> (r: u32)
        ensures
            *self == Direction::Horizontal ==> r == 1,
            *self == Direction::Vertical ==> r == 2,
            *self == Direction::Diagonal ==> r == 3,
    {
        match self {
            Direction::Horizontal => 1,
            Direction::Vertical => 2,
            Direction::Diagonal => 3,
        }
    }
}

/// A line won by a team. `index` is the row or column; for diagonals 0 is the
/// main diagonal (top left to bottom right) and 1 the anti-diagonal.
#[derive(Clone, Copy, Debug, PartialEq, Eq, Structural)]
pub struct BingoLine {
    pub direction: Direction,
    pub index: u32,
    pub team: usize,
}

/// State of a started game. `start_time` is in milliseconds on the server's clock.
#[derive(Debug)]
pub struct ActiveGameData {
    pub start_time: u64,
    pub cells: Vec<MapCell>,
}

impl Clone for ActiveGameData {
    fn clone(&self) -> (r: Self)
        ensures
            r.start_time == self.start_time,
            r.cells@ == self.cells@,
    {
        let mut cells: Vec<MapCell> = Vec::new();
        let mut i: usize = 0;
        while i < self.cells.len()
            invariant
                i <= self.cells@.len(),
                cells@ == self.cells@.subrange(0, i as int),
            decreases self.cells@.len() - i,
        {
            cells.push(self.cells[i].clone());
            i = i + 1;
        }
        assert(cells@ =~= self.cells@);
        ActiveGameData { start_time: self.start_time, cells }
    }
}

/// Whether `medal` is good enough for a room that requires `required`.
pub open spec fn medal_meets(medal: Medal, required: Medal) -> bool {
    medal != Medal::NoMedal && medal.spec_rank() <= required.spec_rank()
}

/// Whether a claim with `medal` and `time` beats what the cell holds.
pub open spec fn beats(medal: Medal, time: u64, current: Option<MapClaim>) -> bool {
    match current {
        None => true,
        Some(c) => medal.spec_rank() < c.medal.spec_rank() || (medal == c.medal && time < c.time),
    }
}

/// Whether a claim is accepted on a cell holding `current`.
pub open spec fn claim_accepted(
    required: Medal,
    medal: Medal,
    time: u64,
    current: Option<MapClaim>,
) -> bool {
    medal_meets(medal, required) && beats(medal, time, current)
}

/// The team that holds a cell, if it is claimed by a player in a team.
pub open spec fn cell_team(cell: MapCell) -> Option<usize> {
    match cell.claim {
        Some(c) => c.player.team,
        None => None,
    }
}

/// The `j`-th cell of a line, in row-major numbering of an `n`×`n` grid.
pub open spec fn line_cell(direction: Direction, index: int, n: int, j: int) -> int {
    match direction {
        Direction::Horizontal => index * n + j,
        Direction::Vertical => j * n + index,
        _ => if index == 0 {
            j * n + j
        } else {
            j * n + (n - 1 - j)
        },
    }
}

/// Whether every cell of the line is held by `team`.
pub open spec fn line_held_by(
    cells: Seq<MapCell>,
    n: int,
    direction: Direction,
    index: int,
    team: usize,
) -> bool {
    forall|j: int| 0 <= j < n ==> cell_team(#[trigger] cells[line_cell(direction, index, n, j)]) == Some(team)
}

/// The team that holds the whole line, if any.
pub open spec fn line_winner(cells: Seq<MapCell>, n: int, direction: Direction, index: int) -> Option<usize> {
    if n > 0 {
        match cell_team(cells[line_cell(direction, index, n, 0)]) {
            Some(t) => if line_held_by(cells, n, direction, index, t) {
                Some(t)
            } else {
                None
            },
            None => None,
        }
    } else {
        None
    }
}

/// The `k`-th candidate line: rows, then columns, then the two diagonals.
pub open spec fn candidate(n: int, k: int) -> (Direction, int) {
    if k < n {
        (Direction::Horizontal, k)
    } else if k < 2 * n {
        (Direction::Vertical, k - n)
    } else if k == 2 * n {
        (Direction::Diagonal, 0)
    } else {
        (Direction::Diagonal, 1)
    }
}

/// The winning lines among the first `k` candidates, in candidate order.
pub open spec fn bingos_upto(cells: Seq<MapCell>, n: int, k: int) -> Seq<BingoLine>
    decreases k,
{
    if k <= 0 {
        Seq::empty()
    } else {
        let prev = bingos_upto(cells, n, k - 1);
        let (d, i) = candidate(n, k - 1);
        match line_winner(cells, n, d, i) {
            Some(t) => prev.push(BingoLine { direction: d, index: i as u32, team: t }),
            None => prev,
        }
    }
}

/// All winning lines of an `n`×`n` grid, in candidate order.
pub open spec fn bingos(cells: Seq<MapCell>, n: int) -> Seq<BingoLine> {
    bingos_upto(cells, n, 2 * n + 2)
}

/// The lines of `after` that are not in `before`, in order.
pub open spec fn fresh_lines(before: Seq<BingoLine>, after: Seq<BingoLine>) -> Seq<BingoLine>
    decreases after.len(),
{
    if after.len() == 0 {
        Seq::empty()
    } else {
        let prev = fresh_lines(before, after.drop_last());
        if before.contains(after.last()) {
            prev
        } else {
            prev.push(after.last())
        }
    }
}

pub open spec fn all_empty(cells: Seq<MapCell>) -> bool {
    forall|i: int| 0 <= i < cells.len() ==> (#[trigger] cells[i]).claim is None
}

/// Whether the claimant's medal meets the room's requirement.
pub fn medal_is_sufficient(medal: Medal, required: Medal) -> (r: bool)
    ensures
        r == medal_meets(medal, required),
{
    medal != Medal::NoMedal && medal.rank() <= required.rank()
}

/// The arbitration rule for a claim on a cell holding `current`.
pub fn is_claim_accepted(required: Medal, medal: Medal, time: u64, current: &Option<MapClaim>) -> (r: bool)
    ensures
        r == claim_accepted(required, medal, time, *current),
{
    if !medal_is_sufficient(medal, required) {
        return false;
    }
    match current {
        None => true,
        Some(c) => medal.rank() < c.medal.rank() || (medal == c.medal && time < c.time),
    }
}

/// The team of the cell at `i`.
fn team_at(cells: &Vec<MapCell>, i: usize) -> (r: Option<usize>)
    requires
        i < cells@.len(),
    ensures
        r == cell_team(cells@[i as int]),
{
    match &cells[i].claim {
        Some(c) => c.player.team,
        None => None,
    }
}

/// The cell index of the `j`-th cell of a line.
fn line_cell_exec(direction: Direction, index: usize, n: usize, j: usize) -> (r: usize)
    requires
        n <= 255,
        index < n,
        j < n,
    ensures
        r == line_cell(direction, index as int, n as int, j as int),
        r < n * n,
{
    proof {
        assert(index * n + j < n * n) by (nonlinear_arith)
            requires index < n, j < n;
        assert(j * n + index < n * n) by (nonlinear_arith)
            requires index < n, j < n;
        assert(j * n + j < n * n) by (nonlinear_arith)
            requires j < n;
        assert(j * n + (n - 1 - j) < n * n) by (nonlinear_arith)
            requires j < n;
        assert(n * n <= 255 * 255) by (nonlinear_arith)
            requires n <= 255;
    }
    match direction {
        Direction::Horizontal => index * n + j,
        Direction::Vertical => j * n + index,
        _ => if index == 0 {
            j * n + j
        } else {
            j * n + (n - 1 - j)
        },
    }
}

/// The team that holds the whole line, if any.
fn line_winner_exec(cells: &Vec<MapCell>, n: usize, direction: Direction, index: usize) -> (r: Option<usize>)
    requires
        1 <= n <= 255,
        index < n,
        cells@.len() >= n * n,
    ensures
        r == line_winner(cells@, n as int, direction, index as int),
{
    let first = team_at(cells, line_cell_exec(direction, index, n, 0));
    match first {
        None => None,
        Some(t) => {
            let mut j: usize = 1;
            while j < n
                invariant
                    1 <= n <= 255,
                    index < n,
                    cells@.len() >= n * n,
                    1 <= j <= n,
                    cell_team(cells@[line_cell(direction, index as int, n as int, 0)]) == Some(t),
                    forall|k: int| 0 <= k < j ==> cell_team(#[trigger] cells@[line_cell(direction, index as int, n as int, k)]) == Some(t),
                decreases n - j,
            {
                let c = line_cell_exec(direction, index, n, j);
                if team_at(cells, c) != Some(t) {
                    return None;
                }
                j = j + 1;
            }
            Some(t)
        },
    }
}

impl ActiveGameData {
    /// A game with `cell_count` empty cells, started at `start_time`.
    pub fn new(cell_count: usize, start_time: u64) -> (r: Self)
        ensures
            r.cells@.len() == cell_count,
            all_empty(r.cells@),
            r.start_time == start_time,
    {
        let mut cells: Vec<MapCell> = Vec::new();
        let mut i: usize = 0;
        while i < cell_count
            invariant
                i <= cell_count,
                cells@.len() == i,
                all_empty(cells@),
            decreases cell_count - i,
        {
            cells.push(MapCell { claim: None });
            i = i + 1;
        }
        ActiveGameData { start_time, cells }
    }

    /// Every winning line of the grid: rows, then columns, then the main
    /// diagonal and the anti-diagonal. The grid is the first `grid_size`²
    /// cells; a grid of side 0 has no lines.
    pub fn check_for_bingos(&self, grid_size: usize) -> (r: Vec<BingoLine>)
        requires
            grid_size <= 255,
            self.cells@.len() >= grid_size * grid_size,
        ensures
            r@ == bingos(self.cells@, grid_size as int),
    {
        let n = grid_size;
        if n == 0 {
            proof {
                reveal_with_fuel(bingos_upto, 3);
                assert(bingos(self.cells@, 0) =~= Seq::<BingoLine>::empty());
            }
            return Vec::new();
        }
        let mut r: Vec<BingoLine> = Vec::new();
        let mut k: usize = 0;
        let total = 2 * n + 2;
        while k < total
            invariant
                1 <= n <= 255,
                total == 2 * n + 2,
                self.cells@.len() >= n * n,
                k <= total,
                r@ == bingos_upto(self.cells@, n as int, k as int),
            decreases total - k,
        {
            let (d, i): (Direction, usize) = if k < n {
                (Direction::Horizontal, k)
            } else if k < 2 * n {
                (Direction::Vertical, k - n)
            } else if k == 2 * n {
                (Direction::Diagonal, 0)
            } else {
                (Direction::Diagonal, 1)
            };
            assert((d, i as int) == candidate(n as int, k as int));
            let i_checked: usize = if i < n { i } else { 0 };
            proof {
                if i >= n {
                    // the anti-diagonal of a 1x1 grid is its main diagonal
                    assert(n == 1 && d == Direction::Diagonal);
                }
            }
            let w = line_winner_exec(&self.cells, n, d, i_checked);
            proof {
                if i >= n {
                    assert forall|j: int| 0 <= j < n implies line_cell(d, i as int, n as int, j) == line_cell(d, 0, n as int, j) by {}
                }
            }
            assert(w == line_winner(self.cells@, n as int, d, i as int));
            match w {
                Some(t) => r.push(BingoLine { direction: d, index: i as u32, team: t }),
                None => {},
            }
            k = k + 1;
        }
        r
    }

    /// Overwrites the claim of cell `cell_id` if the arbitration rule accepts
    /// the new claim; returns whether it did.
    pub fn claim(&mut self, cell_id: usize, claim: MapClaim, required: Medal) -> (accepted: bool)
        requires
            cell_id < old(self).cells@.len(),
        ensures
            accepted == claim_accepted(required, claim.medal, claim.time, old(self).cells@[cell_id as int].claim),
            final(self).start_time == old(self).start_time,
            accepted ==> final(self).cells@ == old(self).cells@.update(cell_id as int, MapCell { claim: Some(claim) }),
            !accepted ==> final(self).cells@ == old(self).cells@,
    {
        let ok = is_claim_accepted(required, claim.medal, claim.time, &self.cells[cell_id].claim);
        if ok {
            self.cells.set(cell_id, MapCell { claim: Some(claim) });
        }
        ok
    }
}

/// The lines of `after` that are not in `before`, in order.
pub fn new_bingos(before: &Vec<BingoLine>, after: &Vec<BingoLine>) -> (r: Vec<BingoLine>)
    ensures
        r@ == fresh_lines(before@, after@),
{
    let mut r: Vec<BingoLine> = Vec::new();
    let mut i: usize = 0;
    while i < after.len()
        invariant
            i <= after@.len(),
            r@ == fresh_lines(before@, after@.subrange(0, i as int)),
        decreases after@.len() - i,
    {
        let line = after[i];
        let mut found = false;
        let mut j: usize = 0;
        while j < before.len()
            invariant
                j <= before@.len(),
                found == before@.subrange(0, j as int).contains(line),
            decreases before@.len() - j,
        {
            if before[j] == line {
                found = true;
            }
            proof {
                let s = before@.subrange(0, j + 1);
                assert(s.drop_last() =~= before@.subrange(0, j as int));
                if before@[j as int] == line {
                    assert(s[j as int] == line);
                }
                if s.contains(line) && !before@.subrange(0, j as int).contains(line) {
                    let w = choose|w: int| 0 <= w < s.len() && s[w] == line;
                    if w < j {
                        assert(before@.subrange(0, j as int)[w] == line);
                    }
                }
            }
            j = j + 1;
        }
        assert(before@.subrange(0, before@.len() as int) =~= before@);
        assert(after@.subrange(0, i + 1).drop_last() =~= after@.subrange(0, i as int));
        if !found {
            r.push(line);
        }
        i = i + 1;
    }
    assert(after@.subrange(0, after@.len() as int) =~= after@);
    r
}

} // verus!
