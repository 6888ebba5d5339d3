//! The fleet placement generator.
//!
//! Ships are placed one after the other. For each ship every position on the
//! grid is a candidate, lying across or down; those that fit on the grid and
//! touch no cell that is taken are valid. Which of the valid ones a ship gets
//! is decided by a number that the caller supplies, so that a caller with a
//! uniform source of numbers draws uniformly among the valid placements.

use crate::coord::{contains_coord, Coord};
use crate::setup::{ClassLengths, GameSetup, ShipClass};
use vstd::prelude::*;

verus! {

/// Where a ship starts and which way it lies. A ship that lies across
/// extends from its origin to the right, one that lies down extends downward.
#[derive(Clone, Copy, Debug, PartialEq, Eq, Structural)]
pub struct Run {
    pub origin: Coord,
    pub horizontal: bool,
}

/// The mathematical content of a [`PlacedShip`].
pub struct PlacedModel {
    pub class: ShipClass,
    pub cells: Seq<Coord>,
}

/// A ship of the fleet with the cells that it occupies, from its origin on.
#[derive(Clone, Debug)]
pub struct PlacedShip {
    pub class: ShipClass,
    pub coords: Vec<Coord>,
}

impl View for PlacedShip {
    type V = PlacedModel;

    open spec fn view(&self) -> PlacedModel {
        PlacedModel { class: self.class, cells: self.coords@ }
    }
}

/// Why no fleet was placed.
#[derive(Clone, Copy, Debug, PartialEq, Eq, Structural)]
pub enum PlacementError {
    /// The setup is not valid, or some ship found no room on the grid.
    PlacementInfeasible,
}

/// The `k`-th cell of a run.
pub open spec fn run_cell(run: Run, k: int) -> Coord {
    if run.horizontal {
        Coord { x: (run.origin.x + k) as i32, y: run.origin.y }
    } else {
        Coord { x: run.origin.x, y: (run.origin.y + k) as i32 }
    }
}

/// The cells of a run of `len` cells, from the origin on.
pub open spec fn run_cells(run: Run, len: int) -> Seq<Coord> {
    Seq::new(len as nat, |k: int| run_cell(run, k))
}

/// Whether a run of `len` cells lies on the grid.
pub open spec fn run_fits(height: int, width: int, run: Run, len: int) -> bool {
    &&& 0 <= run.origin.x
    &&& 0 <= run.origin.y
    &&& if run.horizontal {
        run.origin.x + len <= width && run.origin.y < height
    } else {
        run.origin.x < width && run.origin.y + len <= height
    }
}

/// Whether a ship of `len` cells can be placed on `run`: the run lies on the
/// grid and touches none of the cells that are `taken`. A ship of one cell
/// lies across only, so that each of its positions counts once.
pub open spec fn run_open(height: int, width: int, taken: Seq<Coord>, run: Run, len: int) -> bool {
    &&& run_fits(height, width, run, len)
    &&& (run.horizontal || len > 1)
    &&& forall|k: int| 0 <= k < len ==> !taken.contains(#[trigger] run_cell(run, k))
}

/// The number of candidates on a grid: each cell as an origin, across and
/// down.
pub open spec fn candidate_total(height: int, width: int) -> int {
    2 * (height * width)
}

/// The `i`-th candidate. The runs across come first, then the runs down;
/// within each the origins go row by row, from left to right.
pub open spec fn candidate(height: int, width: int, i: int) -> Run {
    let area = height * width;
    let j = if i < area {
        i
    } else {
        i - area
    };
    Run { origin: Coord { x: (j % width) as i32, y: (j / width) as i32 }, horizontal: i < area }
}

/// Whether the `i`-th candidate is a valid placement.
pub open spec fn candidate_ok(height: int, width: int, taken: Seq<Coord>, len: int, i: int) -> bool {
    run_open(height, width, taken, candidate(height, width, i), len)
}

/// The number of valid placements among the first `upto` candidates.
pub open spec fn valid_before(
    height: int,
    width: int,
    taken: Seq<Coord>,
    len: int,
    upto: int,
) -> int
    decreases upto,
{
    if upto <= 0 {
        0
    } else {
        valid_before(height, width, taken, len, upto - 1) + if candidate_ok(
            height,
            width,
            taken,
            len,
            upto - 1,
        ) {
            1int
        } else {
            0int
        }
    }
}

/// The number of valid placements of a ship of `len` cells.
pub open spec fn valid_total(height: int, width: int, taken: Seq<Coord>, len: int) -> int {
    valid_before(height, width, taken, len, candidate_total(height, width))
}

/// Whether `i` is the valid placement that has exactly `rank` valid
/// placements before it.
pub open spec fn is_ranked(
    height: int,
    width: int,
    taken: Seq<Coord>,
    len: int,
    rank: int,
    i: int,
) -> bool {
    &&& 0 <= i < candidate_total(height, width)
    &&& candidate_ok(height, width, taken, len, i)
    &&& valid_before(height, width, taken, len, i) == rank
}

/// The candidate that `pick` selects for a ship of `len` cells: with `n`
/// valid placements, the one that has `pick % n` valid placements before
/// it; none where nothing is valid.
pub open spec fn chosen_index(
    height: int,
    width: int,
    taken: Seq<Coord>,
    len: int,
    pick: int,
) -> Option<int> {
    let n = valid_total(height, width, taken, len);
    if n <= 0 {
        None
    } else {
        let rank = pick % n;
        Some(choose|i: int| is_ranked(height, width, taken, len, rank, i))
    }
}

/// The placement that `pick` selects for a ship of `len` cells.
pub open spec fn chosen_run(
    height: int,
    width: int,
    taken: Seq<Coord>,
    len: int,
    pick: int,
) -> Option<Run> {
    match chosen_index(height, width, taken, len, pick) {
        Some(i) => Some(candidate(height, width, i)),
        None => None,
    }
}

/// All the cells of a fleet: those of the first ship, then those of the
/// second, and so on.
pub open spec fn fleet_cells(fleet: Seq<PlacedModel>) -> Seq<Coord>
    decreases fleet.len(),
{
    if fleet.len() == 0 {
        Seq::empty()
    } else {
        fleet_cells(fleet.drop_last()) + fleet.last().cells
    }
}

/// The number that decides the placement of the `k`-th ship: the `k`-th of
/// `picks`, and zero where `picks` has run out.
pub open spec fn pick_at(picks: Seq<u64>, k: int) -> int {
    if 0 <= k < picks.len() {
        picks[k] as int
    } else {
        0
    }
}

/// The first `k` ships of the fleet as the generator places them, or `None`
/// if one of them finds no valid placement.
pub open spec fn placed(
    setup: GameSetup,
    lengths: ClassLengths,
    picks: Seq<u64>,
    k: int,
) -> Option<Seq<PlacedModel>>
    decreases k,
{
    if k <= 0 {
        Some(Seq::empty())
    } else {
        match placed(setup, lengths, picks, k - 1) {
            None => None,
            Some(fleet) => {
                let class = setup.class_at(k - 1);
                let len = lengths.of(class);
                match chosen_run(
                    setup.height as int,
                    setup.width as int,
                    fleet_cells(fleet),
                    len,
                    pick_at(picks, k - 1),
                ) {
                    None => None,
                    Some(run) => Some(fleet.push(PlacedModel { class, cells: run_cells(run, len) })),
                }
            },
        }
    }
}

/// The fleet that the generator places for `setup`, or `None` if the setup
/// is not valid or some ship finds no valid placement.
pub open spec fn placement(setup: GameSetup, lengths: ClassLengths, picks: Seq<u64>) -> Option<
    Seq<PlacedModel>,
> {
    if setup.valid(lengths) {
        placed(setup, lengths, picks, setup.total_ships())
    } else {
        None
    }
}

/// The picks of each attempt, in order.
pub open spec fn attempt_picks(attempts: Seq<Vec<u64>>) -> Seq<Seq<u64>> {
    Seq::new(attempts.len(), |a: int| attempts[a]@)
}

/// The fleet of the first attempt from `from` on that places one, or `None`
/// if no attempt does.
pub open spec fn first_placement(
    setup: GameSetup,
    lengths: ClassLengths,
    attempts: Seq<Seq<u64>>,
    from: int,
) -> Option<Seq<PlacedModel>>
    decreases attempts.len() - from,
{
    if from < 0 || from >= attempts.len() {
        None
    } else {
        match placement(setup, lengths, attempts[from]) {
            Some(fleet) => Some(fleet),
            None => first_placement(setup, lengths, attempts, from + 1),
        }
    }
}

/// Whether `cells` form a straight run of `len` cells, across or down.
pub open spec fn straight(cells: Seq<Coord>, len: int) -> bool {
    exists|run: Run| #[trigger] run_cells(run, len) == cells
}

/// A legal placement of the first ships of a fleet: no cell is used twice,
/// every cell lies on the grid, and each ship is a straight run of the
/// length of its class, the classes in the order of the setup.
pub open spec fn fleet_legal(setup: GameSetup, lengths: ClassLengths, fleet: Seq<PlacedModel>) -> bool {
    &&& fleet_cells(fleet).no_duplicates()
    &&& forall|c: Coord| #[trigger]
        fleet_cells(fleet).contains(c) ==> c.in_grid(setup.height as int, setup.width as int)
    &&& forall|i: int|
        0 <= i < fleet.len() ==> {
            &&& (#[trigger] fleet[i]).class == setup.class_at(i)
            &&& fleet[i].cells.len() == lengths.of(fleet[i].class)
            &&& straight(fleet[i].cells, lengths.of(fleet[i].class))
        }
}

/// The models of the ships of a fleet, in order.
pub open spec fn fleet_model(fleet: Seq<PlacedShip>) -> Seq<PlacedModel> {
    Seq::new(fleet.len(), |i: int| fleet[i]@)
}

proof fn lemma_valid_before_grows(
    height: int,
    width: int,
    taken: Seq<Coord>,
    len: int,
    a: int,
    b: int,
)
    requires
        0 <= a <= b,
    ensures
        0 <= valid_before(height, width, taken, len, a) <= valid_before(
            height,
            width,
            taken,
            len,
            b,
        ) <= b,
        valid_before(height, width, taken, len, a) <= a,
    decreases b,
{
    if a < b {
        lemma_valid_before_grows(height, width, taken, len, a, b - 1);
    } else if b > 0 {
        lemma_valid_before_grows(height, width, taken, len, a - 1, b - 1);
    }
}

/// Two valid placements with the same number of valid placements before
/// them are one.
proof fn lemma_rank_is_unique(
    height: int,
    width: int,
    taken: Seq<Coord>,
    len: int,
    rank: int,
    i: int,
    j: int,
)
    requires
        is_ranked(height, width, taken, len, rank, i),
        is_ranked(height, width, taken, len, rank, j),
    ensures
        i == j,
{
    if i < j {
        lemma_valid_before_grows(height, width, taken, len, i + 1, j);
    } else if j < i {
        lemma_valid_before_grows(height, width, taken, len, j + 1, i);
    }
}

/// Every rank below the number of valid placements among the first `upto`
/// candidates belongs to one of them.
proof fn lemma_rank_exists(
    height: int,
    width: int,
    taken: Seq<Coord>,
    len: int,
    upto: int,
    rank: int,
) -> (i: int)
    requires
        0 <= upto <= candidate_total(height, width),
        0 <= rank < valid_before(height, width, taken, len, upto),
    ensures
        i < upto,
        is_ranked(height, width, taken, len, rank, i),
    decreases upto,
{
    if rank < valid_before(height, width, taken, len, upto - 1) {
        lemma_rank_exists(height, width, taken, len, upto - 1, rank)
    } else {
        lemma_valid_before_grows(height, width, taken, len, upto - 1, upto - 1);
        upto - 1
    }
}

/// Which pick selects which placement. With `n` valid placements, a pick
/// selects the valid placement that has `pick % n` valid placements before
/// it, and no other; where nothing is valid, it selects nothing. So every
/// valid placement is selected by the picks of exactly one remainder, and
/// picks that are spread evenly over the remainders select each valid
/// placement equally often.
pub proof fn lemma_pick_selects_by_rank(
    height: int,
    width: int,
    taken: Seq<Coord>,
    len: int,
    pick: int,
)
    ensures
        match chosen_index(height, width, taken, len, pick) {
            Some(i) => {
                &&& valid_total(height, width, taken, len) > 0
                &&& is_ranked(
                    height,
                    width,
                    taken,
                    len,
                    pick % valid_total(height, width, taken, len),
                    i,
                )
            },
            None => valid_total(height, width, taken, len) <= 0,
        },
        forall|j: int|
            valid_total(height, width, taken, len) > 0 && #[trigger] is_ranked(
                height,
                width,
                taken,
                len,
                pick % valid_total(height, width, taken, len),
                j,
            ) ==> chosen_index(height, width, taken, len, pick) == Some(j),
{
    let n = valid_total(height, width, taken, len);
    if candidate_total(height, width) >= 0 {
        lemma_valid_before_grows(height, width, taken, len, 0, candidate_total(height, width));
    }
    if n > 0 {
        let rank = pick % n;
        assert(0 <= rank < n) by (nonlinear_arith)
            requires
                n > 0,
                rank == pick % n,
        ;
        assert(candidate_total(height, width) > 0) by {
            if candidate_total(height, width) <= 0 {
                assert(valid_before(height, width, taken, len, candidate_total(height, width))
                    == 0);
            }
        }
        let i = lemma_rank_exists(height, width, taken, len, candidate_total(height, width), rank);
        let chosen = choose|c: int| is_ranked(height, width, taken, len, rank, c);
        assert forall|j: int| #[trigger]
            is_ranked(height, width, taken, len, rank, j) implies chosen == j by {
            lemma_rank_is_unique(height, width, taken, len, rank, chosen, j);
        }
    }
}

/// Where something is valid, the run that is chosen is a valid placement.
pub proof fn lemma_chosen_run_is_open(
    height: int,
    width: int,
    taken: Seq<Coord>,
    len: int,
    pick: int,
)
    requires
        chosen_run(height, width, taken, len, pick) is Some,
    ensures
        run_open(height, width, taken, chosen_run(height, width, taken, len, pick)->0, len),
{
    lemma_pick_selects_by_rank(height, width, taken, len, pick);
}

/// The origin of a candidate lies on the grid.
proof fn lemma_candidate_on_grid(height: int, width: int, i: int)
    requires
        0 <= height <= i32::MAX,
        0 <= width <= i32::MAX,
        0 <= i < candidate_total(height, width),
    ensures
        width > 0,
        height > 0,
        0 <= candidate(height, width, i).origin.x < width,
        0 <= candidate(height, width, i).origin.y < height,
        candidate(height, width, i).origin.x == (if i < height * width {
            i
        } else {
            i - height * width
        }) % width,
        candidate(height, width, i).origin.y == (if i < height * width {
            i
        } else {
            i - height * width
        }) / width,
        0 <= height * width <= 0x3fff_ffff_0000_0001,
{
    let area = height * width;
    assert(area > 0 && width > 0 && height > 0) by (nonlinear_arith)
        requires
            area == height * width,
            0 <= height,
            0 <= width,
            0 < 2 * area,
    ;
    let j = if i < area {
        i
    } else {
        i - area
    };
    assert(0 <= j < area);
    assert(0 <= j % width < width && 0 <= j / width < height) by (nonlinear_arith)
        requires
            0 <= j < area,
            area == height * width,
            width > 0,
    ;
    assert(height * width <= 0x7fff_ffff * 0x7fff_ffff) by (nonlinear_arith)
        requires
            0 <= height <= 0x7fff_ffff,
            0 <= width <= 0x7fff_ffff,
    ;
}

proof fn lemma_fleet_cells_push(fleet: Seq<PlacedModel>, ship: PlacedModel)
    ensures
        fleet_cells(fleet.push(ship)) == fleet_cells(fleet) + ship.cells,
{
    assert(fleet.push(ship).drop_last() =~= fleet);
}

/// The cells of each ship are among the cells of the fleet.
pub proof fn lemma_fleet_cells_hold(fleet: Seq<PlacedModel>, i: int, j: int)
    requires
        0 <= i < fleet.len(),
        0 <= j < fleet[i].cells.len(),
    ensures
        fleet_cells(fleet).contains(fleet[i].cells[j]),
    decreases fleet.len(),
{
    broadcast use vstd::seq_lib::group_seq_properties;

    let front = fleet_cells(fleet.drop_last());
    if i == fleet.len() - 1 {
        assert((front + fleet.last().cells)[front.len() + j] == fleet[i].cells[j]);
    } else {
        lemma_fleet_cells_hold(fleet.drop_last(), i, j);
    }
}

/// Once a ship has found no room, no longer part of the fleet is placed.
proof fn lemma_placed_none_stays(
    setup: GameSetup,
    lengths: ClassLengths,
    picks: Seq<u64>,
    k: int,
    m: int,
)
    requires
        0 <= k <= m,
        placed(setup, lengths, picks, k) is None,
    ensures
        placed(setup, lengths, picks, m) is None,
    decreases m,
{
    if k < m {
        lemma_placed_none_stays(setup, lengths, picks, k, m - 1);
    }
}

/// The cells of a run that lies on the grid lie on the grid, each at its
/// offset from the origin, and no two of them are the same.
proof fn lemma_run_cells_on_grid(height: int, width: int, run: Run, len: int)
    requires
        0 <= height <= i32::MAX,
        0 <= width <= i32::MAX,
        len >= 1,
        run_fits(height, width, run, len),
    ensures
        run_cells(run, len).len() == len,
        run_cells(run, len).no_duplicates(),
        forall|k: int|
            0 <= k < len ==> (#[trigger] run_cells(run, len)[k]).in_grid(height, width),
{
    let cells = run_cells(run, len);
    assert forall|a: int, b: int| 0 <= a < len && 0 <= b < len && a != b implies cells[a]
        != cells[b] by {
        assert(cells[a] == run_cell(run, a));
        assert(cells[b] == run_cell(run, b));
    }
}

/// What the generator places is legal: whenever the first `k` ships are
/// placed, no two of their cells coincide, none lies off the grid, and each
/// ship is a straight run of the length of its class.
pub proof fn lemma_placed_is_legal(
    setup: GameSetup,
    lengths: ClassLengths,
    picks: Seq<u64>,
    k: int,
)
    requires
        setup.sane(),
        lengths.valid(),
        0 <= k,
        placed(setup, lengths, picks, k) is Some,
    ensures
        placed(setup, lengths, picks, k)->0.len() == k,
        fleet_legal(setup, lengths, placed(setup, lengths, picks, k)->0),
    decreases k,
{
    broadcast use vstd::seq_lib::group_seq_properties;

    let fleet = placed(setup, lengths, picks, k)->0;
    if k == 0 {
        assert(fleet_cells(fleet) =~= Seq::<Coord>::empty());
    } else {
        let h = setup.height as int;
        let w = setup.width as int;
        lemma_placed_is_legal(setup, lengths, picks, k - 1);
        let front = placed(setup, lengths, picks, k - 1)->0;
        let class = setup.class_at(k - 1);
        let len = lengths.of(class);
        let taken = fleet_cells(front);
        let pick = pick_at(picks, k - 1);
        lemma_chosen_run_is_open(h, w, taken, len, pick);
        let run = chosen_run(h, w, taken, len, pick)->0;
        let ship = PlacedModel { class, cells: run_cells(run, len) };
        assert(fleet == front.push(ship));
        lemma_fleet_cells_push(front, ship);
        lemma_run_cells_on_grid(h, w, run, len);
        assert forall|i: int, j: int| 0 <= i < taken.len() && 0 <= j < ship.cells.len() implies taken[i]
            != ship.cells[j] by {
            assert(ship.cells[j] == run_cell(run, j));
            assert(taken.contains(taken[i]));
        }
        vstd::seq_lib::lemma_no_dup_in_concat(taken, ship.cells);
        assert forall|c: Coord| #[trigger] fleet_cells(fleet).contains(c) implies c.in_grid(
            h,
            w,
        ) by {
            if !taken.contains(c) {
                let j = choose|j: int| 0 <= j < ship.cells.len() && ship.cells[j] == c;
                assert(ship.cells[j].in_grid(h, w));
            }
        }
        assert forall|i: int| 0 <= i < fleet.len() implies {
            &&& (#[trigger] fleet[i]).class == setup.class_at(i)
            &&& fleet[i].cells.len() == lengths.of(fleet[i].class)
            &&& straight(fleet[i].cells, lengths.of(fleet[i].class))
        } by {
            if i < k - 1 {
                assert(fleet[i] == front[i]);
            } else {
                assert(fleet[i] == ship);
                assert(run_cells(run, len) == ship.cells);
            }
        }
    }
}

/// For every valid setup, whatever numbers decide the placements: if the
/// generator places the fleet, the fleet has the ships that the setup asks
/// for, no two ships share a cell, and no cell lies off the grid.
pub proof fn lemma_placement_is_legal(setup: GameSetup, lengths: ClassLengths, picks: Seq<u64>)
    requires
        placement(setup, lengths, picks) is Some,
    ensures
        placement(setup, lengths, picks)->0.len() == setup.total_ships(),
        fleet_legal(setup, lengths, placement(setup, lengths, picks)->0),
        fleet_cells(placement(setup, lengths, picks)->0).no_duplicates(),
        forall|c: Coord| #[trigger]
            fleet_cells(placement(setup, lengths, picks)->0).contains(c) ==> c.in_grid(
                setup.height as int,
                setup.width as int,
            ),
{
    lemma_placed_is_legal(setup, lengths, picks, setup.total_ships());
}

/// The `i`-th candidate on a grid of the given size.
fn candidate_at(height: i32, width: i32, i: u64) -> (run: Run)
    requires
        0 <= height,
        0 <= width,
        i < candidate_total(height as int, width as int),
    ensures
        run == candidate(height as int, width as int, i as int),
{
    proof {
        lemma_candidate_on_grid(height as int, width as int, i as int);
    }
    let area: u64 = (height as u64) * (width as u64);
    let across = i < area;
    let j: u64 = if across {
        i
    } else {
        i - area
    };
    let w = width as u64;
    Run { origin: Coord { x: (j % w) as i32, y: (j / w) as i32 }, horizontal: across }
}

/// Whether a ship of `len` cells can be placed on `run`.
fn run_is_open(height: i32, width: i32, taken: &Vec<Coord>, run: Run, len: i32) -> (ok: bool)
    requires
        0 <= height,
        0 <= width,
        len >= 1,
    ensures
        ok == run_open(height as int, width as int, taken@, run, len as int),
{
    if !run.horizontal && len == 1 {
        return false;
    }
    if run.origin.x < 0 || run.origin.y < 0 {
        return false;
    }
    if run.horizontal {
        if run.origin.x as i64 + len as i64 > width as i64 || run.origin.y >= height {
            return false;
        }
    } else {
        if run.origin.x >= width || run.origin.y as i64 + len as i64 > height as i64 {
            return false;
        }
    }
    let mut k: i32 = 0;
    while k < len
        invariant
            0 <= k <= len,
            run_fits(height as int, width as int, run, len as int),
            run.horizontal || len > 1,
            forall|m: int| 0 <= m < k ==> !taken@.contains(#[trigger] run_cell(run, m)),
        decreases len - k,
    {
        let c = if run.horizontal {
            Coord { x: run.origin.x + k, y: run.origin.y }
        } else {
            Coord { x: run.origin.x, y: run.origin.y + k }
        };
        assert(c == run_cell(run, k as int));
        if contains_coord(taken, c) {
            return false;
        }
        k += 1;
    }
    true
}

/// Picks the placement of a ship of `len` cells among the valid ones.
fn choose_run(height: i32, width: i32, taken: &Vec<Coord>, len: i32, pick: u64) -> (r: Option<Run>)
    requires
        0 <= height,
        0 <= width,
        len >= 1,
    ensures
        r == chosen_run(height as int, width as int, taken@, len as int, pick as int),
{
    assert(0 <= height * width <= 0x7fff_ffff * 0x7fff_ffff) by (nonlinear_arith)
        requires
            0 <= height <= 0x7fff_ffff,
            0 <= width <= 0x7fff_ffff,
    ;
    let total: u64 = 2 * ((height as u64) * (width as u64));
    let mut n: u64 = 0;
    let mut i: u64 = 0;
    while i < total
        invariant
            0 <= height,
            0 <= width,
            len >= 1,
            total == candidate_total(height as int, width as int),
            i <= total,
            n <= i,
            n == valid_before(height as int, width as int, taken@, len as int, i as int),
        decreases total - i,
    {
        let run = candidate_at(height, width, i);
        if run_is_open(height, width, taken, run, len) {
            n += 1;
        }
        i += 1;
    }
    if n == 0 {
        return None;
    }
    let target: u64 = pick % n;
    let mut seen: u64 = 0;
    let mut i: u64 = 0;
    while i < total
        invariant
            0 <= height,
            0 <= width,
            len >= 1,
            total == candidate_total(height as int, width as int),
            i <= total,
            n > 0,
            n == valid_total(height as int, width as int, taken@, len as int),
            target == (pick as int) % (n as int),
            seen <= target < n,
            seen == valid_before(height as int, width as int, taken@, len as int, i as int),
        decreases total - i,
    {
        let run = candidate_at(height, width, i);
        if run_is_open(height, width, taken, run, len) {
            if seen == target {
                proof {
                    let h = height as int;
                    let w = width as int;
                    let l = len as int;
                    assert(is_ranked(h, w, taken@, l, target as int, i as int));
                    lemma_pick_selects_by_rank(h, w, taken@, l, pick as int);
                }
                return Some(run);
            }
            seen += 1;
        }
        i += 1;
    }
    proof {
        assert(false);
    }
    None
}

/// The cells of a run that lies on the grid.
fn lay_run(height: i32, width: i32, run: Run, len: i32) -> (cells: Vec<Coord>)
    requires
        0 <= height,
        0 <= width,
        len >= 1,
        run_fits(height as int, width as int, run, len as int),
    ensures
        cells@ == run_cells(run, len as int),
{
    let mut cells: Vec<Coord> = Vec::new();
    let mut k: i32 = 0;
    while k < len
        invariant
            0 <= k <= len,
            0 <= height,
            0 <= width,
            run_fits(height as int, width as int, run, len as int),
            cells@.len() == k,
            forall|m: int| 0 <= m < k ==> cells@[m] == run_cell(run, m),
        decreases len - k,
    {
        let c = if run.horizontal {
            Coord { x: run.origin.x + k, y: run.origin.y }
        } else {
            Coord { x: run.origin.x, y: run.origin.y + k }
        };
        cells.push(c);
        k += 1;
    }
    proof {
        assert(cells@ =~= run_cells(run, len as int));
    }
    cells
}

/// Appends `cells` to `taken`.
fn take_cells(taken: &mut Vec<Coord>, cells: &Vec<Coord>)
    ensures
        final(taken)@ == old(taken)@ + cells@,
{
    let ghost start = taken@;
    let mut j: usize = 0;
    while j < cells.len()
        invariant
            j <= cells.len(),
            taken@ == start + cells@.take(j as int),
        decreases cells.len() - j,
    {
        taken.push(cells[j]);
        proof {
            assert(cells@.take(j as int + 1) =~= cells@.take(j as int).push(cells@[j as int]));
            assert(taken@ =~= start + cells@.take(j as int + 1));
        }
        j += 1;
    }
    proof {
        assert(cells@.take(cells@.len() as int) =~= cells@);
    }
}

/// The number that decides the placement of the `k`-th ship.
fn pick_of(picks: &Vec<u64>, k: u64) -> (pick: u64)
    ensures
        pick == pick_at(picks@, k as int),
{
    if k < picks.len() as u64 {
        picks[k as usize]
    } else {
        0
    }
}

/// Places the fleet of `setup` on an empty grid, ship by ship in the order
/// of the classes. The `k`-th of `picks` decides which of the valid
/// placements the `k`-th ship gets.
///
/// The result is a legal placement whenever there is one to be had along the
/// way: `PlacementInfeasible` comes back exactly when the setup is not valid
/// or a ship finds no room among those placed before it.
pub fn place_fleet(setup: &GameSetup, lengths: &ClassLengths, picks: &Vec<u64>) -> (r: Result<
    Vec<PlacedShip>,
    PlacementError,
>)
    ensures
        match r {
            Ok(fleet) => {
                &&& placement(*setup, *lengths, picks@) == Some(fleet_model(fleet@))
                &&& fleet@.len() == setup.total_ships()
                &&& fleet_legal(*setup, *lengths, fleet_model(fleet@))
            },
            Err(e) => placement(*setup, *lengths, picks@) is None,
        },
{
    if !setup.is_valid(lengths) {
        return Err(PlacementError::PlacementInfeasible);
    }
    let ships: u64 = setup.ship_total();
    let mut fleet: Vec<PlacedShip> = Vec::new();
    let mut taken: Vec<Coord> = Vec::new();
    let mut k: u64 = 0;
    proof {
        assert(fleet_model(fleet@) =~= Seq::<PlacedModel>::empty());
        assert(fleet_cells(fleet_model(fleet@)) =~= Seq::<Coord>::empty());
    }
    while k < ships
        invariant
            k <= ships,
            ships == setup.total_ships(),
            setup.valid(*lengths),
            fleet@.len() == k,
            placed(*setup, *lengths, picks@, k as int) == Some(fleet_model(fleet@)),
            taken@ == fleet_cells(fleet_model(fleet@)),
        decreases ships - k,
    {
        let class = setup.class_of(k);
        let len = lengths.length_of(class);
        let pick = pick_of(picks, k);
        let ghost front = fleet_model(fleet@);
        match choose_run(setup.height, setup.width, &taken, len, pick) {
            None => {
                proof {
                    assert(placed(*setup, *lengths, picks@, k as int + 1) is None);
                    lemma_placed_none_stays(*setup, *lengths, picks@, k as int + 1, ships as int);
                }
                return Err(PlacementError::PlacementInfeasible);
            },
            Some(run) => {
                proof {
                    lemma_chosen_run_is_open(
                        setup.height as int,
                        setup.width as int,
                        taken@,
                        len as int,
                        pick as int,
                    );
                }
                let cells = lay_run(setup.height, setup.width, run, len);
                take_cells(&mut taken, &cells);
                let ship = PlacedShip { class, coords: cells };
                proof {
                    lemma_fleet_cells_push(front, ship@);
                }
                fleet.push(ship);
                proof {
                    assert(fleet_model(fleet@) =~= front.push(ship@));
                }
            },
        }
        k += 1;
    }
    proof {
        lemma_placement_is_legal(*setup, *lengths, picks@);
    }
    Ok(fleet)
}

/// What comes of a number of attempts is what came of one of them: the
/// fleet of the first attempt that placed one, and nothing only where every
/// attempt failed.
pub proof fn lemma_first_placement(
    setup: GameSetup,
    lengths: ClassLengths,
    attempts: Seq<Seq<u64>>,
    from: int,
)
    requires
        0 <= from,
    ensures
        match first_placement(setup, lengths, attempts, from) {
            Some(fleet) => exists|a: int|
                from <= a < attempts.len() && #[trigger] placement(setup, lengths, attempts[a])
                    == Some(fleet),
            None => forall|a: int|
                from <= a < attempts.len() ==> #[trigger] placement(setup, lengths, attempts[a])
                    is None,
        },
    decreases attempts.len() - from,
{
    if from < attempts.len() {
        if placement(setup, lengths, attempts[from]) is None {
            lemma_first_placement(setup, lengths, attempts, from + 1);
        }
    }
}

/// Places the fleet of `setup` in a bounded number of attempts: each of
/// `attempts` holds the picks of one attempt, as for [`place_fleet`], and
/// the fleet of the first attempt that places one comes back.
///
/// `PlacementInfeasible` comes back exactly when no attempt places a fleet.
pub fn place_fleet_in_attempts(
    setup: &GameSetup,
    lengths: &ClassLengths,
    attempts: &Vec<Vec<u64>>,
) -> (r: Result<Vec<PlacedShip>, PlacementError>)
    ensures
        match r {
            Ok(fleet) => {
                &&& first_placement(*setup, *lengths, attempt_picks(attempts@), 0) == Some(
                    fleet_model(fleet@),
                )
                &&& fleet@.len() == setup.total_ships()
                &&& fleet_legal(*setup, *lengths, fleet_model(fleet@))
            },
            Err(e) => first_placement(*setup, *lengths, attempt_picks(attempts@), 0) is None,
        },
{
    let mut a: usize = 0;
    while a < attempts.len()
        invariant
            a <= attempts.len(),
            first_placement(*setup, *lengths, attempt_picks(attempts@), 0) == first_placement(
                *setup,
                *lengths,
                attempt_picks(attempts@),
                a as int,
            ),
        decreases attempts.len() - a,
    {
        match place_fleet(setup, lengths, &attempts[a]) {
            Ok(fleet) => {
                return Ok(fleet);
            },
            Err(_) => {},
        }
        a += 1;
    }
    Err(PlacementError::PlacementInfeasible)
}

} // verus!
