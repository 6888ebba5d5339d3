//! The model behind the match dashboard: for each player a grid of cells
//! that records where ships lie, where shots fell and what was destroyed.
//! Drawing is left to the caller; this module says what each cell shows.

use crate::coord::Coord;
use crate::ship::Ship;
use vstd::prelude::*;

verus! {

/// What has happened to a cell.
#[derive(Clone, Copy, Debug, PartialEq, Eq, Structural)]
pub enum State {
    Normal,
    Shot,
    Hit,
}

/// What lies on a cell.
#[derive(Clone, Copy, Debug, PartialEq, Eq, Structural)]
pub enum CoordPiece {
    Empty,
    Ship,
}

/// The colour in which a cell is drawn.
#[derive(Clone, Copy, Debug, PartialEq, Eq, Structural)]
pub enum CellColor {
    Gray,
    Orange,
    Red,
    LightBlue,
}

/// One cell of a player's grid.
#[derive(Clone, Copy, Debug, PartialEq, Eq, Structural)]
pub struct ViewCoord {
    pub state: State,
    pub piece: CoordPiece,
}

impl ViewCoord {
    /// An empty cell that nothing has happened to.
    pub open spec fn blank() -> ViewCoord {
        ViewCoord { state: State::Normal, piece: CoordPiece::Empty }
    }

    /// A shot marks a cell that nothing has happened to; a cell that was
    /// shot at or hit before stays as it is.
    pub open spec fn shot(self) -> ViewCoord {
        if self.state == State::Normal {
            ViewCoord { state: State::Shot, piece: self.piece }
        } else {
            self
        }
    }

    /// The cell after it was reported as damaged.
    pub open spec fn damaged(self) -> ViewCoord {
        ViewCoord { state: State::Hit, piece: self.piece }
    }

    /// The cell with a ship on it.
    pub open spec fn occupied(self) -> ViewCoord {
        ViewCoord { state: self.state, piece: CoordPiece::Ship }
    }

    /// A hit cell is red. Otherwise a ship is light blue, and water is
    /// orange where a shot fell and gray where none did.
    pub open spec fn shown_as(self) -> CellColor {
        match (self.piece, self.state) {
            (_, State::Hit) => CellColor::Red,
            (CoordPiece::Empty, State::Shot) => CellColor::Orange,
            (CoordPiece::Empty, State::Normal) => CellColor::Gray,
            (CoordPiece::Ship, _) => CellColor::LightBlue,
        }
    }

    pub fn shoot_at(&mut self)
        ensures
            *final(self) == old(self).shot(),
    {
        match self.state {
            State::Normal => {
                self.state = State::Shot;
            },
            _ => {},
        }
    }

    pub fn hit(&mut self)
        ensures
            *final(self) == old(self).damaged(),
    {
        self.state = State::Hit;
    }

    /// The colour in which the cell is drawn.
    pub fn color(&self) -> (c: CellColor)
        ensures
            c == self.shown_as(),
    {
        match self.piece {
            CoordPiece::Empty => match self.state {
                State::Hit => CellColor::Red,
                State::Shot => CellColor::Orange,
                State::Normal => CellColor::Gray,
            },
            CoordPiece::Ship => match self.state {
                State::Hit => CellColor::Red,
                _ => CellColor::LightBlue,
            },
        }
    }
}

/// What is done to each cell of a list.
#[derive(Clone, Copy, PartialEq, Eq, Structural)]
enum CellOp {
    PlaceShip,
    Shoot,
    Damage,
}

impl CellOp {
    spec fn apply(self, cell: ViewCoord) -> ViewCoord {
        match self {
            CellOp::PlaceShip => cell.occupied(),
            CellOp::Shoot => cell.shot(),
            CellOp::Damage => cell.damaged(),
        }
    }

    fn perform(self, cell: ViewCoord) -> (after: ViewCoord)
        ensures
            after == self.apply(cell),
    {
        let mut after = cell;
        match self {
            CellOp::PlaceShip => {
                after.piece = CoordPiece::Ship;
            },
            CellOp::Shoot => {
                after.shoot_at();
            },
            CellOp::Damage => {
                after.hit();
            },
        }
        after
    }
}

/// A grid of cells, each under its coordinate.
pub type Board = Map<Coord, ViewCoord>;

/// Whether one of `hulls` covers `c`.
pub open spec fn occupied_by(hulls: Seq<Seq<Coord>>, c: Coord) -> bool {
    exists|i: int, j: int|
        0 <= i < hulls.len() && 0 <= j < hulls[i].len() && #[trigger] hulls[i][j] == c
}

/// The hulls of `ships`, in order.
pub open spec fn hulls_of(ships: Seq<Ship>) -> Seq<Seq<Coord>> {
    Seq::new(ships.len(), |i: int| ships[i]@.hull)
}

/// Whether every coordinate of `cells` lies on a grid of the given size.
pub open spec fn all_in_grid(cells: Seq<Coord>, height: int, width: int) -> bool {
    forall|j: int| 0 <= j < cells.len() ==> (#[trigger] cells[j]).in_grid(height, width)
}

/// `board` with a ship on every cell that one of `hulls` covers.
pub open spec fn with_ships(board: Board, hulls: Seq<Seq<Coord>>) -> Board {
    Map::new(
        |c: Coord| board.dom().contains(c),
        |c: Coord|
            if occupied_by(hulls, c) {
                board[c].occupied()
            } else {
                board[c]
            },
    )
}

/// `board` after a shot at each of `shots`.
pub open spec fn with_shots(board: Board, shots: Seq<Coord>) -> Board {
    Map::new(
        |c: Coord| board.dom().contains(c),
        |c: Coord|
            if shots.contains(c) {
                board[c].shot()
            } else {
                board[c]
            },
    )
}

/// `board` with each of `hits` marked as damaged.
pub open spec fn with_damage(board: Board, hits: Seq<Coord>) -> Board {
    Map::new(
        |c: Coord| board.dom().contains(c),
        |c: Coord|
            if hits.contains(c) {
                board[c].damaged()
            } else {
                board[c]
            },
    )
}

/// The mathematical content of a [`GameView`].
pub struct GameViewModel {
    pub height: int,
    pub width: int,
    /// The grid of the first player: one cell for each coordinate of the grid.
    pub first: Board,
    /// The grid of the second player.
    pub second: Board,
}

impl GameViewModel {
    /// Two grids of blank cells.
    pub open spec fn blank(height: int, width: int) -> GameViewModel {
        GameViewModel {
            height,
            width,
            first: Map::new(|c: Coord| c.in_grid(height, width), |c: Coord| ViewCoord::blank()),
            second: Map::new(|c: Coord| c.in_grid(height, width), |c: Coord| ViewCoord::blank()),
        }
    }
}

spec fn grid_ok(rows: Seq<Vec<ViewCoord>>, height: int, width: int) -> bool {
    &&& rows.len() == height
    &&& forall|y: int| 0 <= y < height ==> (#[trigger] rows[y])@.len() == width
}

spec fn grid_map(rows: Seq<Vec<ViewCoord>>, height: int, width: int) -> Board {
    Map::new(|c: Coord| c.in_grid(height, width), |c: Coord| rows[c.y as int]@[c.x as int])
}

spec fn marked(board: Board, cells: Seq<Coord>, op: CellOp) -> Board {
    Map::new(
        |c: Coord| board.dom().contains(c),
        |c: Coord|
            if cells.contains(c) {
                op.apply(board[c])
            } else {
                board[c]
            },
    )
}

fn blank_grid(height: usize, width: usize) -> (rows: Vec<Vec<ViewCoord>>)
    ensures
        grid_ok(rows@, height as int, width as int),
        grid_map(rows@, height as int, width as int) == GameViewModel::blank(
            height as int,
            width as int,
        ).first,
{
    let mut rows: Vec<Vec<ViewCoord>> = Vec::new();
    let mut y: usize = 0;
    while y < height
        invariant
            y <= height,
            rows@.len() == y,
            forall|r: int| 0 <= r < y ==> (#[trigger] rows@[r])@.len() == width,
            forall|r: int, k: int|
                0 <= r < y && 0 <= k < width ==> (#[trigger] rows@[r]@[k]) == ViewCoord::blank(),
        decreases height - y,
    {
        let mut row: Vec<ViewCoord> = Vec::new();
        let mut x: usize = 0;
        while x < width
            invariant
                x <= width,
                row@.len() == x,
                forall|k: int| 0 <= k < x ==> (#[trigger] row@[k]) == ViewCoord::blank(),
            decreases width - x,
        {
            row.push(ViewCoord { state: State::Normal, piece: CoordPiece::Empty });
            x += 1;
        }
        rows.push(row);
        y += 1;
    }
    proof {
        assert(grid_map(rows@, height as int, width as int) =~= GameViewModel::blank(
            height as int,
            width as int,
        ).first);
    }
    rows
}

fn mark_cells(
    board: &mut Vec<Vec<ViewCoord>>,
    height: usize,
    width: usize,
    cells: &Vec<Coord>,
    op: CellOp,
)
    requires
        grid_ok(old(board)@, height as int, width as int),
        all_in_grid(cells@, height as int, width as int),
    ensures
        grid_ok(final(board)@, height as int, width as int),
        grid_map(final(board)@, height as int, width as int) == marked(
            grid_map(old(board)@, height as int, width as int),
            cells@,
            op,
        ),
{
    let ghost start = grid_map(board@, height as int, width as int);
    proof {
        assert(cells@.take(0) =~= Seq::<Coord>::empty());
        assert(start =~= marked(start, cells@.take(0), op));
    }
    let mut j: usize = 0;
    while j < cells.len()
        invariant
            j <= cells.len(),
            grid_ok(board@, height as int, width as int),
            all_in_grid(cells@, height as int, width as int),
            start.dom() == grid_map(board@, height as int, width as int).dom(),
            grid_map(board@, height as int, width as int) == marked(start, cells@.take(j as int), op),
        decreases cells.len() - j,
    {
        let c = cells[j];
        assert(c.in_grid(height as int, width as int));
        let y = c.y as usize;
        let x = c.x as usize;
        let ghost before = grid_map(board@, height as int, width as int);
        let ghost rows_before = board@;
        let cell = board[y][x];
        board[y][x] = op.perform(cell);
        proof {
            let done = cells@.take(j as int);
            let next = cells@.take(j as int + 1);
            assert(next =~= done.push(c));
            let after = grid_map(board@, height as int, width as int);
            assert forall|p: Coord| after.dom().contains(p) implies after[p] == marked(
                start,
                next,
                op,
            )[p] by {
                if p == c {
                    assert(next[j as int] == c);
                    assert(after[p] == op.apply(before[p]));
                } else {
                    assert(after[p] == before[p]);
                    if next.contains(p) {
                        let k = choose|k: int| 0 <= k < next.len() && next[k] == p;
                        assert(done[k] == p);
                    }
                    if done.contains(p) {
                        let k = choose|k: int| 0 <= k < done.len() && done[k] == p;
                        assert(next[k] == p);
                    }
                }
            }
            assert(after =~= marked(start, next, op));
        }
        j += 1;
    }
    proof {
        assert(cells@.take(cells@.len() as int) =~= cells@);
    }
}

fn place_ships(board: &mut Vec<Vec<ViewCoord>>, height: usize, width: usize, ships: &Vec<Ship>)
    requires
        grid_ok(old(board)@, height as int, width as int),
        forall|i: int|
            0 <= i < ships@.len() ==> all_in_grid(
                #[trigger] hulls_of(ships@)[i],
                height as int,
                width as int,
            ),
    ensures
        grid_ok(final(board)@, height as int, width as int),
        grid_map(final(board)@, height as int, width as int) == with_ships(
            grid_map(old(board)@, height as int, width as int),
            hulls_of(ships@),
        ),
{
    let ghost start = grid_map(board@, height as int, width as int);
    let ghost hulls = hulls_of(ships@);
    proof {
        assert(start =~= with_ships(start, hulls.take(0)));
    }
    let mut i: usize = 0;
    while i < ships.len()
        invariant
            i <= ships.len(),
            hulls == hulls_of(ships@),
            grid_ok(board@, height as int, width as int),
            forall|k: int|
                0 <= k < ships@.len() ==> all_in_grid(
                    #[trigger] hulls_of(ships@)[k],
                    height as int,
                    width as int,
                ),
            grid_map(board@, height as int, width as int) == with_ships(start, hulls.take(i as int)),
        decreases ships.len() - i,
    {
        let hull = ships[i].coords();
        assert(hull@ == hulls[i as int]);
        let ghost before = grid_map(board@, height as int, width as int);
        mark_cells(board, height, width, hull, CellOp::PlaceShip);
        proof {
            let done = hulls.take(i as int);
            let next = hulls.take(i as int + 1);
            let after = grid_map(board@, height as int, width as int);
            assert forall|c: Coord| occupied_by(next, c) <==> (occupied_by(done, c)
                || hull@.contains(c)) by {
                if occupied_by(next, c) {
                    let (a, b) = choose|a: int, b: int|
                        0 <= a < next.len() && 0 <= b < next[a].len() && #[trigger] next[a][b]
                            == c;
                    if a < i {
                        assert(done[a][b] == c);
                    } else {
                        assert(hull@[b] == c);
                    }
                }
                if occupied_by(done, c) {
                    let (a, b) = choose|a: int, b: int|
                        0 <= a < done.len() && 0 <= b < done[a].len() && #[trigger] done[a][b]
                            == c;
                    assert(next[a][b] == c);
                }
                if hull@.contains(c) {
                    let b = choose|b: int| 0 <= b < hull@.len() && hull@[b] == c;
                    assert(next[i as int][b] == c);
                }
            }
            assert(after =~= with_ships(start, next));
        }
        i += 1;
    }
    proof {
        assert(hulls.take(ships@.len() as int) =~= hulls);
    }
}

/// The grids of both players, as the dashboard shows them.
#[derive(Clone, Debug)]
pub struct GameView {
    height: usize,
    width: usize,
    p1_board: Vec<Vec<ViewCoord>>,
    p2_board: Vec<Vec<ViewCoord>>,
}

impl View for GameView {
    type V = GameViewModel;

    closed spec fn view(&self) -> GameViewModel {
        GameViewModel {
            height: self.height as int,
            width: self.width as int,
            first: grid_map(self.p1_board@, self.height as int, self.width as int),
            second: grid_map(self.p2_board@, self.height as int, self.width as int),
        }
    }
}

impl GameView {
    /// Both grids have the stated size, which fits the coordinates' type.
    pub closed spec fn wf(&self) -> bool {
        &&& self.height <= i32::MAX
        &&& self.width <= i32::MAX
        &&& grid_ok(self.p1_board@, self.height as int, self.width as int)
        &&& grid_ok(self.p2_board@, self.height as int, self.width as int)
    }

    /// In a well-formed view each grid has a cell for each coordinate of the
    /// grid, and for no other.
    pub proof fn lemma_grid_domain(&self)
        requires
            self.wf(),
        ensures
            0 <= self@.height <= i32::MAX,
            0 <= self@.width <= i32::MAX,
            forall|c: Coord| self@.first.dom().contains(c) <==> c.in_grid(self@.height, self@.width),
            forall|c: Coord| self@.second.dom().contains(c) <==> c.in_grid(self@.height, self@.width),
    {
    }

    /// Two grids of `height` rows and `width` columns, all cells blank.
    pub fn new(height: i32, width: i32) -> (view: GameView)
        requires
            height >= 0,
            width >= 0,
        ensures
            view@ == GameViewModel::blank(height as int, width as int),
            view.wf(),
    {
        let h = height as usize;
        let w = width as usize;
        GameView { height: h, width: w, p1_board: blank_grid(h, w), p2_board: blank_grid(h, w) }
    }

    /// Puts the ships of each player on that player's grid.
    pub fn populate_ships(&mut self, p1_ship_coords: &Vec<Ship>, p2_ship_coords: &Vec<Ship>)
        requires
            old(self).wf(),
            forall|i: int|
                0 <= i < p1_ship_coords@.len() ==> all_in_grid(
                    #[trigger] hulls_of(p1_ship_coords@)[i],
                    old(self)@.height,
                    old(self)@.width,
                ),
            forall|i: int|
                0 <= i < p2_ship_coords@.len() ==> all_in_grid(
                    #[trigger] hulls_of(p2_ship_coords@)[i],
                    old(self)@.height,
                    old(self)@.width,
                ),
        ensures
            final(self).wf(),
            final(self)@ == (GameViewModel {
                first: with_ships(old(self)@.first, hulls_of(p1_ship_coords@)),
                second: with_ships(old(self)@.second, hulls_of(p2_ship_coords@)),
                ..old(self)@
            }),
    {
        place_ships(&mut self.p1_board, self.height, self.width, p1_ship_coords);
        place_ships(&mut self.p2_board, self.height, self.width, p2_ship_coords);
    }

    /// Records the shots of each player on the grid of the other.
    pub fn report_player_shots(&mut self, p1_shots: &Vec<Coord>, p2_shots: &Vec<Coord>)
        requires
            old(self).wf(),
            all_in_grid(p1_shots@, old(self)@.height, old(self)@.width),
            all_in_grid(p2_shots@, old(self)@.height, old(self)@.width),
        ensures
            final(self).wf(),
            final(self)@ == (GameViewModel {
                first: with_shots(old(self)@.first, p2_shots@),
                second: with_shots(old(self)@.second, p1_shots@),
                ..old(self)@
            }),
    {
        mark_cells(&mut self.p2_board, self.height, self.width, p1_shots, CellOp::Shoot);
        mark_cells(&mut self.p1_board, self.height, self.width, p2_shots, CellOp::Shoot);
        proof {
            assert(final(self)@.first =~= with_shots(old(self)@.first, p2_shots@));
            assert(final(self)@.second =~= with_shots(old(self)@.second, p1_shots@));
        }
    }

    /// Marks the damaged coordinates of each player on that player's grid.
    pub fn report_player_damaged_coords(
        &mut self,
        p1_damaged_coords: &Vec<Coord>,
        p2_damaged_coords: &Vec<Coord>,
    )
        requires
            old(self).wf(),
            all_in_grid(p1_damaged_coords@, old(self)@.height, old(self)@.width),
            all_in_grid(p2_damaged_coords@, old(self)@.height, old(self)@.width),
        ensures
            final(self).wf(),
            final(self)@ == (GameViewModel {
                first: with_damage(old(self)@.first, p1_damaged_coords@),
                second: with_damage(old(self)@.second, p2_damaged_coords@),
                ..old(self)@
            }),
    {
        mark_cells(&mut self.p1_board, self.height, self.width, p1_damaged_coords, CellOp::Damage);
        mark_cells(&mut self.p2_board, self.height, self.width, p2_damaged_coords, CellOp::Damage);
        proof {
            assert(final(self)@.first =~= with_damage(old(self)@.first, p1_damaged_coords@));
            assert(final(self)@.second =~= with_damage(old(self)@.second, p2_damaged_coords@));
        }
    }

    pub fn height(&self) -> (h: i32)
        requires
            self.wf(),
        ensures
            h == self@.height,
    {
        self.height as i32
    }

    pub fn width(&self) -> (w: i32)
        requires
            self.wf(),
        ensures
            w == self@.width,
    {
        self.width as i32
    }

    /// The cell at `c` on the grid of the first player.
    pub fn p1_cell(&self, c: Coord) -> (cell: ViewCoord)
        requires
            self.wf(),
            c.in_grid(self@.height, self@.width),
        ensures
            cell == self@.first[c],
    {
        self.p1_board[c.y as usize][c.x as usize]
    }

    /// The cell at `c` on the grid of the second player.
    pub fn p2_cell(&self, c: Coord) -> (cell: ViewCoord)
        requires
            self.wf(),
            c.in_grid(self@.height, self@.width),
        ensures
            cell == self@.second[c],
    {
        self.p2_board[c.y as usize][c.x as usize]
    }

    /// How far the cursor moves right before the two headings of the
    /// dashboard: before the first, twice the width less four columns; between
    /// the two, four times the width less four.
    pub fn banner_offsets(&self) -> (offsets: (i64, i64))
        requires
            self.wf(),
        ensures
            offsets.0 == 2 * self@.width - 4,
            offsets.1 == 4 * self@.width + 4 - 8,
    {
        let w = self.width as i64;
        (2 * w - 4, 4 * w + 4 - 8)
    }
}

} // verus!
