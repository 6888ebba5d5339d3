//! The board that a player keeps of the own fleet: a grid of cells, each of
//! which may hold a piece of a ship, and for each ship the record of its
//! damage. Incoming shots are applied to it, and each cell can be asked for
//! what it shows.

use crate::coord::{copy_coords, Coord};
use crate::placement::{fleet_cells, PlacedModel, PlacedShip};
use crate::setup::ShipClass;
use crate::ship::{lemma_shoot_is_idempotent, lemma_shoot_keeps_wf, Ship, ShipModel};
use vstd::prelude::*;

verus! {

/// The part of a ship that lies on one cell.
#[derive(Clone, Copy, Debug, PartialEq, Eq, Structural)]
pub struct ShipPiece {
    /// The number of the ship on its board.
    pub ship: usize,
    /// The class of the ship.
    pub class: ShipClass,
    /// Whether this cell of the ship has been shot.
    pub shot: bool,
}

impl ShipPiece {
    pub fn new(ship: usize, class: ShipClass) -> (piece: ShipPiece)
        ensures
            piece == (ShipPiece { ship, class, shot: false }),
    {
        ShipPiece { ship, class, shot: false }
    }

    /// Records a shot on this cell of the ship; a second shot changes nothing.
    pub fn get_shot(&mut self)
        ensures
            *final(self) == (ShipPiece { shot: true, ..*old(self) }),
    {
        self.shot = true;
    }

    /// The character of the ship's class.
    pub fn symbol(&self) -> (c: char)
        ensures
            c == self.class.glyph(),
    {
        self.class.symbol()
    }
}

/// What a cell shows.
#[derive(Clone, Copy, Debug, PartialEq, Eq, Structural)]
pub enum CellSymbol {
    /// A shot that struck a ship.
    Hit,
    /// A shot that fell into the water.
    Miss,
    /// An intact part of a ship of the given class.
    Ship(ShipClass),
    /// Open water.
    Water,
}

impl CellSymbol {
    /// The character that is drawn: `*` for a hit, `X` for a miss, the
    /// letter of its class for an intact part of a ship, and a dot for water.
    pub open spec fn glyph(self) -> char {
        match self {
            CellSymbol::Hit => '*',
            CellSymbol::Miss => 'X',
            CellSymbol::Ship(class) => class.glyph(),
            CellSymbol::Water => '.',
        }
    }

    pub fn to_char(&self) -> (c: char)
        ensures
            c == self.glyph(),
    {
        match self {
            CellSymbol::Hit => '*',
            CellSymbol::Miss => 'X',
            CellSymbol::Ship(class) => class.symbol(),
            CellSymbol::Water => '.',
        }
    }

    /// The character that is drawn, as a string.
    pub fn to_text(&self) -> (s: String)
        ensures
            s@ == seq![self.glyph()],
    {
        proof {
            reveal_strlit("*");
            reveal_strlit("X");
            reveal_strlit(".");
            reveal_strlit("S");
            reveal_strlit("D");
            reveal_strlit("B");
            reveal_strlit("C");
        }
        let s = match self {
            CellSymbol::Hit => "*".to_string(),
            CellSymbol::Miss => "X".to_string(),
            CellSymbol::Water => ".".to_string(),
            CellSymbol::Ship(ShipClass::Submarine) => "S".to_string(),
            CellSymbol::Ship(ShipClass::Destroyer) => "D".to_string(),
            CellSymbol::Ship(ShipClass::Battleship) => "B".to_string(),
            CellSymbol::Ship(ShipClass::Carrier) => "C".to_string(),
        };
        proof {
            assert(s@ =~= seq![self.glyph()]);
        }
        s
    }
}

/// No two symbols are drawn alike: a hit, a miss, water and the ships of
/// each class all have characters of their own.
pub proof fn lemma_symbols_differ(a: CellSymbol, b: CellSymbol)
    ensures
        a.glyph() == b.glyph() <==> a == b,
{
}

/// One cell of a player's own board.
#[derive(Clone, Copy, Debug, PartialEq, Eq, Structural)]
pub struct OwnCoord {
    pub x: i32,
    pub y: i32,
    /// The piece of a ship that lies here, if any.
    pub ship: Option<ShipPiece>,
    /// Whether the cell has been shot at.
    pub shot: bool,
}

impl OwnCoord {
    /// The cell after a shot at it: the cell is marked, and so is the piece
    /// that lies on it.
    pub open spec fn shot_at(self) -> OwnCoord {
        OwnCoord {
            x: self.x,
            y: self.y,
            ship: match self.ship {
                Some(piece) => Some(ShipPiece { shot: true, ..piece }),
                None => None,
            },
            shot: true,
        }
    }

    /// What the cell shows: a hit where a shot struck a ship, a miss where a
    /// shot fell into the water, the ship's class where an intact piece
    /// lies, and water elsewhere.
    pub open spec fn rendering(self) -> CellSymbol {
        match (self.shot, self.ship) {
            (true, Some(_)) => CellSymbol::Hit,
            (true, None) => CellSymbol::Miss,
            (false, Some(piece)) => CellSymbol::Ship(piece.class),
            (false, None) => CellSymbol::Water,
        }
    }

    /// A cell of open water at `c`.
    pub open spec fn water(c: Coord) -> OwnCoord {
        OwnCoord { x: c.x, y: c.y, ship: None, shot: false }
    }

    pub fn get_shot(&mut self)
        ensures
            *final(self) == old(self).shot_at(),
    {
        self.shot = true;
        match self.ship {
            Some(piece) => {
                let mut piece = piece;
                piece.get_shot();
                self.ship = Some(piece);
            },
            None => {},
        }
    }

    pub fn is_empty(&self) -> (b: bool)
        ensures
            b == (self.ship is None),
    {
        match self.ship {
            Some(_) => false,
            None => true,
        }
    }

    /// What the cell shows.
    pub fn cell_symbol(&self) -> (s: CellSymbol)
        ensures
            s == self.rendering(),
    {
        if self.shot {
            match self.ship {
                Some(_) => CellSymbol::Hit,
                None => CellSymbol::Miss,
            }
        } else {
            match self.ship {
                Some(piece) => CellSymbol::Ship(piece.class),
                None => CellSymbol::Water,
            }
        }
    }

    /// The character that the cell shows, as a string: the hit marker on a
    /// shot cell that holds a piece, the miss marker on a shot cell that holds
    /// none, the letter of the ship's class on an intact piece, and the water
    /// symbol elsewhere.
    pub fn symbol(&self) -> (s: String)
        ensures
            s@ == seq![self.rendering().glyph()],
            s@ == seq![
                if self.shot {
                    if self.ship is Some {
                        CellSymbol::Hit.glyph()
                    } else {
                        CellSymbol::Miss.glyph()
                    }
                } else {
                    match self.ship {
                        Some(piece) => piece.class.glyph(),
                        None => CellSymbol::Water.glyph(),
                    }
                },
            ],
    {
        self.cell_symbol().to_text()
    }
}

/// A cell of open water at the origin.
pub fn generate_null_coord() -> (cell: OwnCoord)
    ensures
        cell == (OwnCoord { x: 0, y: 0, ship: None, shot: false }),
{
    OwnCoord { x: 0, y: 0, ship: None, shot: false }
}

/// The mathematical content of a [`LocalBoard`].
pub struct BoardModel {
    pub height: int,
    pub width: int,
    /// One cell for each coordinate of the grid.
    pub cells: Map<Coord, OwnCoord>,
    /// The ships, each under its number.
    pub ships: Seq<ShipModel>,
}

impl BoardModel {
    /// A board of open water.
    pub open spec fn empty(height: int, width: int) -> BoardModel {
        BoardModel {
            height,
            width,
            cells: Map::new(|c: Coord| c.in_grid(height, width), |c: Coord| OwnCoord::water(c)),
            ships: Seq::empty(),
        }
    }

    /// Whether the cell at `c` holds a piece of ship `i`.
    pub open spec fn holds_piece(self, c: Coord, i: int) -> bool {
        &&& self.cells.dom().contains(c)
        &&& self.cells[c].ship matches Some(piece)
        &&& piece.ship == i
    }

    /// The cell at `c` knows its place, and the piece on it, if any, belongs
    /// to a ship of the board whose hull covers the cell and whose record of
    /// damage agrees with the cell.
    pub open spec fn cell_ok(self, c: Coord) -> bool {
        let cell = self.cells[c];
        &&& cell.x == c.x
        &&& cell.y == c.y
        &&& match cell.ship {
            Some(piece) => {
                &&& piece.ship < self.ships.len()
                &&& self.ships[piece.ship as int].hull.contains(c)
                &&& piece.shot == cell.shot
                &&& cell.shot <==> self.ships[piece.ship as int].destroyed.contains(c)
            },
            None => true,
        }
    }

    /// Ship `i` is well formed, and each cell of its hull holds a piece of it.
    pub open spec fn ship_ok(self, i: int) -> bool {
        &&& self.ships[i].wf()
        &&& forall|j: int|
            0 <= j < self.ships[i].hull.len() ==> self.holds_piece(
                #[trigger] self.ships[i].hull[j],
                i,
            )
    }

    pub open spec fn wf(self) -> bool {
        &&& 0 <= self.height
        &&& 0 <= self.width
        &&& forall|c: Coord| self.cells.dom().contains(c) <==> c.in_grid(self.height, self.width)
        &&& forall|c: Coord| #[trigger] self.cells.dom().contains(c) ==> self.cell_ok(c)
        &&& forall|i: int| 0 <= i < self.ships.len() ==> #[trigger] self.ship_ok(i)
    }

    /// A ship can be placed on `coords` if they are distinct cells of the
    /// grid that hold no ship and were not shot at, and a number is left for
    /// the ship.
    pub open spec fn can_place(self, coords: Seq<Coord>) -> bool {
        &&& self.ships.len() < usize::MAX
        &&& coords.no_duplicates()
        &&& forall|j: int|
            0 <= j < coords.len() ==> {
                &&& (#[trigger] coords[j]).in_grid(self.height, self.width)
                &&& self.cells[coords[j]].ship is None
                &&& !self.cells[coords[j]].shot
            }
    }

    /// The board with one more ship, of `class`, on `coords`.
    pub open spec fn place(self, class: ShipClass, coords: Seq<Coord>) -> BoardModel {
        let piece = ShipPiece { ship: self.ships.len() as usize, class, shot: false };
        BoardModel {
            height: self.height,
            width: self.width,
            cells: Map::new(
                |c: Coord| self.cells.dom().contains(c),
                |c: Coord|
                    if coords.contains(c) {
                        OwnCoord { ship: Some(piece), ..self.cells[c] }
                    } else {
                        self.cells[c]
                    },
            ),
            ships: self.ships.push(ShipModel::fresh(coords)),
        }
    }

    /// The board with the ships of `fleet` placed one after the other, or
    /// `None` if one of them cannot be placed.
    pub open spec fn with_fleet(self, fleet: Seq<PlacedModel>) -> Option<BoardModel>
        decreases fleet.len(),
    {
        if fleet.len() == 0 {
            Some(self)
        } else {
            match self.with_fleet(fleet.drop_last()) {
                None => None,
                Some(board) => if board.can_place(fleet.last().cells) {
                    Some(board.place(fleet.last().class, fleet.last().cells))
                } else {
                    None
                },
            }
        }
    }

    /// The board after a shot at `c`: the cell is marked, and if a piece
    /// lies on it, the shot is passed on to its ship. A shot that falls off
    /// the grid changes nothing.
    pub open spec fn apply_shot(self, c: Coord) -> BoardModel {
        if !c.in_grid(self.height, self.width) {
            self
        } else {
            BoardModel {
                height: self.height,
                width: self.width,
                cells: self.cells.insert(c, self.cells[c].shot_at()),
                ships: match self.cells[c].ship {
                    Some(piece) => self.ships.update(
                        piece.ship as int,
                        self.ships[piece.ship as int].shoot_at(c),
                    ),
                    None => self.ships,
                },
            }
        }
    }

    /// The board after a shot at each of `shots`, in order.
    pub open spec fn apply_shots(self, shots: Seq<Coord>) -> BoardModel
        decreases shots.len(),
    {
        if shots.len() == 0 {
            self
        } else {
            self.apply_shots(shots.drop_last()).apply_shot(shots.last())
        }
    }

    /// What the cell at `c` shows; nothing off the grid.
    pub open spec fn symbol_at(self, c: Coord) -> Option<CellSymbol> {
        if c.in_grid(self.height, self.width) {
            Some(self.cells[c].rendering())
        } else {
            None
        }
    }

    /// The number of ships among the first `upto` that are not destroyed.
    pub open spec fn live_before(self, upto: int) -> int
        decreases upto,
    {
        if upto <= 0 {
            0
        } else {
            self.live_before(upto - 1) + if self.ships[upto - 1].is_destroyed() {
                0int
            } else {
                1int
            }
        }
    }

    /// The number of ships that are not destroyed.
    pub open spec fn live_ships(self) -> int {
        self.live_before(self.ships.len() as int)
    }
}

/// A shot keeps a board well formed.
pub proof fn lemma_apply_shot_keeps_wf(m: BoardModel, c: Coord)
    requires
        m.wf(),
    ensures
        m.apply_shot(c).wf(),
{
    broadcast use vstd::seq_lib::group_seq_properties;

    let after = m.apply_shot(c);
    if c.in_grid(m.height, m.width) {
        assert(m.cells.dom().contains(c));
        assert(m.cell_ok(c));
        match m.cells[c].ship {
            Some(piece) => {
                let i = piece.ship as int;
                assert(m.ship_ok(i));
                lemma_shoot_keeps_wf(m.ships[i], c);
                let hit = m.ships[i].shoot_at(c);
                assert(hit.destroyed.contains(c)) by {
                    if m.ships[i].scores(c) {
                        assert(hit.destroyed[m.ships[i].destroyed.len() as int] == c);
                    }
                }
                assert forall|p: Coord| #[trigger] after.cells.dom().contains(p) implies after.cell_ok(
                    p,
                ) by {
                    assert(m.cells.dom().contains(p));
                    assert(m.cell_ok(p));
                }
                assert forall|k: int| 0 <= k < after.ships.len() implies #[trigger] after.ship_ok(
                    k,
                ) by {
                    assert(m.ship_ok(k));
                    assert forall|j: int| 0 <= j < after.ships[k].hull.len() implies after.holds_piece(
                        #[trigger] after.ships[k].hull[j],
                        k,
                    ) by {
                        assert(m.holds_piece(m.ships[k].hull[j], k));
                    }
                }
            },
            None => {
                assert forall|p: Coord| #[trigger] after.cells.dom().contains(p) implies after.cell_ok(
                    p,
                ) by {
                    assert(m.cells.dom().contains(p));
                    assert(m.cell_ok(p));
                }
                assert forall|k: int| 0 <= k < after.ships.len() implies #[trigger] after.ship_ok(
                    k,
                ) by {
                    assert(m.ship_ok(k));
                    assert forall|j: int| 0 <= j < after.ships[k].hull.len() implies after.holds_piece(
                        #[trigger] after.ships[k].hull[j],
                        k,
                    ) by {
                        assert(m.holds_piece(m.ships[k].hull[j], k));
                    }
                }
            },
        }
    }
}

/// Any number of shots keep a board well formed and leave its size as it was.
pub proof fn lemma_apply_shots_keeps_wf(m: BoardModel, shots: Seq<Coord>)
    requires
        m.wf(),
    ensures
        m.apply_shots(shots).wf(),
        m.apply_shots(shots).height == m.height,
        m.apply_shots(shots).width == m.width,
        m.apply_shots(shots).ships.len() == m.ships.len(),
    decreases shots.len(),
{
    if shots.len() > 0 {
        lemma_apply_shots_keeps_wf(m, shots.drop_last());
        lemma_apply_shot_keeps_wf(m.apply_shots(shots.drop_last()), shots.last());
        let before = m.apply_shots(shots.drop_last());
        if shots.last().in_grid(before.height, before.width) {
            assert(before.cells.dom().contains(shots.last()));
            assert(before.cell_ok(shots.last()));
        }
    }
}

/// Shooting twice at a coordinate leaves the board as one shot does: every
/// cell shows the same, and every ship has the same damage.
pub proof fn lemma_shot_is_idempotent(m: BoardModel, c: Coord)
    requires
        m.wf(),
    ensures
        m.apply_shot(c).apply_shot(c) == m.apply_shot(c),
        forall|p: Coord| m.apply_shot(c).apply_shot(c).symbol_at(p) == m.apply_shot(c).symbol_at(p),
{
    let once = m.apply_shot(c);
    let twice = once.apply_shot(c);
    if c.in_grid(m.height, m.width) {
        assert(m.cells.dom().contains(c));
        assert(m.cell_ok(c));
        assert(twice.cells =~= once.cells);
        match m.cells[c].ship {
            Some(piece) => {
                lemma_shoot_is_idempotent(m.ships[piece.ship as int], c);
                assert(twice.ships =~= once.ships);
            },
            None => {},
        }
    }
}

/// A shot changes what a cell shows only at the coordinate that it is aimed
/// at, and there it shows a hit where a ship lies and a miss where none does.
pub proof fn lemma_shot_shows(m: BoardModel, c: Coord, p: Coord)
    requires
        m.wf(),
    ensures
        p != c ==> m.apply_shot(c).symbol_at(p) == m.symbol_at(p),
        c.in_grid(m.height, m.width) ==> m.apply_shot(c).symbol_at(c) == Some(
            if m.cells[c].ship is Some {
                CellSymbol::Hit
            } else {
                CellSymbol::Miss
            },
        ),
{
}

/// On a well-formed board a ship is destroyed exactly when every cell of its
/// hull has been shot at.
pub proof fn lemma_destroyed_means_all_shot(m: BoardModel, i: int)
    requires
        m.wf(),
        0 <= i < m.ships.len(),
    ensures
        m.ships[i].is_destroyed() <==> (forall|j: int|
            0 <= j < m.ships[i].hull.len() ==> m.cells[#[trigger] m.ships[i].hull[j]].shot),
{
    let ship = m.ships[i];
    assert(m.ship_ok(i));
    if ship.is_destroyed() {
        assert forall|j: int| 0 <= j < ship.hull.len() implies m.cells[#[trigger] ship.hull[j]].shot by {
            let c = ship.hull[j];
            assert(m.holds_piece(c, i));
            assert(m.cell_ok(c));
            assert(ship.hull.contains(c));
        }
    }
    if forall|j: int| 0 <= j < ship.hull.len() ==> m.cells[#[trigger] ship.hull[j]].shot {
        assert forall|c: Coord| ship.hull.contains(c) implies ship.destroyed.contains(c) by {
            let j = choose|j: int| 0 <= j < ship.hull.len() && ship.hull[j] == c;
            assert(m.holds_piece(ship.hull[j], i));
            assert(m.cell_ok(c));
        }
    }
}

/// Placing a ship where it can be placed keeps a board well formed.
pub proof fn lemma_place_keeps_wf(m: BoardModel, class: ShipClass, coords: Seq<Coord>)
    requires
        m.wf(),
        m.can_place(coords),
    ensures
        m.place(class, coords).wf(),
{
    broadcast use vstd::seq_lib::group_seq_properties;

    let after = m.place(class, coords);
    let id = m.ships.len() as int;
    assert forall|p: Coord| #[trigger] after.cells.dom().contains(p) implies after.cell_ok(p) by {
        assert(m.cells.dom().contains(p));
        assert(m.cell_ok(p));
        if coords.contains(p) {
            let j = choose|j: int| 0 <= j < coords.len() && coords[j] == p;
            assert(coords[j].in_grid(m.height, m.width));
        }
    }
    assert forall|k: int| 0 <= k < after.ships.len() implies #[trigger] after.ship_ok(k) by {
        if k < id {
            assert(m.ship_ok(k));
            assert forall|j: int| 0 <= j < after.ships[k].hull.len() implies after.holds_piece(
                #[trigger] after.ships[k].hull[j],
                k,
            ) by {
                let p = m.ships[k].hull[j];
                assert(m.holds_piece(p, k));
                if coords.contains(p) {
                    let a = choose|a: int| 0 <= a < coords.len() && coords[a] == p;
                    assert(m.cells[coords[a]].ship is None);
                }
            }
        } else {
            assert(after.ships[k] == ShipModel::fresh(coords));
            assert forall|j: int| 0 <= j < coords.len() implies after.holds_piece(
                #[trigger] coords[j],
                k,
            ) by {
                assert(coords[j].in_grid(m.height, m.width));
                assert(coords.contains(coords[j]));
            }
        }
    }
}

spec fn rows_ok(rows: Seq<Vec<OwnCoord>>, height: int, width: int) -> bool {
    &&& rows.len() == height
    &&& forall|y: int| 0 <= y < height ==> (#[trigger] rows[y])@.len() == width
}

spec fn rows_map(rows: Seq<Vec<OwnCoord>>, height: int, width: int) -> Map<Coord, OwnCoord> {
    Map::new(|c: Coord| c.in_grid(height, width), |c: Coord| rows[c.y as int]@[c.x as int])
}

/// A player's board of the own fleet.
#[derive(Clone, Debug)]
pub struct LocalBoard {
    height: usize,
    width: usize,
    cells: Vec<Vec<OwnCoord>>,
    ships: Vec<Ship>,
}

impl View for LocalBoard {
    type V = BoardModel;

    closed spec fn view(&self) -> BoardModel {
        BoardModel {
            height: self.height as int,
            width: self.width as int,
            cells: rows_map(self.cells@, self.height as int, self.width as int),
            ships: Seq::new(self.ships@.len(), |i: int| self.ships@[i]@),
        }
    }
}

impl LocalBoard {
    /// The grid has the stated size, which fits the coordinates' type, and
    /// the content is well formed.
    pub closed spec fn wf(&self) -> bool {
        &&& self.height <= i32::MAX
        &&& self.width <= i32::MAX
        &&& rows_ok(self.cells@, self.height as int, self.width as int)
        &&& self@.wf()
    }

    /// What well-formedness says of the content.
    pub proof fn lemma_wf_content(&self)
        requires
            self.wf(),
        ensures
            self@.wf(),
            self@.height <= i32::MAX,
            self@.width <= i32::MAX,
    {
    }

    /// A board of `height` rows and `width` columns of open water.
    pub fn new(height: i32, width: i32) -> (board: LocalBoard)
        requires
            height >= 0,
            width >= 0,
        ensures
            board@ == BoardModel::empty(height as int, width as int),
            board.wf(),
    {
        let h = height as usize;
        let w = width as usize;
        let mut cells: Vec<Vec<OwnCoord>> = Vec::new();
        let mut y: usize = 0;
        while y < h
            invariant
                y <= h,
                h <= i32::MAX,
                w <= i32::MAX,
                cells@.len() == y,
                forall|r: int| 0 <= r < y ==> (#[trigger] cells@[r])@.len() == w,
                forall|r: int, k: int|
                    0 <= r < y && 0 <= k < w ==> (#[trigger] cells@[r]@[k]) == OwnCoord::water(
                        Coord { x: k as i32, y: r as i32 },
                    ),
            decreases h - y,
        {
            let mut row: Vec<OwnCoord> = Vec::new();
            let mut x: usize = 0;
            while x < w
                invariant
                    x <= w,
                    y < h,
                    h <= i32::MAX,
                    w <= i32::MAX,
                    row@.len() == x,
                    forall|k: int|
                        0 <= k < x ==> (#[trigger] row@[k]) == OwnCoord::water(
                            Coord { x: k as i32, y: y as i32 },
                        ),
                decreases w - x,
            {
                row.push(OwnCoord { x: x as i32, y: y as i32, ship: None, shot: false });
                x += 1;
            }
            cells.push(row);
            y += 1;
        }
        let board = LocalBoard { height: h, width: w, cells, ships: Vec::new() };
        proof {
            assert(board@.cells =~= BoardModel::empty(height as int, width as int).cells);
            assert(board@.ships =~= BoardModel::empty(height as int, width as int).ships);
        }
        board
    }

    /// Whether a ship can be placed on `coords`.
    pub fn can_place(&self, coords: &Vec<Coord>) -> (ok: bool)
        requires
            self.wf(),
        ensures
            ok == self@.can_place(coords@),
    {
        if self.ships.len() == usize::MAX {
            return false;
        }
        let mut j: usize = 0;
        while j < coords.len()
            invariant
                j <= coords.len(),
                self.wf(),
                coords@.take(j as int).no_duplicates(),
                forall|k: int|
                    0 <= k < j ==> {
                        &&& (#[trigger] coords@[k]).in_grid(self@.height, self@.width)
                        &&& self@.cells[coords@[k]].ship is None
                        &&& !self@.cells[coords@[k]].shot
                    },
            decreases coords.len() - j,
        {
            let c = coords[j];
            if !(0 <= c.x && (c.x as usize) < self.width && 0 <= c.y && (c.y as usize)
                < self.height) {
                return false;
            }
            let cell = self.cells[c.y as usize][c.x as usize];
            if cell.ship.is_some() || cell.shot {
                return false;
            }
            let mut k: usize = 0;
            while k < j
                invariant
                    k <= j,
                    j < coords.len(),
                    c == coords@[j as int],
                    forall|m: int| 0 <= m < k ==> coords@[m] != c,
                decreases j - k,
            {
                if coords[k] == c {
                    return false;
                }
                k += 1;
            }
            proof {
                let done = coords@.take(j as int);
                let next = coords@.take(j as int + 1);
                assert(next =~= done.push(c));
                assert forall|a: int, b: int|
                    0 <= a < next.len() && 0 <= b < next.len() && a != b implies next[a]
                    != next[b] by {
                    if a < j && b < j {
                        assert(done[a] != done[b]);
                    }
                }
            }
            j += 1;
        }
        proof {
            assert(coords@.take(coords@.len() as int) =~= coords@);
        }
        true
    }

    /// Places a ship of `class` on `coords` if it can be placed there, and
    /// says whether it did. The ship gets the next free number.
    pub fn place_ship(&mut self, class: ShipClass, coords: &Vec<Coord>) -> (placed: bool)
        requires
            old(self).wf(),
        ensures
            final(self).wf(),
            placed == old(self)@.can_place(coords@),
            final(self)@ == if placed {
                old(self)@.place(class, coords@)
            } else {
                old(self)@
            },
    {
        if !self.can_place(coords) {
            return false;
        }
        let id = self.ships.len();
        let piece = ShipPiece { ship: id, class, shot: false };
        let ghost start = self@;
        let ghost start_rows = rows_map(self.cells@, self.height as int, self.width as int);
        proof {
            lemma_place_keeps_wf(start, class, coords@);
        }
        let mut j: usize = 0;
        while j < coords.len()
            invariant
                j <= coords.len(),
                self.height == old(self).height,
                self.width == old(self).width,
                self.ships == old(self).ships,
                start == old(self)@,
                start.can_place(coords@),
                start_rows == start.cells,
                piece == (ShipPiece { ship: start.ships.len() as usize, class, shot: false }),
                rows_ok(self.cells@, self.height as int, self.width as int),
                rows_map(self.cells@, self.height as int, self.width as int) == Map::new(
                    |c: Coord| start_rows.dom().contains(c),
                    |c: Coord|
                        if coords@.take(j as int).contains(c) {
                            OwnCoord { ship: Some(piece), ..start_rows[c] }
                        } else {
                            start_rows[c]
                        },
                ),
            decreases coords.len() - j,
        {
            let c = coords[j];
            assert(c.in_grid(start.height, start.width));
            let y = c.y as usize;
            let x = c.x as usize;
            let ghost before = rows_map(self.cells@, self.height as int, self.width as int);
            let mut cell = self.cells[y][x];
            cell.ship = Some(piece);
            self.cells[y][x] = cell;
            proof {
                let done = coords@.take(j as int);
                let next = coords@.take(j as int + 1);
                assert(next =~= done.push(c));
                let after = rows_map(self.cells@, self.height as int, self.width as int);
                let goal = Map::new(
                    |p: Coord| start_rows.dom().contains(p),
                    |p: Coord|
                        if next.contains(p) {
                            OwnCoord { ship: Some(piece), ..start_rows[p] }
                        } else {
                            start_rows[p]
                        },
                );
                assert forall|p: Coord| after.dom().contains(p) implies after[p] == goal[p] by {
                    if p == c {
                        assert(next[j as int] == c);
                        assert(!done.contains(c)) by {
                            if done.contains(c) {
                                let k = choose|k: int| 0 <= k < done.len() && done[k] == c;
                                assert(coords@[k] == coords@[j as int]);
                            }
                        }
                        assert(before[p] == start_rows[p]);
                    } else {
                        assert(after[p] == before[p]);
                        if next.contains(p) {
                            let k = choose|k: int| 0 <= k < next.len() && next[k] == p;
                            assert(done[k] == p);
                        }
                        if done.contains(p) {
                            let k = choose|k: int| 0 <= k < done.len() && done[k] == p;
                            assert(next[k] == p);
                        }
                    }
                }
                assert(after =~= goal);
            }
            j += 1;
        }
        let hull = copy_coords(coords);
        self.ships.push(Ship::new(hull));
        proof {
            assert(coords@.take(coords@.len() as int) =~= coords@);
            assert(self@.cells =~= start.place(class, coords@).cells);
            assert(self@.ships =~= start.place(class, coords@).ships);
        }
        true
    }

    /// A board of the given size with the ships of `fleet`, numbered in
    /// their order; `None` if one of them cannot be placed.
    pub fn from_fleet(height: i32, width: i32, fleet: &Vec<PlacedShip>) -> (r: Option<LocalBoard>)
        requires
            height >= 0,
            width >= 0,
        ensures
            match r {
                Some(board) => board.wf() && Some(board@) == BoardModel::empty(
                    height as int,
                    width as int,
                ).with_fleet(crate::placement::fleet_model(fleet@)),
                None => BoardModel::empty(height as int, width as int).with_fleet(
                    crate::placement::fleet_model(fleet@),
                ) is None,
            },
    {
        let mut board = LocalBoard::new(height, width);
        let ghost start = board@;
        let ghost models = crate::placement::fleet_model(fleet@);
        proof {
            lemma_empty_is_wf(height as int, width as int);
        }
        let mut k: usize = 0;
        while k < fleet.len()
            invariant
                k <= fleet.len(),
                board.wf(),
                models == crate::placement::fleet_model(fleet@),
                start == BoardModel::empty(height as int, width as int),
                start.with_fleet(models.take(k as int)) == Some(board@),
            decreases fleet.len() - k,
        {
            let placed = board.place_ship(fleet[k].class, &fleet[k].coords);
            proof {
                assert(models.take(k as int + 1).drop_last() =~= models.take(k as int));
                assert(models.take(k as int + 1).last() == fleet@[k as int]@);
            }
            if !placed {
                proof {
                    lemma_with_fleet_none_stays(start, models, k as int + 1);
                }
                return None;
            }
            k += 1;
        }
        proof {
            assert(models.take(fleet@.len() as int) =~= models);
        }
        Some(board)
    }

    /// Applies an incoming shot: marks the cell and passes the shot on to the
    /// ship that lies there, if any. A shot off the grid is ignored.
    pub fn apply_shot(&mut self, c: Coord)
        requires
            old(self).wf(),
        ensures
            final(self).wf(),
            final(self)@ == old(self)@.apply_shot(c),
    {
        proof {
            lemma_apply_shot_keeps_wf(self@, c);
        }
        if !(0 <= c.x && (c.x as usize) < self.width && 0 <= c.y && (c.y as usize) < self.height) {
            return ;
        }
        let y = c.y as usize;
        let x = c.x as usize;
        let ghost start = self@;
        assert(start.cells.dom().contains(c));
        assert(start.cell_ok(c));
        let mut cell = self.cells[y][x];
        cell.get_shot();
        self.cells[y][x] = cell;
        match cell.ship {
            Some(piece) => {
                assert(start.ship_ok(piece.ship as int));
                self.ships[piece.ship].shoot_at(&c);
                proof {
                    assert(self@.ships =~= start.apply_shot(c).ships);
                }
            },
            None => {
                proof {
                    assert(self@.ships =~= start.apply_shot(c).ships);
                }
            },
        }
        proof {
            assert(self@.cells =~= start.apply_shot(c).cells);
        }
    }

    /// Applies each of `shots`, in order.
    pub fn apply_shots(&mut self, shots: &Vec<Coord>)
        requires
            old(self).wf(),
        ensures
            final(self).wf(),
            final(self)@ == old(self)@.apply_shots(shots@),
    {
        let mut j: usize = 0;
        while j < shots.len()
            invariant
                j <= shots.len(),
                self.wf(),
                self@ == old(self)@.apply_shots(shots@.take(j as int)),
            decreases shots.len() - j,
        {
            self.apply_shot(shots[j]);
            proof {
                assert(shots@.take(j as int + 1).drop_last() =~= shots@.take(j as int));
            }
            j += 1;
        }
        proof {
            assert(shots@.take(shots@.len() as int) =~= shots@);
        }
    }

    /// What the cell at `c` shows; `None` off the grid.
    pub fn symbol_at(&self, c: Coord) -> (s: Option<CellSymbol>)
        requires
            self.wf(),
        ensures
            s == self@.symbol_at(c),
    {
        if !(0 <= c.x && (c.x as usize) < self.width && 0 <= c.y && (c.y as usize) < self.height) {
            return None;
        }
        Some(self.cells[c.y as usize][c.x as usize].cell_symbol())
    }

    /// The cell at `c`; `None` off the grid.
    pub fn cell(&self, c: Coord) -> (r: Option<OwnCoord>)
        requires
            self.wf(),
        ensures
            r == if c.in_grid(self@.height, self@.width) {
                Some(self@.cells[c])
            } else {
                None
            },
    {
        if !(0 <= c.x && (c.x as usize) < self.width && 0 <= c.y && (c.y as usize) < self.height) {
            return None;
        }
        Some(self.cells[c.y as usize][c.x as usize])
    }

    pub fn height(&self) -> (h: i32)
        requires
            self.wf(),
        ensures
            h == self@.height,
    {
        self.height as i32
    }

    pub fn width(&self) -> (w: i32)
        requires
            self.wf(),
        ensures
            w == self@.width,
    {
        self.width as i32
    }

    /// The number of ships on the board.
    pub fn ship_count(&self) -> (n: usize)
        ensures
            n == self@.ships.len(),
    {
        self.ships.len()
    }

    /// Whether ship `id` is destroyed; `None` if the board has no such ship.
    pub fn is_ship_destroyed(&self, id: usize) -> (r: Option<bool>)
        ensures
            r == if id < self@.ships.len() {
                Some(self@.ships[id as int].is_destroyed())
            } else {
                None
            },
    {
        if id < self.ships.len() {
            Some(self.ships[id].is_destroyed())
        } else {
            None
        }
    }

    /// The number of ships that are not destroyed.
    pub fn live_ships(&self) -> (n: usize)
        ensures
            n == self@.live_ships(),
    {
        let mut n: usize = 0;
        let mut i: usize = 0;
        while i < self.ships.len()
            invariant
                i <= self.ships.len(),
                n <= i,
                n == self@.live_before(i as int),
            decreases self.ships.len() - i,
        {
            if !self.ships[i].is_destroyed() {
                n += 1;
            }
            i += 1;
        }
        n
    }
}

/// A board of open water is well formed.
pub proof fn lemma_empty_is_wf(height: int, width: int)
    requires
        0 <= height,
        0 <= width,
    ensures
        BoardModel::empty(height, width).wf(),
{
}

/// A fleet whose cells are distinct cells of the grid can be placed on a
/// board of open water. The board that results is well formed, has the ships
/// of the fleet under their numbers, undamaged, and holds a piece exactly on
/// the cells of the fleet.
pub proof fn lemma_legal_fleet_fits(height: int, width: int, fleet: Seq<PlacedModel>)
    requires
        0 <= height,
        0 <= width,
        fleet.len() <= usize::MAX,
        fleet_cells(fleet).no_duplicates(),
        forall|c: Coord| #[trigger] fleet_cells(fleet).contains(c) ==> c.in_grid(height, width),
    ensures
        BoardModel::empty(height, width).with_fleet(fleet) is Some,
        ({
            let board = BoardModel::empty(height, width).with_fleet(fleet)->0;
            &&& board.wf()
            &&& board.height == height
            &&& board.width == width
            &&& board.ships.len() == fleet.len()
            &&& forall|i: int|
                0 <= i < fleet.len() ==> #[trigger] board.ships[i] == ShipModel::fresh(
                    fleet[i].cells,
                )
            &&& forall|c: Coord|
                c.in_grid(height, width) ==> (board.cells[c].ship is Some <==> #[trigger] fleet_cells(
                    fleet,
                ).contains(c))
            &&& forall|c: Coord| c.in_grid(height, width) ==> !(#[trigger] board.cells[c]).shot
        }),
    decreases fleet.len(),
{
    broadcast use vstd::seq_lib::group_seq_properties;

    let start = BoardModel::empty(height, width);
    if fleet.len() == 0 {
        lemma_empty_is_wf(height, width);
    } else {
        let front = fleet.drop_last();
        let last = fleet.last();
        let taken = fleet_cells(front);
        let all = fleet_cells(fleet);
        assert(all == taken + last.cells);
        assert forall|i: int, j: int| 0 <= i < taken.len() && 0 <= j < taken.len() && i
            != j implies taken[i] != taken[j] by {
            assert(all[i] == taken[i]);
            assert(all[j] == taken[j]);
        }
        assert forall|i: int, j: int| 0 <= i < last.cells.len() && 0 <= j < last.cells.len() && i
            != j implies last.cells[i] != last.cells[j] by {
            assert(all[taken.len() + i] == last.cells[i]);
            assert(all[taken.len() + j] == last.cells[j]);
        }
        assert forall|j: int| 0 <= j < last.cells.len() implies !taken.contains(
            #[trigger] last.cells[j],
        ) by {
            if taken.contains(last.cells[j]) {
                let i = choose|i: int| 0 <= i < taken.len() && taken[i] == last.cells[j];
                assert(all[i] == taken[i]);
                assert(all[taken.len() + j] == last.cells[j]);
            }
        }
        assert forall|c: Coord| #[trigger] taken.contains(c) implies c.in_grid(height, width) by {
            assert(all.contains(c));
        }
        lemma_legal_fleet_fits(height, width, front);
        let before = start.with_fleet(front)->0;
        assert(before.can_place(last.cells)) by {
            assert forall|j: int| 0 <= j < last.cells.len() implies {
                &&& (#[trigger] last.cells[j]).in_grid(before.height, before.width)
                &&& before.cells[last.cells[j]].ship is None
                &&& !before.cells[last.cells[j]].shot
            } by {
                assert(all[taken.len() + j] == last.cells[j]);
                assert(all.contains(last.cells[j]));
            }
        }
        lemma_place_keeps_wf(before, last.class, last.cells);
        let board = before.place(last.class, last.cells);
        assert(start.with_fleet(fleet) == Some(board));
        assert forall|i: int| 0 <= i < fleet.len() implies #[trigger] board.ships[i]
            == ShipModel::fresh(fleet[i].cells) by {
            if i < front.len() {
                assert(board.ships[i] == before.ships[i]);
                assert(front[i] == fleet[i]);
            }
        }
        assert forall|c: Coord| c.in_grid(height, width) implies (board.cells[c].ship is Some
            <==> #[trigger] all.contains(c)) by {
            assert(before.cells.dom().contains(c));
        }
        assert forall|c: Coord| c.in_grid(height, width) implies !(#[trigger] board.cells[c]).shot by {
            assert(before.cells.dom().contains(c));
            assert(!before.cells[c].shot);
        }
    }
}

/// Once a ship could not be placed, no longer part of the fleet is placed.
proof fn lemma_with_fleet_none_stays(m: BoardModel, fleet: Seq<PlacedModel>, k: int)
    requires
        0 <= k <= fleet.len(),
        m.with_fleet(fleet.take(k)) is None,
    ensures
        m.with_fleet(fleet) is None,
    decreases fleet.len() - k,
{
    if k < fleet.len() {
        assert(fleet.take(k + 1).drop_last() =~= fleet.take(k));
        lemma_with_fleet_none_stays(m, fleet, k + 1);
    } else {
        assert(fleet.take(k) =~= fleet);
    }
}

} // verus!
