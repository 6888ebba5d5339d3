//! The configuration of a game: the size of the grid, how many ships of each
//! class a fleet has, and how long the ships of each class are.

use vstd::prelude::*;

verus! {

/// The classes of ships, from the shortest to the longest of the standard
/// table.
#[derive(Clone, Copy, Debug, PartialEq, Eq, Structural, Hash)]
pub enum ShipClass {
    Submarine,
    Destroyer,
    Battleship,
    Carrier,
}

impl ShipClass {
    /// The character that stands for a ship of this class on a board.
    pub open spec fn glyph(self) -> char {
        match self {
            ShipClass::Submarine => 'S',
            ShipClass::Destroyer => 'D',
            ShipClass::Battleship => 'B',
            ShipClass::Carrier => 'C',
        }
    }

    pub fn symbol(&self) -> (c: char)
        ensures
            c == self.glyph(),
    {
        match self {
            ShipClass::Submarine => 'S',
            ShipClass::Destroyer => 'D',
            ShipClass::Battleship => 'B',
            ShipClass::Carrier => 'C',
        }
    }
}

/// The length of the ships of each class, in cells.
#[derive(Clone, Copy, Debug, PartialEq, Eq, Structural)]
pub struct ClassLengths {
    pub submarine: i32,
    pub destroyer: i32,
    pub battleship: i32,
    pub carrier: i32,
}

impl ClassLengths {
    /// Every class has at least one cell.
    pub open spec fn valid(self) -> bool {
        self.submarine >= 1 && self.destroyer >= 1 && self.battleship >= 1 && self.carrier >= 1
    }

    /// The length of the ships of `class`.
    pub open spec fn of(self, class: ShipClass) -> int {
        match class {
            ShipClass::Submarine => self.submarine as int,
            ShipClass::Destroyer => self.destroyer as int,
            ShipClass::Battleship => self.battleship as int,
            ShipClass::Carrier => self.carrier as int,
        }
    }

    /// The table of the standard game: three cells for a submarine, four for
    /// a destroyer, five for a battleship and six for a carrier.
    pub fn standard() -> (table: ClassLengths)
        ensures
            table == (ClassLengths { submarine: 3, destroyer: 4, battleship: 5, carrier: 6 }),
            table.valid(),
    {
        ClassLengths { submarine: 3, destroyer: 4, battleship: 5, carrier: 6 }
    }

    pub fn new(submarine: i32, destroyer: i32, battleship: i32, carrier: i32) -> (table:
        ClassLengths)
        ensures
            table == (ClassLengths { submarine, destroyer, battleship, carrier }),
    {
        ClassLengths { submarine, destroyer, battleship, carrier }
    }

    pub fn is_valid(&self) -> (b: bool)
        ensures
            b == self.valid(),
    {
        self.submarine >= 1 && self.destroyer >= 1 && self.battleship >= 1 && self.carrier >= 1
    }

    pub fn length_of(&self, class: ShipClass) -> (len: i32)
        ensures
            len == self.of(class),
    {
        match class {
            ShipClass::Submarine => self.submarine,
            ShipClass::Destroyer => self.destroyer,
            ShipClass::Battleship => self.battleship,
            ShipClass::Carrier => self.carrier,
        }
    }

    /// The length of the shortest class.
    pub open spec fn least(self) -> int {
        let a = if self.submarine <= self.destroyer {
            self.submarine
        } else {
            self.destroyer
        };
        let b = if self.battleship <= self.carrier {
            self.battleship
        } else {
            self.carrier
        };
        if a <= b {
            a as int
        } else {
            b as int
        }
    }

    /// The length of the shortest class.
    pub fn shortest(&self) -> (len: i32)
        ensures
            len == self.least(),
            forall|class: ShipClass| len <= self.of(class),
            exists|class: ShipClass| len == self.of(class),
    {
        let mut len = self.submarine;
        if self.destroyer < len {
            len = self.destroyer;
        }
        if self.battleship < len {
            len = self.battleship;
        }
        if self.carrier < len {
            len = self.carrier;
        }
        proof {
            if len == self.submarine {
                assert(len == self.of(ShipClass::Submarine));
            } else if len == self.destroyer {
                assert(len == self.of(ShipClass::Destroyer));
            } else if len == self.battleship {
                assert(len == self.of(ShipClass::Battleship));
            } else {
                assert(len == self.of(ShipClass::Carrier));
            }
        }
        len
    }
}

/// What the server announces before a game: the grid and the fleet.
#[derive(Clone, Copy, Debug, PartialEq, Eq, Structural)]
pub struct GameSetup {
    pub height: i32,
    pub width: i32,
    pub submarines: i32,
    pub destroyers: i32,
    pub battleships: i32,
    pub carriers: i32,
}

/// The product of two numbers that are not negative.
fn product(a: i32, b: i32) -> (p: u64)
    requires
        a >= 0,
        b >= 0,
    ensures
        p == a * b,
        p <= 0x3fff_ffff_0000_0001,
{
    assert(0 <= a * b <= 0x7fff_ffff * 0x7fff_ffff) by (nonlinear_arith)
        requires
            0 <= a <= 0x7fff_ffff,
            0 <= b <= 0x7fff_ffff,
    ;
    (a as u64) * (b as u64)
}

impl GameSetup {
    pub fn new(
        height: i32,
        width: i32,
        submarines: i32,
        destroyers: i32,
        battleships: i32,
        carriers: i32,
    ) -> (setup: GameSetup)
        ensures
            setup == (GameSetup { height, width, submarines, destroyers, battleships, carriers }),
    {
        GameSetup { height, width, submarines, destroyers, battleships, carriers }
    }

    /// How many ships of `class` the fleet has.
    pub open spec fn count_of(self, class: ShipClass) -> int {
        match class {
            ShipClass::Submarine => self.submarines as int,
            ShipClass::Destroyer => self.destroyers as int,
            ShipClass::Battleship => self.battleships as int,
            ShipClass::Carrier => self.carriers as int,
        }
    }

    /// No count and no side of the grid is negative.
    pub open spec fn sane(self) -> bool {
        &&& self.height >= 0
        &&& self.width >= 0
        &&& self.submarines >= 0
        &&& self.destroyers >= 0
        &&& self.battleships >= 0
        &&& self.carriers >= 0
    }

    /// The number of ships of the fleet.
    pub open spec fn total_ships(self) -> int {
        self.submarines + self.destroyers + self.battleships + self.carriers
    }

    /// The number of cells that the fleet occupies.
    pub open spec fn total_cells(self, lengths: ClassLengths) -> int {
        self.submarines * lengths.submarine + self.destroyers * lengths.destroyer
            + self.battleships * lengths.battleship + self.carriers * lengths.carrier
    }

    /// The number of cells of the grid.
    pub open spec fn capacity(self) -> int {
        self.height * self.width
    }

    /// A setup is valid when nothing in it is negative, every class has a
    /// length, and the fleet occupies no more cells than the grid has.
    pub open spec fn valid(self, lengths: ClassLengths) -> bool {
        &&& self.sane()
        &&& lengths.valid()
        &&& self.total_cells(lengths) <= self.capacity()
    }

    /// The class of the `k`-th ship of the fleet: the submarines come first,
    /// then the destroyers, the battleships and the carriers.
    pub open spec fn class_at(self, k: int) -> ShipClass {
        if k < self.submarines {
            ShipClass::Submarine
        } else if k < self.submarines + self.destroyers {
            ShipClass::Destroyer
        } else if k < self.submarines + self.destroyers + self.battleships {
            ShipClass::Battleship
        } else {
            ShipClass::Carrier
        }
    }

    pub fn is_sane(&self) -> (b: bool)
        ensures
            b == self.sane(),
    {
        self.height >= 0 && self.width >= 0 && self.submarines >= 0 && self.destroyers >= 0
            && self.battleships >= 0 && self.carriers >= 0
    }

    pub fn is_valid(&self, lengths: &ClassLengths) -> (b: bool)
        ensures
            b == self.valid(*lengths),
    {
        if !self.is_sane() || !lengths.is_valid() {
            return false;
        }
        let cells: u64 = product(self.submarines, lengths.submarine) + product(
            self.destroyers,
            lengths.destroyer,
        ) + product(self.battleships, lengths.battleship) + product(self.carriers, lengths.carrier);
        cells <= product(self.height, self.width)
    }

    pub fn count(&self, class: ShipClass) -> (n: i32)
        ensures
            n == self.count_of(class),
    {
        match class {
            ShipClass::Submarine => self.submarines,
            ShipClass::Destroyer => self.destroyers,
            ShipClass::Battleship => self.battleships,
            ShipClass::Carrier => self.carriers,
        }
    }

    /// The number of ships of the fleet.
    pub fn ship_total(&self) -> (n: u64)
        requires
            self.sane(),
        ensures
            n == self.total_ships(),
    {
        self.submarines as u64 + self.destroyers as u64 + self.battleships as u64
            + self.carriers as u64
    }

    /// The class of the `k`-th ship of the fleet.
    pub fn class_of(&self, k: u64) -> (class: ShipClass)
        requires
            self.sane(),
        ensures
            class == self.class_at(k as int),
    {
        let subs = self.submarines as u64;
        let dess = self.destroyers as u64;
        let bats = self.battleships as u64;
        if k < subs {
            ShipClass::Submarine
        } else if k < subs + dess {
            ShipClass::Destroyer
        } else if k < subs + dess + bats {
            ShipClass::Battleship
        } else {
            ShipClass::Carrier
        }
    }
}

} // verus!
