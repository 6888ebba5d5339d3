use battleship::board::{generate_null_coord, CellSymbol, LocalBoard, OwnCoord, ShipPiece};
use battleship::coord::Coord;
use battleship::placement::PlacedShip;
use battleship::setup::ShipClass;

fn row_ship(class: ShipClass, y: i32, from: i32, len: i32) -> PlacedShip {
    PlacedShip { class, coords: (0..len).map(|k| Coord::new(from + k, y)).collect() }
}

fn small_board() -> LocalBoard {
    // a submarine on the top row and a destroyer on the bottom row of a
    // grid of four rows and five columns
    let fleet = vec![
        row_ship(ShipClass::Submarine, 0, 1, 3),
        row_ship(ShipClass::Destroyer, 3, 0, 4),
    ];
    LocalBoard::from_fleet(4, 5, &fleet).unwrap()
}

#[test]
fn null_coord_is_open_water_at_the_origin() {
    let cell = generate_null_coord();
    assert_eq!(cell, OwnCoord { x: 0, y: 0, ship: None, shot: false });
    assert!(cell.is_empty());
    assert_eq!(cell.symbol(), ".");
    assert_eq!(cell.cell_symbol(), CellSymbol::Water);
}

#[test]
fn own_coord_symbols() {
    let water = OwnCoord { x: 2, y: 3, ship: None, shot: false };
    let miss = OwnCoord { x: 2, y: 3, ship: None, shot: true };
    let piece = ShipPiece::new(0, ShipClass::Battleship);
    let ship = OwnCoord { x: 2, y: 3, ship: Some(piece), shot: false };
    let hit = OwnCoord { x: 2, y: 3, ship: Some(ShipPiece { shot: true, ..piece }), shot: true };
    assert_eq!(water.symbol(), ".");
    assert_eq!(miss.symbol(), "X");
    assert_eq!(ship.symbol(), "B");
    assert_eq!(hit.symbol(), "*");
    assert_eq!(water.cell_symbol(), CellSymbol::Water);
    assert_eq!(miss.cell_symbol(), CellSymbol::Miss);
    assert_eq!(ship.cell_symbol(), CellSymbol::Ship(ShipClass::Battleship));
    assert_eq!(hit.cell_symbol(), CellSymbol::Hit);
    assert!(water.is_empty());
    assert!(!ship.is_empty());
}

#[test]
fn class_letters_on_cells() {
    for (class, letter) in [
        (ShipClass::Submarine, "S"),
        (ShipClass::Destroyer, "D"),
        (ShipClass::Battleship, "B"),
        (ShipClass::Carrier, "C"),
    ] {
        let cell = OwnCoord { x: 0, y: 0, ship: Some(ShipPiece::new(3, class)), shot: false };
        assert_eq!(cell.symbol(), letter);
        assert_eq!(CellSymbol::Ship(class).to_text(), letter);
        assert_eq!(CellSymbol::Ship(class).to_char().to_string(), letter);
        assert_eq!(ShipPiece::new(3, class).symbol().to_string(), letter);
    }
    assert_eq!(CellSymbol::Hit.to_char(), '*');
    assert_eq!(CellSymbol::Miss.to_char(), 'X');
    assert_eq!(CellSymbol::Water.to_char(), '.');
}

#[test]
fn get_shot_marks_cell_and_piece() {
    let mut cell = OwnCoord { x: 1, y: 1, ship: Some(ShipPiece::new(2, ShipClass::Carrier)), shot: false };
    cell.get_shot();
    assert!(cell.shot);
    assert_eq!(cell.ship, Some(ShipPiece { ship: 2, class: ShipClass::Carrier, shot: true }));
    let once = cell;
    cell.get_shot();
    assert_eq!(cell, once);

    let mut water = generate_null_coord();
    water.get_shot();
    assert_eq!(water, OwnCoord { x: 0, y: 0, ship: None, shot: true });

    let mut piece = ShipPiece::new(0, ShipClass::Submarine);
    assert!(!piece.shot);
    piece.get_shot();
    assert!(piece.shot);
    piece.get_shot();
    assert!(piece.shot);
}

#[test]
fn empty_board_is_water() {
    let board = LocalBoard::new(2, 3);
    assert_eq!(board.height(), 2);
    assert_eq!(board.width(), 3);
    assert_eq!(board.ship_count(), 0);
    assert_eq!(board.live_ships(), 0);
    for y in 0..2 {
        for x in 0..3 {
            let c = Coord::new(x, y);
            assert_eq!(board.symbol_at(c), Some(CellSymbol::Water));
            assert_eq!(board.cell(c), Some(OwnCoord { x, y, ship: None, shot: false }));
        }
    }
    assert_eq!(board.symbol_at(Coord::new(3, 0)), None);
    assert_eq!(board.symbol_at(Coord::new(0, 2)), None);
    assert_eq!(board.symbol_at(Coord::new(-1, 0)), None);
    assert_eq!(board.cell(Coord::new(0, -1)), None);
}

#[test]
fn board_shows_the_fleet() {
    let board = small_board();
    assert_eq!(board.ship_count(), 2);
    assert_eq!(board.live_ships(), 2);
    assert_eq!(board.symbol_at(Coord::new(0, 0)), Some(CellSymbol::Water));
    assert_eq!(board.symbol_at(Coord::new(1, 0)), Some(CellSymbol::Ship(ShipClass::Submarine)));
    assert_eq!(board.symbol_at(Coord::new(3, 0)), Some(CellSymbol::Ship(ShipClass::Submarine)));
    assert_eq!(board.symbol_at(Coord::new(4, 0)), Some(CellSymbol::Water));
    assert_eq!(board.symbol_at(Coord::new(0, 3)), Some(CellSymbol::Ship(ShipClass::Destroyer)));
    assert_eq!(board.symbol_at(Coord::new(4, 3)), Some(CellSymbol::Water));
    assert_eq!(
        board.cell(Coord::new(2, 3)),
        Some(OwnCoord {
            x: 2,
            y: 3,
            ship: Some(ShipPiece { ship: 1, class: ShipClass::Destroyer, shot: false }),
            shot: false
        })
    );
    assert_eq!(board.is_ship_destroyed(0), Some(false));
    assert_eq!(board.is_ship_destroyed(1), Some(false));
    assert_eq!(board.is_ship_destroyed(2), None);
}

#[test]
fn shots_show_as_hit_and_miss() {
    let mut board = small_board();
    board.apply_shot(Coord::new(1, 0));
    board.apply_shot(Coord::new(0, 0));
    assert_eq!(board.symbol_at(Coord::new(1, 0)), Some(CellSymbol::Hit));
    assert_eq!(board.symbol_at(Coord::new(0, 0)), Some(CellSymbol::Miss));
    assert_eq!(board.symbol_at(Coord::new(2, 0)), Some(CellSymbol::Ship(ShipClass::Submarine)));
    assert_eq!(board.symbol_at(Coord::new(1, 1)), Some(CellSymbol::Water));
    assert_eq!(board.cell(Coord::new(1, 0)).unwrap().symbol(), "*");
    assert_eq!(board.cell(Coord::new(0, 0)).unwrap().symbol(), "X");
    assert_eq!(board.cell(Coord::new(2, 0)).unwrap().symbol(), "S");
    assert_eq!(board.cell(Coord::new(1, 1)).unwrap().symbol(), ".");
}

#[test]
fn shooting_twice_shows_the_same_as_once() {
    let targets = [Coord::new(1, 0), Coord::new(0, 0), Coord::new(9, 9), Coord::new(3, 3)];
    for target in targets {
        let mut once = small_board();
        once.apply_shot(target);
        let mut twice = small_board();
        twice.apply_shot(target);
        twice.apply_shot(target);
        for y in -1..5 {
            for x in -1..6 {
                let c = Coord::new(x, y);
                assert_eq!(once.symbol_at(c), twice.symbol_at(c));
                assert_eq!(once.cell(c), twice.cell(c));
            }
        }
        assert_eq!(once.is_ship_destroyed(0), twice.is_ship_destroyed(0));
        assert_eq!(once.is_ship_destroyed(1), twice.is_ship_destroyed(1));
        assert_eq!(once.live_ships(), twice.live_ships());
    }
}

#[test]
fn shot_off_the_grid_changes_nothing() {
    let mut board = small_board();
    board.apply_shot(Coord::new(5, 0));
    board.apply_shot(Coord::new(0, 4));
    board.apply_shot(Coord::new(-1, 2));
    board.apply_shot(Coord::new(i32::MAX, i32::MIN));
    let fresh = small_board();
    for y in 0..4 {
        for x in 0..5 {
            assert_eq!(board.cell(Coord::new(x, y)), fresh.cell(Coord::new(x, y)));
        }
    }
}

#[test]
fn ship_is_destroyed_when_all_its_cells_are_shot() {
    let mut board = small_board();
    board.apply_shots(&vec![Coord::new(1, 0), Coord::new(2, 0)]);
    assert_eq!(board.is_ship_destroyed(0), Some(false));
    assert_eq!(board.live_ships(), 2);
    board.apply_shots(&vec![Coord::new(2, 0), Coord::new(3, 0), Coord::new(4, 0)]);
    assert_eq!(board.is_ship_destroyed(0), Some(true));
    assert_eq!(board.is_ship_destroyed(1), Some(false));
    assert_eq!(board.live_ships(), 1);
    board.apply_shots(&vec![
        Coord::new(0, 3),
        Coord::new(1, 3),
        Coord::new(2, 3),
        Coord::new(3, 3),
    ]);
    assert_eq!(board.is_ship_destroyed(1), Some(true));
    assert_eq!(board.live_ships(), 0);
}

#[test]
fn ship_is_placed_only_on_free_cells_of_the_grid() {
    let mut board = LocalBoard::new(3, 3);
    let row = vec![Coord::new(0, 1), Coord::new(1, 1), Coord::new(2, 1)];
    assert!(board.can_place(&row));
    assert!(board.place_ship(ShipClass::Submarine, &row));
    assert_eq!(board.ship_count(), 1);
    // crosses the first ship
    let column = vec![Coord::new(1, 0), Coord::new(1, 1), Coord::new(1, 2)];
    assert!(!board.can_place(&column));
    assert!(!board.place_ship(ShipClass::Submarine, &column));
    // leaves the grid
    let outside = vec![Coord::new(2, 0), Coord::new(3, 0)];
    assert!(!board.place_ship(ShipClass::Destroyer, &outside));
    // names a cell twice
    let twice = vec![Coord::new(0, 0), Coord::new(0, 0)];
    assert!(!board.place_ship(ShipClass::Destroyer, &twice));
    // was shot at
    board.apply_shot(Coord::new(0, 2));
    let shot = vec![Coord::new(0, 2), Coord::new(1, 2)];
    assert!(!board.place_ship(ShipClass::Destroyer, &shot));
    assert_eq!(board.ship_count(), 1);
    assert_eq!(board.symbol_at(Coord::new(1, 0)), Some(CellSymbol::Water));
    let free = vec![Coord::new(1, 0), Coord::new(2, 0)];
    assert!(board.place_ship(ShipClass::Destroyer, &free));
    assert_eq!(board.ship_count(), 2);
    assert_eq!(board.symbol_at(Coord::new(2, 0)), Some(CellSymbol::Ship(ShipClass::Destroyer)));
    assert_eq!(board.cell(Coord::new(2, 0)).unwrap().ship.unwrap().ship, 1);
}

#[test]
fn overlapping_fleet_gives_no_board() {
    let fleet = vec![
        row_ship(ShipClass::Submarine, 0, 0, 3),
        row_ship(ShipClass::Submarine, 0, 2, 3),
    ];
    assert!(LocalBoard::from_fleet(4, 5, &fleet).is_none());
    let outside = vec![row_ship(ShipClass::Carrier, 0, 0, 6)];
    assert!(LocalBoard::from_fleet(4, 5, &outside).is_none());
    assert!(LocalBoard::from_fleet(4, 5, &Vec::new()).is_some());
}

#[test]
fn hit_and_miss_markers_differ() {
    let piece = ShipPiece { ship: 0, class: ShipClass::Destroyer, shot: true };
    let hit = OwnCoord { x: 4, y: 1, ship: Some(piece), shot: true };
    let miss = OwnCoord { x: 4, y: 1, ship: None, shot: true };
    assert_eq!(hit.symbol(), "*");
    assert_eq!(miss.symbol(), "X");
    assert_ne!(hit.symbol(), miss.symbol());
    let water = OwnCoord { x: 4, y: 1, ship: None, shot: false }.symbol();
    let mut shown = vec![hit.symbol(), miss.symbol(), water];
    for class in [
        ShipClass::Submarine,
        ShipClass::Destroyer,
        ShipClass::Battleship,
        ShipClass::Carrier,
    ] {
        let cell = OwnCoord { x: 4, y: 1, ship: Some(ShipPiece::new(0, class)), shot: false };
        shown.push(cell.symbol());
    }
    for (i, a) in shown.iter().enumerate() {
        assert_eq!(a.chars().count(), 1);
        for b in &shown[..i] {
            assert_ne!(a, b);
        }
    }
}
