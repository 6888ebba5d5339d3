use battleship::setup::{ClassLengths, GameSetup, ShipClass};

#[test]
fn game_setup_new_keeps_fields() {
    let s = GameSetup::new(10, 12, 1, 2, 3, 4);
    assert_eq!(s.height, 10);
    assert_eq!(s.width, 12);
    assert_eq!(s.submarines, 1);
    assert_eq!(s.destroyers, 2);
    assert_eq!(s.battleships, 3);
    assert_eq!(s.carriers, 4);
    assert_eq!(s.count(ShipClass::Submarine), 1);
    assert_eq!(s.count(ShipClass::Destroyer), 2);
    assert_eq!(s.count(ShipClass::Battleship), 3);
    assert_eq!(s.count(ShipClass::Carrier), 4);
    assert_eq!(s.ship_total(), 10);
}

#[test]
fn standard_lengths() {
    let t = ClassLengths::standard();
    assert_eq!(t.length_of(ShipClass::Submarine), 3);
    assert_eq!(t.length_of(ShipClass::Destroyer), 4);
    assert_eq!(t.length_of(ShipClass::Battleship), 5);
    assert_eq!(t.length_of(ShipClass::Carrier), 6);
    assert_eq!(t.shortest(), 3);
    assert!(t.is_valid());
}

#[test]
fn custom_lengths() {
    let t = ClassLengths::new(5, 2, 4, 3);
    assert_eq!(t.shortest(), 2);
    assert!(t.is_valid());
    assert!(!ClassLengths::new(0, 2, 4, 3).is_valid());
    assert!(!ClassLengths::new(1, 2, 4, -3).is_valid());
    assert_eq!(ClassLengths::new(7, 7, 7, 1).shortest(), 1);
    assert_eq!(ClassLengths::new(7, 7, 2, 9).shortest(), 2);
}

#[test]
fn setup_validity_counts_cells() {
    let t = ClassLengths::standard();
    // 3 + 4 + 5 + 6 = 18 cells on 100
    assert!(GameSetup::new(10, 10, 1, 1, 1, 1).is_valid(&t));
    // 9 cells on 9
    assert!(GameSetup::new(3, 3, 3, 0, 0, 0).is_valid(&t));
    // 12 cells on 9
    assert!(!GameSetup::new(3, 3, 4, 0, 0, 0).is_valid(&t));
    // 3 cells on 4, although no ship of three fits a grid of two by two
    assert!(GameSetup::new(2, 2, 1, 0, 0, 0).is_valid(&t));
    assert!(GameSetup::new(0, 0, 0, 0, 0, 0).is_valid(&t));
    assert!(!GameSetup::new(-1, 10, 0, 0, 0, 0).is_valid(&t));
    assert!(!GameSetup::new(10, 10, -1, 0, 0, 0).is_valid(&t));
    assert!(!GameSetup::new(10, 10, 1, 0, 0, 0).is_valid(&ClassLengths::new(3, 0, 5, 6)));
    assert!(GameSetup::new(10, 10, 1, 0, 0, 0).is_sane());
    assert!(!GameSetup::new(10, 10, 1, 0, 0, -2).is_sane());
}

#[test]
fn setup_validity_with_the_largest_numbers() {
    let t = ClassLengths::new(i32::MAX, i32::MAX, i32::MAX, i32::MAX);
    let s = GameSetup::new(i32::MAX, i32::MAX, i32::MAX, i32::MAX, i32::MAX, i32::MAX);
    assert!(!s.is_valid(&t));
    let one = GameSetup::new(i32::MAX, i32::MAX, i32::MAX, 0, 0, 0);
    assert!(one.is_valid(&t));
    assert_eq!(s.ship_total(), 4 * (i32::MAX as u64));
}

#[test]
fn ships_are_numbered_by_class() {
    let s = GameSetup::new(10, 10, 2, 0, 1, 2);
    assert_eq!(s.class_of(0), ShipClass::Submarine);
    assert_eq!(s.class_of(1), ShipClass::Submarine);
    assert_eq!(s.class_of(2), ShipClass::Battleship);
    assert_eq!(s.class_of(3), ShipClass::Carrier);
    assert_eq!(s.class_of(4), ShipClass::Carrier);
}

#[test]
fn class_symbols() {
    assert_eq!(ShipClass::Submarine.symbol(), 'S');
    assert_eq!(ShipClass::Destroyer.symbol(), 'D');
    assert_eq!(ShipClass::Battleship.symbol(), 'B');
    assert_eq!(ShipClass::Carrier.symbol(), 'C');
}
