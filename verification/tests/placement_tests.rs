use battleship::coord::Coord;
use battleship::placement::{place_fleet, place_fleet_in_attempts, PlacedShip, PlacementError};
use battleship::setup::{ClassLengths, GameSetup, ShipClass};

fn cells(ship: &PlacedShip) -> Vec<(i32, i32)> {
    ship.coords.iter().map(|c| (c.x, c.y)).collect()
}

fn is_straight(ship: &PlacedShip) -> bool {
    let c = &ship.coords;
    let across = (0..c.len()).all(|k| c[k].y == c[0].y && c[k].x == c[0].x + k as i32);
    let down = (0..c.len()).all(|k| c[k].x == c[0].x && c[k].y == c[0].y + k as i32);
    across || down
}

fn assert_legal(setup: &GameSetup, lengths: &ClassLengths, fleet: &Vec<PlacedShip>) {
    assert_eq!(fleet.len() as u64, setup.ship_total());
    let mut seen: Vec<Coord> = Vec::new();
    for (k, ship) in fleet.iter().enumerate() {
        assert_eq!(ship.class, setup.class_of(k as u64));
        assert_eq!(ship.coords.len() as i32, lengths.length_of(ship.class));
        assert!(is_straight(ship));
        for c in &ship.coords {
            assert!(c.is_in_grid(setup.height, setup.width));
            assert!(!seen.contains(c));
            seen.push(*c);
        }
    }
}

#[test]
fn first_valid_placement_is_picked_by_zero() {
    let setup = GameSetup::new(3, 3, 1, 0, 0, 0);
    let fleet = place_fleet(&setup, &ClassLengths::standard(), &vec![0]).unwrap();
    assert_eq!(fleet.len(), 1);
    assert_eq!(fleet[0].class, ShipClass::Submarine);
    assert_eq!(cells(&fleet[0]), vec![(0, 0), (1, 0), (2, 0)]);
}

#[test]
fn pick_selects_among_the_valid_placements() {
    let setup = GameSetup::new(3, 3, 1, 0, 0, 0);
    let t = ClassLengths::standard();
    // six valid placements: the three rows, then the three columns
    let expected = [
        vec![(0, 0), (1, 0), (2, 0)],
        vec![(0, 1), (1, 1), (2, 1)],
        vec![(0, 2), (1, 2), (2, 2)],
        vec![(0, 0), (0, 1), (0, 2)],
        vec![(1, 0), (1, 1), (1, 2)],
        vec![(2, 0), (2, 1), (2, 2)],
    ];
    for pick in 0..6u64 {
        let fleet = place_fleet(&setup, &t, &vec![pick]).unwrap();
        assert_eq!(cells(&fleet[0]), expected[pick as usize]);
    }
    let wrapped = place_fleet(&setup, &t, &vec![6]).unwrap();
    assert_eq!(cells(&wrapped[0]), expected[0]);
    let far = place_fleet(&setup, &t, &vec![u64::MAX]).unwrap();
    // 2^64 - 1 leaves 3 when divided by 6
    assert_eq!(cells(&far[0]), expected[3]);
}

#[test]
fn later_ships_avoid_earlier_ones() {
    let setup = GameSetup::new(3, 3, 3, 0, 0, 0);
    let t = ClassLengths::standard();
    let fleet = place_fleet(&setup, &t, &vec![0, 0, 0]).unwrap();
    assert_eq!(cells(&fleet[0]), vec![(0, 0), (1, 0), (2, 0)]);
    assert_eq!(cells(&fleet[1]), vec![(0, 1), (1, 1), (2, 1)]);
    assert_eq!(cells(&fleet[2]), vec![(0, 2), (1, 2), (2, 2)]);
    assert_legal(&setup, &t, &fleet);

    let columns = place_fleet(&setup, &t, &vec![4, 1, 0]).unwrap();
    assert_eq!(cells(&columns[0]), vec![(1, 0), (1, 1), (1, 2)]);
    assert_eq!(cells(&columns[1]), vec![(2, 0), (2, 1), (2, 2)]);
    assert_eq!(cells(&columns[2]), vec![(0, 0), (0, 1), (0, 2)]);
    assert_legal(&setup, &t, &columns);
}

#[test]
fn missing_picks_count_as_zero() {
    let setup = GameSetup::new(3, 3, 2, 0, 0, 0);
    let t = ClassLengths::standard();
    let short = place_fleet(&setup, &t, &vec![3]).unwrap();
    let full = place_fleet(&setup, &t, &vec![3, 0]).unwrap();
    assert_eq!(cells(&short[0]), cells(&full[0]));
    assert_eq!(cells(&short[1]), cells(&full[1]));
    assert_eq!(cells(&short[0]), vec![(0, 0), (0, 1), (0, 2)]);
    assert_eq!(cells(&short[1]), vec![(1, 0), (1, 1), (1, 2)]);
    let none = place_fleet(&setup, &t, &Vec::new()).unwrap();
    assert_eq!(cells(&none[0]), vec![(0, 0), (1, 0), (2, 0)]);
}

#[test]
fn standard_fleet_is_placed_legally() {
    let setup = GameSetup::new(10, 10, 2, 2, 1, 1);
    let t = ClassLengths::standard();
    let mut seed: u64 = 0x9e3779b97f4a7c15;
    for _ in 0..20 {
        let mut picks = Vec::new();
        for _ in 0..6 {
            seed = seed.wrapping_mul(6364136223846793005).wrapping_add(1442695040888963407);
            picks.push(seed >> 11);
        }
        let fleet = place_fleet(&setup, &t, &picks).unwrap();
        assert_legal(&setup, &t, &fleet);
    }
}

#[test]
fn classes_come_in_the_order_of_the_setup() {
    let setup = GameSetup::new(8, 8, 1, 1, 1, 1);
    let t = ClassLengths::standard();
    let fleet = place_fleet(&setup, &t, &vec![0, 0, 0, 0]).unwrap();
    assert_eq!(fleet[0].class, ShipClass::Submarine);
    assert_eq!(fleet[1].class, ShipClass::Destroyer);
    assert_eq!(fleet[2].class, ShipClass::Battleship);
    assert_eq!(fleet[3].class, ShipClass::Carrier);
    assert_eq!(cells(&fleet[0]), vec![(0, 0), (1, 0), (2, 0)]);
    assert_eq!(cells(&fleet[1]), vec![(3, 0), (4, 0), (5, 0), (6, 0)]);
    assert_eq!(cells(&fleet[2]), vec![(0, 1), (1, 1), (2, 1), (3, 1), (4, 1)]);
    assert_eq!(cells(&fleet[3]), vec![(0, 2), (1, 2), (2, 2), (3, 2), (4, 2), (5, 2)]);
    assert_legal(&setup, &t, &fleet);
}

#[test]
fn ship_of_one_cell_counts_each_position_once() {
    let setup = GameSetup::new(2, 2, 1, 0, 0, 0);
    let t = ClassLengths::new(1, 2, 3, 4);
    let expected = [(0, 0), (1, 0), (0, 1), (1, 1)];
    for pick in 0..8u64 {
        let fleet = place_fleet(&setup, &t, &vec![pick]).unwrap();
        assert_eq!(cells(&fleet[0]), vec![expected[(pick % 4) as usize]]);
    }
}

#[test]
fn fleet_with_more_cells_than_the_grid_is_infeasible() {
    let setup = GameSetup::new(3, 3, 4, 0, 0, 0);
    let r = place_fleet(&setup, &ClassLengths::standard(), &vec![0, 0, 0, 0]);
    assert_eq!(r.err(), Some(PlacementError::PlacementInfeasible));
}

#[test]
fn ship_longer_than_the_grid_is_infeasible() {
    let setup = GameSetup::new(2, 2, 1, 0, 0, 0);
    let r = place_fleet(&setup, &ClassLengths::standard(), &vec![0]);
    assert_eq!(r.err(), Some(PlacementError::PlacementInfeasible));
}

#[test]
fn placement_starved_by_an_earlier_ship_is_infeasible() {
    // two ships of two cells on a row of four: the first in the middle
    // leaves no room for the second
    let setup = GameSetup::new(1, 4, 2, 0, 0, 0);
    let t = ClassLengths::new(2, 4, 5, 6);
    let starved = place_fleet(&setup, &t, &vec![1, 0]);
    assert_eq!(starved.err(), Some(PlacementError::PlacementInfeasible));
    let fine = place_fleet(&setup, &t, &vec![0, 0]).unwrap();
    assert_eq!(cells(&fine[0]), vec![(0, 0), (1, 0)]);
    assert_eq!(cells(&fine[1]), vec![(2, 0), (3, 0)]);
}

#[test]
fn negative_numbers_are_infeasible() {
    let t = ClassLengths::standard();
    assert!(place_fleet(&GameSetup::new(-3, 3, 0, 0, 0, 0), &t, &Vec::new()).is_err());
    assert!(place_fleet(&GameSetup::new(3, 3, 0, -1, 0, 0), &t, &Vec::new()).is_err());
    assert!(place_fleet(&GameSetup::new(9, 9, 1, 0, 0, 0), &ClassLengths::new(3, 4, 0, 6), &Vec::new())
        .is_err());
}

#[test]
fn empty_fleet_is_placed() {
    let fleet = place_fleet(&GameSetup::new(5, 5, 0, 0, 0, 0), &ClassLengths::standard(), &vec![7])
        .unwrap();
    assert!(fleet.is_empty());
    let nothing = place_fleet(&GameSetup::new(0, 0, 0, 0, 0, 0), &ClassLengths::standard(), &vec![])
        .unwrap();
    assert!(nothing.is_empty());
}

#[test]
fn first_attempt_that_succeeds_places_the_fleet() {
    let setup = GameSetup::new(1, 4, 2, 0, 0, 0);
    let t = ClassLengths::new(2, 4, 5, 6);
    let attempts = vec![vec![1, 0], vec![4, 7], vec![0, 0], vec![2, 0]];
    let fleet = place_fleet_in_attempts(&setup, &t, &attempts).unwrap();
    // the first two attempts put the first ship in the middle
    assert_eq!(cells(&fleet[0]), vec![(0, 0), (1, 0)]);
    assert_eq!(cells(&fleet[1]), vec![(2, 0), (3, 0)]);
    assert_legal(&setup, &t, &fleet);
}

#[test]
fn attempts_that_all_fail_are_infeasible() {
    let setup = GameSetup::new(1, 4, 2, 0, 0, 0);
    let t = ClassLengths::new(2, 4, 5, 6);
    let starved = place_fleet_in_attempts(&setup, &t, &vec![vec![1, 0], vec![4, 1]]);
    assert_eq!(starved.err(), Some(PlacementError::PlacementInfeasible));
    let no_attempt = place_fleet_in_attempts(&setup, &t, &Vec::new());
    assert_eq!(no_attempt.err(), Some(PlacementError::PlacementInfeasible));
    let too_large = GameSetup::new(3, 3, 4, 0, 0, 0);
    let r = place_fleet_in_attempts(&too_large, &ClassLengths::standard(), &vec![vec![0], vec![1]]);
    assert_eq!(r.err(), Some(PlacementError::PlacementInfeasible));
}
