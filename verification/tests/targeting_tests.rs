use battleship::belief::{Axis, BeliefCell, Cluster};
use battleship::coord::Coord;
use battleship::targeting::{Mode, TargetingEngine};

fn c(x: i32, y: i32) -> Coord {
    Coord::new(x, y)
}

fn engine() -> TargetingEngine {
    TargetingEngine::new(10, 10, 3)
}

#[test]
fn target_mode_lock() {
    let mut e = engine();
    e.record_hits(&vec![c(3, 3)]);
    e.record_hits(&vec![c(3, 4)]);
    assert_eq!(e.clusters(), &vec![Cluster { lo: c(3, 3), hi: c(3, 4) }]);
    assert_eq!(e.clusters()[0].axis(), Axis::Vertical);
    assert_eq!(e.select_shots(2), vec![c(3, 2), c(3, 5)]);
    assert_eq!(e.select_shots(1), vec![c(3, 2)]);
    // beyond the two ends of the line the engine hunts; it never turns to
    // the sides of the line
    let many = e.select_shots(30);
    assert_eq!(many[0], c(3, 2));
    assert_eq!(many[1], c(3, 5));
    for shot in &many[2..] {
        assert_eq!((shot.x + shot.y) % 3, 0);
    }
    assert!(!many.contains(&c(2, 3)));
    assert!(!many.contains(&c(4, 3)));
    e.record_misses(&vec![c(3, 2)]);
    assert_eq!(e.select_shots(1), vec![c(3, 5)]);
}

#[test]
fn fresh_engine_knows_nothing() {
    let e = engine();
    assert_eq!(e.height(), 10);
    assert_eq!(e.width(), 10);
    assert_eq!(e.mode(), Mode::Hunt);
    assert_eq!(e.sunk_count(), 0);
    assert!(e.clusters().is_empty());
    assert_eq!(e.belief_at(c(0, 0)), Some(BeliefCell::Unknown));
    assert_eq!(e.belief_at(c(9, 9)), Some(BeliefCell::Unknown));
    assert_eq!(e.belief_at(c(10, 0)), None);
    assert_eq!(e.belief_at(c(0, 10)), None);
    assert_eq!(e.belief_at(c(-1, 0)), None);
}

#[test]
fn hunt_follows_the_pattern_row_by_row() {
    let e = engine();
    assert_eq!(e.select_shots(0), Vec::<Coord>::new());
    assert_eq!(e.select_shots(1), vec![c(0, 0)]);
    assert_eq!(
        e.select_shots(7),
        vec![c(0, 0), c(3, 0), c(6, 0), c(9, 0), c(2, 1), c(5, 1), c(8, 1)]
    );
}

#[test]
fn hunt_pattern_meets_every_run_of_the_shortest_length() {
    for len in 1..6 {
        for height in 1..8 {
            for width in 1..8 {
                for y in 0..height {
                    for x in 0..width {
                        if x + len <= width {
                            assert!((0..len).any(|k| (x + k + y) % len == 0));
                        }
                        if y + len <= height {
                            assert!((0..len).any(|k| (x + y + k) % len == 0));
                        }
                    }
                }
            }
        }
    }
}

#[test]
fn hunt_shots_cover_every_placement_of_the_shortest_ship() {
    // shoot the whole pattern of a grid of six by seven, then look for a
    // run of three cells that was spared
    let mut e = TargetingEngine::new(6, 7, 3);
    loop {
        let shots = e.select_shots(1);
        if shots.is_empty() || (shots[0].x + shots[0].y) % 3 != 0 {
            break;
        }
        e.record_misses(&shots);
    }
    for y in 0..6 {
        for x in 0..7 {
            if x + 3 <= 7 {
                assert!((0..3).any(|k| e.belief_at(c(x + k, y)) == Some(BeliefCell::Miss)));
            }
            if y + 3 <= 6 {
                assert!((0..3).any(|k| e.belief_at(c(x, y + k)) == Some(BeliefCell::Miss)));
            }
        }
    }
}

#[test]
fn hunt_falls_back_when_the_pattern_is_used_up() {
    let e = TargetingEngine::new(2, 2, 3);
    assert_eq!(e.select_shots(4), vec![c(0, 0), c(1, 0), c(0, 1), c(1, 1)]);
    assert_eq!(e.select_shots(9), vec![c(0, 0), c(1, 0), c(0, 1), c(1, 1)]);
    let mut shot = TargetingEngine::new(2, 2, 3);
    shot.record_misses(&vec![c(0, 0), c(0, 1)]);
    assert_eq!(shot.select_shots(4), vec![c(1, 0), c(1, 1)]);
    shot.record_misses(&vec![c(1, 0), c(1, 1)]);
    assert_eq!(shot.select_shots(4), Vec::<Coord>::new());
}

#[test]
fn engine_on_an_empty_grid_proposes_nothing() {
    let e = TargetingEngine::new(0, 5, 2);
    assert_eq!(e.select_shots(3), Vec::<Coord>::new());
    let f = TargetingEngine::new(5, 0, 2);
    assert_eq!(f.select_shots(3), Vec::<Coord>::new());
}

#[test]
fn modulus_one_shoots_every_cell() {
    let e = TargetingEngine::new(2, 3, 1);
    assert_eq!(
        e.select_shots(6),
        vec![c(0, 0), c(1, 0), c(2, 0), c(0, 1), c(1, 1), c(2, 1)]
    );
}

#[test]
fn marked_cells_are_never_proposed() {
    let mut e = engine();
    e.record_misses(&vec![c(0, 0), c(6, 0)]);
    e.record_hits(&vec![c(3, 0)]);
    e.record_misses(&vec![c(3, 1)]);
    let shots = e.select_shots(100);
    assert_eq!(shots.len(), 96);
    for (i, s) in shots.iter().enumerate() {
        assert_eq!(e.belief_at(*s), Some(BeliefCell::Unknown));
        assert!(!shots[..i].contains(s));
    }
    // around the hit at the top edge: nothing above it, a miss below it
    assert_eq!(&shots[..2], &[c(2, 0), c(4, 0)]);
    assert_eq!(shots[2], c(9, 0));
}

#[test]
fn single_hit_is_probed_up_down_left_right() {
    let mut e = engine();
    e.record_hits(&vec![c(5, 5)]);
    assert_eq!(e.mode(), Mode::Target);
    assert_eq!(e.clusters()[0].axis(), Axis::Undetermined);
    assert_eq!(e.select_shots(4), vec![c(5, 4), c(5, 6), c(4, 5), c(6, 5)]);
    assert_eq!(e.select_shots(5), vec![c(5, 4), c(5, 6), c(4, 5), c(6, 5), c(0, 0)]);
    e.record_misses(&vec![c(5, 4)]);
    assert_eq!(e.select_shots(1), vec![c(5, 6)]);
}

#[test]
fn probes_off_the_grid_are_skipped() {
    let mut e = engine();
    e.record_hits(&vec![c(0, 0)]);
    assert_eq!(e.select_shots(2), vec![c(0, 1), c(1, 0)]);
    let mut f = engine();
    f.record_hits(&vec![c(9, 9)]);
    assert_eq!(f.select_shots(2), vec![c(9, 8), c(8, 9)]);
}

#[test]
fn second_hit_to_the_right_locks_the_row() {
    let mut e = engine();
    e.record_hits(&vec![c(3, 3), c(4, 3)]);
    assert_eq!(e.clusters(), &vec![Cluster { lo: c(3, 3), hi: c(4, 3) }]);
    assert_eq!(e.clusters()[0].axis(), Axis::Horizontal);
    assert_eq!(e.select_shots(2), vec![c(2, 3), c(5, 3)]);
    e.record_hits(&vec![c(2, 3)]);
    assert_eq!(e.clusters(), &vec![Cluster { lo: c(2, 3), hi: c(4, 3) }]);
    assert_eq!(e.select_shots(2), vec![c(1, 3), c(5, 3)]);
}

#[test]
fn hit_beside_a_locked_line_starts_a_new_cluster() {
    let mut e = engine();
    e.record_hits(&vec![c(3, 3), c(3, 4), c(4, 3)]);
    assert_eq!(
        e.clusters(),
        &vec![Cluster { lo: c(3, 3), hi: c(3, 4) }, Cluster { lo: c(4, 3), hi: c(4, 3) }]
    );
    // the older cluster first: its two ends; then around the younger one,
    // where the cell to its left is a hit
    assert_eq!(e.select_shots(5), vec![c(3, 2), c(3, 5), c(4, 2), c(4, 4), c(5, 3)]);
}

#[test]
fn distant_hits_are_clusters_of_their_own() {
    let mut e = engine();
    e.record_hits(&vec![c(3, 3), c(7, 7)]);
    assert_eq!(e.clusters().len(), 2);
    assert_eq!(e.select_shots(5), vec![c(3, 2), c(3, 4), c(2, 3), c(4, 3), c(7, 6)]);
}

#[test]
fn repeated_hit_changes_nothing() {
    let mut e = engine();
    e.record_hits(&vec![c(3, 3), c(3, 3)]);
    e.record_hits(&vec![c(3, 3)]);
    assert_eq!(e.clusters(), &vec![Cluster { lo: c(3, 3), hi: c(3, 3) }]);
    assert_eq!(e.belief_at(c(3, 3)), Some(BeliefCell::Hit));
}

#[test]
fn hit_overrides_a_miss_but_not_the_reverse() {
    let mut e = engine();
    e.record_misses(&vec![c(2, 2)]);
    assert_eq!(e.belief_at(c(2, 2)), Some(BeliefCell::Miss));
    e.record_hits(&vec![c(2, 2)]);
    assert_eq!(e.belief_at(c(2, 2)), Some(BeliefCell::Hit));
    e.record_misses(&vec![c(2, 2)]);
    assert_eq!(e.belief_at(c(2, 2)), Some(BeliefCell::Hit));
    e.record_miss(c(4, 4));
    e.record_miss(c(4, 4));
    assert_eq!(e.belief_at(c(4, 4)), Some(BeliefCell::Miss));
}

#[test]
fn reports_off_the_grid_are_ignored() {
    let mut e = engine();
    e.record_hits(&vec![c(10, 3), c(-1, 0)]);
    e.record_misses(&vec![c(0, 10), c(0, -1)]);
    e.record_hit(c(i32::MAX, i32::MAX));
    e.record_sunk(c(12, 12));
    assert!(e.clusters().is_empty());
    assert_eq!(e.mode(), Mode::Hunt);
    assert_eq!(e.select_shots(1), vec![c(0, 0)]);
}

#[test]
fn sunk_cluster_is_marked_and_dropped() {
    let mut e = engine();
    e.record_hits(&vec![c(3, 3), c(3, 4), c(3, 5), c(7, 7)]);
    e.record_sunk(c(3, 4));
    assert_eq!(e.sunk_count(), 1);
    assert_eq!(e.belief_at(c(3, 3)), Some(BeliefCell::SunkPartOf(0)));
    assert_eq!(e.belief_at(c(3, 4)), Some(BeliefCell::SunkPartOf(0)));
    assert_eq!(e.belief_at(c(3, 5)), Some(BeliefCell::SunkPartOf(0)));
    assert_eq!(e.belief_at(c(3, 2)), Some(BeliefCell::Unknown));
    assert_eq!(e.belief_at(c(7, 7)), Some(BeliefCell::Hit));
    assert_eq!(e.clusters(), &vec![Cluster { lo: c(7, 7), hi: c(7, 7) }]);
    e.record_sunk(c(7, 7));
    assert_eq!(e.belief_at(c(7, 7)), Some(BeliefCell::SunkPartOf(1)));
    assert_eq!(e.sunk_count(), 2);
    assert_eq!(e.mode(), Mode::Hunt);
    assert_eq!(e.select_shots(2), vec![c(0, 0), c(3, 0)]);
    // a second report for the same ship finds no cluster
    e.record_sunk(c(3, 4));
    assert_eq!(e.sunk_count(), 2);
    // a hit on a sunk cell is no news
    e.record_hits(&vec![c(3, 4)]);
    assert_eq!(e.belief_at(c(3, 4)), Some(BeliefCell::SunkPartOf(0)));
    assert!(e.clusters().is_empty());
}

#[test]
fn cluster_helpers() {
    let single = Cluster { lo: c(2, 2), hi: c(2, 2) };
    assert_eq!(single.axis(), Axis::Undetermined);
    assert_eq!(single.probe_list(), vec![c(2, 1), c(2, 3), c(1, 2), c(3, 2)]);
    assert!(single.is_probe(c(1, 2)));
    assert!(!single.is_probe(c(1, 1)));
    assert!(single.includes(c(2, 2)));
    assert!(!single.includes(c(2, 3)));
    let down = single.extend(c(2, 3));
    assert_eq!(down, Cluster { lo: c(2, 2), hi: c(2, 3) });
    assert_eq!(down.axis(), Axis::Vertical);
    assert_eq!(down.probe_list(), vec![c(2, 1), c(2, 4)]);
    assert!(!down.is_probe(c(1, 2)));
    assert!(down.includes(c(2, 3)));
    let left = single.extend(c(1, 2));
    assert_eq!(left, Cluster { lo: c(1, 2), hi: c(2, 2) });
    assert_eq!(left.axis(), Axis::Horizontal);
    assert_eq!(left.probe_list(), vec![c(0, 2), c(3, 2)]);
}
