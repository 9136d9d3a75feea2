// The world and its tick.

use evosim::creature::Creature;
use evosim::gridlookup::GridLookup;
use evosim::rng::RandomSource;
use evosim::world::{bite_damage, digested_part, grass_bite, World, GRASS_MAX, MAX_AGE};

#[test]
fn new_world_is_full_of_grass() {
    let w = World::new(100, 100, 20);
    assert_eq!(w.get_size(), (100, 100));
    assert_eq!(w.get_grass_max(), GRASS_MAX);
    assert_eq!(w.num_creatures(), 0);
    let grass = w.get_grass_slice();
    assert_eq!(grass.len(), 100 * 100);
    assert!(grass.iter().all(|&g| g == GRASS_MAX));
}

#[test]
fn grass_indexing_round_trips() {
    let w = World::new(100, 100, 20);
    let i = w.get_grass_index(17, 23);
    assert_eq!(i, 23 * 100 + 17);
    assert_eq!(w.get_grass_loc(i), (17, 23));
}

#[test]
fn ids_issue_monotonically() {
    let mut w = World::new(100, 100, 20);
    let a = w.get_inc_creature_id();
    let b = w.get_inc_creature_id();
    assert_eq!(a, 0);
    assert_eq!(b, 1);
}

#[test]
fn added_creatures_are_kept() {
    let mut w = World::new(100, 100, 20);
    let mut rng = RandomSource::from_seed(1);
    let id = w.get_inc_creature_id();
    let c = Creature::new(id, id, 5_000_000, 5_000_000, 0, 500, &mut rng);
    w.add_creature(c);
    assert_eq!(w.num_creatures(), 1);
    assert_eq!(w.get_creature_slice()[0].get_id(), id);
}

#[test]
fn one_tick_fills_the_population_floor() {
    let mut w = World::new(100, 100, 20);
    let mut rng = RandomSource::from_seed(3);
    assert_eq!(w.num_creatures(), 0);
    w.update(&mut rng);
    assert_eq!(w.num_creatures(), 20);
    // Each backfill starts its own lineage, so at least five are present.
    let mut fams: Vec<u64> = w.get_creature_slice().iter().map(|c| c.get_fam()).collect();
    fams.sort();
    fams.dedup();
    assert!(fams.len() >= 5);
}

#[test]
fn population_floor_holds_when_starting_below_it() {
    let mut w = World::new(100, 100, 20);
    let mut rng = RandomSource::from_seed(9);
    for _ in 0..2 {
        let id = w.get_inc_creature_id();
        let c = Creature::new(id, id, 50_000_000, 50_000_000, 0, 500, &mut rng);
        w.add_creature(c);
    }
    assert_eq!(w.num_creatures(), 2);
    w.update(&mut rng);
    assert!(w.num_creatures() >= 20);
}

#[test]
fn discrete_action_arithmetic_is_exact() {
    // Eating takes half the cell, rounded up.
    assert_eq!(grass_bite(512), 256);
    assert_eq!(grass_bite(5), 3);
    assert_eq!(grass_bite(1), 1);
    assert_eq!(grass_bite(0), 0);
    // The eater keeps its efficiency's share, rounded to nearest.
    assert_eq!(digested_part(100, 500), 50);
    assert_eq!(digested_part(101, 500), 51);
    assert_eq!(digested_part(256, 1000), 256);
    assert_eq!(digested_part(256, 0), 0);
    // A bite deals the carnivorous share of the base damage.
    assert_eq!(bite_damage(0), 4096);
    assert_eq!(bite_damage(500), 2048);
    assert_eq!(bite_damage(1000), 0);
}

#[test]
fn observation_sees_a_creature_dead_ahead() {
    // The observer faces along the positive x axis; a second creature
    // stands half a cell in front, dead centre of the vision cone.
    let w = World::new(100, 100, 20);
    let mut rng = RandomSource::from_seed(6);
    let me = Creature::new(0, 0, 10_000_000, 10_000_000, 0, 500, &mut rng);
    let other = Creature::new(1, 1, 10_500_000, 10_000_000, 0, 500, &mut rng);
    let mut grid = GridLookup::<usize>::new(100_000_000, 100_000_000, 20_000_000, 20_000_000);
    let cs = vec![me, other];
    let (x0, y0, _) = cs[0].get_pos();
    let (x1, y1, _) = cs[1].get_pos();
    grid.put((x0, y0), 0);
    grid.put((x1, y1), 1);
    let o = w.observe(&cs[0], &cs, &grid);
    // Straight ahead means the middle of the five sites, at exactly half a
    // cell; everything else stays unseen.
    assert_eq!(o.dists[2], 500_000);
    assert_eq!(o.colors[2], cs[1].get_color() as i64);
    for b in [0usize, 1, 3, 4] {
        assert_eq!(o.dists[b], 20_000_000);
        assert_eq!(o.colors[b], 0);
    }
    // Full energy reads as one thousand milli-units; a full grass field
    // fills the whole window with the ceiling value.
    assert_eq!(o.energy, 1000);
    assert!(o.neighboring_grass.iter().all(|&g| g == 1000));
}

#[test]
fn observation_misses_a_creature_behind() {
    let w = World::new(100, 100, 20);
    let mut rng = RandomSource::from_seed(6);
    let me = Creature::new(0, 0, 10_000_000, 10_000_000, 0, 500, &mut rng);
    let other = Creature::new(1, 1, 9_500_000, 10_000_000, 0, 500, &mut rng);
    let mut grid = GridLookup::<usize>::new(100_000_000, 100_000_000, 20_000_000, 20_000_000);
    let cs = vec![me, other];
    let (x0, y0, _) = cs[0].get_pos();
    let (x1, y1, _) = cs[1].get_pos();
    grid.put((x0, y0), 0);
    grid.put((x1, y1), 1);
    let o = w.observe(&cs[0], &cs, &grid);
    assert!(o.dists.iter().all(|&d| d == 20_000_000));
    assert!(o.colors.iter().all(|&c| c == 0));
}

#[test]
fn long_run_keeps_every_invariant() {
    // The end-to-end scenario: a 100 x 100 world with a population floor of
    // twenty, run for a thousand ticks from two creatures.
    let mut w = World::new(100, 100, 20);
    let mut rng = RandomSource::from_seed(2024);
    for _ in 0..2 {
        let id = w.get_inc_creature_id();
        let c = Creature::new(id, id, 50_000_000, 50_000_000, 0, 500, &mut rng);
        w.add_creature(c);
    }
    let cells = 100u64 * 100;
    let mut last_max_id: u64 = 0;
    for tick in 0..1000 {
        w.update(&mut rng);
        assert!(w.num_creatures() >= 20, "population fell below the floor at tick {tick}");
        let total: u64 = w.get_grass_slice().iter().map(|&g| g as u64).sum();
        assert!(total <= cells * GRASS_MAX as u64);
        if tick % 100 == 0 {
            let mut ids: Vec<u64> = w.get_creature_slice().iter().map(|c| c.get_id()).collect();
            let max_id = ids.iter().copied().max().unwrap();
            assert!(max_id >= last_max_id);
            last_max_id = max_id;
            ids.sort();
            let n = ids.len();
            ids.dedup();
            assert_eq!(ids.len(), n, "duplicate ids at tick {tick}");
            for c in w.get_creature_slice() {
                let (x, y, theta) = c.get_pos();
                assert!(x < 100_000_000 && y < 100_000_000);
                assert!(theta < evosim::angle::TAU_UNITS);
                assert!(c.get_age() <= MAX_AGE);
            }
        }
    }
}
