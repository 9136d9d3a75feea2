// Creatures, observations and action selection.

use evosim::creature::{
    max_index, Action, Creature, MovementAction, Observation, TurningAction, MAX_DIST_MICRO,
    NUM_INPUTS, STARTING_ENERGY,
};
use evosim::rng::RandomSource;

#[test]
fn max_index_takes_first_strict_maximum() {
    let v: Vec<i64> = vec![3, 7, 7, 2];
    assert_eq!(max_index(i64::MIN, &v), (1, 7));
    let w: Vec<i64> = vec![-5, -9];
    assert_eq!(max_index(i64::MIN, &w), (0, -5));
    let empty: Vec<i64> = vec![];
    assert_eq!(max_index(i64::MIN, &empty), (0, i64::MIN));
    // A seed above every entry keeps position zero.
    assert_eq!(max_index(100, &v), (0, 100));
}

#[test]
fn empty_observation_shape() {
    let o = Observation::new_empty();
    assert_eq!(o.colors.len(), 5);
    assert_eq!(o.dists.len(), 5);
    assert_eq!(o.neighboring_grass.len(), 9);
    assert_eq!(o.energy, 0);
    assert!(o.dists.iter().all(|&d| d == MAX_DIST_MICRO as i64));
    assert!(o.colors.iter().all(|&c| c == 0));
}

#[test]
fn observation_inputs_layout() {
    let mut o = Observation::new_empty();
    o.colors[2] = 700;
    o.dists[1] = 1_500_000;
    o.neighboring_grass[8] = 250;
    o.energy = 1000;
    let inputs = o.inputs();
    assert_eq!(inputs.len(), NUM_INPUTS);
    assert_eq!(inputs[2], 700);
    // Distances are read back in milli-cells.
    assert_eq!(inputs[5 + 1], 1500);
    assert_eq!(inputs[10 + 8], 250);
    assert_eq!(inputs[19], 1000);
}

#[test]
fn neighbor_index_is_row_major() {
    assert_eq!(Observation::neighbor_index(0, 0), 0);
    assert_eq!(Observation::neighbor_index(2, 0), 2);
    assert_eq!(Observation::neighbor_index(0, 1), 3);
    assert_eq!(Observation::neighbor_index(2, 2), 8);
}

#[test]
fn new_creature_starts_fresh() {
    let mut rng = RandomSource::from_seed(11);
    let c = Creature::new(3, 9, 1_000_000, 2_000_000, 123, 400, &mut rng);
    assert_eq!(c.get_id(), 3);
    assert_eq!(c.get_fam(), 9);
    assert_eq!(c.get_energy(), STARTING_ENERGY);
    assert_eq!(c.get_age(), 0);
    assert_eq!(c.get_pos(), (1_000_000, 2_000_000, 123));
    assert!(c.get_last_observation().is_none());
    assert!(c.get_color() <= 1000);
}

#[test]
fn color_depends_only_on_lineage() {
    let mut rng = RandomSource::from_seed(1);
    let a = Creature::new(1, 77, 0, 0, 0, 500, &mut rng);
    let b = Creature::new(2, 77, 5, 5, 9, 800, &mut rng);
    assert_eq!(a.get_color(), b.get_color());
}

#[test]
fn child_inherits_lineage_and_resets() {
    let mut rng = RandomSource::from_seed(5);
    let mut parent = Creature::new(1, 42, 7_000_000, 8_000_000, 300, 600, &mut rng);
    parent.add_energy(100_000);
    let child = parent.clone_mutate(2, &mut rng);
    assert_eq!(child.get_fam(), 42);
    assert_eq!(child.get_id(), 2);
    assert_eq!(child.get_energy(), STARTING_ENERGY);
    assert_eq!(child.get_age(), 0);
    let (px, py, pt) = parent.get_pos();
    assert_eq!(child.get_pos(), (px, py, pt));
    assert!(child.get_last_observation().is_none());
}

#[test]
fn zero_noise_keeps_efficiency_exactly() {
    let mut rng = RandomSource::from_seed(8);
    let parent = Creature::new(1, 1, 0, 0, 0, 500, &mut rng);
    assert_eq!(parent.get_veg_eff(), 500);
    let child = parent.clone_mutate_std(2, 0, &mut rng);
    assert_eq!(child.get_veg_eff(), 500);
    let parent2 = Creature::new(3, 3, 0, 0, 0, 123, &mut rng);
    let child2 = parent2.clone_mutate_std(4, 0, &mut rng);
    assert_eq!(child2.get_veg_eff(), parent2.get_veg_eff());
}

#[test]
fn energy_accounting_saturates() {
    let mut rng = RandomSource::from_seed(2);
    let mut c = Creature::new(1, 1, 0, 0, 0, 500, &mut rng);
    assert_eq!(c.remove_energy(100), 100);
    assert_eq!(c.get_energy(), STARTING_ENERGY - 100);
    let left = c.get_energy();
    assert_eq!(c.remove_energy(u32::MAX), left);
    assert_eq!(c.get_energy(), 0);
    c.add_energy(7);
    assert_eq!(c.get_energy(), 7);
    c.add_energy(u32::MAX);
    assert_eq!(c.get_energy(), u32::MAX);
}

#[test]
fn set_theta_normalizes() {
    let mut rng = RandomSource::from_seed(2);
    let mut c = Creature::new(1, 1, 0, 0, 0, 500, &mut rng);
    c.set_theta(-1);
    assert_eq!(c.get_pos().2, evosim::angle::TAU_UNITS - 1);
    c.set_theta(evosim::angle::TAU_UNITS as i64 + 17);
    assert_eq!(c.get_pos().2, 17);
}

#[test]
fn decisions_are_deterministic_given_the_seed() {
    let mut rng_a = RandomSource::from_seed(77);
    let mut rng_b = RandomSource::from_seed(77);
    let mut a = Creature::new(1, 1, 0, 0, 0, 500, &mut rng_a);
    let mut b = Creature::new(1, 1, 0, 0, 0, 500, &mut rng_b);
    let mut oa = Observation::new_empty();
    oa.energy = 900;
    oa.colors[0] = 400;
    let mut ob = Observation::new_empty();
    ob.energy = 900;
    ob.colors[0] = 400;
    let (ta, ma, da) = a.get_preferred_action(oa);
    let (tb, mb, db) = b.get_preferred_action(ob);
    assert_eq!(ta, tb);
    assert_eq!(ma, mb);
    assert_eq!(da, db);
    assert!(a.get_last_observation().is_some());
}

#[test]
fn action_groups_have_their_sizes() {
    assert!(matches!(TurningAction::from_index(0), TurningAction::WAIT));
    assert!(matches!(TurningAction::from_index(2), TurningAction::RIGHT));
    assert!(matches!(MovementAction::from_index(1), MovementAction::FORWARD));
    assert!(matches!(Action::from_index(3), Action::REPLICATE));
    assert!(matches!(Action::from_index(1), Action::EAT));
}
