//! Creatures and what they perceive. A creature has an identity, a pose on
//! the torus, energy, age, a vegetarian efficiency kept as its logit, and a
//! brain; an observation is the per-tick sensory snapshot it feeds to that
//! brain.

use vstd::prelude::*;

use crate::brain::{feed_spec, same_shape, same_weights, weights_within, NeuralBrain, WEIGHT_LIMIT};
use crate::fixnum::{
    color_of_fam_spec, color_of_fam, logistic_milli, logistic_milli_spec, logit_milli,
    logit_milli_spec, LOGIT_LIMIT,
};
use crate::angle::{norm_angle, norm_angle_spec, TAU_UNITS};
use crate::linalg::vec_bounded;
use crate::rng::RandomSource;

verus! {

/// Angular bins in the vision cone.
pub const NUM_SITES: usize = 5;

/// Side of the grass neighbourhood window.
pub const GRASS_NEIGHBORS: usize = 3;

/// Cells in the grass neighbourhood window.
pub const NUM_NEIGHBORS: usize = 9;

/// Width of the flattened observation: colour and distance per site, the
/// grass window, and own energy.
pub const NUM_INPUTS: usize = 20;

/// Sight range in micro-cells; also the spatial index's step.
pub const MAX_DIST_MICRO: u64 = 20000000;

/// Energy every creature starts (and restarts) with.
pub const STARTING_ENERGY: u32 = 4096;

/// Spread, in milli-units, of the mutation noise.
pub const MUT_STD: u32 = 50;

/// Choices in the turning group.
pub const TURNING_ACTIONS: usize = 3;

/// Choices in the movement group.
pub const MOVEMENT_ACTIONS: usize = 2;

/// Choices in the discrete group.
pub const DISCRETE_ACTIONS: usize = 4;

/// Width of the brain's output: the three action groups side by side.
pub const TOTAL_ACTIONS: usize = 9;

/// What one creature perceives at one tick: per-site colour and distance
/// (distance in micro-cells, `MAX_DIST_MICRO` where nothing was seen), the
/// local grass window in milli-units, and own energy in milli-units of the
/// starting energy.
pub struct Observation {
    pub colors: Vec<i64>,
    pub dists: Vec<i64>,
    pub neighboring_grass: Vec<i64>,
    pub energy: i64,
}

impl Observation {
    pub open spec fn wf(self) -> bool {
        &&& self.colors@.len() == NUM_SITES
        &&& self.dists@.len() == NUM_SITES
        &&& self.neighboring_grass@.len() == NUM_NEIGHBORS
        &&& forall|i: int| 0 <= i < NUM_SITES ==> 0 <= #[trigger] self.colors@[i] <= 1000
        &&& forall|i: int|
            0 <= i < NUM_SITES ==> 0 <= #[trigger] self.dists@[i] <= MAX_DIST_MICRO
        &&& forall|i: int|
            0 <= i < NUM_NEIGHBORS ==> 0 <= #[trigger] self.neighboring_grass@[i] <= 1000
        &&& 0 <= self.energy <= 2100000000
    }

    /// The flattened numeric form handed to the brain: colours, then
    /// distances read in milli-cells, then the grass window, then energy.
    pub open spec fn inputs_spec(self) -> Seq<i64> {
        Seq::new(
            NUM_INPUTS as nat,
            |i: int|
                if i < 5 {
                    self.colors@[i]
                } else if i < 10 {
                    (self.dists@[i - 5] / 1000) as i64
                } else if i < 19 {
                    self.neighboring_grass@[i - 10]
                } else {
                    self.energy
                },
        )
    }

    /// The blank snapshot: nothing seen anywhere, no grass, no energy.
    pub fn new_empty() -> (o: Observation)
        ensures
            o.wf(),
            forall|i: int| 0 <= i < NUM_SITES ==> #[trigger] o.colors@[i] == 0,
            forall|i: int| 0 <= i < NUM_SITES ==> #[trigger] o.dists@[i] == MAX_DIST_MICRO,
            forall|i: int| 0 <= i < NUM_NEIGHBORS ==> #[trigger] o.neighboring_grass@[i] == 0,
            o.energy == 0,
    {
        let mut colors: Vec<i64> = Vec::new();
        let mut dists: Vec<i64> = Vec::new();
        let mut i: usize = 0;
        while i < NUM_SITES
            invariant
                i <= NUM_SITES,
                colors@.len() == i,
                dists@.len() == i,
                forall|j: int| 0 <= j < i ==> #[trigger] colors@[j] == 0,
                forall|j: int| 0 <= j < i ==> #[trigger] dists@[j] == MAX_DIST_MICRO,
            decreases NUM_SITES - i,
        {
            colors.push(0);
            dists.push(MAX_DIST_MICRO as i64);
            i = i + 1;
        }
        let mut grass: Vec<i64> = Vec::new();
        let mut j: usize = 0;
        while j < NUM_NEIGHBORS
            invariant
                j <= NUM_NEIGHBORS,
                grass@.len() == j,
                forall|k: int| 0 <= k < j ==> #[trigger] grass@[k] == 0,
            decreases NUM_NEIGHBORS - j,
        {
            grass.push(0);
            j = j + 1;
        }
        Observation { colors, dists, neighboring_grass: grass, energy: 0 }
    }

    /// Where cell `(ix, iy)` of the grass window sits in its flat vector.
    pub fn neighbor_index(ix: usize, iy: usize) -> (r: usize)
        requires
            ix < GRASS_NEIGHBORS,
            iy < GRASS_NEIGHBORS,
        ensures
            r == iy * GRASS_NEIGHBORS + ix,
            r < NUM_NEIGHBORS,
    {
        iy * GRASS_NEIGHBORS + ix
    }

    /// The flattened numeric form, exactly `inputs_spec`.
    pub fn inputs(&self) -> (r: Vec<i64>)
        requires
            self.wf(),
        ensures
            r@ == self.inputs_spec(),
            r@.len() == NUM_INPUTS,
            vec_bounded(r@, 2100000000),
    {
        let mut r: Vec<i64> = Vec::new();
        let mut i: usize = 0;
        while i < NUM_SITES
            invariant
                self.wf(),
                i <= NUM_SITES,
                r@.len() == i,
                forall|j: int| 0 <= j < i ==> #[trigger] r@[j] == self.inputs_spec()[j],
            decreases NUM_SITES - i,
        {
            r.push(self.colors[i]);
            i = i + 1;
        }
        let mut i: usize = 0;
        while i < NUM_SITES
            invariant
                self.wf(),
                i <= NUM_SITES,
                r@.len() == NUM_SITES + i,
                forall|j: int|
                    0 <= j < NUM_SITES + i ==> #[trigger] r@[j] == self.inputs_spec()[j],
            decreases NUM_SITES - i,
        {
            r.push(self.dists[i] / 1000);
            i = i + 1;
        }
        let mut i: usize = 0;
        while i < NUM_NEIGHBORS
            invariant
                self.wf(),
                i <= NUM_NEIGHBORS,
                r@.len() == 2 * NUM_SITES + i,
                forall|j: int|
                    0 <= j < 2 * NUM_SITES + i ==> #[trigger] r@[j] == self.inputs_spec()[j],
            decreases NUM_NEIGHBORS - i,
        {
            r.push(self.neighboring_grass[i]);
            i = i + 1;
        }
        r.push(self.energy);
        proof {
            assert(r@ =~= self.inputs_spec());
        }
        r
    }
}

#[derive(Clone, Copy, Debug, PartialEq, Eq, Structural)]
pub enum TurningAction {
    WAIT,
    LEFT,
    RIGHT,
}

#[derive(Clone, Copy, Debug, PartialEq, Eq, Structural)]
pub enum MovementAction {
    WAIT,
    FORWARD,
}

#[derive(Clone, Copy, Debug, PartialEq, Eq, Structural)]
pub enum Action {
    WAIT,
    EAT,
    BITE,
    REPLICATE,
}

pub open spec fn turning_from_index_spec(i: int) -> TurningAction {
    if i == 0 {
        TurningAction::WAIT
    } else if i == 1 {
        TurningAction::LEFT
    } else {
        TurningAction::RIGHT
    }
}

pub open spec fn movement_from_index_spec(i: int) -> MovementAction {
    if i == 0 {
        MovementAction::WAIT
    } else {
        MovementAction::FORWARD
    }
}

pub open spec fn action_from_index_spec(i: int) -> Action {
    if i == 0 {
        Action::WAIT
    } else if i == 1 {
        Action::EAT
    } else if i == 2 {
        Action::BITE
    } else {
        Action::REPLICATE
    }
}

impl TurningAction {
    pub fn from_index(i: usize) -> (a: TurningAction)
        requires
            i < TURNING_ACTIONS,
        ensures
            a == turning_from_index_spec(i as int),
    {
        if i == 0 {
            TurningAction::WAIT
        } else if i == 1 {
            TurningAction::LEFT
        } else {
            TurningAction::RIGHT
        }
    }
}

impl MovementAction {
    pub fn from_index(i: usize) -> (a: MovementAction)
        requires
            i < MOVEMENT_ACTIONS,
        ensures
            a == movement_from_index_spec(i as int),
    {
        if i == 0 {
            MovementAction::WAIT
        } else {
            MovementAction::FORWARD
        }
    }
}

impl Action {
    pub fn from_index(i: usize) -> (a: Action)
        requires
            i < DISCRETE_ACTIONS,
        ensures
            a == action_from_index_spec(i as int),
    {
        if i == 0 {
            Action::WAIT
        } else if i == 1 {
            Action::EAT
        } else if i == 2 {
            Action::BITE
        } else {
            Action::REPLICATE
        }
    }
}

/// The fold behind `max_index`: position and value of the strict maximum of
/// the first `n` entries, seeded with `init` at position `0`; earlier
/// entries win ties.
pub open spec fn max_index_spec(init: i64, s: Seq<i64>, n: int) -> (int, int)
    decreases n,
{
    if n <= 0 {
        (0, init as int)
    } else {
        let prev = max_index_spec(init, s, n - 1);
        if s[n - 1] > prev.1 {
            (n - 1, s[n - 1] as int)
        } else {
            prev
        }
    }
}

pub proof fn lemma_max_index_range(init: i64, s: Seq<i64>, n: int)
    requires
        0 <= n <= s.len(),
    ensures
        n == 0 ==> max_index_spec(init, s, n) == (0int, init as int),
        n >= 1 ==> 0 <= max_index_spec(init, s, n).0 < n,
        max_index_spec(init, s, n).1 >= init,
    decreases n,
{
    if n > 0 {
        lemma_max_index_range(init, s, n - 1);
    }
}

/// Position and value of the strict maximum of `values`, seeded with
/// `init`; the first position achieving the maximum wins, as the strict
/// comparison of the fold dictates.
pub fn max_index(init: i64, values: &Vec<i64>) -> (r: (usize, i64))
    ensures
        r.0 as int == max_index_spec(init, values@, values@.len() as int).0,
        r.1 as int == max_index_spec(init, values@, values@.len() as int).1,
        r.1 >= init,
        values@.len() >= 1 ==> r.0 < values@.len(),
        values@.len() == 0 ==> r.0 == 0 && r.1 == init,
{
    let mut best_i: usize = 0;
    let mut best_v: i64 = init;
    let mut i: usize = 0;
    while i < values.len()
        invariant
            i <= values@.len(),
            best_i as int == max_index_spec(init, values@, i as int).0,
            best_v as int == max_index_spec(init, values@, i as int).1,
            best_v >= init,
            i >= 1 ==> best_i < i,
            i == 0 ==> best_i == 0 && best_v == init,
        decreases values@.len() - i,
    {
        let v: i64 = values[i];
        if v > best_v {
            best_i = i;
            best_v = v;
        }
        i = i + 1;
    }
    (best_i, best_v)
}

/// What a brain output dictates: one choice per group, argmax with the
/// earliest index winning ties, over the three disjoint slices of the
/// scores.
pub open spec fn chosen_actions(brain: Seq<Vec<Vec<i64>>>, o: Observation) -> (
    TurningAction,
    MovementAction,
    Action,
) {
    let scores = feed_spec(brain, o.inputs_spec());
    (
        turning_from_index_spec(max_index_spec(i64::MIN, scores.subrange(0, 3), 3).0),
        movement_from_index_spec(max_index_spec(i64::MIN, scores.subrange(3, 5), 2).0),
        action_from_index_spec(max_index_spec(i64::MIN, scores.subrange(5, 9), 4).0),
    )
}

/// Law: creatures whose brains carry the same weights choose the same
/// actions on the same observation; with `clone_mutate_std`'s zero-spread
/// guarantee, a zero-noise clone decides exactly as its parent does.
pub proof fn lemma_same_weights_same_actions(
    a: Seq<Vec<Vec<i64>>>,
    b: Seq<Vec<Vec<i64>>>,
    o: Observation,
)
    requires
        same_weights(a, b),
        a.len() >= 1,
    ensures
        chosen_actions(a, o) == chosen_actions(b, o),
{
    crate::brain::lemma_same_weights_same_feed(a, b, o.inputs_spec());
}

/// The plain-value state of a creature, for contracts.
pub struct CreatureView {
    pub id: u64,
    pub fam: u64,
    pub x: u64,
    pub y: u64,
    pub theta: u32,
    pub color: u32,
    pub energy: u32,
    pub veg_logit: i64,
    pub age: u32,
}

pub struct Creature {
    id: u64,
    fam: u64,
    x: u64,
    y: u64,
    theta: u32,
    color: u32,
    last_obs: Option<Observation>,
    energy: u32,
    veg_logit: i64,
    brain: NeuralBrain,
    age: u32,
}

impl Creature {
    pub closed spec fn view(self) -> CreatureView {
        CreatureView {
            id: self.id,
            fam: self.fam,
            x: self.x,
            y: self.y,
            theta: self.theta,
            color: self.color,
            energy: self.energy,
            veg_logit: self.veg_logit,
            age: self.age,
        }
    }

    pub closed spec fn brain_view(self) -> Seq<Vec<Vec<i64>>> {
        self.brain.view()
    }

    pub closed spec fn last_obs_spec(self) -> Option<Observation> {
        self.last_obs
    }

    /// Internal soundness, independent of any world: heading normalized,
    /// colour the hash of the lineage, logit in range, brain shaped for
    /// the observation and action widths.
    pub open spec fn wf(self) -> bool {
        &&& self.view().theta < TAU_UNITS
        &&& self.view().color == color_of_fam_spec(self.view().fam)
        &&& -LOGIT_LIMIT <= self.view().veg_logit <= LOGIT_LIMIT
        &&& self.brain_ok()
    }

    pub closed spec fn brain_ok(self) -> bool {
        self.brain.wf(NUM_INPUTS as int, TOTAL_ACTIONS as int)
    }

    /// A founder: fresh brain, starting energy, age zero, colour derived
    /// from the lineage, efficiency stored as its logit.
    ///
    /// Because the genome keeps the logit, `get_veg_eff` reads back
    /// `logistic(logit(veg))`: exact at one half and within a few
    /// thousandths of `veg` elsewhere, the grain of the fixed-point maps.
    pub fn new(id: u64, fam: u64, x: u64, y: u64, theta: u32, veg: u32, rng: &mut RandomSource) -> (c:
        Creature)
        requires
            theta < TAU_UNITS,
            1 <= veg <= 999,
        ensures
            c.wf(),
            c.view().id == id,
            c.view().fam == fam,
            c.view().x == x,
            c.view().y == y,
            c.view().theta == theta,
            c.view().color == color_of_fam_spec(fam),
            c.view().energy == STARTING_ENERGY,
            c.view().veg_logit == logit_milli_spec(veg as int),
            c.view().age == 0,
            (c.last_obs_spec() is None),
    {
        let color = color_of_fam(fam);
        let hidden: Vec<usize> = vec![7];
        let brain = NeuralBrain::new_random(NUM_INPUTS, TOTAL_ACTIONS, &hidden, rng);
        Creature {
            id,
            fam,
            x,
            y,
            theta,
            color,
            last_obs: None,
            energy: STARTING_ENERGY,
            veg_logit: logit_milli(veg),
            brain,
            age: 0,
        }
    }

    /// The child a replication produces: same pose and lineage, fresh id,
    /// starting energy, age zero, brain and efficiency-logit nudged by
    /// noise of spread `MUT_STD`.
    pub fn clone_mutate(&self, new_id: u64, rng: &mut RandomSource) -> (c: Creature)
        requires
            self.wf(),
        ensures
            c.wf(),
            c.view().id == new_id,
            c.view().fam == self.view().fam,
            c.view().x == self.view().x,
            c.view().y == self.view().y,
            c.view().theta == self.view().theta,
            c.view().color == self.view().color,
            c.view().energy == STARTING_ENERGY,
            c.view().age == 0,
            (c.last_obs_spec() is None),
            -6 * (MUT_STD as int) <= c.view().veg_logit - self.view().veg_logit <= 6 * (
            MUT_STD as int),
            same_shape(self.brain_view(), c.brain_view()),
            weights_within(self.brain_view(), c.brain_view(), 6 * (MUT_STD as int)),
    {
        self.clone_mutate_std(new_id, MUT_STD, rng)
    }

    /// As `clone_mutate`, with the noise spread passed in; zero spread
    /// reproduces brain and efficiency exactly.
    pub fn clone_mutate_std(&self, new_id: u64, std: u32, rng: &mut RandomSource) -> (c: Creature)
        requires
            self.wf(),
            std <= 100000,
        ensures
            c.wf(),
            c.view().id == new_id,
            c.view().fam == self.view().fam,
            c.view().x == self.view().x,
            c.view().y == self.view().y,
            c.view().theta == self.view().theta,
            c.view().color == self.view().color,
            c.view().energy == STARTING_ENERGY,
            c.view().age == 0,
            (c.last_obs_spec() is None),
            -6 * (std as int) <= c.view().veg_logit - self.view().veg_logit <= 6 * (std as int),
            same_shape(self.brain_view(), c.brain_view()),
            weights_within(self.brain_view(), c.brain_view(), 6 * (std as int)),
            std == 0 ==> c.view().veg_logit == self.view().veg_logit,
            std == 0 ==> same_weights(c.brain_view(), self.brain_view()),
    {
        let newbrain = self.brain.clone_mutate(std, rng);
        let noise: i64 = rng.gauss_milli(std);
        let bumped: i64 = self.veg_logit + noise;
        let new_logit: i64 = if bumped > LOGIT_LIMIT {
            LOGIT_LIMIT
        } else if bumped < -LOGIT_LIMIT {
            -LOGIT_LIMIT
        } else {
            bumped
        };
        let c = Creature {
            id: new_id,
            fam: self.fam,
            x: self.x,
            y: self.y,
            theta: self.theta,
            color: self.color,
            last_obs: None,
            energy: STARTING_ENERGY,
            veg_logit: new_logit,
            brain: newbrain,
            age: 0,
        };
        proof {
            let av = self.brain.view();
            let bv = c.brain.view();
            assert(c.brain.wf(NUM_INPUTS as int, TOTAL_ACTIONS as int)) by {
                assert forall|k: int| 0 <= k < bv.len() implies {
                    &&& crate::linalg::mat_wf(
                        (#[trigger] bv[k])@,
                        bv[k]@.len() as int,
                        crate::brain::fan_in(bv, NUM_INPUTS as int, k),
                    )
                    &&& 1 <= bv[k]@.len() <= 64
                    &&& crate::linalg::mat_bounded(bv[k]@, WEIGHT_LIMIT as int)
                } by {
                    assert(self.brain.wf(NUM_INPUTS as int, TOTAL_ACTIONS as int));
                    assert(crate::linalg::mat_wf(
                        (av[k])@,
                        av[k]@.len() as int,
                        crate::brain::fan_in(av, NUM_INPUTS as int, k),
                    ));
                    assert(bv[k]@.len() == av[k]@.len());
                    assert(crate::brain::fan_in(bv, NUM_INPUTS as int, k) == crate::brain::fan_in(
                        av,
                        NUM_INPUTS as int,
                        k,
                    ));
                    assert forall|i: int| 0 <= i < bv[k]@.len() implies (#[trigger] bv[k]@[i])@.len()
                        == crate::brain::fan_in(bv, NUM_INPUTS as int, k) by {
                        assert(av[k]@[i]@.len() == bv[k]@[i]@.len());
                    }
                    assert forall|i: int, j: int|
                        0 <= i < bv[k]@.len() && 0 <= j < bv[k]@[i]@.len() implies -(
                    WEIGHT_LIMIT as int) <= #[trigger] bv[k]@[i]@[j] <= WEIGHT_LIMIT as int by {
                        assert(av[k]@[i]@.len() == bv[k]@[i]@.len());
                    }
                }
            }
        }
        c
    }

    pub fn get_age(&self) -> (r: u32)
        ensures
            r == self.view().age,
    {
        self.age
    }

    /// One tick older; returns the new age.
    pub fn inc_age(&mut self) -> (r: u32)
        requires
            old(self).view().age < u32::MAX,
        ensures
            final(self).view() == (CreatureView { age: (old(self).view().age + 1) as u32, ..old(self).view() }),
            final(self).brain_view() == old(self).brain_view(),
            final(self).brain_ok() == old(self).brain_ok(),
            final(self).last_obs_spec() == old(self).last_obs_spec(),
            r == final(self).view().age,
    {
        self.age = self.age + 1;
        self.age
    }

    /// The efficiency itself, read back through the logistic map.
    pub fn get_veg_eff(&self) -> (r: u32)
        ensures
            r == logistic_milli_spec(self.view().veg_logit as int),
            1 <= r <= 999,
    {
        logistic_milli(self.veg_logit)
    }

    pub fn get_id(&self) -> (r: u64)
        ensures
            r == self.view().id,
    {
        self.id
    }

    pub fn get_fam(&self) -> (r: u64)
        ensures
            r == self.view().fam,
    {
        self.fam
    }

    pub fn get_last_observation(&self) -> (r: &Option<Observation>)
        ensures
            *r == self.last_obs_spec(),
    {
        &self.last_obs
    }

    pub fn get_pos(&self) -> (r: (u64, u64, u32))
        ensures
            r.0 == self.view().x,
            r.1 == self.view().y,
            r.2 == self.view().theta,
    {
        (self.x, self.y, self.theta)
    }

    /// Moves the creature; the world wraps coordinates before calling.
    pub fn set_pos(&mut self, x: u64, y: u64)
        ensures
            final(self).view() == (CreatureView { x, y, ..old(self).view() }),
            final(self).brain_view() == old(self).brain_view(),
            final(self).brain_ok() == old(self).brain_ok(),
            final(self).last_obs_spec() == old(self).last_obs_spec(),
    {
        self.x = x;
        self.y = y;
    }

    /// Stores the heading normalized into `[0, TAU_UNITS)`, whatever whole
    /// turns the argument carries.
    pub fn set_theta(&mut self, theta: i64)
        requires
            -1000000000000 <= theta <= 1000000000000,
        ensures
            final(self).view() == (CreatureView {
                theta: norm_angle_spec(theta as int) as u32,
                ..old(self).view()
            }),
            final(self).view().theta < TAU_UNITS,
            final(self).brain_view() == old(self).brain_view(),
            final(self).brain_ok() == old(self).brain_ok(),
            final(self).last_obs_spec() == old(self).last_obs_spec(),
    {
        self.theta = norm_angle(theta);
    }

    pub fn get_color(&self) -> (r: u32)
        ensures
            r == self.view().color,
    {
        self.color
    }

    /// Feeds the observation through the brain and picks, by strict
    /// first-seen maximum, one choice from each of the three disjoint
    /// action groups laid side by side in the brain's output; the
    /// observation is kept for later inspection.
    pub fn get_preferred_action(&mut self, o: Observation) -> (r: (
        TurningAction,
        MovementAction,
        Action,
    ))
        requires
            old(self).wf(),
            o.wf(),
        ensures
            final(self).wf(),
            final(self).view() == old(self).view(),
            final(self).brain_view() == old(self).brain_view(),
            final(self).last_obs_spec() == Some(o),
            r == chosen_actions(old(self).brain_view(), o),
    {
        let ghost scores = feed_spec(self.brain_view(), o.inputs_spec());
        let inputs = o.inputs();
        let mut outputs: Vec<i64> = Vec::new();
        let mut i: usize = 0;
        while i < TOTAL_ACTIONS
            invariant
                i <= TOTAL_ACTIONS,
                outputs@.len() == i,
            decreases TOTAL_ACTIONS - i,
        {
            outputs.push(0);
            i = i + 1;
        }
        self.brain.feed(&inputs, &mut outputs);

        let mut ts: Vec<i64> = Vec::new();
        ts.push(outputs[0]);
        ts.push(outputs[1]);
        ts.push(outputs[2]);
        let mut ms: Vec<i64> = Vec::new();
        ms.push(outputs[3]);
        ms.push(outputs[4]);
        let mut ds: Vec<i64> = Vec::new();
        ds.push(outputs[5]);
        ds.push(outputs[6]);
        ds.push(outputs[7]);
        ds.push(outputs[8]);
        proof {
            assert(ts@ =~= scores.subrange(0, 3));
            assert(ms@ =~= scores.subrange(3, 5));
            assert(ds@ =~= scores.subrange(5, 9));
        }
        let turning = max_index(i64::MIN, &ts);
        let moving = max_index(i64::MIN, &ms);
        let discrete = max_index(i64::MIN, &ds);
        let turn_action = TurningAction::from_index(turning.0);
        let move_action = MovementAction::from_index(moving.0);
        let action = Action::from_index(discrete.0);
        self.last_obs = Some(o);
        (turn_action, move_action, action)
    }

    pub fn get_energy(&self) -> (r: u32)
        ensures
            r == self.view().energy,
    {
        self.energy
    }

    /// Credits energy, saturating at the integer's ceiling; the game's own
    /// rules keep values far below it.
    pub fn add_energy(&mut self, energy: u32)
        ensures
            final(self).view() == (CreatureView {
                energy: if old(self).view().energy + energy <= u32::MAX {
                    (old(self).view().energy + energy) as u32
                } else {
                    u32::MAX
                },
                ..old(self).view()
            }),
            final(self).brain_view() == old(self).brain_view(),
            final(self).brain_ok() == old(self).brain_ok(),
            final(self).last_obs_spec() == old(self).last_obs_spec(),
    {
        if self.energy > u32::MAX - energy {
            self.energy = u32::MAX;
        } else {
            self.energy = self.energy + energy;
        }
    }

    /// Saturating debit: returns what actually left, never driving energy
    /// negative.
    pub fn remove_energy(&mut self, energy: u32) -> (removed: u32)
        ensures
            old(self).view().energy >= energy ==> {
                &&& removed == energy
                &&& final(self).view() == (CreatureView {
                    energy: (old(self).view().energy - energy) as u32,
                    ..old(self).view()
                })
            },
            old(self).view().energy < energy ==> {
                &&& removed == old(self).view().energy
                &&& final(self).view() == (CreatureView { energy: 0u32, ..old(self).view() })
            },
            final(self).brain_view() == old(self).brain_view(),
            final(self).brain_ok() == old(self).brain_ok(),
            final(self).last_obs_spec() == old(self).last_obs_spec(),
    {
        if self.energy > energy {
            self.energy = self.energy - energy;
            energy
        } else {
            let tmp = self.energy;
            self.energy = 0;
            tmp
        }
    }
}

} // verus!
