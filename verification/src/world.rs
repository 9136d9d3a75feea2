//! The world: the creature list, the grass field, the spatial index, and
//! the per-tick simulation step that drives them.
//!
//! Grass cells live on a `tile_x` by `tile_y` grid, one `u32` each, capped
//! at `GRASS_MAX`. Creature coordinates are micro-cells, so the world
//! rectangle is `tile_x * MICRO` by `tile_y * MICRO`; the spatial index
//! uses one bin per `GRID_STEP_MICRO`, the sight range.

use vstd::prelude::*;

use crate::angle::{
    atan2_units, atan2_units_spec, cos_milli, cos_milli_spec, norm_angle_spec, sin_milli,
    sin_milli_spec, EIGHTH_TURN, HALF_TURN, QUARTER_TURN, TAU_UNITS,
};
use crate::creature::{chosen_actions, Action, MovementAction, TurningAction};
use crate::creature::{Creature, CreatureView, Observation, MAX_DIST_MICRO, STARTING_ENERGY};
use crate::fixnum::isqrt_u64;
use crate::gridlookup::{entry_close, reflect, GridLookup};
use crate::rng::RandomSource;

verus! {

/// Micro-cells per grass cell.
pub const MICRO: u64 = 1000000;

/// The spatial index's bin side: the sight range, in micro-cells.
pub const GRID_STEP_MICRO: u64 = 20000000;

/// Ceiling of every grass cell.
pub const GRASS_MAX: u32 = 512;

/// What every cell regains per tick, up to the ceiling.
pub const GRASS_RECHARGE: u32 = 1;

/// How far a bite reaches, in micro-cells.
pub const BITE_DIST_MICRO: u64 = 1000000;

/// The bite reach, squared.
pub const BITE_D2: u64 = 1000000000000;

/// Base damage of a bite, scaled down by the biter's vegetarian leaning.
pub const BITE_DAMAGE: u32 = 4096;

/// Heading change of one turn action, in angle units.
pub const TURN_STEP: i64 = 10000;

/// Ground covered by one forward action, in micro-cells.
pub const WALK_STEP_MICRO: i64 = 20000;

/// Energy every creature loses per tick by existing.
pub const CREATURE_ENERGY_COST: u32 = 1;

/// Extra energy a forward step costs.
pub const CREATURE_WALK_ENERGY_COST: u32 = 3;

/// Age at which a creature is culled.
pub const MAX_AGE: u32 = 60000;

/// Floor on the number of distinct lineages.
pub const MIN_FAMS: usize = 5;

/// The squared sight range, in micro-cells squared.
pub const MAX_D2: u64 = 400000000000000;

/// A creature's energy as the observation reports it: milli-units of the
/// starting energy, rounded down.
pub open spec fn obs_energy_spec(e: u32) -> int {
    (e * 1000) / (STARTING_ENERGY as int)
}

/// The reflected axis offset from `mx` to a point stored at `ox`, on an
/// axis of circumference `m`: the signed toroidal difference.
pub open spec fn rel_d(ox: int, mx: int, m: int) -> int {
    reflect(ox, mx, m) - mx
}

/// Squared toroidal distance from `me` to `ov`.
pub open spec fn cand_d2(me: CreatureView, ov: CreatureView, xmax: int, ymax: int) -> int {
    let dx = rel_d(ov.x as int, me.x as int, xmax);
    let dy = rel_d(ov.y as int, me.y as int, ymax);
    dx * dx + dy * dy
}

/// Bearing of `ov` from `me`, measured from the right edge of the vision
/// cone, in `[0, TAU_UNITS)`.
pub open spec fn cand_bearing(me: CreatureView, ov: CreatureView, xmax: int, ymax: int) -> int {
    let dx = rel_d(ov.x as int, me.x as int, xmax);
    let dy = rel_d(ov.y as int, me.y as int, ymax);
    (atan2_units_spec(dy, dx) - me.theta + EIGHTH_TURN + 2 * (TAU_UNITS as int)) % (
    TAU_UNITS as int)
}

/// `ov` is inside `me`'s sight range and vision cone.
pub open spec fn cand_visible(me: CreatureView, ov: CreatureView, xmax: int, ymax: int) -> bool {
    cand_d2(me, ov, xmax, ymax) <= MAX_D2 && cand_bearing(me, ov, xmax, ymax) < QUARTER_TURN
}

/// Which of the five angular sites `ov` falls in, for a visible `ov`.
pub open spec fn cand_site(me: CreatureView, ov: CreatureView, xmax: int, ymax: int) -> int {
    (5 * cand_bearing(me, ov, xmax, ymax)) / (QUARTER_TURN as int)
}

/// Creature `t` is someone else, visible to `me`, in site `b`.
pub open spec fn site_candidate(
    me: Creature,
    cs: Seq<Creature>,
    xmax: int,
    ymax: int,
    b: int,
    t: int,
) -> bool {
    &&& 0 <= t < cs.len()
    &&& cs[t].view().id != me.view().id
    &&& cand_visible(me.view(), cs[t].view(), xmax, ymax)
    &&& cand_site(me.view(), cs[t].view(), xmax, ymax) == b
}

/// `r` is the integer square root of `n`.
pub open spec fn is_isqrt(r: int, n: int) -> bool {
    0 <= r && r * r <= n < (r + 1) * (r + 1)
}

/// What site `b` of an observation must hold: the sight-range sentinel and
/// neutral colour where nothing is visible there, else the distance to a
/// closest visible creature of the site and that creature's colour. When
/// several candidates tie for closest, the scan keeps the first it finds,
/// in index order over the bins; the contract leaves the choice among the
/// tied candidates open and promises only that some closest one is shown.
pub open spec fn site_ok(
    me: Creature,
    cs: Seq<Creature>,
    xmax: int,
    ymax: int,
    b: int,
    dist: i64,
    color: i64,
) -> bool {
    if exists|t: int| #[trigger] site_candidate(me, cs, xmax, ymax, b, t) {
        exists|t: int|
            {
                &&& #[trigger] site_candidate(me, cs, xmax, ymax, b, t)
                &&& color == cs[t].view().color
                &&& is_isqrt(dist as int, cand_d2(me.view(), cs[t].view(), xmax, ymax))
                &&& forall|u: int|
                    site_candidate(me, cs, xmax, ymax, b, u) ==> cand_d2(
                        me.view(),
                        cs[u].view(),
                        xmax,
                        ymax,
                    ) >= cand_d2(me.view(), cs[t].view(), xmax, ymax)
            }
    } else {
        dist == MAX_DIST_MICRO && color == 0
    }
}

/// The grass window of the observation reads the three-by-three block of
/// cells around the observer's cell, wrapped on both axes, each value
/// scaled to milli-units of the ceiling.
pub open spec fn grass_window_ok(
    grass: Seq<u32>,
    tile_x: int,
    tile_y: int,
    me: CreatureView,
    o: Observation,
) -> bool {
    forall|ix: int, iy: int|
        0 <= ix < 3 && 0 <= iy < 3 ==> {
            let gx = (me.x as int) / (MICRO as int);
            let gy = (me.y as int) / (MICRO as int);
            let sx = (tile_x + gx + ix - 1) % tile_x;
            let sy = (tile_y + gy + iy - 1) % tile_y;
            #[trigger] o.neighboring_grass@[iy * 3 + ix] == (grass[sy * tile_x + sx] * 1000) / (
            GRASS_MAX as int)
        }
}

/// Everything `observe` promises of the snapshot it builds.
pub open spec fn observation_ok(
    grass: Seq<u32>,
    tile_x: int,
    tile_y: int,
    me: Creature,
    cs: Seq<Creature>,
    o: Observation,
) -> bool {
    let xmax = tile_x * (MICRO as int);
    let ymax = tile_y * (MICRO as int);
    &&& o.wf()
    &&& o.energy == obs_energy_spec(me.view().energy)
    &&& grass_window_ok(grass, tile_x, tile_y, me.view(), o)
    &&& forall|b: int|
        0 <= b < 5 ==> #[trigger] site_ok(me, cs, xmax, ymax, b, o.dists@[b], o.colors@[b])
}

/// The query item names a creature and carries its reflected coordinates.
pub open spec fn item_tracks(
    cs: Seq<Creature>,
    mx: int,
    my: int,
    xmax: int,
    ymax: int,
    item: (i64, i64, usize),
) -> bool {
    &&& 0 <= (item.2 as int) < cs.len()
    &&& item.0 == reflect(cs[item.2 as int].view().x as int, mx, xmax)
    &&& item.1 == reflect(cs[item.2 as int].view().y as int, my, ymax)
}

/// Axis offset of one forward step along `theta`, in micro-cells.
pub open spec fn walk_dx(theta: u32) -> int {
    (WALK_STEP_MICRO / 1000) * cos_milli_spec(theta as int)
}

pub open spec fn walk_dy(theta: u32) -> int {
    (WALK_STEP_MICRO / 1000) * sin_milli_spec(theta as int)
}

/// Where a coordinate ends after a step: put just inside the far edge on
/// underflow, on the near edge on overflow, else unchanged.
pub open spec fn wrap_coord(p: int, m: int) -> int {
    if p < 0 {
        m - 1000
    } else if p >= m {
        0
    } else {
        p
    }
}

/// Energy after the forward step's cost is charged.
pub open spec fn walk_energy(e: u32) -> u32 {
    if e >= CREATURE_WALK_ENERGY_COST {
        (e - CREATURE_WALK_ENERGY_COST) as u32
    } else {
        0
    }
}

/// A creature's plain state after its movement and turning actions: a
/// forward step along the old heading with wrapping and the walking cost,
/// then the turn, normalized.
pub open spec fn moved_view(
    v: CreatureView,
    turn: TurningAction,
    mov: MovementAction,
    xmax: int,
    ymax: int,
) -> CreatureView {
    let v1 = if mov is FORWARD {
        CreatureView {
            x: wrap_coord(v.x + walk_dx(v.theta), xmax) as u64,
            y: wrap_coord(v.y + walk_dy(v.theta), ymax) as u64,
            energy: walk_energy(v.energy),
            ..v
        }
    } else {
        v
    };
    if turn is LEFT {
        CreatureView { theta: norm_angle_spec(v.theta + TURN_STEP) as u32, ..v1 }
    } else if turn is RIGHT {
        CreatureView { theta: norm_angle_spec(v.theta - TURN_STEP) as u32, ..v1 }
    } else {
        v1
    }
}

/// `b` differs from `a` at most in its energy; soundness carries over.
pub open spec fn same_but_energy(a: Creature, b: Creature) -> bool {
    &&& b.view() == (CreatureView { energy: b.view().energy, ..a.view() })
    &&& b.brain_view() == a.brain_view()
    &&& b.brain_ok() == a.brain_ok()
    &&& b.last_obs_spec() == a.last_obs_spec()
    &&& (a.wf() ==> b.wf())
}

/// What one tick leaves behind, phase by phase: `mid` is the survivor
/// list after upkeep and culling; `obs` and `acts` are what each survivor
/// saw (against the recharged grass) and chose; `moved` is the list after
/// movement and turning; the first `np` additions are this tick's
/// children. Together these pin the final world to the starting one.
pub open spec fn tick_evidence(
    pre: World,
    post: World,
    mid: Seq<Creature>,
    obs: Seq<Observation>,
    acts: Seq<(TurningAction, MovementAction, Action)>,
    moved: Seq<Creature>,
    np: int,
) -> bool {
    let cs0 = pre.creatures_spec();
    let fin = post.creatures_spec();
    let g1 = recharged(pre.grass_spec());
    let tx = pre.tile_x_spec() as int;
    let ty = pre.tile_y_spec() as int;
    let xmax = pre.xmax_spec();
    let ymax = pre.ymax_spec();
    let ns = mid.len() as int;
    &&& obs.len() == ns
    &&& acts.len() == ns
    &&& moved.len() == ns
    &&& mid.len() <= cs0.len()
    // Attrition: `mid` holds exactly the survivors of the old list, each
    // charged the upkeep and one tick older.
    &&& forall|k: int| 0 <= k < ns ==> #[trigger] kept_from_source(cs0, mid, k)
    &&& forall|t: int|
        0 <= t < cs0.len() && survives(#[trigger] cs0[t]) ==> survivor_kept(cs0, mid, t)
    // Culling: whoever ran out of energy or reached the age cap is gone.
    &&& forall|t: int, j: int|
        0 <= t < cs0.len() && !survives(#[trigger] cs0[t]) && 0 <= j < fin.len() ==> (
        #[trigger] fin[j]).view().id != cs0[t].view().id
    // Observation and choice, against the recharged grass.
    &&& forall|k: int|
        0 <= k < ns ==> observation_ok(g1, tx, ty, mid[k], mid, #[trigger] obs[k])
    &&& forall|k: int|
        0 <= k < ns ==> #[trigger] acts[k] == chosen_actions(mid[k].brain_view(), obs[k])
    // Movement: each survivor's pose is `moved_view` of its actions.
    &&& forall|k: int|
        0 <= k < ns ==> {
            &&& (#[trigger] moved[k]).view() == moved_view(
                mid[k].view(),
                acts[k].0,
                acts[k].1,
                xmax,
                ymax,
            )
            &&& moved[k].brain_view() == mid[k].brain_view()
        }
    // Final members: the survivors first, only their energy touched by the
    // discrete pass; then this tick's children; then the floor founders;
    // ids issued in sequence from the old counter.
    &&& 0 <= np
    &&& ns + np <= fin.len()
    &&& np <= count_replicates(acts, ns)
    &&& forall|k: int| 0 <= k < ns ==> same_but_energy(moved[k], #[trigger] fin[k])
    &&& forall|j: int|
        ns <= j < fin.len() ==> {
            let nb = #[trigger] fin[j];
            &&& nb.view().energy == STARTING_ENERGY
            &&& nb.view().age == 0
            &&& (nb.last_obs_spec() is None)
            &&& nb.view().id as int == pre.creature_id_spec() + (j - ns)
            &&& (if j < ns + np {
                child_of(moved, nb, xmax, ymax)
            } else {
                nb.view().fam == nb.view().id
            })
        }
    // Grass, exactly: the recharged field, then each eater in list order
    // halving the cell it stands on. In particular every cell ends at or
    // below its recharged value, and a cell nobody ate keeps it.
    &&& post.grass_spec() == grass_after(g1, moved, acts, tx, ns)
    &&& post.grass_spec().len() == g1.len()
    &&& forall|i: int| 0 <= i < g1.len() ==> #[trigger] post.grass_spec()[i] <= g1[i]
    &&& forall|i: int|
        0 <= i < g1.len() && !eats_cell(moved, acts, tx, i, ns) ==> #[trigger] post.grass_spec()[i]
            == g1[i]
}

/// The set of lineages present in `cs`.
pub open spec fn fams_of(cs: Seq<Creature>) -> Set<u64> {
    cs.map_values(|c: Creature| c.view().fam).to_set()
}

/// Lineage `f` is present in `cs`.
pub open spec fn fam_present(cs: Seq<Creature>, f: u64) -> bool {
    exists|i: int| 0 <= i < cs.len() && (#[trigger] cs[i]).view().fam == f
}

/// `n` is the child its parent's replication places: same lineage, put one
/// reproduction offset straight behind the parent, facing back.
pub open spec fn spawned_from(parent: Creature, n: Creature, xmax: int, ymax: int) -> bool {
    let rev = rev_theta_spec(parent.view().theta);
    &&& n.view().fam == parent.view().fam
    &&& n.view().theta == rev
    &&& n.view().x as int == spawn_coord(
        parent.view().x as int,
        (10 * WALK_STEP_MICRO / 1000) * cos_milli_spec(rev),
        xmax,
    )
    &&& n.view().y as int == spawn_coord(
        parent.view().y as int,
        (10 * WALK_STEP_MICRO / 1000) * sin_milli_spec(rev),
        ymax,
    )
}

/// `n` is the buffered child of someone in `cs`.
pub open spec fn child_of(cs: Seq<Creature>, n: Creature, xmax: int, ymax: int) -> bool {
    exists|i: int| 0 <= i < cs.len() && spawned_from(#[trigger] cs[i], n, xmax, ymax)
}

/// The heading pointing straight back from `t`.
pub open spec fn rev_theta_spec(t: u32) -> int {
    (t + HALF_TURN) % (TAU_UNITS as int)
}

/// A coordinate displaced by `d` and wrapped onto the axis of size `m`.
pub open spec fn spawn_coord(p: int, d: int, m: int) -> int {
    (p + d) % m
}

/// The grass field after one recharge: every cell up by the rate, capped.
pub open spec fn recharged(g: Seq<u32>) -> Seq<u32> {
    Seq::new(
        g.len(),
        |i: int|
            if g[i] + GRASS_RECHARGE <= GRASS_MAX {
                (g[i] + GRASS_RECHARGE) as u32
            } else {
                GRASS_MAX
            },
    )
}

/// The flat index of the grass cell under a creature.
pub open spec fn cell_index_of(v: CreatureView, tile_x: int) -> int {
    ((v.y as int) / (MICRO as int)) * tile_x + (v.x as int) / (MICRO as int)
}

/// One of the first `n` creatures eats while standing on cell `i`.
pub open spec fn eats_cell(
    cs: Seq<Creature>,
    acts: Seq<(TurningAction, MovementAction, Action)>,
    tile_x: int,
    i: int,
    n: int,
) -> bool {
    exists|k: int|
        0 <= k < n && ((#[trigger] acts[k]).2 is EAT) && cell_index_of(cs[k].view(), tile_x) == i
}

/// The grass field after the first `n` creatures act, in list order: an
/// eater halves the cell it stands on, rounding the bite up; nothing else
/// touches grass. This pins the eat rule of the discrete pass exactly.
pub open spec fn grass_after(
    g: Seq<u32>,
    cs: Seq<Creature>,
    acts: Seq<(TurningAction, MovementAction, Action)>,
    tile_x: int,
    n: int,
) -> Seq<u32>
    decreases n,
{
    if n <= 0 {
        g
    } else {
        let g1 = grass_after(g, cs, acts, tile_x, n - 1);
        if acts[n - 1].2 is EAT {
            let i = cell_index_of(cs[n - 1].view(), tile_x);
            g1.update(i, (g1[i] - (g1[i] + 1) / 2) as u32)
        } else {
            g1
        }
    }
}

/// How many of the first `n` actions replicate.
pub open spec fn count_replicates(
    acts: Seq<(TurningAction, MovementAction, Action)>,
    n: int,
) -> int
    decreases n,
{
    if n <= 0 {
        0
    } else {
        count_replicates(acts, n - 1) + (if acts[n - 1].2 is REPLICATE {
            1int
        } else {
            0int
        })
    }
}

/// Energy after the per-tick upkeep is charged.
pub open spec fn aged_energy(e: u32) -> u32 {
    if e >= 1 {
        (e - 1) as u32
    } else {
        0
    }
}

/// `b` is `a` one tick later: upkeep charged, one tick older, all else the
/// same.
pub open spec fn aged_from(a: Creature, b: Creature) -> bool {
    &&& b.view() == (CreatureView {
        energy: aged_energy(a.view().energy),
        age: (a.view().age + 1) as u32,
        ..a.view()
    })
    &&& b.brain_view() == a.brain_view()
    &&& b.brain_ok() == a.brain_ok()
    &&& b.last_obs_spec() == a.last_obs_spec()
    &&& (a.wf() ==> b.wf())
}

/// The attrition step keeps a creature that still has energy and is under
/// the age cap after this tick's upkeep.
pub open spec fn survives(a: Creature) -> bool {
    aged_energy(a.view().energy) > 0 && a.view().age + 1 < MAX_AGE
}

/// A stored index entry points at a live creature and carries its
/// coordinates.
pub open spec fn grid_entry_ok(cs: Seq<Creature>, e: (u64, u64, usize)) -> bool {
    &&& (e.2 as int) < cs.len()
    &&& e.0 == cs[e.2 as int].view().x
    &&& e.1 == cs[e.2 as int].view().y
}

/// Creature `t` has its entry somewhere in the index.
pub open spec fn grid_covers(g: GridLookup<usize>, cs: Seq<Creature>, t: int) -> bool {
    exists|b: int, j: int|
        0 <= b < g.bins().len() && 0 <= j < g.bins()[b].len() && #[trigger] g.bins()[b][j] == (
        cs[t].view().x,
        cs[t].view().y,
        t as usize,
        )
}

/// The index and the creature list agree: every entry names a creature at
/// its stored coordinates, and every creature is indexed.
pub open spec fn grid_matches(g: GridLookup<usize>, cs: Seq<Creature>) -> bool {
    &&& forall|b: int, j: int|
        0 <= b < g.bins().len() && 0 <= j < g.bins()[b].len() ==> grid_entry_ok(
            cs,
            #[trigger] g.bins()[b][j],
        )
    &&& forall|t: int| 0 <= t < cs.len() ==> #[trigger] grid_covers(g, cs, t)
}

/// `out[k]` is some survivor of `cs`, aged.
pub open spec fn kept_from_source(cs: Seq<Creature>, out: Seq<Creature>, k: int) -> bool {
    exists|i: int| 0 <= i < cs.len() && survives(cs[i]) && #[trigger] aged_from(cs[i], out[k])
}

/// The survivor `cs[i]` appears, aged, somewhere in `out`.
pub open spec fn survivor_kept(cs: Seq<Creature>, out: Seq<Creature>, i: int) -> bool {
    exists|k: int| 0 <= k < out.len() && #[trigger] aged_from(cs[i], out[k])
}

pub struct World {
    creatures: Vec<Creature>,
    gridlookup: GridLookup<usize>,
    grass_values: Vec<u32>,
    grass_tile_x: usize,
    grass_tile_y: usize,
    grass_max: u32,
    grass_recharge: u32,
    creature_id: u64,
    min_pop: usize,
    min_fams: usize,
}

impl World {
    pub closed spec fn creatures_spec(self) -> Seq<Creature> {
        self.creatures@
    }

    pub closed spec fn grass_spec(self) -> Seq<u32> {
        self.grass_values@
    }

    pub closed spec fn tile_x_spec(self) -> usize {
        self.grass_tile_x
    }

    pub closed spec fn tile_y_spec(self) -> usize {
        self.grass_tile_y
    }

    pub closed spec fn grass_max_spec(self) -> u32 {
        self.grass_max
    }

    pub closed spec fn grass_recharge_spec(self) -> u32 {
        self.grass_recharge
    }

    pub closed spec fn creature_id_spec(self) -> u64 {
        self.creature_id
    }

    pub closed spec fn min_pop_spec(self) -> usize {
        self.min_pop
    }

    pub closed spec fn min_fams_spec(self) -> usize {
        self.min_fams
    }

    pub closed spec fn grid_spec(self) -> GridLookup<usize> {
        self.gridlookup
    }

    /// The world rectangle's width in micro-cells.
    pub open spec fn xmax_spec(self) -> int {
        self.tile_x_spec() * (MICRO as int)
    }

    /// The world rectangle's height in micro-cells.
    pub open spec fn ymax_spec(self) -> int {
        self.tile_y_spec() * (MICRO as int)
    }

    /// The creature at `i` is internally sound, inside the rectangle, under
    /// the age cap, and carries an id and lineage issued before
    /// `creature_id`.
    pub open spec fn creature_ok(self, c: Creature) -> bool {
        &&& c.wf()
        &&& (c.view().x as int) < self.xmax_spec()
        &&& (c.view().y as int) < self.ymax_spec()
        &&& c.view().age <= MAX_AGE
        &&& c.view().id < self.creature_id_spec()
        &&& c.view().fam < self.creature_id_spec()
    }

    /// The world's invariant: shape constants in range, grass capped, all
    /// creatures sound with pairwise distinct ids, and the spatial index
    /// empty between ticks, sized to the rectangle with the sight range as
    /// its step.
    pub open spec fn wf(self) -> bool {
        &&& 60 <= self.tile_x_spec() <= 30000
        &&& 60 <= self.tile_y_spec() <= 30000
        &&& self.tile_x_spec() % 20 == 0
        &&& self.tile_y_spec() % 20 == 0
        &&& self.grass_max_spec() == GRASS_MAX
        &&& self.grass_recharge_spec() == GRASS_RECHARGE
        &&& self.min_fams_spec() == MIN_FAMS
        &&& self.min_pop_spec() <= 100000000
        &&& self.grass_spec().len() == self.tile_x_spec() * self.tile_y_spec()
        &&& forall|i: int|
            0 <= i < self.grass_spec().len() ==> #[trigger] self.grass_spec()[i] <= GRASS_MAX
        &&& self.creatures_spec().len() <= 1000000000
        &&& forall|i: int|
            0 <= i < self.creatures_spec().len() ==> self.creature_ok(
                #[trigger] self.creatures_spec()[i],
            )
        &&& forall|i: int, j: int|
            0 <= i < self.creatures_spec().len() && 0 <= j < self.creatures_spec().len() && i != j
                ==> (#[trigger] self.creatures_spec()[i]).view().id
                != (#[trigger] self.creatures_spec()[j]).view().id
        &&& self.grid_spec().wf()
        &&& self.grid_spec().shape().xmax == self.xmax_spec()
        &&& self.grid_spec().shape().ymax == self.ymax_spec()
        &&& self.grid_spec().shape().xstep == GRID_STEP_MICRO
        &&& self.grid_spec().shape().ystep == GRID_STEP_MICRO
        &&& self.grid_spec().is_empty()
    }

    /// An empty world of `x` by `y` grass cells, every cell full, ids
    /// starting at zero.
    ///
    /// The sides must be multiples of the sight range (twenty cells), at
    /// least three of them each way: the spatial index's bins then tile
    /// the rectangle exactly, which is what makes its three-by-three scan
    /// complete. With a ragged last bin, a point near that bin's edge and
    /// one just across the seam can lie within one step of each other yet
    /// two bin indices apart, and the scan would miss the pair.
    pub fn new(x: usize, y: usize, min_pop: usize) -> (w: World)
        requires
            60 <= x <= 30000,
            60 <= y <= 30000,
            x % 20 == 0,
            y % 20 == 0,
            min_pop <= 100000000,
        ensures
            w.wf(),
            w.tile_x_spec() == x,
            w.tile_y_spec() == y,
            w.min_pop_spec() == min_pop,
            w.creature_id_spec() == 0,
            w.creatures_spec().len() == 0,
            forall|i: int| 0 <= i < w.grass_spec().len() ==> #[trigger] w.grass_spec()[i]
                == GRASS_MAX,
    {
        let xmax: u64 = (x as u64) * MICRO;
        let ymax: u64 = (y as u64) * MICRO;
        proof {
            vstd::arithmetic::div_mod::lemma_fundamental_div_mod(x as int, 20);
            vstd::arithmetic::div_mod::lemma_fundamental_div_mod(y as int, 20);
            lemma_cells_to_micro(x as int, xmax as int);
            lemma_cells_to_micro(y as int, ymax as int);
            assert((xmax as int / GRID_STEP_MICRO as int) * (ymax as int / GRID_STEP_MICRO as int)
                <= 1000000000) by (nonlinear_arith)
                requires
                    0 <= xmax as int / GRID_STEP_MICRO as int <= 1500,
                    0 <= ymax as int / GRID_STEP_MICRO as int <= 1500;
        }
        let grid: GridLookup<usize> = GridLookup::new(xmax, ymax, GRID_STEP_MICRO, GRID_STEP_MICRO);
        proof {
            assert((x as int) * (y as int) <= 900000000) by (nonlinear_arith)
                requires 0 <= x as int <= 30000, 0 <= y as int <= 30000;
        }
        let grass: Vec<u32> = vec![GRASS_MAX; x * y];
        World {
            creatures: Vec::new(),
            gridlookup: grid,
            grass_values: grass,
            grass_tile_x: x,
            grass_tile_y: y,
            grass_max: GRASS_MAX,
            grass_recharge: GRASS_RECHARGE,
            creature_id: 0,
            min_pop,
            min_fams: MIN_FAMS,
        }
    }

    pub fn get_size(&self) -> (r: (usize, usize))
        ensures
            r.0 == self.tile_x_spec(),
            r.1 == self.tile_y_spec(),
    {
        (self.grass_tile_x, self.grass_tile_y)
    }

    /// The id the next creature will receive; reading it changes nothing.
    pub fn get_creature_id(&self) -> (r: u64)
        ensures
            r == self.creature_id_spec(),
    {
        self.creature_id
    }

    /// Issues the next id: returns the current counter and advances it.
    /// Ids are never reused.
    pub fn get_inc_creature_id(&mut self) -> (t: u64)
        requires
            old(self).creature_id_spec() < u64::MAX,
        ensures
            t == old(self).creature_id_spec(),
            final(self).creature_id_spec() == old(self).creature_id_spec() + 1,
            final(self).creatures_spec() == old(self).creatures_spec(),
            final(self).grass_spec() == old(self).grass_spec(),
            final(self).tile_x_spec() == old(self).tile_x_spec(),
            final(self).tile_y_spec() == old(self).tile_y_spec(),
            final(self).min_pop_spec() == old(self).min_pop_spec(),
            final(self).min_fams_spec() == old(self).min_fams_spec(),
            final(self).grass_max_spec() == old(self).grass_max_spec(),
            final(self).grass_recharge_spec() == old(self).grass_recharge_spec(),
            final(self).grid_spec() == old(self).grid_spec(),
            old(self).wf() ==> final(self).wf(),
    {
        let t = self.creature_id;
        self.creature_id = self.creature_id + 1;
        t
    }

    /// Admits a creature the caller has built around a freshly issued id.
    pub fn add_creature(&mut self, c: Creature)
        requires
            old(self).wf(),
            old(self).creature_ok(c),
            old(self).creatures_spec().len() < 1000000000,
            forall|i: int|
                0 <= i < old(self).creatures_spec().len() ==> (#[trigger] old(
                    self,
                ).creatures_spec()[i]).view().id != c.view().id,
        ensures
            final(self).wf(),
            final(self).creatures_spec() == old(self).creatures_spec().push(c),
            final(self).creature_id_spec() == old(self).creature_id_spec(),
            final(self).grass_spec() == old(self).grass_spec(),
            final(self).tile_x_spec() == old(self).tile_x_spec(),
            final(self).tile_y_spec() == old(self).tile_y_spec(),
            final(self).min_pop_spec() == old(self).min_pop_spec(),
            final(self).min_fams_spec() == old(self).min_fams_spec(),
            final(self).grass_max_spec() == old(self).grass_max_spec(),
            final(self).grass_recharge_spec() == old(self).grass_recharge_spec(),
            final(self).grid_spec() == old(self).grid_spec(),
    {
        self.creatures.push(c)
    }

    pub fn get_creature_slice(&self) -> (r: &Vec<Creature>)
        ensures
            r@ == self.creatures_spec(),
    {
        &self.creatures
    }

    pub fn get_grass_slice(&self) -> (r: &Vec<u32>)
        ensures
            r@ == self.grass_spec(),
    {
        &self.grass_values
    }

    /// Where cell `(x, y)` sits in the flat grass vector.
    pub fn get_grass_index(&self, x: usize, y: usize) -> (r: usize)
        requires
            self.wf(),
            x < self.tile_x_spec(),
            y < self.tile_y_spec(),
        ensures
            r == y * self.tile_x_spec() + x,
            r < self.grass_spec().len(),
    {
        proof {
            assert((y as int) * (self.grass_tile_x as int) + (x as int) < (self.grass_tile_x as int)
                * (self.grass_tile_y as int)) by (nonlinear_arith)
                requires
                    0 <= x as int,
                    (x as int) < (self.grass_tile_x as int),
                    0 <= y as int,
                    (y as int) < (self.grass_tile_y as int);
            assert((self.grass_tile_x as int) * (self.grass_tile_y as int) <= 900000000)
                by (nonlinear_arith)
                requires
                    0 <= self.grass_tile_x as int <= 30000,
                    0 <= self.grass_tile_y as int <= 30000;
        }
        y * self.grass_tile_x + x
    }

    /// The cell coordinates of flat index `i`: the inverse of
    /// `get_grass_index`.
    pub fn get_grass_loc(&self, i: usize) -> (r: (usize, usize))
        requires
            self.wf(),
            i < self.grass_spec().len(),
        ensures
            r.0 == i % self.tile_x_spec(),
            r.1 == i / self.tile_x_spec(),
            r.0 < self.tile_x_spec(),
            r.1 < self.tile_y_spec(),
            r.1 * self.tile_x_spec() + r.0 == i,
    {
        let x = i % self.grass_tile_x;
        let y = i / self.grass_tile_x;
        proof {
            vstd::arithmetic::div_mod::lemma_fundamental_div_mod(
                i as int,
                self.grass_tile_x as int,
            );
            assert((i as int) / (self.grass_tile_x as int) < self.grass_tile_y as int)
                by (nonlinear_arith)
                requires
                    0 <= i as int,
                    (i as int) < (self.grass_tile_x as int) * (self.grass_tile_y as int),
                    1 <= self.grass_tile_x as int,
                    i as int == (self.grass_tile_x as int) * ((i as int) / (self.grass_tile_x as int))
                        + (i as int) % (self.grass_tile_x as int),
                    0 <= (i as int) % (self.grass_tile_x as int),
                    ((i as int) % (self.grass_tile_x as int)) < (self.grass_tile_x as int);
        }
        (x, y)
    }

    pub fn get_grass_max(&self) -> (r: u32)
        ensures
            r == self.grass_max_spec(),
    {
        self.grass_max
    }

    pub fn num_creatures(&self) -> (r: usize)
        ensures
            r == self.creatures_spec().len(),
    {
        self.creatures.len()
    }

    /// The part of the invariant `observe` needs: a plausible grass field.
    pub open spec fn grass_ok(self) -> bool {
        &&& 60 <= self.tile_x_spec() <= 30000
        &&& 60 <= self.tile_y_spec() <= 30000
        &&& self.grass_max_spec() == GRASS_MAX
        &&& self.grass_spec().len() == self.tile_x_spec() * self.tile_y_spec()
        &&& forall|i: int|
            0 <= i < self.grass_spec().len() ==> #[trigger] self.grass_spec()[i] <= GRASS_MAX
    }

    /// One creature's sensory snapshot: nearby creatures binned into the
    /// five sites of the vision cone by bearing, keeping per site the
    /// closest; the grass window around its cell; its energy.
    #[verifier::rlimit(100)]
    pub fn observe(&self, c: &Creature, cs: &Vec<Creature>, grid: &GridLookup<usize>) -> (o:
        Observation)
        requires
            self.grass_ok(),
            c.wf(),
            (c.view().x as int) < self.xmax_spec(),
            (c.view().y as int) < self.ymax_spec(),
            grid.wf(),
            grid.shape().xmax == self.xmax_spec(),
            grid.shape().ymax == self.ymax_spec(),
            grid.shape().xstep == GRID_STEP_MICRO,
            grid.shape().ystep == GRID_STEP_MICRO,
            grid_matches(*grid, cs@),
            forall|i: int| 0 <= i < cs@.len() ==> (#[trigger] cs@[i]).wf(),
        ensures
            observation_ok(
                self.grass_spec(),
                self.tile_x_spec() as int,
                self.tile_y_spec() as int,
                *c,
                cs@,
                o,
            ),
    {
        let ghost xmax = self.xmax_spec();
        let ghost ymax = self.ymax_spec();
        let (x, y, theta) = c.get_pos();
        let mut o = Observation::new_empty();

        let en: u64 = (c.get_energy() as u64) * 1000 / (STARTING_ENERGY as u64);
        o.energy = en as i64;

        let n_cs = cs.len();
        let items = grid.get_within_step((x, y));
        proof {
            assert(cs@.len() == n_cs as nat);
            assert forall|k: int| 0 <= k < items@.len() implies item_tracks(
                cs@,
                x as int,
                y as int,
                xmax,
                ymax,
                #[trigger] items@[k],
            ) by {
                assert(grid.query_item_ok(x as int, y as int, items@[k]));
                let (b, j) = choose|b: int, j: int|
                    0 <= b < grid.bins().len() && 0 <= j < grid.bins()[b].len() && entry_close(
                        #[trigger] grid.bins()[b][j],
                        x as int,
                        y as int,
                        grid.shape(),
                    ) && items@[k] == crate::gridlookup::reflected(
                        grid.bins()[b][j],
                        x as int,
                        y as int,
                        grid.shape(),
                    );
                assert(grid_entry_ok(cs@, grid.bins()[b][j]));
            }
        }

        let mut best: Vec<u64> = vec![u64::MAX; 5];
        let mut cols: Vec<i64> = vec![0i64; 5];
        let ghost mut bsrc: Seq<int> = seq![-1, -1, -1, -1, -1];
        let n_items = items.len();
        let mut k: usize = 0;
        while k < n_items
            invariant
                self.grass_ok(),
                c.wf(),
                xmax == self.xmax_spec(),
                ymax == self.ymax_spec(),
                x == c.view().x,
                y == c.view().y,
                theta == c.view().theta,
                (x as int) < xmax,
                (y as int) < ymax,
                xmax <= 30000000000,
                ymax <= 30000000000,
                forall|i: int| 0 <= i < cs@.len() ==> (#[trigger] cs@[i]).wf(),
                n_items == items@.len(),
                k <= n_items,
                best@.len() == 5,
                cols@.len() == 5,
                bsrc.len() == 5,
                forall|k2: int|
                    0 <= k2 < items@.len() ==> item_tracks(
                        cs@,
                        x as int,
                        y as int,
                        xmax,
                        ymax,
                        #[trigger] items@[k2],
                    ),
                forall|k2: int|
                    0 <= k2 < items@.len() ==> crate::gridlookup::axis_abs(
                        (#[trigger] items@[k2]).0 as int,
                        x as int,
                    ) <= GRID_STEP_MICRO as int && crate::gridlookup::axis_abs(
                        items@[k2].1 as int,
                        y as int,
                    ) <= GRID_STEP_MICRO as int,
                forall|b: int|
                    0 <= b < 5 && #[trigger] bsrc[b] == -1 ==> best@[b] == u64::MAX && cols@[b]
                        == 0,
                forall|b: int, k2: int|
                    0 <= b < 5 && 0 <= k2 < k && bsrc[b] == -1 ==> !(#[trigger] site_candidate(
                        *c,
                        cs@,
                        xmax,
                        ymax,
                        b,
                        items@[k2].2 as int,
                    )),
                forall|b: int|
                    0 <= b < 5 && #[trigger] bsrc[b] != -1 ==> site_candidate(
                        *c,
                        cs@,
                        xmax,
                        ymax,
                        b,
                        bsrc[b],
                    ) && best@[b] as int == cand_d2(c.view(), cs@[bsrc[b]].view(), xmax, ymax)
                        && cols@[b] == cs@[bsrc[b]].view().color,
                forall|b: int, k2: int|
                    0 <= b < 5 && 0 <= k2 < k && #[trigger] site_candidate(
                        *c,
                        cs@,
                        xmax,
                        ymax,
                        b,
                        items@[k2].2 as int,
                    ) ==> best@[b] as int <= cand_d2(
                        c.view(),
                        cs@[items@[k2].2 as int].view(),
                        xmax,
                        ymax,
                    ),
            decreases n_items - k,
        {
            let item = items[k];
            let rx: i64 = item.0;
            let ry: i64 = item.1;
            let t: usize = item.2;
            let ghost tv = cs@[t as int].view();
            if cs[t].get_id() != c.get_id() {
                let dx: i64 = rx - x as i64;
                let dy: i64 = ry - y as i64;
                proof {
                    assert(item_tracks(cs@, x as int, y as int, xmax, ymax, items@[k as int]));
                    assert(dx == rel_d(tv.x as int, x as int, xmax));
                    assert(dy == rel_d(tv.y as int, y as int, ymax));
                    assert(dx * dx + dy * dy == cand_d2(c.view(), tv, xmax, ymax));
                    assert(0 <= dx * dx <= 400000000000000 && 0 <= dy * dy <= 400000000000000)
                        by (nonlinear_arith)
                        requires -20000000 <= dx <= 20000000, -20000000 <= dy <= 20000000;
                }
                let d2: u64 = (dx * dx + dy * dy) as u64;
                if d2 <= MAX_D2 {
                    let a: u32 = atan2_units(dy, dx);
                    let rel: i64 = a as i64 - theta as i64 + EIGHTH_TURN as i64 + 2 * (
                    TAU_UNITS as i64);
                    let dth: u32 = (rel % (TAU_UNITS as i64)) as u32;
                    proof {
                        assert(dth as int == cand_bearing(c.view(), tv, xmax, ymax));
                    }
                    if dth < QUARTER_TURN {
                        proof {
                            lemma_div_below_world(5 * (dth as int), QUARTER_TURN as int, 5);
                        }
                        let bin: usize = ((5u64 * dth as u64) / (QUARTER_TURN as u64)) as usize;
                        proof {
                            assert(bin as int == cand_site(c.view(), tv, xmax, ymax));
                            assert(site_candidate(*c, cs@, xmax, ymax, bin as int, t as int));
                        }
                        if d2 < best[bin] {
                            best.set(bin, d2);
                            cols.set(bin, cs[t].get_color() as i64);
                            proof {
                                bsrc = bsrc.update(bin as int, t as int);
                            }
                        }
                        proof {
                            assert forall|b: int, k2: int|
                                0 <= b < 5 && 0 <= k2 < k + 1 && #[trigger] site_candidate(
                                    *c,
                                    cs@,
                                    xmax,
                                    ymax,
                                    b,
                                    items@[k2].2 as int,
                                ) implies best@[b] as int <= cand_d2(
                                c.view(),
                                cs@[items@[k2].2 as int].view(),
                                xmax,
                                ymax,
                            ) by {
                                if k2 == k {
                                    assert(b == bin as int);
                                }
                            }
                        }
                    } else {
                        proof {
                            assert(!cand_visible(c.view(), tv, xmax, ymax));
                        }
                    }
                } else {
                    proof {
                        assert(!cand_visible(c.view(), tv, xmax, ymax));
                    }
                }
            } else {
                proof {
                    assert(tv.id == c.view().id);
                }
            }
            k = k + 1;
        }

        proof {
            assert forall|b: int, t: int|
                0 <= b < 5 && site_candidate(*c, cs@, xmax, ymax, b, t) implies exists|k2: int|
                0 <= k2 < items@.len() && (#[trigger] items@[k2]).2 as int == t by {
                lemma_candidate_in_items(*grid, cs@, *c, items@, x, y, xmax, ymax, b, t);
            }
        }

        let mut b: usize = 0;
        while b < 5
            invariant
                c.wf(),
                forall|i: int| 0 <= i < cs@.len() ==> (#[trigger] cs@[i]).wf(),
                b <= 5,
                best@.len() == 5,
                cols@.len() == 5,
                bsrc.len() == 5,
                o.colors@.len() == 5,
                o.dists@.len() == 5,
                o.neighboring_grass@.len() == 9,
                forall|i: int| 0 <= i < 9 ==> #[trigger] o.neighboring_grass@[i] == 0,
                0 <= o.energy <= 2100000000,
                forall|bb: int| b <= bb < 5 ==> #[trigger] o.colors@[bb] == 0,
                forall|bb: int| b <= bb < 5 ==> #[trigger] o.dists@[bb] == MAX_DIST_MICRO,
                forall|i: int| 0 <= i < 5 ==> 0 <= #[trigger] o.colors@[i] <= 1000,
                forall|i: int| 0 <= i < 5 ==> 0 <= #[trigger] o.dists@[i] <= MAX_DIST_MICRO as i64,
                o.energy == en,
                en == obs_energy_spec(c.view().energy),
                xmax == self.xmax_spec(),
                ymax == self.ymax_spec(),
                forall|bb: int|
                    0 <= bb < 5 && #[trigger] bsrc[bb] == -1 ==> best@[bb] == u64::MAX
                        && cols@[bb] == 0,
                forall|bb: int|
                    0 <= bb < 5 && #[trigger] bsrc[bb] != -1 ==> site_candidate(
                        *c,
                        cs@,
                        xmax,
                        ymax,
                        bb,
                        bsrc[bb],
                    ) && best@[bb] as int == cand_d2(c.view(), cs@[bsrc[bb]].view(), xmax, ymax)
                        && cols@[bb] == cs@[bsrc[bb]].view().color,
                forall|bb: int, t: int|
                    0 <= bb < 5 && #[trigger] site_candidate(*c, cs@, xmax, ymax, bb, t)
                        ==> bsrc[bb] != -1 && best@[bb] as int <= cand_d2(
                        c.view(),
                        cs@[t].view(),
                        xmax,
                        ymax,
                    ),
                forall|bb: int|
                    0 <= bb < b ==> #[trigger] site_ok(
                        *c,
                        cs@,
                        xmax,
                        ymax,
                        bb,
                        o.dists@[bb],
                        o.colors@[bb],
                    ),
            decreases 5 - b,
        {
            let bd = best[b];
            if bd != u64::MAX {
                proof {
                    assert(bsrc[b as int] != -1);
                    assert(best@[b as int] as int <= MAX_D2);
                }
                let r = isqrt_u64(bd);
                proof {
                    assert((r as int) * (r as int) <= 400000000000000);
                    assert(r <= 20000000) by (nonlinear_arith)
                        requires
                            0 <= r,
                            (r as int) * (r as int) <= 400000000000000;
                }
                proof {
                    let t = bsrc[b as int];
                    assert(cs@[t].wf());
                    assert(0 <= cols@[b as int] <= 1000);
                }
                let ghost oc = o.colors@;
                let ghost od = o.dists@;
                o.dists.set(b, r as i64);
                o.colors.set(b, cols[b]);
                proof {
                    assert(o.colors@ =~= oc.update(b as int, cols@[b as int]));
                    assert(o.dists@ =~= od.update(b as int, r as i64));
                    assert forall|i: int|
                        0 <= i < 5 implies 0 <= #[trigger] o.colors@[i] <= 1000 && 0
                        <= #[trigger] o.dists@[i] <= MAX_DIST_MICRO as i64 by {
                        if i != b as int {
                            assert(o.colors@[i] == oc[i]);
                            assert(o.dists@[i] == od[i]);
                        }
                    }
                    let t = bsrc[b as int];
                    assert(site_candidate(*c, cs@, xmax, ymax, b as int, t));
                    assert(is_isqrt(
                        o.dists@[b as int] as int,
                        cand_d2(c.view(), cs@[t].view(), xmax, ymax),
                    ));
                    assert(site_ok(*c, cs@, xmax, ymax, b as int, o.dists@[b as int], o.colors@[b as int]));
                }
            } else {
                proof {
                    assert forall|t: int| !site_candidate(*c, cs@, xmax, ymax, b as int, t) by {
                        if site_candidate(*c, cs@, xmax, ymax, b as int, t) {
                            assert(bsrc[b as int] != -1);
                        }
                    }
                    assert(!(exists|t: int| #[trigger] site_candidate(*c, cs@, xmax, ymax, b as int, t)));
                    assert(site_ok(*c, cs@, xmax, ymax, b as int, o.dists@[b as int], o.colors@[b as int]));
                }
            }
            b = b + 1;
        }

        let gx: usize = (x / MICRO) as usize;
        let gy: usize = (y / MICRO) as usize;
        proof {
            lemma_div_below_world(x as int, MICRO as int, self.tile_x_spec() as int);
            lemma_div_below_world(y as int, MICRO as int, self.tile_y_spec() as int);
        }
        let mut ix: usize = 0;
        while ix < 3
            invariant
                self.grass_ok(),
                ix <= 3,
                gx as int == (x as int) / (MICRO as int),
                gy as int == (y as int) / (MICRO as int),
                gx < self.tile_x_spec(),
                gy < self.tile_y_spec(),
                o.colors@.len() == 5,
                o.dists@.len() == 5,
                o.neighboring_grass@.len() == 9,
                0 <= o.energy <= 2100000000,
                forall|i: int| 0 <= i < 5 ==> 0 <= #[trigger] o.colors@[i] <= 1000,
                forall|i: int| 0 <= i < 5 ==> 0 <= #[trigger] o.dists@[i] <= MAX_DIST_MICRO as i64,
                forall|bb: int|
                    0 <= bb < 5 ==> #[trigger] site_ok(
                        *c,
                        cs@,
                        xmax,
                        ymax,
                        bb,
                        o.dists@[bb],
                        o.colors@[bb],
                    ),
                o.energy == en,
                en == obs_energy_spec(c.view().energy),
                forall|jx: int, jy: int|
                    0 <= jx < ix && 0 <= jy < 3 ==> {
                        let sx = (self.tile_x_spec() + (x as int) / (MICRO as int) + jx - 1) % (
                        self.tile_x_spec() as int);
                        let sy = (self.tile_y_spec() + (y as int) / (MICRO as int) + jy - 1) % (
                        self.tile_y_spec() as int);
                        #[trigger] o.neighboring_grass@[jy * 3 + jx] == (self.grass_spec()[sy * (
                        self.tile_x_spec() as int) + sx] * 1000) / (GRASS_MAX as int)
                    },
                forall|i: int|
                    0 <= i < 9 ==> 0 <= #[trigger] o.neighboring_grass@[i] <= 1000,
            decreases 3 - ix,
        {
            let mut iy: usize = 0;
            while iy < 3
                invariant
                    self.grass_ok(),
                    ix < 3,
                    iy <= 3,
                    gx as int == (x as int) / (MICRO as int),
                    gy as int == (y as int) / (MICRO as int),
                    gx < self.tile_x_spec(),
                    gy < self.tile_y_spec(),
                    o.colors@.len() == 5,
                    o.dists@.len() == 5,
                    o.neighboring_grass@.len() == 9,
                    0 <= o.energy <= 2100000000,
                    forall|i: int| 0 <= i < 5 ==> 0 <= #[trigger] o.colors@[i] <= 1000,
                    forall|i: int|
                        0 <= i < 5 ==> 0 <= #[trigger] o.dists@[i] <= MAX_DIST_MICRO as i64,
                    forall|bb: int|
                        0 <= bb < 5 ==> #[trigger] site_ok(
                            *c,
                            cs@,
                            xmax,
                            ymax,
                            bb,
                            o.dists@[bb],
                            o.colors@[bb],
                        ),
                    o.energy == en,
                    en == obs_energy_spec(c.view().energy),
                    forall|jx: int, jy: int|
                        (0 <= jx < ix && 0 <= jy < 3) || (jx == ix && 0 <= jy < iy) ==> {
                            let sx = (self.tile_x_spec() + (x as int) / (MICRO as int) + jx - 1) % (
                            self.tile_x_spec() as int);
                            let sy = (self.tile_y_spec() + (y as int) / (MICRO as int) + jy - 1) % (
                            self.tile_y_spec() as int);
                            #[trigger] o.neighboring_grass@[jy * 3 + jx] == (self.grass_spec()[sy
                                * (self.tile_x_spec() as int) + sx] * 1000) / (GRASS_MAX as int)
                        },
                    forall|i: int|
                        0 <= i < 9 ==> 0 <= #[trigger] o.neighboring_grass@[i] <= 1000,
                decreases 3 - iy,
            {
                let sel_x: usize = (self.grass_tile_x + gx + ix - 1) % self.grass_tile_x;
                let sel_y: usize = (self.grass_tile_y + gy + iy - 1) % self.grass_tile_y;
                proof {
                    assert((sel_y as int) * (self.grass_tile_x as int) + (sel_x as int) < (
                    self.grass_tile_x as int) * (self.grass_tile_y as int)) by (nonlinear_arith)
                        requires
                            0 <= sel_x as int,
                            (sel_x as int) < (self.grass_tile_x as int),
                            0 <= sel_y as int,
                            (sel_y as int) < (self.grass_tile_y as int);
                    assert((self.grass_tile_x as int) * (self.grass_tile_y as int) <= 900000000)
                        by (nonlinear_arith)
                        requires
                            0 <= self.grass_tile_x as int <= 30000,
                            0 <= self.grass_tile_y as int <= 30000;
                }
                let gidx: usize = sel_y * self.grass_tile_x + sel_x;
                let gval: u64 = (self.grass_values[gidx] as u64) * 1000 / (GRASS_MAX as u64);
                let slot: usize = Observation::neighbor_index(ix, iy);
                o.neighboring_grass.set(slot, gval as i64);
                iy = iy + 1;
            }
            ix = ix + 1;
        }
        proof {
            assert(o.wf());
            assert(grass_window_ok(
                self.grass_spec(),
                self.tile_x_spec() as int,
                self.tile_y_spec() as int,
                c.view(),
                o,
            ));
        }
        o
    }

    /// One full tick: grass recharge; upkeep, ageing and culling; index
    /// rebuild; observation and action choice for every creature; movement
    /// and turning; the sequential eat/replicate/bite pass with newborns
    /// buffered and appended after it; the population and lineage floors;
    /// and the index cleared for the next tick.
    #[verifier::rlimit(100)]
    pub fn update(&mut self, rng: &mut RandomSource)
        requires
            old(self).wf(),
            old(self).creatures_spec().len() <= 400000000,
            old(self).creature_id_spec() <= 1000000000000000000,
        ensures
            final(self).wf(),
            final(self).tile_x_spec() == old(self).tile_x_spec(),
            final(self).tile_y_spec() == old(self).tile_y_spec(),
            final(self).min_pop_spec() == old(self).min_pop_spec(),
            final(self).min_fams_spec() == old(self).min_fams_spec(),
            final(self).grass_spec().len() == old(self).grass_spec().len(),
            final(self).creatures_spec().len() >= final(self).min_pop_spec(),
            fams_of(final(self).creatures_spec()).len() >= final(self).min_fams_spec(),
            final(self).creature_id_spec() >= old(self).creature_id_spec(),
            exists|
                mid: Seq<Creature>,
                obs: Seq<Observation>,
                acts: Seq<(TurningAction, MovementAction, Action)>,
                moved: Seq<Creature>,
                np: int,
            |
                #[trigger] tick_evidence(*old(self), *final(self), mid, obs, acts, moved, np),
    {
        let ghost id0 = self.creature_id_spec();
        self.recharge_grass();
        let ghost g1 = self.grass_spec();
        let mut cs: Vec<Creature> = Vec::new();
        core::mem::swap(&mut self.creatures, &mut cs);
        let ghost cs_pre = cs@;
        proof {
            assert(forall|i: int|
                0 <= i < cs_pre.len() ==> old(self).creature_ok(#[trigger] cs_pre[i]));
        }
        let mut cs = attrition(cs);
        proof {
            assert forall|k: int| 0 <= k < cs@.len() implies {
                &&& (#[trigger] cs@[k]).wf()
                &&& (cs@[k].view().x as int) < self.xmax_spec()
                &&& (cs@[k].view().y as int) < self.ymax_spec()
                &&& cs@[k].view().age < MAX_AGE
                &&& cs@[k].view().id < id0
                &&& cs@[k].view().fam < id0
            } by {
                assert(kept_from_source(cs_pre, cs@, k));
                let t = choose|t: int|
                    0 <= t < cs_pre.len() && survives(cs_pre[t]) && #[trigger] aged_from(
                        cs_pre[t],
                        cs@[k],
                    );
                assert(old(self).creature_ok(cs_pre[t]));
            }
        }
        rebuild_index(&mut self.gridlookup, &cs);
        let ghost cs_a = cs@;
        let mut obs: Vec<Observation> = Vec::new();
        let n = cs.len();
        let mut i: usize = 0;
        while i < n
            invariant
                self.grass_ok(),
                n == cs@.len(),
                i <= n,
                obs@.len() == i,
                cs@ == cs_a,
                self.gridlookup.wf(),
                self.gridlookup.shape().xmax == self.xmax_spec(),
                self.gridlookup.shape().ymax == self.ymax_spec(),
                self.gridlookup.shape().xstep == GRID_STEP_MICRO,
                self.gridlookup.shape().ystep == GRID_STEP_MICRO,
                grid_matches(self.gridlookup, cs@),
                forall|k: int|
                    0 <= k < cs@.len() ==> (#[trigger] cs@[k]).wf() && (cs@[k].view().x as int)
                        < self.xmax_spec() && (cs@[k].view().y as int) < self.ymax_spec(),
                forall|k: int| 0 <= k < i ==> (#[trigger] obs@[k]).wf(),
                self.grass_spec() == g1,
                forall|k: int|
                    0 <= k < i ==> observation_ok(
                        g1,
                        self.tile_x_spec() as int,
                        self.tile_y_spec() as int,
                        cs_a[k],
                        cs_a,
                        #[trigger] obs@[k],
                    ),
            decreases n - i,
        {
            let o = self.observe(&cs[i], &cs, &self.gridlookup);
            obs.push(o);
            i = i + 1;
        }
        let ghost obs_g = obs@;
        let acts = decide_all(&mut cs, obs);
        proof {
            assert forall|k: int| 0 <= k < cs@.len() implies #[trigger] acts@[k]
                == chosen_actions(cs_a[k].brain_view(), obs_g[k]) by {
                assert(cs@[k].wf());
            }
        }
        let xm: u64 = (self.grass_tile_x as u64) * MICRO;
        let ym: u64 = (self.grass_tile_y as u64) * MICRO;
        apply_motion(&mut cs, &acts, xm, ym);
        let ghost cs_m = cs@;
        proof {
            assert forall|k: int| 0 <= k < cs@.len() implies {
                &&& (#[trigger] cs@[k]).wf()
                &&& (cs@[k].view().x as int) < self.xmax_spec()
                &&& (cs@[k].view().y as int) < self.ymax_spec()
                &&& cs@[k].view().age < MAX_AGE
                &&& cs@[k].view().id < id0
                &&& cs@[k].view().fam < id0
                &&& cs@[k].view().id == cs_a[k].view().id
                &&& cs@[k].brain_view() == cs_a[k].brain_view()
            } by {
                assert(cs@[k].view() == moved_view(
                    cs_a[k].view(),
                    acts@[k].0,
                    acts@[k].1,
                    xm as int,
                    ym as int,
                ));
            }
        }
        let mut newborns = self.apply_discrete(&mut cs, &acts, rng);
        let ghost np = newborns@.len();
        let ghost n_s = cs@.len();
        let ghost cs_dis = cs@;
        let ghost nb_g = newborns@;
        cs.append(&mut newborns);
        proof {
            assert forall|k: int| 0 <= k < cs@.len() implies {
                &&& (#[trigger] cs@[k]).wf()
                &&& (cs@[k].view().x as int) < self.xmax_spec()
                &&& (cs@[k].view().y as int) < self.ymax_spec()
                &&& cs@[k].view().age <= MAX_AGE
                &&& cs@[k].view().fam < id0
                &&& (k < n_s ==> cs@[k].view().id < id0)
                &&& (k >= n_s ==> cs@[k].view().id as int == id0 + (k - n_s))
            } by {
                if k < n_s {
                    assert(same_but_energy(cs_m[k], cs@[k]));
                } else {
                    assert(child_of(cs_m, cs@[k], self.xmax_spec(), self.ymax_spec()));
                    let pi = choose|pi: int|
                        0 <= pi < cs_m.len() && spawned_from(
                            #[trigger] cs_m[pi],
                            cs@[k],
                            self.xmax_spec(),
                            self.ymax_spec(),
                        );
                    assert(cs_m[pi].view().fam < id0);
                }
            }
        }
        let ghost cs_app = cs@;
        let ghost g2 = self.grass_spec();
        let ghost id_app = self.creature_id_spec();
        self.population_floor(&mut cs, rng);
        let ghost id_pop = self.creature_id_spec();
        let ghost len_pop = cs@.len();
        let ghost cs_pop = cs@;
        self.lineage_floor(&mut cs, rng);
        let ghost cs_lin = cs@;
        self.gridlookup.clear();
        core::mem::swap(&mut self.creatures, &mut cs);
        proof {
            let fin = self.creatures_spec();
            assert forall|k: int| 0 <= k < fin.len() implies self.creature_ok(
                #[trigger] fin[k],
            ) by {
                assert(fin[k].view().age <= MAX_AGE);
            }
            assert forall|k: int, l: int|
                0 <= k < fin.len() && 0 <= l < fin.len() && k != l implies (#[trigger] fin[k]).view().id
                != (#[trigger] fin[l]).view().id by {
                if k < n_s && l < n_s {
                } else if k >= n_s && l >= n_s {
                } else {
                }
            }
        }
        proof {
            let fin = self.creatures_spec();
            let tx = old(self).tile_x_spec() as int;
            let xmax = old(self).xmax_spec();
            let ymax = old(self).ymax_spec();
            assert(g1 == recharged(old(self).grass_spec()));
            assert forall|k: int| 0 <= k < n_s implies same_but_energy(
                cs_m[k],
                #[trigger] fin[k],
            ) by {
                assert(same_but_energy(cs_m[k], cs_dis[k]));
                assert(cs_app[k] == cs_dis[k]);
                assert(fin[k] == cs_app[k]);
            }
            assert forall|j: int| n_s <= j < fin.len() implies {
                let nb = #[trigger] fin[j];
                &&& nb.view().energy == STARTING_ENERGY
                &&& nb.view().age == 0
                &&& (nb.last_obs_spec() is None)
                &&& nb.view().id as int == id0 + (j - n_s)
                &&& (if j < n_s + np {
                    child_of(cs_m, nb, xmax, ymax)
                } else {
                    nb.view().fam == nb.view().id
                })
            } by {
                assert(fin == cs_lin);
                if j < cs_app.len() {
                    assert(cs_pop[j] == cs_app[j]);
                    assert(fin[j] == cs_pop[j]);
                    assert(cs_app[j] == nb_g[j - n_s]);
                } else if j < len_pop {
                    assert(fin[j] == cs_pop[j]);
                } else {
                }
            }
            assert forall|t: int, j: int|
                0 <= t < cs_pre.len() && !survives(#[trigger] cs_pre[t]) && 0 <= j < fin.len()
                implies (#[trigger] fin[j]).view().id != cs_pre[t].view().id by {
                if j < n_s {
                    assert(same_but_energy(cs_m[j], fin[j]));
                    assert(fin[j].view().id == cs_a[j].view().id);
                    assert(kept_from_source(cs_pre, cs_a, j));
                    let t2 = choose|t2: int|
                        0 <= t2 < cs_pre.len() && survives(cs_pre[t2]) && #[trigger] aged_from(
                            cs_pre[t2],
                            cs_a[j],
                        );
                    assert(cs_a[j].view().id == cs_pre[t2].view().id);
                    assert(t2 != t);
                } else {
                    assert(fin[j].view().id as int == id0 + (j - n_s));
                    assert(old(self).creature_ok(cs_pre[t]));
                }
            }
            assert(self.grass_spec() == g2);
            assert(tick_evidence(*old(self), *self, cs_a, obs_g, acts@, cs_m, np as int));
        }
    }

    /// Every cell regains the recharge rate, saturating at the ceiling;
    /// nothing else moves.
    fn recharge_grass(&mut self)
        requires
            old(self).wf(),
        ensures
            final(self).wf(),
            final(self).grass_spec() == recharged(old(self).grass_spec()),
            final(self).grass_spec().len() == old(self).grass_spec().len(),
            forall|i: int|
                0 <= i < old(self).grass_spec().len() ==> #[trigger] final(self).grass_spec()[i]
                    == if old(self).grass_spec()[i] + GRASS_RECHARGE <= GRASS_MAX {
                    (old(self).grass_spec()[i] + GRASS_RECHARGE) as u32
                } else {
                    GRASS_MAX
                },
            final(self).creatures_spec() == old(self).creatures_spec(),
            final(self).creature_id_spec() == old(self).creature_id_spec(),
            final(self).tile_x_spec() == old(self).tile_x_spec(),
            final(self).tile_y_spec() == old(self).tile_y_spec(),
            final(self).min_pop_spec() == old(self).min_pop_spec(),
            final(self).grid_spec() == old(self).grid_spec(),
    {
        let n = self.grass_values.len();
        let mut i: usize = 0;
        while i < n
            invariant
                old(self).wf(),
                n == self.grass_values@.len(),
                n == old(self).grass_spec().len(),
                i <= n,
                *self == (World { grass_values: self.grass_values, ..*old(self) }),
                forall|k: int|
                    0 <= k < i ==> #[trigger] self.grass_values@[k] == if old(
                        self,
                    ).grass_spec()[k] + GRASS_RECHARGE <= GRASS_MAX {
                        (old(self).grass_spec()[k] + GRASS_RECHARGE) as u32
                    } else {
                        GRASS_MAX
                    },
                forall|k: int|
                    i <= k < n ==> #[trigger] self.grass_values@[k] == old(self).grass_spec()[k],
            decreases n - i,
        {
            let g = self.grass_values[i];
            proof {
                assert(old(self).grass_spec()[i as int] <= GRASS_MAX);
            }
            let v = if g + GRASS_RECHARGE <= GRASS_MAX {
                g + GRASS_RECHARGE
            } else {
                GRASS_MAX
            };
            self.grass_values.set(i, v);
            i = i + 1;
        }
        proof {
            assert(self.grass_spec() =~= recharged(old(self).grass_spec()));
        }
    }
}

/// The grass side, scaled to micro-cells, splits into bins of the sight
/// range exactly.
proof fn lemma_cells_to_micro(cells: int, micro: int)
    requires
        60 <= cells <= 30000,
        cells % 20 == 0,
        cells == 20 * (cells / 20) + cells % 20,
        micro == cells * 1000000,
    ensures
        micro % (GRID_STEP_MICRO as int) == 0,
        micro / (GRID_STEP_MICRO as int) == cells / 20,
        3 * (GRID_STEP_MICRO as int) <= micro,
        micro / (GRID_STEP_MICRO as int) <= 1500,
{
    let q = cells / 20;
    assert(micro == q * 20000000) by (nonlinear_arith)
        requires cells == 20 * q, micro == cells * 1000000;
    vstd::arithmetic::div_mod::lemma_mod_multiples_basic(q, 20000000);
    vstd::arithmetic::div_mod::lemma_div_by_multiple(q, 20000000);
    assert(3 <= q <= 1500);
    assert(3 * 20000000 <= q * 20000000) by (nonlinear_arith)
        requires 3 <= q;
}

/// Charges each creature the tick's upkeep, ages it, and keeps exactly
/// those still alive and under the age cap, in their input order.
#[verifier::rlimit(50)]
fn attrition(cs: Vec<Creature>) -> (out: Vec<Creature>)
    requires
        forall|i: int| 0 <= i < cs@.len() ==> (#[trigger] cs@[i]).view().age < u32::MAX,
        forall|i: int, j: int|
            0 <= i < cs@.len() && 0 <= j < cs@.len() && i != j ==> (#[trigger] cs@[i]).view().id
                != (#[trigger] cs@[j]).view().id,
    ensures
        out@.len() <= cs@.len(),
        forall|k: int| 0 <= k < out@.len() ==> #[trigger] kept_from_source(cs@, out@, k),
        forall|i: int|
            0 <= i < cs@.len() && survives(#[trigger] cs@[i]) ==> survivor_kept(cs@, out@, i),
        forall|k: int|
            0 <= k < out@.len() ==> (#[trigger] out@[k]).view().energy > 0 && out@[k].view().age
                < MAX_AGE,
        forall|k: int, l: int|
            0 <= k < out@.len() && 0 <= l < out@.len() && k != l ==> (#[trigger] out@[k]).view().id
                != (#[trigger] out@[l]).view().id,
{
    let mut rest = cs;
    let ghost all = rest@;
    let mut out: Vec<Creature> = Vec::new();
    let ghost mut src: Seq<int> = Seq::empty();
    let ghost mut dst: Seq<int> = Seq::empty();
    let mut i: usize = 0;
    let n = rest.len();
    while i < n
        invariant
            all.len() == n,
            i <= n,
            rest@ == all.subrange(i as int, n as int),
            forall|t: int| 0 <= t < all.len() ==> (#[trigger] all[t]).view().age < u32::MAX,
            forall|t: int, u: int|
                0 <= t < all.len() && 0 <= u < all.len() && t != u ==> (#[trigger] all[t]).view().id
                    != (#[trigger] all[u]).view().id,
            out@.len() <= i,
            src.len() == out@.len(),
            dst.len() == i,
            forall|k: int|
                0 <= k < out@.len() ==> 0 <= #[trigger] src[k] < i && survives(all[src[k]])
                    && aged_from(all[src[k]], out@[k]),
            forall|t: int|
                0 <= t < i && survives(#[trigger] all[t]) ==> 0 <= dst[t] < out@.len()
                    && aged_from(all[t], out@[dst[t]]),
            forall|k: int|
                0 <= k < out@.len() ==> (#[trigger] out@[k]).view().energy > 0
                    && out@[k].view().age < MAX_AGE,
            forall|k: int, l: int|
                0 <= k < out@.len() && 0 <= l < out@.len() && k != l ==> (#[trigger] out@[k]).view().id
                    != (#[trigger] out@[l]).view().id,
        decreases n - i,
    {
        let mut c = rest.remove(0);
        proof {
            assert(c == all[i as int]);
            assert(rest@ =~= all.subrange(i as int + 1, n as int));
        }
        c.remove_energy(CREATURE_ENERGY_COST);
        c.inc_age();
        let alive = c.get_energy() > 0;
        let young = c.get_age() < MAX_AGE;
        if alive && young {
            proof {
                assert(aged_from(all[i as int], c));
                assert(survives(all[i as int]));
                assert forall|k: int| 0 <= k < out@.len() implies (#[trigger] out@[k]).view().id
                    != c.view().id by {
                    assert(all[src[k]].view().id != all[i as int].view().id);
                }
            }
            out.push(c);
            proof {
                src = src.push(i as int);
                dst = dst.push(out@.len() - 1);
                assert(aged_from(all[i as int], out@[out@.len() - 1]));
            }
        } else {
            proof {
                assert(!survives(all[i as int]));
                dst = dst.push(-1);
            }
        }
        i = i + 1;
    }
    proof {
        assert forall|k: int| 0 <= k < out@.len() implies #[trigger] kept_from_source(
            all,
            out@,
            k,
        ) by {
            assert(0 <= src[k] < all.len() && survives(all[src[k]]) && aged_from(
                all[src[k]],
                out@[k],
            ));
        }
        assert forall|t: int| 0 <= t < all.len() && survives(#[trigger] all[t])
            implies survivor_kept(all, out@, t) by {
            assert(0 <= dst[t] < out@.len() && aged_from(all[t], out@[dst[t]]));
        }
        assert(all == cs@);
    }
    out
}

/// For `p` within one period of the axis, a single shift lands on the
/// representative in `[0, m)`.
proof fn lemma_wrap_range(p: int, m: int)
    requires
        1 <= m,
        -m < p < 2 * m,
    ensures
        p % m == (if p < 0 {
            p + m
        } else if p >= m {
            p - m
        } else {
            p
        }),
{
    if p < 0 {
        vstd::arithmetic::div_mod::lemma_mod_add_multiples_vanish(p, m);
        vstd::arithmetic::div_mod::lemma_small_mod((p + m) as nat, m as nat);
    } else if p >= m {
        vstd::arithmetic::div_mod::lemma_mod_sub_multiples_vanish(p, m);
        vstd::arithmetic::div_mod::lemma_small_mod((p - m) as nat, m as nat);
    } else {
        vstd::arithmetic::div_mod::lemma_small_mod(p as nat, m as nat);
    }
}

/// `a < k * s` with `s >= 1` puts `a / s` below `k`.
proof fn lemma_div_below_world(a: int, s: int, k: int)
    requires
        0 <= a,
        1 <= s,
        a < k * s,
    ensures
        0 <= a / s < k,
{
    vstd::arithmetic::div_mod::lemma_div_pos_is_pos(a, s);
    vstd::arithmetic::div_mod::lemma_fundamental_div_mod(a, s);
    assert(a / s < k) by (nonlinear_arith)
        requires
            0 <= a,
            1 <= s,
            a < k * s,
            a == s * (a / s) + a % s,
            0 <= a % s < s;
}

/// A creature within sight range has an entry in the index, so the query
/// from the observer's position yields an item naming it.
proof fn lemma_candidate_in_items(
    g: GridLookup<usize>,
    cs: Seq<Creature>,
    me: Creature,
    items: Seq<(i64, i64, usize)>,
    x: u64,
    y: u64,
    xmax: int,
    ymax: int,
    b: int,
    t: int,
)
    requires
        g.wf(),
        g.shape().xmax == xmax,
        g.shape().ymax == ymax,
        g.shape().xstep == GRID_STEP_MICRO,
        g.shape().ystep == GRID_STEP_MICRO,
        grid_matches(g, cs),
        cs.len() <= usize::MAX,
        x == me.view().x,
        y == me.view().y,
        (x as int) < xmax,
        (y as int) < ymax,
        forall|bb: int, j: int|
            0 <= bb < g.bins().len() && 0 <= j < g.bins()[bb].len() && entry_close(
                #[trigger] g.bins()[bb][j],
                x as int,
                y as int,
                g.shape(),
            ) ==> items.contains(
                crate::gridlookup::reflected(g.bins()[bb][j], x as int, y as int, g.shape()),
            ),
        site_candidate(me, cs, xmax, ymax, b, t),
    ensures
        exists|k2: int| 0 <= k2 < items.len() && (#[trigger] items[k2]).2 as int == t,
{
    let tv = cs[t].view();
    let dx = rel_d(tv.x as int, x as int, xmax);
    let dy = rel_d(tv.y as int, y as int, ymax);
    assert(dx * dx + dy * dy <= MAX_D2);
    assert(0 <= dx * dx && 0 <= dy * dy) by (nonlinear_arith);
    assert(-20000000 <= dx <= 20000000 && -20000000 <= dy <= 20000000) by (nonlinear_arith)
        requires dx * dx + dy * dy <= 400000000000000, 0 <= dx * dx, 0 <= dy * dy;
    assert(grid_covers(g, cs, t));
    let (bb, j) = choose|bb: int, j: int|
        0 <= bb < g.bins().len() && 0 <= j < g.bins()[bb].len() && #[trigger] g.bins()[bb][j] == (
        cs[t].view().x,
        cs[t].view().y,
        t as usize,
        );
    let e = g.bins()[bb][j];
    crate::gridlookup::lemma_reflect_dist(e.0 as int, x as int, xmax);
    crate::gridlookup::lemma_reflect_dist(e.1 as int, y as int, ymax);
    assert(entry_close(e, x as int, y as int, g.shape()));
    let refl = crate::gridlookup::reflected(e, x as int, y as int, g.shape());
    assert(items.contains(refl));
    let k2 = choose|k2: int| 0 <= k2 < items.len() && items[k2] == refl;
    assert(items[k2].2 as int == t);
}

/// Fills the empty index with one entry per creature: its coordinates and
/// its position in the list.
fn rebuild_index(g: &mut GridLookup<usize>, cs: &Vec<Creature>)
    requires
        old(g).wf(),
        old(g).is_empty(),
        forall|i: int|
            0 <= i < cs@.len() ==> ((#[trigger] cs@[i]).view().x as int)
                < old(g).shape().xmax as int && (cs@[i].view().y as int) < old(
                g,
            ).shape().ymax as int,
    ensures
        final(g).wf(),
        final(g).shape() == old(g).shape(),
        grid_matches(*final(g), cs@),
{
    let n = cs.len();
    let mut i: usize = 0;
    while i < n
        invariant
            g.wf(),
            g.shape() == old(g).shape(),
            n == cs@.len(),
            i <= n,
            forall|t: int|
                0 <= t < cs@.len() ==> ((#[trigger] cs@[t]).view().x as int)
                    < g.shape().xmax as int && (cs@[t].view().y as int) < g.shape().ymax as int,
            forall|b: int, j: int|
                0 <= b < g.bins().len() && 0 <= j < g.bins()[b].len() ==> grid_entry_ok(
                    cs@,
                    #[trigger] g.bins()[b][j],
                ) && (#[trigger] g.bins()[b][j]).2 < i,
            forall|t: int| 0 <= t < i ==> #[trigger] grid_covers(*g, cs@, t),
        decreases n - i,
    {
        let c = &cs[i];
        let (x, y, _theta) = c.get_pos();
        let ghost g0 = *g;
        g.put((x, y), i);
        proof {
            let s = g.shape();
            vstd::arithmetic::div_mod::lemma_small_mod(x as nat, s.xmax as nat);
            vstd::arithmetic::div_mod::lemma_small_mod(y as nat, s.ymax as nat);
            let bt = crate::gridlookup::bin_of(
                x as int,
                y as int,
                s.xstep as int,
                s.ystep as int,
                s.xbins as int,
            );
            assert(g.bins()[bt][g.bins()[bt].len() - 1] == (x, y, i as usize));
            assert(grid_covers(*g, cs@, i as int));
            assert forall|t: int| 0 <= t < i + 1 implies #[trigger] grid_covers(*g, cs@, t) by {
                if t < i {
                    assert(grid_covers(g0, cs@, t));
                    let (b, j) = choose|b: int, j: int|
                        0 <= b < g0.bins().len() && 0 <= j < g0.bins()[b].len()
                            && #[trigger] g0.bins()[b][j] == (
                        cs@[t].view().x,
                        cs@[t].view().y,
                        t as usize,
                        );
                    if b == bt {
                        assert(g.bins()[b] == g0.bins()[b].push((x, y, i as usize)));
                        assert(g.bins()[b][j] == g0.bins()[b][j]);
                    } else {
                        assert(g.bins()[b] == g0.bins()[b]);
                    }
                    assert(g.bins()[b][j] == (cs@[t].view().x, cs@[t].view().y, t as usize));
                }
            }
        }
        i = i + 1;
    }
}

/// Asks every creature for its action tuple on its observation; the
/// observation is stored on the creature, nothing else moves.
fn decide_all(cs: &mut Vec<Creature>, obs: Vec<Observation>) -> (acts: Vec<(
    TurningAction,
    MovementAction,
    Action,
)>)
    requires
        old(cs)@.len() == obs@.len(),
        forall|i: int| 0 <= i < old(cs)@.len() ==> (#[trigger] old(cs)@[i]).wf(),
        forall|i: int| 0 <= i < obs@.len() ==> (#[trigger] obs@[i]).wf(),
    ensures
        acts@.len() == old(cs)@.len(),
        final(cs)@.len() == old(cs)@.len(),
        forall|i: int|
            0 <= i < old(cs)@.len() ==> {
                &&& (#[trigger] final(cs)@[i]).view() == old(cs)@[i].view()
                &&& final(cs)@[i].brain_view() == old(cs)@[i].brain_view()
                &&& final(cs)@[i].wf()
                &&& final(cs)@[i].last_obs_spec() == Some(obs@[i])
                &&& acts@[i] == chosen_actions(old(cs)@[i].brain_view(), obs@[i])
            },
{
    let ghost obs0 = obs@;
    let mut obs = obs;
    let mut acts: Vec<(TurningAction, MovementAction, Action)> = Vec::new();
    let n = cs.len();
    let mut i: usize = 0;
    while i < n
        invariant
            n == old(cs)@.len(),
            n == obs0.len(),
            i <= n,
            cs@.len() == n,
            acts@.len() == i,
            obs@ == obs0.subrange(i as int, n as int),
            forall|j: int| 0 <= j < n ==> (#[trigger] old(cs)@[j]).wf(),
            forall|j: int| 0 <= j < obs0.len() ==> (#[trigger] obs0[j]).wf(),
            forall|j: int| i <= j < n ==> #[trigger] cs@[j] == old(cs)@[j],
            forall|j: int|
                0 <= j < i ==> {
                    &&& (#[trigger] cs@[j]).view() == old(cs)@[j].view()
                    &&& cs@[j].brain_view() == old(cs)@[j].brain_view()
                    &&& cs@[j].wf()
                    &&& cs@[j].last_obs_spec() == Some(obs0[j])
                    &&& acts@[j] == chosen_actions(old(cs)@[j].brain_view(), obs0[j])
                },
        decreases n - i,
    {
        let o = obs.remove(0);
        proof {
            assert(o == obs0[i as int]);
            assert(obs@ =~= obs0.subrange(i as int + 1, n as int));
        }
        let a = cs[i].get_preferred_action(o);
        acts.push(a);
        i = i + 1;
    }
    acts
}

/// Applies the movement and turning actions: a forward step along the old
/// heading, wrapped into the rectangle and charged the walking cost, then
/// the turn, heading normalized.
fn apply_motion(
    cs: &mut Vec<Creature>,
    acts: &Vec<(TurningAction, MovementAction, Action)>,
    xmax: u64,
    ymax: u64,
)
    requires
        old(cs)@.len() == acts@.len(),
        1000000 <= xmax <= 30000000000,
        1000000 <= ymax <= 30000000000,
        forall|i: int|
            0 <= i < old(cs)@.len() ==> (#[trigger] old(cs)@[i]).wf() && (old(
                cs,
            )@[i].view().x as int) < xmax as int && (old(cs)@[i].view().y as int) < ymax as int,
    ensures
        final(cs)@.len() == old(cs)@.len(),
        forall|i: int|
            0 <= i < old(cs)@.len() ==> {
                &&& (#[trigger] final(cs)@[i]).view() == moved_view(
                    old(cs)@[i].view(),
                    acts@[i].0,
                    acts@[i].1,
                    xmax as int,
                    ymax as int,
                )
                &&& final(cs)@[i].brain_view() == old(cs)@[i].brain_view()
                &&& final(cs)@[i].last_obs_spec() == old(cs)@[i].last_obs_spec()
                &&& final(cs)@[i].wf()
                &&& (final(cs)@[i].view().x as int) < xmax as int
                &&& (final(cs)@[i].view().y as int) < ymax as int
            },
{
    let n = cs.len();
    let mut i: usize = 0;
    while i < n
        invariant
            n == old(cs)@.len(),
            n == acts@.len(),
            i <= n,
            cs@.len() == n,
            1000000 <= xmax <= 30000000000,
            1000000 <= ymax <= 30000000000,
            forall|j: int|
                0 <= j < n ==> (#[trigger] old(cs)@[j]).wf() && (old(cs)@[j].view().x as int)
                    < xmax as int && (old(cs)@[j].view().y as int) < ymax as int,
            forall|j: int| i <= j < n ==> #[trigger] cs@[j] == old(cs)@[j],
            forall|j: int|
                0 <= j < i ==> {
                    &&& (#[trigger] cs@[j]).view() == moved_view(
                        old(cs)@[j].view(),
                        acts@[j].0,
                        acts@[j].1,
                        xmax as int,
                        ymax as int,
                    )
                    &&& cs@[j].brain_view() == old(cs)@[j].brain_view()
                    &&& cs@[j].last_obs_spec() == old(cs)@[j].last_obs_spec()
                    &&& cs@[j].wf()
                    &&& (cs@[j].view().x as int) < xmax as int
                    &&& (cs@[j].view().y as int) < ymax as int
                },
        decreases n - i,
    {
        let ghost cs0 = cs@;
        let act = acts[i];
        let (x, y, theta) = cs[i].get_pos();
        match act.1 {
            MovementAction::WAIT => {},
            MovementAction::FORWARD => {
                let co = cos_milli(theta);
                let si = sin_milli(theta);
                let dx: i64 = (WALK_STEP_MICRO / 1000) * co;
                let dy: i64 = (WALK_STEP_MICRO / 1000) * si;
                let nx: i64 = x as i64 + dx;
                let ny: i64 = y as i64 + dy;
                let wx: u64 = if nx < 0 {
                    xmax - 1000
                } else if nx >= xmax as i64 {
                    0
                } else {
                    nx as u64
                };
                let wy: u64 = if ny < 0 {
                    ymax - 1000
                } else if ny >= ymax as i64 {
                    0
                } else {
                    ny as u64
                };
                cs[i].set_pos(wx, wy);
                cs[i].remove_energy(CREATURE_WALK_ENERGY_COST);
                proof {
                    assert(wx as int == wrap_coord(
                        old(cs)@[i as int].view().x + walk_dx(old(cs)@[i as int].view().theta),
                        xmax as int,
                    ));
                    assert(wy as int == wrap_coord(
                        old(cs)@[i as int].view().y + walk_dy(old(cs)@[i as int].view().theta),
                        ymax as int,
                    ));
                }
            },
        }
        match act.0 {
            TurningAction::WAIT => {},
            TurningAction::LEFT => {
                cs[i].set_theta(theta as i64 + TURN_STEP);
            },
            TurningAction::RIGHT => {
                cs[i].set_theta(theta as i64 - TURN_STEP);
            },
        }
        proof {
            assert(forall|j: int| 0 <= j < n && j != i as int ==> #[trigger] cs@[j] == cs0[j]);
            assert(cs@[i as int].view() == moved_view(
                old(cs)@[i as int].view(),
                act.0,
                act.1,
                xmax as int,
                ymax as int,
            ));
            assert(cs@[i as int].brain_view() == old(cs)@[i as int].brain_view());
            assert(cs@[i as int].last_obs_spec() == old(cs)@[i as int].last_obs_spec());
            assert(cs@[i as int].wf());
            assert((cs@[i as int].view().x as int) < xmax as int);
            assert((cs@[i as int].view().y as int) < ymax as int);
        }
        i = i + 1;
    }
}

/// What one eat action takes from a cell: half of it, rounded up.
pub fn grass_bite(g: u32) -> (r: u32)
    requires
        g <= GRASS_MAX,
    ensures
        r == (g + 1) / 2,
        r <= g,
{
    (g + 1) / 2
}

/// Energy retained from `amount` at efficiency `eff` thousandths, rounded
/// to the nearest unit: the gain rule for eating (vegetarian share) and
/// for biting (carnivorous share).
pub fn digested_part(amount: u32, eff: u32) -> (r: u32)
    requires
        amount <= 1000000,
        eff <= 1000,
    ensures
        r as int == ((amount * eff) + 500) / 1000,
        r <= amount,
{
    proof {
        assert(((amount as int) * (eff as int) + 500) / 1000 <= amount as int
            && 0 <= (amount as int) * (eff as int)) by (nonlinear_arith)
            requires 0 <= amount as int, 0 <= eff as int <= 1000;
    }
    (((amount as u64) * (eff as u64) + 500) / 1000) as u32
}

/// Damage of one bite by a creature of vegetarian leaning `veg`
/// thousandths: the carnivorous share of the base damage, rounded.
pub fn bite_damage(veg: u32) -> (r: u32)
    requires
        veg <= 1000,
    ensures
        r as int == (((1000 - veg) * BITE_DAMAGE) + 500) / 1000,
        r <= BITE_DAMAGE,
{
    proof {
        assert((((1000 - veg) as int) * (BITE_DAMAGE as int) + 500) / 1000 <= BITE_DAMAGE as int
            && 0 <= ((1000 - veg) as int) * (BITE_DAMAGE as int)) by (nonlinear_arith)
            requires 0 <= (1000 - veg) as int <= 1000;
    }
    ((((1000 - veg) as u64) * (BITE_DAMAGE as u64) + 500) / 1000) as u32
}

impl World {
    /// The sequential discrete-action pass, in list order: eating halves
    /// the cell under the creature and credits the vegetarian share;
    /// replication, affordable only above four starting energies, costs
    /// three of them and buffers a mutated child placed behind the parent;
    /// biting drains every other creature within reach and cone by the
    /// carnivorous share of the base damage, crediting the biter. Newborns
    /// are returned, not yet added.
    #[verifier::rlimit(100)]
    fn apply_discrete(
        &mut self,
        cs: &mut Vec<Creature>,
        acts: &Vec<(TurningAction, MovementAction, Action)>,
        rng: &mut RandomSource,
    ) -> (newborns: Vec<Creature>)
        requires
            old(self).grass_ok(),
            old(cs)@.len() == acts@.len(),
            old(cs)@.len() <= 1000000000,
            old(self).creature_id_spec() as int + old(cs)@.len() <= u64::MAX as int,
            forall|i: int|
                0 <= i < old(cs)@.len() ==> (#[trigger] old(cs)@[i]).wf() && (old(
                    cs,
                )@[i].view().x as int) < old(self).xmax_spec() && (old(cs)@[i].view().y as int)
                    < old(self).ymax_spec(),
            old(self).grid_spec().wf(),
            old(self).grid_spec().shape().xmax == old(self).xmax_spec(),
            old(self).grid_spec().shape().ymax == old(self).ymax_spec(),
            old(self).grid_spec().shape().xstep == GRID_STEP_MICRO,
            old(self).grid_spec().shape().ystep == GRID_STEP_MICRO,
            forall|b: int, j: int|
                0 <= b < old(self).grid_spec().bins().len() && 0 <= j < old(
                    self,
                ).grid_spec().bins()[b].len() ==> ((#[trigger] old(self).grid_spec().bins()[b][j]).2 as int)
                    < old(cs)@.len(),
        ensures
            final(self).grass_ok(),
            final(self).grass_spec().len() == old(self).grass_spec().len(),
            forall|i: int|
                0 <= i < old(self).grass_spec().len() ==> #[trigger] final(self).grass_spec()[i]
                    <= old(self).grass_spec()[i],
            final(self).creatures_spec() == old(self).creatures_spec(),
            final(self).tile_x_spec() == old(self).tile_x_spec(),
            final(self).tile_y_spec() == old(self).tile_y_spec(),
            final(self).min_pop_spec() == old(self).min_pop_spec(),
            final(self).min_fams_spec() == old(self).min_fams_spec(),
            final(self).grass_max_spec() == old(self).grass_max_spec(),
            final(self).grass_recharge_spec() == old(self).grass_recharge_spec(),
            final(self).grid_spec() == old(self).grid_spec(),
            final(cs)@.len() == old(cs)@.len(),
            forall|i: int|
                0 <= i < old(cs)@.len() ==> same_but_energy(
                    old(cs)@[i],
                    #[trigger] final(cs)@[i],
                ),
            final(self).creature_id_spec() as int == old(self).creature_id_spec() as int
                + newborns@.len(),
            newborns@.len() <= old(cs)@.len(),
            newborns@.len() <= count_replicates(acts@, acts@.len() as int),
            final(self).grass_spec() == grass_after(
                old(self).grass_spec(),
                old(cs)@,
                acts@,
                old(self).tile_x_spec() as int,
                acts@.len() as int,
            ),
            forall|i: int|
                0 <= i < old(self).grass_spec().len() && !eats_cell(
                    old(cs)@,
                    acts@,
                    old(self).tile_x_spec() as int,
                    i,
                    acts@.len() as int,
                ) ==> #[trigger] final(self).grass_spec()[i] == old(self).grass_spec()[i],
            forall|m: int|
                0 <= m < newborns@.len() ==> {
                    let n = #[trigger] newborns@[m];
                    &&& n.wf()
                    &&& n.view().id as int == old(self).creature_id_spec() as int + m
                    &&& n.view().energy == STARTING_ENERGY
                    &&& n.view().age == 0
                    &&& (n.last_obs_spec() is None)
                    &&& child_of(old(cs)@, n, old(self).xmax_spec(), old(self).ymax_spec())
                    &&& (n.view().x as int) < old(self).xmax_spec()
                    &&& (n.view().y as int) < old(self).ymax_spec()
                },
    {
        let ghost xmax = self.xmax_spec();
        let ghost ymax = self.ymax_spec();
        let xm: u64 = (self.grass_tile_x as u64) * MICRO;
        let ym: u64 = (self.grass_tile_y as u64) * MICRO;
        let mut newborns: Vec<Creature> = Vec::new();
        let n = cs.len();
        let mut ic: usize = 0;
        while ic < n
            invariant
                self.grass_ok(),
                self.tile_x_spec() == old(self).tile_x_spec(),
                self.tile_y_spec() == old(self).tile_y_spec(),
                self.min_pop_spec() == old(self).min_pop_spec(),
                self.min_fams_spec() == old(self).min_fams_spec(),
                self.grass_max_spec() == old(self).grass_max_spec(),
                self.grass_recharge_spec() == old(self).grass_recharge_spec(),
                self.creatures_spec() == old(self).creatures_spec(),
                self.grid_spec() == old(self).grid_spec(),
                xmax == self.xmax_spec(),
                ymax == self.ymax_spec(),
                1000000 <= xmax <= 30000000000,
                1000000 <= ymax <= 30000000000,
                xm as int == xmax,
                ym as int == ymax,
                self.grass_spec().len() == old(self).grass_spec().len(),
                forall|i: int|
                    0 <= i < old(self).grass_spec().len() ==> #[trigger] self.grass_spec()[i]
                        <= old(self).grass_spec()[i],
                n == old(cs)@.len(),
                n == acts@.len(),
                n <= 1000000000,
                ic <= n,
                cs@.len() == n,
                forall|i: int|
                    0 <= i < n ==> (#[trigger] old(cs)@[i]).wf() && (old(
                        cs,
                    )@[i].view().x as int) < xmax && (old(cs)@[i].view().y as int) < ymax,
                forall|i: int|
                    0 <= i < n ==> same_but_energy(old(cs)@[i], #[trigger] cs@[i]),
                forall|b: int, j: int|
                    0 <= b < self.grid_spec().bins().len() && 0 <= j < self.grid_spec().bins()[b].len()
                        ==> ((#[trigger] self.grid_spec().bins()[b][j]).2 as int) < n,
                self.grid_spec().wf(),
                self.grid_spec().shape().xmax == xmax,
                self.grid_spec().shape().ymax == ymax,
                self.grid_spec().shape().xstep == GRID_STEP_MICRO,
                self.grid_spec().shape().ystep == GRID_STEP_MICRO,
                old(self).creature_id_spec() as int + n <= u64::MAX as int,
                self.creature_id_spec() as int == old(self).creature_id_spec() as int
                    + newborns@.len(),
                newborns@.len() <= ic,
                newborns@.len() <= count_replicates(acts@, ic as int),
                self.grass_spec() == grass_after(
                    old(self).grass_spec(),
                    old(cs)@,
                    acts@,
                    old(self).tile_x_spec() as int,
                    ic as int,
                ),
                forall|i: int|
                    0 <= i < old(self).grass_spec().len() && !eats_cell(
                        old(cs)@,
                        acts@,
                        old(self).tile_x_spec() as int,
                        i,
                        ic as int,
                    ) ==> #[trigger] self.grass_spec()[i] == old(self).grass_spec()[i],
                forall|m: int|
                    0 <= m < newborns@.len() ==> {
                        let nb = #[trigger] newborns@[m];
                        &&& nb.wf()
                        &&& nb.view().id as int == old(self).creature_id_spec() as int + m
                        &&& nb.view().energy == STARTING_ENERGY
                        &&& nb.view().age == 0
                        &&& (nb.last_obs_spec() is None)
                        &&& child_of(old(cs)@, nb, xmax, ymax)
                        &&& (nb.view().x as int) < xmax
                        &&& (nb.view().y as int) < ymax
                    },
            decreases n - ic,
        {
            let ghost gpre = self.grass_spec();
            let ghost mut eaten_idx: int = -1;
            let act = acts[ic].2;
            match act {
                Action::WAIT => {},
                Action::EAT => {
                    let (x, y, _t) = cs[ic].get_pos();
                    proof {
                        lemma_div_below_world(x as int, MICRO as int, self.tile_x_spec() as int);
                        lemma_div_below_world(y as int, MICRO as int, self.tile_y_spec() as int);
                    }
                    let gx: usize = (x / MICRO) as usize;
                    let gy: usize = (y / MICRO) as usize;
                    proof {
                        assert((gy as int) * (self.grass_tile_x as int) + (gx as int) < (
                        self.grass_tile_x as int) * (self.grass_tile_y as int)) by (nonlinear_arith)
                            requires
                                0 <= gx as int,
                                (gx as int) < (self.grass_tile_x as int),
                                0 <= gy as int,
                                (gy as int) < (self.grass_tile_y as int);
                        assert((self.grass_tile_x as int) * (self.grass_tile_y as int)
                            <= 900000000) by (nonlinear_arith)
                            requires
                                0 <= self.grass_tile_x as int <= 30000,
                                0 <= self.grass_tile_y as int <= 30000;
                    }
                    let indx: usize = gy * self.grass_tile_x + gx;
                    let g = self.grass_values[indx];
                    let to_eat = grass_bite(g);
                    self.grass_values.set(indx, g - to_eat);
                    proof {
                        eaten_idx = indx as int;
                        assert(eaten_idx == cell_index_of(
                            old(cs)@[ic as int].view(),
                            old(self).tile_x_spec() as int,
                        ));
                        assert(eats_cell(
                            old(cs)@,
                            acts@,
                            old(self).tile_x_spec() as int,
                            eaten_idx,
                            ic as int + 1,
                        ));
                    }
                    let veg = cs[ic].get_veg_eff();
                    let digested = digested_part(to_eat, veg);
                    cs[ic].add_energy(digested);
                },
                Action::REPLICATE => {
                    if cs[ic].get_energy() > 4 * STARTING_ENERGY {
                        cs[ic].remove_energy(3 * STARTING_ENERGY);
                        let id = self.get_inc_creature_id();
                        let (x, y, theta) = cs[ic].get_pos();
                        let mut newc = cs[ic].clone_mutate(id, rng);
                        let rev: u32 = if theta >= HALF_TURN {
                            theta - HALF_TURN
                        } else {
                            theta + HALF_TURN
                        };
                        let dxo: i64 = 200 * cos_milli(rev);
                        let dyo: i64 = 200 * sin_milli(rev);
                        let nx: i64 = x as i64 + dxo;
                        let ny: i64 = y as i64 + dyo;
                        let wx: u64 = if nx < 0 {
                            (nx + xm as i64) as u64
                        } else if nx >= xm as i64 {
                            (nx - xm as i64) as u64
                        } else {
                            nx as u64
                        };
                        let wy: u64 = if ny < 0 {
                            (ny + ym as i64) as u64
                        } else if ny >= ym as i64 {
                            (ny - ym as i64) as u64
                        } else {
                            ny as u64
                        };
                        newc.set_pos(wx, wy);
                        newc.set_theta(rev as i64);
                        proof {
                            let pv = old(cs)@[ic as int].view();
                            assert(rev as int == rev_theta_spec(pv.theta));
                            assert(newc.view().theta == rev);
                            lemma_wrap_range(nx as int, xmax);
                            lemma_wrap_range(ny as int, ymax);
                            assert(wx as int == spawn_coord(pv.x as int, dxo as int, xmax));
                            assert(wy as int == spawn_coord(pv.y as int, dyo as int, ymax));
                            assert(spawned_from(old(cs)@[ic as int], newc, xmax, ymax));
                            assert(child_of(old(cs)@, newc, xmax, ymax));
                        }
                        newborns.push(newc);
                    }
                },
                Action::BITE => {
                    let (x, y, theta) = cs[ic].get_pos();
                    let my_id = cs[ic].get_id();
                    let veg = cs[ic].get_veg_eff();
                    let dam = bite_damage(veg);
                    let meat: u32 = 1000 - veg;
                    let items = self.gridlookup.get_within_step((x, y));
                    proof {
                        assert forall|k2: int| 0 <= k2 < items@.len() implies ((
                        #[trigger] items@[k2]).2 as int) < n by {
                            assert(self.gridlookup.query_item_ok(x as int, y as int, items@[k2]));
                            let (b, j) = choose|b: int, j: int|
                                0 <= b < self.gridlookup.bins().len() && 0 <= j
                                    < self.gridlookup.bins()[b].len() && entry_close(
                                    #[trigger] self.gridlookup.bins()[b][j],
                                    x as int,
                                    y as int,
                                    self.gridlookup.shape(),
                                ) && items@[k2] == crate::gridlookup::reflected(
                                    self.gridlookup.bins()[b][j],
                                    x as int,
                                    y as int,
                                    self.gridlookup.shape(),
                                );
                            assert((self.gridlookup.bins()[b][j].2 as int) < n);
                        }
                    }
                    let n_items = items.len();
                    let mut k: usize = 0;
                    while k < n_items
                        invariant
                            self.grass_ok(),
                            self.tile_x_spec() == old(self).tile_x_spec(),
                            self.tile_y_spec() == old(self).tile_y_spec(),
                            self.min_pop_spec() == old(self).min_pop_spec(),
                            self.min_fams_spec() == old(self).min_fams_spec(),
                            self.grass_max_spec() == old(self).grass_max_spec(),
                            self.grass_recharge_spec() == old(self).grass_recharge_spec(),
                            self.creatures_spec() == old(self).creatures_spec(),
                            self.grid_spec() == old(self).grid_spec(),
                            xmax == self.xmax_spec(),
                            ymax == self.ymax_spec(),
                            1000000 <= xmax <= 30000000000,
                            1000000 <= ymax <= 30000000000,
                            (x as int) < xmax,
                            (y as int) < ymax,
                            theta < TAU_UNITS,
                            dam <= BITE_DAMAGE,
                            self.grass_spec().len() == old(self).grass_spec().len(),
                            forall|i: int|
                                0 <= i < old(self).grass_spec().len()
                                    ==> #[trigger] self.grass_spec()[i] <= old(
                                    self,
                                ).grass_spec()[i],
                            self.creature_id_spec() as int == old(self).creature_id_spec() as int
                                + newborns@.len(),
                            n == old(cs)@.len(),
                            ic < n,
                            cs@.len() == n,
                            k <= n_items,
                            n_items == items@.len(),
                            meat <= 1000,
                            forall|i: int|
                                0 <= i < n ==> (#[trigger] old(cs)@[i]).wf(),
                            forall|i: int|
                                0 <= i < n ==> same_but_energy(old(cs)@[i], #[trigger] cs@[i]),
                            forall|k2: int|
                                0 <= k2 < items@.len() ==> ((#[trigger] items@[k2]).2 as int) < n,
                            forall|k2: int|
                                0 <= k2 < items@.len() ==> crate::gridlookup::axis_abs(
                                    (#[trigger] items@[k2]).0 as int,
                                    x as int,
                                ) <= GRID_STEP_MICRO as int && crate::gridlookup::axis_abs(
                                    items@[k2].1 as int,
                                    y as int,
                                ) <= GRID_STEP_MICRO as int,
                        decreases n_items - k,
                    {
                        let item = items[k];
                        let t: usize = item.2;
                        proof {
                            assert(crate::gridlookup::axis_abs(items@[k as int].0 as int, x as int)
                                <= GRID_STEP_MICRO as int);
                            assert(crate::gridlookup::axis_abs(items@[k as int].1 as int, y as int)
                                <= GRID_STEP_MICRO as int);
                        }
                        if cs[t].get_id() != my_id {
                            let dx: i64 = item.0 - x as i64;
                            let dy: i64 = item.1 - y as i64;
                            proof {
                                assert(0 <= dx * dx <= 400000000000000 && 0 <= dy * dy
                                    <= 400000000000000) by (nonlinear_arith)
                                    requires
                                        -20000000 <= dx <= 20000000,
                                        -20000000 <= dy <= 20000000;
                            }
                            let d2: u64 = (dx * dx + dy * dy) as u64;
                            if d2 <= BITE_D2 {
                                let a: u32 = atan2_units(dy, dx);
                                let rel: i64 = a as i64 - theta as i64 + EIGHTH_TURN as i64 + 2 * (
                                TAU_UNITS as i64);
                                let dth: u32 = (rel % (TAU_UNITS as i64)) as u32;
                                if dth < QUARTER_TURN {
                                    let removed = cs[t].remove_energy(dam);
                                    let digested = digested_part(removed, meat);
                                    cs[ic].add_energy(digested);
                                }
                            }
                        }
                        k = k + 1;
                    }
                },
            }
            proof {
                let tx = old(self).tile_x_spec() as int;
                assert(count_replicates(acts@, ic as int + 1) == count_replicates(acts@, ic as int)
                    + (if acts@[ic as int].2 is REPLICATE {
                    1int
                } else {
                    0int
                }));
                assert(self.grass_spec() =~= grass_after(
                    old(self).grass_spec(),
                    old(cs)@,
                    acts@,
                    tx,
                    ic as int + 1,
                ));
                assert forall|i: int|
                    0 <= i < old(self).grass_spec().len() && !eats_cell(
                        old(cs)@,
                        acts@,
                        tx,
                        i,
                        ic as int + 1,
                    ) implies #[trigger] self.grass_spec()[i] == old(self).grass_spec()[i] by {
                    assert(!eats_cell(old(cs)@, acts@, tx, i, ic as int)) by {
                        if eats_cell(old(cs)@, acts@, tx, i, ic as int) {
                            let k = choose|k: int|
                                0 <= k < ic as int && ((#[trigger] acts@[k]).2 is EAT)
                                    && cell_index_of(old(cs)@[k].view(), tx) == i;
                            assert(eats_cell(old(cs)@, acts@, tx, i, ic as int + 1));
                        }
                    }
                    if eaten_idx >= 0 {
                        assert(i != eaten_idx);
                        assert(self.grass_spec()[i] == gpre[i]);
                    } else {
                        assert(self.grass_spec()[i] == gpre[i]);
                    }
                }
            }
            ic = ic + 1;
        }
        newborns
    }
}

/// Whether `x` occurs in `v`.
fn contains_u64(v: &Vec<u64>, x: u64) -> (b: bool)
    ensures
        b == v@.contains(x),
{
    let n = v.len();
    let mut i: usize = 0;
    while i < n
        invariant
            n == v@.len(),
            i <= n,
            forall|j: int| 0 <= j < i ==> #[trigger] v@[j] != x,
        decreases n - i,
    {
        if v[i] == x {
            return true;
        }
        i = i + 1;
    }
    false
}

/// The distinct lineages present in `cs`, each once.
fn distinct_fams(cs: &Vec<Creature>) -> (fams: Vec<u64>)
    ensures
        fams@.no_duplicates(),
        forall|k: int| 0 <= k < fams@.len() ==> #[trigger] fam_present(cs@, fams@[k]),
        forall|i: int| 0 <= i < cs@.len() ==> fams@.contains((#[trigger] cs@[i]).view().fam),
{
    let mut fams: Vec<u64> = Vec::new();
    let n = cs.len();
    let mut i: usize = 0;
    while i < n
        invariant
            n == cs@.len(),
            i <= n,
            fams@.no_duplicates(),
            forall|k: int| 0 <= k < fams@.len() ==> #[trigger] fam_present(cs@, fams@[k]),
            forall|j: int| 0 <= j < i ==> fams@.contains((#[trigger] cs@[j]).view().fam),
        decreases n - i,
    {
        let f = cs[i].get_fam();
        if !contains_u64(&fams, f) {
            let ghost fams0 = fams@;
            fams.push(f);
            proof {
                assert(fams@[fams@.len() - 1] == f);
                assert forall|j: int| 0 <= j < i + 1 implies fams@.contains(
                    (#[trigger] cs@[j]).view().fam,
                ) by {
                    if j < i {
                        let k = choose|k: int| 0 <= k < fams0.len() && fams0[k] == cs@[j].view().fam;
                        assert(fams@[k] == cs@[j].view().fam);
                    }
                }
                assert forall|k: int| 0 <= k < fams@.len() implies #[trigger] fam_present(
                    cs@,
                    fams@[k],
                ) by {
                    if k < fams0.len() {
                        assert(fams@[k] == fams0[k]);
                        assert(fam_present(cs@, fams0[k]));
                    } else {
                        assert(cs@[i as int].view().fam == fams@[k]);
                    }
                }
            }
        }
        i = i + 1;
    }
    fams
}

impl World {
    /// Tops the population back up to the configured minimum with fresh
    /// founders at random poses, each starting its own lineage.
    fn population_floor(&mut self, cs: &mut Vec<Creature>, rng: &mut RandomSource)
        requires
            60 <= old(self).tile_x_spec() <= 30000,
            60 <= old(self).tile_y_spec() <= 30000,
            old(self).min_pop_spec() <= 100000000,
            old(cs)@.len() <= 1000000000,
            old(self).creature_id_spec() as int + old(self).min_pop_spec() <= u64::MAX as int,
        ensures
            final(self).tile_x_spec() == old(self).tile_x_spec(),
            final(self).tile_y_spec() == old(self).tile_y_spec(),
            final(self).min_pop_spec() == old(self).min_pop_spec(),
            final(self).min_fams_spec() == old(self).min_fams_spec(),
            final(self).grass_spec() == old(self).grass_spec(),
            final(self).grass_max_spec() == old(self).grass_max_spec(),
            final(self).grass_recharge_spec() == old(self).grass_recharge_spec(),
            final(self).creatures_spec() == old(self).creatures_spec(),
            final(self).grid_spec() == old(self).grid_spec(),
            final(cs)@.len() >= old(self).min_pop_spec(),
            final(cs)@.len() >= old(cs)@.len(),
            final(cs)@.len() <= old(cs)@.len() + old(self).min_pop_spec(),
            final(self).creature_id_spec() as int == old(self).creature_id_spec() as int + (
            final(cs)@.len() - old(cs)@.len()),
            forall|i: int| 0 <= i < old(cs)@.len() ==> #[trigger] final(cs)@[i] == old(cs)@[i],
            forall|i: int|
                old(cs)@.len() <= i < final(cs)@.len() ==> {
                    let nb = #[trigger] final(cs)@[i];
                    &&& nb.wf()
                    &&& (nb.view().x as int) < old(self).xmax_spec()
                    &&& (nb.view().y as int) < old(self).ymax_spec()
                    &&& nb.view().energy == STARTING_ENERGY
                    &&& nb.view().age == 0
                    &&& (nb.last_obs_spec() is None)
                    &&& nb.view().fam == nb.view().id
                    &&& nb.view().id as int == old(self).creature_id_spec() as int + (i - old(
                        cs,
                    )@.len())
                },
    {
        let xm: u64 = (self.grass_tile_x as u64) * MICRO;
        let ym: u64 = (self.grass_tile_y as u64) * MICRO;
        let ghost len0 = cs@.len();
        while cs.len() < self.min_pop
            invariant
                self.tile_x_spec() == old(self).tile_x_spec(),
                self.tile_y_spec() == old(self).tile_y_spec(),
                self.min_pop_spec() == old(self).min_pop_spec(),
                self.min_fams_spec() == old(self).min_fams_spec(),
                self.grass_spec() == old(self).grass_spec(),
                self.grass_max_spec() == old(self).grass_max_spec(),
                self.grass_recharge_spec() == old(self).grass_recharge_spec(),
                self.creatures_spec() == old(self).creatures_spec(),
                self.grid_spec() == old(self).grid_spec(),
                60 <= self.tile_x_spec() <= 30000,
                60 <= self.tile_y_spec() <= 30000,
                xm as int == self.xmax_spec(),
                ym as int == self.ymax_spec(),
                1000000 <= xm,
                1000000 <= ym,
                self.min_pop_spec() <= 100000000,
                len0 == old(cs)@.len(),
                cs@.len() >= len0,
                cs@.len() <= len0 + self.min_pop_spec() || cs@.len() <= self.min_pop_spec(),
                old(self).creature_id_spec() as int + old(self).min_pop_spec()
                    <= u64::MAX as int,
                self.creature_id_spec() as int == old(self).creature_id_spec() as int + (
                cs@.len() - len0),
                cs@.len() < self.min_pop_spec() || cs@.len() <= len0 + self.min_pop_spec(),
                forall|i: int| 0 <= i < len0 ==> #[trigger] cs@[i] == old(cs)@[i],
                forall|i: int|
                    len0 <= i < cs@.len() ==> {
                        let nb = #[trigger] cs@[i];
                        &&& nb.wf()
                        &&& (nb.view().x as int) < old(self).xmax_spec()
                        &&& (nb.view().y as int) < old(self).ymax_spec()
                        &&& nb.view().energy == STARTING_ENERGY
                        &&& nb.view().age == 0
                        &&& (nb.last_obs_spec() is None)
                        &&& nb.view().fam == nb.view().id
                        &&& nb.view().id as int == old(self).creature_id_spec() as int + (i
                            - len0)
                    },
            decreases self.min_pop_spec() - cs@.len(),
        {
            let id = self.get_inc_creature_id();
            let x = rng.below(xm);
            let y = rng.below(ym);
            let t = rng.below(TAU_UNITS as u64) as u32;
            let veg = (rng.below(999) + 1) as u32;
            let c = Creature::new(id, id, x, y, t, veg, rng);
            cs.push(c);
        }
    }

    /// Keeps at least the configured number of distinct lineages alive,
    /// spawning fresh founders (each a new lineage) until the count holds.
    fn lineage_floor(&mut self, cs: &mut Vec<Creature>, rng: &mut RandomSource)
        requires
            60 <= old(self).tile_x_spec() <= 30000,
            60 <= old(self).tile_y_spec() <= 30000,
            old(self).min_fams_spec() <= 100,
            old(cs)@.len() <= 2000000000,
            old(self).creature_id_spec() as int + old(self).min_fams_spec() <= u64::MAX as int,
            forall|i: int|
                0 <= i < old(cs)@.len() ==> ((#[trigger] old(cs)@[i]).view().fam) < old(
                    self,
                ).creature_id_spec(),
        ensures
            final(self).tile_x_spec() == old(self).tile_x_spec(),
            final(self).tile_y_spec() == old(self).tile_y_spec(),
            final(self).min_pop_spec() == old(self).min_pop_spec(),
            final(self).min_fams_spec() == old(self).min_fams_spec(),
            final(self).grass_spec() == old(self).grass_spec(),
            final(self).grass_max_spec() == old(self).grass_max_spec(),
            final(self).grass_recharge_spec() == old(self).grass_recharge_spec(),
            final(self).creatures_spec() == old(self).creatures_spec(),
            final(self).grid_spec() == old(self).grid_spec(),
            final(cs)@.len() >= old(cs)@.len(),
            final(cs)@.len() <= old(cs)@.len() + old(self).min_fams_spec(),
            final(self).creature_id_spec() as int == old(self).creature_id_spec() as int + (
            final(cs)@.len() - old(cs)@.len()),
            forall|i: int| 0 <= i < old(cs)@.len() ==> #[trigger] final(cs)@[i] == old(cs)@[i],
            forall|i: int|
                old(cs)@.len() <= i < final(cs)@.len() ==> {
                    let nb = #[trigger] final(cs)@[i];
                    &&& nb.wf()
                    &&& (nb.view().x as int) < old(self).xmax_spec()
                    &&& (nb.view().y as int) < old(self).ymax_spec()
                    &&& nb.view().energy == STARTING_ENERGY
                    &&& nb.view().age == 0
                    &&& (nb.last_obs_spec() is None)
                    &&& nb.view().fam == nb.view().id
                    &&& nb.view().id as int == old(self).creature_id_spec() as int + (i - old(
                        cs,
                    )@.len())
                },
            fams_of(final(cs)@).len() >= old(self).min_fams_spec(),
    {
        let xm: u64 = (self.grass_tile_x as u64) * MICRO;
        let ym: u64 = (self.grass_tile_y as u64) * MICRO;
        let ghost len0 = cs@.len();
        let mut fams = distinct_fams(cs);
        proof {
            assert forall|k: int| 0 <= k < fams@.len() implies #[trigger] fams@[k]
                < self.creature_id_spec() by {
                assert(fam_present(cs@, fams@[k]));
                let i = choose|i: int| 0 <= i < cs@.len() && (#[trigger] cs@[i]).view().fam == fams@[k];
                assert(cs@[i].view().fam < old(self).creature_id_spec());
            }
        }
        while fams.len() < self.min_fams
            invariant
                self.tile_x_spec() == old(self).tile_x_spec(),
                self.tile_y_spec() == old(self).tile_y_spec(),
                self.min_pop_spec() == old(self).min_pop_spec(),
                self.min_fams_spec() == old(self).min_fams_spec(),
                self.grass_spec() == old(self).grass_spec(),
                self.grass_max_spec() == old(self).grass_max_spec(),
                self.grass_recharge_spec() == old(self).grass_recharge_spec(),
                self.creatures_spec() == old(self).creatures_spec(),
                self.grid_spec() == old(self).grid_spec(),
                60 <= self.tile_x_spec() <= 30000,
                60 <= self.tile_y_spec() <= 30000,
                xm as int == self.xmax_spec(),
                ym as int == self.ymax_spec(),
                1000000 <= xm,
                1000000 <= ym,
                self.min_fams_spec() <= 100,
                len0 == old(cs)@.len(),
                cs@.len() >= len0,
                cs@.len() - len0 <= fams@.len(),
                cs@.len() <= len0 + self.min_fams_spec(),
                old(self).creature_id_spec() as int + old(self).min_fams_spec()
                    <= u64::MAX as int,
                self.creature_id_spec() as int == old(self).creature_id_spec() as int + (
                cs@.len() - len0),
                fams@.no_duplicates(),
                forall|k: int| 0 <= k < fams@.len() ==> #[trigger] fams@[k] < self.creature_id_spec(),
                forall|k: int| 0 <= k < fams@.len() ==> #[trigger] fam_present(cs@, fams@[k]),
                forall|i: int| 0 <= i < len0 ==> #[trigger] cs@[i] == old(cs)@[i],
                forall|i: int|
                    len0 <= i < cs@.len() ==> {
                        let nb = #[trigger] cs@[i];
                        &&& nb.wf()
                        &&& (nb.view().x as int) < old(self).xmax_spec()
                        &&& (nb.view().y as int) < old(self).ymax_spec()
                        &&& nb.view().energy == STARTING_ENERGY
                        &&& nb.view().age == 0
                        &&& (nb.last_obs_spec() is None)
                        &&& nb.view().fam == nb.view().id
                        &&& nb.view().id as int == old(self).creature_id_spec() as int + (i
                            - len0)
                    },
            decreases self.min_fams_spec() - fams@.len(),
        {
            let id = self.get_inc_creature_id();
            let x = rng.below(xm);
            let y = rng.below(ym);
            let t = rng.below(TAU_UNITS as u64) as u32;
            let veg = (rng.below(999) + 1) as u32;
            let c = Creature::new(id, id, x, y, t, veg, rng);
            let ghost fams0 = fams@;
            let ghost cs0 = cs@;
            cs.push(c);
            fams.push(id);
            proof {
                assert(!fams0.contains(id)) by {
                    if fams0.contains(id) {
                        let k = choose|k: int| 0 <= k < fams0.len() && fams0[k] == id;
                        assert(fams0[k] < id);
                    }
                }
                assert(fams@.no_duplicates());
                assert forall|k: int| 0 <= k < fams@.len() implies #[trigger] fams@[k]
                    < self.creature_id_spec() by {
                    if k < fams0.len() {
                        assert(fams@[k] == fams0[k]);
                    }
                }
                assert forall|k: int| 0 <= k < fams@.len() implies #[trigger] fam_present(
                    cs@,
                    fams@[k],
                ) by {
                    if k < fams0.len() {
                        assert(fam_present(cs0, fams0[k]));
                        let i = choose|i: int|
                            0 <= i < cs0.len() && (#[trigger] cs0[i]).view().fam == fams0[k];
                        assert(cs@[i].view().fam == fams@[k]);
                    } else {
                        assert(cs@[cs@.len() - 1].view().fam == fams@[k]);
                    }
                }
            }
        }
        proof {
            fams@.unique_seq_to_set();
            let present = fams_of(cs@);
            assert(fams@.to_set().subset_of(present)) by {
                assert forall|f: u64| fams@.to_set().contains(f) implies present.contains(f) by {
                    let k = choose|k: int| 0 <= k < fams@.len() && fams@[k] == f;
                    assert(fam_present(cs@, fams@[k]));
                    let i = choose|i: int|
                        0 <= i < cs@.len() && (#[trigger] cs@[i]).view().fam == fams@[k];
                    assert(cs@.map_values(|c: Creature| c.view().fam)[i] == f);
                    assert(cs@.map_values(|c: Creature| c.view().fam).contains(f));
                }
            }
            vstd::seq_lib::seq_to_set_is_finite::<u64>(cs@.map_values(|c: Creature| c.view().fam));
            vstd::set_lib::lemma_len_subset(fams@.to_set(), present);
        }
    }
}

/// Law: every grass cell of a sound world lies in `[0, GRASS_MAX]`.
pub proof fn lemma_grass_bounded(w: World)
    requires
        w.wf(),
    ensures
        forall|i: int| 0 <= i < w.grass_spec().len() ==> #[trigger] w.grass_spec()[i] <= GRASS_MAX,
{
}

/// Law: every creature of a sound world has its heading normalized into
/// `[0, TAU_UNITS)` — after any turn or reproduction, since every tick
/// ends in a sound world.
pub proof fn lemma_headings_normalized(w: World)
    requires
        w.wf(),
    ensures
        forall|i: int|
            0 <= i < w.creatures_spec().len() ==> (#[trigger] w.creatures_spec()[i]).view().theta
                < TAU_UNITS,
{
    assert forall|i: int|
        0 <= i < w.creatures_spec().len() implies (#[trigger] w.creatures_spec()[i]).view().theta
        < TAU_UNITS by {
        assert(w.creature_ok(w.creatures_spec()[i]));
    }
}

/// Law: every creature of a sound world sits inside the world rectangle —
/// movement wraps at both boundaries, so this survives every tick.
pub proof fn lemma_positions_in_bounds(w: World)
    requires
        w.wf(),
    ensures
        forall|i: int|
            0 <= i < w.creatures_spec().len() ==> ((#[trigger] w.creatures_spec()[i]).view().x as int)
                < w.xmax_spec() && (w.creatures_spec()[i].view().y as int) < w.ymax_spec(),
{
    assert forall|i: int|
        0 <= i < w.creatures_spec().len() implies ((#[trigger] w.creatures_spec()[i]).view().x as int)
        < w.xmax_spec() && (w.creatures_spec()[i].view().y as int) < w.ymax_spec() by {
        assert(w.creature_ok(w.creatures_spec()[i]));
    }
}

/// Law: ids in a sound world are pairwise distinct and all below the
/// counter, so any id issued next is strictly greater than every id ever
/// given out.
pub proof fn lemma_ids_fresh(w: World)
    requires
        w.wf(),
    ensures
        forall|i: int, j: int|
            0 <= i < w.creatures_spec().len() && 0 <= j < w.creatures_spec().len() && i != j ==> (
            #[trigger] w.creatures_spec()[i]).view().id != (#[trigger] w.creatures_spec()[j]).view().id,
        forall|i: int|
            0 <= i < w.creatures_spec().len() ==> (#[trigger] w.creatures_spec()[i]).view().id
                < w.creature_id_spec(),
{
    assert forall|i: int|
        0 <= i < w.creatures_spec().len() implies (#[trigger] w.creatures_spec()[i]).view().id
        < w.creature_id_spec() by {
        assert(w.creature_ok(w.creatures_spec()[i]));
    }
}

} // verus!
