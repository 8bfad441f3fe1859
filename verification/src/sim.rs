use vstd::prelude::*;
use vstd::arithmetic::mul::lemma_mul_inequality;
use vstd::arithmetic::div_mod::lemma_fundamental_div_mod;
use crate::agent::{
    agent_tick, deliveries_among, dwell_state, legal_transition, lemma_deliveries_among_bounds,
    lemma_folds_prefix, repulsion_after_agents, state_code, state_code_spec, vein_after_agents,
    Agent, AgentState,
};
use crate::field::{
    blocks_layout, emitted_delivery, emitted_pickup, is_border, stepped_grid,
    stepped_repulsion_grid, stepped_vein_grid, PhysarumField, KEEP_PD, OBSTACLE,
};
use crate::rng::SimRng;

verus! {

/// Grid side used by the default constructors.
pub const GRID_SIZE: usize = 128;

/// The pickup grid the agents of one tick sense: the old grid after the
/// engine's emission, diffusion and decay step.
pub open spec fn ticked_pickup(f: PhysarumField) -> Seq<i64> {
    stepped_grid(
        emitted_pickup(f.pickup@, f.width as int),
        f.obstacles@,
        f.width as int,
        f.height as int,
        KEEP_PD as int,
    )
}

/// The delivery grid the agents of one tick sense.
pub open spec fn ticked_delivery(f: PhysarumField) -> Seq<i64> {
    stepped_grid(
        emitted_delivery(f.delivery@, f.width as int, f.height as int),
        f.obstacles@,
        f.width as int,
        f.height as int,
        KEEP_PD as int,
    )
}

/// Number of whole four-entry snapshot groups written: one per agent, as far
/// as the caller's buffer allows.
pub open spec fn snapshot_groups(agents: int, buf: int) -> int {
    if buf / 4 < agents {
        buf / 4
    } else {
        agents
    }
}

/// One simulation instance: the five shared grids, the agent swarm, the
/// delivered-trip counter and the random source driving layout and
/// exploration.
pub struct Simulation {
    pub field: PhysarumField,
    pub agents: Vec<Agent>,
    pub delivered_count: u64,
    pub rng: SimRng,
}

impl Simulation {
    /// Validity: the field is well-formed and every agent is valid for it.
    pub open spec fn wf(self) -> bool {
        &&& self.field.wf()
        &&& forall|i: int|
            0 <= i < self.agents@.len() ==> (#[trigger] self.agents@[i]).wf(
                self.field.width as int,
                self.field.height as int,
            )
    }

    /// Fresh simulation with a randomized map and `agent_count` spawned
    /// agents, seeded unpredictably.
    pub fn new(agent_count: usize) -> (sim: Simulation)
        ensures
            sim.wf(),
            sim.agents@.len() == agent_count,
            sim.delivered_count == 0,
            sim.field.width == GRID_SIZE,
            sim.field.height == GRID_SIZE,
            forall|i: int| 0 <= i < sim.field.pickup@.len() ==> sim.field.pickup@[i] == 0,
            forall|i: int| 0 <= i < sim.field.delivery@.len() ==> sim.field.delivery@[i] == 0,
            forall|i: int| 0 <= i < sim.field.vein@.len() ==> sim.field.vein@[i] == 0,
            forall|i: int| 0 <= i < sim.field.repulsion@.len() ==> sim.field.repulsion@[i] == 0,
            blocks_layout(sim.field.obstacles@, sim.field.width as int, sim.field.height as int),
            forall|i: int|
                0 <= i < sim.field.obstacles@.len() && is_border(
                    sim.field.width as int,
                    sim.field.height as int,
                    i,
                ) ==> sim.field.obstacles@[i] == OBSTACLE,
            sim.field.obstacles@[12 * (sim.field.width as int) + 12] == 0,
            sim.field.obstacles@[13 * (sim.field.width as int) + 12] == 0,
            sim.field.obstacles@[(sim.field.height - 12) as int * (sim.field.width as int) + (
            sim.field.width - 12) as int] == 0,
            sim.field.obstacles@[(sim.field.height - 13) as int * (sim.field.width as int) + (
            sim.field.width - 12) as int] == 0,
            forall|i: int|
                0 <= i < sim.agents@.len() ==> (#[trigger] sim.agents@[i]).state
                    == AgentState::SeekPickup && sim.agents@[i].timer == 0
                    && sim.agents@[i].history@.len() == 0 && 10_000 <= sim.agents@[i].x < 30_000
                    && 10_000 <= sim.agents@[i].y < 30_000,
    {
        let rng = SimRng::fresh();
        Self::with_rng(agent_count, rng)
    }

    /// Fresh simulation whose whole run replays deterministically for a
    /// given seed.
    pub fn new_seeded(agent_count: usize, seed: u64) -> (sim: Simulation)
        ensures
            sim.wf(),
            sim.agents@.len() == agent_count,
            sim.delivered_count == 0,
            sim.field.width == GRID_SIZE,
            sim.field.height == GRID_SIZE,
            forall|i: int| 0 <= i < sim.field.pickup@.len() ==> sim.field.pickup@[i] == 0,
            forall|i: int| 0 <= i < sim.field.delivery@.len() ==> sim.field.delivery@[i] == 0,
            forall|i: int| 0 <= i < sim.field.vein@.len() ==> sim.field.vein@[i] == 0,
            forall|i: int| 0 <= i < sim.field.repulsion@.len() ==> sim.field.repulsion@[i] == 0,
            blocks_layout(sim.field.obstacles@, sim.field.width as int, sim.field.height as int),
            forall|i: int|
                0 <= i < sim.field.obstacles@.len() && is_border(
                    sim.field.width as int,
                    sim.field.height as int,
                    i,
                ) ==> sim.field.obstacles@[i] == OBSTACLE,
            sim.field.obstacles@[12 * (sim.field.width as int) + 12] == 0,
            sim.field.obstacles@[13 * (sim.field.width as int) + 12] == 0,
            sim.field.obstacles@[(sim.field.height - 12) as int * (sim.field.width as int) + (
            sim.field.width - 12) as int] == 0,
            sim.field.obstacles@[(sim.field.height - 13) as int * (sim.field.width as int) + (
            sim.field.width - 12) as int] == 0,
            forall|i: int|
                0 <= i < sim.agents@.len() ==> (#[trigger] sim.agents@[i]).state
                    == AgentState::SeekPickup && sim.agents@[i].timer == 0
                    && sim.agents@[i].history@.len() == 0 && 10_000 <= sim.agents@[i].x < 30_000
                    && 10_000 <= sim.agents@[i].y < 30_000,
    {
        Self::with_rng(agent_count, SimRng::from_seed(seed))
    }

    fn with_rng(agent_count: usize, rng: SimRng) -> (sim: Simulation)
        ensures
            sim.wf(),
            sim.agents@.len() == agent_count,
            sim.delivered_count == 0,
            sim.field.width == GRID_SIZE,
            sim.field.height == GRID_SIZE,
            forall|i: int| 0 <= i < sim.field.pickup@.len() ==> sim.field.pickup@[i] == 0,
            forall|i: int| 0 <= i < sim.field.delivery@.len() ==> sim.field.delivery@[i] == 0,
            forall|i: int| 0 <= i < sim.field.vein@.len() ==> sim.field.vein@[i] == 0,
            forall|i: int| 0 <= i < sim.field.repulsion@.len() ==> sim.field.repulsion@[i] == 0,
            blocks_layout(sim.field.obstacles@, sim.field.width as int, sim.field.height as int),
            forall|i: int|
                0 <= i < sim.field.obstacles@.len() && is_border(
                    sim.field.width as int,
                    sim.field.height as int,
                    i,
                ) ==> sim.field.obstacles@[i] == OBSTACLE,
            sim.field.obstacles@[12 * (sim.field.width as int) + 12] == 0,
            sim.field.obstacles@[13 * (sim.field.width as int) + 12] == 0,
            sim.field.obstacles@[(sim.field.height - 12) as int * (sim.field.width as int) + (
            sim.field.width - 12) as int] == 0,
            sim.field.obstacles@[(sim.field.height - 13) as int * (sim.field.width as int) + (
            sim.field.width - 12) as int] == 0,
            forall|i: int|
                0 <= i < sim.agents@.len() ==> (#[trigger] sim.agents@[i]).state
                    == AgentState::SeekPickup && sim.agents@[i].timer == 0
                    && sim.agents@[i].history@.len() == 0 && 10_000 <= sim.agents@[i].x < 30_000
                    && 10_000 <= sim.agents@[i].y < 30_000,
    {
        let mut rng = rng;
        let field = PhysarumField::new(GRID_SIZE, GRID_SIZE, &mut rng);
        let mut sim = Simulation { field, agents: Vec::new(), delivered_count: 0, rng };
        sim.resize_agents(agent_count);
        sim
    }

    /// Grows the swarm by spawning fresh agents or shrinks it by truncating
    /// the most recently created ones; surviving agents are never mutated.
    pub fn resize_agents(&mut self, count: usize)
        requires
            old(self).wf(),
        ensures
            final(self).wf(),
            final(self).agents@.len() == count,
            final(self).field == old(self).field,
            final(self).delivered_count == old(self).delivered_count,
            forall|i: int|
                0 <= i < old(self).agents@.len() && i < count ==> final(self).agents@[i] == old(self).agents@[i],
            forall|i: int|
                old(self).agents@.len() <= i < count ==> (#[trigger] final(self).agents@[i]).state
                    == AgentState::SeekPickup && final(self).agents@[i].timer == 0 && final(self).agents@[i].history@.len() == 0 && 10_000 <= final(self).agents@[i].x < 30_000
                    && 10_000 <= final(self).agents@[i].y < 30_000,
    {
        if count > self.agents.len() {
            let ghost a0 = self.agents@;
            while self.agents.len() < count
                invariant
                    self.field == old(self).field,
                    self.delivered_count == old(self).delivered_count,
                    self.field.wf(),
                    a0.len() <= self.agents@.len() <= count,
                    a0 == old(self).agents@,
                    forall|i: int| 0 <= i < a0.len() ==> self.agents@[i] == a0[i],
                    forall|i: int|
                        0 <= i < self.agents@.len() ==> (#[trigger] self.agents@[i]).wf(
                            self.field.width as int,
                            self.field.height as int,
                        ),
                    forall|i: int|
                        a0.len() <= i < self.agents@.len() ==> (
                        #[trigger] self.agents@[i]).state == AgentState::SeekPickup
                            && self.agents@[i].timer == 0 && self.agents@[i].history@.len() == 0
                            && 10_000 <= self.agents@[i].x < 30_000 && 10_000 <= self.agents@[i].y
                            < 30_000,
                decreases count - self.agents.len(),
            {
                let a = Agent::spawn(self.field.width, self.field.height, &mut self.rng);
                self.agents.push(a);
            }
        } else {
            self.agents.truncate(count);
        }
    }

    /// Re-rolls obstacles, pickup, delivery and vein, and resets the
    /// delivered counter; agents and the repulsion field are left untouched.
    pub fn randomize_map(&mut self)
        requires
            old(self).wf(),
        ensures
            final(self).wf(),
            final(self).delivered_count == 0,
            final(self).agents@ == old(self).agents@,
            final(self).field.width == old(self).field.width,
            final(self).field.height == old(self).field.height,
            final(self).field.repulsion@ == old(self).field.repulsion@,
            forall|i: int|
                0 <= i < final(self).field.pickup@.len() ==> final(self).field.pickup@[i] == 0,
            forall|i: int|
                0 <= i < final(self).field.delivery@.len() ==> final(self).field.delivery@[i] == 0,
            forall|i: int|
                0 <= i < final(self).field.vein@.len() ==> final(self).field.vein@[i] == 0,
            blocks_layout(
                final(self).field.obstacles@,
                final(self).field.width as int,
                final(self).field.height as int,
            ),
            forall|i: int|
                0 <= i < final(self).field.obstacles@.len() && is_border(
                    final(self).field.width as int,
                    final(self).field.height as int,
                    i,
                ) ==> final(self).field.obstacles@[i] == OBSTACLE,
            final(self).field.obstacles@[12 * (final(self).field.width as int) + 12] == 0,
            final(self).field.obstacles@[13 * (final(self).field.width as int) + 12] == 0,
            final(self).field.obstacles@[(final(self).field.height - 12) as int * (final(self).field.width as int) + (final(self).field.width - 12) as int] == 0,
            final(self).field.obstacles@[(final(self).field.height - 13) as int * (final(self).field.width as int) + (final(self).field.width - 12) as int] == 0,
    {
        self.field.randomize_obstacles(&mut self.rng);
        self.delivered_count = 0;
    }

    /// Advances exactly one tick: the field engine steps first, then every
    /// agent updates once, in collection order, against the fields the engine
    /// just produced (agents' own writes this tick touch only repulsion and
    /// vein). A dwelling agent never moves and its timer falls by exactly
    /// one; the delivered count rises by at most one per agent.
    /// Advances exactly one tick: the field engine steps first, then every
    /// agent updates once, in collection order, against the goal fields the
    /// engine just produced (a tick's own writes touch only repulsion and
    /// vein, so later agents sense earlier agents' crowding). The new state
    /// is pinned: pickup and delivery are exactly one engine step; repulsion
    /// is that step plus every agent's deposit at its final cell, in order,
    /// deposits into one cell all accumulating; vein is the decayed grid plus
    /// one whole-path reinforcement per completed delivery; the delivered
    /// counter rises by exactly the number of completed deliveries. A
    /// dwelling agent keeps position, heading and history, its timer falls by
    /// exactly one and its state follows the dwell table; every agent takes
    /// at most one legal state-machine edge.
    pub fn update(&mut self)
        requires
            old(self).wf(),
            old(self).delivered_count as int + old(self).agents@.len() <= u64::MAX as int,
        ensures
            final(self).wf(),
            final(self).agents@.len() == old(self).agents@.len(),
            final(self).field.width == old(self).field.width,
            final(self).field.height == old(self).field.height,
            final(self).field.obstacles@ == old(self).field.obstacles@,
            final(self).field.pickup@ == ticked_pickup(old(self).field),
            final(self).field.delivery@ == ticked_delivery(old(self).field),
            final(self).field.repulsion@ == repulsion_after_agents(
                stepped_repulsion_grid(
                    old(self).field.repulsion@,
                    old(self).field.obstacles@,
                    old(self).field.width as int,
                    old(self).field.height as int,
                ),
                old(self).agents@,
                final(self).agents@,
                old(self).field.width as int,
                old(self).field.height as int,
                old(self).agents@.len() as int,
            ),
            final(self).field.vein@ == vein_after_agents(
                stepped_vein_grid(
                    old(self).field.vein@,
                    old(self).field.obstacles@,
                    old(self).field.width as int,
                    old(self).field.height as int,
                ),
                old(self).agents@,
                final(self).agents@,
                ticked_delivery(old(self).field),
                old(self).field.width as int,
                old(self).field.height as int,
                old(self).agents@.len() as int,
            ),
            final(self).delivered_count as int == old(self).delivered_count + deliveries_among(
                old(self).agents@,
                final(self).agents@,
                ticked_delivery(old(self).field),
                old(self).field.width as int,
                old(self).agents@.len() as int,
            ),
            old(self).delivered_count <= final(self).delivered_count <= old(self).delivered_count
                + old(self).agents@.len(),
            forall|i: int|
                0 <= i < old(self).agents@.len() ==> legal_transition(
                    old(self).agents@[i].state,
                    (#[trigger] final(self).agents@[i]).state,
                ),
            forall|i: int|
                0 <= i < old(self).agents@.len() && old(self).agents@[i].timer > 0 ==> (
                #[trigger] final(self).agents@[i]).x == old(self).agents@[i].x && final(self).agents@[i].y == old(self).agents@[i].y && final(self).agents@[i].timer == old(self).agents@[i].timer - 1 && final(self).agents@[i].heading == old(self).agents@[i].heading
                    && final(self).agents@[i].history@ == old(self).agents@[i].history@ && final(self).agents@[i].state == dwell_state(
                    old(self).agents@[i].state,
                    (old(self).agents@[i].timer - 1) as u32,
                ),
            forall|i: int|
                0 <= i < old(self).agents@.len() ==> (#[trigger] final(self).agents@[i]).speed
                    == old(self).agents@[i].speed,
    {
        self.field.step();
        let ghost gp1 = self.field.pickup@;
        let ghost gd1 = self.field.delivery@;
        let ghost gr1 = self.field.repulsion@;
        let ghost gv1 = self.field.vein@;
        let ghost a0 = self.agents@;
        let ghost d0 = self.delivered_count;
        let w = self.field.width;
        let h = self.field.height;

        let n = self.agents.len();
        let mut idx: usize = 0;
        while idx < n
            invariant
                idx <= n,
                n == self.agents@.len(),
                n == a0.len(),
                self.field.wf(),
                w == self.field.width,
                h == self.field.height,
                self.field.pickup@ == gp1,
                self.field.delivery@ == gd1,
                self.field.obstacles@ == old(self).field.obstacles@,
                self.field.repulsion@ == repulsion_after_agents(
                    gr1,
                    a0,
                    self.agents@,
                    w as int,
                    h as int,
                    idx as int,
                ),
                self.field.vein@ == vein_after_agents(
                    gv1,
                    a0,
                    self.agents@,
                    gd1,
                    w as int,
                    h as int,
                    idx as int,
                ),
                self.delivered_count as int == d0 as int + deliveries_among(
                    a0,
                    self.agents@,
                    gd1,
                    w as int,
                    idx as int,
                ),
                d0 as int + n <= u64::MAX as int,
                forall|j: int| idx <= j < n ==> self.agents@[j] == a0[j],
                forall|j: int|
                    0 <= j < n ==> (#[trigger] self.agents@[j]).wf(w as int, h as int),
                forall|j: int|
                    0 <= j < idx ==> legal_transition(
                        a0[j].state,
                        (#[trigger] self.agents@[j]).state,
                    ),
                forall|j: int|
                    0 <= j < idx && a0[j].timer > 0 ==> (#[trigger] self.agents@[j]).x == a0[j].x
                        && self.agents@[j].y == a0[j].y && self.agents@[j].timer == a0[j].timer - 1
                        && self.agents@[j].heading == a0[j].heading && self.agents@[j].history@
                        == a0[j].history@ && self.agents@[j].state == dwell_state(
                        a0[j].state,
                        (a0[j].timer - 1) as u32,
                    ),
                forall|j: int|
                    0 <= j < n ==> (#[trigger] self.agents@[j]).speed == a0[j].speed,
            decreases n - idx,
        {
            let ghost aseq_pre = self.agents@;
            proof {
                lemma_deliveries_among_bounds(a0, aseq_pre, gd1, w as int, idx as int);
            }
            agent_tick(
                &mut self.field,
                &mut self.rng,
                &mut self.agents[idx],
                &mut self.delivered_count,
            );
            proof {
                lemma_folds_prefix(
                    gr1,
                    gv1,
                    a0,
                    aseq_pre,
                    self.agents@,
                    gd1,
                    w as int,
                    h as int,
                    idx as int,
                );
            }
            idx += 1;
        }
        proof {
            lemma_deliveries_among_bounds(a0, self.agents@, gd1, w as int, n as int);
        }
    }

    /// Read access to the pickup grid buffer.
    pub fn get_pickup_ptr(&self) -> (r: &Vec<i64>)
        ensures
            r@ == self.field.pickup@,
    {
        &self.field.pickup
    }

    /// Read access to the delivery grid buffer.
    pub fn get_delivery_ptr(&self) -> (r: &Vec<i64>)
        ensures
            r@ == self.field.delivery@,
    {
        &self.field.delivery
    }

    /// Read access to the repulsion grid buffer.
    pub fn get_repulsion_ptr(&self) -> (r: &Vec<i64>)
        ensures
            r@ == self.field.repulsion@,
    {
        &self.field.repulsion
    }

    /// Read access to the vein grid buffer.
    pub fn get_vein_ptr(&self) -> (r: &Vec<i64>)
        ensures
            r@ == self.field.vein@,
    {
        &self.field.vein
    }

    /// Read access to the obstacle mask buffer.
    pub fn get_obstacles_ptr(&self) -> (r: &Vec<i64>)
        ensures
            r@ == self.field.obstacles@,
    {
        &self.field.obstacles
    }

    /// Writes x, y, state code and heading of each agent into a
    /// caller-supplied buffer, four entries per agent, silently stopping at
    /// the last agent whose full group fits.
    pub fn get_agents_flat(&self, out: &mut Vec<i64>)
        requires
            self.wf(),
        ensures
            final(out)@.len() == old(out)@.len(),
            forall|i: int|
                #![trigger final(out)@[4 * i]]
                0 <= i < self.agents@.len() && 4 * i + 3 < old(out)@.len() ==> final(out)@[4 * i]
                    == self.agents@[i].x,
            forall|i: int|
                #![trigger final(out)@[4 * i + 1]]
                0 <= i < self.agents@.len() && 4 * i + 3 < old(out)@.len() ==> final(out)@[4 * i
                    + 1] == self.agents@[i].y,
            forall|i: int|
                #![trigger final(out)@[4 * i + 2]]
                0 <= i < self.agents@.len() && 4 * i + 3 < old(out)@.len() ==> final(out)@[4 * i
                    + 2] == state_code_spec(self.agents@[i].state),
            forall|i: int|
                #![trigger final(out)@[4 * i + 3]]
                0 <= i < self.agents@.len() && 4 * i + 3 < old(out)@.len() ==> final(out)@[4 * i
                    + 3] == self.agents@[i].heading as i64,
            forall|j: int|
                4 * snapshot_groups(self.agents@.len() as int, old(out)@.len() as int) <= j < old(
                    out,
                )@.len() ==> final(out)@[j] == old(out)@[j],
    {
        let n = self.agents.len();
        let quarter = out.len() / 4;
        let m = if quarter < n {
            quarter
        } else {
            n
        };
        proof {
            lemma_fundamental_div_mod(out@.len() as int, 4);
        }
        let mut i: usize = 0;
        while i < m
            invariant
                i <= m,
                m <= n,
                n == self.agents@.len(),
                (m as int) * 4 <= out@.len(),
                out@.len() <= usize::MAX,
                m == snapshot_groups(n as int, out@.len() as int),
                forall|j: int| 4 * i <= j < out@.len() ==> out@[j] == old(out)@[j],
                self.wf(),
                out@.len() == old(out)@.len(),
                forall|j: int|
                    #![trigger out@[4 * j]]
                    0 <= j < i ==> out@[4 * j] == self.agents@[j].x,
                forall|j: int|
                    #![trigger out@[4 * j + 1]]
                    0 <= j < i ==> out@[4 * j + 1] == self.agents@[j].y,
                forall|j: int|
                    #![trigger out@[4 * j + 2]]
                    0 <= j < i ==> out@[4 * j + 2] == state_code_spec(self.agents@[j].state),
                forall|j: int|
                    #![trigger out@[4 * j + 3]]
                    0 <= j < i ==> out@[4 * j + 3] == self.agents@[j].heading as i64,
            decreases m - i,
        {
            proof {
                lemma_mul_inequality(i as int + 1, m as int, 4);
                assert((i as int + 1) * 4 == 4 * i + 4) by (nonlinear_arith);
                assert((m as int) * 4 == 4 * (m as int)) by (nonlinear_arith);
            }
            let heading = self.agents[i].heading;
            put(out, 4 * i, self.agents[i].x);
            put(out, 4 * i + 1, self.agents[i].y);
            put(out, 4 * i + 2, state_code(self.agents[i].state));
            put(out, 4 * i + 3, heading as i64);
            i += 1;
        }
        proof {
            assert forall|j: int|
                #![trigger self.agents@[j]]
                0 <= j < self.agents@.len() && 4 * j + 3 < old(out)@.len() implies j < m by {
                if j >= m {
                    lemma_mul_inequality(m as int, j as int, 4);
                    assert((m as int) * 4 == 4 * (m as int)) by (nonlinear_arith);
                    assert((j as int) * 4 == 4 * j) by (nonlinear_arith);
                    lemma_mul_inequality(out@.len() as int / 4, j, 4);
                }
            }
        }
    }

    /// The number of completed deliveries since construction or the last map
    /// randomization.
    pub fn get_delivered_count(&self) -> (r: u64)
        ensures
            r == self.delivered_count,
    {
        self.delivered_count
    }
}

/// Writes one buffer entry.
fn put(out: &mut Vec<i64>, k: usize, v: i64)
    requires
        k < old(out)@.len(),
    ensures
        final(out)@ == old(out)@.update(k as int, v),
{
    out[k] = v;
}

/// Headless batch run: a fresh simulation advanced a fixed number of ticks;
/// returns the final delivered count, which one delivery per agent per tick
/// bounds.
pub fn run_simulation_bench(steps: usize, agent_count: usize) -> (r: u64)
    requires
        (steps as int) * (agent_count as int) <= u64::MAX as int,
    ensures
        r as int <= (steps as int) * (agent_count as int),
{
    let mut sim = Simulation::new(agent_count);
    let mut i: usize = 0;
    proof {
        vstd::arithmetic::mul::lemma_mul_nonnegative(steps as int, agent_count as int);
        vstd::arithmetic::mul::lemma_mul_by_zero_is_zero(agent_count as int);
    }
    while i < steps
        invariant
            i <= steps,
            sim.wf(),
            sim.agents@.len() == agent_count,
            (steps as int) * (agent_count as int) <= u64::MAX as int,
            sim.delivered_count as int <= (i as int) * (agent_count as int),
        decreases steps - i,
    {
        proof {
            lemma_mul_inequality(i as int + 1, steps as int, agent_count as int);
            assert((i as int + 1) * (agent_count as int) == (i as int) * (agent_count as int)
                + agent_count as int) by (nonlinear_arith);
        }
        sim.update();
        i += 1;
    }
    sim.get_delivered_count()
}

} // verus!
