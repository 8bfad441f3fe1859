use vstd::prelude::*;
use vstd::arithmetic::mul::{lemma_mul_inequality, lemma_mul_upper_bound, lemma_mul_nonnegative};
use crate::field::{
    PhysarumField, add_repulsion, add_vein, at, cell_index, deposit, grid_ok, lemma_grid_index,
    lemma_size_bound, lemma_scale_div_bound, obstructed, MAX_FIELD,
};
use crate::rng::SimRng;

verus! {

/// Number of discrete headings: the full circle in steps of about 0.12 rad
/// (2 * pi / 52), which is also the steering increment; the sensor offset of
/// about 0.6 rad is five steps.
pub const DIR_COUNT: u64 = 52;

/// Potential above which an agent standing on a cell picks up or delivers
/// (2.5).
pub const GOAL_THRESHOLD: i64 = 2500;

/// Ticks an agent dwells while loading or unloading.
pub const DWELL_TICKS: u32 = 50;

/// Longest remembered tail of a delivery run.
pub const HISTORY_CAP: usize = 300;

/// Repulsion deposited each tick by a dwelling agent (0.6).
pub const DWELL_DEPOSIT: i64 = 600;

/// Repulsion deposited each tick by a moving agent (0.4).
pub const MOVE_DEPOSIT: i64 = 400;

/// Vein reinforcement per remembered path position (0.35).
pub const VEIN_DEPOSIT: i64 = 350;

/// The four phases of an agent's round trip.
#[derive(Clone, Copy, PartialEq, Eq, Structural, Debug)]
pub enum AgentState {
    SeekPickup,
    Loading,
    SeekDelivery,
    Unloading,
}

/// Numeric code of a state, as exposed in flattened agent snapshots.
pub open spec fn state_code_spec(s: AgentState) -> i64 {
    match s {
        AgentState::SeekPickup => 0,
        AgentState::Loading => 1,
        AgentState::SeekDelivery => 2,
        AgentState::Unloading => 3,
    }
}

pub fn state_code(s: AgentState) -> (r: i64)
    ensures
        r == state_code_spec(s),
{
    match s {
        AgentState::SeekPickup => 0,
        AgentState::Loading => 1,
        AgentState::SeekDelivery => 2,
        AgentState::Unloading => 3,
    }
}

/// One exploring particle. Positions are milli-units, so the containing grid
/// cell is the position divided by 1000; the heading is a direction index
/// below DIR_COUNT; the speed is a milli-unit step length fixed at creation.
pub struct Agent {
    pub x: i64,
    pub y: i64,
    pub heading: u64,
    pub state: AgentState,
    pub timer: u32,
    pub history: Vec<(i64, i64)>,
    pub speed: i64,
}

impl Agent {
    /// Validity with respect to a w-by-h grid: strictly inside the rectangle,
    /// a legal heading and speed, a bounded dwell timer and path memory, and
    /// a timer that runs exactly in the two dwell states.
    pub open spec fn wf(self, w: int, h: int) -> bool {
        &&& 0 < self.x < w * 1000
        &&& 0 < self.y < h * 1000
        &&& self.heading < DIR_COUNT
        &&& 400 <= self.speed < 550
        &&& self.timer <= DWELL_TICKS
        &&& self.history@.len() <= HISTORY_CAP
        &&& ((self.state == AgentState::Loading || self.state == AgentState::Unloading)
            ==> self.timer >= 1)
        &&& ((self.state == AgentState::SeekPickup || self.state == AgentState::SeekDelivery)
            ==> self.timer == 0)
    }

    /// A freshly spawned agent: random position near the spawn corner, random
    /// heading, random speed in the tuned band, seeking pickup.
    pub fn spawn(w: usize, h: usize, rng: &mut SimRng) -> (a: Agent)
        requires
            64 <= w <= 1024,
            64 <= h <= 1024,
        ensures
            a.wf(w as int, h as int),
            a.state == AgentState::SeekPickup,
            a.timer == 0,
            a.history@.len() == 0,
            10_000 <= a.x < 30_000,
            10_000 <= a.y < 30_000,
    {
        proof {
            lemma_mul_inequality(64, w as int, 1000);
            lemma_mul_inequality(64, h as int, 1000);
        }
        Agent {
            x: 10_000 + rng.below(20_000) as i64,
            y: 10_000 + rng.below(20_000) as i64,
            heading: rng.below(DIR_COUNT),
            state: AgentState::SeekPickup,
            timer: 0,
            history: Vec::new(),
            speed: 400 + rng.below(150) as i64,
        }
    }
}

/// Cosine of k direction steps, times 1000, for the first quarter turn.
pub open spec fn qc(k: int) -> int {
    if k <= 0 {
        1000
    } else if k == 1 {
        993
    } else if k == 2 {
        971
    } else if k == 3 {
        935
    } else if k == 4 {
        885
    } else if k == 5 {
        823
    } else if k == 6 {
        749
    } else if k == 7 {
        663
    } else if k == 8 {
        568
    } else if k == 9 {
        465
    } else if k == 10 {
        355
    } else if k == 11 {
        239
    } else if k == 12 {
        121
    } else {
        0
    }
}

/// X component of the unit vector of a heading, times 1000.
pub open spec fn dir_x_spec(hdg: int) -> int {
    if hdg <= 13 {
        qc(hdg)
    } else if hdg <= 26 {
        -qc(26 - hdg)
    } else if hdg <= 39 {
        -qc(hdg - 26)
    } else {
        qc(52 - hdg)
    }
}

/// Y component of the unit vector of a heading, times 1000.
pub open spec fn dir_y_spec(hdg: int) -> int {
    if hdg <= 13 {
        qc(13 - hdg)
    } else if hdg <= 26 {
        qc(hdg - 13)
    } else if hdg <= 39 {
        -qc(39 - hdg)
    } else {
        -qc(hdg - 39)
    }
}

fn quarter_cos(k: u64) -> (r: i64)
    requires
        k <= 13,
    ensures
        r as int == qc(k as int),
{
    if k == 0 {
        1000
    } else if k == 1 {
        993
    } else if k == 2 {
        971
    } else if k == 3 {
        935
    } else if k == 4 {
        885
    } else if k == 5 {
        823
    } else if k == 6 {
        749
    } else if k == 7 {
        663
    } else if k == 8 {
        568
    } else if k == 9 {
        465
    } else if k == 10 {
        355
    } else if k == 11 {
        239
    } else if k == 12 {
        121
    } else {
        0
    }
}

/// Unit direction vector of a heading, in milli-units.
pub fn dir_vec(hdg: u64) -> (r: (i64, i64))
    requires
        hdg < DIR_COUNT,
    ensures
        r.0 as int == dir_x_spec(hdg as int),
        r.1 as int == dir_y_spec(hdg as int),
        -1000 <= r.0 <= 1000,
        -1000 <= r.1 <= 1000,
{
    let dx = if hdg <= 13 {
        quarter_cos(hdg)
    } else if hdg <= 26 {
        -quarter_cos(26 - hdg)
    } else if hdg <= 39 {
        -quarter_cos(hdg - 26)
    } else {
        quarter_cos(52 - hdg)
    };
    let dy = if hdg <= 13 {
        quarter_cos(13 - hdg)
    } else if hdg <= 26 {
        quarter_cos(hdg - 13)
    } else if hdg <= 39 {
        -quarter_cos(39 - hdg)
    } else {
        -quarter_cos(hdg - 39)
    };
    (dx, dy)
}

/// Milli-unit advance along one axis: the direction component scaled by the
/// agent's speed, truncating toward zero as the fixed-point product does.
pub open spec fn step_len(dir: int, speed: int) -> int {
    if dir >= 0 {
        (dir * speed) / 1000
    } else {
        -(((-dir) * speed) / 1000)
    }
}

fn step_scaled(dir: i64, speed: i64) -> (r: i64)
    requires
        -1000 <= dir <= 1000,
        0 <= speed < 550,
    ensures
        r as int == step_len(dir as int, speed as int),
        -550 <= r <= 550,
{
    if dir >= 0 {
        proof {
            lemma_mul_upper_bound(dir as int, 1000, speed as int, 550);
            lemma_mul_nonnegative(dir as int, speed as int);
            lemma_scale_div_bound((dir as int) * (speed as int), 550);
        }
        let p = (dir as u64) * (speed as u64);
        (p / 1000) as i64
    } else {
        proof {
            lemma_mul_upper_bound((-dir) as int, 1000, speed as int, 550);
            lemma_mul_nonnegative((-dir) as int, speed as int);
            lemma_scale_div_bound(((-dir) as int) * (speed as int), 550);
        }
        let p = ((-dir) as u64) * (speed as u64);
        -((p / 1000) as i64)
    }
}

/// Flat index of the grid cell containing a milli-unit position.
fn cell_of(w: usize, h: usize, x: i64, y: i64) -> (i: usize)
    requires
        1 <= w <= 1024,
        1 <= h <= 1024,
        0 <= x < (w as int) * 1000,
        0 <= y < (h as int) * 1000,
    ensures
        i == cell_index(w as int, x as int, y as int),
        i < w * h,
{
    let gxu = (x as u64) / 1000;
    let gyu = (y as u64) / 1000;
    proof {
        lemma_scale_div_bound(x as int, (w as int) - 1 + 1);
        lemma_scale_div_bound(y as int, (h as int) - 1 + 1);
        assert((x as int) / 1000 < w as int) by {
            if (x as int) / 1000 >= w as int {
                lemma_mul_inequality(w as int, (x as int) / 1000, 1000);
                vstd::arithmetic::div_mod::lemma_fundamental_div_mod(x as int, 1000);
                vstd::arithmetic::div_mod::lemma_mod_bound(x as int, 1000);
                assert(((x as int) / 1000) * 1000 == 1000 * ((x as int) / 1000))
                    by (nonlinear_arith);
                assert((w as int) * 1000 == 1000 * (w as int)) by (nonlinear_arith);
            }
        }
        assert((y as int) / 1000 < h as int) by {
            if (y as int) / 1000 >= h as int {
                lemma_mul_inequality(h as int, (y as int) / 1000, 1000);
                vstd::arithmetic::div_mod::lemma_fundamental_div_mod(y as int, 1000);
                vstd::arithmetic::div_mod::lemma_mod_bound(y as int, 1000);
                assert(((y as int) / 1000) * 1000 == 1000 * ((y as int) / 1000))
                    by (nonlinear_arith);
                assert((h as int) * 1000 == 1000 * (h as int)) by (nonlinear_arith);
            }
        }
        lemma_size_bound(w as int, h as int);
        lemma_grid_index(w as int, h as int, gxu as int, gyu as int);
    }
    (gyu as usize) * w + (gxu as usize)
}

/// The grid an agent steers toward: pickup potential while seeking pickup,
/// delivery potential otherwise.
pub open spec fn target_grid(f: PhysarumField, s: AgentState) -> Seq<i64> {
    if s == AgentState::SeekPickup {
        f.pickup@
    } else {
        f.delivery@
    }
}

/// Desirability sensed six cell-widths ahead along a heading: a sentinel for
/// probes outside the grid (-1.0) or on obstacles (-5.0), otherwise the goal
/// potential plus 0.4 of the vein memory minus 3 times the crowding.
pub open spec fn sense_spec(f: PhysarumField, s: AgentState, x: int, y: int, hdg: int) -> int {
    let w = f.width as int;
    let h = f.height as int;
    let px = x + 6 * dir_x_spec(hdg);
    let py = y + 6 * dir_y_spec(hdg);
    if px < 0 || py < 0 || px >= w * 1000 || py >= h * 1000 {
        -1000
    } else {
        let i = cell_index(w, px, py);
        if obstructed(f.obstacles@, i) {
            -5000
        } else {
            at(target_grid(f, s), i) + (at(f.vein@, i) * 400) / 1000 - at(f.repulsion@, i) * 3
        }
    }
}

fn sense(f: &PhysarumField, s: AgentState, x: i64, y: i64, hdg: u64) -> (r: i64)
    requires
        f.wf(),
        hdg < DIR_COUNT,
        0 < x < (f.width as int) * 1000,
        0 < y < (f.height as int) * 1000,
    ensures
        r as int == sense_spec(*f, s, x as int, y as int, hdg as int),
{
    let w = f.width;
    let h = f.height;
    let (dx, dy) = dir_vec(hdg);
    let px = x + 6 * dx;
    let py = y + 6 * dy;
    if px < 0 || py < 0 || px >= (w as i64) * 1000 || py >= (h as i64) * 1000 {
        return -1000;
    }
    let i = cell_of(w, h, px, py);
    if f.obstacles[i] > 500 {
        return -5000;
    }
    let t = if s == AgentState::SeekPickup {
        f.pickup[i]
    } else {
        f.delivery[i]
    };
    let vn = (((f.vein[i] as u64) * 400) / 1000) as i64;
    proof {
        lemma_mul_upper_bound(f.vein@[i as int] as int, MAX_FIELD as int, 400, 400);
        lemma_mul_nonnegative(f.vein@[i as int] as int, 400);
        lemma_scale_div_bound((f.vein@[i as int] as int) * 400, 400 * (MAX_FIELD as int) / 1000);
    }
    t + vn - f.repulsion[i] * 3
}

/// Forward strictly worse than both side probes: no sensed direction is
/// informative, so steering becomes a random exploration turn.
pub open spec fn explore(fv: int, lv: int, rv: int) -> bool {
    fv < lv && fv < rv
}

/// Deterministic steering when not exploring: one fixed turn toward the
/// strictly better side probe, no turn on a tie.
pub open spec fn steered(hdg: int, lv: int, rv: int) -> int {
    if lv > rv {
        (hdg + 51) % 52
    } else if rv > lv {
        (hdg + 1) % 52
    } else {
        hdg
    }
}

/// Whether a candidate position may be committed: strictly inside the grid
/// and not inside an obstacle cell.
pub open spec fn move_ok(cx: int, cy: int, obst: Seq<i64>, w: int, h: int) -> bool {
    &&& 0 < cx < w * 1000
    &&& 0 < cy < h * 1000
    &&& !obstructed(obst, cell_index(w, cx, cy))
}

/// Path memory after appending one position: the oldest entry is evicted
/// once the cap is exceeded.
pub open spec fn capped_push(hist: Seq<(i64, i64)>, p: (i64, i64)) -> Seq<(i64, i64)> {
    let t = hist.push(p);
    if t.len() > HISTORY_CAP {
        t.subrange(1, t.len() as int)
    } else {
        t
    }
}

/// One vein deposit per remembered path position, oldest first.
pub open spec fn reinforce(v: Seq<i64>, hist: Seq<(i64, i64)>, w: int, h: int) -> Seq<i64>
    decreases hist.len(),
{
    if hist.len() == 0 {
        v
    } else {
        reinforce(
            deposit(v, w, h, hist[0].0 as int, hist[0].1 as int, VEIN_DEPOSIT as int),
            hist.subrange(1, hist.len() as int),
            w,
            h,
        )
    }
}

fn reinforce_path(vein: &mut Vec<i64>, w: usize, h: usize, hist: &Vec<(i64, i64)>)
    requires
        grid_ok(old(vein)@),
        old(vein)@.len() == w * h,
        1 <= w <= 1024,
        1 <= h <= 1024,
    ensures
        final(vein)@ == reinforce(old(vein)@, hist@, w as int, h as int),
        grid_ok(final(vein)@),
        final(vein)@.len() == old(vein)@.len(),
{
    let n = hist.len();
    proof {
        assert(hist@.subrange(0, n as int) =~= hist@);
    }
    for k in 0..n
        invariant
            n == hist@.len(),
            1 <= w <= 1024,
            1 <= h <= 1024,
            grid_ok(vein@),
            vein@.len() == w * h,
            reinforce(old(vein)@, hist@, w as int, h as int) == reinforce(
                vein@,
                hist@.subrange(k as int, n as int),
                w as int,
                h as int,
            ),
    {
        let p = hist[k];
        add_vein(vein, w, h, p.0, p.1, VEIN_DEPOSIT);
        proof {
            let tail = hist@.subrange(k as int, n as int);
            assert(tail[0] == hist@[k as int]);
            assert(tail.subrange(1, tail.len() as int) =~= hist@.subrange(k + 1, n as int));
        }
    }
    proof {
        assert(hist@.subrange(n as int, n as int).len() == 0);
    }
}

/// A delivery reinforces the vein once per remembered position: the path
/// recorded at the moment of delivery holds the whole previous memory plus
/// the delivery-tick position, capped at HISTORY_CAP entries with the oldest
/// evicted, so exactly that many deposits are written.
pub proof fn lemma_reinforcement_deposit_count(hist: Seq<(i64, i64)>, p: (i64, i64))
    requires
        hist.len() <= HISTORY_CAP,
    ensures
        capped_push(hist, p).len() == if hist.len() < HISTORY_CAP {
            hist.len() + 1
        } else {
            HISTORY_CAP as nat
        },
{
}

/// The dwell-tick state table: a finished Loading dwell starts the delivery
/// leg, a finished Unloading dwell starts a new pickup leg.
pub open spec fn dwell_state(s: AgentState, t_new: u32) -> AgentState {
    if s == AgentState::Loading && t_new == 0 {
        AgentState::SeekDelivery
    } else if s == AgentState::Unloading && t_new == 0 {
        AgentState::SeekPickup
    } else {
        s
    }
}

/// Everything a moving tick (dwell timer zero at entry) does to an agent, the
/// shared grids and the delivered counter. The steering draw is random, so
/// the committed heading is existentially quantified over the allowed turns;
/// everything after the move is pinned exactly: the deposit at the final
/// cell, the path memory, the state transition at the final cell, the vein
/// reinforcement and the delivered count.
pub open spec fn moved_agent_post(
    f0: PhysarumField,
    a0: Agent,
    f1: PhysarumField,
    a1: Agent,
    d0: u64,
    d1: u64,
) -> bool {
    let w = f0.width as int;
    let h = f0.height as int;
    let fv = sense_spec(f0, a0.state, a0.x as int, a0.y as int, a0.heading as int);
    let lv = sense_spec(f0, a0.state, a0.x as int, a0.y as int, ((a0.heading + 47) % 52) as int);
    let rv = sense_spec(f0, a0.state, a0.x as int, a0.y as int, ((a0.heading + 5) % 52) as int);
    let cell = cell_index(w, a1.x as int, a1.y as int);
    let fires = (a0.state == AgentState::SeekPickup && at(f0.pickup@, cell) > GOAL_THRESHOLD)
        || (a0.state == AgentState::SeekDelivery && at(f0.delivery@, cell) > GOAL_THRESHOLD);
    let pushed = if a0.state == AgentState::SeekDelivery {
        capped_push(a0.history@, (a1.x, a1.y))
    } else {
        a0.history@
    };
    &&& exists|h1: int|
        #![trigger dir_x_spec(h1)]
        0 <= h1 < 52 && (if explore(fv, lv, rv) {
            exists|k: int| 0 <= k < 13 && h1 == #[trigger] ((a0.heading + 46 + k) % 52)
        } else {
            h1 == steered(a0.heading as int, lv, rv)
        }) && ({
            let cx = a0.x + step_len(dir_x_spec(h1), a0.speed as int);
            let cy = a0.y + step_len(dir_y_spec(h1), a0.speed as int);
            if move_ok(cx, cy, f0.obstacles@, w, h) {
                a1.x == cx && a1.y == cy && a1.heading == h1
            } else {
                a1.x == a0.x && a1.y == a0.y && exists|k2: int|
                    0 <= k2 < 7 && a1.heading == #[trigger] ((h1 + 23 + k2) % 52)
            }
        })
    &&& a1.state == (if fires {
        if a0.state == AgentState::SeekPickup {
            AgentState::Loading
        } else {
            AgentState::Unloading
        }
    } else {
        a0.state
    })
    &&& a1.timer == (if fires {
        DWELL_TICKS
    } else {
        0u32
    })
    &&& a1.history@ == (if fires && a0.state == AgentState::SeekPickup {
        Seq::<(i64, i64)>::empty()
    } else {
        pushed
    })
    &&& a1.speed == a0.speed
    &&& f1.repulsion@ == deposit(
        f0.repulsion@,
        w,
        h,
        a1.x as int,
        a1.y as int,
        MOVE_DEPOSIT as int,
    )
    &&& f1.vein@ == (if fires && a0.state == AgentState::SeekDelivery {
        reinforce(f0.vein@, pushed, w, h)
    } else {
        f0.vein@
    })
    &&& d1 as int == d0 + (if fires && a0.state == AgentState::SeekDelivery {
        1int
    } else {
        0int
    })
}

/// Whether this tick completes a delivery for an agent: it entered the tick
/// free to move, on the delivery leg, and its final cell's delivery potential
/// is above the threshold.
pub open spec fn delivers(a0: Agent, a1: Agent, gd: Seq<i64>, w: int) -> bool {
    &&& a0.timer == 0
    &&& a0.state == AgentState::SeekDelivery
    &&& at(gd, cell_index(w, a1.x as int, a1.y as int)) > GOAL_THRESHOLD
}

/// Repulsion an agent radiates this tick: 0.6 while dwelling, 0.4 moving.
pub open spec fn tick_deposit(a0: Agent) -> int {
    if a0.timer > 0 {
        DWELL_DEPOSIT as int
    } else {
        MOVE_DEPOSIT as int
    }
}

/// The repulsion grid after the first n agents' deposits of one tick, each at
/// the agent's final position, in collection order; deposits into the same
/// cell all accumulate.
pub open spec fn repulsion_after_agents(
    rep: Seq<i64>,
    a0: Seq<Agent>,
    a1: Seq<Agent>,
    w: int,
    h: int,
    n: int,
) -> Seq<i64>
    decreases n,
{
    if n <= 0 {
        rep
    } else {
        deposit(
            repulsion_after_agents(rep, a0, a1, w, h, n - 1),
            w,
            h,
            a1[n - 1].x as int,
            a1[n - 1].y as int,
            tick_deposit(a0[n - 1]),
        )
    }
}

/// The vein grid after the first n agents of one tick: one whole-path
/// reinforcement per delivering agent, in collection order.
pub open spec fn vein_after_agents(
    v: Seq<i64>,
    a0: Seq<Agent>,
    a1: Seq<Agent>,
    gd: Seq<i64>,
    w: int,
    h: int,
    n: int,
) -> Seq<i64>
    decreases n,
{
    if n <= 0 {
        v
    } else {
        let prev = vein_after_agents(v, a0, a1, gd, w, h, n - 1);
        if delivers(a0[n - 1], a1[n - 1], gd, w) {
            reinforce(prev, capped_push(a0[n - 1].history@, (a1[n - 1].x, a1[n - 1].y)), w, h)
        } else {
            prev
        }
    }
}

/// How many of the first n agents complete a delivery this tick.
pub open spec fn deliveries_among(a0: Seq<Agent>, a1: Seq<Agent>, gd: Seq<i64>, w: int, n: int) -> int
    decreases n,
{
    if n <= 0 {
        0
    } else {
        deliveries_among(a0, a1, gd, w, n - 1) + (if delivers(a0[n - 1], a1[n - 1], gd, w) {
            1int
        } else {
            0int
        })
    }
}

/// The legal edges of the agent state machine: stay put, or take exactly one
/// transition of the table.
pub open spec fn legal_transition(s0: AgentState, s1: AgentState) -> bool {
    ||| s1 == s0
    ||| (s0 == AgentState::SeekPickup && s1 == AgentState::Loading)
    ||| (s0 == AgentState::Loading && s1 == AgentState::SeekDelivery)
    ||| (s0 == AgentState::SeekDelivery && s1 == AgentState::Unloading)
    ||| (s0 == AgentState::Unloading && s1 == AgentState::SeekPickup)
}

/// The one-tick folds read only the first n agents of either sequence.
pub proof fn lemma_folds_prefix(
    rep: Seq<i64>,
    v: Seq<i64>,
    a0: Seq<Agent>,
    b1: Seq<Agent>,
    c1: Seq<Agent>,
    gd: Seq<i64>,
    w: int,
    h: int,
    n: int,
)
    requires
        n <= b1.len(),
        n <= c1.len(),
        forall|i: int| 0 <= i < n ==> b1[i] == c1[i],
    ensures
        repulsion_after_agents(rep, a0, b1, w, h, n) == repulsion_after_agents(rep, a0, c1, w, h, n),
        vein_after_agents(v, a0, b1, gd, w, h, n) == vein_after_agents(v, a0, c1, gd, w, h, n),
        deliveries_among(a0, b1, gd, w, n) == deliveries_among(a0, c1, gd, w, n),
    decreases n,
{
    if n > 0 {
        lemma_folds_prefix(rep, v, a0, b1, c1, gd, w, h, n - 1);
    }
}

/// At most one delivery per agent per tick.
pub proof fn lemma_deliveries_among_bounds(a0: Seq<Agent>, a1: Seq<Agent>, gd: Seq<i64>, w: int, n: int)
    requires
        n >= 0,
    ensures
        0 <= deliveries_among(a0, a1, gd, w, n) <= n,
    decreases n,
{
    if n > 0 {
        lemma_deliveries_among_bounds(a0, a1, gd, w, n - 1);
    }
}

/// One tick of one agent: a dwelling agent only counts down its timer and
/// radiates crowding; a moving agent senses, steers, moves, deposits, records
/// its path and evaluates the state-machine transition at its final cell.
pub fn agent_tick(field: &mut PhysarumField, rng: &mut SimRng, a: &mut Agent, delivered: &mut u64)
    requires
        old(field).wf(),
        old(a).wf(old(field).width as int, old(field).height as int),
        *old(delivered) < u64::MAX,
    ensures
        final(field).wf(),
        final(field).width == old(field).width,
        final(field).height == old(field).height,
        final(field).pickup@ == old(field).pickup@,
        final(field).delivery@ == old(field).delivery@,
        final(field).obstacles@ == old(field).obstacles@,
        final(a).wf(old(field).width as int, old(field).height as int),
        final(a).speed == old(a).speed,
        *final(delivered) <= *old(delivered) + 1,
        old(a).timer > 0 ==> ({
            &&& final(a).x == old(a).x
            &&& final(a).y == old(a).y
            &&& final(a).timer == old(a).timer - 1
            &&& final(a).heading == old(a).heading
            &&& final(a).history@ == old(a).history@
            &&& final(a).state == dwell_state(old(a).state, (old(a).timer - 1) as u32)
            &&& final(field).repulsion@ == deposit(
                old(field).repulsion@,
                old(field).width as int,
                old(field).height as int,
                old(a).x as int,
                old(a).y as int,
                DWELL_DEPOSIT as int,
            )
            &&& final(field).vein@ == old(field).vein@
            &&& *final(delivered) == *old(delivered)
        }),
        old(a).timer == 0 ==> moved_agent_post(
            *old(field),
            *old(a),
            *final(field),
            *final(a),
            *old(delivered),
            *final(delivered),
        ),
{
    let w = field.width;
    let h = field.height;
    if a.timer > 0 {
        a.timer = a.timer - 1;
        add_repulsion(&mut field.repulsion, w, h, a.x, a.y, DWELL_DEPOSIT);
        if a.state == AgentState::Loading && a.timer == 0 {
            a.state = AgentState::SeekDelivery;
        } else if a.state == AgentState::Unloading && a.timer == 0 {
            a.state = AgentState::SeekPickup;
        }
        return ;
    }

    // Sense three directions against the current goal field.
    let fv = sense(field, a.state, a.x, a.y, a.heading);
    let lv = sense(field, a.state, a.x, a.y, (a.heading + 47) % 52);
    let rv = sense(field, a.state, a.x, a.y, (a.heading + 5) % 52);

    // Steer: random exploration when forward is strictly worst, otherwise a
    // fixed turn toward the better side.
    if fv < lv && fv < rv {
        let k = rng.below(13);
        a.heading = (a.heading + 46 + k) % 52;
    } else if lv > rv {
        a.heading = (a.heading + 51) % 52;
    } else if rv > lv {
        a.heading = (a.heading + 1) % 52;
    }

    // Candidate move along the (possibly updated) heading.
    let (dx, dy) = dir_vec(a.heading);
    let cx = a.x + step_scaled(dx, a.speed);
    let cy = a.y + step_scaled(dy, a.speed);
    let mut blocked = true;
    if cx > 0 && cy > 0 && cx < (w as i64) * 1000 && cy < (h as i64) * 1000 {
        let ci = cell_of(w, h, cx, cy);
        if field.obstacles[ci] <= 500 {
            blocked = false;
        }
    }
    if !blocked {
        a.x = cx;
        a.y = cy;
    } else {
        // Blocked: turn roughly around, with random jitter, to escape.
        let k2 = rng.below(7);
        a.heading = (a.heading + 23 + k2) % 52;
    }

    // The agent itself radiates crowding at its final cell.
    add_repulsion(&mut field.repulsion, w, h, a.x, a.y, MOVE_DEPOSIT);

    // Path memory while on the delivery leg.
    if a.state == AgentState::SeekDelivery {
        a.history.push((a.x, a.y));
        if a.history.len() > HISTORY_CAP {
            let ghost t = a.history@;
            let _ = a.history.remove(0);
            proof {
                assert(a.history@ =~= t.subrange(1, t.len() as int));
            }
        }
    }

    // State-machine transition at the final cell.
    let ci = cell_of(w, h, a.x, a.y);
    if a.state == AgentState::SeekPickup {
        if field.pickup[ci] > GOAL_THRESHOLD {
            a.state = AgentState::Loading;
            a.timer = DWELL_TICKS;
            a.history = Vec::new();
        }
    } else if a.state == AgentState::SeekDelivery {
        if field.delivery[ci] > GOAL_THRESHOLD {
            a.state = AgentState::Unloading;
            a.timer = DWELL_TICKS;
            reinforce_path(&mut field.vein, w, h, &a.history);
            *delivered = *delivered + 1;
        }
    }
}

} // verus!
