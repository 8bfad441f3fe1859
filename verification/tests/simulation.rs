use physarum::agent::{Agent, AgentState};
use physarum::field::PhysarumField;
use physarum::rng::SimRng;
use physarum::sim::{run_simulation_bench, Simulation};

const W: usize = 128;
const H: usize = 128;
const N: usize = W * H;

fn idx(x: usize, y: usize) -> usize {
    y * W + x
}

/// A 128x128 field with border walls only: all grids zero, no random blocks.
fn empty_field() -> PhysarumField {
    let mut obstacles = vec![0i64; N];
    for x in 0..W {
        obstacles[idx(x, 0)] = 1000;
        obstacles[idx(x, H - 1)] = 1000;
    }
    for y in 0..H {
        obstacles[idx(0, y)] = 1000;
        obstacles[idx(W - 1, y)] = 1000;
    }
    PhysarumField {
        pickup: vec![0i64; N],
        delivery: vec![0i64; N],
        repulsion: vec![0i64; N],
        vein: vec![0i64; N],
        obstacles,
        width: W,
        height: H,
    }
}

/// Walls an axis-aligned box leaving the given cells free.
fn wall_box(f: &mut PhysarumField, x0: usize, y0: usize, x1: usize, y1: usize, free: &[(usize, usize)]) {
    for y in y0..=y1 {
        for x in x0..=x1 {
            if !free.contains(&(x, y)) {
                f.obstacles[idx(x, y)] = 1000;
            }
        }
    }
}

fn boxed_agent_sim(state: AgentState, x: i64, y: i64, history: Vec<(i64, i64)>) -> Simulation {
    let mut field = empty_field();
    // Box both pickup emitter cells (12, 12)-(12, 13) and both delivery
    // emitter cells (116, 115)-(116, 116) so a boxed agent cannot escape.
    wall_box(&mut field, 11, 11, 13, 14, &[(12, 12), (12, 13)]);
    wall_box(&mut field, 115, 114, 117, 117, &[(116, 115), (116, 116)]);
    let agent = Agent {
        x,
        y,
        heading: 0,
        state,
        timer: 0,
        history,
        speed: 400,
    };
    Simulation {
        field,
        agents: vec![agent],
        delivered_count: 0,
        rng: SimRng::from_seed(7),
    }
}

#[test]
fn diffusion_window_mass_is_conserved_up_to_decay() {
    // A point of mass away from walls and emitters: after one step the mass
    // in the surrounding window is exactly the old mass scaled by the 0.95
    // decay factor — the stencil itself moves mass without creating any.
    let mut sim = boxed_agent_sim(AgentState::SeekPickup, 64500, 64500, Vec::new());
    sim.agents.clear();
    sim.field.pickup[idx(32, 32)] = 900_000;
    sim.update();
    let mut window: i64 = 0;
    for y in 28..=36 {
        for x in 28..=36 {
            window += sim.field.pickup[idx(x, y)];
        }
    }
    assert_eq!(window, 855_000);
    // The stencil formula exactly: the centre keeps 0.4 of its mass and each
    // neighbour receives 0.15, all scaled by the 0.95 decay.
    assert_eq!(sim.field.pickup[idx(32, 32)], 342_000);
    assert_eq!(sim.field.pickup[idx(33, 32)], 128_250);
    assert_eq!(sim.field.pickup[idx(32, 31)], 128_250);
}

#[test]
fn repulsion_and_vein_decay_formulas_are_exact() {
    let mut sim = boxed_agent_sim(AgentState::SeekPickup, 64_500, 64_500, Vec::new());
    sim.agents.clear();
    sim.field.repulsion[idx(80, 80)] = 1_000_000;
    sim.field.vein[idx(90, 90)] = 1_000_000;
    sim.update();
    // Repulsion diffuses into zero neighbours and keeps 0.85: 0.4 * 0.85.
    assert_eq!(sim.field.repulsion[idx(80, 80)], 340_000);
    // Vein does not diffuse, only decays by 0.003.
    assert_eq!(sim.field.vein[idx(90, 90)], 997_000);
    assert_eq!(sim.field.vein[idx(91, 90)], 0);
}

#[test]
fn fields_stay_non_negative_and_bounded() {
    let mut sim = Simulation::new_seeded(40, 12345);
    for _ in 0..150 {
        sim.update();
    }
    let grids = [
        sim.get_pickup_ptr(),
        sim.get_delivery_ptr(),
        sim.get_repulsion_ptr(),
        sim.get_vein_ptr(),
        sim.get_obstacles_ptr(),
    ];
    for g in grids {
        for &v in g.iter() {
            assert!(v >= 0);
            assert!(v <= 1_000_000);
        }
    }
}

#[test]
fn obstacle_repulsion_forced_to_one() {
    let mut sim = boxed_agent_sim(AgentState::SeekPickup, 64500, 64500, Vec::new());
    sim.agents.clear();
    // An interior obstacle with arbitrary prior values in every grid.
    let c = idx(60, 60);
    sim.field.obstacles[c] = 1000;
    sim.field.repulsion[c] = 7;
    sim.field.pickup[c] = 11;
    sim.field.delivery[c] = 13;
    sim.field.vein[c] = 17;
    sim.update();
    // Repulsion is forced to exactly 1.0; no diffusion or decay ever touches
    // the other grids on an obstacle cell.
    assert_eq!(sim.field.repulsion[c], 1000);
    assert_eq!(sim.field.pickup[c], 11);
    assert_eq!(sim.field.delivery[c], 13);
    assert_eq!(sim.field.vein[c], 17);
    sim.update();
    assert_eq!(sim.field.repulsion[c], 1000);
}

#[test]
fn dwelling_agent_is_stationary_and_timer_counts_down() {
    let mut sim = boxed_agent_sim(AgentState::SeekDelivery, 116_500, 116_500, Vec::new());
    sim.update();
    // The agent delivered and now dwells.
    assert_eq!(sim.agents[0].state, AgentState::Unloading);
    assert_eq!(sim.agents[0].timer, 50);
    let (px, py) = (sim.agents[0].x, sim.agents[0].y);
    for expected in (0..50).rev() {
        sim.update();
        assert_eq!(sim.agents[0].x, px);
        assert_eq!(sim.agents[0].y, py);
        assert_eq!(sim.agents[0].timer, expected);
    }
    assert_eq!(sim.agents[0].state, AgentState::SeekPickup);
}

#[test]
fn delivery_increments_count_once_and_reinforces_whole_history() {
    let history = vec![(40_500i64, 40_500i64), (41_500, 40_500), (42_500, 40_500)];
    let mut sim = boxed_agent_sim(AgentState::SeekDelivery, 116_500, 116_500, history);
    sim.update();
    assert_eq!(sim.get_delivered_count(), 1);
    assert_eq!(sim.agents[0].state, AgentState::Unloading);
    assert_eq!(sim.agents[0].timer, 50);
    // One 0.35 deposit per remembered position: the three given ones plus the
    // position recorded on the delivery tick itself.
    assert_eq!(sim.field.vein[idx(40, 40)], 350);
    assert_eq!(sim.field.vein[idx(41, 40)], 350);
    assert_eq!(sim.field.vein[idx(42, 40)], 350);
    let total: i64 = sim.field.vein.iter().sum();
    assert_eq!(total, 4 * 350);
    // No further delivery while unloading.
    sim.update();
    assert_eq!(sim.get_delivered_count(), 1);
}

#[test]
fn resize_up_then_down_restores_count() {
    let mut sim = Simulation::new_seeded(5, 99);
    assert_eq!(sim.agents.len(), 5);
    sim.resize_agents(20);
    assert_eq!(sim.agents.len(), 20);
    sim.resize_agents(5);
    assert_eq!(sim.agents.len(), 5);
}

#[test]
fn resize_preserves_survivors_and_spawns_fresh_seekers() {
    let mut sim = Simulation::new_seeded(3, 4);
    let before: Vec<(i64, i64)> = sim.agents.iter().map(|a| (a.x, a.y)).collect();
    sim.resize_agents(6);
    for (i, &(x, y)) in before.iter().enumerate() {
        assert_eq!(sim.agents[i].x, x);
        assert_eq!(sim.agents[i].y, y);
    }
    for i in 3..6 {
        assert_eq!(sim.agents[i].state, AgentState::SeekPickup);
        assert_eq!(sim.agents[i].timer, 0);
        assert!(sim.agents[i].history.is_empty());
        assert!(sim.agents[i].x >= 10_000 && sim.agents[i].x < 30_000);
        assert!(sim.agents[i].y >= 10_000 && sim.agents[i].y < 30_000);
        assert!(sim.agents[i].speed >= 400 && sim.agents[i].speed < 550);
        assert!(sim.agents[i].heading < 52);
    }
}

#[test]
fn pickup_scenario_loading_then_seek_delivery_without_moving() {
    // One agent standing on the boxed pickup emitter cell, no obstacles in
    // its free cells: the first tick raises pickup past the threshold there.
    let mut sim = boxed_agent_sim(AgentState::SeekPickup, 12_500, 12_500, Vec::new());
    let mut loaded_at: Option<(i64, i64)> = None;
    for _ in 0..5 {
        sim.update();
        if sim.agents[0].state == AgentState::Loading {
            loaded_at = Some((sim.agents[0].x, sim.agents[0].y));
            break;
        }
    }
    let (lx, ly) = loaded_at.expect("agent never started loading");
    assert_eq!(sim.agents[0].timer, 50);
    for _ in 0..50 {
        sim.update();
    }
    assert_eq!(sim.agents[0].state, AgentState::SeekDelivery);
    assert_eq!(sim.agents[0].x, lx);
    assert_eq!(sim.agents[0].y, ly);
    assert_eq!(sim.agents[0].timer, 0);
}

#[test]
fn randomize_map_resets_delivered_count_and_walls_border() {
    let mut sim = boxed_agent_sim(AgentState::SeekDelivery, 116_500, 116_500, Vec::new());
    sim.update();
    assert_eq!(sim.get_delivered_count(), 1);
    let repulsion_before = sim.field.repulsion.clone();
    sim.randomize_map();
    assert_eq!(sim.get_delivered_count(), 0);
    let obstacles = sim.get_obstacles_ptr();
    for x in 0..W {
        assert_eq!(obstacles[idx(x, 0)], 1000);
        assert_eq!(obstacles[idx(x, H - 1)], 1000);
    }
    for y in 0..H {
        assert_eq!(obstacles[idx(0, y)], 1000);
        assert_eq!(obstacles[idx(W - 1, y)], 1000);
    }
    // Crowding does not reset on a map change; agents survive.
    assert_eq!(sim.field.repulsion, repulsion_before);
    assert_eq!(sim.agents.len(), 1);
}

#[test]
fn emitters_are_forced_every_tick() {
    let mut sim = boxed_agent_sim(AgentState::SeekPickup, 64_500, 64_500, Vec::new());
    sim.agents.clear();
    for _ in 0..3 {
        sim.update();
    }
    // The emitter cells hold the diffused remnant of the forced value and
    // stay well above the pickup threshold.
    assert!(sim.field.pickup[idx(12, 12)] > 2500);
    assert!(sim.field.delivery[idx(116, 116)] > 2500);
}

#[test]
fn agents_flat_snapshot_and_truncation() {
    let mut sim = Simulation::new_seeded(3, 21);
    let mut out = vec![-7i64; 12];
    sim.get_agents_flat(&mut out);
    for i in 0..3 {
        assert_eq!(out[4 * i], sim.agents[i].x);
        assert_eq!(out[4 * i + 1], sim.agents[i].y);
        assert_eq!(out[4 * i + 2], 0); // SeekPickup
        assert_eq!(out[4 * i + 3], sim.agents[i].heading as i64);
    }
    // A buffer with room for only one full group: the rest is untouched.
    let mut small = vec![-7i64; 6];
    sim.get_agents_flat(&mut small);
    assert_eq!(small[0], sim.agents[0].x);
    assert_eq!(small[1], sim.agents[0].y);
    assert_eq!(small[4], -7);
    assert_eq!(small[5], -7);
}

#[test]
fn seeded_runs_replay_exactly() {
    let mut a = Simulation::new_seeded(10, 2024);
    let mut b = Simulation::new_seeded(10, 2024);
    for _ in 0..30 {
        a.update();
        b.update();
    }
    assert_eq!(a.field.pickup, b.field.pickup);
    assert_eq!(a.field.vein, b.field.vein);
    assert_eq!(a.get_delivered_count(), b.get_delivered_count());
    for i in 0..10 {
        assert_eq!(a.agents[i].x, b.agents[i].x);
        assert_eq!(a.agents[i].y, b.agents[i].y);
        assert_eq!(a.agents[i].heading, b.agents[i].heading);
    }
}

#[test]
fn bench_entry_runs_and_bounds_deliveries() {
    let delivered = run_simulation_bench(20, 4);
    assert!(delivered <= 80);
}

#[test]
fn rng_below_stays_in_range() {
    let mut rng = SimRng::from_seed(1);
    for n in 1..40u64 {
        for _ in 0..50 {
            assert!(rng.below(n) < n);
        }
    }
}

#[test]
fn deposits_saturate_and_ignore_out_of_bounds() {
    let mut grid = vec![999_900i64; 16];
    physarum::field::add_repulsion(&mut grid, 4, 4, 1_500, 1_500, 400);
    assert_eq!(grid[4 + 1], 1_000_000);
    let before = grid.clone();
    physarum::field::add_repulsion(&mut grid, 4, 4, -1, 1_500, 400);
    physarum::field::add_repulsion(&mut grid, 4, 4, 1_500, 4_000, 400);
    assert_eq!(grid, before);
}

#[test]
fn history_is_capped_at_three_hundred() {
    // A boxed agent on the delivery leg appends one position per tick and
    // never exceeds the cap.
    let mut field = empty_field();
    wall_box(&mut field, 59, 59, 61, 61, &[(60, 60)]);
    let agent = Agent {
        x: 60_500,
        y: 60_500,
        heading: 0,
        state: AgentState::SeekDelivery,
        timer: 0,
        history: Vec::new(),
        speed: 400,
    };
    let mut sim = Simulation {
        field,
        agents: vec![agent],
        delivered_count: 0,
        rng: SimRng::from_seed(3),
    };
    for _ in 0..320 {
        sim.update();
        assert!(sim.agents[0].history.len() <= 300);
    }
    assert_eq!(sim.agents[0].history.len(), 300);
}

#[test]
fn zero_agents_simulation_ticks() {
    let mut sim = Simulation::new_seeded(0, 8);
    for _ in 0..5 {
        sim.update();
    }
    assert_eq!(sim.get_delivered_count(), 0);
    assert_eq!(sim.agents.len(), 0);
}

#[test]
fn randomized_layout_stamps_blocks_well_inside() {
    let sim = Simulation::new_seeded(0, 31);
    let obstacles = sim.get_obstacles_ptr();
    let mut interior_walls = 0usize;
    for y in 1..H - 1 {
        for x in 1..W - 1 {
            if obstacles[idx(x, y)] == 1000 {
                interior_walls += 1;
                // Blocks come only from the tuned stamp ranges.
                assert!(x >= 20 && x <= W - 23);
                assert!(y >= 20 && y <= H - 23);
            }
        }
    }
    // At least twelve 5x5 blocks were stamped (overlaps can merge them).
    assert!(interior_walls >= 25);
    // The four emitter cells are never walled.
    assert_eq!(obstacles[idx(12, 12)], 0);
    assert_eq!(obstacles[idx(12, 13)], 0);
    assert_eq!(obstacles[idx(W - 12, H - 12)], 0);
    assert_eq!(obstacles[idx(W - 12, H - 13)], 0);
}
