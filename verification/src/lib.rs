//! Slime-mold transport-network simulation: diffusing chemical potential
//! fields on a dense grid, and a swarm of foraging agents that sense the
//! fields, steer, and reinforce a persistent vein trail on each completed
//! delivery. All field values and positions are fixed-point integers in
//! thousandths (milli-units), so one grid cell spans 1000 position units
//! and a field value of 1000 stands for one unit of potential.

pub mod agent;
pub mod field;
pub mod laws;
pub mod rng;
pub mod sim;
