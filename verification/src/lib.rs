//! Simulation core of a turn-based dungeon crawler: procedural dungeon
//! generation (rooms, tunnels, population) and the per-turn entity engine
//! (AI state machine, movement, combat resolution).
#![verifier::loop_isolation(false)]

pub mod ai;
pub mod connectivity;
pub mod controls;
pub mod dungeon;
pub mod environment;
pub mod gui;
pub mod nature;
pub mod objects;
pub mod rng;
pub mod text;
pub mod tiles;
