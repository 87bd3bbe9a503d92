//! Minimum-cost route planning for an agent that moves on a cubic integer grid.
//!
//! The agent moves by commands: a straight run along an axis, or two straight legs in
//! one command. A [`bfs::BFS`] planner searches, cheapest first, the states made of a
//! grid point and the direction of arrival, and records for every state it reaches the
//! least cost and the state from which the last command set out. From these records
//! it reads off the commands that lead to a point.
//!
//! - [`point`], [`command`], [`cost`] and [`state`] hold the data types;
//! - [`queue`] holds the priority queue of the search;
//! - [`scene`] and [`model`] say what a search is run against and what it leaves in
//!   the planner;
//! - [`bfs`] holds the planner itself;
//! - [`route`] defines the commands that the records stand for;
//! - [`steps`] proves that the search keeps its invariant, and [`laws`] states what
//!   follows for every search and every route.

pub mod bfs;
pub mod command;
pub mod cost;
pub mod laws;
pub mod model;
pub mod point;
pub mod queue;
pub mod route;
pub mod scene;
pub mod state;
pub mod steps;
