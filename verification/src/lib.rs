//! Navigation core of a micromouse-style maze solver: a fixed-size grid maze
//! with per-cell wall state, a flood-fill step map computed by relaxation, and
//! a sense-plan-act exploration loop that navigates an initially unknown maze.

pub mod maze;
pub mod navigator;
pub mod reader;
pub mod solver;
