//! Conway's Game of Life on a finite grid: cells, points, boards, the
//! one-generation rule, and parsers for the two board file formats.

pub mod cell;
pub mod point;
pub mod text;
pub mod board;
pub mod metadata;
pub mod parser;
pub mod load;
pub mod simulation;
