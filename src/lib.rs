//! A grid ray caster in exact integer arithmetic.
//!
//! The world is a rectangular grid of cell codes walled all round (`grid`).
//! Positions are fixed-point, `UNITS_PER_CELL` sub-units to a cell; angles are
//! tenths of a degree, with an integer sine (`angle`). A ray is traced cell by
//! cell with a digital differential analyzer (`dda`), the camera moves with
//! per-axis collision (`player`), and each screen column is projected to a wall
//! span with the fisheye correction (`render`) and drawn into a pixel buffer
//! (`framebuffer`, `scene`).
pub mod angle;
pub mod dda;
pub mod framebuffer;
pub mod grid;
pub mod player;
pub mod render;
pub mod scene;
