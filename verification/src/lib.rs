//! The logic of a few small programs for a square LED display.
//!
//! The main one is an animation: markers travel across a grid of cells in
//! one of four headings and turn clockwise whenever the next cell would lie
//! outside the grid (`heading`, `step`, `grid`, `engine`, `tick_laws`).
//! Beside it stand a gauge that fills a frame LED by LED (`leds`), a
//! compass needle (`compass`) and a punch-o-meter (`punch`).
//!
//! Every item here is verified: the contracts say what each function
//! returns, and the public proof functions state the laws that hold of the
//! whole.  Nothing here touches a device; a program reads its sensors and
//! timers, asks the library what follows, and shows the frame.

pub mod compass;
pub mod engine;
pub mod grid;
pub mod heading;
pub mod leds;
pub mod punch;
pub mod step;
pub mod tick_laws;
