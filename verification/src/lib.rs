//! Records RL training data: tag poses from a camera, and the actions a
//! policy sends to a motor, on one monotonic clock.
//!
//! This library holds what the programs decide and compute. The camera, the
//! serial port, the clock, the threads and the files are the programs' own.

pub mod atom;
pub mod camera;
pub mod chunk;
pub mod clock;
pub mod collect;
pub mod columns;
pub mod draw;
pub mod drive;
pub mod execute;
pub mod gray;
pub mod grid;
pub mod latest;
pub mod log;
pub mod mov;
pub mod perceive;
pub mod picture;
pub mod player;
pub mod policy;
pub mod record;
pub mod serial;
pub mod stats;
pub mod table;
pub mod text;
pub mod uvc;
pub mod video;
pub mod yuyv;
