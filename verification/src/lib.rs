//! Verified core of two terminal toys: a system-information "fetch" screen
//! with a rotating heart, and an interactive heart physics sandbox.
//!
//! The library holds everything that is decided on integers and text:
//! parsing of the system files shown by the fetch screen, composition of
//! the coloured output rows, the game state machine of the sandbox, its
//! scoring rules, the collision broad phase, the panel texts and the
//! pseudo-random generator. Floating-point geometry and terminal I/O live
//! in the application around it.

pub mod decimal;
pub mod text;
pub mod sysinfo;
pub mod fetch_screen;
pub mod game;
pub mod broadphase;
pub mod lcg;
pub mod screen;
