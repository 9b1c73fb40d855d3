//! A verified interpreter core for a fixed 8-bit virtual machine:
//! sixteen 8-bit registers, 4096 bytes of memory, a 64x32 monochrome
//! display, a call stack, two countdown timers and a 16-key input
//! surface. The library models the machine state and executes one
//! decoded instruction at a time; fetching, rendering, timer ticking
//! and key handling belong to an external driver.

pub mod cpu;
pub mod laws;
pub mod model;
pub mod op;

pub use cpu::Cpu;
pub use cpu::ExecError;
pub use op::Op;
