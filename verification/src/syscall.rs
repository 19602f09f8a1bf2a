//! The syscall entry points. Each checks its raw arguments, hands the work
//! to the component that owns it, and turns the outcome into one machine
//! word: a negative value on any fault.

pub mod fs;
pub mod process;
