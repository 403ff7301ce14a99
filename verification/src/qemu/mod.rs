//! Driving `qemu-system-x86_64`: deciding what to run. Running it is the
//! front end's part.
pub mod args;

pub use args::build;
