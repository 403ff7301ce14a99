//! Core orchestration logic for running Windows guests on Linux with QEMU,
//! KVM and OVMF.
//!
//! The modules stack from the host upwards:
//!
//! - [`preflight`] — what this machine can do, and what to install if it cannot
//! - [`config`] — what a virtual machine is, and the rules for a valid one
//! - [`paths`] — where virtual machines live on disk
//! - [`disk`] — the `qemu-img` invocation that creates a qcow2 image
//! - [`qemu`] — building a QEMU command line
//! - [`tpm`] — the software TPM 2.0 Windows 11 insists on
//! - [`vm`] — the lifecycle that ties those together
//! - [`render`] — text layout shared by front ends
//!
//! Everything here is pure: it decides what to do and which command lines to
//! run, and a front end performs the reads, writes and process launches.

pub mod config;
pub mod disk;
pub mod error;
pub mod paths;
pub mod preflight;
pub mod qemu;
pub mod render;
pub mod text;
pub mod tpm;
pub mod vm;

pub use error::Error;
pub use vm::Vm;
