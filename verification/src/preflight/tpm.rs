//! Discovery of `swtpm`, the software TPM 2.0 emulator.
//!
//! Windows 11 checks for a TPM 2.0 during setup and refuses to install without
//! one. QEMU does not emulate a TPM itself; it talks to an external emulator
//! over a socket, and `swtpm` is that emulator.
//!
//! Its absence is a **warning, not a blocker**: a VM still starts and Windows
//! 10 installs perfectly well without it.
use vstd::prelude::*;

use super::distro::{install_hint_spec, Package, PackageManager};
use super::{Requirement, RequirementView, Status};
use crate::text::{decode_lossy, owned, push_str, utf8_lossy};

verus! {

broadcast use vstd::string::group_string_axioms;

pub const SWTPM_BINARY: &'static str = "swtpm";

pub const SWTPM_REMEDY_PREFIX: &'static str =
    "Windows 11 requires a TPM 2.0 and will refuse to install without one; Windows 10 guests are unaffected: ";

#[derive(Debug, Clone)]
pub struct Tpm {
    /// Resolved path to `swtpm`, reported so `PATH` shadowing is visible.
    /// The report shows it decoded as UTF-8, lossily.
    pub swtpm: Option<Vec<u8>>,
}

impl Tpm {
    pub open spec fn requirement_spec(&self, pm: PackageManager) -> RequirementView {
        match self.swtpm {
            Some(path) => RequirementView {
                id: "tpm.swtpm"@,
                title: "TPM 2.0 emulator (swtpm)"@,
                status: Status::Good,
                detail: utf8_lossy(path@),
                remedy: None,
            },
            None => RequirementView {
                id: "tpm.swtpm"@,
                title: "TPM 2.0 emulator (swtpm)"@,
                status: Status::Warn,
                detail: "`swtpm` was not found on PATH"@,
                remedy: Some(SWTPM_REMEDY_PREFIX@ + install_hint_spec(pm, Package::Swtpm)),
            },
        }
    }

    pub fn available(&self) -> (b: bool)
        ensures
            b == self.swtpm is Some,
    {
        self.swtpm.is_some()
    }

    pub fn requirement(&self, pm: PackageManager) -> (r: Requirement)
        ensures
            r@ == self.requirement_spec(pm),
    {
        match &self.swtpm {
            Some(path) => Requirement::new(
                "tpm.swtpm",
                "TPM 2.0 emulator (swtpm)",
                Status::Good,
                decode_lossy(path.as_slice()),
            ),
            None => {
                let mut remedy = owned(SWTPM_REMEDY_PREFIX);
                let hint = pm.install_hint(Package::Swtpm);
                push_str(&mut remedy, hint.as_str());
                Requirement::new(
                    "tpm.swtpm",
                    "TPM 2.0 emulator (swtpm)",
                    Status::Warn,
                    owned("`swtpm` was not found on PATH"),
                ).with_remedy(remedy)
            },
        }
    }
}

} // verus!
