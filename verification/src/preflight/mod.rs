//! Host capability detection ("preflight").
//!
//! Preflight answers "can this machine run a Windows guest, and if not, what
//! exactly should the user do about it?". Each check therefore yields a
//! [`Requirement`] carrying what was found and, where there is something to
//! do, the remedy — a bare `false` is not a useful error.
//!
//! The probes themselves read files and run programs, which the front end
//! does; everything here works on what they found.
use vstd::prelude::*;

pub mod cpu;
pub mod distro;
pub mod firmware;
pub mod kvm;
pub mod platform;
pub mod qemu;
pub mod sysroot;
pub mod tpm;
pub mod which;

pub use cpu::{parse_cpuinfo, Cpu, VirtExtension};
pub use distro::{parse_os_release, OsRelease, Package, PackageManager};
pub use firmware::{Firmware, FirmwarePair};
pub use kvm::{parse_group_name, Kvm};
pub use platform::{format_kib, parse_meminfo, Platform};
pub use qemu::{parse_version, Qemu, QemuBinary, Version, QEMU_IMG_BINARY, QEMU_SYSTEM_BINARY};
pub use sysroot::Sysroot;
pub use tpm::{Tpm, SWTPM_BINARY};

verus! {

/// Outcome of a single preflight check.
#[derive(Debug, Clone, Copy, PartialEq, Eq, Structural)]
pub enum Status {
    /// Requirement satisfied.
    Good,
    /// Usable, but degraded or suspicious. Does not block launching a VM.
    Warn,
    /// Hard blocker. A VM cannot be launched until this is resolved.
    Missing,
}

/// A single human-facing line of the preflight report.
#[derive(Debug, Clone)]
pub struct Requirement {
    /// Stable machine-readable identifier, safe for a GUI to match on.
    pub id: &'static str,
    pub title: &'static str,
    pub status: Status,
    /// What was actually found.
    pub detail: String,
    /// What the user should do about it, when there is something to do.
    pub remedy: Option<String>,
}

/// A requirement as plain values.
pub struct RequirementView {
    pub id: Seq<char>,
    pub title: Seq<char>,
    pub status: Status,
    pub detail: Seq<char>,
    pub remedy: Option<Seq<char>>,
}

impl View for Requirement {
    type V = RequirementView;

    open spec fn view(&self) -> RequirementView {
        RequirementView {
            id: self.id@,
            title: self.title@,
            status: self.status,
            detail: self.detail@,
            remedy: match self.remedy {
                Some(r) => Some(r@),
                None => None,
            },
        }
    }
}

impl Requirement {
    pub fn new(id: &'static str, title: &'static str, status: Status, detail: String) -> (r:
        Requirement)
        ensures
            r.id == id,
            r.title == title,
            r@ == (RequirementView {
                id: id@,
                title: title@,
                status,
                detail: detail@,
                remedy: None,
            }),
    {
        Requirement { id, title, status, detail, remedy: None }
    }

    pub fn with_remedy(self, remedy: String) -> (r: Requirement)
        ensures
            r.id == self.id,
            r.title == self.title,
            r@ == (RequirementView { remedy: Some(remedy@), ..self@ }),
    {
        Requirement { remedy: Some(remedy), ..self }
    }
}

/// The full set of preflight findings for a host.
#[derive(Debug, Clone)]
pub struct HostReport {
    pub platform: Platform,
    pub cpu: Cpu,
    pub kvm: Kvm,
    pub qemu: Qemu,
    pub firmware: Firmware,
    pub tpm: Tpm,
}

/// The files preflight reads, by canonical absolute path under the root.
pub const CPUINFO_FILE: &'static str = "/proc/cpuinfo";

pub const MEMINFO_FILE: &'static str = "/proc/meminfo";

pub const OS_RELEASE_FILE: &'static str = "/etc/os-release";

pub const KERNEL_RELEASE_FILE: &'static str = "/proc/sys/kernel/osrelease";

pub const GROUP_FILE: &'static str = "/etc/group";

/// What a front end found on the host, for [`HostReport::detect_in`].
#[derive(Debug)]
pub struct HostFacts {
    /// Whether this build targets Linux, and the operating system and
    /// architecture it targets.
    pub is_linux: bool,
    pub os: &'static str,
    pub arch: &'static str,
    /// The content of each file preflight reads, read under the root, or
    /// `None` when it could not be read.
    pub cpuinfo: Option<String>,
    pub meminfo: Option<String>,
    pub os_release: Option<String>,
    pub kernel_release: Option<String>,
    pub group_file: Option<String>,
    /// The KVM device's mode and owning group when it exists, and how
    /// opening it read/write went.
    pub kvm_device: Option<(u32, u32)>,
    pub kvm_open: kvm::DeviceOpen,
    /// The firmware table's files that exist under the root, by canonical
    /// path.
    pub existing_firmware: Vec<String>,
    /// What was found on `PATH`, which is never rebased: the user's real
    /// `PATH` is what will be used, and it is exactly where shadowing hides.
    pub qemu: Qemu,
    pub swtpm: Option<Vec<u8>>,
}

pub open spec fn req_views(v: Seq<Requirement>) -> Seq<RequirementView> {
    v.map_values(|r: Requirement| r@)
}

impl HostReport {
    pub open spec fn package_manager_spec(&self) -> PackageManager {
        distro::first_manager(distro::release_ids(self.platform.os_release@))
    }

    /// The report for a host, from what the front end read under `root`
    /// and found on `PATH`.
    pub fn detect_in(root: &Sysroot, facts: HostFacts) -> (r: HostReport)
        ensures
            platform::platform_detected(
                r.platform,
                facts.is_linux,
                facts.os,
                facts.arch,
                distro::opt_view(facts.kernel_release),
                distro::opt_view(facts.os_release),
                distro::opt_view(facts.meminfo),
            ),
            r.cpu@ == cpu::cpuinfo(
                match facts.cpuinfo {
                    Some(t) => t@,
                    None => Seq::empty(),
                },
            ),
            kvm::kvm_detected(
                r.kvm,
                facts.kvm_device,
                facts.kvm_open,
                distro::opt_view(facts.group_file),
            ),
            r.qemu == facts.qemu,
            firmware::pair_views(r.firmware.found@) == firmware::rebase_all(
                root.root_spec(),
                firmware::usable(firmware::candidate_table(), distro::string_views(facts.existing_firmware@)),
            ),
            r.tpm.swtpm == facts.swtpm,
    {
        let platform = Platform::detect_in(
            facts.is_linux,
            facts.os,
            facts.arch,
            distro::opt_as_str(&facts.kernel_release),
            distro::opt_as_str(&facts.os_release),
            distro::opt_as_str(&facts.meminfo),
        );
        let cpu = Cpu::detect_in(distro::opt_as_str(&facts.cpuinfo));
        let kvm = Kvm::detect_in(facts.kvm_device, facts.kvm_open, distro::opt_as_str(&facts.group_file));
        let firmware = Firmware::detect_in(root, &facts.existing_firmware);
        HostReport { platform, cpu, kvm, qemu: facts.qemu, firmware, tpm: Tpm { swtpm: facts.swtpm } }
    }

    /// The checklist, in the order it is shown.
    pub open spec fn requirements_spec(&self) -> Seq<RequirementView> {
        let pm = self.package_manager_spec();
        seq![
            self.platform.requirement_spec(),
            self.cpu.requirement_spec(),
            self.kvm.requirement_spec(&self.cpu),
            qemu::binary_requirement_spec(
                "qemu.system"@,
                "QEMU system emulator"@,
                QEMU_SYSTEM_BINARY@,
                self.qemu.system,
                pm,
            ),
            qemu::binary_requirement_spec(
                "qemu.img"@,
                "QEMU disk image tool"@,
                QEMU_IMG_BINARY@,
                self.qemu.img,
                pm,
            ),
            self.firmware.requirement_spec(pm),
            self.tpm.requirement_spec(pm),
        ]
    }

    /// True when nothing on the checklist is outright missing.
    pub open spec fn can_launch_spec(&self) -> bool {
        forall|i: int|
            0 <= i < self.requirements_spec().len() ==> (#[trigger] self.requirements_spec()[i]).status
                != Status::Missing
    }

    /// The report rendered as an ordered checklist.
    pub fn requirements(&self) -> (r: Vec<Requirement>)
        ensures
            req_views(r@) == self.requirements_spec(),
    {
        let pm = self.platform.package_manager();
        let r = vec![
            self.platform.requirement(),
            self.cpu.requirement(),
            self.kvm.requirement(&self.cpu),
            self.qemu.system_requirement(pm),
            self.qemu.img_requirement(pm),
            self.firmware.requirement(pm),
            self.tpm.requirement(pm),
        ];
        assert(req_views(r@) =~= self.requirements_spec());
        r
    }

    /// True when nothing is outright missing, i.e. a VM can be launched.
    pub fn can_launch(&self) -> (b: bool)
        ensures
            b == self.can_launch_spec(),
    {
        let reqs = self.requirements();
        let mut i: usize = 0;
        while i < reqs.len()
            invariant
                0 <= i <= reqs@.len(),
                req_views(reqs@) == self.requirements_spec(),
                forall|j: int| 0 <= j < i ==> (#[trigger] reqs@[j]).status != Status::Missing,
            decreases reqs@.len() - i,
        {
            if reqs[i].status == Status::Missing {
                assert(self.requirements_spec()[i as int] == reqs@[i as int]@);
                return false;
            }
            i += 1;
        }
        assert forall|j: int| 0 <= j < self.requirements_spec().len() implies (
        #[trigger] self.requirements_spec()[j]).status != Status::Missing by {
            assert(self.requirements_spec()[j] == reqs@[j]@);
        }
        true
    }

    /// True when the guest can use hardware acceleration rather than falling
    /// back to pure emulation.
    pub fn accelerated(&self) -> (b: bool)
        ensures
            b == self.kvm is Ready,
    {
        match self.kvm {
            Kvm::Ready => true,
            _ => false,
        }
    }
}

/// A VM can be launched exactly when the host is Linux, both QEMU binaries
/// were found and some UEFI firmware pair exists. Everything else the
/// checklist reports — no KVM, no virtualization extensions, an old or
/// unversioned QEMU, firmware without Secure Boot, no swtpm, a foreign
/// architecture — is a warning and never blocks a launch.
pub proof fn lemma_can_launch_exactly_when(host: HostReport)
    ensures
        host.can_launch_spec() <==> {
            &&& host.platform.is_linux
            &&& host.qemu.system is Some
            &&& host.qemu.img is Some
            &&& host.firmware.found@.len() > 0
        },
        host.requirements_spec()[1].status != Status::Missing,
        host.requirements_spec()[2].status != Status::Missing,
        host.requirements_spec()[6].status != Status::Missing,
{
    let r = host.requirements_spec();
    assert(r.len() == 7);
    if host.can_launch_spec() {
        assert(r[0].status != Status::Missing);
        assert(r[3].status != Status::Missing);
        assert(r[4].status != Status::Missing);
        assert(r[5].status != Status::Missing);
    }
}

/// A check never reports a problem without saying what to do about it:
/// every entry of the checklist that is not satisfied carries a remedy, and
/// every satisfied one carries none.
pub proof fn lemma_every_problem_comes_with_a_remedy(host: HostReport)
    ensures
        forall|i: int|
            0 <= i < host.requirements_spec().len() ==> ((#[trigger] host.requirements_spec()[i]).status
                != Status::Good <==> host.requirements_spec()[i].remedy is Some),
{
    let r = host.requirements_spec();
    assert(r.len() == 7);
    assert forall|i: int| 0 <= i < r.len() implies ((#[trigger] r[i]).status != Status::Good
        <==> r[i].remedy is Some) by {
        if i == 0 {
        } else if i == 1 {
        } else if i == 2 {
        } else if i == 3 {
        } else if i == 4 {
        } else if i == 5 {
        } else {
        }
    }
}

} // verus!
