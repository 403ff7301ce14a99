//! KVM availability.
//!
//! KVM is an *acceleration* dependency, not a hard one: QEMU will fall back to
//! TCG emulation. That fallback makes a Windows guest unusable in practice,
//! so its absence is reported loudly — but it does not block launching.
use vstd::prelude::*;

use super::cpu::Cpu;
use super::{Requirement, RequirementView, Status};
use crate::text::{
    chars_of, find, find_in, lines, lines_of, owned, parse_u32, parse_u32_range,
    push_str, string_of, views, Stop,
};

verus! {

broadcast use vstd::string::group_string_axioms;

/// Canonical location of the KVM character device.
pub const KVM_DEVICE: &'static str = "/dev/kvm";

#[derive(Debug, Clone)]
pub enum Kvm {
    /// The device exists and this process can open it read/write.
    Ready,
    /// The device exists but this user cannot open it, almost always a group
    /// membership problem.
    PermissionDenied {
        /// Octal permission bits, e.g. `660`.
        mode: String,
        /// Owning group name, resolved from `/etc/group` when possible.
        group: Option<String>,
    },
    /// No `/dev/kvm` at all: the `kvm` kernel modules are not loaded, or the
    /// CPU has no virtualization extensions to drive them.
    DeviceMissing,
    /// The device exists but failed to open for some other reason.
    Unavailable { message: String },
}

pub const KVM_MODULE_REMEDY: &'static str =
    "load the KVM kernel module (`sudo modprobe kvm_intel` or `sudo modprobe kvm_amd`); if that fails, virtualization is most likely disabled in your BIOS/UEFI setup";

pub const KVM_BUSY_REMEDY: &'static str =
    "check that no other hypervisor (VirtualBox, VMware) holds the device";

/// The octal digits of `n`, as `{:o}` writes them.
pub open spec fn octal(n: nat) -> Seq<char>
    decreases n,
{
    if n < 8 {
        seq![crate::text::digit_char(n)]
    } else {
        octal(n / 8).push(crate::text::digit_char(n % 8))
    }
}

fn push_octal(s: &mut String, n: u32)
    ensures
        final(s)@ == old(s)@ + octal(n as nat),
    decreases n,
{
    if n >= 8 {
        push_octal(s, n / 8);
    }
    let mut digit = owned("");
    crate::text::push_decimal(&mut digit, (n % 8) as u64);
    proof {
        reveal_strlit("");
        assert(crate::text::decimal((n % 8) as nat) =~= seq![crate::text::digit_char((n % 8) as nat)]);
    }
    push_str(s, digit.as_str());
    proof {
        if n >= 8 {
            assert(final(s)@ =~= old(s)@ + octal(n as nat));
        } else {
            assert((n % 8) as nat == n as nat);
            assert(final(s)@ =~= old(s)@ + octal(n as nat));
        }
    }
}

/// How opening the device read/write went.
#[derive(Debug)]
pub enum DeviceOpen {
    Opened,
    PermissionDenied,
    /// Any other failure, with the operating system's message.
    Failed(String),
}

/// The state of the KVM device, given its mode and owning group when it
/// exists, how opening it read/write went, and the content of `/etc/group`
/// when it could be read.
pub open spec fn kvm_detected(
    k: Kvm,
    metadata: Option<(u32, u32)>,
    open: DeviceOpen,
    group_file: Option<Seq<char>>,
) -> bool {
    match metadata {
        None => k is DeviceMissing,
        Some((mode, gid)) => match open {
            DeviceOpen::Opened => k is Ready,
            DeviceOpen::PermissionDenied => k matches Kvm::PermissionDenied { mode: m, group }
                && m@ == octal((mode % 512) as nat) && crate::preflight::distro::opt_view(group)
                == match group_file {
                Some(text) => group_lookup(text, gid),
                None => None,
            },
            DeviceOpen::Failed(message) => k matches Kvm::Unavailable { message: m } && m
                == message,
        },
    }
}

impl Kvm {
    /// The state of the KVM device, given its mode and owning group when it
    /// exists (`None` when it does not), how opening it read/write went, and
    /// the content of `/etc/group` when it could be read. Opening the device
    /// is exactly what QEMU does, and is the only reliable permission test:
    /// mode bits alone miss ACLs.
    pub fn detect_in(metadata: Option<(u32, u32)>, open: DeviceOpen, group_file: Option<&str>) -> (k:
        Kvm)
        ensures
            kvm_detected(k, metadata, open, crate::paths::opt_str(group_file)),
    {
        match metadata {
            None => Kvm::DeviceMissing,
            Some((mode, gid)) => match open {
                DeviceOpen::Opened => Kvm::Ready,
                DeviceOpen::PermissionDenied => Kvm::permission_denied(mode, gid, group_file),
                DeviceOpen::Failed(message) => Kvm::Unavailable { message },
            },
        }
    }

    /// What to report when opening the device was refused: the permission bits
    /// of its mode, in octal, and the name of its owning group from the
    /// content of `/etc/group`, when that could be read and names the group.
    pub fn permission_denied(mode: u32, gid: u32, group_file: Option<&str>) -> (k: Kvm)
        ensures
            k matches Kvm::PermissionDenied { mode: m, group } && m@ == octal((mode % 512) as nat)
                && crate::preflight::distro::opt_view(group) == match group_file {
                Some(text) => group_lookup(text@, gid),
                None => None,
            },
    {
        let mut m = owned("");
        proof {
            reveal_strlit("");
        }
        push_octal(&mut m, mode % 512);
        let group = match group_file {
            Some(text) => parse_group_name(text, gid),
            None => None,
        };
        Kvm::PermissionDenied { mode: m, group }
    }

    pub open spec fn requirement_spec(&self, cpu: &Cpu) -> RequirementView {
        match self {
            Kvm::Ready => RequirementView {
                id: "kvm.device"@,
                title: "KVM acceleration"@,
                status: Status::Good,
                detail: "/dev/kvm is present and writable"@,
                remedy: None,
            },
            Kvm::PermissionDenied { mode, group } => {
                let g = match group {
                    Some(g) => g@,
                    None => "kvm"@,
                };
                RequirementView {
                    id: "kvm.device"@,
                    title: "KVM acceleration"@,
                    status: Status::Warn,
                    detail: "/dev/kvm exists (mode "@ + mode@ + ", group `"@ + g
                        + "`) but is not writable by this user"@,
                    remedy: Some(
                        "add your account to the `"@ + g + "` group and log back in: sudo usermod -aG "@
                            + g + " $USER"@,
                    ),
                }
            },
            Kvm::DeviceMissing => if cpu.virt is None {
                RequirementView {
                    id: "kvm.device"@,
                    title: "KVM acceleration"@,
                    status: Status::Warn,
                    detail: "/dev/kvm is absent because the CPU reports no virtualization extensions"@,
                    remedy: Some("resolve the CPU virtualization check above first"@),
                }
            } else {
                RequirementView {
                    id: "kvm.device"@,
                    title: "KVM acceleration"@,
                    status: Status::Warn,
                    detail: "/dev/kvm is absent although the CPU supports virtualization"@,
                    remedy: Some(KVM_MODULE_REMEDY@),
                }
            },
            Kvm::Unavailable { message } => RequirementView {
                id: "kvm.device"@,
                title: "KVM acceleration"@,
                status: Status::Warn,
                detail: "/dev/kvm: "@ + message@,
                remedy: Some(KVM_BUSY_REMEDY@),
            },
        }
    }

    pub fn requirement(&self, cpu: &Cpu) -> (r: Requirement)
        ensures
            r@ == self.requirement_spec(cpu),
            r@.status != Status::Missing,
    {
        match self {
            Kvm::Ready => Requirement::new(
                "kvm.device",
                "KVM acceleration",
                Status::Good,
                owned("/dev/kvm is present and writable"),
            ),
            Kvm::PermissionDenied { mode, group } => {
                let g: &str = match group {
                    Some(g) => g.as_str(),
                    None => "kvm",
                };
                let mut detail = owned("/dev/kvm exists (mode ");
                push_str(&mut detail, mode.as_str());
                push_str(&mut detail, ", group `");
                push_str(&mut detail, g);
                push_str(&mut detail, "`) but is not writable by this user");
                let mut remedy = owned("add your account to the `");
                push_str(&mut remedy, g);
                push_str(&mut remedy, "` group and log back in: sudo usermod -aG ");
                push_str(&mut remedy, g);
                push_str(&mut remedy, " $USER");
                Requirement::new("kvm.device", "KVM acceleration", Status::Warn, detail).with_remedy(
                    remedy,
                )
            },
            Kvm::DeviceMissing => if cpu.virt.is_none() {
                Requirement::new(
                    "kvm.device",
                    "KVM acceleration",
                    Status::Warn,
                    owned("/dev/kvm is absent because the CPU reports no virtualization extensions"),
                ).with_remedy(owned("resolve the CPU virtualization check above first"))
            } else {
                Requirement::new(
                    "kvm.device",
                    "KVM acceleration",
                    Status::Warn,
                    owned("/dev/kvm is absent although the CPU supports virtualization"),
                ).with_remedy(owned(KVM_MODULE_REMEDY))
            },
            Kvm::Unavailable { message } => {
                let mut detail = owned("/dev/kvm: ");
                push_str(&mut detail, message.as_str());
                Requirement::new("kvm.device", "KVM acceleration", Status::Warn, detail).with_remedy(
                    owned(KVM_BUSY_REMEDY),
                )
            },
        }
    }
}

/// The group a line of `/etc/group` names, when its third field is `gid`.
/// The format is `name:passwd:gid:members`.
pub open spec fn group_line(line: Seq<char>, gid: u32) -> Option<Seq<char>> {
    let k1 = find(line, Stop::At(':'));
    if k1 >= line.len() {
        None
    } else {
        let r1 = line.skip(k1 + 1);
        let k2 = find(r1, Stop::At(':'));
        if k2 >= r1.len() {
            None
        } else {
            let r2 = r1.skip(k2 + 1);
            if parse_u32(r2.take(find(r2, Stop::At(':')))) == Some(gid) {
                Some(line.take(k1))
            } else {
                None
            }
        }
    }
}

/// The first line that names `gid` decides; lines without a numeric third
/// field are skipped.
pub open spec fn group_lines(ls: Seq<Seq<char>>, gid: u32) -> Option<Seq<char>>
    decreases ls.len(),
{
    if ls.len() == 0 {
        None
    } else {
        match group_line(ls[0], gid) {
            Some(name) => Some(name),
            None => group_lines(ls.drop_first(), gid),
        }
    }
}

pub open spec fn group_lookup(text: Seq<char>, gid: u32) -> Option<Seq<char>> {
    group_lines(lines(text), gid)
}

fn group_line_exec(line: &Vec<char>, gid: u32) -> (r: Option<String>)
    ensures
        crate::preflight::distro::opt_view(r) == group_line(line@, gid),
{
    let n = line.len();
    assert(line@.subrange(0, n as int) =~= line@);
    let k1 = find_in(line, 0, n, &Stop::At(':'));
    if k1 >= n {
        return None;
    }
    let ghost r1 = line@.skip(k1 + 1);
    assert(r1 =~= line@.subrange(k1 + 1, n as int));
    let k2 = find_in(line, k1 + 1, n, &Stop::At(':'));
    if k2 >= n {
        return None;
    }
    let ghost r2 = r1.skip(k2 - k1);
    assert(r2 =~= line@.subrange(k2 + 1, n as int));
    let k3 = find_in(line, k2 + 1, n, &Stop::At(':'));
    assert(r2.take(k3 - k2 - 1) =~= line@.subrange(k2 + 1, k3 as int));
    if parse_u32_range(line, k2 + 1, k3) == Some(gid) {
        let name = string_of(line, 0, k1);
        assert(name@ =~= line@.take(k1 as int));
        Some(name)
    } else {
        None
    }
}

/// Look up a gid in `/etc/group` content.
pub fn parse_group_name(text: &str, gid: u32) -> (r: Option<String>)
    ensures
        crate::preflight::distro::opt_view(r) == group_lookup(text@, gid),
{
    let chars = chars_of(text);
    let ls = lines_of(&chars);
    let ghost all = views(ls@);
    let mut i: usize = 0;
    assert(all.skip(0) =~= all);
    while i < ls.len()
        invariant
            0 <= i <= ls@.len(),
            all == views(ls@),
            all == lines(text@),
            group_lookup(text@, gid) == group_lines(all.skip(i as int), gid),
        decreases ls@.len() - i,
    {
        proof {
            let rest = all.skip(i as int);
            assert(rest[0] == ls@[i as int]@);
            assert(rest.drop_first() =~= all.skip(i + 1));
        }
        let found = group_line_exec(&ls[i], gid);
        if found.is_some() {
            return found;
        }
        i += 1;
    }
    None
}

/// Resolve a numeric gid to a group name from the content of `/etc/group`,
/// when it could be read.
pub fn group_name(group_file: Option<&str>, gid: u32) -> (r: Option<String>)
    ensures
        crate::preflight::distro::opt_view(r) == match group_file {
            Some(text) => group_lookup(text@, gid),
            None => None,
        },
{
    match group_file {
        Some(text) => parse_group_name(text, gid),
        None => None,
    }
}

} // verus!
