//! Build the QEMU command line.
//!
//! `build` is a pure function from a VM's configuration, the host report and
//! the VM's paths to an argument vector. A wrong flag here surfaces as a
//! guest that will not boot, hours later, so the whole vector is stated
//! exactly, flag by flag, in [`argv_pairs`].
//!
//! The device choices are deliberate: q35 because OVMF and Windows expect it;
//! AHCI rather than virtio because the Windows installer has no virtio driver
//! and would list no disks; e1000e because Windows has its driver in the box;
//! local-time RTC because Windows keeps the hardware clock in local time; S3
//! disabled because Windows guests hang rather than resume from it; SMM and a
//! secure pflash when the firmware does Secure Boot, so the guest cannot
//! rewrite its own Secure Boot variables; and `tpm-tis` backed by the swtpm
//! socket, because Windows 11 setup stops without a TPM 2.0.
use vstd::prelude::*;

use crate::config::{valid_name, VmConfig};
use crate::paths::{opt_bytes, VmPaths};
use crate::preflight::firmware::PairView;
use crate::preflight::{FirmwarePair, HostReport};
use crate::text::{
    byte_views, bytes, bytes_of, decimal, decimal_string, digit_char, lemma_bytes_first, push_text,
};
use crate::Error;

verus! {

broadcast use vstd::string::group_string_axioms;

/// The flags the command line uses.
#[derive(Clone, Copy, Debug, PartialEq, Eq, Structural)]
pub enum Flag {
    Name,
    Machine,
    Global,
    Rtc,
    Accel,
    Cpu,
    Smp,
    Memory,
    Drive,
    Device,
    Boot,
    Chardev,
    Tpmdev,
    Netdev,
    Vga,
}

impl Flag {
    /// The flag as QEMU spells it.
    pub open spec fn text(self) -> Seq<char> {
        match self {
            Flag::Name => "-name"@,
            Flag::Machine => "-machine"@,
            Flag::Global => "-global"@,
            Flag::Rtc => "-rtc"@,
            Flag::Accel => "-accel"@,
            Flag::Cpu => "-cpu"@,
            Flag::Smp => "-smp"@,
            Flag::Memory => "-m"@,
            Flag::Drive => "-drive"@,
            Flag::Device => "-device"@,
            Flag::Boot => "-boot"@,
            Flag::Chardev => "-chardev"@,
            Flag::Tpmdev => "-tpmdev"@,
            Flag::Netdev => "-netdev"@,
            Flag::Vga => "-vga"@,
        }
    }

    pub fn as_str(self) -> (s: &'static str)
        ensures
            s@ == self.text(),
    {
        match self {
            Flag::Name => "-name",
            Flag::Machine => "-machine",
            Flag::Global => "-global",
            Flag::Rtc => "-rtc",
            Flag::Accel => "-accel",
            Flag::Cpu => "-cpu",
            Flag::Smp => "-smp",
            Flag::Memory => "-m",
            Flag::Drive => "-drive",
            Flag::Device => "-device",
            Flag::Boot => "-boot",
            Flag::Chardev => "-chardev",
            Flag::Tpmdev => "-tpmdev",
            Flag::Netdev => "-netdev",
            Flag::Vga => "-vga",
        }
    }
}

/// A flag and its value. Values are bytes: a path need not be UTF-8.
pub type Pair = (Flag, Seq<u8>);

/// The argument vector a list of flag/value pairs makes.
pub open spec fn flatten(pairs: Seq<Pair>) -> Seq<Seq<u8>>
    decreases pairs.len(),
{
    if pairs.len() == 0 {
        seq![]
    } else {
        flatten(pairs.drop_last()) + seq![bytes(pairs.last().0.text()), pairs.last().1]
    }
}

/// The values given to `flag`, in order.
pub open spec fn values_of(pairs: Seq<Pair>, flag: Flag) -> Seq<Seq<u8>>
    decreases pairs.len(),
{
    if pairs.len() == 0 {
        seq![]
    } else if pairs.last().0 == flag {
        values_of(pairs.drop_last(), flag).push(pairs.last().1)
    } else {
        values_of(pairs.drop_last(), flag)
    }
}

/// The byte `,`, which separates the options of a QEMU option list.
pub const COMMA: u8 = 44;

/// A path inside a QEMU option list: QEMU splits such values on commas, so a
/// comma inside a path is doubled. The path is worked on as bytes, since a
/// filename need not be UTF-8.
pub open spec fn escape(p: Seq<u8>) -> Seq<u8>
    decreases p.len(),
{
    if p.len() == 0 {
        seq![]
    } else {
        escape(p.drop_last()) + if p.last() == COMMA {
            seq![COMMA, COMMA]
        } else {
            seq![p.last()]
        }
    }
}

/// An option list `options` ending in the path `path`, escaped.
pub open spec fn escaped(options: Seq<char>, path: Seq<u8>) -> Seq<u8> {
    bytes(options) + escape(path)
}

pub open spec fn machine_pairs(fw: PairView) -> Seq<Pair> {
    seq![
        (Flag::Machine, bytes("q35,smm="@) + bytes(if fw.secure_boot {
            "on"@
        } else {
            "off"@
        })),
        (Flag::Global, bytes("ICH9-LPC.disable_s3=1"@)),
        (Flag::Rtc, bytes("base=localtime"@)),
    ]
}

pub open spec fn processor_pairs(cpus: u32, accelerated: bool) -> Seq<Pair> {
    if accelerated {
        seq![
            (Flag::Accel, bytes("kvm"@)),
            (Flag::Cpu, bytes("host"@)),
            (Flag::Smp, bytes(decimal(cpus as nat))),
        ]
    } else {
        seq![
            (Flag::Accel, bytes("tcg"@)),
            (Flag::Cpu, bytes("qemu64"@)),
            (Flag::Smp, bytes(decimal(cpus as nat))),
        ]
    }
}

pub open spec fn firmware_pairs(fw: PairView, vars: Seq<u8>) -> Seq<Pair> {
    (if fw.secure_boot {
        seq![(Flag::Global, bytes(SECURE_PFLASH@))]
    } else {
        seq![]
    }) + seq![
        (Flag::Drive, escaped(CODE_DRIVE@, fw.code)),
        (Flag::Drive, escaped(VARS_DRIVE@, vars)),
    ]
}

pub open spec fn storage_pairs(iso: Option<Seq<u8>>, disk: Seq<u8>) -> Seq<Pair> {
    seq![
        (Flag::Device, bytes("ich9-ahci,id=sata"@)),
        (Flag::Drive, escaped(DISK_DRIVE@, disk)),
        (Flag::Device, bytes("ide-hd,drive=hd,bus=sata.0"@)),
    ] + match iso {
        Some(i) => seq![
            (Flag::Drive, escaped(CDROM_DRIVE@, i)),
            (Flag::Device, bytes("ide-cd,drive=cd,bus=sata.1"@)),
            (Flag::Boot, bytes("order=dc"@)),
        ],
        None => seq![(Flag::Boot, bytes("order=c"@))],
    }
}

pub open spec fn tpm_pairs(socket: Seq<u8>) -> Seq<Pair> {
    seq![
        (Flag::Chardev, escaped(TPM_CHARDEV@, socket)),
        (Flag::Tpmdev, bytes("emulator,id=tpm0,chardev=chrtpm"@)),
        (Flag::Device, bytes("tpm-tis,tpmdev=tpm0"@)),
    ]
}

pub open spec fn peripheral_pairs() -> Seq<Pair> {
    seq![
        (Flag::Netdev, bytes("user,id=net0"@)),
        (Flag::Device, bytes("e1000e,netdev=net0"@)),
        (Flag::Device, bytes("qemu-xhci,id=usb"@)),
        (Flag::Device, bytes("usb-tablet,bus=usb.0"@)),
        (Flag::Vga, bytes("std"@)),
    ]
}

/// The whole command line, as flag/value pairs, for a host whose preferred
/// firmware pair is `fw`.
pub open spec fn argv_pairs(config: VmConfig, fw: PairView, accelerated: bool, paths: VmPaths) -> Seq<
    Pair,
> {
    seq![(Flag::Name, bytes(config.name@))] + machine_pairs(fw) + processor_pairs(
        config.cpus,
        accelerated,
    ) + seq![(Flag::Memory, bytes(decimal(config.memory_mib as nat)))] + firmware_pairs(
        fw,
        paths.vars_spec(),
    ) + storage_pairs(opt_bytes(config.iso), paths.disk_spec()) + (if config.tpm {
        tpm_pairs(paths.socket_spec())
    } else {
        seq![]
    }) + peripheral_pairs()
}

pub const SECURE_PFLASH: &'static str = "driver=cfi.pflash01,property=secure,value=on";

pub const CODE_DRIVE: &'static str = "if=pflash,format=raw,unit=0,readonly=on,file=";

pub const VARS_DRIVE: &'static str = "if=pflash,format=raw,unit=1,file=";

pub const DISK_DRIVE: &'static str = "id=hd,if=none,format=qcow2,file=";

pub const CDROM_DRIVE: &'static str = "id=cd,if=none,format=raw,media=cdrom,readonly=on,file=";

pub const TPM_CHARDEV: &'static str = "socket,id=chrtpm,path=";

pub const NO_FIRMWARE: &'static str =
    "no OVMF UEFI firmware was found, and Windows will not boot without it";

/// Build a QEMU option-list value ending in a path, escaping the path.
pub fn escaped_value(options: &str, path: &[u8]) -> (s: Vec<u8>)
    ensures
        s@ == escaped(options@, path@),
{
    let mut s = bytes_of(options);
    let mut i: usize = 0;
    while i < path.len()
        invariant
            0 <= i <= path@.len(),
            s@ == bytes(options@) + escape(path@.take(i as int)),
        decreases path@.len() - i,
    {
        let b = path[i];
        if b == COMMA {
            s.push(COMMA);
        }
        s.push(b);
        proof {
            let t = path@.take(i + 1);
            assert(t.drop_last() =~= path@.take(i as int));
            assert(t.last() == b);
            assert(s@ =~= bytes(options@) + escape(t));
        }
        i += 1;
    }
    assert(path@.take(path@.len() as int) =~= path@);
    s
}

/// A growing argument vector, with the pairs it was built from.
struct Argv {
    args: Vec<Vec<u8>>,
    pairs: Ghost<Seq<Pair>>,
}

impl Argv {
    spec fn inv(&self) -> bool {
        byte_views(self.args@) == flatten(self.pairs@)
    }

    fn new() -> (a: Argv)
        ensures
            a.inv(),
            a.pairs@ == Seq::<Pair>::empty(),
    {
        let a = Argv { args: Vec::new(), pairs: Ghost(Seq::empty()) };
        assert(byte_views(a.args@) =~= flatten(a.pairs@));
        a
    }

    fn flag(&mut self, flag: Flag, value: Vec<u8>)
        requires
            old(self).inv(),
        ensures
            final(self).inv(),
            final(self).pairs@ == old(self).pairs@.push((flag, value@)),
    {
        let ghost before = self.args@;
        self.args.push(bytes_of(flag.as_str()));
        self.args.push(value);
        self.pairs = Ghost(self.pairs@.push((flag, value@)));
        proof {
            let p = self.pairs@;
            assert(p.drop_last() =~= old(self).pairs@);
            assert(byte_views(self.args@) =~= byte_views(before) + seq![bytes(flag.text()), value@]);
        }
    }
}

/// The decimal digits of `n`, as bytes.
fn decimal_bytes(n: u64) -> (r: Vec<u8>)
    ensures
        r@ == bytes(decimal(n as nat)),
{
    let digits = decimal_string(n);
    bytes_of(digits.as_str())
}

/// The command line for a host whose firmware pair is known.
#[verifier::rlimit(40)]
#[verifier::spinoff_prover]
fn build_with(config: &VmConfig, firmware: &FirmwarePair, accelerated: bool, paths: &VmPaths) -> (r:
    Vec<Vec<u8>>)
    ensures
        byte_views(r@) == flatten(argv_pairs(*config, firmware.view(), accelerated, *paths)),
{
    let mut argv = Argv::new();
    argv.flag(Flag::Name, bytes_of(config.name.as_str()));
    let smm: &str = if firmware.secure_boot {
        "on"
    } else {
        "off"
    };
    let mut machine = bytes_of("q35,smm=");
    push_text(&mut machine, smm);
    argv.flag(Flag::Machine, machine);
    argv.flag(Flag::Global, bytes_of("ICH9-LPC.disable_s3=1"));
    argv.flag(Flag::Rtc, bytes_of("base=localtime"));
    if accelerated {
        argv.flag(Flag::Accel, bytes_of("kvm"));
        argv.flag(Flag::Cpu, bytes_of("host"));
    } else {
        argv.flag(Flag::Accel, bytes_of("tcg"));
        argv.flag(Flag::Cpu, bytes_of("qemu64"));
    }
    argv.flag(Flag::Smp, decimal_bytes(config.cpus as u64));
    argv.flag(Flag::Memory, decimal_bytes(config.memory_mib));
    if firmware.secure_boot {
        argv.flag(Flag::Global, bytes_of(SECURE_PFLASH));
    }
    argv.flag(Flag::Drive, escaped_value(CODE_DRIVE, firmware.code.as_slice()));
    let vars = paths.vars();
    argv.flag(Flag::Drive, escaped_value(VARS_DRIVE, vars.as_slice()));
    argv.flag(Flag::Device, bytes_of("ich9-ahci,id=sata"));
    let disk = paths.disk();
    argv.flag(Flag::Drive, escaped_value(DISK_DRIVE, disk.as_slice()));
    argv.flag(Flag::Device, bytes_of("ide-hd,drive=hd,bus=sata.0"));
    match &config.iso {
        Some(iso) => {
            argv.flag(Flag::Drive, escaped_value(CDROM_DRIVE, iso.as_slice()));
            argv.flag(Flag::Device, bytes_of("ide-cd,drive=cd,bus=sata.1"));
            argv.flag(Flag::Boot, bytes_of("order=dc"));
        },
        None => {
            argv.flag(Flag::Boot, bytes_of("order=c"));
        },
    }
    if config.tpm {
        argv.flag(Flag::Chardev, escaped_value(TPM_CHARDEV, paths.tpm_socket()));
        argv.flag(Flag::Tpmdev, bytes_of("emulator,id=tpm0,chardev=chrtpm"));
        argv.flag(Flag::Device, bytes_of("tpm-tis,tpmdev=tpm0"));
    }
    argv.flag(Flag::Netdev, bytes_of("user,id=net0"));
    argv.flag(Flag::Device, bytes_of("e1000e,netdev=net0"));
    argv.flag(Flag::Device, bytes_of("qemu-xhci,id=usb"));
    argv.flag(Flag::Device, bytes_of("usb-tablet,bus=usb.0"));
    argv.flag(Flag::Vga, bytes_of("std"));
    assert(argv.pairs@ =~= argv_pairs(*config, firmware.view(), accelerated, *paths));
    argv.args
}

/// Build the argument vector for `qemu-system-x86_64`.
///
/// Fails only when the host has no UEFI firmware, since a Windows guest cannot
/// be expressed as a command line without one.
pub fn build(config: &VmConfig, host: &HostReport, paths: &VmPaths) -> (r: Result<
    Vec<Vec<u8>>,
    Error,
>)
    ensures
        r is Err <==> host.firmware.found@.len() == 0,
        r matches Err(e) ==> e matches Error::HostNotReady(m) && m@ == NO_FIRMWARE@,
        r matches Ok(argv) ==> byte_views(argv@) == flatten(
            argv_pairs(*config, host.firmware.found@[0].view(), host.kvm is Ready, *paths),
        ),
{
    let firmware = match host.firmware.best() {
        Some(f) => f,
        None => {
            return Err(Error::HostNotReady(NO_FIRMWARE));
        },
    };
    Ok(build_with(config, firmware, host.accelerated(), paths))
}

// ---------------------------------------------------------------------------
// What every command line satisfies
// ---------------------------------------------------------------------------

/// `flag` with `value` when `p` is given to `flag`, and nothing otherwise.
pub open spec fn pick(p: Pair, flag: Flag) -> Seq<Seq<u8>> {
    if p.0 == flag {
        seq![p.1]
    } else {
        seq![]
    }
}

pub broadcast proof fn lemma_values_of_push(pairs: Seq<Pair>, p: Pair, flag: Flag)
    ensures
        #[trigger] values_of(pairs.push(p), flag) == values_of(pairs, flag) + pick(p, flag),
{
    assert(pairs.push(p).drop_last() =~= pairs);
    assert(values_of(pairs, flag) + seq![] =~= values_of(pairs, flag));
}

pub broadcast proof fn lemma_values_of_append(a: Seq<Pair>, b: Seq<Pair>, flag: Flag)
    ensures
        #[trigger] values_of(a + b, flag) == values_of(a, flag) + values_of(b, flag),
    decreases b.len(),
{
    if b.len() == 0 {
        assert(a + b =~= a);
        assert(values_of(a, flag) + values_of(b, flag) =~= values_of(a, flag));
    } else {
        lemma_values_of_append(a, b.drop_last(), flag);
        assert((a + b).drop_last() =~= a + b.drop_last());
        assert((a + b).last() == b.last());
        assert(values_of(a, flag) + values_of(b.drop_last(), flag).push(b.last().1) =~= (
        values_of(a, flag) + values_of(b.drop_last(), flag)).push(b.last().1));
    }
}

/// `values_of` over a short list, element by element.
pub open spec fn picks(s: Seq<Pair>, flag: Flag) -> Seq<Seq<u8>>
    decreases s.len(),
{
    if s.len() == 0 {
        seq![]
    } else {
        pick(s[0], flag) + picks(s.drop_first(), flag)
    }
}

proof fn lemma_values_of_picks(s: Seq<Pair>, flag: Flag)
    ensures
        values_of(s, flag) == picks(s, flag),
    decreases s.len(),
{
    broadcast use lemma_values_of_append;

    if s.len() > 0 {
        lemma_values_of_picks(s.drop_first(), flag);
        assert(s =~= seq![s[0]] + s.drop_first());
        assert(seq![s[0]].drop_last() =~= Seq::<Pair>::empty());
        reveal_with_fuel(values_of, 2);
        assert(values_of(seq![s[0]], flag) =~= pick(s[0], flag));
    }
}

/// `values_of` over the command line, part by part.
proof fn lemma_argv_values(
    config: VmConfig,
    fw: PairView,
    accelerated: bool,
    paths: VmPaths,
    flag: Flag,
)
    ensures
        values_of(argv_pairs(config, fw, accelerated, paths), flag) == picks(
            seq![(Flag::Name, bytes(config.name@))],
            flag,
        ) + picks(machine_pairs(fw), flag) + picks(processor_pairs(config.cpus, accelerated), flag)
            + picks(seq![(Flag::Memory, bytes(decimal(config.memory_mib as nat)))], flag) + picks(
            firmware_pairs(fw, paths.vars_spec()),
            flag,
        ) + picks(storage_pairs(opt_bytes(config.iso), paths.disk_spec()), flag) + (if config.tpm {
            picks(tpm_pairs(paths.socket_spec()), flag)
        } else {
            seq![]
        }) + picks(peripheral_pairs(), flag),
{
    broadcast use lemma_values_of_append;

    lemma_values_of_picks(seq![(Flag::Name, bytes(config.name@))], flag);
    lemma_values_of_picks(machine_pairs(fw), flag);
    lemma_values_of_picks(processor_pairs(config.cpus, accelerated), flag);
    lemma_values_of_picks(seq![(Flag::Memory, bytes(decimal(config.memory_mib as nat)))], flag);
    lemma_values_of_picks(firmware_pairs(fw, paths.vars_spec()), flag);
    lemma_values_of_picks(storage_pairs(opt_bytes(config.iso), paths.disk_spec()), flag);
    lemma_values_of_picks(tpm_pairs(paths.socket_spec()), flag);
    lemma_values_of_picks(peripheral_pairs(), flag);
    lemma_values_of_picks(seq![], flag);
}

/// Hardware acceleration is used exactly when KVM is ready: `-accel kvm`
/// with the host CPU passed through, and otherwise `-accel tcg` with a
/// generic CPU model, since `-cpu host` means nothing to the emulator.
pub proof fn lemma_acceleration_follows_kvm(
    config: VmConfig,
    fw: PairView,
    accelerated: bool,
    paths: VmPaths,
)
    ensures
        values_of(argv_pairs(config, fw, accelerated, paths), Flag::Accel) == seq![
            bytes(
                if accelerated {
                    "kvm"@
                } else {
                    "tcg"@
                },
            ),
        ],
        values_of(argv_pairs(config, fw, accelerated, paths), Flag::Cpu) == seq![
            bytes(
                if accelerated {
                    "host"@
                } else {
                    "qemu64"@
                },
            ),
        ],
{
    reveal_with_fuel(picks, 7);
    lemma_argv_values(config, fw, accelerated, paths, Flag::Accel);
    lemma_argv_values(config, fw, accelerated, paths, Flag::Cpu);
}

/// The guest is named once, and gets exactly the vCPUs and memory its
/// configuration asks for.
pub proof fn lemma_sizing_passes_through(
    config: VmConfig,
    fw: PairView,
    accelerated: bool,
    paths: VmPaths,
)
    ensures
        values_of(argv_pairs(config, fw, accelerated, paths), Flag::Name) == seq![bytes(config.name@)],
        values_of(argv_pairs(config, fw, accelerated, paths), Flag::Smp) == seq![
            bytes(decimal(config.cpus as nat)),
        ],
        values_of(argv_pairs(config, fw, accelerated, paths), Flag::Memory) == seq![
            bytes(decimal(config.memory_mib as nat)),
        ],
{
    reveal_with_fuel(picks, 7);
    lemma_argv_values(config, fw, accelerated, paths, Flag::Name);
    lemma_argv_values(config, fw, accelerated, paths, Flag::Smp);
    lemma_argv_values(config, fw, accelerated, paths, Flag::Memory);
}

/// SMM is on exactly when the firmware does Secure Boot, and then, and only
/// then, the variable store is locked against the guest. S3 is always off.
pub proof fn lemma_secure_boot_locks_the_variable_store(
    config: VmConfig,
    fw: PairView,
    accelerated: bool,
    paths: VmPaths,
)
    ensures
        values_of(argv_pairs(config, fw, accelerated, paths), Flag::Machine) == seq![
            bytes("q35,smm="@) + bytes(
                if fw.secure_boot {
                    "on"@
                } else {
                    "off"@
                },
            ),
        ],
        values_of(argv_pairs(config, fw, accelerated, paths), Flag::Global) == seq![
            bytes("ICH9-LPC.disable_s3=1"@),
        ] + if fw.secure_boot {
            seq![bytes(SECURE_PFLASH@)]
        } else {
            seq![]
        },
{
    reveal_with_fuel(picks, 7);
    lemma_argv_values(config, fw, accelerated, paths, Flag::Machine);
    lemma_argv_values(config, fw, accelerated, paths, Flag::Global);
}

/// The drives, in order: the firmware code read-only, this VM's own
/// variable store writable, the system disk, and the installation medium
/// when there is one. Every path in them is escaped.
pub proof fn lemma_drives(config: VmConfig, fw: PairView, accelerated: bool, paths: VmPaths)
    ensures
        values_of(argv_pairs(config, fw, accelerated, paths), Flag::Drive) == seq![
            escaped(CODE_DRIVE@, fw.code),
            escaped(VARS_DRIVE@, paths.vars_spec()),
            escaped(DISK_DRIVE@, paths.disk_spec()),
        ] + match opt_bytes(config.iso) {
            Some(iso) => seq![escaped(CDROM_DRIVE@, iso)],
            None => seq![],
        },
{
    reveal_with_fuel(picks, 7);
    lemma_argv_values(config, fw, accelerated, paths, Flag::Drive);
}

/// The devices, in order. The disks hang off AHCI, never virtio, because the
/// Windows installer has no virtio driver; the TPM is present exactly when
/// the configuration asks for one.
pub proof fn lemma_devices(config: VmConfig, fw: PairView, accelerated: bool, paths: VmPaths)
    ensures
        values_of(argv_pairs(config, fw, accelerated, paths), Flag::Device) == seq![
            bytes("ich9-ahci,id=sata"@),
            bytes("ide-hd,drive=hd,bus=sata.0"@),
        ] + (if config.iso is Some {
            seq![bytes("ide-cd,drive=cd,bus=sata.1"@)]
        } else {
            seq![]
        }) + (if config.tpm {
            seq![bytes("tpm-tis,tpmdev=tpm0"@)]
        } else {
            seq![]
        }) + seq![bytes("e1000e,netdev=net0"@), bytes("qemu-xhci,id=usb"@), bytes("usb-tablet,bus=usb.0"@)],
{
    reveal_with_fuel(picks, 7);
    lemma_argv_values(config, fw, accelerated, paths, Flag::Device);
    let f = Flag::Device;
    assert(picks(storage_pairs(opt_bytes(config.iso), paths.disk_spec()), f) =~= seq![
        bytes("ich9-ahci,id=sata"@),
        bytes("ide-hd,drive=hd,bus=sata.0"@),
    ] + (if config.iso is Some {
        seq![bytes("ide-cd,drive=cd,bus=sata.1"@)]
    } else {
        seq![]
    }));
    assert(picks(tpm_pairs(paths.socket_spec()), f) =~= seq![bytes("tpm-tis,tpmdev=tpm0"@)]);
    assert(picks(peripheral_pairs(), f) =~= seq![
        bytes("e1000e,netdev=net0"@),
        bytes("qemu-xhci,id=usb"@),
        bytes("usb-tablet,bus=usb.0"@),
    ]);
    assert(picks(firmware_pairs(fw, paths.vars_spec()), f) =~= seq![]);
    assert(picks(machine_pairs(fw), f) =~= seq![]);
    assert(picks(processor_pairs(config.cpus, accelerated), f) =~= seq![]);
}

/// With an installation medium the guest boots from it first; without one
/// the disk is the only boot device.
pub proof fn lemma_boot_order(config: VmConfig, fw: PairView, accelerated: bool, paths: VmPaths)
    ensures
        values_of(argv_pairs(config, fw, accelerated, paths), Flag::Boot) == seq![
            bytes(
                if config.iso is Some {
                    "order=dc"@
                } else {
                    "order=c"@
                },
            ),
        ],
{
    reveal_with_fuel(picks, 7);
    lemma_argv_values(config, fw, accelerated, paths, Flag::Boot);
}

/// A TPM is wired to the swtpm socket exactly when the configuration asks
/// for one; with `tpm` off no TPM flag is left.
pub proof fn lemma_tpm_only_when_configured(
    config: VmConfig,
    fw: PairView,
    accelerated: bool,
    paths: VmPaths,
)
    ensures
        values_of(argv_pairs(config, fw, accelerated, paths), Flag::Chardev) == if config.tpm {
            seq![escaped(TPM_CHARDEV@, paths.socket_spec())]
        } else {
            seq![]
        },
        values_of(argv_pairs(config, fw, accelerated, paths), Flag::Tpmdev) == if config.tpm {
            seq![bytes("emulator,id=tpm0,chardev=chrtpm"@)]
        } else {
            seq![]
        },
{
    reveal_with_fuel(picks, 7);
    lemma_argv_values(config, fw, accelerated, paths, Flag::Chardev);
    lemma_argv_values(config, fw, accelerated, paths, Flag::Tpmdev);
}

/// The byte `-`, with which QEMU recognises a flag.
pub const DASH: u8 = 45;

/// An argument QEMU reads as a flag.
pub open spec fn is_flag(s: Seq<u8>) -> bool {
    s.len() > 0 && s[0] == DASH
}

/// An argument QEMU reads as the value of the flag before it.
pub open spec fn is_value(s: Seq<u8>) -> bool {
    s.len() > 0 && s[0] != DASH
}

/// Flags and values alternate, starting with a flag and ending with a value.
pub open spec fn alternates(argv: Seq<Seq<u8>>) -> bool {
    &&& argv.len() % 2 == 0
    &&& forall|i: int|
        0 <= i < argv.len() ==> if i % 2 == 0 {
            is_flag(#[trigger] argv[i])
        } else {
            is_value(argv[i])
        }
}

spec fn values_are_values(pairs: Seq<Pair>) -> bool {
    forall|k: int| 0 <= k < pairs.len() ==> is_value((#[trigger] pairs[k]).1)
}

/// Text that starts with `-` is spelled starting with the byte `-`; text
/// that starts with any other character is not.
proof fn lemma_text_dash(s: Seq<char>)
    requires
        s.len() > 0,
    ensures
        s[0] == '-' ==> is_flag(bytes(s)),
        s[0] != '-' ==> is_value(bytes(s)),
{
    lemma_bytes_first(s);
    if s[0] as u32 == 45 {
        vstd::utf8::char_u32_cast(s[0], 45u32);
        assert(45u32 as char == '-');
    }
}

proof fn lemma_flag_text(f: Flag)
    ensures
        is_flag(bytes(f.text())),
{
    reveal_strlit("-name");
    reveal_strlit("-machine");
    reveal_strlit("-global");
    reveal_strlit("-rtc");
    reveal_strlit("-accel");
    reveal_strlit("-cpu");
    reveal_strlit("-smp");
    reveal_strlit("-m");
    reveal_strlit("-drive");
    reveal_strlit("-device");
    reveal_strlit("-boot");
    reveal_strlit("-chardev");
    reveal_strlit("-tpmdev");
    reveal_strlit("-netdev");
    reveal_strlit("-vga");
    lemma_text_dash(f.text());
}

proof fn lemma_flatten_alternates(pairs: Seq<Pair>)
    requires
        values_are_values(pairs),
    ensures
        alternates(flatten(pairs)),
        flatten(pairs).len() == 2 * pairs.len(),
    decreases pairs.len(),
{
    if pairs.len() > 0 {
        let init = pairs.drop_last();
        assert forall|k: int| 0 <= k < init.len() implies is_value((#[trigger] init[k]).1) by {
            assert(init[k] == pairs[k]);
        }
        lemma_flatten_alternates(init);
        lemma_flag_text(pairs.last().0);
        assert(is_value(pairs[pairs.len() - 1].1));
        let f = flatten(pairs);
        let n = flatten(init).len();
        assert forall|i: int| 0 <= i < f.len() implies if i % 2 == 0 {
            is_flag(#[trigger] f[i])
        } else {
            is_value(f[i])
        } by {
            if i < n {
                assert(f[i] == flatten(init)[i]);
            } else if i == n {
                assert(f[i] == bytes(pairs.last().0.text()));
            } else {
                assert(f[i] == pairs.last().1);
            }
        }
    }
}

proof fn lemma_values_are_values_append(a: Seq<Pair>, b: Seq<Pair>)
    requires
        values_are_values(a),
        values_are_values(b),
    ensures
        values_are_values(a + b),
{
    assert forall|k: int| 0 <= k < (a + b).len() implies is_value((#[trigger] (a + b)[k]).1) by {
        if k < a.len() {
            assert((a + b)[k] == a[k]);
        } else {
            assert((a + b)[k] == b[k - a.len()]);
        }
    }
}

proof fn lemma_decimal_is_value(n: nat)
    ensures
        is_value(bytes(decimal(n))),
    decreases n,
{
    lemma_decimal_starts_with_digit(n);
    lemma_text_dash(decimal(n));
}

proof fn lemma_decimal_starts_with_digit(n: nat)
    ensures
        decimal(n).len() > 0,
        '0' <= decimal(n)[0] <= '9',
    decreases n,
{
    if n >= 10 {
        lemma_decimal_starts_with_digit(n / 10);
        assert(decimal(n)[0] == decimal(n / 10)[0]);
    } else {
        assert(digit_char(n) as int == n % 10 + 48);
    }
}

proof fn lemma_prefixed_is_value(a: Seq<u8>, b: Seq<u8>)
    requires
        is_value(a),
    ensures
        is_value(a + b),
{
    assert((a + b)[0] == a[0]);
}

/// Every flag on the command line is followed by exactly one value: the
/// vector alternates flag, value, flag, value, and no value (a path with
/// spaces, semicolons or commas in it included) begins like a flag or is
/// split in two. Names that begin with `-` are the one exception the
/// statement leaves out, since QEMU would read such a name as a flag.
pub proof fn lemma_flags_and_values_pair_up(
    config: VmConfig,
    fw: PairView,
    accelerated: bool,
    paths: VmPaths,
)
    requires
        valid_name(config.name@),
        config.name@[0] != '-',
    ensures
        alternates(flatten(argv_pairs(config, fw, accelerated, paths))),
        flatten(argv_pairs(config, fw, accelerated, paths)).len() == 2 * argv_pairs(
            config,
            fw,
            accelerated,
            paths,
        ).len(),
{
    reveal_strlit("q35,smm=");
    reveal_strlit("ICH9-LPC.disable_s3=1");
    reveal_strlit("base=localtime");
    reveal_strlit("kvm");
    reveal_strlit("host");
    reveal_strlit("tcg");
    reveal_strlit("qemu64");
    reveal_strlit("driver=cfi.pflash01,property=secure,value=on");
    reveal_strlit("if=pflash,format=raw,unit=0,readonly=on,file=");
    reveal_strlit("if=pflash,format=raw,unit=1,file=");
    reveal_strlit("ich9-ahci,id=sata");
    reveal_strlit("id=hd,if=none,format=qcow2,file=");
    reveal_strlit("ide-hd,drive=hd,bus=sata.0");
    reveal_strlit("id=cd,if=none,format=raw,media=cdrom,readonly=on,file=");
    reveal_strlit("ide-cd,drive=cd,bus=sata.1");
    reveal_strlit("order=dc");
    reveal_strlit("order=c");
    reveal_strlit("socket,id=chrtpm,path=");
    reveal_strlit("emulator,id=tpm0,chardev=chrtpm");
    reveal_strlit("tpm-tis,tpmdev=tpm0");
    reveal_strlit("user,id=net0");
    reveal_strlit("e1000e,netdev=net0");
    reveal_strlit("qemu-xhci,id=usb");
    reveal_strlit("usb-tablet,bus=usb.0");
    reveal_strlit("std");
    lemma_text_dash(config.name@);
    lemma_text_dash("q35,smm="@);
    lemma_text_dash("ICH9-LPC.disable_s3=1"@);
    lemma_text_dash("base=localtime"@);
    lemma_text_dash("kvm"@);
    lemma_text_dash("host"@);
    lemma_text_dash("tcg"@);
    lemma_text_dash("qemu64"@);
    lemma_text_dash(SECURE_PFLASH@);
    lemma_text_dash(CODE_DRIVE@);
    lemma_text_dash(VARS_DRIVE@);
    lemma_text_dash("ich9-ahci,id=sata"@);
    lemma_text_dash(DISK_DRIVE@);
    lemma_text_dash("ide-hd,drive=hd,bus=sata.0"@);
    lemma_text_dash(CDROM_DRIVE@);
    lemma_text_dash("ide-cd,drive=cd,bus=sata.1"@);
    lemma_text_dash("order=dc"@);
    lemma_text_dash("order=c"@);
    lemma_text_dash(TPM_CHARDEV@);
    lemma_text_dash("emulator,id=tpm0,chardev=chrtpm"@);
    lemma_text_dash("tpm-tis,tpmdev=tpm0"@);
    lemma_text_dash("user,id=net0"@);
    lemma_text_dash("e1000e,netdev=net0"@);
    lemma_text_dash("qemu-xhci,id=usb"@);
    lemma_text_dash("usb-tablet,bus=usb.0"@);
    lemma_text_dash("std"@);
    lemma_decimal_is_value(config.cpus as nat);
    lemma_decimal_is_value(config.memory_mib as nat);
    let smm: Seq<char> = if fw.secure_boot {
        "on"@
    } else {
        "off"@
    };
    lemma_prefixed_is_value(bytes("q35,smm="@), bytes(smm));
    lemma_prefixed_is_value(bytes(CODE_DRIVE@), escape(fw.code));
    lemma_prefixed_is_value(bytes(VARS_DRIVE@), escape(paths.vars_spec()));
    lemma_prefixed_is_value(bytes(DISK_DRIVE@), escape(paths.disk_spec()));
    lemma_prefixed_is_value(bytes(TPM_CHARDEV@), escape(paths.socket_spec()));
    let name = seq![(Flag::Name, bytes(config.name@))];
    let memory = seq![(Flag::Memory, bytes(decimal(config.memory_mib as nat)))];
    let secure: Seq<Pair> = if fw.secure_boot {
        seq![(Flag::Global, bytes(SECURE_PFLASH@))]
    } else {
        seq![]
    };
    let flash = seq![
        (Flag::Drive, escaped(CODE_DRIVE@, fw.code)),
        (Flag::Drive, escaped(VARS_DRIVE@, paths.vars_spec())),
    ];
    let disks = seq![
        (Flag::Device, bytes("ich9-ahci,id=sata"@)),
        (Flag::Drive, escaped(DISK_DRIVE@, paths.disk_spec())),
        (Flag::Device, bytes("ide-hd,drive=hd,bus=sata.0"@)),
    ];
    let boot: Seq<Pair> = match opt_bytes(config.iso) {
        Some(i) => {
            lemma_prefixed_is_value(bytes(CDROM_DRIVE@), escape(i));
            seq![
                (Flag::Drive, escaped(CDROM_DRIVE@, i)),
                (Flag::Device, bytes("ide-cd,drive=cd,bus=sata.1"@)),
                (Flag::Boot, bytes("order=dc"@)),
            ]
        },
        None => seq![(Flag::Boot, bytes("order=c"@))],
    };
    let tpm: Seq<Pair> = if config.tpm {
        tpm_pairs(paths.socket_spec())
    } else {
        seq![]
    };
    assert(values_are_values(name));
    assert(values_are_values(machine_pairs(fw)));
    assert(values_are_values(processor_pairs(config.cpus, accelerated)));
    assert(values_are_values(memory));
    assert(values_are_values(secure));
    assert(values_are_values(flash));
    assert(values_are_values(disks));
    assert(values_are_values(boot));
    assert(values_are_values(tpm));
    assert(values_are_values(peripheral_pairs()));
    lemma_values_are_values_append(secure, flash);
    lemma_values_are_values_append(disks, boot);
    assert(firmware_pairs(fw, paths.vars_spec()) == secure + flash);
    assert(storage_pairs(opt_bytes(config.iso), paths.disk_spec()) == disks + boot);
    let p1 = name + machine_pairs(fw);
    lemma_values_are_values_append(name, machine_pairs(fw));
    let p2 = p1 + processor_pairs(config.cpus, accelerated);
    lemma_values_are_values_append(p1, processor_pairs(config.cpus, accelerated));
    let p3 = p2 + memory;
    lemma_values_are_values_append(p2, memory);
    let p4 = p3 + (secure + flash);
    lemma_values_are_values_append(p3, secure + flash);
    let p5 = p4 + (disks + boot);
    lemma_values_are_values_append(p4, disks + boot);
    let p6 = p5 + tpm;
    lemma_values_are_values_append(p5, tpm);
    lemma_values_are_values_append(p6, peripheral_pairs());
    assert(argv_pairs(config, fw, accelerated, paths) == p6 + peripheral_pairs());
    lemma_flatten_alternates(argv_pairs(config, fw, accelerated, paths));
}

/// A host that preflight says can launch a VM always yields a command line.
pub proof fn lemma_a_launchable_host_has_a_command_line(host: HostReport)
    requires
        host.can_launch_spec(),
    ensures
        host.firmware.found@.len() > 0,
{
    crate::preflight::lemma_can_launch_exactly_when(host);
}

/// How QEMU reads the value at the start of `s` out of an option list: up
/// to the first lone comma, with each `,,` standing for one comma.
pub open spec fn option_value(s: Seq<u8>) -> Seq<u8>
    decreases s.len(),
{
    if s.len() == 0 {
        seq![]
    } else if s[0] == COMMA {
        if s.len() >= 2 && s[1] == COMMA {
            seq![COMMA] + option_value(s.skip(2))
        } else {
            seq![]
        }
    } else {
        seq![s[0]] + option_value(s.skip(1))
    }
}

proof fn lemma_escape_append(a: Seq<u8>, b: Seq<u8>)
    ensures
        escape(a + b) == escape(a) + escape(b),
    decreases b.len(),
{
    if b.len() == 0 {
        assert(a + b =~= a);
        assert(escape(a) + escape(b) =~= escape(a));
    } else {
        lemma_escape_append(a, b.drop_last());
        assert((a + b).drop_last() =~= a + b.drop_last());
        assert((a + b).last() == b.last());
        let tail: Seq<u8> = if b.last() == COMMA {
            seq![COMMA, COMMA]
        } else {
            seq![b.last()]
        };
        assert(escape(a) + escape(b.drop_last()) + tail =~= escape(a) + (escape(b.drop_last())
            + tail));
    }
}

/// A path escaped for an option list reads back whole and unchanged, byte
/// for byte: a comma in it can never end the value early and start a
/// further option.
pub proof fn lemma_escape_round_trip(path: Seq<u8>)
    ensures
        option_value(escape(path)) == path,
    decreases path.len(),
{
    if path.len() > 0 {
        let c = path[0];
        let rest = path.skip(1);
        lemma_escape_round_trip(rest);
        assert(path =~= seq![c] + rest);
        lemma_escape_append(seq![c], rest);
        assert(seq![c].drop_last() =~= Seq::<u8>::empty());
        reveal_with_fuel(escape, 2);
        let e = escape(path);
        if c == COMMA {
            assert(escape(seq![c]) =~= seq![COMMA, COMMA]);
            assert(e.skip(2) =~= escape(rest));
            assert(option_value(e) =~= seq![COMMA] + rest);
        } else {
            assert(escape(seq![c]) =~= seq![c]);
            assert(e.skip(1) =~= escape(rest));
            assert(option_value(e) =~= seq![c] + rest);
        }
    }
}

} // verus!
