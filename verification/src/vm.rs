//! A virtual machine's lifecycle: create it, load it, launch it.
//!
//! This is the orchestration the project is named for. Each module below it
//! does one thing and knows nothing about the others: [`crate::config`] models
//! a guest, [`crate::paths`] says where it lives, [`crate::disk`] makes images,
//! [`crate::qemu`] builds a command line and [`crate::tpm`] the emulator's. This
//! module is the only place that knows the order they go in.
//!
//! Each lifecycle call decides everything that can be decided without
//! touching the machine, given the few facts about it that matter (does the
//! VM's directory exist, is the ISO there, has the VM its own variable
//! store), and answers with the ordered steps the front end then performs.
use vstd::prelude::*;

use crate::config::{config_in_range, config_problem, VmConfig, VmName};
use crate::paths::{socket_dir_of, socket_of, vm_dir_of, Paths, VmPaths, MAX_SOCKET_PATH};
use crate::preflight::distro::install_hint_spec;
use crate::preflight::{HostReport, Package, QEMU_IMG_BINARY, QEMU_SYSTEM_BINARY, SWTPM_BINARY};
use crate::qemu::args::{argv_pairs, build, flatten, NO_FIRMWARE};
use crate::text::{byte_views, bytes, bytes_from, owned, push_str};
use crate::tpm::{socket_args, socket_args_spec};
use crate::Error;

verus! {

broadcast use vstd::string::group_string_axioms;

/// A virtual machine that exists on disk: its configuration and its files.
#[derive(Debug, Clone)]
pub struct Vm {
    config: VmConfig,
    paths: VmPaths,
}

/// What [`Vm::launch`] answers when preflight found a blocker.
pub const RUN_DOCTOR: &'static str = "run `daholyvm doctor` to see what is missing";

/// The way out offered when a VM wants a TPM the host cannot provide.
pub open spec fn tpm_remedy(host: HostReport) -> Seq<char> {
    "`swtpm` was not found on PATH; "@ + install_hint_spec(host.package_manager_spec(), Package::Swtpm)
        + ", or recreate the VM with --no-tpm (Windows 11 will then refuse to install)"@
}

/// One thing the front end does to create or launch a VM.
#[derive(Debug)]
pub enum Step {
    /// Create a directory and any missing parents.
    CreateDir(Vec<u8>),
    /// Create the qcow2 image `image` of `size_gib` GiB with `qemu_img`,
    /// through [`crate::disk::create`] and [`crate::disk::finished`].
    CreateDisk { qemu_img: Vec<u8>, image: Vec<u8>, size_gib: u64 },
    /// Write the VM's configuration file.
    SaveConfig(Vec<u8>),
    /// Copy the firmware's variable store template to the VM's own copy.
    CopyVars { template: Vec<u8>, to: Vec<u8> },
    /// Start the software TPM in the background.
    StartTpm { binary: Vec<u8>, args: Vec<Vec<u8>> },
    /// Wait for the emulator's control socket, through [`crate::tpm::wait_step`].
    WaitForSocket(Vec<u8>),
    /// Start QEMU in the background.
    SpawnQemu { binary: Vec<u8>, args: Vec<Vec<u8>> },
    /// Tie the named helper's lifetime to the guest's: it is stopped when
    /// the guest exits, however that happens.
    Adopt(&'static str),
}

/// A [`Step`] as plain values: paths and arguments as bytes.
pub enum StepView {
    CreateDir(Seq<u8>),
    CreateDisk(Seq<u8>, Seq<u8>, u64),
    SaveConfig(Seq<u8>),
    CopyVars(Seq<u8>, Seq<u8>),
    StartTpm(Seq<u8>, Seq<Seq<u8>>),
    WaitForSocket(Seq<u8>),
    SpawnQemu(Seq<u8>, Seq<Seq<u8>>),
    Adopt(Seq<char>),
}

impl View for Step {
    type V = StepView;

    open spec fn view(&self) -> StepView {
        match self {
            Step::CreateDir(d) => StepView::CreateDir(d@),
            Step::CreateDisk { qemu_img, image, size_gib } => StepView::CreateDisk(
                qemu_img@,
                image@,
                *size_gib,
            ),
            Step::SaveConfig(p) => StepView::SaveConfig(p@),
            Step::CopyVars { template, to } => StepView::CopyVars(template@, to@),
            Step::StartTpm { binary, args } => StepView::StartTpm(binary@, byte_views(args@)),
            Step::WaitForSocket(s) => StepView::WaitForSocket(s@),
            Step::SpawnQemu { binary, args } => StepView::SpawnQemu(binary@, byte_views(args@)),
            Step::Adopt(name) => StepView::Adopt(name@),
        }
    }
}

pub open spec fn step_views(v: Seq<Step>) -> Seq<StepView> {
    v.map_values(|s: Step| s@)
}

/// Steps to perform in order, and the error to report once they are done,
/// if the work ends in one.
#[derive(Debug)]
pub struct Plan {
    pub steps: Vec<Step>,
    pub failure: Option<Error>,
}

/// What creating the VM named in `config` under `paths` takes: its
/// directory, its disk, then its saved configuration.
pub open spec fn create_steps(config: VmConfig, paths: Paths, qemu_img: Seq<u8>) -> Seq<StepView> {
    let dir = vm_dir_of(paths.data_spec(), config.name@);
    let disk = crate::paths::join(dir, bytes(crate::paths::DISK_FILE@));
    seq![
        StepView::CreateDir(dir),
        StepView::CreateDisk(qemu_img, disk, config.disk_gib),
        StepView::SaveConfig(crate::paths::join(dir, bytes(crate::paths::CONFIG_FILE@))),
    ]
}

/// The steps that give a VM its own variable store, unless it has one.
pub open spec fn vars_steps(host: HostReport, paths: VmPaths, vars_exists: bool) -> Seq<StepView> {
    if vars_exists {
        seq![]
    } else {
        seq![StepView::CopyVars(host.firmware.found@[0].vars_template@, paths.vars_spec())]
    }
}

/// The steps that bring up the software TPM: its state directory, the
/// socket's directory, the emulator, then the wait for its socket.
pub open spec fn tpm_steps(swtpm: Seq<u8>, paths: VmPaths) -> Seq<StepView> {
    seq![
        StepView::CreateDir(paths.tpm_state_spec()),
        StepView::CreateDir(paths.socket_dir_spec()),
        StepView::StartTpm(swtpm, socket_args_spec(paths.tpm_state_spec(), paths.socket_spec())),
        StepView::WaitForSocket(paths.socket_spec()),
    ]
}

/// Every emulator started is waited for before QEMU starts.
pub open spec fn waits_before_spawning(steps: Seq<StepView>) -> bool {
    forall|i: int, j: int|
        0 <= i < j < steps.len() && #[trigger] steps[i] is StartTpm && #[trigger] steps[j] is SpawnQemu
            ==> exists|w: int| i < w < j && #[trigger] steps[w] is WaitForSocket
}

/// The host is ready and the installation medium, if any, is there.
pub open spec fn launch_ready(config: VmConfig, host: HostReport, iso_is_file: bool) -> bool {
    host.can_launch_spec() && (config.iso is None || iso_is_file)
}

/// The VM wants a TPM the host cannot wire up: no emulator, or a socket
/// path longer than the kernel accepts.
pub open spec fn tpm_blocked(config: VmConfig, paths: VmPaths, host: HostReport) -> bool {
    config.tpm && (host.tpm.swtpm is None || paths.socket_spec().len() > MAX_SOCKET_PATH)
}

/// The steps of a launch: nothing on an unready host or without the ISO;
/// the VM's own variable store first; then, for a VM with a TPM, the
/// emulator, waited for; then QEMU, which adopts the emulator.
pub open spec fn launch_steps(
    config: VmConfig,
    paths: VmPaths,
    host: HostReport,
    iso_is_file: bool,
    vars_exists: bool,
) -> Seq<StepView> {
    if !launch_ready(config, host, iso_is_file) {
        seq![]
    } else if tpm_blocked(config, paths, host) {
        vars_steps(host, paths, vars_exists)
    } else {
        vars_steps(host, paths, vars_exists) + (if config.tpm {
            tpm_steps(host.tpm.swtpm->0@, paths)
        } else {
            seq![]
        }) + seq![
            StepView::SpawnQemu(
                host.qemu.system->0.path@,
                flatten(argv_pairs(config, host.firmware.found@[0].view(), host.kvm is Ready, paths)),
            ),
        ] + (if config.tpm {
            seq![StepView::Adopt(SWTPM_BINARY@)]
        } else {
            seq![]
        })
    }
}

/// A VM with a TPM starts its emulator and waits for the emulator's socket
/// before QEMU starts, in every launch.
pub proof fn lemma_launch_waits_for_the_emulator(
    config: VmConfig,
    paths: VmPaths,
    host: HostReport,
    iso_is_file: bool,
    vars_exists: bool,
)
    ensures
        waits_before_spawning(launch_steps(config, paths, host, iso_is_file, vars_exists)),
{
    let steps = launch_steps(config, paths, host, iso_is_file, vars_exists);
    let v = vars_steps(host, paths, vars_exists);
    assert(forall|k: int| 0 <= k < v.len() ==> #[trigger] v[k] is CopyVars);
    if launch_ready(config, host, iso_is_file) && !tpm_blocked(config, paths, host) {
        let spawn = StepView::SpawnQemu(
            host.qemu.system->0.path@,
            flatten(argv_pairs(config, host.firmware.found@[0].view(), host.kvm is Ready, paths)),
        );
        if config.tpm {
            let t = tpm_steps(host.tpm.swtpm->0@, paths);
            let tail = t + seq![spawn, StepView::Adopt(SWTPM_BINARY@)];
            assert(steps =~= v + tail);
            assert forall|i: int, j: int|
                0 <= i < j < steps.len() && #[trigger] steps[i] is StartTpm
                    && #[trigger] steps[j] is SpawnQemu implies exists|w: int|
                i < w < j && #[trigger] steps[w] is WaitForSocket by {
                let n = v.len() as int;
                assert(i >= n) by {
                    if i < n {
                        assert(steps[i] == v[i]);
                    }
                }
                assert(steps[i] == tail[i - n]);
                assert(steps[j] == tail[j - n]);
                assert(i - n == 2);
                assert(j - n == 4);
                assert(steps[n + 3] == tail[3]);
                assert(steps[n + 3] is WaitForSocket);
            }
        } else {
            let tail = seq![spawn];
            assert(steps =~= v + tail);
            assert forall|i: int, j: int|
                0 <= i < j < steps.len() && #[trigger] steps[i] is StartTpm
                    && #[trigger] steps[j] is SpawnQemu implies exists|w: int|
                i < w < j && #[trigger] steps[w] is WaitForSocket by {
                let n = v.len() as int;
                if i < n {
                    assert(steps[i] == v[i]);
                } else {
                    assert(steps[i] == tail[i - n]);
                }
            }
        }
    } else {
        assert forall|i: int, j: int|
            0 <= i < j < steps.len() && #[trigger] steps[i] is StartTpm
                && #[trigger] steps[j] is SpawnQemu implies exists|w: int|
            i < w < j && #[trigger] steps[w] is WaitForSocket by {
            assert(steps[i] == v[i]);
        }
    }
}

/// Before the software TPM starts, both directories it needs exist: the
/// directory its socket goes in, and its state directory. Each `StartTpm`
/// step is preceded by a `CreateDir` of the socket's directory and one of
/// the state directory, and it is told to listen on the VM's socket.
pub proof fn lemma_the_emulator_finds_its_directories(
    config: VmConfig,
    paths: VmPaths,
    host: HostReport,
    iso_is_file: bool,
    vars_exists: bool,
)
    ensures
        forall|j: int|
            0 <= j < launch_steps(config, paths, host, iso_is_file, vars_exists).len()
                && #[trigger] launch_steps(config, paths, host, iso_is_file, vars_exists)[j] is StartTpm
                ==> {
                &&& exists|i: int|
                    0 <= i < j && launch_steps(config, paths, host, iso_is_file, vars_exists)[i]
                        == StepView::CreateDir(paths.socket_dir_spec())
                &&& exists|i: int|
                    0 <= i < j && launch_steps(config, paths, host, iso_is_file, vars_exists)[i]
                        == StepView::CreateDir(paths.tpm_state_spec())
                &&& launch_steps(config, paths, host, iso_is_file, vars_exists)[j] matches StepView::StartTpm(
                    _,
                    args,
                ) && args.len() == 6 && args[4] == bytes("type=unixio,path="@) + paths.socket_spec()
                    && args[2] == bytes("dir="@) + paths.tpm_state_spec()
            },
{
    let steps = launch_steps(config, paths, host, iso_is_file, vars_exists);
    let v = vars_steps(host, paths, vars_exists);
    assert(forall|k: int| 0 <= k < v.len() ==> #[trigger] v[k] is CopyVars);
    if launch_ready(config, host, iso_is_file) && !tpm_blocked(config, paths, host) {
        let spawn = StepView::SpawnQemu(
            host.qemu.system->0.path@,
            flatten(argv_pairs(config, host.firmware.found@[0].view(), host.kvm is Ready, paths)),
        );
        let n = v.len() as int;
        if config.tpm {
            let t = tpm_steps(host.tpm.swtpm->0@, paths);
            let tail = t + seq![spawn, StepView::Adopt(SWTPM_BINARY@)];
            assert(steps =~= v + tail);
            assert forall|j: int| 0 <= j < steps.len() && #[trigger] steps[j] is StartTpm implies {
                &&& exists|i: int| 0 <= i < j && steps[i] == StepView::CreateDir(paths.socket_dir_spec())
                &&& exists|i: int| 0 <= i < j && steps[i] == StepView::CreateDir(paths.tpm_state_spec())
                &&& steps[j] matches StepView::StartTpm(_, args) && args.len() == 6 && args[4] == bytes(
                    "type=unixio,path="@,
                ) + paths.socket_spec() && args[2] == bytes("dir="@) + paths.tpm_state_spec()
            } by {
                if j < n {
                    assert(steps[j] == v[j]);
                }
                assert(steps[j] == tail[j - n]);
                assert(j - n == 2);
                assert(steps[n] == tail[0]);
                assert(steps[n + 1] == tail[1]);
            }
        } else {
            let tail = seq![spawn];
            assert(steps =~= v + tail);
            assert forall|j: int| 0 <= j < steps.len() && #[trigger] steps[j] is StartTpm implies false by {
                if j < n {
                    assert(steps[j] == v[j]);
                } else {
                    assert(steps[j] == tail[j - n]);
                }
            }
        }
    } else {
        assert forall|j: int| 0 <= j < steps.len() && #[trigger] steps[j] is StartTpm implies false by {
            assert(steps[j] == v[j]);
        }
    }
}

/// Creating a VM makes its directory first, and then exactly one disk: with
/// the `qemu-img` the host has, inside the VM's directory, of exactly the size
/// the configuration asks for.
pub proof fn lemma_create_makes_the_disk_asked_for(config: VmConfig, paths: Paths, qemu_img: Seq<u8>)
    ensures
        create_steps(config, paths, qemu_img).len() > 0,
        create_steps(config, paths, qemu_img)[0] == StepView::CreateDir(
            vm_dir_of(paths.data_spec(), config.name@),
        ),
        exists|i: int|
            0 <= i < create_steps(config, paths, qemu_img).len() && #[trigger] create_steps(
                config,
                paths,
                qemu_img,
            )[i] is CreateDisk,
        forall|i: int|
            0 <= i < create_steps(config, paths, qemu_img).len() && #[trigger] create_steps(
                config,
                paths,
                qemu_img,
            )[i] is CreateDisk ==> create_steps(config, paths, qemu_img)[i] == StepView::CreateDisk(
                qemu_img,
                crate::paths::join(
                    vm_dir_of(paths.data_spec(), config.name@),
                    bytes(crate::paths::DISK_FILE@),
                ),
                config.disk_gib,
            ),
{
    let s = create_steps(config, paths, qemu_img);
    assert(s[1] is CreateDisk);
}

impl Vm {
    pub closed spec fn config_spec(&self) -> VmConfig {
        self.config
    }

    pub closed spec fn paths_spec(&self) -> VmPaths {
        self.paths
    }

    /// A VM with this configuration, stored in these files.
    pub fn new(config: VmConfig, paths: VmPaths) -> (vm: Vm)
        ensures
            vm.config_spec() == config,
            vm.paths_spec() == paths,
    {
        Vm { config, paths }
    }

    pub fn config(&self) -> (c: &VmConfig)
        ensures
            *c == self.config_spec(),
    {
        &self.config
    }

    pub fn paths(&self) -> (p: &VmPaths)
        ensures
            *p == self.paths_spec(),
    {
        &self.paths
    }

    /// Create a VM: its directory, its disk and its saved configuration,
    /// given whether its directory already exists.
    ///
    /// Ordered so that the cheap checks fail first, and nothing is written
    /// until the configuration is known to be valid and the VM is known not
    /// to exist, because a half-created VM is worse than none: an invalid
    /// configuration is refused, then an existing VM, then a host without
    /// `qemu-img`.
    pub fn create(config: VmConfig, paths: &Paths, host: &HostReport, exists: bool) -> (r: Result<
        (Vm, Vec<Step>),
        Error,
    >)
        ensures
            !config_in_range(config.cpus, config.memory_mib, config.disk_gib) ==> (r matches Err(e)
                && e matches Error::InvalidConfig { field, problem } && config_problem(
                config.cpus,
                config.memory_mib,
                config.disk_gib,
            ) matches Some(fp) && field == fp.0 && problem@ == fp.1@),
            config_in_range(config.cpus, config.memory_mib, config.disk_gib) && exists ==> (r matches Err(
                e,
            ) && e matches Error::VmExists(n) && n@ == config.name@),
            config_in_range(config.cpus, config.memory_mib, config.disk_gib) && !exists
                && host.qemu.img is None ==> (r matches Err(e) && e matches Error::MissingBinary {
                binary,
            } && binary@ == QEMU_IMG_BINARY@),
            config_in_range(config.cpus, config.memory_mib, config.disk_gib) && !exists
                && host.qemu.img is Some ==> (r matches Ok((vm, steps)) && vm.config_spec() == config
                && vm.paths_spec().dir_spec() == vm_dir_of(paths.data_spec(), config.name@)
                && vm.paths_spec().socket_spec() == socket_of(
                paths.data_spec(),
                paths.runtime_spec(),
                config.name@,
            ) && step_views(steps@) == create_steps(config, *paths, host.qemu.img->0.path@)),
    {
        config.validate()?;
        let vm_paths = paths.vm(&config.name);
        if exists {
            return Err(Error::VmExists(owned(config.name.as_str())));
        }
        let qemu_img = match &host.qemu.img {
            Some(img) => bytes_from(img.path.as_slice()),
            None => {
                return Err(Error::MissingBinary { binary: QEMU_IMG_BINARY });
            },
        };
        let disk = vm_paths.disk();
        let steps = vec![
            Step::CreateDir(bytes_from(vm_paths.dir())),
            Step::CreateDisk { qemu_img, image: disk, size_gib: config.disk_gib },
            Step::SaveConfig(vm_paths.config()),
        ];
        let vm = Vm { config, paths: vm_paths };
        assert(step_views(steps@) =~= create_steps(vm.config, *paths, host.qemu.img->0.path@));
        Ok((vm, steps))
    }

    /// Find the files of the VM `name`, given whether its directory exists.
    /// An absent VM is an error that names it.
    pub fn load(name: &VmName, paths: &Paths, exists: bool) -> (r: Result<VmPaths, Error>)
        ensures
            r is Err <==> !exists,
            r matches Err(e) ==> e matches Error::NoSuchVm(n) && n@ == name@,
            r matches Ok(p) ==> p.dir_spec() == vm_dir_of(paths.data_spec(), name@)
                && p.socket_spec() == socket_of(paths.data_spec(), paths.runtime_spec(), name@)
                && p.socket_dir_spec() == socket_dir_of(
                paths.data_spec(),
                paths.runtime_spec(),
                name@,
            ),
    {
        let vm_paths = paths.vm(name);
        if !exists {
            return Err(Error::NoSuchVm(owned(name.as_str())));
        }
        Ok(vm_paths)
    }

    /// Boot the guest, given whether the configured ISO is a file and whether
    /// the VM already has its own variable store.
    ///
    /// Refuses on a host preflight says cannot launch: QEMU's own diagnostics
    /// for a missing binary or absent firmware are considerably worse than the
    /// remedies `doctor` already has. The ISO is checked here rather than in
    /// [`VmConfig::validate`], since it can be moved or unmounted long after
    /// the VM was created. The variable store is copied from the firmware's
    /// template once and then left alone: recopying would discard the boot
    /// order and Secure Boot keys the guest has since written. swtpm has to be
    /// listening before QEMU starts, because QEMU connects to its socket as it
    /// comes up and fails outright if it is not there; an overlong socket path
    /// is caught by name here, because the kernel silently truncates it
    /// instead. A VM without a TPM never looks for swtpm.
    #[verifier::rlimit(40)]
    #[verifier::spinoff_prover]
    pub fn launch(&self, host: &HostReport, iso_is_file: bool, vars_exists: bool) -> (p: Plan)
        ensures
            step_views(p.steps@) == launch_steps(
                self.config_spec(),
                self.paths_spec(),
                *host,
                iso_is_file,
                vars_exists,
            ),
            !host.can_launch_spec() ==> (p.failure matches Some(e) && e matches Error::HostNotReady(
                m,
            ) && m@ == RUN_DOCTOR@),
            host.can_launch_spec() && !launch_ready(self.config_spec(), *host, iso_is_file) ==> (
            p.failure matches Some(e) && e matches Error::MissingIso(i)
                && i@ == self.config_spec().iso->0@),
            launch_ready(self.config_spec(), *host, iso_is_file) && self.config_spec().tpm
                && host.tpm.swtpm is None ==> (p.failure matches Some(e)
                && e matches Error::TpmUnavailable { remedy } && remedy@ == tpm_remedy(*host)),
            launch_ready(self.config_spec(), *host, iso_is_file) && self.config_spec().tpm
                && host.tpm.swtpm is Some && self.paths_spec().socket_spec().len()
                > MAX_SOCKET_PATH ==> (p.failure matches Some(e)
                && e matches Error::SocketPathTooLong { path, length, limit }
                && path@ == self.paths_spec().socket_spec() && length
                == self.paths_spec().socket_spec().len() && limit == MAX_SOCKET_PATH),
            launch_ready(self.config_spec(), *host, iso_is_file) && !tpm_blocked(
                self.config_spec(),
                self.paths_spec(),
                *host,
            ) ==> p.failure is None,
            waits_before_spawning(step_views(p.steps@)),
            !self.config_spec().tpm ==> !(p.failure matches Some(e) && e is TpmUnavailable),
            !self.config_spec().tpm ==> forall|i: int|
                0 <= i < p.steps@.len() ==> !(#[trigger] p.steps@[i] is StartTpm),
            vars_exists ==> forall|i: int|
                0 <= i < p.steps@.len() ==> !(#[trigger] p.steps@[i] is CopyVars),
    {
        proof {
            crate::preflight::lemma_can_launch_exactly_when(*host);
            lemma_launch_waits_for_the_emulator(
                self.config,
                self.paths,
                *host,
                iso_is_file,
                vars_exists,
            );
        }
        if !host.can_launch() {
            return Plan { steps: Vec::new(), failure: Some(Error::HostNotReady(RUN_DOCTOR)) };
        }
        if let Some(iso) = &self.config.iso {
            if !iso_is_file {
                return Plan { steps: Vec::new(), failure: Some(Error::MissingIso(bytes_from(iso.as_slice()))) };
            }
        }
        let qemu_system = match &host.qemu.system {
            Some(binary) => bytes_from(binary.path.as_slice()),
            None => {
                return Plan {
                    steps: Vec::new(),
                    failure: Some(Error::MissingBinary { binary: QEMU_SYSTEM_BINARY }),
                };
            },
        };
        let mut steps: Vec<Step> = Vec::new();
        if !vars_exists {
            match host.firmware.best() {
                Some(firmware) => {
                    steps.push(
                        Step::CopyVars {
                            template: bytes_from(firmware.vars_template.as_slice()),
                            to: self.paths.vars(),
                        },
                    );
                },
                None => {
                    return Plan { steps, failure: Some(Error::HostNotReady(NO_FIRMWARE)) };
                },
            }
        }
        let ghost before_tpm = step_views(steps@);
        assert(before_tpm =~= vars_steps(*host, self.paths, vars_exists));
        if self.config.tpm {
            let swtpm = match &host.tpm.swtpm {
                Some(path) => bytes_from(path.as_slice()),
                None => {
                    let mut remedy = owned("`swtpm` was not found on PATH; ");
                    let hint = host.platform.package_manager().install_hint(Package::Swtpm);
                    push_str(&mut remedy, hint.as_str());
                    push_str(
                        &mut remedy,
                        ", or recreate the VM with --no-tpm (Windows 11 will then refuse to install)",
                    );
                    return Plan { steps, failure: Some(Error::TpmUnavailable { remedy }) };
                },
            };
            let socket = self.paths.tpm_socket();
            let length = socket.len();
            if length > MAX_SOCKET_PATH {
                return Plan {
                    steps,
                    failure: Some(
                        Error::SocketPathTooLong {
                            path: bytes_from(socket),
                            length,
                            limit: MAX_SOCKET_PATH,
                        },
                    ),
                };
            }
            let state = self.paths.tpm_state();
            let args = socket_args(state.as_slice(), socket);
            steps.push(Step::CreateDir(state));
            steps.push(Step::CreateDir(bytes_from(self.paths.socket_dir())));
            steps.push(Step::StartTpm { binary: swtpm, args });
            steps.push(Step::WaitForSocket(bytes_from(socket)));
        }
        let argv = match build(&self.config, host, &self.paths) {
            Ok(argv) => argv,
            Err(e) => {
                return Plan { steps, failure: Some(e) };
            },
        };
        steps.push(Step::SpawnQemu { binary: qemu_system, args: argv });
        if self.config.tpm {
            steps.push(Step::Adopt(SWTPM_BINARY));
        }
        let plan = Plan { steps, failure: None };
        assert(step_views(plan.steps@) =~= launch_steps(
            self.config,
            self.paths,
            *host,
            iso_is_file,
            vars_exists,
        ));
        plan
    }
}

} // verus!
