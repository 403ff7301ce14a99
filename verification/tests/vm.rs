use daholyvm_core::config::{VmConfig, VmName};
use daholyvm_core::paths::Paths;
use daholyvm_core::preflight::{
    Cpu, Firmware, FirmwarePair, HostReport, Kvm, OsRelease, Platform, Qemu, QemuBinary, Tpm,
    Version, VirtExtension,
};
use daholyvm_core::vm::{Plan, Step};
use daholyvm_core::{Error, Vm};

fn binary(path: &str) -> QemuBinary {
    QemuBinary {
        path: path.as_bytes().to_vec(),
        version: Some(Version {
            major: 9,
            minor: 1,
            patch: 0,
        }),
    }
}

fn host_with(qemu: bool, swtpm: Option<&str>) -> HostReport {
    HostReport {
        platform: Platform {
            is_linux: true,
            os: "linux",
            arch: "x86_64",
            kernel: None,
            os_release: OsRelease::detect_in(Some("ID=arch\n")),
            memory_total_kib: None,
            memory_available_kib: None,
        },
        cpu: Cpu {
            model: None,
            logical_cores: 4,
            virt: Some(VirtExtension::IntelVtx),
        },
        kvm: Kvm::Ready,
        qemu: Qemu {
            system: if qemu { Some(binary("/usr/bin/qemu-system-x86_64")) } else { None },
            img: if qemu { Some(binary("/usr/bin/qemu-img")) } else { None },
        },
        firmware: Firmware {
            found: vec![FirmwarePair {
                code: b"/code.fd".to_vec(),
                vars_template: b"/vars.fd".to_vec(),
                secure_boot: true,
                flash_size_mb: 4,
                origin: "test",
            }],
        },
        tpm: Tpm {
            swtpm: swtpm.map(|p| p.as_bytes().to_vec()),
        },
    }
}

fn host_without_qemu() -> HostReport {
    host_with(false, None)
}

fn name(text: &str) -> VmName {
    VmName::new(text).unwrap()
}

fn vm_at(root: &str, config: VmConfig) -> Vm {
    let paths = Paths::at(root.as_bytes()).vm(&config.name);
    Vm::new(config, paths)
}

fn kinds(plan: &Plan) -> Vec<&'static str> {
    plan.steps
        .iter()
        .map(|step| match step {
            Step::CreateDir(_) => "mkdir",
            Step::CreateDisk { .. } => "create-disk",
            Step::SaveConfig(_) => "save",
            Step::CopyVars { .. } => "copy-vars",
            Step::StartTpm { .. } => "start-tpm",
            Step::WaitForSocket(_) => "wait",
            Step::SpawnQemu { .. } => "spawn",
            Step::Adopt(_) => "adopt",
        })
        .collect()
}

#[test]
fn creating_without_qemu_img_reports_the_missing_binary() {
    let paths = Paths::at(b"/tmp/daholyvm-vm-no-qemu-img");
    let config = VmConfig::new(name("win11"));
    let err = Vm::create(config, &paths, &host_without_qemu(), false).unwrap_err();
    assert!(matches!(err, Error::MissingBinary { .. }), "{err:?}");
}

#[test]
fn an_invalid_config_is_rejected_before_anything_is_written() {
    let paths = Paths::at(b"/tmp/daholyvm-vm-invalid-config");
    let mut config = VmConfig::new(name("win11"));
    config.cpus = 0;
    // The VM is said to exist too: the configuration is checked first.
    let err = Vm::create(config, &paths, &host_with(true, None), true).unwrap_err();
    assert!(matches!(err, Error::InvalidConfig { field: "cpus", .. }), "{err:?}");
}

#[test]
fn loading_an_absent_vm_names_it() {
    let paths = Paths::at(b"/tmp/daholyvm-vm-absent");
    let err = Vm::load(&name("ghost"), &paths, false).unwrap_err();
    assert!(matches!(err, Error::NoSuchVm(_)), "{err:?}");
    assert!(err.message().contains("ghost"));
}

#[test]
fn loading_a_present_vm_finds_its_files() {
    let paths = Paths::at(b"/data/daholyvm");
    let found = Vm::load(&name("win11"), &paths, true).unwrap();
    assert_eq!(found.dir(), b"/data/daholyvm/vms/win11");
    assert_eq!(found.config(), b"/data/daholyvm/vms/win11/config.toml");
}

#[test]
fn creating_a_vm_that_already_exists_is_refused() {
    let paths = Paths::at(b"/tmp/daholyvm-vm-duplicate");
    let config = VmConfig::new(name("win11"));
    let err = Vm::create(config, &paths, &host_without_qemu(), true).unwrap_err();
    assert!(matches!(err, Error::VmExists(_)), "{err:?}");
}

#[test]
fn creating_makes_the_directory_then_the_disk_then_the_configuration() {
    let paths = Paths::at(b"/data/daholyvm");
    let config = VmConfig::new(name("win11"));
    let (vm, steps) = Vm::create(config, &paths, &host_with(true, None), false).unwrap();
    assert_eq!(vm.config().name.as_str(), "win11");
    assert_eq!(vm.paths().dir(), b"/data/daholyvm/vms/win11");
    assert_eq!(steps.len(), 3);
    assert!(matches!(&steps[0], Step::CreateDir(d) if d == b"/data/daholyvm/vms/win11"));
    match &steps[1] {
        Step::CreateDisk {
            qemu_img,
            image,
            size_gib,
        } => {
            assert_eq!(qemu_img, b"/usr/bin/qemu-img");
            assert_eq!(image, b"/data/daholyvm/vms/win11/disk.qcow2");
            assert_eq!(*size_gib, 64);
        }
        other => panic!("{other:?}"),
    }
    assert!(
        matches!(&steps[2], Step::SaveConfig(p) if p == b"/data/daholyvm/vms/win11/config.toml")
    );
}

#[test]
fn launching_on_an_unready_host_points_at_doctor() {
    let vm = vm_at("/tmp/daholyvm-vm-unready", VmConfig::new(name("win11")));
    let plan = vm.launch(&host_without_qemu(), true, false);
    assert!(plan.steps.is_empty());
    let err = plan.failure.unwrap();
    assert!(err.message().contains("doctor"), "{err:?}");
}

#[test]
fn a_tpm_vm_on_a_host_without_swtpm_says_what_to_install() {
    let vm = vm_at("/tmp/daholyvm-vm-no-swtpm", VmConfig::new(name("win11")));
    let plan = vm.launch(&host_with(true, None), true, false);
    let err = plan.failure.as_ref().unwrap();
    assert!(matches!(err, Error::TpmUnavailable { .. }), "{err:?}");
    let text = err.message();
    assert!(text.contains("swtpm"), "{text}");
    assert!(text.contains("--no-tpm"), "the way out must be offered: {text}");
    assert!(text.contains("sudo pacman -S --needed swtpm"), "{text}");
    // The variable store was provisioned before the TPM was looked for.
    assert_eq!(kinds(&plan), vec!["copy-vars"]);
}

#[test]
fn an_overlong_socket_path_is_rejected_by_name() {
    let root = format!("/tmp/daholyvm-vm-long-socket/{}", "a".repeat(120));
    let vm = vm_at(&root, VmConfig::new(name("win11")));
    let plan = vm.launch(&host_with(true, Some("/usr/bin/swtpm")), true, true);
    match plan.failure {
        Some(Error::SocketPathTooLong { length, limit, .. }) => {
            assert!(length > limit);
            assert_eq!(limit, 107);
        }
        other => panic!("{other:?}"),
    }
    assert!(plan.steps.is_empty());
}

#[test]
fn a_vm_without_a_tpm_never_looks_for_swtpm() {
    let vm = vm_at(
        "/tmp/daholyvm-vm-no-tpm-configured",
        VmConfig::new(name("win10")).with_tpm(false),
    );
    let plan = vm.launch(&host_without_qemu(), true, false);
    assert!(
        !matches!(plan.failure, Some(Error::TpmUnavailable { .. })),
        "a VM with tpm = false must not require swtpm: {:?}",
        plan.failure
    );
    let plan = vm.launch(&host_with(true, None), true, false);
    assert!(plan.failure.is_none(), "{:?}", plan.failure);
    assert_eq!(kinds(&plan), vec!["copy-vars", "spawn"]);
}

#[test]
fn the_tpm_is_started_and_waited_for_before_the_guest() {
    let vm = vm_at("/data/daholyvm", VmConfig::new(name("win11")));
    let plan = vm.launch(&host_with(true, Some("/usr/bin/swtpm")), true, false);
    assert!(plan.failure.is_none(), "{:?}", plan.failure);
    assert_eq!(
        kinds(&plan),
        vec!["copy-vars", "mkdir", "mkdir", "start-tpm", "wait", "spawn", "adopt"]
    );
    assert!(matches!(&plan.steps[1], Step::CreateDir(d) if d == b"/data/daholyvm/vms/win11/tpm"));
    match &plan.steps[3] {
        Step::StartTpm { binary, args } => {
            assert_eq!(binary, b"/usr/bin/swtpm");
            assert!(args.contains(&b"dir=/data/daholyvm/vms/win11/tpm".to_vec()));
        }
        other => panic!("{other:?}"),
    }
    assert!(matches!(
        &plan.steps[4],
        Step::WaitForSocket(s) if s == b"/data/daholyvm/vms/win11/tpm/swtpm.sock"
    ));
    match &plan.steps[5] {
        Step::SpawnQemu { binary, args } => {
            assert_eq!(binary, b"/usr/bin/qemu-system-x86_64");
            assert_eq!(args[0], b"-name");
        }
        other => panic!("{other:?}"),
    }
    assert!(matches!(&plan.steps[6], Step::Adopt("swtpm")));
}

#[test]
fn an_existing_variable_store_is_never_overwritten() {
    let vm = vm_at("/data/daholyvm", VmConfig::new(name("win11")));
    let plan = vm.launch(&host_with(true, Some("/usr/bin/swtpm")), true, true);
    assert!(!kinds(&plan).contains(&"copy-vars"));
    let plan = vm.launch(&host_with(true, Some("/usr/bin/swtpm")), true, false);
    match &plan.steps[0] {
        Step::CopyVars { template, to } => {
            assert_eq!(template, b"/vars.fd");
            assert_eq!(to, b"/data/daholyvm/vms/win11/OVMF_VARS.fd");
        }
        other => panic!("{other:?}"),
    }
}

#[test]
fn a_missing_iso_stops_the_launch_before_anything_runs() {
    let config = VmConfig::new(name("win11")).with_iso(Some(b"/iso/Win11.iso".to_vec()));
    let vm = vm_at("/data/daholyvm", config);
    let plan = vm.launch(&host_with(true, Some("/usr/bin/swtpm")), false, false);
    assert!(plan.steps.is_empty());
    match plan.failure {
        Some(Error::MissingIso(path)) => assert_eq!(path, b"/iso/Win11.iso"),
        other => panic!("{other:?}"),
    }
}

#[test]
fn a_data_directory_that_is_not_utf8_reaches_every_step_unchanged() {
    let vm = vm_at("/data/daholyvm", VmConfig::new(name("win11")));
    let paths = Paths::at(b"/d\xe4ta").vm(&name("win11"));
    let vm = Vm::new(vm.config().clone(), paths);
    let plan = vm.launch(&host_with(true, Some("/usr/bin/swtpm")), true, false);
    assert!(plan.failure.is_none(), "{:?}", plan.failure);
    match &plan.steps[0] {
        Step::CopyVars { to, .. } => assert_eq!(to, b"/d\xe4ta/vms/win11/OVMF_VARS.fd"),
        other => panic!("{other:?}"),
    }
    assert!(matches!(
        &plan.steps[4],
        Step::WaitForSocket(s) if s == b"/d\xe4ta/vms/win11/tpm/swtpm.sock"
    ));
}
