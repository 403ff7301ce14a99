use daholyvm_core::config::{VmConfig, VmName};
use daholyvm_core::paths::{Paths, VmPaths};
use daholyvm_core::preflight::{
    Cpu, Firmware, FirmwarePair, HostReport, Kvm, OsRelease, Platform, Qemu, Tpm, VirtExtension,
};
use daholyvm_core::qemu::args::escaped_value;
use daholyvm_core::qemu::build;
use daholyvm_core::Error;

fn firmware_pair(secure_boot: bool) -> FirmwarePair {
    FirmwarePair {
        code: b"/usr/share/edk2/x64/OVMF_CODE.secboot.4m.fd".to_vec(),
        vars_template: b"/usr/share/edk2/x64/OVMF_VARS.4m.fd".to_vec(),
        secure_boot,
        flash_size_mb: 4,
        origin: "test",
    }
}

fn host(kvm: Kvm, firmware: Vec<FirmwarePair>) -> HostReport {
    HostReport {
        platform: Platform {
            is_linux: true,
            os: "linux",
            arch: "x86_64",
            kernel: None,
            os_release: OsRelease::default(),
            memory_total_kib: None,
            memory_available_kib: None,
        },
        cpu: Cpu {
            model: None,
            logical_cores: 8,
            virt: Some(VirtExtension::IntelVtx),
        },
        kvm,
        qemu: Qemu {
            system: None,
            img: None,
        },
        firmware: Firmware { found: firmware },
        tpm: Tpm {
            swtpm: Some(b"/usr/bin/swtpm".to_vec()),
        },
    }
}

fn ready_host() -> HostReport {
    host(Kvm::Ready, vec![firmware_pair(true)])
}

fn config(iso: Option<&str>) -> VmConfig {
    VmConfig::new(VmName::new("win11").unwrap()).with_iso(iso.map(|p| p.as_bytes().to_vec()))
}

fn vm_paths() -> VmPaths {
    Paths::at(b"/data/daholyvm").vm(&VmName::new("win11").unwrap())
}

fn build_ok(config: &VmConfig, host: &HostReport) -> Vec<String> {
    build(config, host, &vm_paths())
        .unwrap()
        .into_iter()
        .map(|a| String::from_utf8(a).unwrap())
        .collect()
}

fn value_of(argv: &[String], flag: &str) -> Option<String> {
    let at = argv.iter().position(|a| a == flag)?;
    argv.get(at + 1).cloned()
}

fn values_of(argv: &[String], flag: &str) -> Vec<String> {
    argv.windows(2)
        .filter(|pair| pair[0] == flag)
        .map(|pair| pair[1].clone())
        .collect()
}

#[test]
fn uses_kvm_and_the_host_cpu_when_the_host_is_accelerated() {
    let argv = build_ok(&config(None), &ready_host());
    assert_eq!(value_of(&argv, "-accel").as_deref(), Some("kvm"));
    assert_eq!(value_of(&argv, "-cpu").as_deref(), Some("host"));
}

#[test]
fn falls_back_to_emulation_without_kvm() {
    let host = host(Kvm::DeviceMissing, vec![firmware_pair(true)]);
    let argv = build_ok(&config(None), &host);
    assert_eq!(value_of(&argv, "-accel").as_deref(), Some("tcg"));
    assert_eq!(value_of(&argv, "-cpu").as_deref(), Some("qemu64"));
}

#[test]
fn passes_the_configured_sizing_through() {
    let mut config = config(None);
    config.cpus = 6;
    config.memory_mib = 8192;
    let argv = build_ok(&config, &ready_host());
    assert_eq!(value_of(&argv, "-smp").as_deref(), Some("6"));
    assert_eq!(value_of(&argv, "-m").as_deref(), Some("8192"));
}

#[test]
fn secure_boot_firmware_enables_smm_and_locks_the_variable_store() {
    let argv = build_ok(&config(None), &ready_host());
    assert_eq!(value_of(&argv, "-machine").as_deref(), Some("q35,smm=on"));
    assert!(values_of(&argv, "-global")
        .iter()
        .any(|v| v == "driver=cfi.pflash01,property=secure,value=on"));
}

#[test]
fn plain_firmware_leaves_smm_off_and_does_not_claim_to_be_secure() {
    let host = host(Kvm::Ready, vec![firmware_pair(false)]);
    let argv = build_ok(&config(None), &host);
    assert_eq!(value_of(&argv, "-machine").as_deref(), Some("q35,smm=off"));
    assert!(!values_of(&argv, "-global")
        .iter()
        .any(|v| v.contains("property=secure")));
}

#[test]
fn attaches_the_firmware_read_only_and_the_vm_s_own_variable_store_writable() {
    let argv = build_ok(&config(None), &ready_host());
    let drives = values_of(&argv, "-drive");

    let code = drives.iter().find(|d| d.contains("OVMF_CODE")).unwrap();
    assert!(code.contains("readonly=on"), "firmware must not be writable");

    let vars = drives.iter().find(|d| d.contains("OVMF_VARS")).unwrap();
    assert!(
        vars.contains("/data/daholyvm/vms/win11/OVMF_VARS.fd"),
        "the VM's private copy must be used, not the template: {vars}"
    );
    assert!(!vars.contains("readonly"));
}

#[test]
fn puts_the_system_disk_on_ahci_because_windows_has_no_virtio_driver() {
    let argv = build_ok(&config(None), &ready_host());
    assert!(values_of(&argv, "-device")
        .iter()
        .any(|d| d == "ich9-ahci,id=sata"));
    assert!(values_of(&argv, "-device")
        .iter()
        .any(|d| d.starts_with("ide-hd")));
    assert!(
        !argv
            .iter()
            .any(|a| a.contains("virtio-blk") || a.contains("virtio-scsi")),
        "the installer would show no disks: {argv:?}"
    );
    assert!(values_of(&argv, "-drive")
        .iter()
        .any(|d| d.contains("/data/daholyvm/vms/win11/disk.qcow2")));
}

#[test]
fn an_iso_is_attached_as_a_cdrom_and_booted_first() {
    let argv = build_ok(&config(Some("/iso/Win11.iso")), &ready_host());
    let cd = values_of(&argv, "-drive")
        .into_iter()
        .find(|d| d.contains("media=cdrom"))
        .expect("a cdrom drive");
    assert!(cd.contains("/iso/Win11.iso"));
    assert!(cd.contains("readonly=on"));
    assert_eq!(value_of(&argv, "-boot").as_deref(), Some("order=dc"));
}

#[test]
fn without_an_iso_the_disk_is_the_only_boot_device() {
    let argv = build_ok(&config(None), &ready_host());
    assert_eq!(value_of(&argv, "-boot").as_deref(), Some("order=c"));
    assert!(!argv.iter().any(|a| a.contains("media=cdrom")));
}

#[test]
fn a_comma_in_a_path_is_escaped_rather_than_read_as_further_options() {
    let argv = build_ok(&config(Some("/iso/Windows 11, 24H2.iso")), &ready_host());
    let cd = values_of(&argv, "-drive")
        .into_iter()
        .find(|d| d.contains("media=cdrom"))
        .unwrap();
    assert!(
        cd.ends_with("file=/iso/Windows 11,, 24H2.iso"),
        "comma must be doubled: {cd}"
    );
}

#[test]
fn every_flag_has_a_value_and_paths_stay_single_arguments() {
    let argv = build_ok(&config(Some("/iso/a b;c.iso")), &ready_host());
    assert_eq!(argv.len() % 2, 0, "flags and values must pair up: {argv:?}");
    assert!(argv
        .chunks(2)
        .all(|pair| pair[0].starts_with('-') && !pair[1].starts_with('-')));
    assert!(argv.iter().any(|a| a.contains("/iso/a b;c.iso")));
}

#[test]
fn a_tpm_is_wired_to_the_swtpm_socket_by_default() {
    let argv = build_ok(&config(None), &ready_host());
    assert_eq!(
        value_of(&argv, "-chardev").as_deref(),
        Some("socket,id=chrtpm,path=/data/daholyvm/vms/win11/tpm/swtpm.sock")
    );
    assert_eq!(
        value_of(&argv, "-tpmdev").as_deref(),
        Some("emulator,id=tpm0,chardev=chrtpm")
    );
    assert!(values_of(&argv, "-device")
        .iter()
        .any(|d| d == "tpm-tis,tpmdev=tpm0"));
}

#[test]
fn turning_the_tpm_off_removes_every_trace_of_it() {
    let argv = build_ok(&config(None).with_tpm(false), &ready_host());
    assert!(
        !argv.iter().any(|a| a.contains("tpm")),
        "no TPM flags may survive: {argv:?}"
    );
}

#[test]
fn a_host_without_firmware_cannot_produce_a_command_line() {
    let host = host(Kvm::Ready, Vec::new());
    let err = build(&config(None), &host, &vm_paths()).unwrap_err();
    assert!(matches!(err, Error::HostNotReady(_)), "{err:?}");
}

#[test]
fn the_whole_command_line_for_a_default_guest() {
    let argv = build_ok(&config(None), &ready_host());
    let expected = [
        "-name", "win11",
        "-machine", "q35,smm=on",
        "-global", "ICH9-LPC.disable_s3=1",
        "-rtc", "base=localtime",
        "-accel", "kvm",
        "-cpu", "host",
        "-smp", "4",
        "-m", "4096",
        "-global", "driver=cfi.pflash01,property=secure,value=on",
        "-drive", "if=pflash,format=raw,unit=0,readonly=on,file=/usr/share/edk2/x64/OVMF_CODE.secboot.4m.fd",
        "-drive", "if=pflash,format=raw,unit=1,file=/data/daholyvm/vms/win11/OVMF_VARS.fd",
        "-device", "ich9-ahci,id=sata",
        "-drive", "id=hd,if=none,format=qcow2,file=/data/daholyvm/vms/win11/disk.qcow2",
        "-device", "ide-hd,drive=hd,bus=sata.0",
        "-boot", "order=c",
        "-chardev", "socket,id=chrtpm,path=/data/daholyvm/vms/win11/tpm/swtpm.sock",
        "-tpmdev", "emulator,id=tpm0,chardev=chrtpm",
        "-device", "tpm-tis,tpmdev=tpm0",
        "-netdev", "user,id=net0",
        "-device", "e1000e,netdev=net0",
        "-device", "qemu-xhci,id=usb",
        "-device", "usb-tablet,bus=usb.0",
        "-vga", "std",
    ];
    assert_eq!(argv, expected);
}

#[test]
fn escaping_doubles_every_comma_and_nothing_else() {
    assert_eq!(escaped_value("file=", b"a,b,,c"), b"file=a,,b,,,,c");
    assert_eq!(escaped_value("file=", b""), b"file=");
    assert_eq!(escaped_value("x=", b"plain path"), b"x=plain path");
}

#[test]
fn an_iso_path_that_is_not_utf8_reaches_qemu_byte_for_byte() {
    let iso: &[u8] = b"/iso/Win\xff,11.iso";
    let config = VmConfig::new(VmName::new("win11").unwrap()).with_iso(Some(iso.to_vec()));
    let argv = build(&config, &ready_host(), &vm_paths()).unwrap();
    let cd = argv
        .iter()
        .find(|a| a.starts_with(b"id=cd,"))
        .expect("a cdrom drive");
    assert_eq!(
        cd.as_slice(),
        &b"id=cd,if=none,format=raw,media=cdrom,readonly=on,file=/iso/Win\xff,,11.iso"[..]
    );
    assert_eq!(escaped_value("file=", b"\xfe,\xff"), b"file=\xfe,,\xff");
}
