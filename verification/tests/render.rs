use daholyvm_core::config::{VmConfig, VmName};
use daholyvm_core::paths::Paths;
use daholyvm_core::preflight::{
    Cpu, Firmware, FirmwarePair, HostReport, Kvm, OsRelease, Platform, Qemu, QemuBinary, Status,
    Tpm, Version, VirtExtension,
};
use daholyvm_core::render::{
    created_lines, list_lines, marker, report_lines, running_lines, wrap,
};
use daholyvm_core::Vm;

#[test]
fn wraps_on_word_boundaries_without_losing_words() {
    let text = "add your account to the kvm group and log back in";
    let lines = wrap(text, 20);
    assert!(lines.iter().all(|l| l.chars().count() <= 20), "{lines:?}");
    assert_eq!(lines.join(" "), text);
}

#[test]
fn a_word_longer_than_the_width_is_not_dropped() {
    let lines = wrap("short supercalifragilisticexpialidocious", 10);
    assert_eq!(lines, vec!["short", "supercalifragilisticexpialidocious"]);
}

#[test]
fn empty_text_wraps_to_no_lines() {
    assert!(wrap("   ", 10).is_empty());
}

#[test]
fn wrapping_is_greedy_and_collapses_whitespace() {
    assert_eq!(
        wrap("one  two\tthree\nfour five", 9),
        vec!["one two", "three", "four five"]
    );
    assert_eq!(wrap("exactly ten", 11), vec!["exactly ten"]);
    assert_eq!(wrap("exactly ten", 10), vec!["exactly", "ten"]);
    assert_eq!(wrap("a b", 0), vec!["a", "b"]);
}

#[test]
fn each_status_has_its_own_marker() {
    assert_eq!(marker(Status::Good), '+');
    assert_eq!(marker(Status::Warn), '!');
    assert_eq!(marker(Status::Missing), 'x');
}

fn binary(path: &str) -> QemuBinary {
    QemuBinary {
        path: path.as_bytes().to_vec(),
        version: Some(Version {
            major: 9,
            minor: 1,
            patch: 0,
        }),
    }
}

fn host(kvm: Kvm, qemu: bool) -> HostReport {
    HostReport {
        platform: Platform {
            is_linux: true,
            os: "linux",
            arch: "x86_64",
            kernel: Some("6.9.1".to_owned()),
            os_release: OsRelease::detect_in(Some("ID=arch\nPRETTY_NAME=\"Arch Linux\"\n")),
            memory_total_kib: Some(16_283_264),
            memory_available_kib: Some(4_812_940),
        },
        cpu: Cpu {
            model: Some("Test CPU".to_owned()),
            logical_cores: 8,
            virt: Some(VirtExtension::IntelVtx),
        },
        kvm,
        qemu: Qemu {
            system: if qemu { Some(binary("/usr/bin/qemu-system-x86_64")) } else { None },
            img: if qemu { Some(binary("/usr/bin/qemu-img")) } else { None },
        },
        firmware: Firmware {
            found: vec![FirmwarePair {
                code: b"/usr/share/edk2/x64/OVMF_CODE.secboot.4m.fd".to_vec(),
                vars_template: b"/usr/share/edk2/x64/OVMF_VARS.4m.fd".to_vec(),
                secure_boot: true,
                flash_size_mb: 4,
                origin: "edk2-ovmf (Arch)",
            }],
        },
        tpm: Tpm {
            swtpm: Some(b"/usr/bin/swtpm".to_vec()),
        },
    }
}

#[test]
fn the_report_lists_every_check_then_resources_then_a_verdict() {
    let lines = report_lines(&host(Kvm::Ready, true));
    assert_eq!(lines[0], "");
    assert_eq!(lines[1], "DA-HOLY-VM preflight");
    assert_eq!(lines[2], "");
    assert!(lines[3].starts_with("  +  Linux host"), "{lines:?}");
    let n = lines.len();
    assert_eq!(lines[n - 1], "");
    assert_eq!(
        lines[n - 2],
        "  Ready: this host can run hardware-accelerated Windows virtual machines."
    );
    assert!(lines.contains(
        &"  Host resources: 8 logical cores, 15.5 GiB total, 4.6 GiB available RAM".to_owned()
    ));
    // Titles are padded to one column.
    let width = "QEMU system emulator".len().max("TPM 2.0 emulator (swtpm)".len());
    let qemu_line = lines.iter().find(|l| l.contains("QEMU system emulator")).unwrap();
    assert_eq!(&qemu_line[5..5 + width], format!("{:<width$}", "QEMU system emulator"));
}

#[test]
fn a_blocked_report_counts_the_blockers_and_indents_remedies() {
    let lines = report_lines(&host(Kvm::DeviceMissing, false));
    assert!(lines.contains(
        &"  Not ready: 2 required items must be resolved before a VM can start.".to_owned()
    ));
    let remedy = lines
        .iter()
        .position(|l| l.contains("qemu-system-x86_64` was not found"))
        .unwrap();
    assert_eq!(lines[remedy + 1], "        sudo pacman -S --needed qemu-desktop");
    assert!(lines.iter().all(|l| l.chars().count() <= 78 || !l.starts_with("        ")));
}

#[test]
fn an_unaccelerated_ready_host_says_why_it_would_be_slow() {
    let lines = report_lines(&host(Kvm::DeviceMissing, true));
    let n = lines.len();
    assert_eq!(
        lines[n - 3],
        "  Ready, but without KVM acceleration. QEMU would fall back to software emulation,"
    );
    assert_eq!(
        lines[n - 2],
        "  which is far too slow for a usable Windows guest. Resolve the warnings above."
    );
}

fn vm(name: &str, iso: Option<&str>) -> Vm {
    let config = VmConfig::new(VmName::new(name).unwrap()).with_iso(iso.map(|p| p.as_bytes().to_vec()));
    let paths = Paths::at(b"/data/daholyvm").vm(&config.name);
    Vm::new(config, paths)
}

#[test]
fn a_created_vm_is_summarised_with_the_next_step() {
    assert_eq!(
        created_lines(&vm("win11", Some("/iso/Win11.iso"))),
        vec![
            "",
            "Created `win11`",
            "  4 vCPU, 4096 MiB RAM, 64 GiB disk",
            "  /data/daholyvm/vms/win11",
            "",
            "  Boots from /iso/Win11.iso",
            "  Start the installation with: daholyvm run win11",
            "",
        ]
    );
    assert_eq!(
        created_lines(&vm("win10", None))[5..7],
        [
            "  No installation medium is set. Add one to config.toml, or recreate",
            "  the VM with --iso, then: daholyvm run win10",
        ]
    );
}

#[test]
fn a_running_vm_names_its_process() {
    assert_eq!(
        running_lines(&vm("win11", None), 4242),
        vec![
            "",
            "Starting `win11` (qemu pid 4242)",
            "  Shut the guest down from inside Windows to stop it cleanly.",
            "",
        ]
    );
}

#[test]
fn the_list_aligns_names_and_says_where_vms_live() {
    let paths = Paths::at(b"/data/daholyvm");
    assert_eq!(
        list_lines(&vec![vm("win11", None), vm("w", None)], &paths),
        vec![
            "",
            "  win11  4 vCPU, 4096 MiB RAM, 64 GiB disk",
            "  w      4 vCPU, 4096 MiB RAM, 64 GiB disk",
            "",
            "  Stored in /data/daholyvm/vms",
            "",
        ]
    );
    assert_eq!(
        list_lines(&Vec::new(), &paths),
        vec![
            "",
            "No virtual machines yet.",
            "  Create one with: daholyvm create win11 --iso /path/to/Windows.iso",
            "",
        ]
    );
}

#[test]
fn paths_that_are_not_utf8_are_shown_with_replacement_characters() {
    let config = VmConfig::new(VmName::new("win11").unwrap()).with_iso(Some(b"/iso/\xffW.iso".to_vec()));
    let paths = Paths::at(b"/d\xe4ta");
    let vm = Vm::new(config, paths.vm(&VmName::new("win11").unwrap()));
    let lines = created_lines(&vm);
    assert_eq!(lines[3], "  /d\u{fffd}ta/vms/win11");
    assert_eq!(lines[5], "  Boots from /iso/\u{fffd}W.iso");
    let listed = list_lines(&vec![vm], &paths);
    assert_eq!(listed.last().map(String::as_str), Some(""));
    assert!(listed.iter().any(|l| l == "  Stored in /d\u{fffd}ta/vms"), "{listed:?}");
}
