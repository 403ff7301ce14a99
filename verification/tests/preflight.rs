use daholyvm_core::preflight::firmware::candidates;
use daholyvm_core::preflight::kvm::DeviceOpen;
use daholyvm_core::preflight::qemu::min_qemu_version;
use daholyvm_core::preflight::which::candidates as search_candidates;
use daholyvm_core::preflight::{
    HostFacts, format_kib, parse_cpuinfo, parse_group_name, parse_meminfo, parse_os_release, parse_version,
    Cpu, Firmware, HostReport, Kvm, OsRelease, Package, PackageManager, Platform, Qemu,
    QemuBinary, Status, Sysroot, Tpm, Version, VirtExtension,
};

#[test]
fn detects_intel_vt_x_and_counts_cores() {
    let cpu = parse_cpuinfo(
        "processor\t: 0\nmodel name\t: 13th Gen Intel(R) Core(TM) i7-13620H\nflags\t\t: fpu vme vmx smx est\n\
         processor\t: 1\nmodel name\t: 13th Gen Intel(R) Core(TM) i7-13620H\nflags\t\t: fpu vme vmx smx est\n",
    );
    assert_eq!(cpu.virt, Some(VirtExtension::IntelVtx));
    assert_eq!(cpu.logical_cores, 2);
    assert!(cpu.model.unwrap().contains("i7-13620H"));
}

#[test]
fn detects_amd_v() {
    let cpu = parse_cpuinfo("processor\t: 0\nflags\t\t: fpu tsc svm cr8_legacy\n");
    assert_eq!(cpu.virt, Some(VirtExtension::AmdV));
}

#[test]
fn absent_extensions_warn_and_explain_how_to_enable_them() {
    let cpu = parse_cpuinfo("processor\t: 0\nmodel name\t: Some CPU\nflags\t\t: fpu tsc\n");
    assert_eq!(cpu.virt, None);
    let req = cpu.requirement();
    assert_eq!(req.status, Status::Warn);
    assert!(req.remedy.unwrap().contains("BIOS/UEFI"));
}

#[test]
fn substring_matches_do_not_count_as_flags() {
    let cpu = parse_cpuinfo("processor\t: 0\nflags\t\t: fpu vmxnet3 svmalike\n");
    assert_eq!(cpu.virt, None);
}

#[test]
fn empty_cpuinfo_does_not_panic() {
    let cpu = parse_cpuinfo("");
    assert_eq!(cpu.logical_cores, 0);
    assert_eq!(cpu.virt, None);
}

#[test]
fn an_unreadable_cpuinfo_counts_as_empty() {
    let cpu = Cpu::detect_in(None);
    assert_eq!(cpu.logical_cores, 0);
    assert_eq!(cpu.virt, None);
    assert_eq!(cpu.model, None);
    let cpu = Cpu::detect_in(Some("processor\t: 0\nflags\t\t: svm\n"));
    assert_eq!(cpu.virt, Some(VirtExtension::AmdV));
}

#[test]
fn parses_quoted_and_bare_values() {
    let os = parse_os_release(
        "NAME=\"Arch Linux\"\nID=arch\nPRETTY_NAME=\"Arch Linux\"\nBUILD_ID=rolling\n",
    );
    assert_eq!(os.id.as_deref(), Some("arch"));
    assert_eq!(os.pretty_name.as_deref(), Some("Arch Linux"));
    assert!(os.id_like.is_empty());
}

#[test]
fn ignores_comments_and_blank_lines() {
    let os = parse_os_release("# comment\n\nID=fedora\n");
    assert_eq!(os.id.as_deref(), Some("fedora"));
}

#[test]
fn derivatives_inherit_parent_package_manager() {
    let os = parse_os_release("ID=linuxmint\nID_LIKE=\"ubuntu debian\"\n");
    assert_eq!(os.package_manager(), PackageManager::Apt);
}

#[test]
fn unknown_distro_still_produces_actionable_text() {
    let os = parse_os_release("ID=plan9\n");
    assert_eq!(os.package_manager(), PackageManager::Unknown);
    let hint = os.package_manager().install_hint(Package::Qemu);
    assert!(hint.contains("qemu-system-x86_64"), "hint was: {hint}");
}

#[test]
fn known_distro_hints_name_a_real_command() {
    assert_eq!(
        PackageManager::Pacman.install_hint(Package::Ovmf),
        "sudo pacman -S --needed edk2-ovmf"
    );
    assert_eq!(
        PackageManager::Apt.install_hint(Package::Qemu),
        "sudo apt install qemu-system-x86"
    );
}

#[test]
fn an_unreadable_os_release_names_no_distribution() {
    let os = OsRelease::detect_in(None);
    assert_eq!(os.id, None);
    assert_eq!(os.package_manager(), PackageManager::Unknown);
    let os = OsRelease::detect_in(Some("ID=debian\n"));
    assert_eq!(os.package_manager(), PackageManager::Apt);
}

fn existing(files: &[&str]) -> Vec<String> {
    files.iter().map(|f| f.to_string()).collect()
}

/// Paths as text, for comparing with what is expected.
fn text(paths: Vec<Vec<u8>>) -> Vec<String> {
    paths.into_iter().map(|p| String::from_utf8(p).unwrap()).collect()
}

#[test]
fn finds_nothing_on_a_bare_root() {
    let root = Sysroot::at(b"/tmp/daholyvm-fw-bare");
    let fw = Firmware::detect_in(&root, &Vec::new());
    assert!(fw.best().is_none());
    let req = fw.requirement(PackageManager::Pacman);
    assert_eq!(req.status, Status::Missing);
    assert_eq!(
        req.remedy.as_deref(),
        Some("sudo pacman -S --needed edk2-ovmf")
    );
}

#[test]
fn prefers_secure_boot_over_plain_when_both_are_present() {
    let root = Sysroot::at(b"/tmp/daholyvm-fw-arch");
    let fw = Firmware::detect_in(
        &root,
        &existing(&[
            "/usr/share/edk2/x64/OVMF_CODE.4m.fd",
            "/usr/share/edk2/x64/OVMF_CODE.secboot.4m.fd",
            "/usr/share/edk2/x64/OVMF_VARS.4m.fd",
        ]),
    );
    assert_eq!(fw.found.len(), 2);
    let best = fw.best().unwrap();
    assert!(best.secure_boot);
    assert_eq!(
        best.code,
        b"/tmp/daholyvm-fw-arch/usr/share/edk2/x64/OVMF_CODE.secboot.4m.fd"
    );
    assert_eq!(fw.requirement(PackageManager::Pacman).status, Status::Good);
}

#[test]
fn a_code_image_without_its_vars_template_is_not_usable() {
    let root = Sysroot::at(b"/tmp/daholyvm-fw-halfpair");
    let fw = Firmware::detect_in(&root, &existing(&["/usr/share/OVMF/OVMF_CODE_4M.fd"]));
    assert!(fw.best().is_none());
}

#[test]
fn non_secure_boot_only_warns_about_windows_11() {
    let root = Sysroot::at(b"/tmp/daholyvm-fw-debian");
    let fw = Firmware::detect_in(
        &root,
        &existing(&[
            "/usr/share/OVMF/OVMF_CODE_4M.fd",
            "/usr/share/OVMF/OVMF_VARS_4M.fd",
        ]),
    );
    assert!(!fw.secure_boot_capable());
    let req = fw.requirement(PackageManager::Apt);
    assert_eq!(req.status, Status::Warn);
    assert!(req.remedy.unwrap().contains("Windows 11"));
}

#[test]
fn every_candidate_path_is_absolute() {
    for candidate in candidates() {
        assert!(
            std::path::Path::new(candidate.code).is_absolute(),
            "{}",
            candidate.code
        );
        assert!(
            std::path::Path::new(candidate.vars).is_absolute(),
            "{}",
            candidate.vars
        );
    }
}

const GROUP: &str = "root:x:0:\nkvm:x:960:\nwheel:x:998:paardhu\n";

#[test]
fn resolves_gid_to_group_name() {
    assert_eq!(parse_group_name(GROUP, 960).as_deref(), Some("kvm"));
    assert_eq!(parse_group_name(GROUP, 0).as_deref(), Some("root"));
}

#[test]
fn unknown_gid_is_none() {
    assert_eq!(parse_group_name(GROUP, 4242), None);
}

#[test]
fn malformed_group_lines_are_skipped() {
    assert_eq!(
        parse_group_name("garbage\nkvm:x:960:\n", 960).as_deref(),
        Some("kvm")
    );
}

#[test]
fn absent_device_is_reported_as_missing_not_denied() {
    let kvm = Kvm::detect_in(None, DeviceOpen::PermissionDenied, Some(GROUP));
    assert!(matches!(kvm, Kvm::DeviceMissing), "{kvm:?}");
}

#[test]
fn a_refused_open_reports_the_mode_in_octal_and_the_owning_group() {
    let kvm = Kvm::detect_in(Some((0o20660, 960)), DeviceOpen::PermissionDenied, Some(GROUP));
    match kvm {
        Kvm::PermissionDenied { mode, group } => {
            assert_eq!(mode, "660");
            assert_eq!(group.as_deref(), Some("kvm"));
        }
        other => panic!("{other:?}"),
    }
    assert!(matches!(
        Kvm::detect_in(Some((0o660, 1)), DeviceOpen::Opened, None),
        Kvm::Ready
    ));
    match Kvm::detect_in(Some((0o660, 1)), DeviceOpen::Failed("busy".to_owned()), None) {
        Kvm::Unavailable { message } => assert_eq!(message, "busy"),
        other => panic!("{other:?}"),
    }
}

#[test]
fn permission_denied_remedy_names_the_owning_group() {
    let cpu = Cpu {
        model: None,
        logical_cores: 1,
        virt: Some(VirtExtension::IntelVtx),
    };
    let kvm = Kvm::PermissionDenied {
        mode: "660".into(),
        group: Some("kvm".into()),
    };
    let remedy = kvm.requirement(&cpu).remedy.unwrap();
    assert!(remedy.contains("usermod -aG kvm"), "remedy was: {remedy}");
}

const MEMINFO: &str =
    "MemTotal:       16283264 kB\nMemFree:          458220 kB\nMemAvailable:    4812940 kB\n";

#[test]
fn reads_named_meminfo_fields() {
    assert_eq!(parse_meminfo(MEMINFO, "MemTotal"), Some(16_283_264));
    assert_eq!(parse_meminfo(MEMINFO, "MemAvailable"), Some(4_812_940));
}

#[test]
fn missing_meminfo_field_is_none_not_zero() {
    assert_eq!(parse_meminfo(MEMINFO, "Hugepagesize"), None);
    assert_eq!(parse_meminfo("", "MemTotal"), None);
}

#[test]
fn does_not_confuse_prefixed_field_names() {
    assert_eq!(parse_meminfo(MEMINFO, "Mem"), None);
}

#[test]
fn formats_sizes_at_each_scale() {
    assert_eq!(format_kib(16_283_264), "15.5 GiB");
    assert_eq!(format_kib(524_288), "512 MiB");
    assert_eq!(format_kib(64), "64 KiB");
}

#[test]
fn formatting_rounds_halves_to_even() {
    assert_eq!(format_kib(1_048_576), "1.0 GiB");
    assert_eq!(format_kib(1_100_000), "1.0 GiB");
    assert_eq!(format_kib(1_572_864), "1.5 GiB");
    assert_eq!(format_kib(1_023), "1023 KiB");
    assert_eq!(format_kib(1_024), "1 MiB");
    assert_eq!(format_kib(1_536), "2 MiB");
    assert_eq!(format_kib(2_560), "2 MiB");
    assert_eq!(format_kib(0), "0 KiB");
}

#[test]
fn platform_detection_trims_the_kernel_and_reads_memory() {
    let platform = Platform::detect_in(
        true,
        "linux",
        "x86_64",
        Some("6.9.1-arch1\n"),
        Some("ID=arch\nPRETTY_NAME=\"Arch Linux\"\n"),
        Some(MEMINFO),
    );
    assert_eq!(platform.kernel.as_deref(), Some("6.9.1-arch1"));
    assert_eq!(platform.memory_total_kib, Some(16_283_264));
    assert_eq!(platform.memory_available_kib, Some(4_812_940));
    assert_eq!(platform.package_manager(), PackageManager::Pacman);
    assert_eq!(platform.distro_name(), "Arch Linux");

    let bare = Platform::detect_in(true, "linux", "x86_64", Some("  \n"), None, None);
    assert_eq!(bare.kernel, None);
    assert_eq!(bare.memory_total_kib, None);
}

#[test]
fn parses_qemu_system_version() {
    let out = "QEMU emulator version 9.1.0\nCopyright (c) 2003-2024 Fabrice Bellard\n";
    assert_eq!(
        parse_version(out),
        Some(Version {
            major: 9,
            minor: 1,
            patch: 0
        })
    );
}

#[test]
fn parses_qemu_img_version_with_trailing_build_metadata() {
    let out = "qemu-img version 2.12.0(v2.12.0-19097-g85fa07f04ef)\n";
    assert_eq!(
        parse_version(out),
        Some(Version {
            major: 2,
            minor: 12,
            patch: 0
        })
    );
}

#[test]
fn ignores_digits_in_the_binary_name() {
    let out = "qemu-system-x86_64 version 8.2.2\n";
    assert_eq!(parse_version(out).unwrap().major, 8);
}

#[test]
fn unparseable_output_is_none() {
    assert_eq!(parse_version(""), None);
    assert_eq!(parse_version("no version here\n"), None);
}

#[test]
fn versions_order_numerically_not_lexically() {
    let v = |major, minor| Version {
        major,
        minor,
        patch: 0,
    };
    assert!(!(v(9, 1) > v(10, 0)));
    assert!(v(10, 0) > v(9, 1), "10.0 must sort above 9.1");
    assert!(v(2, 12) < min_qemu_version());
    assert!(v(6, 0) >= min_qemu_version());
    assert!(v(10, 0).at_least(&v(9, 1)));
    assert!(!v(9, 1).at_least(&v(10, 0)));
}

#[test]
fn missing_binary_yields_an_install_command() {
    let qemu = Qemu {
        system: None,
        img: None,
    };
    let req = qemu.system_requirement(PackageManager::Pacman);
    assert_eq!(req.status, Status::Missing);
    assert_eq!(
        req.remedy.as_deref(),
        Some("sudo pacman -S --needed qemu-desktop")
    );
}

#[test]
fn outdated_binary_warns_about_path_shadowing() {
    let qemu = Qemu {
        system: None,
        img: Some(QemuBinary {
            path: b"/home/user/Android/Sdk/emulator/qemu-img".to_vec(),
            version: Some(Version {
                major: 2,
                minor: 12,
                patch: 0,
            }),
        }),
    };
    let req = qemu.img_requirement(PackageManager::Pacman);
    assert_eq!(req.status, Status::Warn);
    assert!(
        req.detail.contains("Android/Sdk"),
        "the resolved path must be shown"
    );
    assert!(req.remedy.unwrap().contains("which -a"));
}

#[test]
fn probing_reads_the_version_from_standard_output() {
    let found = QemuBinary::probe(
        b"/usr/bin/qemu-img",
        Some(b"qemu-img version 9.0.1 (qemu-9.0.1-1)\n".as_slice()),
    );
    assert_eq!(found.path, b"/usr/bin/qemu-img");
    assert_eq!(
        found.version,
        Some(Version {
            major: 9,
            minor: 0,
            patch: 1
        })
    );
    assert_eq!(QemuBinary::probe(b"/usr/bin/qemu-img", None).version, None);
    assert_eq!(
        QemuBinary::probe(b"/usr/bin/qemu-img", Some(b"\xffno version".as_slice())).version,
        None
    );
}

#[test]
fn a_missing_emulator_warns_rather_than_blocks() {
    let req = Tpm { swtpm: None }.requirement(PackageManager::Pacman);
    assert_eq!(
        req.status,
        Status::Warn,
        "a VM without a TPM still starts, and Windows 10 does not care"
    );
    assert!(req
        .remedy
        .unwrap()
        .contains("sudo pacman -S --needed swtpm"));
}

#[test]
fn a_present_emulator_is_reported_by_resolved_path() {
    let req = Tpm {
        swtpm: Some(b"/usr/bin/swtpm".to_vec()),
    }
    .requirement(PackageManager::Pacman);
    assert_eq!(req.status, Status::Good);
    assert!(req.detail.contains("/usr/bin/swtpm"));
    assert!(req.remedy.is_none());
}

#[test]
fn the_remedy_names_windows_11_because_that_is_the_symptom() {
    let req = Tpm { swtpm: None }.requirement(PackageManager::Apt);
    assert!(req.remedy.unwrap().contains("Windows 11"));
}

#[test]
fn path_entries_are_searched_in_order_skipping_empty_ones() {
    assert_eq!(
        text(search_candidates("swtpm", b"/usr/local/bin::/usr/bin/:")),
        vec!["/usr/local/bin/swtpm", "/usr/bin/swtpm"]
    );
    assert!(search_candidates("swtpm", b"").is_empty());
    assert_eq!(text(search_candidates("tool", b"first:second")), vec!["first/tool", "second/tool"]);
}

fn host(linux: bool, with_qemu: bool, firmware: bool) -> HostReport {
    let binary = |path: &str| QemuBinary {
        path: path.as_bytes().to_vec(),
        version: Some(Version {
            major: 9,
            minor: 1,
            patch: 0,
        }),
    };
    let root = Sysroot::at(b"/");
    HostReport {
        platform: Platform::detect_in(linux, "linux", "x86_64", None, None, None),
        cpu: Cpu {
            model: None,
            logical_cores: 4,
            virt: None,
        },
        kvm: Kvm::DeviceMissing,
        qemu: Qemu {
            system: if with_qemu { Some(binary("/usr/bin/qemu-system-x86_64")) } else { None },
            img: if with_qemu { Some(binary("/usr/bin/qemu-img")) } else { None },
        },
        firmware: if firmware {
            Firmware::detect_in(
                &root,
                &existing(&[
                    "/usr/share/OVMF/OVMF_CODE_4M.fd",
                    "/usr/share/OVMF/OVMF_VARS_4M.fd",
                ]),
            )
        } else {
            Firmware::detect_in(&root, &Vec::new())
        },
        tpm: Tpm { swtpm: None },
    }
}

#[test]
fn only_blockers_stop_a_launch() {
    // No KVM, no virtualization flags, no Secure Boot and no swtpm are all
    // warnings: this host can still launch.
    let ready = host(true, true, true);
    assert!(ready.can_launch());
    assert!(!ready.accelerated());
    assert_eq!(ready.requirements().len(), 7);
    assert!(!host(false, true, true).can_launch());
    assert!(!host(true, false, true).can_launch());
    assert!(!host(true, true, false).can_launch());
}

#[test]
fn the_checklist_comes_in_a_fixed_order() {
    let ids: Vec<&str> = host(true, true, true).requirements().iter().map(|r| r.id).collect();
    assert_eq!(
        ids,
        vec![
            "platform.linux",
            "cpu.virtualization",
            "kvm.device",
            "qemu.system",
            "qemu.img",
            "firmware.ovmf",
            "tpm.swtpm"
        ]
    );
}

#[test]
fn a_sysroot_rebases_absolute_paths() {
    assert_eq!(Sysroot::at(b"/fixture").resolve("/proc/cpuinfo"), b"/fixture/proc/cpuinfo");
    assert_eq!(Sysroot::host().resolve("/proc/cpuinfo"), b"/proc/cpuinfo");
    assert!(Sysroot::host().is_host());
    assert!(!Sysroot::at(b"/fixture").is_host());
}

#[test]
fn every_problem_comes_with_a_remedy() {
    for report in [host(true, true, true), host(false, false, false), host(true, false, true)] {
        for requirement in report.requirements() {
            assert_eq!(
                requirement.status != Status::Good,
                requirement.remedy.is_some(),
                "{requirement:?}"
            );
        }
    }
}

#[test]
fn earlier_path_entry_wins() {
    let order = text(search_candidates("tool", b"/first:/second"));
    assert_eq!(order.first().map(String::as_str), Some("/first/tool"));
}

#[test]
fn a_host_report_is_assembled_from_what_was_read() {
    let facts = HostFacts {
        is_linux: true,
        os: "linux",
        arch: "x86_64",
        cpuinfo: Some("processor\t: 0\nflags\t\t: vmx\nprocessor\t: 1\n".to_owned()),
        meminfo: Some(MEMINFO.to_owned()),
        os_release: Some("ID=debian\n".to_owned()),
        kernel_release: Some("6.1.0\n".to_owned()),
        group_file: Some(GROUP.to_owned()),
        kvm_device: Some((0o660, 960)),
        kvm_open: DeviceOpen::PermissionDenied,
        existing_firmware: existing(&[
            "/usr/share/OVMF/OVMF_CODE_4M.secboot.fd",
            "/usr/share/OVMF/OVMF_VARS_4M.ms.fd",
        ]),
        qemu: Qemu {
            system: None,
            img: None,
        },
        swtpm: Some(b"/usr/bin/swtpm".to_vec()),
    };
    let report = HostReport::detect_in(&Sysroot::at(b"/fixture"), facts);
    assert_eq!(report.cpu.logical_cores, 2);
    assert_eq!(report.cpu.virt, Some(VirtExtension::IntelVtx));
    assert_eq!(report.platform.kernel.as_deref(), Some("6.1.0"));
    assert_eq!(report.platform.package_manager(), PackageManager::Apt);
    assert_eq!(report.platform.memory_total_kib, Some(16_283_264));
    match &report.kvm {
        Kvm::PermissionDenied { mode, group } => {
            assert_eq!(mode, "660");
            assert_eq!(group.as_deref(), Some("kvm"));
        }
        other => panic!("{other:?}"),
    }
    assert_eq!(report.tpm.swtpm.as_deref(), Some(&b"/usr/bin/swtpm"[..]));
    let best = report.firmware.best().unwrap();
    assert!(best.secure_boot);
    assert_eq!(best.code, b"/fixture/usr/share/OVMF/OVMF_CODE_4M.secboot.fd");
    assert!(!report.can_launch());
}

#[test]
fn only_the_first_processor_block_describes_the_cpu() {
    let cpu = parse_cpuinfo(
        "processor\t: 0\nflags\t\t: fpu tsc\n\
         processor\t: 1\nmodel name\t: Second CPU\nflags\t\t: fpu vmx\n",
    );
    assert_eq!(cpu.virt, None);
    assert_eq!(cpu.model, None);
    assert_eq!(cpu.logical_cores, 2);

    let cpu = parse_cpuinfo(
        "model name\t: Early\nprocessor\t: 0\nflags\t\t: svm\nprocessor\t: 1\nflags\t\t: vmx\n",
    );
    assert_eq!(cpu.model.as_deref(), Some("Early"));
    assert_eq!(cpu.virt, Some(VirtExtension::AmdV));
}

#[test]
fn a_path_variable_that_is_not_utf8_is_searched_byte_for_byte() {
    assert_eq!(
        search_candidates("swtpm", b"/opt/\xffbin:/usr/bin"),
        vec![b"/opt/\xffbin/swtpm".to_vec(), b"/usr/bin/swtpm".to_vec()]
    );
}

#[test]
fn a_binary_path_that_is_not_utf8_is_reported_lossily() {
    let req = Tpm {
        swtpm: Some(b"/opt/\xff/swtpm".to_vec()),
    }
    .requirement(PackageManager::Pacman);
    assert_eq!(req.detail, "/opt/\u{fffd}/swtpm");
    let found = QemuBinary::probe(b"/opt/\xfe/qemu-img", None);
    assert_eq!(found.path, b"/opt/\xfe/qemu-img");
    let req = Qemu { system: None, img: Some(found) }.img_requirement(PackageManager::Apt);
    assert_eq!(
        req.detail,
        "found at /opt/\u{fffd}/qemu-img but its version could not be determined"
    );
}
