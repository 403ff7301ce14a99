use daholyvm_core::config::{
    VmConfig, VmName, DEFAULT_CPUS, DEFAULT_DISK_GIB, DEFAULT_MEMORY_MIB, MAX_NAME_LEN,
};
use daholyvm_core::Error;

fn name(text: &str) -> VmName {
    VmName::new(text).expect("valid name")
}

#[test]
fn accepts_ordinary_names() {
    for text in ["win11", "Windows-11", "work_vm", "vm.2"] {
        assert_eq!(name(text).as_str(), text);
    }
}

#[test]
fn rejects_path_separators_and_traversal() {
    for text in ["..", ".", "../etc", "a/b", "/abs", "."] {
        assert!(
            VmName::new(text).is_err(),
            "`{text}` must not be accepted as a name"
        );
    }
}

#[test]
fn rejects_shell_and_whitespace_characters() {
    for text in ["a b", "a;b", "$(id)", "a\nb", "a*"] {
        assert!(VmName::new(text).is_err(), "`{text}` must be rejected");
    }
}

#[test]
fn rejects_empty_and_overlong_names() {
    assert!(VmName::new("").is_err());
    assert!(VmName::new(&"a".repeat(MAX_NAME_LEN)).is_ok());
    assert!(VmName::new(&"a".repeat(MAX_NAME_LEN + 1)).is_err());
}

#[test]
fn defaults_are_valid() {
    assert!(VmConfig::new(name("win11")).validate().is_ok());
}

#[test]
fn rejects_sizes_qemu_cannot_be_asked_for() {
    let base = VmConfig::new(name("win11"));

    let mut zero_cpus = base.clone();
    zero_cpus.cpus = 0;
    assert!(zero_cpus.validate().is_err());

    let mut tiny = base.clone();
    tiny.memory_mib = 64;
    assert!(tiny.validate().is_err());

    let mut no_disk = base;
    no_disk.disk_gib = 0;
    assert!(no_disk.validate().is_err());
}

#[test]
fn omitted_fields_take_their_defaults() {
    let config = VmConfig::from_parts("win11", None, None, None, None, None).unwrap();
    assert_eq!(config.cpus, DEFAULT_CPUS);
    assert_eq!(config.memory_mib, DEFAULT_MEMORY_MIB);
    assert_eq!(config.disk_gib, DEFAULT_DISK_GIB);
    assert_eq!(config.iso, None);
    assert!(config.tpm);
}

#[test]
fn an_unsafe_name_is_rejected_when_loading_too() {
    assert!(VmConfig::from_parts("../../etc", None, None, None, None, None).is_err());
}

#[test]
fn validation_runs_on_load() {
    assert!(VmConfig::from_parts("win11", Some(0), None, None, None, None).is_err());
}

#[test]
fn each_name_rejection_gives_its_reason() {
    let reason = |text: &str| match VmName::new(text) {
        Err(Error::InvalidName { reason, .. }) => reason,
        other => panic!("`{text}` gave {other:?}"),
    };
    assert_eq!(reason(""), "a name is required");
    assert_eq!(reason(&"a".repeat(MAX_NAME_LEN + 1)), "longer than 64 characters");
    assert_eq!(reason(".hidden"), "must not start with `.`");
    assert_eq!(reason("a b"), "only letters, digits, `-`, `_` and `.` are allowed");
}

#[test]
fn each_size_rejection_names_its_field() {
    let problem = |cpus: u32, memory_mib: u64, disk_gib: u64| {
        let mut config = VmConfig::new(name("win11"));
        config.cpus = cpus;
        config.memory_mib = memory_mib;
        config.disk_gib = disk_gib;
        match config.validate() {
            Err(Error::InvalidConfig { field, problem }) => (field, problem),
            other => panic!("{other:?}"),
        }
    };
    assert_eq!(problem(0, 4096, 64), ("cpus", "must be at least 1".to_owned()));
    assert_eq!(problem(256, 4096, 64), ("cpus", "must be at most 255".to_owned()));
    assert_eq!(problem(4, 511, 64), ("memory_mib", "must be at least 512 MiB".to_owned()));
    assert_eq!(problem(4, 4096, 0), ("disk_gib", "must be at least 1 GiB".to_owned()));
    assert_eq!(problem(4, 4096, 8193), ("disk_gib", "must be at most 8192 GiB".to_owned()));
    let mut edge = VmConfig::new(name("win11"));
    edge.cpus = 255;
    edge.memory_mib = 512;
    edge.disk_gib = 8192;
    assert!(edge.validate().is_ok());
}

#[test]
fn saved_fields_override_the_defaults() {
    let config = VmConfig::from_parts(
        "win10",
        Some(2),
        Some(8192),
        Some(128),
        Some(b"/iso/Win10.iso".to_vec()),
        Some(false),
    )
    .unwrap();
    assert_eq!(config.name.as_str(), "win10");
    assert_eq!(config.cpus, 2);
    assert_eq!(config.memory_mib, 8192);
    assert_eq!(config.disk_gib, 128);
    assert_eq!(config.iso.as_deref(), Some(&b"/iso/Win10.iso"[..]));
    assert!(!config.tpm);
}
