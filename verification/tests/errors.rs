use daholyvm_core::Error;

#[test]
fn every_error_reads_as_a_sentence() {
    let cases = vec![
        (
            Error::UnsupportedPlatform("macos"),
            "DA-HOLY-VM requires Linux (this build targets `macos`)",
        ),
        (
            Error::read(b"/a", "denied".to_owned()),
            "failed to read `/a`: denied",
        ),
        (
            Error::write(b"/b", "full".to_owned()),
            "failed to write `/b`: full",
        ),
        (
            Error::InvalidName {
                name: "a b".to_owned(),
                reason: "bad",
            },
            "invalid virtual machine name `a b`: bad",
        ),
        (
            Error::InvalidConfig {
                field: "cpus",
                problem: "must be at least 1".to_owned(),
            },
            "invalid configuration: `cpus` must be at least 1",
        ),
        (Error::NoSuchVm("ghost".to_owned()), "no virtual machine named `ghost`"),
        (
            Error::VmExists("win11".to_owned()),
            "a virtual machine named `win11` already exists",
        ),
        (
            Error::DiskExists(b"/d.qcow2".to_vec()),
            "refusing to overwrite the existing disk image at `/d.qcow2`",
        ),
        (
            Error::MissingIso(b"/x.iso".to_vec()),
            "installation medium `/x.iso` does not exist",
        ),
        (
            Error::MissingBinary { binary: "qemu-img" },
            "`qemu-img` was not found on PATH",
        ),
        (
            Error::SocketPathTooLong {
                path: b"/s".to_vec(),
                length: 130,
                limit: 107,
            },
            "the socket path `/s` is 130 bytes, over the 107 byte limit",
        ),
        (
            Error::Spawn {
                binary: "swtpm".to_owned(),
                source: "No such file or directory (os error 2)".to_owned(),
            },
            "failed to run `swtpm`: No such file or directory (os error 2)",
        ),
        (
            Error::NoHome,
            "cannot locate a home directory: neither $XDG_DATA_HOME nor $HOME is set",
        ),
    ];
    for (err, text) in cases {
        assert_eq!(err.message(), text);
    }
}

#[test]
fn a_path_that_is_not_utf8_is_shown_with_replacement_characters() {
    assert_eq!(
        Error::MissingIso(b"/media/\xc3(.iso".to_vec()).message(),
        "installation medium `/media/\u{fffd}(.iso` does not exist"
    );
    assert_eq!(
        Error::read(b"/etc/\xff", "denied".to_owned()).message(),
        "failed to read `/etc/\u{fffd}`: denied"
    );
}
