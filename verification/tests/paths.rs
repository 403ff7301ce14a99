use daholyvm_core::config::{VmName, MAX_NAME_LEN};
use daholyvm_core::paths::{join_path, Paths, MAX_SOCKET_PATH};
use daholyvm_core::Error;

fn name(text: &str) -> VmName {
    VmName::new(text).unwrap()
}

#[test]
fn lays_a_vm_out_under_its_own_directory() {
    let paths = Paths::at(b"/data/daholyvm");
    let vm = paths.vm(&name("win11"));

    assert_eq!(vm.dir(), b"/data/daholyvm/vms/win11");
    assert_eq!(vm.config(), b"/data/daholyvm/vms/win11/config.toml");
    assert_eq!(vm.disk(), b"/data/daholyvm/vms/win11/disk.qcow2");
    assert_eq!(vm.vars(), b"/data/daholyvm/vms/win11/OVMF_VARS.fd");
}

#[test]
fn every_vm_gets_its_own_variable_store() {
    let paths = Paths::at(b"/data/daholyvm");
    assert_ne!(paths.vm(&name("a")).vars(), paths.vm(&name("b")).vars());
}

#[test]
fn a_vm_directory_stays_under_the_vms_directory() {
    let paths = Paths::at(b"/data/daholyvm");
    for text in ["win11", "a.b", "x-1"] {
        let dir = paths.vm(&name(text)).dir().to_owned();
        let vms = paths.vms_dir();
        let dir = std::str::from_utf8(&dir).unwrap();
        let vms = std::str::from_utf8(&vms).unwrap();
        assert!(
            std::path::Path::new(dir).starts_with(vms),
            "{dir:?} escaped vms/"
        );
    }
}

#[test]
fn listing_skips_files_and_foreign_directories() {
    let entries = vec![
        ("win11".to_owned(), true),
        ("win10".to_owned(), true),
        (".scratch".to_owned(), true),
        ("notes.txt".to_owned(), false),
    ];
    let found: Vec<String> = Paths::list(&entries)
        .iter()
        .map(|n| n.as_str().to_owned())
        .collect();
    assert_eq!(found, vec!["win10", "win11"]);
}

#[test]
fn tpm_state_stays_with_the_vm_but_the_socket_goes_to_the_runtime_dir() {
    let paths = Paths::at_with_runtime(b"/data/daholyvm", b"/run/user/1000/daholyvm");
    let vm = paths.vm(&name("win11"));

    assert_eq!(vm.tpm_state(), b"/data/daholyvm/vms/win11/tpm");
    assert_eq!(vm.tpm_socket(), b"/run/user/1000/daholyvm/win11-swtpm.sock");
    assert_eq!(vm.socket_dir(), b"/run/user/1000/daholyvm");
}

#[test]
fn without_a_runtime_dir_the_socket_falls_back_beside_the_vm() {
    let vm = Paths::at(b"/data/daholyvm").vm(&name("win11"));
    assert_eq!(vm.tpm_socket(), b"/data/daholyvm/vms/win11/tpm/swtpm.sock");
    assert_eq!(vm.socket_dir(), b"/data/daholyvm/vms/win11/tpm");
}

#[test]
fn a_runtime_socket_path_stays_well_inside_the_unix_limit() {
    let paths = Paths::at_with_runtime(
        b"/home/somebody/.local/share/daholyvm",
        b"/run/user/1000/daholyvm",
    );
    let longest = VmName::new(&"a".repeat(MAX_NAME_LEN)).unwrap();
    let socket = paths.vm(&longest).tpm_socket().len();
    assert!(
        socket <= MAX_SOCKET_PATH,
        "{socket} bytes exceeds the limit"
    );
}

#[test]
fn listing_an_absent_store_is_empty_not_an_error() {
    assert!(Paths::list(&Vec::new()).is_empty());
}

#[test]
fn listing_sorts_by_name_and_keeps_every_vm() {
    let entries = vec![
        ("zeta".to_owned(), true),
        ("Alpha".to_owned(), true),
        ("alpha".to_owned(), true),
        ("a/b".to_owned(), true),
        ("beta".to_owned(), true),
        ("alp".to_owned(), true),
    ];
    let found: Vec<String> = Paths::list(&entries)
        .iter()
        .map(|n| n.as_str().to_owned())
        .collect();
    assert_eq!(found, vec!["Alpha", "alp", "alpha", "beta", "zeta"]);
}

#[test]
fn the_environment_decides_where_data_and_sockets_go() {
    let paths = Paths::from_env(
        Some("/xdg/data".as_bytes()),
        Some("/home/me".as_bytes()),
        Some("/run/user/1000".as_bytes()),
    )
    .unwrap();
    assert_eq!(paths.data_dir(), b"/xdg/data/daholyvm");
    assert_eq!(paths.runtime_dir(), Some("/run/user/1000/daholyvm".as_bytes()));

    let paths = Paths::from_env(Some("".as_bytes()), Some("/home/me".as_bytes()), None).unwrap();
    assert_eq!(paths.data_dir(), b"/home/me/.local/share/daholyvm");
    assert_eq!(paths.runtime_dir(), None);

    let paths = Paths::from_env(None, Some("/home/me".as_bytes()), Some("".as_bytes())).unwrap();
    assert_eq!(paths.data_dir(), b"/home/me/.local/share/daholyvm");
    assert_eq!(paths.runtime_dir(), None);

    assert!(matches!(Paths::from_env(None, None, None), Err(Error::NoHome)));
    assert!(matches!(Paths::from_env(Some("".as_bytes()), None, None), Err(Error::NoHome)));
}

#[test]
fn joining_adds_exactly_one_separator() {
    assert_eq!(join_path(b"/data", b"vms"), b"/data/vms");
    assert_eq!(join_path(b"/data/", b"vms"), b"/data/vms");
    assert_eq!(join_path(b"", b"vms"), b"vms");
    assert_eq!(Paths::at(b"/").vms_dir(), b"/vms");
}

#[test]
fn two_vms_never_share_a_file() {
    let paths = Paths::at_with_runtime(b"/data/daholyvm", b"/run/daholyvm");
    let a = paths.vm(&name("win10"));
    let b = paths.vm(&name("win11"));
    for (x, y) in [
        (a.config(), b.config()),
        (a.disk(), b.disk()),
        (a.vars(), b.vars()),
        (a.tpm_state(), b.tpm_state()),
        (a.tpm_socket().to_owned(), b.tpm_socket().to_owned()),
    ] {
        assert_ne!(x, y);
    }
}

#[test]
fn a_home_that_is_not_utf8_is_kept_byte_for_byte() {
    let home: &[u8] = b"/home/j\xf6rg";
    let paths = Paths::from_env(None, Some(home), Some(&b"/run/user/1000\xff"[..])).unwrap();
    assert_eq!(paths.data_dir(), b"/home/j\xf6rg/.local/share/daholyvm");
    assert_eq!(paths.runtime_dir(), Some(&b"/run/user/1000\xff/daholyvm"[..]));
    let vm = paths.vm(&name("win11"));
    assert_eq!(vm.dir(), b"/home/j\xf6rg/.local/share/daholyvm/vms/win11");
    assert_eq!(vm.disk(), b"/home/j\xf6rg/.local/share/daholyvm/vms/win11/disk.qcow2");
    assert_eq!(vm.tpm_socket(), b"/run/user/1000\xff/daholyvm/win11-swtpm.sock");
}
