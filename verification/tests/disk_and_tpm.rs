use daholyvm_core::disk::{create, create_args, describe, detail_of, finished, stderr_detail};
use daholyvm_core::tpm::{socket_args, wait_step, WaitStep, SOCKET_TIMEOUT_SECS};
use daholyvm_core::Error;

/// An argument vector as text, for comparing with what is expected.
fn text(args: Vec<Vec<u8>>) -> Vec<String> {
    args.into_iter().map(|a| String::from_utf8(a).unwrap()).collect()
}

#[test]
fn builds_a_qcow2_create_command() {
    let args = text(create_args(b"/vms/win11/disk.qcow2", 64));
    assert_eq!(
        args,
        vec!["create", "-f", "qcow2", "/vms/win11/disk.qcow2", "64G"]
    );
}

#[test]
fn a_path_with_shell_metacharacters_stays_one_argument() {
    let image = "/vms/a b; rm -rf $HOME/disk.qcow2";
    let args = text(create_args(image.as_bytes(), 1));
    assert_eq!(args.iter().filter(|a| *a == image).count(), 1);
    assert_eq!(args.len(), 5, "the path must not be split: {args:?}");
}

#[test]
fn refuses_to_overwrite_an_existing_image() {
    let err = create(b"/vms/win11/disk.qcow2", true, 1).unwrap_err();
    match err {
        Error::DiskExists(path) => assert_eq!(path, b"/vms/win11/disk.qcow2"),
        other => panic!("{other:?}"),
    }
    assert_eq!(
        text(create(b"/vms/win11/disk.qcow2", false, 8).unwrap()),
        vec!["create", "-f", "qcow2", "/vms/win11/disk.qcow2", "8G"]
    );
}

#[test]
fn empty_stderr_does_not_produce_a_dangling_colon() {
    assert_eq!(stderr_detail(b"   \n"), "");
    assert_eq!(stderr_detail(b"could not open\n"), ": could not open");
}

#[test]
fn quoting_trims_what_the_tool_printed() {
    assert_eq!(detail_of("  Permission denied \n"), ": Permission denied");
    assert_eq!(detail_of(""), "");
    assert_eq!(stderr_detail(b"\xff bad"), ": \u{fffd} bad");
}

#[test]
fn a_run_is_described_by_how_it_ended() {
    assert_eq!(describe(Some(1)), "exit status 1");
    assert_eq!(describe(Some(-3)), "exit status -3");
    assert_eq!(describe(None), "killed by a signal");
}

#[test]
fn only_a_zero_exit_is_success() {
    assert!(finished(Some(0), b"warnings are fine").is_ok());
    match finished(Some(1), b"qemu-img: Could not create: Permission denied\n") {
        Err(Error::CommandFailed {
            binary,
            status,
            detail,
        }) => {
            assert_eq!(binary, "qemu-img");
            assert_eq!(status, "exit status 1");
            assert_eq!(detail, ": qemu-img: Could not create: Permission denied");
        }
        other => panic!("{other:?}"),
    }
    let killed = finished(None, b"").unwrap_err();
    assert_eq!(killed.message(), "`qemu-img` failed (killed by a signal)");
}

#[test]
fn builds_a_tpm_2_socket_invocation() {
    let args = text(socket_args(
        b"/data/vms/win11/tpm",
        b"/run/user/1000/daholyvm/win11-swtpm.sock",
    ));
    assert_eq!(
        args,
        vec![
            "socket",
            "--tpmstate",
            "dir=/data/vms/win11/tpm",
            "--ctrl",
            "type=unixio,path=/run/user/1000/daholyvm/win11-swtpm.sock",
            "--tpm2",
        ]
    );
}

#[test]
fn always_asks_for_tpm_2_because_windows_11_rejects_1_2() {
    let args = text(socket_args(b"/state", b"/sock"));
    assert!(args.contains(&"--tpm2".to_owned()));
}

#[test]
fn waiting_returns_as_soon_as_the_socket_exists() {
    assert!(matches!(
        wait_step(b"/run/swtpm.sock", SOCKET_TIMEOUT_SECS, true, true),
        WaitStep::Ready
    ));
    assert!(matches!(
        wait_step(b"/run/swtpm.sock", SOCKET_TIMEOUT_SECS, true, false),
        WaitStep::Poll
    ));
}

#[test]
fn waiting_gives_up_and_names_the_socket_it_wanted() {
    match wait_step(b"/nonexistent/never-appears.sock", 0, false, false) {
        WaitStep::GiveUp(err) => {
            assert!(matches!(err, Error::HelperTimeout { .. }), "{err:?}");
            assert!(err.message().contains("never-appears.sock"));
            assert_eq!(
                err.message(),
                "`swtpm` did not create its socket at `/nonexistent/never-appears.sock` within 0 seconds"
            );
        }
        other => panic!("{other:?}"),
    }
    // The deadline is checked first: a socket that only turns up after it
    // is not waited for.
    assert!(matches!(
        wait_step(b"/run/swtpm.sock", 5, false, true),
        WaitStep::GiveUp(_)
    ));
}

#[test]
fn an_emulator_that_never_listens_times_out_instead_of_hanging() {
    // Every look before the deadline polls again; the first look after it
    // gives up, whether or not the socket ever appeared.
    assert!(matches!(
        wait_step(b"/tmp/tpm-timeout/swtpm.sock", 0, true, false),
        WaitStep::Poll
    ));
    match wait_step(b"/tmp/tpm-timeout/swtpm.sock", 0, false, false) {
        WaitStep::GiveUp(err) => assert!(matches!(err, Error::HelperTimeout { .. }), "{err:?}"),
        other => panic!("{other:?}"),
    }
}

#[test]
fn an_image_path_that_is_not_utf8_is_passed_through_unchanged() {
    let image: &[u8] = b"/vms/d\xe9j\xe0/disk.qcow2";
    let args = create_args(image, 2);
    assert_eq!(args[3], image);
    assert_eq!(args[4], b"2G");
    match create(image, true, 2).unwrap_err() {
        Error::DiskExists(path) => assert_eq!(path, image),
        other => panic!("{other:?}"),
    }
    let args = socket_args(b"/st\xffte", b"/so\xffck");
    assert_eq!(args[2], b"dir=/st\xffte");
    assert_eq!(args[4], b"type=unixio,path=/so\xffck");
}

#[test]
fn an_error_shows_a_path_that_is_not_utf8_lossily() {
    match wait_step(b"/run/\xff.sock", 3, false, false) {
        WaitStep::GiveUp(err) => assert_eq!(
            err.message(),
            "`swtpm` did not create its socket at `/run/\u{fffd}.sock` within 3 seconds"
        ),
        other => panic!("{other:?}"),
    }
}
