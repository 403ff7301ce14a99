//! The software TPM, run as a second process alongside QEMU.
//!
//! Windows 11 will not install without a TPM 2.0, and QEMU does not emulate one
//! itself: it connects over a unix socket to an external emulator. `swtpm` is
//! that emulator, so a VM with a TPM is two processes, started in order:
//!
//! ```text
//! swtpm socket --tpmstate dir=<vm>/tpm --ctrl type=unixio,path=<socket> --tpm2
//!     |
//!     +-- unix socket --> qemu-system-x86_64 -chardev socket,... -device tpm-tis
//! ```
//!
//! The state directory holds the guest's own TPM: its endorsement key, and
//! anything Windows seals against it including BitLocker keys. It lives with
//! the VM and is never treated as a cache.
//!
//! The argument vector is a pure function, and so is each decision of the
//! wait for the control socket; the front end starts the process, looks for
//! the socket and sleeps between looks.
use vstd::prelude::*;

use crate::preflight::SWTPM_BINARY;
use crate::text::{byte_views, bytes, bytes_from, bytes_of, push_bytes};
use crate::Error;

verus! {

/// How long to wait for swtpm to create its socket before giving up.
/// Starting the emulator is local and fast; a wait this long means it is not
/// coming.
pub const SOCKET_TIMEOUT_SECS: u64 = 5;

/// How long to sleep between two looks for the socket.
pub const SOCKET_POLL_MILLIS: u64 = 20;

/// `swtpm socket --tpmstate dir=… --ctrl type=unixio,path=… --tpm2`
pub open spec fn socket_args_spec(state_dir: Seq<u8>, socket: Seq<u8>) -> Seq<Seq<u8>> {
    seq![
        bytes("socket"@),
        bytes("--tpmstate"@),
        bytes("dir="@) + state_dir,
        bytes("--ctrl"@),
        bytes("type=unixio,path="@) + socket,
        bytes("--tpm2"@),
    ]
}

/// The emulator's argument vector. It always asks for TPM 2.0: swtpm still
/// defaults to the 1.2 spec, which Windows 11 does not accept.
pub fn socket_args(state_dir: &[u8], socket: &[u8]) -> (r: Vec<Vec<u8>>)
    ensures
        byte_views(r@) == socket_args_spec(state_dir@, socket@),
{
    let mut dir = bytes_of("dir=");
    push_bytes(&mut dir, state_dir);
    let mut ctrl = bytes_of("type=unixio,path=");
    push_bytes(&mut ctrl, socket);
    let r = vec![
        bytes_of("socket"),
        bytes_of("--tpmstate"),
        dir,
        bytes_of("--ctrl"),
        ctrl,
        bytes_of("--tpm2"),
    ];
    assert(byte_views(r@) =~= socket_args_spec(state_dir@, socket@));
    r
}

/// One decision of the wait for the emulator's control socket.
#[derive(Debug)]
pub enum WaitStep {
    /// The socket is there: QEMU can be started.
    Ready,
    /// Not yet: sleep [`SOCKET_POLL_MILLIS`] and look again.
    Poll,
    /// The deadline passed without a socket.
    GiveUp(Error),
}

/// Decide what to do next while waiting for `socket`, given whether the
/// deadline `timeout_secs` after the start has not yet passed, and whether
/// the socket now exists. The deadline is checked first, so a socket that
/// appears only after it is not waited for. QEMU connects to the socket as
/// it starts and fails outright if it is not there yet, so the two processes
/// cannot simply be launched together.
pub fn wait_step(socket: &[u8], timeout_secs: u64, before_deadline: bool, socket_exists: bool) -> (w:
    WaitStep)
    ensures
        !before_deadline ==> (w matches WaitStep::GiveUp(e) && e matches Error::HelperTimeout {
            binary,
            path,
            seconds,
        } && binary@ == SWTPM_BINARY@ && path@ == socket@ && seconds == timeout_secs),
        before_deadline && socket_exists ==> w is Ready,
        before_deadline && !socket_exists ==> w is Poll,
{
    if !before_deadline {
        WaitStep::GiveUp(
            Error::HelperTimeout { binary: SWTPM_BINARY, path: bytes_from(socket), seconds: timeout_secs },
        )
    } else if socket_exists {
        WaitStep::Ready
    } else {
        WaitStep::Poll
    }
}

} // verus!
