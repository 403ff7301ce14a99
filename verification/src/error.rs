//! The errors the library reports.
//!
//! Every variant carries plain values: paths as the bytes the operating
//! system holds them as, and failures of the operating system as the message
//! it produced, so that a front end can render any error without knowing where
//! it came from. A message shows a path decoded as UTF-8, lossily.
use vstd::prelude::*;

use crate::text::{bytes_from, decimal, decimal_string, decode_lossy, push_str, utf8_lossy};

verus! {

#[derive(Debug, Clone)]
#[allow(inconsistent_fields)]
pub enum Error {
    /// The library is Linux-first and does not target other platforms.
    UnsupportedPlatform(&'static str),
    Read { path: Vec<u8>, source: String },
    Write { path: Vec<u8>, source: String },
    /// A name that cannot safely become a directory name.
    InvalidName { name: String, reason: &'static str },
    /// A configuration value outside the range QEMU can be asked for.
    InvalidConfig { field: &'static str, problem: String },
    ConfigSyntax { path: Vec<u8>, source: String },
    ConfigSerialize(String),
    /// Without a home directory there is nowhere to keep virtual machines.
    NoHome,
    NoSuchVm(String),
    VmExists(String),
    DiskExists(Vec<u8>),
    MissingIso(Vec<u8>),
    /// Preflight found a blocker, so there is no point trying to launch.
    HostNotReady(&'static str),
    MissingBinary { binary: &'static str },
    /// The VM asks for a TPM but the host cannot provide one.
    TpmUnavailable { remedy: String },
    /// A unix socket path longer than the kernel accepts.
    SocketPathTooLong { path: Vec<u8>, length: usize, limit: usize },
    HelperTimeout { binary: &'static str, path: Vec<u8>, seconds: u64 },
    Spawn { binary: String, source: String },
    CommandFailed {
        binary: String,
        status: String,
        /// Captured stderr, already prefixed for display, or empty.
        detail: String,
    },
}

impl Error {
    pub fn read(path: &[u8], source: String) -> (e: Error)
        ensures
            e matches Error::Read { path: p, source: s } && p@ == path@ && s == source,
    {
        Error::Read { path: bytes_from(path), source }
    }

    pub fn write(path: &[u8], source: String) -> (e: Error)
        ensures
            e matches Error::Write { path: p, source: s } && p@ == path@ && s == source,
    {
        Error::Write { path: bytes_from(path), source }
    }

    /// The message a front end shows for this error.
    pub open spec fn message_spec(&self) -> Seq<char> {
        match self {
            Error::UnsupportedPlatform(os) => "DA-HOLY-VM requires Linux (this build targets `"@ + os@
                + "`)"@,
            Error::Read { path, source } => "failed to read `"@ + utf8_lossy(path@) + "`: "@ + source@,
            Error::Write { path, source } => "failed to write `"@ + utf8_lossy(path@) + "`: "@ + source@,
            Error::InvalidName { name, reason } => "invalid virtual machine name `"@ + name@
                + "`: "@ + reason@,
            Error::InvalidConfig { field, problem } => "invalid configuration: `"@ + field@ + "` "@
                + problem@,
            Error::ConfigSyntax { path, source } => "could not parse `"@ + utf8_lossy(path@) + "`: "@ + source@,
            Error::ConfigSerialize(source) => "could not serialize configuration: "@ + source@,
            Error::NoHome => "cannot locate a home directory: neither $XDG_DATA_HOME nor $HOME is set"@,
            Error::NoSuchVm(name) => "no virtual machine named `"@ + name@ + "`"@,
            Error::VmExists(name) => "a virtual machine named `"@ + name@ + "` already exists"@,
            Error::DiskExists(path) => "refusing to overwrite the existing disk image at `"@ + utf8_lossy(path@)
                + "`"@,
            Error::MissingIso(path) => "installation medium `"@ + utf8_lossy(path@) + "` does not exist"@,
            Error::HostNotReady(why) => "this host cannot launch a virtual machine: "@ + why@,
            Error::MissingBinary { binary } => "`"@ + binary@ + "` was not found on PATH"@,
            Error::TpmUnavailable { remedy } => "this virtual machine is configured with a TPM, but "@
                + remedy@,
            Error::SocketPathTooLong { path, length, limit } => "the socket path `"@ + utf8_lossy(path@)
                + "` is "@ + decimal(*length as nat) + " bytes, over the "@ + decimal(*limit as nat)
                + " byte limit"@,
            Error::HelperTimeout { binary, path, seconds } => "`"@ + binary@
                + "` did not create its socket at `"@ + utf8_lossy(path@) + "` within "@ + decimal(
                *seconds as nat,
            ) + " seconds"@,
            Error::Spawn { binary, source } => "failed to run `"@ + binary@ + "`: "@ + source@,
            Error::CommandFailed { binary, status, detail } => "`"@ + binary@ + "` failed ("@
                + status@ + ")"@ + detail@,
        }
    }

    /// The message a front end shows for this error.
    pub fn message(&self) -> (m: String)
        ensures
            m@ == self.message_spec(),
    {
        let mut m = String::new();
        match self {
            Error::UnsupportedPlatform(os) => {
                push_str(&mut m, "DA-HOLY-VM requires Linux (this build targets `");
                push_str(&mut m, os);
                push_str(&mut m, "`)");
            },
            Error::Read { path, source } => {
                push_str(&mut m, "failed to read `");
                push_str(&mut m, decode_lossy(path.as_slice()).as_str());
                push_str(&mut m, "`: ");
                push_str(&mut m, source.as_str());
            },
            Error::Write { path, source } => {
                push_str(&mut m, "failed to write `");
                push_str(&mut m, decode_lossy(path.as_slice()).as_str());
                push_str(&mut m, "`: ");
                push_str(&mut m, source.as_str());
            },
            Error::InvalidName { name, reason } => {
                push_str(&mut m, "invalid virtual machine name `");
                push_str(&mut m, name.as_str());
                push_str(&mut m, "`: ");
                push_str(&mut m, reason);
            },
            Error::InvalidConfig { field, problem } => {
                push_str(&mut m, "invalid configuration: `");
                push_str(&mut m, field);
                push_str(&mut m, "` ");
                push_str(&mut m, problem.as_str());
            },
            Error::ConfigSyntax { path, source } => {
                push_str(&mut m, "could not parse `");
                push_str(&mut m, decode_lossy(path.as_slice()).as_str());
                push_str(&mut m, "`: ");
                push_str(&mut m, source.as_str());
            },
            Error::ConfigSerialize(source) => {
                push_str(&mut m, "could not serialize configuration: ");
                push_str(&mut m, source.as_str());
            },
            Error::NoHome => {
                push_str(
                    &mut m,
                    "cannot locate a home directory: neither $XDG_DATA_HOME nor $HOME is set",
                );
            },
            Error::NoSuchVm(name) => {
                push_str(&mut m, "no virtual machine named `");
                push_str(&mut m, name.as_str());
                push_str(&mut m, "`");
            },
            Error::VmExists(name) => {
                push_str(&mut m, "a virtual machine named `");
                push_str(&mut m, name.as_str());
                push_str(&mut m, "` already exists");
            },
            Error::DiskExists(path) => {
                push_str(&mut m, "refusing to overwrite the existing disk image at `");
                push_str(&mut m, decode_lossy(path.as_slice()).as_str());
                push_str(&mut m, "`");
            },
            Error::MissingIso(path) => {
                push_str(&mut m, "installation medium `");
                push_str(&mut m, decode_lossy(path.as_slice()).as_str());
                push_str(&mut m, "` does not exist");
            },
            Error::HostNotReady(why) => {
                push_str(&mut m, "this host cannot launch a virtual machine: ");
                push_str(&mut m, why);
            },
            Error::MissingBinary { binary } => {
                push_str(&mut m, "`");
                push_str(&mut m, binary);
                push_str(&mut m, "` was not found on PATH");
            },
            Error::TpmUnavailable { remedy } => {
                push_str(&mut m, "this virtual machine is configured with a TPM, but ");
                push_str(&mut m, remedy.as_str());
            },
            Error::SocketPathTooLong { path, length, limit } => {
                push_str(&mut m, "the socket path `");
                push_str(&mut m, decode_lossy(path.as_slice()).as_str());
                push_str(&mut m, "` is ");
                push_str(&mut m, decimal_string(*length as u64).as_str());
                push_str(&mut m, " bytes, over the ");
                push_str(&mut m, decimal_string(*limit as u64).as_str());
                push_str(&mut m, " byte limit");
            },
            Error::HelperTimeout { binary, path, seconds } => {
                push_str(&mut m, "`");
                push_str(&mut m, binary);
                push_str(&mut m, "` did not create its socket at `");
                push_str(&mut m, decode_lossy(path.as_slice()).as_str());
                push_str(&mut m, "` within ");
                push_str(&mut m, decimal_string(*seconds).as_str());
                push_str(&mut m, " seconds");
            },
            Error::Spawn { binary, source } => {
                push_str(&mut m, "failed to run `");
                push_str(&mut m, binary.as_str());
                push_str(&mut m, "`: ");
                push_str(&mut m, source.as_str());
            },
            Error::CommandFailed { binary, status, detail } => {
                push_str(&mut m, "`");
                push_str(&mut m, binary.as_str());
                push_str(&mut m, "` failed (");
                push_str(&mut m, status.as_str());
                push_str(&mut m, ")");
                push_str(&mut m, detail.as_str());
            },
        }
        assert(m@ =~= self.message_spec());
        m
    }
}

} // verus!
