//! Virtual disk images, created through `qemu-img`.
//!
//! qcow2 is used for every disk: it allocates lazily, so a 64 GiB Windows disk
//! costs a few megabytes until the guest actually writes, and it supports
//! snapshots.
//!
//! The argument vector is a pure function, and so is the reading of a
//! finished run; the front end starts the process between the two.
use vstd::prelude::*;

use crate::preflight::QEMU_IMG_BINARY;
use crate::text::{
    byte_views, bytes, bytes_from, bytes_of, chars_of, decimal, decimal_string, decode_lossy,
    owned, push_signed_decimal, push_str, push_text, signed_decimal, trim, trim_string, utf8_lossy,
};
use crate::Error;

verus! {

/// `qemu-img create -f qcow2 <image> <size>G`
pub open spec fn create_args_spec(image: Seq<u8>, size_gib: u64) -> Seq<Seq<u8>> {
    seq![
        bytes("create"@),
        bytes("-f"@),
        bytes("qcow2"@),
        image,
        bytes(decimal(size_gib as nat)) + bytes("G"@),
    ]
}

/// `qemu-img create -f qcow2 <image> <size>G`. The image path is one
/// argument whatever bytes it holds.
pub fn create_args(image: &[u8], size_gib: u64) -> (r: Vec<Vec<u8>>)
    ensures
        byte_views(r@) == create_args_spec(image@, size_gib),
{
    let digits = decimal_string(size_gib);
    let mut size = bytes_of(digits.as_str());
    push_text(&mut size, "G");
    let r = vec![bytes_of("create"), bytes_of("-f"), bytes_of("qcow2"), bytes_from(image), size];
    assert(byte_views(r@) =~= create_args_spec(image@, size_gib));
    r
}

/// The command that creates a new qcow2 image at `image`, given whether a
/// file is already there.
///
/// `qemu-img create` truncates an existing file without asking, which for a
/// disk image means destroying a Windows installation. This refusal is what
/// stands between a mistyped VM name and someone's guest, so it comes before
/// anything is run.
pub fn create(image: &[u8], image_exists: bool, size_gib: u64) -> (r: Result<Vec<Vec<u8>>, Error>)
    ensures
        r is Err <==> image_exists,
        r matches Err(e) ==> e matches Error::DiskExists(p) && p@ == image@,
        r matches Ok(argv) ==> byte_views(argv@) == create_args_spec(image@, size_gib),
{
    if image_exists {
        return Err(Error::DiskExists(bytes_from(image)));
    }
    Ok(create_args(image, size_gib))
}

/// How a finished process is described: its exit code, or the fact that a
/// signal ended it.
pub open spec fn describe_spec(code: Option<i32>) -> Seq<char> {
    match code {
        Some(c) => "exit status "@ + signed_decimal(c as int),
        None => "killed by a signal"@,
    }
}

/// Describe how a process ended, given its exit code (`None` when a signal
/// ended it).
pub fn describe(code: Option<i32>) -> (s: String)
    ensures
        s@ == describe_spec(code),
{
    match code {
        Some(c) => {
            let mut s = owned("exit status ");
            push_signed_decimal(&mut s, c as i64);
            s
        },
        None => owned("killed by a signal"),
    }
}

/// What a tool printed, as it is quoted after an error message: trimmed and
/// prefixed with `: `, or nothing at all when it printed only whitespace.
pub open spec fn detail_spec(text: Seq<char>) -> Seq<char> {
    if trim(text).len() == 0 {
        seq![]
    } else {
        ": "@ + trim(text)
    }
}

/// Quote what a tool printed, for the end of an error message.
pub fn detail_of(text: &str) -> (s: String)
    ensures
        s@ == detail_spec(text@),
{
    let v = chars_of(text);
    assert(v@.subrange(0, v@.len() as int) =~= text@);
    let t = trim_string(&v, 0, v.len());
    if t.as_str().unicode_len() == 0 {
        String::new()
    } else {
        let mut s = owned(": ");
        push_str(&mut s, t.as_str());
        s
    }
}

/// Quote a tool's standard error, decoded leniently, for the end of an
/// error message.
pub fn stderr_detail(stderr: &[u8]) -> (s: String)
    ensures
        s@ == detail_spec(utf8_lossy(stderr@)),
{
    let text = decode_lossy(stderr);
    detail_of(text.as_str())
}

/// The outcome of a `qemu-img` run that ended with `code` (`None` when a
/// signal ended it) after printing `stderr`. Only a zero exit is success; a
/// failure carries whatever the tool complained about.
pub fn finished(code: Option<i32>, stderr: &[u8]) -> (r: Result<(), Error>)
    ensures
        r is Ok <==> code == Some(0i32),
        r matches Err(e) ==> e matches Error::CommandFailed { binary, status, detail } && binary@
            == QEMU_IMG_BINARY@ && status@ == describe_spec(code) && detail@ == detail_spec(
            utf8_lossy(stderr@),
        ),
{
    match code {
        Some(0i32) => Ok(()),
        _ => Err(
            Error::CommandFailed {
                binary: owned(QEMU_IMG_BINARY),
                status: describe(code),
                detail: stderr_detail(stderr),
            },
        ),
    }
}

} // verus!
