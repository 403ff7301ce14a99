//! Host platform facts: distribution, kernel, architecture and memory.
use vstd::prelude::*;

use super::distro::{opt_view, os_release, OsRelease, OsReleaseView, PackageManager};
use super::{Requirement, RequirementView, Status};
use crate::paths::opt_str;
use crate::text::{
    chars_of, decimal, find_in, lines, lines_of, owned, parse_u64, parse_u64_range, push_char,
    push_decimal, push_str, split_once, trim, trim_range, trim_string, views, words, words_of,
    Stop,
};

verus! {

broadcast use vstd::string::group_string_axioms;

#[derive(Debug, Clone)]
pub struct Platform {
    /// Whether this build targets Linux at all. The library is Linux-first.
    pub is_linux: bool,
    /// The operating system this build targets, as Rust names it.
    pub os: &'static str,
    pub arch: &'static str,
    pub kernel: Option<String>,
    pub os_release: OsRelease,
    pub memory_total_kib: Option<u64>,
    pub memory_available_kib: Option<u64>,
}

pub const LINUX_ONLY_REMEDY: &'static str =
    "DA-HOLY-VM is Linux-first and has no Windows or macOS host support";

pub const ARCH_REMEDY: &'static str =
    "DA-HOLY-VM currently targets x86_64 hosts; running an x86_64 Windows guest on this architecture would require full emulation and is not supported yet";

/// Distribution name for display, falling back to a generic label.
pub open spec fn distro_name_of(os: OsReleaseView) -> Seq<char> {
    match os.pretty_name {
        Some(p) => p,
        None => match os.id {
            Some(id) => id,
            None => "unknown Linux distribution"@,
        },
    }
}

/// The platform as the host's files describe it: the kernel release
/// trimmed, and absent when blank; the distribution from `/etc/os-release`;
/// the total and available memory from `/proc/meminfo`. A file that could
/// not be read is `None` and counts as empty.
pub open spec fn platform_detected(
    p: Platform,
    is_linux: bool,
    os: &'static str,
    arch: &'static str,
    kernel_release: Option<Seq<char>>,
    os_release_text: Option<Seq<char>>,
    meminfo_text: Option<Seq<char>>,
) -> bool {
    let memory = match meminfo_text {
        Some(t) => t,
        None => Seq::empty(),
    };
    &&& p.is_linux == is_linux
    &&& p.os == os
    &&& p.arch == arch
    &&& opt_view(p.kernel) == match kernel_release {
        Some(k) => if trim(k).len() > 0 {
            Some(trim(k))
        } else {
            None
        },
        None => None,
    }
    &&& p.os_release@ == match os_release_text {
        Some(t) => os_release(t),
        None => OsReleaseView { id: None, id_like: seq![], pretty_name: None },
    }
    &&& p.memory_total_kib == meminfo(memory, "MemTotal"@)
    &&& p.memory_available_kib == meminfo(memory, "MemAvailable"@)
}

impl Platform {
    pub open spec fn requirement_spec(&self) -> RequirementView {
        if !self.is_linux {
            RequirementView {
                id: "platform.linux"@,
                title: "Linux host"@,
                status: Status::Missing,
                detail: "this build targets `"@ + self.os@ + "`, not Linux"@,
                remedy: Some(LINUX_ONLY_REMEDY@),
            }
        } else {
            let detail = distro_name_of(self.os_release@) + match self.kernel {
                Some(k) => ", kernel "@ + k@,
                None => Seq::<char>::empty(),
            } + ", "@ + self.arch@;
            if self.arch@ != "x86_64"@ {
                RequirementView {
                    id: "platform.linux"@,
                    title: "Linux host"@,
                    status: Status::Warn,
                    detail,
                    remedy: Some(ARCH_REMEDY@),
                }
            } else {
                RequirementView {
                    id: "platform.linux"@,
                    title: "Linux host"@,
                    status: Status::Good,
                    detail,
                    remedy: None,
                }
            }
        }
    }

    /// Assemble the platform facts from what the host's files say: the
    /// kernel release (trimmed, and absent when blank), `/etc/os-release`,
    /// and the total and available memory from `/proc/meminfo`. A file that
    /// could not be read is `None` and counts as empty.
    pub fn detect_in(
        is_linux: bool,
        os: &'static str,
        arch: &'static str,
        kernel_release: Option<&str>,
        os_release_text: Option<&str>,
        meminfo_text: Option<&str>,
    ) -> (p: Platform)
        ensures
            platform_detected(
                p,
                is_linux,
                os,
                arch,
                opt_str(kernel_release),
                opt_str(os_release_text),
                opt_str(meminfo_text),
            ),
    {
        let kernel = match kernel_release {
            Some(k) => {
                let v = chars_of(k);
                assert(v@.subrange(0, v@.len() as int) =~= v@);
                let t = trim_string(&v, 0, v.len());
                if t.unicode_len() > 0 {
                    Some(t)
                } else {
                    None
                }
            },
            None => None,
        };
        let os_release = match os_release_text {
            Some(t) => super::distro::parse_os_release(t),
            None => OsRelease::default(),
        };
        let meminfo_text = match meminfo_text {
            Some(t) => t,
            None => "",
        };
        proof {
            reveal_strlit("");
        }
        Platform {
            is_linux,
            os,
            arch,
            kernel,
            os_release,
            memory_total_kib: parse_meminfo(meminfo_text, "MemTotal"),
            memory_available_kib: parse_meminfo(meminfo_text, "MemAvailable"),
        }
    }

    pub fn package_manager(&self) -> (pm: PackageManager)
        ensures
            pm == super::distro::first_manager(super::distro::release_ids(self.os_release@)),
    {
        self.os_release.package_manager()
    }

    /// Distribution name for display, falling back to a generic label.
    pub fn distro_name(&self) -> (s: &str)
        ensures
            s@ == distro_name_of(self.os_release@),
    {
        match &self.os_release.pretty_name {
            Some(p) => p.as_str(),
            None => match &self.os_release.id {
                Some(id) => id.as_str(),
                None => "unknown Linux distribution",
            },
        }
    }

    pub fn requirement(&self) -> (r: Requirement)
        ensures
            r@ == self.requirement_spec(),
    {
        if !self.is_linux {
            let mut detail = owned("this build targets `");
            push_str(&mut detail, self.os);
            push_str(&mut detail, "`, not Linux");
            return Requirement::new("platform.linux", "Linux host", Status::Missing, detail).with_remedy(
                owned(LINUX_ONLY_REMEDY),
            );
        }
        let mut detail = owned(self.distro_name());
        if let Some(kernel) = &self.kernel {
            push_str(&mut detail, ", kernel ");
            push_str(&mut detail, kernel.as_str());
        }
        push_str(&mut detail, ", ");
        push_str(&mut detail, self.arch);
        proof {
            let tail = match &self.kernel {
                Some(k) => ", kernel "@ + k@,
                None => Seq::<char>::empty(),
            };
            assert(detail@ =~= distro_name_of(self.os_release@) + tail + ", "@ + self.arch@);
        }
        // A non-x86_64 host would need a different QEMU target and firmware
        // than the command lines are built for.
        let x86 = chars_of(self.arch);
        if !crate::text::vec_eq(&x86, "x86_64") {
            return Requirement::new("platform.linux", "Linux host", Status::Warn, detail).with_remedy(
                owned(ARCH_REMEDY),
            );
        }
        Requirement::new("platform.linux", "Linux host", Status::Good, detail)
    }
}

/// The value of the first `/proc/meminfo` line whose field name is `key`:
/// the first word after the colon, read as a number. A later line with the
/// same name is never consulted, even when the first one's value is not a
/// number.
pub open spec fn meminfo_lines(ls: Seq<Seq<char>>, key: Seq<char>) -> Option<u64>
    decreases ls.len(),
{
    if ls.len() == 0 {
        None
    } else {
        match split_once(ls[0], ':') {
            Some((name, rest)) if trim(name) == key => {
                let ws = words(rest);
                if ws.len() == 0 {
                    None
                } else {
                    parse_u64(ws[0])
                }
            },
            _ => meminfo_lines(ls.drop_first(), key),
        }
    }
}

pub open spec fn meminfo(text: Seq<char>, key: Seq<char>) -> Option<u64> {
    meminfo_lines(lines(text), key)
}

/// Look at one meminfo line: `None` when it is not about `key`, otherwise
/// the answer it gives.
fn meminfo_line(line: &Vec<char>, key: &str) -> (r: Option<Option<u64>>)
    ensures
        match split_once(line@, ':') {
            Some((name, rest)) if trim(name) == key@ => r == Some(
                {
                    let ws = words(rest);
                    if ws.len() == 0 {
                        None
                    } else {
                        parse_u64(ws[0])
                    }
                },
            ),
            _ => r is None,
        },
{
    let n = line.len();
    assert(line@.subrange(0, n as int) =~= line@);
    let k = find_in(line, 0, n, &Stop::At(':'));
    if k >= n {
        return None;
    }
    proof {
        assert(line@.take(k as int) =~= line@.subrange(0, k as int));
        assert(line@.skip(k + 1) =~= line@.subrange(k + 1, n as int));
    }
    let (a, b) = trim_range(line, 0, k);
    if !crate::text::range_eq(line, a, b, key) {
        return None;
    }
    let ws = words_of(line, k + 1, n);
    if ws.len() == 0 {
        return Some(None);
    }
    let (wa, wb) = ws[0];
    Some(parse_u64_range(line, wa, wb))
}

/// Extract a `/proc/meminfo` field, in kibibytes.
pub fn parse_meminfo(text: &str, key: &str) -> (r: Option<u64>)
    ensures
        r == meminfo(text@, key@),
{
    let chars = chars_of(text);
    let ls = lines_of(&chars);
    let ghost all = views(ls@);
    let mut i: usize = 0;
    assert(all.skip(0) =~= all);
    while i < ls.len()
        invariant
            0 <= i <= ls@.len(),
            all == views(ls@),
            all == lines(text@),
            meminfo(text@, key@) == meminfo_lines(all.skip(i as int), key@),
        decreases ls@.len() - i,
    {
        proof {
            let rest = all.skip(i as int);
            assert(rest[0] == ls@[i as int]@);
            assert(rest.drop_first() =~= all.skip(i + 1));
        }
        if let Some(answer) = meminfo_line(&ls[i], key) {
            return answer;
        }
        i += 1;
    }
    None
}

/// `n / d` rounded to the nearest integer, ties to even: the rounding that
/// formatting a float to a fixed number of places performs.
pub open spec fn round_half_even(n: nat, d: nat) -> nat
    recommends
        d > 0,
{
    let q = n / d;
    let r = n % d;
    if 2 * r > d {
        q + 1
    } else if 2 * r == d {
        if q % 2 == 1 {
            q + 1
        } else {
            q
        }
    } else {
        q
    }
}

pub const KIB_PER_MIB: u64 = 1024;

pub const KIB_PER_GIB: u64 = 1048576;

/// `kib` in the largest unit it reaches: GiB to one decimal place, MiB or
/// KiB as whole numbers, each rounded half to even.
pub open spec fn format_kib_spec(kib: u64) -> Seq<char> {
    if kib >= KIB_PER_GIB {
        let tenths = round_half_even(kib as nat * 10, KIB_PER_GIB as nat);
        decimal(tenths / 10) + seq!['.'] + decimal(tenths % 10) + " GiB"@
    } else if kib >= KIB_PER_MIB {
        decimal(round_half_even(kib as nat, KIB_PER_MIB as nat)) + " MiB"@
    } else {
        decimal(kib as nat) + " KiB"@
    }
}

fn round_half_even_exec(n: u128, d: u128) -> (r: u128)
    requires
        d > 0,
        n < u128::MAX / 2,
        d < u128::MAX / 2,
    ensures
        r == round_half_even(n as nat, d as nat),
{
    let q = n / d;
    let rem = n % d;
    if 2 * rem > d {
        q + 1
    } else if 2 * rem == d {
        if q % 2 == 1 {
            q + 1
        } else {
            q
        }
    } else {
        q
    }
}

/// Render kibibytes as a human-readable size, e.g. `15.5 GiB`.
pub fn format_kib(kib: u64) -> (s: String)
    ensures
        s@ == format_kib_spec(kib),
{
    if kib >= KIB_PER_GIB {
        let n: u128 = kib as u128 * 10;
        let tenths = round_half_even_exec(n, KIB_PER_GIB as u128);
        assert(tenths <= n / (KIB_PER_GIB as u128) + 1) by (nonlinear_arith)
            requires
                tenths <= n / (KIB_PER_GIB as u128) + 1,
        ;
        assert(n / (KIB_PER_GIB as u128) <= n);
        let whole = (tenths / 10) as u64;
        let frac = (tenths % 10) as u64;
        let mut s = crate::text::decimal_string(whole);
        push_char(&mut s, '.');
        push_decimal(&mut s, frac);
        push_str(&mut s, " GiB");
        s
    } else if kib >= KIB_PER_MIB {
        let r = round_half_even_exec(kib as u128, KIB_PER_MIB as u128);
        let mut s = crate::text::decimal_string(r as u64);
        push_str(&mut s, " MiB");
        s
    } else {
        let mut s = crate::text::decimal_string(kib);
        push_str(&mut s, " KiB");
        s
    }
}

} // verus!
