//! CPU facts, in particular whether hardware virtualization extensions exist.
use vstd::prelude::*;

use super::{Requirement, RequirementView, Status};
use crate::text::{
    chars_of, decimal, find_in, lines, lines_of, owned, push_decimal, push_str, range_eq, split_once,
    string_of, trim, trim_range, views, words, words_of, Stop,
};

verus! {

broadcast use vstd::string::group_string_axioms;

/// Hardware virtualization extension advertised by the CPU.
#[derive(Debug, Clone, Copy, PartialEq, Eq, Structural)]
pub enum VirtExtension {
    /// Intel VT-x, reported as the `vmx` flag.
    IntelVtx,
    /// AMD-V, reported as the `svm` flag.
    AmdV,
}

pub open spec fn virt_label(v: VirtExtension) -> Seq<char> {
    match v {
        VirtExtension::IntelVtx => "Intel VT-x"@,
        VirtExtension::AmdV => "AMD-V"@,
    }
}

impl VirtExtension {
    pub fn label(self) -> (s: &'static str)
        ensures
            s@ == virt_label(self),
    {
        match self {
            VirtExtension::IntelVtx => "Intel VT-x",
            VirtExtension::AmdV => "AMD-V",
        }
    }
}

#[derive(Debug, Clone)]
pub struct Cpu {
    pub model: Option<String>,
    pub logical_cores: usize,
    /// `None` means the CPU does not advertise virtualization extensions, which
    /// on a physical machine usually means they are disabled in firmware.
    pub virt: Option<VirtExtension>,
}

/// What `/proc/cpuinfo` says, as plain values.
pub struct CpuView {
    pub model: Option<Seq<char>>,
    pub cores: nat,
    pub virt: Option<VirtExtension>,
}

impl Cpu {
    /// The CPU as `/proc/cpuinfo` describes it; an unreadable file counts as
    /// empty.
    pub fn detect_in(cpuinfo_text: Option<&str>) -> (cpu: Cpu)
        ensures
            cpu@ == cpuinfo(
                match cpuinfo_text {
                    Some(t) => t@,
                    None => Seq::empty(),
                },
            ),
    {
        match cpuinfo_text {
            Some(text) => parse_cpuinfo(text),
            None => {
                proof {
                    reveal_strlit("");
                }
                parse_cpuinfo("")
            },
        }
    }

    pub open spec fn view(&self) -> CpuView {
        CpuView {
            model: match self.model {
                Some(m) => Some(m@),
                None => None,
            },
            cores: self.logical_cores as nat,
            virt: self.virt,
        }
    }

    pub open spec fn model_text(&self) -> Seq<char> {
        match self.model {
            Some(m) => m@,
            None => "unknown CPU"@,
        }
    }

    pub open spec fn requirement_spec(&self) -> RequirementView {
        match self.virt {
            Some(ext) => RequirementView {
                id: "cpu.virtualization"@,
                title: "CPU virtualization extensions"@,
                status: Status::Good,
                detail: virt_label(ext) + " present ("@ + self.model_text() + ", "@ + decimal(
                    self.logical_cores as nat,
                ) + " logical cores)"@,
                remedy: None,
            },
            None => RequirementView {
                id: "cpu.virtualization"@,
                title: "CPU virtualization extensions"@,
                status: Status::Warn,
                detail: "neither `vmx` nor `svm` reported by "@ + self.model_text(),
                remedy: Some(CPU_REMEDY@),
            },
        }
    }

    fn model_str(&self) -> (s: &str)
        ensures
            s@ == self.model_text(),
    {
        match &self.model {
            Some(m) => m.as_str(),
            None => "unknown CPU",
        }
    }

    pub fn requirement(&self) -> (r: Requirement)
        ensures
            r@ == self.requirement_spec(),
    {
        let model = self.model_str();
        match self.virt {
            Some(ext) => {
                let mut detail = owned(ext.label());
                push_str(&mut detail, " present (");
                push_str(&mut detail, model);
                push_str(&mut detail, ", ");
                push_decimal(&mut detail, self.logical_cores as u64);
                push_str(&mut detail, " logical cores)");
                Requirement::new(
                    "cpu.virtualization",
                    "CPU virtualization extensions",
                    Status::Good,
                    detail,
                )
            },
            None => {
                let mut detail = owned("neither `vmx` nor `svm` reported by ");
                push_str(&mut detail, model);
                Requirement::new(
                    "cpu.virtualization",
                    "CPU virtualization extensions",
                    Status::Warn,
                    detail,
                ).with_remedy(owned(CPU_REMEDY))
            },
        }
    }
}

pub const CPU_REMEDY: &'static str =
    "enable Intel VT-x / AMD-V (often listed as \"Virtualization Technology\", \"SVM\" or \"Intel VMX\") in your BIOS/UEFI setup; on a nested or cloud guest, ask your provider to enable nested virtualization";

/// The first of `words` that names a virtualization flag.
pub open spec fn first_virt(words: Seq<Seq<char>>) -> Option<VirtExtension>
    decreases words.len(),
{
    if words.len() == 0 {
        None
    } else if words[0] == "vmx"@ {
        Some(VirtExtension::IntelVtx)
    } else if words[0] == "svm"@ {
        Some(VirtExtension::AmdV)
    } else {
        first_virt(words.drop_first())
    }
}

/// The effect of one line of `/proc/cpuinfo`: every `processor` line counts a
/// core. Only the first processor block, everything before the second
/// `processor` line, describes the CPU: its first `model name` is the model,
/// and its `flags` (or, on Arm, `Features`) line gives the extension when it
/// names `vmx` or `svm`. Later blocks leave the model and extension alone.
pub open spec fn cpuinfo_line(st: CpuView, line: Seq<char>) -> CpuView {
    match split_once(line, ':') {
        None => st,
        Some((k, v)) => {
            let key = trim(k);
            let value = trim(v);
            if key == "processor"@ {
                CpuView { cores: st.cores + 1, ..st }
            } else if st.cores > 1 {
                st
            } else if key == "model name"@ && st.model is None {
                CpuView { model: Some(value), ..st }
            } else if (key == "flags"@ || key == "Features"@) && st.virt is None {
                CpuView { virt: first_virt(words(value)), ..st }
            } else {
                st
            }
        },
    }
}

/// Only the first processor block describes the CPU: once a second
/// `processor` line has been read, no line changes the model or the
/// extension, and each further `processor` line still counts a core.
pub proof fn lemma_later_blocks_only_count_cores(st: CpuView, line: Seq<char>)
    requires
        st.cores > 1,
    ensures
        cpuinfo_line(st, line).model == st.model,
        cpuinfo_line(st, line).virt == st.virt,
        cpuinfo_line(st, line).cores == st.cores || cpuinfo_line(st, line).cores == st.cores + 1,
{
}

pub open spec fn cpuinfo_lines(ls: Seq<Seq<char>>) -> CpuView
    decreases ls.len(),
{
    if ls.len() == 0 {
        CpuView { model: None, cores: 0, virt: None }
    } else {
        cpuinfo_line(cpuinfo_lines(ls.drop_last()), ls.last())
    }
}

/// What `parse_cpuinfo` makes of a text.
pub open spec fn cpuinfo(text: Seq<char>) -> CpuView {
    cpuinfo_lines(lines(text))
}

fn first_virt_in(v: &Vec<char>, lo: usize, hi: usize) -> (r: Option<VirtExtension>)
    requires
        lo <= hi <= v@.len(),
    ensures
        r == first_virt(words(v@.subrange(lo as int, hi as int))),
{
    let ws = words_of(v, lo, hi);
    let ghost all = words(v@.subrange(lo as int, hi as int));
    let mut i: usize = 0;
    assert(all.skip(0) =~= all);
    while i < ws.len()
        invariant
            lo <= hi <= v@.len(),
            0 <= i <= ws@.len(),
            ws@.len() == all.len(),
            all == words(v@.subrange(lo as int, hi as int)),
            forall|k: int|
                0 <= k < ws@.len() ==> {
                    &&& lo <= (#[trigger] ws@[k]).0 <= ws@[k].1 <= hi
                    &&& v@.subrange(ws@[k].0 as int, ws@[k].1 as int) == all[k]
                },
            first_virt(all) == first_virt(all.skip(i as int)),
        decreases ws@.len() - i,
    {
        let (a, b) = ws[i];
        proof {
            let rest = all.skip(i as int);
            assert(rest[0] == all[i as int]);
            assert(rest.drop_first() =~= all.skip(i + 1));
        }
        if range_eq(v, a, b, "vmx") {
            return Some(VirtExtension::IntelVtx);
        }
        if range_eq(v, a, b, "svm") {
            return Some(VirtExtension::AmdV);
        }
        i += 1;
    }
    None
}

/// One line of `/proc/cpuinfo`, applied to what the lines before it said.
fn cpuinfo_step(line: &Vec<char>, cpu: Cpu) -> (r: Cpu)
    requires
        cpu.logical_cores < usize::MAX,
    ensures
        r@ == cpuinfo_line(cpu@, line@),
        r.logical_cores <= cpu.logical_cores + 1,
{
    let n = line.len();
    assert(line@.subrange(0, n as int) =~= line@);
    let k = find_in(line, 0, n, &Stop::At(':'));
    if k >= n {
        return cpu;
    }
    let (ka, kb) = trim_range(line, 0, k);
    let (va, vb) = trim_range(line, k + 1, n);
    proof {
        assert(line@.take(k as int) =~= line@.subrange(0, k as int));
        assert(line@.skip(k + 1) =~= line@.subrange(k + 1, n as int));
    }
    if range_eq(line, ka, kb, "processor") {
        Cpu { logical_cores: cpu.logical_cores + 1, ..cpu }
    } else if cpu.logical_cores > 1 {
        cpu
    } else if range_eq(line, ka, kb, "model name") && cpu.model.is_none() {
        Cpu { model: Some(string_of(line, va, vb)), ..cpu }
    } else if (range_eq(line, ka, kb, "flags") || range_eq(line, ka, kb, "Features"))
        && cpu.virt.is_none() {
        Cpu { virt: first_virt_in(line, va, vb), ..cpu }
    } else {
        cpu
    }
}

/// Parse `/proc/cpuinfo`. Only the first processor block is used for the model
/// and flags; every block is counted for the logical core total.
pub fn parse_cpuinfo(text: &str) -> (cpu: Cpu)
    ensures
        cpu@ == cpuinfo(text@),
{
    let chars = chars_of(text);
    let ls = lines_of(&chars);
    let mut cpu = Cpu { model: None, logical_cores: 0, virt: None };
    let mut i: usize = 0;
    while i < ls.len()
        invariant
            0 <= i <= ls@.len(),
            views(ls@) == lines(text@),
            cpu.logical_cores <= i,
            cpu@ == cpuinfo_lines(views(ls@).take(i as int)),
        decreases ls@.len() - i,
    {
        proof {
            assert(views(ls@)[i as int] == ls@[i as int]@);
            assert(views(ls@).take(i + 1).drop_last() =~= views(ls@).take(i as int));
            assert(views(ls@).take(i + 1).last() == ls@[i as int]@);
        }
        cpu = cpuinfo_step(&ls[i], cpu);
        i += 1;
    }
    proof {
        assert(views(ls@).take(ls@.len() as int) =~= views(ls@));
    }
    cpu
}

} // verus!
