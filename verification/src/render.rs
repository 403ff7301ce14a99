//! Text layout shared by front ends: the marker a checklist line starts
//! with, and wrapping of long remedies on word boundaries.
//!
//! Formatting only. Every decision this shows has already been made
//! elsewhere in the library, so another front end can present the same facts
//! differently without reimplementing any of them.
use vstd::prelude::*;

use crate::preflight::distro::string_views;
use crate::preflight::platform::format_kib_spec;
use crate::config::VmConfig;
use crate::paths::{vms_dir_of, Paths};
use crate::preflight::{format_kib, HostReport, Requirement, RequirementView, Status};
use crate::vm::Vm;
use crate::text::{
    chars_of, decimal, decimal_string, decode_lossy, find, is_ws, lemma_find, owned, push_char,
    push_str, string_of, utf8_lossy, words, words_of, Stop,
};

verus! {

broadcast use vstd::string::group_string_axioms;

/// The character a checklist line starts with.
pub open spec fn marker_spec(status: Status) -> char {
    match status {
        Status::Good => '+',
        Status::Warn => '!',
        Status::Missing => 'x',
    }
}

pub fn marker(status: Status) -> (c: char)
    ensures
        c == marker_spec(status),
{
    match status {
        Status::Good => '+',
        Status::Warn => '!',
        Status::Missing => 'x',
    }
}

/// Words joined by single spaces.
pub open spec fn join_words(ws: Seq<Seq<char>>) -> Seq<char>
    decreases ws.len(),
{
    if ws.len() == 0 {
        seq![]
    } else if ws.len() == 1 {
        ws[0]
    } else {
        join_words(ws.drop_last()) + seq![' '] + ws.last()
    }
}

/// Greedy wrapping of `ws` to `width` columns: the finished lines, and the
/// line being filled. A word goes on the current line when it fits after a
/// space, and otherwise starts the next one.
pub open spec fn wrap_state(ws: Seq<Seq<char>>, width: nat) -> (Seq<Seq<char>>, Seq<char>)
    decreases ws.len(),
{
    if ws.len() == 0 {
        (seq![], seq![])
    } else {
        let (lines, current) = wrap_state(ws.drop_last(), width);
        let w = ws.last();
        if current.len() > 0 && current.len() + 1 + w.len() > width {
            (lines.push(current), w)
        } else if current.len() > 0 {
            (lines, current + seq![' '] + w)
        } else {
            (lines, w)
        }
    }
}

/// `text` wrapped to `width` columns on whitespace boundaries.
pub open spec fn wrap_spec(text: Seq<char>, width: nat) -> Seq<Seq<char>> {
    let (lines, current) = wrap_state(words(text), width);
    if current.len() > 0 {
        lines.push(current)
    } else {
        lines
    }
}

/// Wrap text to `width` columns on whitespace boundaries. A word longer
/// than the width gets a line of its own rather than being cut.
pub fn wrap(text: &str, width: usize) -> (lines: Vec<String>)
    ensures
        string_views(lines@) == wrap_spec(text@, width as nat),
{
    let v = chars_of(text);
    assert(v@.subrange(0, v@.len() as int) =~= v@);
    let ws = words_of(&v, 0, v.len());
    let ghost all = words(v@);
    let mut lines: Vec<String> = Vec::new();
    let mut current = String::new();
    let mut current_len: usize = 0;
    let mut k: usize = 0;
    while k < ws.len()
        invariant
            k <= ws@.len() == all.len(),
            all == words(text@),
            v@ == text@,
            forall|j: int|
                0 <= j < ws@.len() ==> {
                    &&& 0 <= (#[trigger] ws@[j]).0 <= ws@[j].1 <= v@.len()
                    &&& v@.subrange(ws@[j].0 as int, ws@[j].1 as int) == all[j]
                },
            current_len == current@.len(),
            (string_views(lines@), current@) == wrap_state(all.take(k as int), width as nat),
        decreases ws@.len() - k,
    {
        let (a, b) = ws[k];
        let word_len = b - a;
        let word = string_of(&v, a, b);
        let ghost before = all.take(k as int);
        assert(all.take(k + 1).drop_last() =~= before);
        assert(all.take(k + 1).last() == all[k as int]);
        if current_len > 0 && (current_len >= width || word_len > width - current_len - 1) {
            let finished = current;
            lines.push(finished);
            current = word;
            current_len = word_len;
            assert(string_views(lines@) =~= wrap_state(before, width as nat).0.push(
                wrap_state(before, width as nat).1,
            ));
        } else if current_len > 0 {
            push_char(&mut current, ' ');
            crate::text::push_str(&mut current, word.as_str());
            current_len = current_len + 1 + word_len;
        } else {
            current = word;
            current_len = word_len;
        }
        k += 1;
    }
    assert(all.take(ws@.len() as int) =~= all);
    if current_len > 0 {
        lines.push(current);
        assert(string_views(lines@) =~= wrap_spec(text@, width as nat));
    }
    lines
}

// ---------------------------------------------------------------------------
// The preflight report
// ---------------------------------------------------------------------------

/// The width the report is laid out for.
pub const WIDTH: usize = 78;

/// What a remedy line is indented by.
pub const REMEDY_INDENT: &'static str = "        ";

pub open spec fn spaces(n: nat) -> Seq<char> {
    Seq::new(n, |i: int| ' ')
}

/// `s` padded with spaces on the right to `width` characters.
pub open spec fn pad(s: Seq<char>, width: nat) -> Seq<char> {
    if s.len() >= width {
        s
    } else {
        s + spaces((width - s.len()) as nat)
    }
}

/// Append `s` padded on the right to `width` characters.
fn push_padded(out: &mut String, s: &str, width: usize)
    ensures
        final(out)@ == old(out)@ + pad(s@, width as nat),
{
    push_str(out, s);
    let mut n = s.unicode_len();
    while n < width
        invariant
            s@.len() <= n <= if s@.len() >= width {
                s@.len() as usize
            } else {
                width
            },
            out@ == old(out)@ + s@ + spaces((n - s@.len()) as nat),
        decreases width - n,
    {
        push_char(out, ' ');
        assert(spaces((n + 1 - s@.len()) as nat) =~= spaces((n - s@.len()) as nat).push(' '));
        n += 1;
    }
    assert(out@ =~= old(out)@ + pad(s@, width as nat));
}

/// The widest title on the checklist, in characters.
pub open spec fn label_width(reqs: Seq<RequirementView>) -> nat
    decreases reqs.len(),
{
    if reqs.len() == 0 {
        0
    } else {
        let w = label_width(reqs.drop_last());
        if reqs.last().title.len() > w {
            reqs.last().title.len()
        } else {
            w
        }
    }
}

/// Each line indented by [`REMEDY_INDENT`].
pub open spec fn indented(lines: Seq<Seq<char>>) -> Seq<Seq<char>> {
    lines.map_values(|l: Seq<char>| REMEDY_INDENT@ + l)
}

/// One checklist entry: marker, padded title and detail, then the remedy
/// wrapped and indented beneath it.
pub open spec fn requirement_lines(r: RequirementView, width: nat) -> Seq<Seq<char>> {
    seq!["  "@ + seq![marker_spec(r.status)] + "  "@ + pad(r.title, width) + "  "@ + r.detail]
        + match r.remedy {
        Some(remedy) => indented(wrap_spec(remedy, (WIDTH - 8) as nat)),
        None => seq![],
    }
}

pub open spec fn checklist_lines(reqs: Seq<RequirementView>, width: nat) -> Seq<Seq<char>>
    decreases reqs.len(),
{
    if reqs.len() == 0 {
        seq![]
    } else {
        checklist_lines(reqs.drop_last(), width) + requirement_lines(reqs.last(), width)
    }
}

/// The host's memory as the report states it.
pub open spec fn memory_text(total: Option<u64>, available: Option<u64>) -> Seq<char> {
    match (total, available) {
        (Some(t), Some(a)) => format_kib_spec(t) + " total, "@ + format_kib_spec(a)
            + " available"@,
        (Some(t), None) => format_kib_spec(t),
        _ => "unknown"@,
    }
}

pub open spec fn resources_line(report: HostReport) -> Seq<char> {
    "  Host resources: "@ + decimal(report.cpu.logical_cores as nat) + " logical cores, "@
        + memory_text(report.platform.memory_total_kib, report.platform.memory_available_kib)
        + " RAM"@
}

/// How many checklist entries are outright missing.
pub open spec fn blockers(reqs: Seq<RequirementView>) -> nat
    decreases reqs.len(),
{
    if reqs.len() == 0 {
        0
    } else {
        blockers(reqs.drop_last()) + if reqs.last().status == Status::Missing {
            1nat
        } else {
            0nat
        }
    }
}

pub const NOT_ACCELERATED_FIRST: &'static str =
    "  Ready, but without KVM acceleration. QEMU would fall back to software emulation,";

pub const NOT_ACCELERATED_SECOND: &'static str =
    "  which is far too slow for a usable Windows guest. Resolve the warnings above.";

pub const READY: &'static str =
    "  Ready: this host can run hardware-accelerated Windows virtual machines.";

/// The closing summary: the number of blockers, or readiness with or
/// without acceleration.
pub open spec fn summary_lines(report: HostReport) -> Seq<Seq<char>> {
    let n = blockers(report.requirements_spec());
    if n > 0 {
        seq![
            "  Not ready: "@ + decimal(n) + " required "@ + (if n == 1 {
                "item"@
            } else {
                "items"@
            }) + " must be resolved before a VM can start."@,
        ]
    } else if report.kvm is Ready {
        seq![READY@]
    } else {
        seq![NOT_ACCELERATED_FIRST@, NOT_ACCELERATED_SECOND@]
    }
}

/// The whole preflight report, line by line.
pub open spec fn report_lines_spec(report: HostReport) -> Seq<Seq<char>> {
    let reqs = report.requirements_spec();
    seq![seq![], "DA-HOLY-VM preflight"@, seq![]] + checklist_lines(reqs, label_width(reqs)) + seq![
        seq![],
        resources_line(report),
        seq![],
    ] + summary_lines(report) + seq![seq![]]
}

fn requirement_out(out: &mut Vec<String>, r: &Requirement, width: usize)
    ensures
        string_views(final(out)@) == string_views(old(out)@) + requirement_lines(r@, width as nat),
{
    let mut line = owned("  ");
    push_char(&mut line, marker(r.status));
    push_str(&mut line, "  ");
    push_padded(&mut line, r.title, width);
    push_str(&mut line, "  ");
    push_str(&mut line, r.detail.as_str());
    assert(line@ =~= "  "@ + seq![marker_spec(r.status)] + "  "@ + pad(r.title@, width as nat)
        + "  "@ + r.detail@);
    let ghost start = string_views(old(out)@);
    out.push(line);
    assert(string_views(out@) =~= start.push(line@));
    match &r.remedy {
        Some(remedy) => {
            let lines = wrap(remedy.as_str(), WIDTH - 8);
            let ghost wrapped = wrap_spec(remedy@, (WIDTH - 8) as nat);
            let mut i: usize = 0;
            while i < lines.len()
                invariant
                    i <= lines@.len(),
                    string_views(lines@) == wrapped,
                    string_views(out@) == start.push(line@) + indented(wrapped.take(i as int)),
                decreases lines@.len() - i,
            {
                let mut l = owned(REMEDY_INDENT);
                push_str(&mut l, lines[i].as_str());
                let ghost before = string_views(out@);
                out.push(l);
                assert(string_views(out@) =~= before.push(l@));
                assert(wrapped[i as int] == lines@[i as int]@);
                assert(indented(wrapped.take(i + 1)) =~= indented(wrapped.take(i as int)).push(
                    REMEDY_INDENT@ + wrapped[i as int],
                ));
                i += 1;
            }
            assert(wrapped.take(lines@.len() as int) =~= wrapped);
            assert(start.push(line@) + indented(wrapped) =~= start + (seq![line@] + indented(
                wrapped,
            )));
        },
        None => {
            assert(start.push(line@) =~= start + (seq![line@] + Seq::<Seq<char>>::empty()));
        },
    }
}

/// The preflight report, line by line, as the `doctor` command prints it.
pub fn report_lines(report: &HostReport) -> (lines: Vec<String>)
    ensures
        string_views(lines@) == report_lines_spec(*report),
{
    let reqs = report.requirements();
    let ghost rv = report.requirements_spec();
    let mut width: usize = 0;
    let mut i: usize = 0;
    while i < reqs.len()
        invariant
            i <= reqs@.len(),
            crate::preflight::req_views(reqs@) == rv,
            width == label_width(rv.take(i as int)),
        decreases reqs@.len() - i,
    {
        let n = reqs[i].title.unicode_len();
        assert(rv.take(i + 1).drop_last() =~= rv.take(i as int));
        assert(rv[i as int] == reqs@[i as int]@);
        if n > width {
            width = n;
        }
        i += 1;
    }
    assert(rv.take(reqs@.len() as int) =~= rv);
    let mut out: Vec<String> = Vec::new();
    out.push(String::new());
    out.push(owned("DA-HOLY-VM preflight"));
    out.push(String::new());
    let ghost head = string_views(out@);
    assert(head =~= seq![seq![], "DA-HOLY-VM preflight"@, seq![]]);
    let mut blocking: usize = 0;
    i = 0;
    while i < reqs.len()
        invariant
            i <= reqs@.len(),
            crate::preflight::req_views(reqs@) == rv,
            width == label_width(rv),
            string_views(out@) == head + checklist_lines(rv.take(i as int), width as nat),
            blocking == blockers(rv.take(i as int)),
            blocking <= i,
        decreases reqs@.len() - i,
    {
        assert(rv.take(i + 1).drop_last() =~= rv.take(i as int));
        assert(rv[i as int] == reqs@[i as int]@);
        requirement_out(&mut out, &reqs[i], width);
        if reqs[i].status == Status::Missing {
            blocking += 1;
        }
        assert(head + checklist_lines(rv.take(i + 1), width as nat) =~= head + checklist_lines(
            rv.take(i as int),
            width as nat,
        ) + requirement_lines(rv[i as int], width as nat));
        i += 1;
    }
    assert(rv.take(reqs@.len() as int) =~= rv);
    out.push(String::new());
    let mut resources = owned("  Host resources: ");
    push_str(&mut resources, decimal_string(report.cpu.logical_cores as u64).as_str());
    push_str(&mut resources, " logical cores, ");
    match (report.platform.memory_total_kib, report.platform.memory_available_kib) {
        (Some(total), Some(available)) => {
            push_str(&mut resources, format_kib(total).as_str());
            push_str(&mut resources, " total, ");
            push_str(&mut resources, format_kib(available).as_str());
            push_str(&mut resources, " available");
        },
        (Some(total), None) => {
            push_str(&mut resources, format_kib(total).as_str());
        },
        _ => {
            push_str(&mut resources, "unknown");
        },
    }
    push_str(&mut resources, " RAM");
    assert(resources@ =~= resources_line(*report));
    out.push(resources);
    out.push(String::new());
    let ghost body = string_views(out@);
    if blocking > 0 {
        let mut line = owned("  Not ready: ");
        push_str(&mut line, decimal_string(blocking as u64).as_str());
        push_str(&mut line, " required ");
        push_str(
            &mut line,
            if blocking == 1 {
                "item"
            } else {
                "items"
            },
        );
        push_str(&mut line, " must be resolved before a VM can start.");
        out.push(line);
    } else if report.accelerated() {
        out.push(owned(READY));
    } else {
        out.push(owned(NOT_ACCELERATED_FIRST));
        out.push(owned(NOT_ACCELERATED_SECOND));
    }
    assert(string_views(out@) =~= body + summary_lines(*report));
    out.push(String::new());
    assert(string_views(out@) =~= report_lines_spec(*report));
    out
}

// ---------------------------------------------------------------------------
// Virtual machines
// ---------------------------------------------------------------------------

/// A VM's sizing, as one phrase.
pub open spec fn sizing_text(c: VmConfig) -> Seq<char> {
    decimal(c.cpus as nat) + " vCPU, "@ + decimal(c.memory_mib as nat) + " MiB RAM, "@ + decimal(
        c.disk_gib as nat,
    ) + " GiB disk"@
}

fn push_sizing(line: &mut String, c: &VmConfig)
    ensures
        final(line)@ == old(line)@ + sizing_text(*c),
{
    push_str(line, decimal_string(c.cpus as u64).as_str());
    push_str(line, " vCPU, ");
    push_str(line, decimal_string(c.memory_mib).as_str());
    push_str(line, " MiB RAM, ");
    push_str(line, decimal_string(c.disk_gib).as_str());
    push_str(line, " GiB disk");
    assert(final(line)@ =~= old(line)@ + sizing_text(*c));
}

/// What is shown once a VM has been created: its sizing, where it lives, and
/// how to start the installation.
pub open spec fn created_lines_spec(vm: Vm) -> Seq<Seq<char>> {
    let c = vm.config_spec();
    seq![
        seq![],
        "Created `"@ + c.name@ + "`"@,
        "  "@ + sizing_text(c),
        "  "@ + utf8_lossy(vm.paths_spec().dir_spec()),
        seq![],
    ] + match c.iso {
        Some(iso) => seq![
            "  Boots from "@ + utf8_lossy(iso@),
            "  Start the installation with: daholyvm run "@ + c.name@,
        ],
        None => seq![
            "  No installation medium is set. Add one to config.toml, or recreate"@,
            "  the VM with --iso, then: daholyvm run "@ + c.name@,
        ],
    } + seq![seq![]]
}

pub fn created_lines(vm: &Vm) -> (lines: Vec<String>)
    ensures
        string_views(lines@) == created_lines_spec(*vm),
{
    let c = vm.config();
    let name = c.name.as_str();
    let mut out: Vec<String> = Vec::new();
    out.push(String::new());
    let mut created = owned("Created `");
    push_str(&mut created, name);
    push_str(&mut created, "`");
    out.push(created);
    let mut sizing = owned("  ");
    push_sizing(&mut sizing, c);
    out.push(sizing);
    let mut dir = owned("  ");
    push_str(&mut dir, decode_lossy(vm.paths().dir()).as_str());
    out.push(dir);
    out.push(String::new());
    match &c.iso {
        Some(iso) => {
            let mut boots = owned("  Boots from ");
            push_str(&mut boots, decode_lossy(iso.as_slice()).as_str());
            out.push(boots);
            let mut start = owned("  Start the installation with: daholyvm run ");
            push_str(&mut start, name);
            out.push(start);
        },
        None => {
            out.push(owned("  No installation medium is set. Add one to config.toml, or recreate"));
            let mut then = owned("  the VM with --iso, then: daholyvm run ");
            push_str(&mut then, name);
            out.push(then);
        },
    }
    out.push(String::new());
    assert(string_views(out@) =~= created_lines_spec(*vm));
    out
}

/// What is shown once a VM's QEMU has been started.
pub open spec fn running_lines_spec(vm: Vm, pid: u32) -> Seq<Seq<char>> {
    seq![
        seq![],
        "Starting `"@ + vm.config_spec().name@ + "` (qemu pid "@ + decimal(pid as nat) + ")"@,
        "  Shut the guest down from inside Windows to stop it cleanly."@,
        seq![],
    ]
}

pub fn running_lines(vm: &Vm, pid: u32) -> (lines: Vec<String>)
    ensures
        string_views(lines@) == running_lines_spec(*vm, pid),
{
    let mut starting = owned("Starting `");
    push_str(&mut starting, vm.config().name.as_str());
    push_str(&mut starting, "` (qemu pid ");
    push_str(&mut starting, decimal_string(pid as u64).as_str());
    push_str(&mut starting, ")");
    let out = vec![
        String::new(),
        starting,
        owned("  Shut the guest down from inside Windows to stop it cleanly."),
        String::new(),
    ];
    assert(string_views(out@) =~= running_lines_spec(*vm, pid));
    out
}

/// The widest VM name, in characters.
pub open spec fn name_width(vms: Seq<Vm>) -> nat
    decreases vms.len(),
{
    if vms.len() == 0 {
        0
    } else {
        let w = name_width(vms.drop_last());
        let n = vms.last().config_spec().name@.len();
        if n > w {
            n
        } else {
            w
        }
    }
}

/// One VM of the list: its name, padded, and its sizing.
pub open spec fn list_line(vm: Vm, width: nat) -> Seq<char> {
    "  "@ + pad(vm.config_spec().name@, width) + "  "@ + sizing_text(vm.config_spec())
}

/// The list of VMs, or how to create the first one when there are none.
pub open spec fn list_lines_spec(vms: Seq<Vm>, paths: Paths) -> Seq<Seq<char>> {
    if vms.len() == 0 {
        seq![
            seq![],
            "No virtual machines yet."@,
            "  Create one with: daholyvm create win11 --iso /path/to/Windows.iso"@,
            seq![],
        ]
    } else {
        seq![seq![]] + vms.map_values(|vm: Vm| list_line(vm, name_width(vms))) + seq![
            seq![],
            "  Stored in "@ + utf8_lossy(vms_dir_of(paths.data_spec())),
            seq![],
        ]
    }
}

pub fn list_lines(vms: &Vec<Vm>, paths: &Paths) -> (lines: Vec<String>)
    ensures
        string_views(lines@) == list_lines_spec(vms@, *paths),
{
    let mut out: Vec<String> = Vec::new();
    if vms.len() == 0 {
        out.push(String::new());
        out.push(owned("No virtual machines yet."));
        out.push(owned("  Create one with: daholyvm create win11 --iso /path/to/Windows.iso"));
        out.push(String::new());
        assert(string_views(out@) =~= list_lines_spec(vms@, *paths));
        return out;
    }
    let mut width: usize = 0;
    let mut i: usize = 0;
    while i < vms.len()
        invariant
            i <= vms@.len(),
            width == name_width(vms@.take(i as int)),
        decreases vms@.len() - i,
    {
        assert(vms@.take(i + 1).drop_last() =~= vms@.take(i as int));
        let n = vms[i].config().name.as_str().unicode_len();
        if n > width {
            width = n;
        }
        i += 1;
    }
    assert(vms@.take(vms@.len() as int) =~= vms@);
    out.push(String::new());
    let ghost head = string_views(out@);
    i = 0;
    while i < vms.len()
        invariant
            i <= vms@.len(),
            width == name_width(vms@),
            head == seq![Seq::<char>::empty()],
            string_views(out@) == head + vms@.take(i as int).map_values(
                |vm: Vm| list_line(vm, width as nat),
            ),
        decreases vms@.len() - i,
    {
        let c = vms[i].config();
        let mut line = owned("  ");
        push_padded(&mut line, c.name.as_str(), width);
        push_str(&mut line, "  ");
        push_sizing(&mut line, c);
        let ghost before = string_views(out@);
        out.push(line);
        assert(string_views(out@) =~= before.push(line@));
        assert(vms@.take(i + 1).map_values(|vm: Vm| list_line(vm, width as nat)) =~= vms@.take(
            i as int,
        ).map_values(|vm: Vm| list_line(vm, width as nat)).push(list_line(vms@[i as int], width as nat)));
        i += 1;
    }
    assert(vms@.take(vms@.len() as int) =~= vms@);
    out.push(String::new());
    let mut stored = owned("  Stored in ");
    push_str(&mut stored, decode_lossy(paths.vms_dir().as_slice()).as_str());
    out.push(stored);
    out.push(String::new());
    assert(string_views(out@) =~= list_lines_spec(vms@, *paths));
    out
}

// ---------------------------------------------------------------------------
// What wrapping keeps
// ---------------------------------------------------------------------------

proof fn lemma_words_nonempty(s: Seq<char>)
    ensures
        forall|k: int| 0 <= k < words(s).len() ==> (#[trigger] words(s)[k]).len() > 0,
    decreases s.len(),
{
    let a = find(s, Stop::Ink);
    lemma_find(s, Stop::Ink);
    if a < s.len() {
        let rest = s.skip(a);
        lemma_find(rest, Stop::Space);
        let b = find(rest, Stop::Space);
        assert(rest[0] == s[a]);
        assert(!is_ws(rest[0]));
        assert(b > 0);
        lemma_words_nonempty(rest.skip(b));
        let w = words(s);
        assert(w == seq![rest.take(b)] + words(rest.skip(b)));
        assert forall|k: int| 0 <= k < w.len() implies (#[trigger] w[k]).len() > 0 by {
            if k > 0 {
                assert(w[k] == words(rest.skip(b))[k - 1]);
            }
        }
    }
}

/// A line that fits in `width`, or else is one of the words `ws`, kept whole.
pub open spec fn fits(line: Seq<char>, width: nat, ws: Seq<Seq<char>>) -> bool {
    line.len() > 0 && (line.len() <= width || ws.contains(line))
}

spec fn wrap_invariant(
    ws: Seq<Seq<char>>,
    width: nat,
    lines: Seq<Seq<char>>,
    current: Seq<char>,
) -> bool {
    &&& (current.len() > 0 <==> ws.len() > 0)
    &&& (ws.len() == 0 ==> lines.len() == 0)
    &&& join_words(
        if current.len() > 0 {
            lines.push(current)
        } else {
            lines
        },
    ) == join_words(ws)
    &&& forall|i: int| 0 <= i < lines.len() ==> fits(#[trigger] lines[i], width, ws)
    &&& current.len() > 0 ==> fits(current, width, ws)
}

proof fn lemma_join_push(ls: Seq<Seq<char>>, x: Seq<char>)
    ensures
        join_words(ls.push(x)) == if ls.len() == 0 {
            x
        } else {
            join_words(ls) + seq![' '] + x
        },
{
    assert(ls.push(x).drop_last() =~= ls);
}

proof fn lemma_wrap_state(ws: Seq<Seq<char>>, width: nat)
    requires
        forall|k: int| 0 <= k < ws.len() ==> (#[trigger] ws[k]).len() > 0,
    ensures
        wrap_invariant(ws, width, wrap_state(ws, width).0, wrap_state(ws, width).1),
    decreases ws.len(),
{
    if ws.len() > 0 {
        let init = ws.drop_last();
        let w = ws.last();
        assert(w == ws[ws.len() - 1]);
        assert forall|k: int| 0 <= k < init.len() implies (#[trigger] init[k]).len() > 0 by {
            assert(init[k] == ws[k]);
        }
        lemma_wrap_state(init, width);
        let (lines, current) = wrap_state(init, width);
        assert forall|x: Seq<char>| init.contains(x) implies ws.contains(x) by {
            let i = choose|i: int| 0 <= i < init.len() && init[i] == x;
            assert(ws[i] == x);
        }
        assert(ws.contains(w));
        assert(ws =~= init.push(w));
        lemma_join_push(init, w);
        let (lines2, current2) = wrap_state(ws, width);
        if current.len() > 0 && current.len() + 1 + w.len() > width {
            lemma_join_push(lines, current);
            lemma_join_push(lines.push(current), w);
            assert forall|i: int| 0 <= i < lines2.len() implies fits(
                #[trigger] lines2[i],
                width,
                ws,
            ) by {
                if i < lines.len() {
                    assert(lines2[i] == lines[i]);
                    assert(fits(lines[i], width, init));
                }
            }
        } else if current.len() > 0 {
            lemma_join_push(lines, current);
            lemma_join_push(lines, current + seq![' '] + w);
            assert(current + seq![' '] + w =~= current + (seq![' '] + w));
            assert(join_words(lines) + seq![' '] + current + seq![' '] + w =~= join_words(lines)
                + seq![' '] + (current + seq![' '] + w));
            assert forall|i: int| 0 <= i < lines2.len() implies fits(
                #[trigger] lines2[i],
                width,
                ws,
            ) by {
                assert(fits(lines[i], width, init));
            }
        } else {
            assert(init.len() == 0);
            assert(ws =~= seq![w]);
        }
    }
}

/// Wrapping loses no word and adds none: the lines, joined by single
/// spaces, are the words of the text joined by single spaces.
pub proof fn lemma_wrap_keeps_every_word(text: Seq<char>, width: nat)
    ensures
        join_words(wrap_spec(text, width)) == join_words(words(text)),
{
    lemma_words_nonempty(text);
    lemma_wrap_state(words(text), width);
}

/// No line is empty, and every line fits in the width, unless it is a
/// single word longer than the width, which is kept whole on a line of its
/// own rather than cut or dropped.
pub proof fn lemma_wrap_fits(text: Seq<char>, width: nat)
    ensures
        forall|i: int|
            0 <= i < wrap_spec(text, width).len() ==> fits(
                #[trigger] wrap_spec(text, width)[i],
                width,
                words(text),
            ),
{
    lemma_words_nonempty(text);
    lemma_wrap_state(words(text), width);
    let (lines, current) = wrap_state(words(text), width);
    let r = wrap_spec(text, width);
    assert forall|i: int| 0 <= i < r.len() implies fits(#[trigger] r[i], width, words(text)) by {
        if i < lines.len() {
            assert(r[i] == lines[i]);
        }
    }
}

/// Text with no words in it wraps to no lines, and text with words to at
/// least one.
pub proof fn lemma_wrap_of_blank_text(text: Seq<char>, width: nat)
    ensures
        wrap_spec(text, width).len() == 0 <==> words(text).len() == 0,
{
    lemma_words_nonempty(text);
    lemma_wrap_state(words(text), width);
}

} // verus!
