//! OVMF/edk2 UEFI firmware discovery.
//!
//! Modern Windows boots via UEFI, so a VM needs an OVMF firmware pair: a
//! read-only `CODE` image and a writable `VARS` template that each VM gets its
//! own copy of. Distributions disagree about where these live and what they are
//! called, so the search is a preference-ordered table rather than one path.
use vstd::prelude::*;

use super::distro::{install_hint_spec, string_views, Package, PackageManager};
use super::sysroot::{strip_leading_slashes, Sysroot};
use super::{Requirement, RequirementView, Status};
use crate::paths::join;
use crate::text::{bytes, decimal, owned, push_str, utf8_lossy};

verus! {

broadcast use vstd::string::group_string_axioms;

/// A known firmware location.
pub struct Candidate {
    pub code: &'static str,
    pub vars: &'static str,
    pub secure_boot: bool,
    pub flash_size_mb: u32,
    pub origin: &'static str,
}

pub struct CandidateRow {
    pub code: Seq<char>,
    pub vars: Seq<char>,
    pub secure_boot: bool,
    pub flash_size_mb: u32,
    pub origin: Seq<char>,
}

impl Candidate {
    pub open spec fn view(&self) -> CandidateRow {
        CandidateRow {
            code: self.code@,
            vars: self.vars@,
            secure_boot: self.secure_boot,
            flash_size_mb: self.flash_size_mb,
            origin: self.origin@,
        }
    }
}

pub open spec fn row(
    code: &'static str,
    vars: &'static str,
    secure_boot: bool,
    flash_size_mb: u32,
    origin: &'static str,
) -> CandidateRow {
    CandidateRow { code: code@, vars: vars@, secure_boot, flash_size_mb, origin: origin@ }
}

/// Known firmware locations, most preferred first: Secure Boot capable before
/// plain, and 4 MB flash before the legacy 2 MB layout.
pub open spec fn candidate_table() -> Seq<CandidateRow> {
    seq![
        row("/usr/share/edk2/x64/OVMF_CODE.secboot.4m.fd", "/usr/share/edk2/x64/OVMF_VARS.4m.fd", true, 4, "Arch (edk2-ovmf)"),
        row("/usr/share/edk2/x64/OVMF_CODE.4m.fd", "/usr/share/edk2/x64/OVMF_VARS.4m.fd", false, 4, "Arch (edk2-ovmf)"),
        row("/usr/share/OVMF/OVMF_CODE_4M.secboot.fd", "/usr/share/OVMF/OVMF_VARS_4M.ms.fd", true, 4, "Debian/Ubuntu (ovmf)"),
        row("/usr/share/OVMF/OVMF_CODE_4M.fd", "/usr/share/OVMF/OVMF_VARS_4M.fd", false, 4, "Debian/Ubuntu (ovmf)"),
        row("/usr/share/edk2/ovmf/OVMF_CODE.secboot.fd", "/usr/share/edk2/ovmf/OVMF_VARS.secboot.fd", true, 4, "Fedora/RHEL (edk2-ovmf)"),
        row("/usr/share/edk2/ovmf/OVMF_CODE.fd", "/usr/share/edk2/ovmf/OVMF_VARS.fd", false, 4, "Fedora/RHEL (edk2-ovmf)"),
        row("/usr/share/qemu/ovmf-x86_64-smm-code.bin", "/usr/share/qemu/ovmf-x86_64-smm-vars.bin", true, 4, "openSUSE (qemu-ovmf-x86_64)"),
        row("/usr/share/qemu/ovmf-x86_64-code.bin", "/usr/share/qemu/ovmf-x86_64-vars.bin", false, 4, "openSUSE (qemu-ovmf-x86_64)"),
        row("/usr/share/edk2-ovmf/x64/OVMF_CODE.secboot.fd", "/usr/share/edk2-ovmf/x64/OVMF_VARS.fd", true, 2, "Arch (legacy edk2-ovmf)"),
        row("/usr/share/OVMF/OVMF_CODE.fd", "/usr/share/OVMF/OVMF_VARS.fd", false, 2, "Debian/Ubuntu (legacy ovmf)"),
    ]
}

pub open spec fn candidate_views(v: Seq<Candidate>) -> Seq<CandidateRow> {
    v.map_values(|c: Candidate| c.view())
}

/// The firmware table, most preferred first.
pub fn candidates() -> (v: Vec<Candidate>)
    ensures
        candidate_views(v@) == candidate_table(),
{
    let v = vec![
        Candidate { code: "/usr/share/edk2/x64/OVMF_CODE.secboot.4m.fd", vars: "/usr/share/edk2/x64/OVMF_VARS.4m.fd", secure_boot: true, flash_size_mb: 4, origin: "Arch (edk2-ovmf)" },
        Candidate { code: "/usr/share/edk2/x64/OVMF_CODE.4m.fd", vars: "/usr/share/edk2/x64/OVMF_VARS.4m.fd", secure_boot: false, flash_size_mb: 4, origin: "Arch (edk2-ovmf)" },
        Candidate { code: "/usr/share/OVMF/OVMF_CODE_4M.secboot.fd", vars: "/usr/share/OVMF/OVMF_VARS_4M.ms.fd", secure_boot: true, flash_size_mb: 4, origin: "Debian/Ubuntu (ovmf)" },
        Candidate { code: "/usr/share/OVMF/OVMF_CODE_4M.fd", vars: "/usr/share/OVMF/OVMF_VARS_4M.fd", secure_boot: false, flash_size_mb: 4, origin: "Debian/Ubuntu (ovmf)" },
        Candidate { code: "/usr/share/edk2/ovmf/OVMF_CODE.secboot.fd", vars: "/usr/share/edk2/ovmf/OVMF_VARS.secboot.fd", secure_boot: true, flash_size_mb: 4, origin: "Fedora/RHEL (edk2-ovmf)" },
        Candidate { code: "/usr/share/edk2/ovmf/OVMF_CODE.fd", vars: "/usr/share/edk2/ovmf/OVMF_VARS.fd", secure_boot: false, flash_size_mb: 4, origin: "Fedora/RHEL (edk2-ovmf)" },
        Candidate { code: "/usr/share/qemu/ovmf-x86_64-smm-code.bin", vars: "/usr/share/qemu/ovmf-x86_64-smm-vars.bin", secure_boot: true, flash_size_mb: 4, origin: "openSUSE (qemu-ovmf-x86_64)" },
        Candidate { code: "/usr/share/qemu/ovmf-x86_64-code.bin", vars: "/usr/share/qemu/ovmf-x86_64-vars.bin", secure_boot: false, flash_size_mb: 4, origin: "openSUSE (qemu-ovmf-x86_64)" },
        Candidate { code: "/usr/share/edk2-ovmf/x64/OVMF_CODE.secboot.fd", vars: "/usr/share/edk2-ovmf/x64/OVMF_VARS.fd", secure_boot: true, flash_size_mb: 2, origin: "Arch (legacy edk2-ovmf)" },
        Candidate { code: "/usr/share/OVMF/OVMF_CODE.fd", vars: "/usr/share/OVMF/OVMF_VARS.fd", secure_boot: false, flash_size_mb: 2, origin: "Debian/Ubuntu (legacy ovmf)" },
    ];
    assert(candidate_views(v@) =~= candidate_table());
    v
}

/// Every location in the table is absolute, which rebasing onto a
/// [`Sysroot`] relies on.
pub proof fn lemma_candidates_are_absolute()
    ensures
        forall|i: int|
            0 <= i < candidate_table().len() ==> {
                &&& (#[trigger] candidate_table()[i]).code.len() > 0
                &&& candidate_table()[i].code[0] == '/'
                &&& candidate_table()[i].vars.len() > 0
                &&& candidate_table()[i].vars[0] == '/'
            },
{
    reveal_strlit("/usr/share/edk2/x64/OVMF_CODE.secboot.4m.fd");
    reveal_strlit("/usr/share/edk2/x64/OVMF_VARS.4m.fd");
    reveal_strlit("/usr/share/edk2/x64/OVMF_CODE.4m.fd");
    reveal_strlit("/usr/share/OVMF/OVMF_CODE_4M.secboot.fd");
    reveal_strlit("/usr/share/OVMF/OVMF_VARS_4M.ms.fd");
    reveal_strlit("/usr/share/OVMF/OVMF_CODE_4M.fd");
    reveal_strlit("/usr/share/OVMF/OVMF_VARS_4M.fd");
    reveal_strlit("/usr/share/edk2/ovmf/OVMF_CODE.secboot.fd");
    reveal_strlit("/usr/share/edk2/ovmf/OVMF_VARS.secboot.fd");
    reveal_strlit("/usr/share/edk2/ovmf/OVMF_CODE.fd");
    reveal_strlit("/usr/share/edk2/ovmf/OVMF_VARS.fd");
    reveal_strlit("/usr/share/qemu/ovmf-x86_64-smm-code.bin");
    reveal_strlit("/usr/share/qemu/ovmf-x86_64-smm-vars.bin");
    reveal_strlit("/usr/share/qemu/ovmf-x86_64-code.bin");
    reveal_strlit("/usr/share/qemu/ovmf-x86_64-vars.bin");
    reveal_strlit("/usr/share/edk2-ovmf/x64/OVMF_CODE.secboot.fd");
    reveal_strlit("/usr/share/edk2-ovmf/x64/OVMF_VARS.fd");
    reveal_strlit("/usr/share/OVMF/OVMF_CODE.fd");
    reveal_strlit("/usr/share/OVMF/OVMF_VARS.fd");
}

/// A usable `CODE` + `VARS` firmware pair on this host.
#[derive(Debug, Clone)]
pub struct FirmwarePair {
    /// Read-only firmware image, attached as the first pflash unit.
    pub code: Vec<u8>,
    /// Variable store *template*. Each VM gets a private copy; this file is
    /// never written to.
    pub vars_template: Vec<u8>,
    pub secure_boot: bool,
    pub flash_size_mb: u32,
    /// Which distribution's packaging this pair came from, for display.
    pub origin: &'static str,
}

/// A firmware pair as plain values: its files are paths on the host.
pub struct PairView {
    pub code: Seq<u8>,
    pub vars: Seq<u8>,
    pub secure_boot: bool,
    pub flash_size_mb: u32,
    pub origin: Seq<char>,
}

impl FirmwarePair {
    pub open spec fn view(&self) -> PairView {
        PairView {
            code: self.code@,
            vars: self.vars_template@,
            secure_boot: self.secure_boot,
            flash_size_mb: self.flash_size_mb,
            origin: self.origin@,
        }
    }
}

#[derive(Debug, Clone)]
pub struct Firmware {
    /// Every pair found, in preference order.
    pub found: Vec<FirmwarePair>,
}

pub open spec fn pair_views(v: Seq<FirmwarePair>) -> Seq<PairView> {
    v.map_values(|p: FirmwarePair| p.view())
}

/// Whether both files of a candidate are among the paths that exist.
pub open spec fn present(c: CandidateRow, existing: Seq<Seq<char>>) -> bool {
    existing.contains(c.code) && existing.contains(c.vars)
}

/// The candidates whose two files both exist, in table order.
pub open spec fn usable(rows: Seq<CandidateRow>, existing: Seq<Seq<char>>) -> Seq<CandidateRow>
    decreases rows.len(),
{
    if rows.len() == 0 {
        seq![]
    } else {
        let before = usable(rows.drop_last(), existing);
        if present(rows.last(), existing) {
            before.push(rows.last())
        } else {
            before
        }
    }
}

/// A candidate as found on a sysroot: its two paths rebased onto the root.
pub open spec fn rebased(root: Seq<u8>, c: CandidateRow) -> PairView {
    PairView {
        code: join(root, bytes(strip_leading_slashes(c.code))),
        vars: join(root, bytes(strip_leading_slashes(c.vars))),
        secure_boot: c.secure_boot,
        flash_size_mb: c.flash_size_mb,
        origin: c.origin,
    }
}

pub open spec fn rebase_all(root: Seq<u8>, rows: Seq<CandidateRow>) -> Seq<PairView> {
    rows.map_values(|c: CandidateRow| rebased(root, c))
}

fn contains_path(existing: &Vec<String>, path: &str) -> (b: bool)
    ensures
        b == string_views(existing@).contains(path@),
{
    let target = owned(path);
    let mut i: usize = 0;
    while i < existing.len()
        invariant
            0 <= i <= existing@.len(),
            target@ == path@,
            forall|j: int| 0 <= j < i ==> existing@[j]@ != path@,
        decreases existing@.len() - i,
    {
        if existing[i] == target {
            assert(string_views(existing@)[i as int] == path@);
            return true;
        }
        i += 1;
    }
    proof {
        if string_views(existing@).contains(path@) {
            let j = choose|j: int|
                0 <= j < string_views(existing@).len() && string_views(existing@)[j] == path@;
            assert(existing@[j]@ == path@);
        }
    }
    false
}

pub const NO_SECURE_BOOT_REMEDY: &'static str =
    "this firmware cannot do Secure Boot, which Windows 11 requires; Windows 10 guests are unaffected. Installing the full OVMF package usually provides a `secboot` variant alongside it";

/// What the report says of the pair in use.
pub open spec fn pair_detail(p: PairView) -> Seq<char> {
    decimal(p.flash_size_mb as nat) + " MB "@ + (if p.secure_boot {
        "Secure Boot capable"@
    } else {
        "non Secure Boot"@
    }) + " pair from "@ + p.origin + " at "@ + utf8_lossy(p.code)
}

impl Firmware {
    /// The firmware found on `root`, given which of the table's canonical
    /// absolute paths exist there: every candidate whose code image and
    /// variable template both exist, in preference order, with its paths
    /// rebased onto the root.
    pub fn detect_in(root: &Sysroot, existing: &Vec<String>) -> (f: Firmware)
        ensures
            pair_views(f.found@) == rebase_all(
                root.root_spec(),
                usable(candidate_table(), string_views(existing@)),
            ),
    {
        let table = candidates();
        let ghost ex = string_views(existing@);
        let mut found: Vec<FirmwarePair> = Vec::new();
        let mut i: usize = 0;
        while i < table.len()
            invariant
                0 <= i <= table@.len(),
                candidate_views(table@) == candidate_table(),
                ex == string_views(existing@),
                pair_views(found@) == rebase_all(
                    root.root_spec(),
                    usable(candidate_table().take(i as int), ex),
                ),
            decreases table@.len() - i,
        {
            let c = &table[i];
            let ghost row = candidate_table()[i as int];
            assert(c.view() == row);
            let ghost t = candidate_table().take(i + 1);
            assert(t.drop_last() =~= candidate_table().take(i as int));
            assert(t.last() == row);
            if contains_path(existing, c.code) && contains_path(existing, c.vars) {
                let pair = FirmwarePair {
                    code: root.resolve(c.code),
                    vars_template: root.resolve(c.vars),
                    secure_boot: c.secure_boot,
                    flash_size_mb: c.flash_size_mb,
                    origin: c.origin,
                };
                let ghost before = found@;
                found.push(pair);
                proof {
                    assert(pair_views(found@) =~= pair_views(before).push(pair.view()));
                    assert(rebase_all(root.root_spec(), usable(t, ex)) =~= rebase_all(
                        root.root_spec(),
                        usable(candidate_table().take(i as int), ex),
                    ).push(rebased(root.root_spec(), row)));
                }
            } else {
                assert(usable(t, ex) == usable(candidate_table().take(i as int), ex));
            }
            i += 1;
        }
        assert(candidate_table().take(table@.len() as int) =~= candidate_table());
        Firmware { found }
    }

    /// The pair the library uses: the most preferred one present.
    pub fn best(&self) -> (p: Option<&FirmwarePair>)
        ensures
            match p {
                Some(p) => self.found@.len() > 0 && *p == self.found@[0],
                None => self.found@.len() == 0,
            },
    {
        if self.found.len() > 0 {
            Some(&self.found[0])
        } else {
            None
        }
    }

    pub fn secure_boot_capable(&self) -> (b: bool)
        ensures
            b == exists|i: int| 0 <= i < self.found@.len() && #[trigger] self.found@[i].secure_boot,
    {
        let mut i: usize = 0;
        while i < self.found.len()
            invariant
                0 <= i <= self.found@.len(),
                forall|j: int| 0 <= j < i ==> !(#[trigger] self.found@[j]).secure_boot,
            decreases self.found@.len() - i,
        {
            if self.found[i].secure_boot {
                return true;
            }
            i += 1;
        }
        false
    }

    pub open spec fn requirement_spec(&self, pm: PackageManager) -> RequirementView {
        if self.found@.len() == 0 {
            RequirementView {
                id: "firmware.ovmf"@,
                title: "UEFI firmware (OVMF)"@,
                status: Status::Missing,
                detail: "no OVMF firmware pair found in any known location"@,
                remedy: Some(install_hint_spec(pm, Package::Ovmf)),
            }
        } else {
            let best = self.found@[0].view();
            if best.secure_boot {
                RequirementView {
                    id: "firmware.ovmf"@,
                    title: "UEFI firmware (OVMF)"@,
                    status: Status::Good,
                    detail: pair_detail(best),
                    remedy: None,
                }
            } else {
                RequirementView {
                    id: "firmware.ovmf"@,
                    title: "UEFI firmware (OVMF)"@,
                    status: Status::Warn,
                    detail: pair_detail(best),
                    remedy: Some(NO_SECURE_BOOT_REMEDY@),
                }
            }
        }
    }

    pub fn requirement(&self, pm: PackageManager) -> (r: Requirement)
        ensures
            r@ == self.requirement_spec(pm),
    {
        let best = match self.best() {
            Some(b) => b,
            None => {
                return Requirement::new(
                    "firmware.ovmf",
                    "UEFI firmware (OVMF)",
                    Status::Missing,
                    owned("no OVMF firmware pair found in any known location"),
                ).with_remedy(pm.install_hint(Package::Ovmf));
            },
        };
        let mut detail = crate::text::decimal_string(best.flash_size_mb as u64);
        push_str(&mut detail, " MB ");
        if best.secure_boot {
            push_str(&mut detail, "Secure Boot capable");
        } else {
            push_str(&mut detail, "non Secure Boot");
        }
        push_str(&mut detail, " pair from ");
        push_str(&mut detail, best.origin);
        push_str(&mut detail, " at ");
        push_str(&mut detail, crate::text::decode_lossy(best.code.as_slice()).as_str());
        if best.secure_boot {
            Requirement::new("firmware.ovmf", "UEFI firmware (OVMF)", Status::Good, detail)
        } else {
            Requirement::new("firmware.ovmf", "UEFI firmware (OVMF)", Status::Warn, detail).with_remedy(
                owned(NO_SECURE_BOOT_REMEDY),
            )
        }
    }
}

/// Two firmware pairs from the same packaging: the same origin and the same
/// flash size.
pub open spec fn same_packaging(a: CandidateRow, b: CandidateRow) -> bool {
    a.origin == b.origin && a.flash_size_mb == b.flash_size_mb
}

/// No plain pair comes before a Secure Boot capable pair of the same
/// packaging.
pub open spec fn secure_boot_first(rows: Seq<CandidateRow>) -> bool {
    forall|i: int, j: int|
        0 <= i < j < rows.len() && same_packaging(rows[i], rows[j]) && (#[trigger] rows[j]).secure_boot
            ==> (#[trigger] rows[i]).secure_boot
}

/// Every pair the search keeps is a row of the table it searched.
proof fn lemma_usable_rows_come_from_the_table(rows: Seq<CandidateRow>, existing: Seq<Seq<char>>)
    ensures
        forall|i: int|
            0 <= i < usable(rows, existing).len() ==> exists|k: int|
                0 <= k < rows.len() && #[trigger] usable(rows, existing)[i] == rows[k],
    decreases rows.len(),
{
    if rows.len() > 0 {
        let init = rows.drop_last();
        lemma_usable_rows_come_from_the_table(init, existing);
        let before = usable(init, existing);
        let u = usable(rows, existing);
        assert forall|i: int| 0 <= i < u.len() implies exists|k: int|
            0 <= k < rows.len() && #[trigger] u[i] == rows[k] by {
            if i < before.len() {
                assert(u[i] == before[i]);
                let k = choose|k: int| 0 <= k < init.len() && before[i] == init[k];
                assert(rows[k] == init[k]);
            } else {
                assert(u[i] == rows[rows.len() - 1]);
            }
        }
    }
}

/// Keeping only the pairs whose files exist keeps Secure Boot first.
proof fn lemma_usable_keeps_secure_boot_first(rows: Seq<CandidateRow>, existing: Seq<Seq<char>>)
    requires
        secure_boot_first(rows),
    ensures
        secure_boot_first(usable(rows, existing)),
    decreases rows.len(),
{
    if rows.len() > 0 {
        let init = rows.drop_last();
        assert forall|i: int, j: int|
            0 <= i < j < init.len() && same_packaging(init[i], init[j]) && (#[trigger] init[j]).secure_boot
                implies (#[trigger] init[i]).secure_boot by {
            assert(init[i] == rows[i] && init[j] == rows[j]);
        }
        lemma_usable_keeps_secure_boot_first(init, existing);
        lemma_usable_rows_come_from_the_table(init, existing);
        let before = usable(init, existing);
        let u = usable(rows, existing);
        let last = rows[rows.len() - 1];
        assert forall|i: int, j: int|
            0 <= i < j < u.len() && same_packaging(u[i], u[j]) && (#[trigger] u[j]).secure_boot
                implies (#[trigger] u[i]).secure_boot by {
            assert(u[i] == before[i]);
            if j < before.len() {
                assert(u[j] == before[j]);
            } else {
                assert(u[j] == last);
                let k = choose|k: int| 0 <= k < init.len() && before[i] == init[k];
                assert(rows[k] == init[k]);
                assert(rows[k] == u[i]);
            }
        }
    }
}

/// Within one packaging the table lists the Secure Boot pair before the
/// plain one.
pub proof fn lemma_table_prefers_secure_boot()
    ensures
        secure_boot_first(candidate_table()),
{
    reveal_strlit("Arch (edk2-ovmf)");
    reveal_strlit("Debian/Ubuntu (ovmf)");
    reveal_strlit("Fedora/RHEL (edk2-ovmf)");
    reveal_strlit("openSUSE (qemu-ovmf-x86_64)");
    reveal_strlit("Arch (legacy edk2-ovmf)");
    reveal_strlit("Debian/Ubuntu (legacy ovmf)");
    let t = candidate_table();
    assert(t[1].origin[0] != t[2].origin[0]);
    assert(t[1].origin[0] != t[4].origin[0]);
    assert(t[1].origin[0] != t[6].origin[0]);
    assert(t[3].origin[0] != t[4].origin[0]);
    assert(t[3].origin[0] != t[6].origin[0]);
    assert(t[5].origin[0] != t[6].origin[0]);
}

/// Of the pairs found on a host (what `Firmware::detect_in` returns, in
/// order), no plain pair comes before a Secure Boot capable pair of the same
/// origin and flash size. So when both of a distribution's pairs are found,
/// its Secure Boot pair is preferred, and `best`, the first pair found, is
/// Secure Boot capable whenever a Secure Boot pair of its packaging was
/// found too. Rebasing onto the root changes neither the order nor what a
/// pair can do.
pub proof fn lemma_found_pairs_prefer_secure_boot(root: Seq<u8>, existing: Seq<Seq<char>>)
    ensures
        secure_boot_first(usable(candidate_table(), existing)),
        forall|i: int, j: int|
            0 <= i < j < rebase_all(root, usable(candidate_table(), existing)).len()
                && (#[trigger] rebase_all(root, usable(candidate_table(), existing))[i]).origin
                == rebase_all(root, usable(candidate_table(), existing))[j].origin
                && rebase_all(root, usable(candidate_table(), existing))[i].flash_size_mb
                == rebase_all(root, usable(candidate_table(), existing))[j].flash_size_mb
                && (#[trigger] rebase_all(root, usable(candidate_table(), existing))[j]).secure_boot
                ==> rebase_all(root, usable(candidate_table(), existing))[i].secure_boot,
{
    lemma_table_prefers_secure_boot();
    lemma_usable_keeps_secure_boot_first(candidate_table(), existing);
    let u = usable(candidate_table(), existing);
    let r = rebase_all(root, u);
    assert forall|i: int, j: int|
        0 <= i < j < r.len() && (#[trigger] r[i]).origin == r[j].origin && r[i].flash_size_mb
            == r[j].flash_size_mb && (#[trigger] r[j]).secure_boot implies r[i].secure_boot by {
        assert(r[i] == rebased(root, u[i]));
        assert(r[j] == rebased(root, u[j]));
        assert(same_packaging(u[i], u[j]));
    }
}

} // verus!
