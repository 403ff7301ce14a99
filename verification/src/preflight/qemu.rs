//! The QEMU binaries the library drives, and what their versions mean.
//!
//! Two binaries are needed: `qemu-system-x86_64` to run the guest and
//! `qemu-img` to create virtual disks. Finding a name on `PATH` is not enough
//! — unrelated SDKs ship their own ancient `qemu-img` and can shadow the
//! system install — so every binary found is version-checked and reported by
//! the path it resolved to.
use vstd::prelude::*;

use super::distro::{install_hint_spec, Package, PackageManager};
use super::{Requirement, RequirementView, Status};
use crate::text::{
    all_digits, bytes_from, chars_of, decimal, decode_lossy, find, find_in, is_digit, is_ws,
    lemma_decimal_reads_back, lemma_find, lemma_find_at, lemma_parse_u32_decimal, lemma_words_first,
    lemma_words_one, lines, lines_of, owned, parse_u32, parse_u32_range, push_char, push_decimal,
    push_str, stops, strip_cr, utf8_lossy, views, words, words_of, Stop,
};

verus! {

broadcast use vstd::string::group_string_axioms;

pub const QEMU_SYSTEM_BINARY: &'static str = "qemu-system-x86_64";

pub const QEMU_IMG_BINARY: &'static str = "qemu-img";

#[derive(Debug, Clone, Copy, PartialEq, Eq, PartialOrd, Ord, Structural)]
pub struct Version {
    pub major: u32,
    pub minor: u32,
    pub patch: u32,
}

/// Oldest QEMU that supports the machine types, UEFI pflash layout and device
/// models the command lines use.
pub open spec fn min_version() -> Version {
    Version { major: 6, minor: 0, patch: 0 }
}

pub fn min_qemu_version() -> (v: Version)
    ensures
        v == min_version(),
{
    Version { major: 6, minor: 0, patch: 0 }
}

/// Versions compare numerically, field by field: major, then minor, then
/// patch.
pub open spec fn version_ge(a: Version, b: Version) -> bool {
    ||| a.major > b.major
    ||| (a.major == b.major && a.minor > b.minor)
    ||| (a.major == b.major && a.minor == b.minor && a.patch >= b.patch)
}

/// `major.minor.patch`.
pub open spec fn version_text(v: Version) -> Seq<char> {
    decimal(v.major as nat) + seq!['.'] + decimal(v.minor as nat) + seq!['.'] + decimal(
        v.patch as nat,
    )
}

impl Version {
    /// Whether this version is at least `other`.
    pub fn at_least(&self, other: &Version) -> (b: bool)
        ensures
            b == version_ge(*self, *other),
    {
        self.major > other.major || (self.major == other.major && self.minor > other.minor) || (
        self.major == other.major && self.minor == other.minor && self.patch >= other.patch)
    }

    /// The version as `Display` writes it: `major.minor.patch`.
    pub fn to_text(&self) -> (s: String)
        ensures
            s@ == version_text(*self),
    {
        let mut s = crate::text::decimal_string(self.major as u64);
        push_char(&mut s, '.');
        push_decimal(&mut s, self.minor as u64);
        push_char(&mut s, '.');
        push_decimal(&mut s, self.patch as u64);
        s
    }
}

/// A QEMU binary located on `PATH`.
#[derive(Debug, Clone)]
pub struct QemuBinary {
    /// Where the binary was found. Reports show it decoded as UTF-8, lossily.
    pub path: Vec<u8>,
    /// `None` when `--version` output could not be parsed.
    pub version: Option<Version>,
}

#[derive(Debug, Clone)]
pub struct Qemu {
    pub system: Option<QemuBinary>,
    pub img: Option<QemuBinary>,
}

pub open spec fn binary_requirement_spec(
    id: Seq<char>,
    title: Seq<char>,
    name: Seq<char>,
    binary: Option<QemuBinary>,
    pm: PackageManager,
) -> RequirementView {
    match binary {
        None => RequirementView {
            id,
            title,
            status: Status::Missing,
            detail: seq!['`'] + name + "` was not found on PATH"@,
            remedy: Some(install_hint_spec(pm, Package::Qemu)),
        },
        Some(b) => match b.version {
            Some(v) => if version_ge(v, min_version()) {
                RequirementView {
                    id,
                    title,
                    status: Status::Good,
                    detail: version_text(v) + " at "@ + utf8_lossy(b.path@),
                    remedy: None,
                }
            } else {
                RequirementView {
                    id,
                    title,
                    status: Status::Warn,
                    detail: version_text(v) + " at "@ + utf8_lossy(b.path@) + " is older than the required "@
                        + version_text(min_version()),
                    remedy: Some(
                        "another `"@ + name + SHADOW_REMEDY_MIDDLE@ + name + SHADOW_REMEDY_END@
                            + install_hint_spec(pm, Package::Qemu),
                    ),
                }
            },
            None => RequirementView {
                id,
                title,
                status: Status::Warn,
                detail: "found at "@ + utf8_lossy(b.path@) + " but its version could not be determined"@,
                remedy: Some("check that `"@ + utf8_lossy(b.path@) + " --version` runs correctly"@),
            },
        },
    }
}

pub const SHADOW_REMEDY_MIDDLE: &'static str =
    "` earlier in PATH may be shadowing your system install (SDKs and toolchains often bundle their own); check `which -a ";

pub const SHADOW_REMEDY_END: &'static str = "`, then install or prefer a current QEMU: ";

impl QemuBinary {
    /// A binary found at `path`, with the version its `--version` printed on
    /// standard output (`None` when it could not be run). Output that names
    /// no version leaves the version unknown.
    pub fn probe(path: &[u8], version_stdout: Option<&[u8]>) -> (b: QemuBinary)
        ensures
            b.path@ == path@,
            b.version == match version_stdout {
                Some(out) => version_of(crate::text::utf8_lossy(out@)),
                None => None,
            },
    {
        let version = match version_stdout {
            Some(out) => {
                let text = crate::text::decode_lossy(out);
                parse_version(text.as_str())
            },
            None => None,
        };
        QemuBinary { path: bytes_from(path), version }
    }
}

impl Qemu {
    pub fn system_requirement(&self, pm: PackageManager) -> (r: Requirement)
        ensures
            r@ == binary_requirement_spec(
                "qemu.system"@,
                "QEMU system emulator"@,
                QEMU_SYSTEM_BINARY@,
                self.system,
                pm,
            ),
    {
        Self::binary_requirement(
            "qemu.system",
            "QEMU system emulator",
            QEMU_SYSTEM_BINARY,
            &self.system,
            pm,
        )
    }

    pub fn img_requirement(&self, pm: PackageManager) -> (r: Requirement)
        ensures
            r@ == binary_requirement_spec(
                "qemu.img"@,
                "QEMU disk image tool"@,
                QEMU_IMG_BINARY@,
                self.img,
                pm,
            ),
    {
        Self::binary_requirement(
            "qemu.img",
            "QEMU disk image tool",
            QEMU_IMG_BINARY,
            &self.img,
            pm,
        )
    }

    fn binary_requirement(
        id: &'static str,
        title: &'static str,
        name: &'static str,
        binary: &Option<QemuBinary>,
        pm: PackageManager,
    ) -> (r: Requirement)
        ensures
            r@ == binary_requirement_spec(id@, title@, name@, *binary, pm),
    {
        let binary = match binary {
            Some(b) => b,
            None => {
                let mut detail = owned("`");
                push_str(&mut detail, name);
                push_str(&mut detail, "` was not found on PATH");
                assert(detail@ =~= seq!['`'] + name@ + "` was not found on PATH"@) by {
                    reveal_strlit("`");
                }
                return Requirement::new(id, title, Status::Missing, detail).with_remedy(
                    pm.install_hint(Package::Qemu),
                );
            },
        };
        let shown_text = decode_lossy(binary.path.as_slice());
        let shown = shown_text.as_str();
        match binary.version {
            Some(version) => {
                let mut detail = version.to_text();
                push_str(&mut detail, " at ");
                push_str(&mut detail, shown);
                let min = min_qemu_version();
                if version.at_least(&min) {
                    Requirement::new(id, title, Status::Good, detail)
                } else {
                    push_str(&mut detail, " is older than the required ");
                    let min_text = min.to_text();
                    push_str(&mut detail, min_text.as_str());
                    let mut remedy = owned("another `");
                    push_str(&mut remedy, name);
                    push_str(&mut remedy, SHADOW_REMEDY_MIDDLE);
                    push_str(&mut remedy, name);
                    push_str(&mut remedy, SHADOW_REMEDY_END);
                    let hint = pm.install_hint(Package::Qemu);
                    push_str(&mut remedy, hint.as_str());
                    Requirement::new(id, title, Status::Warn, detail).with_remedy(remedy)
                }
            },
            None => {
                let mut detail = owned("found at ");
                push_str(&mut detail, shown);
                push_str(&mut detail, " but its version could not be determined");
                let mut remedy = owned("check that `");
                push_str(&mut remedy, shown);
                push_str(&mut remedy, " --version` runs correctly");
                Requirement::new(id, title, Status::Warn, detail).with_remedy(remedy)
            },
        }
    }
}

/// The version a single token of `--version` output spells: its leading run
/// of digits and dots must hold a `.`, and its first part must be a number;
/// a missing or unreadable minor or patch part counts as zero.
pub open spec fn version_from_token(t: Seq<char>) -> Option<Version> {
    let n = t.take(find(t, Stop::NotNumeric));
    let k1 = find(n, Stop::At('.'));
    if k1 >= n.len() {
        None
    } else {
        match parse_u32(n.take(k1)) {
            None => None,
            Some(major) => {
                let r1 = n.skip(k1 + 1);
                let k2 = find(r1, Stop::At('.'));
                let minor = match parse_u32(r1.take(k2)) {
                    Some(m) => m,
                    None => 0,
                };
                let patch = if k2 < r1.len() {
                    let r2 = r1.skip(k2 + 1);
                    match parse_u32(r2.take(find(r2, Stop::At('.')))) {
                        Some(p) => p,
                        None => 0,
                    }
                } else {
                    0
                };
                Some(Version { major, minor, patch })
            },
        }
    }
}

/// The first token that spells a version.
pub open spec fn first_version(tokens: Seq<Seq<char>>) -> Option<Version>
    decreases tokens.len(),
{
    if tokens.len() == 0 {
        None
    } else {
        match version_from_token(tokens[0]) {
            Some(v) => Some(v),
            None => first_version(tokens.drop_first()),
        }
    }
}

/// What `parse_version` finds: the first token of the first line that spells
/// a version.
pub open spec fn version_of(text: Seq<char>) -> Option<Version> {
    let ls = lines(text);
    if ls.len() == 0 {
        None
    } else {
        first_version(words(ls[0]))
    }
}

fn version_from_range(v: &Vec<char>, lo: usize, hi: usize) -> (r: Option<Version>)
    requires
        lo <= hi <= v@.len(),
    ensures
        r == version_from_token(v@.subrange(lo as int, hi as int)),
{
    let ghost t = v@.subrange(lo as int, hi as int);
    let e = find_in(v, lo, hi, &Stop::NotNumeric);
    let ghost n = t.take(e - lo);
    assert(n =~= v@.subrange(lo as int, e as int));
    let k1 = find_in(v, lo, e, &Stop::At('.'));
    if k1 >= e {
        return None;
    }
    assert(n.take(k1 - lo) =~= v@.subrange(lo as int, k1 as int));
    let major = match parse_u32_range(v, lo, k1) {
        Some(m) => m,
        None => {
            return None;
        },
    };
    let ghost r1 = n.skip(k1 - lo + 1);
    assert(r1 =~= v@.subrange(k1 + 1, e as int));
    let k2 = find_in(v, k1 + 1, e, &Stop::At('.'));
    assert(r1.take(k2 - k1 - 1) =~= v@.subrange(k1 + 1, k2 as int));
    let minor = match parse_u32_range(v, k1 + 1, k2) {
        Some(m) => m,
        None => 0,
    };
    let patch = if k2 < e {
        let ghost r2 = r1.skip(k2 - k1);
        assert(r2 =~= v@.subrange(k2 + 1, e as int));
        let k3 = find_in(v, k2 + 1, e, &Stop::At('.'));
        assert(r2.take(k3 - k2 - 1) =~= v@.subrange(k2 + 1, k3 as int));
        match parse_u32_range(v, k2 + 1, k3) {
            Some(p) => p,
            None => 0,
        }
    } else {
        0
    };
    Some(Version { major, minor, patch })
}

/// Extract a version from `--version` output.
///
/// Handles both `QEMU emulator version 9.1.0` and the noisier
/// `qemu-img version 2.12.0(v2.12.0-19097-g85fa07f04ef)`.
pub fn parse_version(text: &str) -> (r: Option<Version>)
    ensures
        r == version_of(text@),
{
    let chars = chars_of(text);
    let ls = lines_of(&chars);
    if ls.len() == 0 {
        return None;
    }
    let line = &ls[0];
    assert(views(ls@)[0] == ls@[0]@);
    assert(line@ == lines(text@)[0]);
    let n = line.len();
    assert(line@.subrange(0, n as int) =~= line@);
    let ws = words_of(line, 0, n);
    let ghost all = words(line@);
    assert(all.skip(0) =~= all);
    let mut i: usize = 0;
    while i < ws.len()
        invariant
            n == line@.len(),
            0 <= i <= ws@.len(),
            ws@.len() == all.len(),
            all == words(line@),
            forall|k: int|
                0 <= k < ws@.len() ==> {
                    &&& 0 <= (#[trigger] ws@[k]).0 <= ws@[k].1 <= n
                    &&& line@.subrange(ws@[k].0 as int, ws@[k].1 as int) == all[k]
                },
            first_version(all) == first_version(all.skip(i as int)),
            version_of(text@) == first_version(all),
        decreases ws@.len() - i,
    {
        proof {
            let rest = all.skip(i as int);
            assert(rest[0] == all[i as int]);
            assert(rest.drop_first() =~= all.skip(i + 1));
        }
        let (a, b) = ws[i];
        let found = version_from_range(line, a, b);
        if found.is_some() {
            return found;
        }
        i += 1;
    }
    None
}

/// No digit of a number is a `.`, and no digit is whitespace.
proof fn lemma_digits_are_plain(s: Seq<char>)
    requires
        all_digits(s),
    ensures
        forall|i: int| 0 <= i < s.len() ==> #[trigger] s[i] != '.' && !is_ws(s[i]) && is_digit(s[i]),
{
    assert forall|i: int| 0 <= i < s.len() implies #[trigger] s[i] != '.' && !is_ws(s[i]) && is_digit(
        s[i],
    ) by {
        assert(is_digit(s[i]));
    }
}

/// A token that is three numbers joined by `.` reads as the version with
/// exactly those numbers: the major part is the whole number before the
/// first `.`, the minor the whole number after it, the patch the whole
/// number after the second.
#[verifier::rlimit(50)]
#[verifier::spinoff_prover]
pub proof fn lemma_version_token_reads_all_three_numbers(a: u32, b: u32, c: u32)
    ensures
        version_from_token(
            decimal(a as nat) + seq!['.'] + decimal(b as nat) + seq!['.'] + decimal(c as nat),
        ) == Some(Version { major: a, minor: b, patch: c }),
{
    let da = decimal(a as nat);
    let db = decimal(b as nat);
    let dc = decimal(c as nat);
    lemma_decimal_reads_back(a as nat);
    lemma_decimal_reads_back(b as nat);
    lemma_decimal_reads_back(c as nat);
    lemma_digits_are_plain(da);
    lemma_digits_are_plain(db);
    lemma_digits_are_plain(dc);
    lemma_parse_u32_decimal(a);
    lemma_parse_u32_decimal(b);
    lemma_parse_u32_decimal(c);
    let t = da + seq!['.'] + db + seq!['.'] + dc;
    let (la, lb, lc) = (da.len() as int, db.len() as int, dc.len() as int);
    assert(t.len() == la + lb + lc + 2);
    assert forall|j: int| 0 <= j < t.len() implies !stops(#[trigger] t[j], Stop::NotNumeric) by {
        if j < la {
            assert(t[j] == da[j]);
        } else if j == la {
        } else if j < la + 1 + lb {
            assert(t[j] == db[j - la - 1]);
        } else if j == la + 1 + lb {
        } else {
            assert(t[j] == dc[j - la - lb - 2]);
        }
    }
    lemma_find_at(t, Stop::NotNumeric, t.len() as int);
    let n = t.take(t.len() as int);
    assert(n =~= t);
    assert forall|j: int| 0 <= j < la implies !stops(#[trigger] n[j], Stop::At('.')) by {
        assert(n[j] == da[j]);
    }
    assert(n[la] == '.');
    lemma_find_at(n, Stop::At('.'), la);
    assert(n.take(la) =~= da);
    let r1 = n.skip(la + 1);
    assert(r1 =~= db + seq!['.'] + dc);
    assert forall|j: int| 0 <= j < lb implies !stops(#[trigger] r1[j], Stop::At('.')) by {
        assert(r1[j] == db[j]);
    }
    assert(r1[lb] == '.');
    lemma_find_at(r1, Stop::At('.'), lb);
    assert(r1.take(lb) =~= db);
    let r2 = r1.skip(lb + 1);
    assert(r2 =~= dc);
    assert forall|j: int| 0 <= j < lc implies !stops(#[trigger] r2[j], Stop::At('.')) by {
        assert(r2[j] == dc[j]);
    }
    lemma_find_at(r2, Stop::At('.'), lc);
    assert(r2.take(lc) =~= dc);
}

/// A word that starts with a letter spells no version.
proof fn lemma_word_is_no_version(w: Seq<char>)
    requires
        w.len() > 0,
        !is_digit(w[0]),
        w[0] != '.',
    ensures
        version_from_token(w) == None::<Version>,
{
    lemma_find_at(w, Stop::NotNumeric, 0);
    assert(w.take(0) =~= Seq::<char>::empty());
    lemma_find(Seq::<char>::empty(), Stop::At('.'));
}

/// What QEMU prints for `--version`, `QEMU emulator version` and the three
/// numbers of its version, reads back as exactly that version, for every
/// version: in particular a two-digit major such as QEMU 10 is read whole.
#[verifier::rlimit(50)]
#[verifier::spinoff_prover]
pub proof fn lemma_reads_the_version_qemu_prints(a: u32, b: u32, c: u32)
    ensures
        version_of(
            "QEMU emulator version "@ + (decimal(a as nat) + seq!['.'] + decimal(b as nat) + seq![
                '.',
            ] + decimal(c as nat)) + "\n"@,
        ) == Some(Version { major: a, minor: b, patch: c }),
{
    reveal_strlit("QEMU emulator version ");
    reveal_strlit("\n");
    let t = decimal(a as nat) + seq!['.'] + decimal(b as nat) + seq!['.'] + decimal(c as nat);
    lemma_version_token_reads_all_three_numbers(a, b, c);
    lemma_decimal_reads_back(a as nat);
    lemma_decimal_reads_back(b as nat);
    lemma_decimal_reads_back(c as nat);
    let (da, db, dc) = (decimal(a as nat), decimal(b as nat), decimal(c as nat));
    lemma_digits_are_plain(da);
    lemma_digits_are_plain(db);
    lemma_digits_are_plain(dc);
    let (la, lb) = (da.len() as int, db.len() as int);
    assert forall|j: int| 0 <= j < t.len() implies !is_ws(#[trigger] t[j]) && t[j] != '\n' && t[j]
        != '\r' by {
        if j < la {
            assert(t[j] == da[j]);
        } else if j == la {
        } else if j < la + 1 + lb {
            assert(t[j] == db[j - la - 1]);
        } else if j == la + 1 + lb {
        } else {
            assert(t[j] == dc[j - la - lb - 2]);
        }
    }
    let w1 = seq!['Q', 'E', 'M', 'U'];
    let w2 = seq!['e', 'm', 'u', 'l', 'a', 't', 'o', 'r'];
    let w3 = seq!['v', 'e', 'r', 's', 'i', 'o', 'n'];
    let line = "QEMU emulator version "@ + t;
    assert(line =~= w1 + (seq![' '] + (w2 + (seq![' '] + (w3 + (seq![' '] + t))))));
    let text = line + "\n"@;
    assert forall|j: int| 0 <= j < line.len() implies !stops(#[trigger] text[j], Stop::At('\n')) by {
        assert(text[j] == line[j]);
        if j >= 22 {
            assert(line[j] == t[j - 22]);
        }
    }
    assert(text[line.len() as int] == '\n');
    lemma_find_at(text, Stop::At('\n'), line.len() as int);
    assert(text.take(line.len() as int) =~= line);
    assert(text.skip(line.len() as int + 1) =~= Seq::<char>::empty());
    assert(line.last() == t.last());
    assert(strip_cr(line) == line);
    assert(lines(Seq::<char>::empty()) =~= Seq::<Seq<char>>::empty());
    assert(lines(text) =~= seq![line]);
    lemma_words_one(t);
    lemma_words_first(w3, ' ', t);
    lemma_words_first(w2, ' ', w3 + (seq![' '] + t));
    lemma_words_first(w1, ' ', w2 + (seq![' '] + (w3 + (seq![' '] + t))));
    let ws = words(line);
    assert(ws =~= seq![w1, w2, w3, t]);
    lemma_word_is_no_version(w1);
    lemma_word_is_no_version(w2);
    lemma_word_is_no_version(w3);
    reveal_with_fuel(first_version, 5);
    assert(ws.drop_first() =~= seq![w2, w3, t]);
    assert(ws.drop_first().drop_first() =~= seq![w3, t]);
    assert(ws.drop_first().drop_first().drop_first() =~= seq![t]);
}

} // verus!
