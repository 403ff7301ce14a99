//! Distribution identification, used only to phrase install instructions.
//!
//! The library never runs a package manager itself; it tells the user the
//! exact command to run. Guessing wrong is harmless, so unknown distributions
//! fall back to naming the upstream project instead of a package.
use vstd::prelude::*;

use crate::text::{
    chars_of, find_in, lines, lines_of, owned, push_str, range_eq, split_once, string_of, trim,
    trim_range, views, words, words_of, Stop,
};

verus! {

broadcast use vstd::string::group_string_axioms;

/// The subset of `/etc/os-release` the library cares about.
#[derive(Debug, Clone)]
pub struct OsRelease {
    pub id: Option<String>,
    pub id_like: Vec<String>,
    pub pretty_name: Option<String>,
}

pub struct OsReleaseView {
    pub id: Option<Seq<char>>,
    pub id_like: Seq<Seq<char>>,
    pub pretty_name: Option<Seq<char>>,
}

pub open spec fn opt_view(o: Option<String>) -> Option<Seq<char>> {
    match o {
        Some(s) => Some(s@),
        None => None,
    }
}

/// Borrow an optional string as an optional string slice.
pub fn opt_as_str(o: &Option<String>) -> (r: Option<&str>)
    ensures
        crate::paths::opt_str(r) == opt_view(*o),
{
    match o {
        Some(s) => Some(s.as_str()),
        None => None,
    }
}

pub open spec fn string_views(v: Seq<String>) -> Seq<Seq<char>> {
    v.map_values(|s: String| s@)
}

impl View for OsRelease {
    type V = OsReleaseView;

    open spec fn view(&self) -> OsReleaseView {
        OsReleaseView {
            id: opt_view(self.id),
            id_like: string_views(self.id_like@),
            pretty_name: opt_view(self.pretty_name),
        }
    }
}

impl Default for OsRelease {
    fn default() -> (r: OsRelease)
        ensures
            r@ == (OsReleaseView { id: None, id_like: seq![], pretty_name: None }),
    {
        let r = OsRelease { id: None, id_like: Vec::new(), pretty_name: None };
        assert(r@.id_like =~= Seq::<Seq<char>>::empty());
        r
    }
}

/// The identifiers consulted in order: `ID`, then each of `ID_LIKE`.
pub open spec fn release_ids(os: OsReleaseView) -> Seq<Seq<char>> {
    match os.id {
        Some(id) => seq![id] + os.id_like,
        None => os.id_like,
    }
}

/// The package manager a single distribution identifier stands for.
pub open spec fn manager_of(id: Seq<char>) -> Option<PackageManager> {
    if id == "arch"@ || id == "archarm"@ || id == "manjaro"@ || id == "endeavouros"@ || id
        == "cachyos"@ {
        Some(PackageManager::Pacman)
    } else if id == "debian"@ || id == "ubuntu"@ || id == "linuxmint"@ || id == "pop"@ || id
        == "raspbian"@ {
        Some(PackageManager::Apt)
    } else if id == "fedora"@ || id == "rhel"@ || id == "centos"@ || id == "nobara"@ || id
        == "bazzite"@ {
        Some(PackageManager::Dnf)
    } else if id == "opensuse"@ || id == "opensuse-tumbleweed"@ || id == "opensuse-leap"@ || id
        == "sles"@ || id == "suse"@ {
        Some(PackageManager::Zypper)
    } else {
        None
    }
}

/// The first identifier that names a known distribution decides.
pub open spec fn first_manager(ids: Seq<Seq<char>>) -> PackageManager
    decreases ids.len(),
{
    if ids.len() == 0 {
        PackageManager::Unknown
    } else {
        match manager_of(ids[0]) {
            Some(pm) => pm,
            None => first_manager(ids.drop_first()),
        }
    }
}

fn is_one_of(s: &String, a: &str, b: &str, c: &str, d: &str, e: &str) -> (r: bool)
    ensures
        r == (s@ == a@ || s@ == b@ || s@ == c@ || s@ == d@ || s@ == e@),
{
    let v = chars_of(s.as_str());
    crate::text::vec_eq(&v, a) || crate::text::vec_eq(&v, b) || crate::text::vec_eq(&v, c)
        || crate::text::vec_eq(&v, d) || crate::text::vec_eq(&v, e)
}

fn manager_of_exec(id: &String) -> (r: Option<PackageManager>)
    ensures
        r == manager_of(id@),
{
    if is_one_of(id, "arch", "archarm", "manjaro", "endeavouros", "cachyos") {
        Some(PackageManager::Pacman)
    } else if is_one_of(id, "debian", "ubuntu", "linuxmint", "pop", "raspbian") {
        Some(PackageManager::Apt)
    } else if is_one_of(id, "fedora", "rhel", "centos", "nobara", "bazzite") {
        Some(PackageManager::Dnf)
    } else if is_one_of(id, "opensuse", "opensuse-tumbleweed", "opensuse-leap", "sles", "suse") {
        Some(PackageManager::Zypper)
    } else {
        None
    }
}

impl OsRelease {
    /// The distribution as `/etc/os-release` describes it; an unreadable
    /// file describes nothing.
    pub fn detect_in(os_release_text: Option<&str>) -> (os: OsRelease)
        ensures
            os@ == match os_release_text {
                Some(t) => os_release(t@),
                None => OsReleaseView { id: None, id_like: seq![], pretty_name: None },
            },
    {
        match os_release_text {
            Some(text) => parse_os_release(text),
            None => OsRelease::default(),
        }
    }

    /// Resolve to a package manager, consulting `ID_LIKE` so that derivatives
    /// (Manjaro, Linux Mint, Nobara, ...) inherit their parent's commands.
    pub fn package_manager(&self) -> (pm: PackageManager)
        ensures
            pm == first_manager(release_ids(self@)),
    {
        if let Some(id) = &self.id {
            if let Some(pm) = manager_of_exec(id) {
                return pm;
            }
        }
        let ghost ids = release_ids(self@);
        let ghost like = string_views(self.id_like@);
        proof {
            if self.id is Some {
                assert(ids.drop_first() =~= like);
            } else {
                assert(ids =~= like);
            }
            assert(like.skip(0) =~= like);
        }
        let mut i: usize = 0;
        while i < self.id_like.len()
            invariant
                0 <= i <= self.id_like@.len(),
                like == string_views(self.id_like@),
                first_manager(release_ids(self@)) == first_manager(like.skip(i as int)),
            decreases self.id_like@.len() - i,
        {
            proof {
                let rest = like.skip(i as int);
                assert(rest[0] == self.id_like@[i as int]@);
                assert(rest.drop_first() =~= like.skip(i + 1));
            }
            if let Some(pm) = manager_of_exec(&self.id_like[i]) {
                return pm;
            }
            i += 1;
        }
        PackageManager::Unknown
    }
}

/// Strip one pair of matching single or double quotes.
pub open spec fn unquote(s: Seq<char>) -> Seq<char> {
    if s.len() >= 2 && (s[0] == '"' || s[0] == '\'') && s.last() == s[0] {
        s.subrange(1, s.len() - 1)
    } else {
        s
    }
}

/// The effect of one line of `/etc/os-release`: blank lines and comments are
/// skipped, and `ID`, `ID_LIKE` and `PRETTY_NAME` take the last value given.
pub open spec fn os_release_line(st: OsReleaseView, line: Seq<char>) -> OsReleaseView {
    let t = trim(line);
    if t.len() == 0 || t[0] == '#' {
        st
    } else {
        match split_once(t, '=') {
            None => st,
            Some((k, v)) => {
                let key = trim(k);
                let value = unquote(trim(v));
                if key == "ID"@ {
                    OsReleaseView { id: Some(value), ..st }
                } else if key == "ID_LIKE"@ {
                    OsReleaseView { id_like: words(value), ..st }
                } else if key == "PRETTY_NAME"@ {
                    OsReleaseView { pretty_name: Some(value), ..st }
                } else {
                    st
                }
            },
        }
    }
}

pub open spec fn os_release_lines(ls: Seq<Seq<char>>) -> OsReleaseView
    decreases ls.len(),
{
    if ls.len() == 0 {
        OsReleaseView { id: None, id_like: seq![], pretty_name: None }
    } else {
        os_release_line(os_release_lines(ls.drop_last()), ls.last())
    }
}

/// What `parse_os_release` makes of a text.
pub open spec fn os_release(text: Seq<char>) -> OsReleaseView {
    os_release_lines(lines(text))
}

/// The bounds of `unquote` applied to `v[lo..hi]`.
fn unquote_range(v: &Vec<char>, lo: usize, hi: usize) -> (r: (usize, usize))
    requires
        lo <= hi <= v@.len(),
    ensures
        lo <= r.0 <= r.1 <= hi,
        v@.subrange(r.0 as int, r.1 as int) == unquote(v@.subrange(lo as int, hi as int)),
{
    let ghost s = v@.subrange(lo as int, hi as int);
    if hi - lo >= 2 && (v[lo] == '"' || v[lo] == '\'') && v[hi - 1] == v[lo] {
        assert(s[0] == v@[lo as int]);
        assert(s.last() == v@[hi - 1]);
        assert(s.subrange(1, s.len() - 1) =~= v@.subrange(lo + 1, hi - 1));
        (lo + 1, hi - 1)
    } else {
        proof {
            if s.len() >= 2 {
                assert(s[0] == v@[lo as int]);
                assert(s.last() == v@[hi - 1]);
            }
        }
        (lo, hi)
    }
}

/// The words of `v[lo..hi]` as owned strings.
fn word_strings(v: &Vec<char>, lo: usize, hi: usize) -> (r: Vec<String>)
    requires
        lo <= hi <= v@.len(),
    ensures
        string_views(r@) == words(v@.subrange(lo as int, hi as int)),
{
    let ws = words_of(v, lo, hi);
    let ghost all = words(v@.subrange(lo as int, hi as int));
    let mut r: Vec<String> = Vec::new();
    let mut i: usize = 0;
    while i < ws.len()
        invariant
            lo <= hi <= v@.len(),
            0 <= i <= ws@.len(),
            ws@.len() == all.len(),
            forall|k: int|
                0 <= k < ws@.len() ==> {
                    &&& lo <= (#[trigger] ws@[k]).0 <= ws@[k].1 <= hi
                    &&& v@.subrange(ws@[k].0 as int, ws@[k].1 as int) == all[k]
                },
            string_views(r@) == all.take(i as int),
        decreases ws@.len() - i,
    {
        let (a, b) = ws[i];
        let w = string_of(v, a, b);
        let ghost before = r@;
        r.push(w);
        proof {
            assert(string_views(r@) =~= string_views(before).push(w@));
            assert(all.take(i + 1) =~= all.take(i as int).push(all[i as int]));
        }
        i += 1;
    }
    assert(all.take(ws@.len() as int) =~= all);
    r
}

fn os_release_step(line: &Vec<char>, os: OsRelease) -> (r: OsRelease)
    ensures
        r@ == os_release_line(os@, line@),
{
    let n = line.len();
    assert(line@.subrange(0, n as int) =~= line@);
    let (ta, tb) = trim_range(line, 0, n);
    if ta == tb || line[ta] == '#' {
        proof {
            let t = line@.subrange(ta as int, tb as int);
            if ta < tb {
                assert(t[0] == line@[ta as int]);
            }
        }
        return os;
    }
    let ghost t = line@.subrange(ta as int, tb as int);
    assert(t[0] == line@[ta as int]);
    let k = find_in(line, ta, tb, &Stop::At('='));
    if k >= tb {
        return os;
    }
    let (ka, kb) = trim_range(line, ta, k);
    let (va0, vb0) = trim_range(line, k + 1, tb);
    let (va, vb) = unquote_range(line, va0, vb0);
    proof {
        assert(t.take(k - ta) =~= line@.subrange(ta as int, k as int));
        assert(t.skip(k - ta + 1) =~= line@.subrange(k + 1, tb as int));
    }
    if range_eq(line, ka, kb, "ID") {
        OsRelease { id: Some(string_of(line, va, vb)), ..os }
    } else if range_eq(line, ka, kb, "ID_LIKE") {
        OsRelease { id_like: word_strings(line, va, vb), ..os }
    } else if range_eq(line, ka, kb, "PRETTY_NAME") {
        OsRelease { pretty_name: Some(string_of(line, va, vb)), ..os }
    } else {
        os
    }
}

/// Parse the shell-like `KEY=value` format of `/etc/os-release`.
pub fn parse_os_release(text: &str) -> (os: OsRelease)
    ensures
        os@ == os_release(text@),
{
    let chars = chars_of(text);
    let ls = lines_of(&chars);
    let mut os = OsRelease::default();
    let mut i: usize = 0;
    while i < ls.len()
        invariant
            0 <= i <= ls@.len(),
            views(ls@) == lines(text@),
            os@ == os_release_lines(views(ls@).take(i as int)),
        decreases ls@.len() - i,
    {
        proof {
            assert(views(ls@)[i as int] == ls@[i as int]@);
            assert(views(ls@).take(i + 1).drop_last() =~= views(ls@).take(i as int));
            assert(views(ls@).take(i + 1).last() == ls@[i as int]@);
        }
        os = os_release_step(&ls[i], os);
        i += 1;
    }
    proof {
        assert(views(ls@).take(ls@.len() as int) =~= views(ls@));
    }
    os
}

/// A third-party component the library depends on.
#[derive(Debug, Clone, Copy, PartialEq, Eq, Structural)]
pub enum Package {
    Qemu,
    Ovmf,
    /// The TPM 2.0 emulator, without which Windows 11 setup refuses to run.
    Swtpm,
}

#[derive(Debug, Clone, Copy, PartialEq, Eq, Structural)]
pub enum PackageManager {
    Pacman,
    Apt,
    Dnf,
    Zypper,
    Unknown,
}

/// The package that provides `package` on a known distribution.
pub open spec fn package_name(pm: PackageManager, package: Package) -> Seq<char> {
    match (pm, package) {
        (PackageManager::Pacman, Package::Qemu) => "qemu-desktop"@,
        (PackageManager::Pacman, Package::Ovmf) => "edk2-ovmf"@,
        (PackageManager::Apt, Package::Qemu) => "qemu-system-x86"@,
        (PackageManager::Apt, Package::Ovmf) => "ovmf"@,
        (PackageManager::Dnf, Package::Qemu) => "qemu-system-x86"@,
        (PackageManager::Dnf, Package::Ovmf) => "edk2-ovmf"@,
        (PackageManager::Zypper, Package::Qemu) => "qemu-x86"@,
        (PackageManager::Zypper, Package::Ovmf) => "qemu-ovmf-x86_64"@,
        (_, Package::Swtpm) => "swtpm"@,
        _ => Seq::empty(),
    }
}

/// The exact text `install_hint` gives.
pub open spec fn install_hint_spec(pm: PackageManager, package: Package) -> Seq<char> {
    match pm {
        PackageManager::Pacman => "sudo pacman -S --needed "@ + package_name(pm, package),
        PackageManager::Apt => "sudo apt install "@ + package_name(pm, package),
        PackageManager::Dnf => "sudo dnf install "@ + package_name(pm, package),
        PackageManager::Zypper => "sudo zypper install "@ + package_name(pm, package),
        PackageManager::Unknown => match package {
            Package::Qemu => UNKNOWN_QEMU_HINT@,
            Package::Ovmf => UNKNOWN_OVMF_HINT@,
            Package::Swtpm => UNKNOWN_SWTPM_HINT@,
        },
    }
}

pub const UNKNOWN_QEMU_HINT: &'static str =
    "install QEMU (the `qemu-system-x86_64` binary) using your distribution's package manager";

pub const UNKNOWN_OVMF_HINT: &'static str =
    "install the OVMF/edk2 UEFI firmware package using your distribution's package manager";

pub const UNKNOWN_SWTPM_HINT: &'static str =
    "install the `swtpm` TPM emulator using your distribution's package manager";

impl PackageManager {
    /// The exact command the user should run to obtain `package`.
    pub fn install_hint(self, package: Package) -> (s: String)
        ensures
            s@ == install_hint_spec(self, package),
    {
        let name: &'static str = match (self, package) {
            (PackageManager::Pacman, Package::Qemu) => "qemu-desktop",
            (PackageManager::Pacman, Package::Ovmf) => "edk2-ovmf",
            (PackageManager::Pacman, Package::Swtpm) => "swtpm",
            (PackageManager::Apt, Package::Qemu) => "qemu-system-x86",
            (PackageManager::Apt, Package::Ovmf) => "ovmf",
            (PackageManager::Apt, Package::Swtpm) => "swtpm",
            (PackageManager::Dnf, Package::Qemu) => "qemu-system-x86",
            (PackageManager::Dnf, Package::Ovmf) => "edk2-ovmf",
            (PackageManager::Dnf, Package::Swtpm) => "swtpm",
            (PackageManager::Zypper, Package::Qemu) => "qemu-x86",
            (PackageManager::Zypper, Package::Ovmf) => "qemu-ovmf-x86_64",
            (PackageManager::Zypper, Package::Swtpm) => "swtpm",
            (PackageManager::Unknown, Package::Qemu) => {
                return owned(UNKNOWN_QEMU_HINT);
            },
            (PackageManager::Unknown, Package::Ovmf) => {
                return owned(UNKNOWN_OVMF_HINT);
            },
            (PackageManager::Unknown, Package::Swtpm) => {
                return owned(UNKNOWN_SWTPM_HINT);
            },
        };
        let mut s = match self {
            PackageManager::Pacman => owned("sudo pacman -S --needed "),
            PackageManager::Apt => owned("sudo apt install "),
            PackageManager::Dnf => owned("sudo dnf install "),
            PackageManager::Zypper => owned("sudo zypper install "),
            PackageManager::Unknown => owned(""),
        };
        push_str(&mut s, name);
        s
    }
}

/// The first identifier that names a known distribution decides, and none
/// naming one leaves the package manager unknown.
proof fn lemma_first_manager_is_the_first_known(ids: Seq<Seq<char>>)
    ensures
        forall|k: int|
            0 <= k < ids.len() && #[trigger] manager_of(ids[k]) is Some && (forall|j: int|
                0 <= j < k ==> manager_of(ids[j]) is None) ==> first_manager(ids) == manager_of(
                ids[k],
            )->0,
        (forall|j: int| 0 <= j < ids.len() ==> manager_of(#[trigger] ids[j]) is None)
            ==> first_manager(ids) == PackageManager::Unknown,
    decreases ids.len(),
{
    if ids.len() > 0 {
        let rest = ids.drop_first();
        lemma_first_manager_is_the_first_known(rest);
        assert forall|k: int|
            0 <= k < ids.len() && #[trigger] manager_of(ids[k]) is Some && (forall|j: int|
                0 <= j < k ==> manager_of(ids[j]) is None) implies first_manager(ids) == manager_of(
            ids[k],
        )->0 by {
            if k > 0 {
                assert(manager_of(ids[0]) is None);
                assert(rest[k - 1] == ids[k]);
                assert forall|j: int| 0 <= j < k - 1 implies manager_of(rest[j]) is None by {
                    assert(rest[j] == ids[j + 1]);
                }
            }
        }
        if forall|j: int| 0 <= j < ids.len() ==> manager_of(#[trigger] ids[j]) is None {
            assert(manager_of(ids[0]) is None);
            assert forall|j: int| 0 <= j < rest.len() implies manager_of(#[trigger] rest[j]) is None by {
                assert(rest[j] == ids[j + 1]);
            }
        }
    }
}

/// How `/etc/os-release` decides the package manager: `ID` decides when it
/// names a known distribution; otherwise the first word of `ID_LIKE` that
/// names one decides, so a derivative (Rocky with `ID_LIKE="rhel centos
/// fedora"`, say) inherits its parent's commands; when neither names one,
/// the package manager is unknown.
pub proof fn lemma_id_like_decides_for_derivatives(os: OsReleaseView)
    ensures
        (os.id matches Some(id) && manager_of(id) is Some) ==> first_manager(release_ids(os))
            == manager_of(os.id->0)->0,
        forall|k: int|
            0 <= k < os.id_like.len() && (os.id is None || manager_of(os.id->0) is None)
                && #[trigger] manager_of(os.id_like[k]) is Some && (forall|j: int|
                0 <= j < k ==> manager_of(os.id_like[j]) is None) ==> first_manager(release_ids(os))
                == manager_of(os.id_like[k])->0,
        ((os.id is None || manager_of(os.id->0) is None) && forall|j: int|
            0 <= j < os.id_like.len() ==> manager_of(#[trigger] os.id_like[j]) is None)
            ==> first_manager(release_ids(os)) == PackageManager::Unknown,
{
    let ids = release_ids(os);
    lemma_first_manager_is_the_first_known(ids);
    let off: int = if os.id is Some {
        1
    } else {
        0
    };
    assert(ids.len() == os.id_like.len() + off);
    assert forall|j: int| 0 <= j < os.id_like.len() implies ids[j + off] == os.id_like[j] by {}
    if os.id is Some {
        assert(ids[0] == os.id->0);
    }
    assert forall|k: int|
        0 <= k < os.id_like.len() && (os.id is None || manager_of(os.id->0) is None)
            && #[trigger] manager_of(os.id_like[k]) is Some && (forall|j: int|
            0 <= j < k ==> manager_of(os.id_like[j]) is None) implies first_manager(release_ids(os))
        == manager_of(os.id_like[k])->0 by {
        assert(ids[k + off] == os.id_like[k]);
        assert forall|j: int| 0 <= j < k + off implies manager_of(ids[j]) is None by {
            if j >= off {
                assert(ids[j] == os.id_like[j - off]);
            }
        }
    }
    if (os.id is None || manager_of(os.id->0) is None) && forall|j: int|
        0 <= j < os.id_like.len() ==> manager_of(#[trigger] os.id_like[j]) is None {
        assert forall|j: int| 0 <= j < ids.len() implies manager_of(#[trigger] ids[j]) is None by {
            if j >= off {
                assert(ids[j] == os.id_like[j - off]);
            }
        }
    }
}

} // verus!
