//! Where virtual machines live on disk.
//!
//! One directory per VM under the data directory, holding everything that
//! belongs to that guest:
//!
//! ```text
//! <data>/vms/win11/
//!     config.toml     the VmConfig, hand-editable
//!     disk.qcow2      the system disk
//!     OVMF_VARS.fd    this VM's private UEFI variable store
//!     tpm/            swtpm's state: the guest's TPM keys
//! ```
//!
//! The swtpm control socket goes under the runtime directory when there is
//! one, because unix socket paths are limited to 108 bytes, and beside the VM
//! otherwise.
//!
//! Paths are held as bytes, as the operating system holds them, so a path
//! that is not UTF-8 is kept exactly rather than mangled. They are joined the
//! way `Path::join` joins a relative component: with one `/` between the
//! parts unless the base is empty or already ends in one.
use vstd::prelude::*;

use crate::config::{valid_name, VmName};
use crate::text::{
    bytes, bytes_from, bytes_of, lemma_bytes_ascii, lemma_bytes_concat, owned, push_bytes, push_str,
};
use crate::Error;

verus! {

broadcast use vstd::string::group_string_axioms;

pub const CONFIG_FILE: &'static str = "config.toml";

pub const DISK_FILE: &'static str = "disk.qcow2";

pub const VARS_FILE: &'static str = "OVMF_VARS.fd";

pub const TPM_DIR: &'static str = "tpm";

pub const APP_DIR: &'static str = "daholyvm";

pub const VMS_DIR: &'static str = "vms";

pub const SOCKET_FILE: &'static str = "swtpm.sock";

pub const SOCKET_SUFFIX: &'static str = "-swtpm.sock";

/// `sun_path` is 108 bytes including its terminator on Linux.
pub const MAX_SOCKET_PATH: usize = 107;

/// The byte `/` separates path components.
pub const SLASH: u8 = 47;

/// `base.join(comp)` for a relative `comp`.
pub open spec fn join(base: Seq<u8>, comp: Seq<u8>) -> Seq<u8> {
    if base.len() == 0 {
        comp
    } else if base.last() == SLASH {
        base + comp
    } else {
        base + seq![SLASH] + comp
    }
}

/// Join a relative component onto a path.
pub fn join_path(base: &[u8], comp: &[u8]) -> (r: Vec<u8>)
    ensures
        r@ == join(base@, comp@),
{
    let mut r = bytes_from(base);
    let n = base.len();
    if n > 0 && base[n - 1] != SLASH {
        r.push(SLASH);
    }
    push_bytes(&mut r, comp);
    r
}

/// Join a relative component, spelled in ASCII, onto a path.
pub fn join_text(base: &[u8], comp: &str) -> (r: Vec<u8>)
    ensures
        r@ == join(base@, bytes(comp@)),
{
    let c = bytes_of(comp);
    join_path(base, c.as_slice())
}

pub open spec fn vms_dir_of(data: Seq<u8>) -> Seq<u8> {
    join(data, bytes(VMS_DIR@))
}

pub open spec fn vm_dir_of(data: Seq<u8>, name: Seq<char>) -> Seq<u8> {
    join(vms_dir_of(data), bytes(name))
}

/// Where the swtpm socket of the VM `name` goes.
pub open spec fn socket_of(data: Seq<u8>, runtime: Option<Seq<u8>>, name: Seq<char>) -> Seq<u8> {
    match runtime {
        Some(r) => join(r, bytes(name + SOCKET_SUFFIX@)),
        None => join(join(vm_dir_of(data, name), bytes(TPM_DIR@)), bytes(SOCKET_FILE@)),
    }
}

/// The directory the swtpm socket of the VM `name` goes in.
pub open spec fn socket_dir_of(data: Seq<u8>, runtime: Option<Seq<u8>>, name: Seq<char>) -> Seq<
    u8,
> {
    match runtime {
        Some(r) => r,
        None => join(vm_dir_of(data, name), bytes(TPM_DIR@)),
    }
}

/// An optional string slice as plain values.
pub open spec fn opt_str(o: Option<&str>) -> Option<Seq<char>> {
    match o {
        Some(s) => Some(s@),
        None => None,
    }
}

/// An optional byte slice as plain values.
pub open spec fn opt_slice(o: Option<&[u8]>) -> Option<Seq<u8>> {
    match o {
        Some(s) => Some(s@),
        None => None,
    }
}

/// An optional byte vector as plain values.
pub open spec fn opt_bytes(o: Option<Vec<u8>>) -> Option<Seq<u8>> {
    match o {
        Some(s) => Some(s@),
        None => None,
    }
}

/// Where the data directory is, from `XDG_DATA_HOME` and `HOME`.
pub open spec fn env_data_dir(xdg_data_home: Option<Seq<u8>>, home: Option<Seq<u8>>) -> Option<
    Seq<u8>,
> {
    match xdg_data_home {
        Some(d) if d.len() > 0 => Some(join(d, bytes(APP_DIR@))),
        _ => match home {
            Some(h) => Some(join(join(h, bytes(".local/share"@)), bytes(APP_DIR@))),
            None => None,
        },
    }
}

/// Where sockets go, from `XDG_RUNTIME_DIR`.
pub open spec fn env_runtime_dir(xdg_runtime_dir: Option<Seq<u8>>) -> Option<Seq<u8>> {
    match xdg_runtime_dir {
        Some(d) if d.len() > 0 => Some(join(d, bytes(APP_DIR@))),
        _ => None,
    }
}

/// The root of the library's storage.
#[derive(Debug, Clone)]
pub struct Paths {
    data: Vec<u8>,
    /// Where transient sockets go. `None` falls back to the VM's directory.
    runtime: Option<Vec<u8>>,
}

impl Paths {
    pub closed spec fn data_spec(&self) -> Seq<u8> {
        self.data@
    }

    pub closed spec fn runtime_spec(&self) -> Option<Seq<u8>> {
        opt_bytes(self.runtime)
    }

    /// Resolve from the values of `XDG_DATA_HOME`, `HOME` and
    /// `XDG_RUNTIME_DIR`. An unset or empty `XDG_DATA_HOME` falls back to
    /// `$HOME/.local/share`, as the XDG spec itself does; without either
    /// there is nowhere to keep virtual machines. Sockets go under
    /// `$XDG_RUNTIME_DIR` when it is set and non-empty.
    pub fn from_env(
        xdg_data_home: Option<&[u8]>,
        home: Option<&[u8]>,
        xdg_runtime_dir: Option<&[u8]>,
    ) -> (r: Result<Paths, Error>)
        ensures
            r matches Err(e) ==> e is NoHome,
            r is Err <==> env_data_dir(opt_slice(xdg_data_home), opt_slice(home)) is None,
            r matches Ok(p) ==> Some(p.data_spec()) == env_data_dir(
                opt_slice(xdg_data_home),
                opt_slice(home),
            ) && p.runtime_spec() == env_runtime_dir(opt_slice(xdg_runtime_dir)),
    {
        let base = match xdg_data_home {
            Some(dir) if dir.len() > 0 => bytes_from(dir),
            _ => match home {
                Some(h) => join_text(h, ".local/share"),
                None => {
                    return Err(Error::NoHome);
                },
            },
        };
        let runtime = match xdg_runtime_dir {
            Some(dir) if dir.len() > 0 => Some(join_text(dir, APP_DIR)),
            _ => None,
        };
        Ok(Paths { data: join_text(base.as_slice(), APP_DIR), runtime })
    }

    /// Storage rooted at an explicit directory, with sockets beside each VM.
    pub fn at(data: &[u8]) -> (p: Paths)
        ensures
            p.data_spec() == data@,
            p.runtime_spec() is None,
    {
        Paths { data: bytes_from(data), runtime: None }
    }

    /// Storage with an explicit runtime directory for sockets.
    pub fn at_with_runtime(data: &[u8], runtime: &[u8]) -> (p: Paths)
        ensures
            p.data_spec() == data@,
            p.runtime_spec() == Some(runtime@),
    {
        Paths { data: bytes_from(data), runtime: Some(bytes_from(runtime)) }
    }

    /// Where sockets for this VM go, if anywhere better than its own directory.
    pub fn runtime_dir(&self) -> (r: Option<&[u8]>)
        ensures
            opt_slice(r) == self.runtime_spec(),
    {
        match &self.runtime {
            Some(r) => Some(r.as_slice()),
            None => None,
        }
    }

    pub fn data_dir(&self) -> (r: &[u8])
        ensures
            r@ == self.data_spec(),
    {
        self.data.as_slice()
    }

    pub fn vms_dir(&self) -> (r: Vec<u8>)
        ensures
            r@ == vms_dir_of(self.data_spec()),
    {
        join_text(self.data.as_slice(), VMS_DIR)
    }

    /// Every VM on disk, in sorted order, given the entries of
    /// [`Paths::vms_dir`] as their names and whether each is a directory (an
    /// absent store has none).
    ///
    /// An entry whose name is not a valid [`VmName`], or that is not a
    /// directory, is skipped rather than reported: the library did not create
    /// it, so it is not a VM.
    pub fn list(entries: &Vec<(String, bool)>) -> (names: Vec<VmName>)
        ensures
            sorted(name_views(names@)),
            name_views(names@).to_multiset() == dir_names(entry_views(entries@)).to_multiset(),
    {
        let mut names: Vec<VmName> = Vec::new();
        let mut k: usize = 0;
        assert(name_views(names@) =~= Seq::<Seq<char>>::empty());
        assert(entry_views(entries@).take(0) =~= Seq::<(Seq<char>, bool)>::empty());
        while k < entries.len()
            invariant
                k <= entries@.len(),
                sorted(name_views(names@)),
                name_views(names@).to_multiset() == dir_names(
                    entry_views(entries@).take(k as int),
                ).to_multiset(),
            decreases entries@.len() - k,
        {
            let ghost seen = entry_views(entries@).take(k as int);
            assert(entry_views(entries@).take(k + 1).drop_last() =~= seen);
            assert(entry_views(entries@).take(k + 1).last() == (entries@[k as int].0@, entries@[k as int].1));
            let (name, is_dir) = &entries[k];
            let ghost unchanged = name_views(names@);
            if *is_dir {
                match VmName::new(name.as_str()) {
                    Ok(n) => {
                        let ghost before = name_views(names@);
                        let mut p: usize = 0;
                        while p < names.len() && !lex_less(n.as_str(), names[p].as_str())
                            invariant
                                p <= names@.len(),
                                before == name_views(names@),
                                forall|q: int| 0 <= q < p ==> !lex_lt(n@, #[trigger] before[q]),
                            decreases names@.len() - p,
                        {
                            p += 1;
                        }
                        proof {
                            assert forall|q: int| p <= q < before.len() implies !lex_lt(
                                #[trigger] before[q],
                                n@,
                            ) by {
                                assert(lex_lt(n@, before[p as int]));
                                if lex_lt(before[q], n@) {
                                    lemma_lex_transitive(before[q], n@, before[p as int]);
                                    if q == p {
                                        lemma_lex_irreflexive(before[q]);
                                    }
                                }
                            }
                        }
                        names.insert(p, n);
                        proof {
                            let after = name_views(names@);
                            assert(after =~= before.insert(p as int, n@));
                            vstd::seq_lib::to_multiset_insert(before, p as int, n@);
                            vstd::seq_lib::to_multiset_build(dir_names(seen), name@);
                            assert(dir_names(entry_views(entries@).take(k + 1)) == dir_names(
                                seen,
                            ).push(name@));
                            assert forall|i: int, j: int| 0 <= i < j < after.len() implies !lex_lt(
                                #[trigger] after[j],
                                #[trigger] after[i],
                            ) by {
                                if j < p {
                                    assert(after[i] == before[i] && after[j] == before[j]);
                                } else if j == p {
                                    assert(after[i] == before[i]);
                                } else if i < p {
                                    assert(after[i] == before[i] && after[j] == before[j - 1]);
                                    assert(!lex_lt(before[j - 1], n@));
                                    if lex_lt(before[j - 1], before[i]) {
                                        lemma_lex_transitive(before[j - 1], before[i], n@);
                                    }
                                } else if i == p {
                                    assert(after[j] == before[j - 1]);
                                } else {
                                    assert(after[i] == before[i - 1] && after[j] == before[j - 1]);
                                }
                            }
                        }
                    },
                    Err(_) => {},
                }
            }
            proof {
                if !(*is_dir && valid_name(name@)) {
                    assert(name_views(names@) == unchanged);
                    assert(dir_names(entry_views(entries@).take(k + 1)) == dir_names(seen));
                }
            }
            k += 1;
        }
        assert(entry_views(entries@).take(entries@.len() as int) =~= entry_views(entries@));
        names
    }

    /// The directory belonging to one VM. The name is validated, so it cannot
    /// escape `vms/`.
    pub fn vm(&self, name: &VmName) -> (p: VmPaths)
        ensures
            p.dir_spec() == vm_dir_of(self.data_spec(), name@),
            p.socket_spec() == socket_of(self.data_spec(), self.runtime_spec(), name@),
            p.socket_dir_spec() == socket_dir_of(self.data_spec(), self.runtime_spec(), name@),
    {
        let vms = self.vms_dir();
        let dir = join_text(vms.as_slice(), name.as_str());
        let (tpm_socket, socket_dir) = match &self.runtime {
            Some(runtime) => {
                let mut file = owned(name.as_str());
                push_str(&mut file, SOCKET_SUFFIX);
                (join_text(runtime.as_slice(), file.as_str()), bytes_from(runtime.as_slice()))
            },
            None => {
                let state = join_text(dir.as_slice(), TPM_DIR);
                (join_text(state.as_slice(), SOCKET_FILE), state)
            },
        };
        VmPaths { dir, tpm_socket, socket_dir }
    }
}

/// `a` sorts before `b`: the order of `str`, character by character.
pub open spec fn lex_lt(a: Seq<char>, b: Seq<char>) -> bool
    decreases a.len(),
{
    if b.len() == 0 {
        false
    } else if a.len() == 0 {
        true
    } else if a[0] != b[0] {
        a[0] < b[0]
    } else {
        lex_lt(a.drop_first(), b.drop_first())
    }
}

proof fn lemma_lex_irreflexive(a: Seq<char>)
    ensures
        !lex_lt(a, a),
    decreases a.len(),
{
    if a.len() > 0 {
        lemma_lex_irreflexive(a.drop_first());
    }
}

proof fn lemma_lex_transitive(a: Seq<char>, b: Seq<char>, c: Seq<char>)
    requires
        lex_lt(a, b),
        lex_lt(b, c),
    ensures
        lex_lt(a, c),
    decreases a.len(),
{
    if a.len() > 0 && a[0] == b[0] && b[0] == c[0] {
        lemma_lex_transitive(a.drop_first(), b.drop_first(), c.drop_first());
    }
}

/// Whether `a` sorts before `b`.
fn lex_less(a: &str, b: &str) -> (r: bool)
    ensures
        r == lex_lt(a@, b@),
{
    let x = crate::text::chars_of(a);
    let y = crate::text::chars_of(b);
    let mut i: usize = 0;
    assert(x@.skip(0) =~= x@);
    assert(y@.skip(0) =~= y@);
    while i < x.len() && i < y.len()
        invariant
            x@ == a@,
            y@ == b@,
            i <= x@.len(),
            i <= y@.len(),
            x@.take(i as int) == y@.take(i as int),
            lex_lt(a@, b@) == lex_lt(x@.skip(i as int), y@.skip(i as int)),
        decreases x@.len() - i,
    {
        if x[i] != y[i] {
            assert(x@.skip(i as int)[0] == x@[i as int]);
            assert(y@.skip(i as int)[0] == y@[i as int]);
            return x[i] < y[i];
        }
        assert(x@.skip(i as int).drop_first() =~= x@.skip(i + 1));
        assert(y@.skip(i as int).drop_first() =~= y@.skip(i + 1));
        assert(x@.take(i + 1) =~= x@.take(i as int).push(x@[i as int]));
        assert(y@.take(i + 1) =~= y@.take(i as int).push(y@[i as int]));
        i += 1;
    }
    i < y.len()
}

/// The valid VM names among directory entries, given as a name and whether
/// the entry is a directory, in the order given.
pub open spec fn dir_names(entries: Seq<(Seq<char>, bool)>) -> Seq<Seq<char>>
    decreases entries.len(),
{
    if entries.len() == 0 {
        seq![]
    } else {
        let rest = dir_names(entries.drop_last());
        let (name, is_dir) = entries.last();
        if is_dir && valid_name(name) {
            rest.push(name)
        } else {
            rest
        }
    }
}

pub open spec fn entry_views(entries: Seq<(String, bool)>) -> Seq<(Seq<char>, bool)> {
    entries.map_values(|e: (String, bool)| (e.0@, e.1))
}

pub open spec fn name_views(names: Seq<VmName>) -> Seq<Seq<char>> {
    names.map_values(|n: VmName| n@)
}

/// Names in order: none sorts before one that comes earlier.
pub open spec fn sorted(names: Seq<Seq<char>>) -> bool {
    forall|i: int, j: int| 0 <= i < j < names.len() ==> !lex_lt(#[trigger] names[j], #[trigger] names[i])
}

/// The files belonging to a single virtual machine.
#[derive(Debug, Clone)]
pub struct VmPaths {
    dir: Vec<u8>,
    tpm_socket: Vec<u8>,
    socket_dir: Vec<u8>,
}

impl VmPaths {
    pub closed spec fn dir_spec(&self) -> Seq<u8> {
        self.dir@
    }

    pub closed spec fn socket_spec(&self) -> Seq<u8> {
        self.tpm_socket@
    }

    pub closed spec fn socket_dir_spec(&self) -> Seq<u8> {
        self.socket_dir@
    }

    pub open spec fn config_spec(&self) -> Seq<u8> {
        join(self.dir_spec(), bytes(CONFIG_FILE@))
    }

    pub open spec fn disk_spec(&self) -> Seq<u8> {
        join(self.dir_spec(), bytes(DISK_FILE@))
    }

    pub open spec fn vars_spec(&self) -> Seq<u8> {
        join(self.dir_spec(), bytes(VARS_FILE@))
    }

    pub open spec fn tpm_state_spec(&self) -> Seq<u8> {
        join(self.dir_spec(), bytes(TPM_DIR@))
    }

    pub fn dir(&self) -> (r: &[u8])
        ensures
            r@ == self.dir_spec(),
    {
        self.dir.as_slice()
    }

    pub fn config(&self) -> (r: Vec<u8>)
        ensures
            r@ == self.config_spec(),
    {
        join_text(self.dir.as_slice(), CONFIG_FILE)
    }

    pub fn disk(&self) -> (r: Vec<u8>)
        ensures
            r@ == self.disk_spec(),
    {
        join_text(self.dir.as_slice(), DISK_FILE)
    }

    /// This VM's private copy of the OVMF variable store. Secure Boot keys and
    /// the boot order live here, so it must never be shared between guests.
    pub fn vars(&self) -> (r: Vec<u8>)
        ensures
            r@ == self.vars_spec(),
    {
        join_text(self.dir.as_slice(), VARS_FILE)
    }

    /// swtpm's persistent state: the guest's own TPM keys live here.
    pub fn tpm_state(&self) -> (r: Vec<u8>)
        ensures
            r@ == self.tpm_state_spec(),
    {
        join_text(self.dir.as_slice(), TPM_DIR)
    }

    /// The directory the swtpm control socket is created in.
    pub fn socket_dir(&self) -> (r: &[u8])
        ensures
            r@ == self.socket_dir_spec(),
    {
        self.socket_dir.as_slice()
    }

    /// The swtpm control socket QEMU connects to.
    pub fn tpm_socket(&self) -> (r: &[u8])
        ensures
            r@ == self.socket_spec(),
    {
        self.tpm_socket.as_slice()
    }
}

// ---------------------------------------------------------------------------
// Laws of the layout
// ---------------------------------------------------------------------------

proof fn lemma_vms_dir_shape(data: Seq<u8>)
    ensures
        vms_dir_of(data).len() > 0,
        vms_dir_of(data).last() == 115u8,
{
    reveal_strlit("vms");
    lemma_bytes_ascii(VMS_DIR@);
    assert(bytes(VMS_DIR@)[2] == ('s' as u8));
}

/// A valid name spelled in bytes: one byte per character, with the
/// character's own code, and never `/`.
pub proof fn lemma_name_bytes(name: Seq<char>)
    requires
        valid_name(name),
    ensures
        bytes(name).len() == name.len(),
        forall|i: int| 0 <= i < name.len() ==> #[trigger] bytes(name)[i] as int == name[i] as int,
        forall|i: int| 0 <= i < name.len() ==> #[trigger] bytes(name)[i] != SLASH,
{
    assert(vstd::utf8::is_ascii_chars(name)) by {
        assert forall|i: int| 0 <= i < name.len() implies '\0' <= #[trigger] name[i] <= '\u{7f}' by {
            assert(crate::config::name_char(name[i]));
        }
    }
    lemma_bytes_ascii(name);
    assert forall|i: int| 0 <= i < name.len() implies #[trigger] bytes(name)[i] != SLASH by {
        assert(crate::config::name_char(name[i]));
        assert(bytes(name)[i] as int == name[i] as int);
    }
}

/// Different valid names are spelled with different bytes.
proof fn lemma_name_bytes_differ(a: Seq<char>, b: Seq<char>)
    requires
        valid_name(a),
        valid_name(b),
        a != b,
    ensures
        bytes(a) != bytes(b),
{
    lemma_name_bytes(a);
    lemma_name_bytes(b);
    if bytes(a) == bytes(b) {
        assert forall|i: int| 0 <= i < a.len() implies a[i] == b[i] by {
            assert(bytes(a)[i] as int == a[i] as int);
            assert(bytes(b)[i] as int == b[i] as int);
        }
        assert(a =~= b);
    }
}

/// A VM's directory is the `vms` directory, one `/`, and the VM's name: it is
/// directly inside `vms/` and nowhere else, since a valid name holds no `/`
/// and is neither `.` nor `..`.
pub proof fn lemma_vm_dir_is_inside_vms(data: Seq<u8>, name: Seq<char>)
    requires
        valid_name(name),
    ensures
        vm_dir_of(data, name) == vms_dir_of(data) + seq![SLASH] + bytes(name),
        forall|i: int| 0 <= i < bytes(name).len() ==> #[trigger] bytes(name)[i] != SLASH,
        bytes(name) != seq![46u8],
        bytes(name) != seq![46u8, 46u8],
{
    lemma_vms_dir_shape(data);
    lemma_name_bytes(name);
    assert(name[0] != '.');
    if bytes(name) == seq![46u8] || bytes(name) == seq![46u8, 46u8] {
        assert(bytes(name)[0] as int == name[0] as int);
    }
}

/// Two different names never share a directory, a disk, a variable store, a
/// TPM state directory or a TPM socket.
pub proof fn lemma_vms_do_not_share_files(
    data: Seq<u8>,
    runtime: Option<Seq<u8>>,
    a: Seq<char>,
    b: Seq<char>,
)
    requires
        valid_name(a),
        valid_name(b),
        a != b,
    ensures
        vm_dir_of(data, a) != vm_dir_of(data, b),
        join(vm_dir_of(data, a), bytes(VARS_FILE@)) != join(vm_dir_of(data, b), bytes(VARS_FILE@)),
        join(vm_dir_of(data, a), bytes(DISK_FILE@)) != join(vm_dir_of(data, b), bytes(DISK_FILE@)),
        join(vm_dir_of(data, a), bytes(TPM_DIR@)) != join(vm_dir_of(data, b), bytes(TPM_DIR@)),
        socket_of(data, runtime, a) != socket_of(data, runtime, b),
{
    lemma_vm_dir_is_inside_vms(data, a);
    lemma_vm_dir_is_inside_vms(data, b);
    lemma_name_bytes(a);
    lemma_name_bytes(b);
    lemma_name_bytes_differ(a, b);
    let (na, nb) = (bytes(a), bytes(b));
    let p = vms_dir_of(data) + seq![SLASH];
    let da = vm_dir_of(data, a);
    let db = vm_dir_of(data, b);
    assert(da == p + na);
    assert(db == p + nb);
    // Different names make different directories.
    if da == db {
        assert(na =~= da.skip(p.len() as int));
        assert(nb =~= db.skip(p.len() as int));
    }
    // A component after the directory: the directory does not end in `/`,
    // so one is added, and equal joins would need equal directories.
    assert(da.last() == na.last());
    assert(db.last() == nb.last());
    assert forall|f: Seq<u8>| join(da, f) != join(db, f) by {
        if join(da, f) == join(db, f) {
            let ja = da + seq![SLASH] + f;
            let jb = db + seq![SLASH] + f;
            assert(ja.len() == jb.len());
            assert(da.len() == db.len());
            assert forall|i: int| 0 <= i < da.len() implies da[i] == db[i] by {
                assert(ja[i] == da[i]);
                assert(jb[i] == db[i]);
            }
            assert(da =~= db);
        }
    }
    reveal_strlit("tpm");
    reveal_strlit("-swtpm.sock");
    let ta = join(da, bytes(TPM_DIR@));
    let tb = join(db, bytes(TPM_DIR@));
    assert(ta != tb);
    match runtime {
        Some(r) => {
            let suffix = bytes(SOCKET_SUFFIX@);
            let fa = bytes(a + SOCKET_SUFFIX@);
            let fb = bytes(b + SOCKET_SUFFIX@);
            lemma_bytes_concat(a, SOCKET_SUFFIX@);
            lemma_bytes_concat(b, SOCKET_SUFFIX@);
            assert(fa =~= na + suffix);
            assert(fb =~= nb + suffix);
            if join(r, fa) == join(r, fb) {
                let base = if r.len() == 0 {
                    Seq::<u8>::empty()
                } else if r.last() == SLASH {
                    r
                } else {
                    r + seq![SLASH]
                };
                assert(join(r, fa) == base + fa);
                assert(join(r, fb) == base + fb);
                assert(fa =~= (base + fa).skip(base.len() as int));
                assert(fb =~= (base + fb).skip(base.len() as int));
                assert(na.len() == nb.len());
                assert forall|i: int| 0 <= i < na.len() implies na[i] == nb[i] by {
                    assert(fa[i] == na[i]);
                    assert(fb[i] == nb[i]);
                }
                assert(na =~= nb);
            }
        },
        None => {
            lemma_bytes_ascii(TPM_DIR@);
            assert(bytes(TPM_DIR@)[2] == ('m' as u8));
            assert(ta.last() == ('m' as u8));
            assert(tb.last() == ('m' as u8));
            let f = bytes(SOCKET_FILE@);
            if join(ta, f) == join(tb, f) {
                let ja = ta + seq![SLASH] + f;
                let jb = tb + seq![SLASH] + f;
                assert(join(ta, f) == ja);
                assert(join(tb, f) == jb);
                assert(ja.len() == jb.len());
                assert(ta.len() == tb.len());
                assert forall|i: int| 0 <= i < ta.len() implies ta[i] == tb[i] by {
                    assert(ja[i] == ta[i]);
                    assert(jb[i] == tb[i]);
                }
                assert(ta =~= tb);
            }
        },
    }
}

/// With a runtime directory that does not end in `/`, the socket path is
/// that directory, `/`, the name and `-swtpm.sock`: its length in bytes
/// grows only with the name, by at most [`crate::config::MAX_NAME_LEN`].
pub proof fn lemma_runtime_socket_length(data: Seq<u8>, runtime: Seq<u8>, name: Seq<char>)
    requires
        valid_name(name),
        runtime.len() > 0,
        runtime.last() != SLASH,
    ensures
        socket_of(data, Some(runtime), name) == runtime + seq![SLASH] + bytes(name) + bytes(
            SOCKET_SUFFIX@,
        ),
        socket_of(data, Some(runtime), name).len() == runtime.len() + name.len() + 12,
        socket_of(data, Some(runtime), name).len() <= runtime.len() + 76,
{
    reveal_strlit("-swtpm.sock");
    lemma_bytes_concat(name, SOCKET_SUFFIX@);
    lemma_name_bytes(name);
    lemma_bytes_ascii(SOCKET_SUFFIX@);
    assert(runtime + seq![SLASH] + (bytes(name) + bytes(SOCKET_SUFFIX@)) =~= runtime + seq![SLASH]
        + bytes(name) + bytes(SOCKET_SUFFIX@));
}

/// The swtpm socket lies directly inside the socket directory: it is that
/// directory joined with a single file name, which is not empty and holds
/// no `/`. Creating the socket directory is therefore what lets the socket
/// be created.
pub proof fn lemma_socket_is_inside_its_directory(
    data: Seq<u8>,
    runtime: Option<Seq<u8>>,
    name: Seq<char>,
)
    requires
        valid_name(name),
    ensures
        exists|f: Seq<u8>|
            f.len() > 0 && (forall|i: int| 0 <= i < f.len() ==> #[trigger] f[i] != SLASH)
                && socket_of(data, runtime, name) == join(socket_dir_of(data, runtime, name), f),
{
    reveal_strlit("-swtpm.sock");
    reveal_strlit("swtpm.sock");
    match runtime {
        Some(r) => {
            let f = bytes(name + SOCKET_SUFFIX@);
            lemma_bytes_concat(name, SOCKET_SUFFIX@);
            lemma_name_bytes(name);
            lemma_bytes_ascii(SOCKET_SUFFIX@);
            let (nb, sb) = (bytes(name), bytes(SOCKET_SUFFIX@));
            assert forall|i: int| 0 <= i < f.len() implies #[trigger] f[i] != SLASH by {
                if i < nb.len() {
                    assert(f[i] == nb[i]);
                } else {
                    assert(f[i] == sb[i - nb.len()]);
                    assert(sb[i - nb.len()] as int == SOCKET_SUFFIX@[i - nb.len()] as int);
                }
            }
            assert(socket_of(data, runtime, name) == join(socket_dir_of(data, runtime, name), f));
        },
        None => {
            let f = bytes(SOCKET_FILE@);
            lemma_bytes_ascii(SOCKET_FILE@);
            assert forall|i: int| 0 <= i < f.len() implies #[trigger] f[i] != SLASH by {
                assert(f[i] as int == SOCKET_FILE@[i] as int);
            }
            assert(socket_of(data, runtime, name) == join(socket_dir_of(data, runtime, name), f));
        },
    }
}

} // verus!
