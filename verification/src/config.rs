//! The description of a virtual machine, and the rules for a valid one.
//!
//! A `VmConfig` is the whole of what the library knows about a guest.
//! Validation here is pure: it inspects the values and nothing else, never
//! the filesystem or the host. Whether the host can satisfy a config is a
//! separate question, answered by [`crate::preflight`], and whether a path
//! exists is checked at launch.
use vstd::prelude::*;

use crate::text::owned;
use vstd::string::StringSliceAdditionalSpecFns;
use crate::Error;

verus! {

broadcast use vstd::string::group_string_axioms;

/// Defaults sized for a Windows 11 guest, which wants 4 GiB of RAM and 64 GiB
/// of disk.
pub const DEFAULT_CPUS: u32 = 4;

pub const DEFAULT_MEMORY_MIB: u64 = 4096;

pub const DEFAULT_DISK_GIB: u64 = 64;

/// Longest name accepted, comfortably inside the 255 byte limit every Linux
/// filesystem imposes on a single path component.
pub const MAX_NAME_LEN: usize = 64;

pub const MAX_CPUS: u32 = 255;

pub const MIN_MEMORY_MIB: u64 = 512;

pub const MIN_DISK_GIB: u64 = 1;

pub const MAX_DISK_GIB: u64 = 8192;

/// A character that may appear in a VM name.
pub open spec fn name_char(c: char) -> bool {
    ||| ('a' <= c && c <= 'z')
    ||| ('A' <= c && c <= 'Z')
    ||| ('0' <= c && c <= '9')
    ||| c == '-'
    ||| c == '_'
    ||| c == '.'
}

/// A name that is safe to use as a directory name: non-empty, at most
/// [`MAX_NAME_LEN`] characters, not starting with `.`, and made only of ASCII
/// letters, digits, `-`, `_` and `.`. In particular it holds no `/`, so it
/// names exactly one directory, and it is never `.` or `..`.
pub open spec fn valid_name(s: Seq<char>) -> bool {
    &&& 0 < s.len() <= MAX_NAME_LEN
    &&& s[0] != '.'
    &&& forall|i: int| 0 <= i < s.len() ==> name_char(#[trigger] s[i])
}

/// Why `VmName::new` rejects a name, checked in this order: emptiness, the
/// length in UTF-8 bytes, a leading `.`, then the characters.
pub open spec fn name_rejection(s: Seq<char>, bytes: nat) -> Option<&'static str> {
    if s.len() == 0 {
        Some("a name is required")
    } else if bytes > MAX_NAME_LEN {
        Some("longer than 64 characters")
    } else if s[0] == '.' {
        Some("must not start with `.`")
    } else if !(forall|i: int| 0 <= i < s.len() ==> name_char(#[trigger] s[i])) {
        Some("only letters, digits, `-`, `_` and `.` are allowed")
    } else {
        None
    }
}

/// A virtual machine name that is safe to use as a directory name.
///
/// Names reach the filesystem, so they are validated rather than sanitised:
/// silently rewriting `../../etc` into something harmless would mean the VM the
/// user asked for and the VM they got have different names.
#[derive(Debug)]
pub struct VmName(String);

impl Clone for VmName {
    fn clone(&self) -> (r: Self)
        ensures
            r@ == self@,
    {
        proof {
            use_type_invariant(self);
        }
        VmName(self.0.clone())
    }
}

impl View for VmName {
    type V = Seq<char>;

    closed spec fn view(&self) -> Seq<char> {
        self.0@
    }
}

impl VmName {
    #[verifier::type_invariant]
    spec fn well_formed(self) -> bool {
        valid_name(self.0@)
    }

    /// Validate `name`.
    pub fn new(name: &str) -> (r: Result<VmName, Error>)
        ensures
            r is Ok <==> valid_name(name@),
            r matches Ok(n) ==> n@ == name@,
            name_rejection(name@, name.spec_bytes().len()) is None <==> valid_name(name@),
            r matches Err(e) ==> e matches Error::InvalidName { name: n, reason }
                && n@ == name@ && Some(reason) == name_rejection(name@, name.spec_bytes().len()),
    {
        proof {
            lemma_rejection_matches_validity(name@, name.spec_bytes().len());
        }
        if name.is_empty() {
            return Err(Error::InvalidName { name: owned(name), reason: "a name is required" });
        }
        let bytes = name.as_bytes();
        if bytes.len() > MAX_NAME_LEN {
            return Err(
                Error::InvalidName { name: owned(name), reason: "longer than 64 characters" },
            );
        }
        let chars = crate::text::chars_of(name);
        // `.` and `..` are directory traversal; a leading dot merely hides the
        // VM from `ls`, which is confusing rather than dangerous, but neither
        // is worth supporting.
        assert(chars@[0] == name@[0]);
        if chars[0] == '.' {
            return Err(
                Error::InvalidName { name: owned(name), reason: "must not start with `.`" },
            );
        }
        let mut i: usize = 0;
        while i < chars.len()
            invariant
                chars@ == name@,
                name@.len() > 0,
                name.spec_bytes().len() <= MAX_NAME_LEN,
                name@[0] != '.',
                0 <= i <= chars@.len(),
                forall|j: int| 0 <= j < i ==> name_char(#[trigger] chars@[j]),
            decreases chars@.len() - i,
        {
            let c = chars[i];
            let ok = ('a' <= c && c <= 'z') || ('A' <= c && c <= 'Z') || ('0' <= c && c <= '9')
                || c == '-' || c == '_' || c == '.';
            if !ok {
                assert(!name_char(name@[i as int]));
                return Err(
                    Error::InvalidName {
                        name: owned(name),
                        reason: "only letters, digits, `-`, `_` and `.` are allowed",
                    },
                );
            }
            i += 1;
        }
        assert(name_rejection(name@, name.spec_bytes().len()) is None);
        Ok(VmName(owned(name)))
    }

    pub fn as_str(&self) -> (s: &str)
        ensures
            s@ == self@,
            valid_name(self@),
    {
        proof {
            use_type_invariant(self);
        }
        self.0.as_str()
    }
}

/// A name whose characters are all name characters is ASCII, so its UTF-8
/// length is its character count, and the two orders of checking agree.
proof fn lemma_rejection_matches_validity(s: Seq<char>, bytes: nat)
    requires
        bytes == vstd::utf8::encode_utf8(s).len(),
    ensures
        name_rejection(s, bytes) is None <==> valid_name(s),
{
    if forall|i: int| 0 <= i < s.len() ==> name_char(#[trigger] s[i]) {
        assert(vstd::utf8::is_ascii_chars(s)) by {
            assert forall|i: int| 0 <= i < s.len() implies '\0' <= #[trigger] s[i] <= '\u{7f}' by {
                assert(name_char(s[i]));
            }
        }
        vstd::utf8::is_ascii_chars_encode_utf8(s);
    }
}

pub fn default_cpus() -> (n: u32)
    ensures
        n == DEFAULT_CPUS,
{
    DEFAULT_CPUS
}

pub fn default_memory_mib() -> (n: u64)
    ensures
        n == DEFAULT_MEMORY_MIB,
{
    DEFAULT_MEMORY_MIB
}

pub fn default_disk_gib() -> (n: u64)
    ensures
        n == DEFAULT_DISK_GIB,
{
    DEFAULT_DISK_GIB
}

pub fn default_tpm() -> (b: bool)
    ensures
        b,
{
    true
}

/// Everything the library knows about one guest.
#[derive(Debug, Clone)]
pub struct VmConfig {
    pub name: VmName,
    pub cpus: u32,
    pub memory_mib: u64,
    pub disk_gib: u64,
    /// Installation medium, attached as a CD-ROM for as long as it is set.
    /// A path, held as bytes: it need not be UTF-8.
    pub iso: Option<Vec<u8>>,
    /// Whether the guest gets an emulated TPM 2.0. On by default, because
    /// Windows 11 will not install without one.
    pub tpm: bool,
}

/// The limits [`VmConfig::validate`] enforces.
pub open spec fn config_in_range(cpus: u32, memory_mib: u64, disk_gib: u64) -> bool {
    &&& 1 <= cpus <= MAX_CPUS
    &&& memory_mib >= MIN_MEMORY_MIB
    &&& MIN_DISK_GIB <= disk_gib <= MAX_DISK_GIB
}

/// The field and problem `validate` reports, in the order it checks them.
pub open spec fn config_problem(cpus: u32, memory_mib: u64, disk_gib: u64) -> Option<
    (&'static str, &'static str),
> {
    if cpus == 0 {
        Some(("cpus", "must be at least 1"))
    } else if cpus > MAX_CPUS {
        Some(("cpus", "must be at most 255"))
    } else if memory_mib < MIN_MEMORY_MIB {
        Some(("memory_mib", "must be at least 512 MiB"))
    } else if disk_gib < MIN_DISK_GIB {
        Some(("disk_gib", "must be at least 1 GiB"))
    } else if disk_gib > MAX_DISK_GIB {
        Some(("disk_gib", "must be at most 8192 GiB"))
    } else {
        None
    }
}

impl VmConfig {
    /// A new VM with default sizing and a TPM.
    pub fn new(name: VmName) -> (c: VmConfig)
        ensures
            c.name == name,
            c.cpus == DEFAULT_CPUS,
            c.memory_mib == DEFAULT_MEMORY_MIB,
            c.disk_gib == DEFAULT_DISK_GIB,
            c.iso is None,
            c.tpm,
    {
        VmConfig {
            name,
            cpus: DEFAULT_CPUS,
            memory_mib: DEFAULT_MEMORY_MIB,
            disk_gib: DEFAULT_DISK_GIB,
            iso: None,
            tpm: true,
        }
    }

    pub fn with_iso(self, iso: Option<Vec<u8>>) -> (c: VmConfig)
        ensures
            c == (VmConfig { iso, ..self }),
    {
        VmConfig { iso, ..self }
    }

    pub fn with_tpm(self, tpm: bool) -> (c: VmConfig)
        ensures
            c == (VmConfig { tpm, ..self }),
    {
        VmConfig { tpm, ..self }
    }

    /// Check the values against the range QEMU can actually be asked for.
    pub fn validate(&self) -> (r: Result<(), Error>)
        ensures
            r is Ok <==> config_in_range(self.cpus, self.memory_mib, self.disk_gib),
            config_problem(self.cpus, self.memory_mib, self.disk_gib) is None <==> config_in_range(
                self.cpus,
                self.memory_mib,
                self.disk_gib,
            ),
            r matches Err(e) ==> e matches Error::InvalidConfig { field, problem }
                && config_problem(self.cpus, self.memory_mib, self.disk_gib) matches Some(fp)
                && field == fp.0 && problem@ == fp.1@,
    {
        if self.cpus == 0 {
            return Err(Error::InvalidConfig { field: "cpus", problem: owned("must be at least 1") });
        }
        if self.cpus > MAX_CPUS {
            return Err(
                Error::InvalidConfig { field: "cpus", problem: owned("must be at most 255") },
            );
        }
        if self.memory_mib < MIN_MEMORY_MIB {
            return Err(
                Error::InvalidConfig {
                    field: "memory_mib",
                    problem: owned("must be at least 512 MiB"),
                },
            );
        }
        if self.disk_gib < MIN_DISK_GIB {
            return Err(
                Error::InvalidConfig { field: "disk_gib", problem: owned("must be at least 1 GiB") },
            );
        }
        if self.disk_gib > MAX_DISK_GIB {
            return Err(
                Error::InvalidConfig {
                    field: "disk_gib",
                    problem: owned("must be at most 8192 GiB"),
                },
            );
        }
        Ok(())
    }

    /// Assemble a configuration from the fields of a saved file, applying the
    /// defaults for the fields it leaves out, and hold it to the same rules
    /// as one made here: the name must be valid, then the sizes.
    pub fn from_parts(
        name: &str,
        cpus: Option<u32>,
        memory_mib: Option<u64>,
        disk_gib: Option<u64>,
        iso: Option<Vec<u8>>,
        tpm: Option<bool>,
    ) -> (r: Result<VmConfig, Error>)
        ensures
            !valid_name(name@) ==> (r matches Err(e) && e matches Error::InvalidName { name: n, reason }
                && n@ == name@ && Some(reason) == name_rejection(name@, name.spec_bytes().len())),
            valid_name(name@) ==> {
                let c = cpus.unwrap_or(DEFAULT_CPUS);
                let m = memory_mib.unwrap_or(DEFAULT_MEMORY_MIB);
                let d = disk_gib.unwrap_or(DEFAULT_DISK_GIB);
                &&& (r is Ok <==> config_in_range(c, m, d))
                &&& r matches Ok(cfg) ==> {
                    &&& cfg.name@ == name@
                    &&& cfg.cpus == c
                    &&& cfg.memory_mib == m
                    &&& cfg.disk_gib == d
                    &&& cfg.iso == iso
                    &&& cfg.tpm == tpm.unwrap_or(true)
                }
                &&& r matches Err(e) ==> e matches Error::InvalidConfig { field, problem }
                    && config_problem(c, m, d) matches Some(fp) && field == fp.0 && problem@
                    == fp.1@
            },
    {
        let name = VmName::new(name)?;
        let config = VmConfig {
            name,
            cpus: match cpus {
                Some(n) => n,
                None => default_cpus(),
            },
            memory_mib: match memory_mib {
                Some(n) => n,
                None => default_memory_mib(),
            },
            disk_gib: match disk_gib {
                Some(n) => n,
                None => default_disk_gib(),
            },
            iso,
            tpm: match tpm {
                Some(b) => b,
                None => default_tpm(),
            },
        };
        config.validate()?;
        Ok(config)
    }
}

} // verus!
