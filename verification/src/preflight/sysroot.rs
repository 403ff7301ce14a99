//! A relocatable view of the filesystem.
//!
//! Detection code addresses files by their canonical absolute location
//! (`/proc/cpuinfo`, `/usr/share/OVMF/...`). Rebasing every one of those
//! through a `Sysroot` lets the same code be pointed at a fixture tree.
use vstd::prelude::*;

use crate::paths::{join, join_path, SLASH};
use crate::text::{bytes, bytes_from, bytes_of, chars_of, find, find_in, string_of, Stop};

verus! {

broadcast use vstd::string::group_string_axioms;

#[derive(Debug, Clone)]
pub struct Sysroot {
    root: Vec<u8>,
}

/// `s.trim_start_matches('/')`.
pub open spec fn strip_leading_slashes(s: Seq<char>) -> Seq<char> {
    s.skip(find(s, Stop::Not('/')))
}

/// Whether a path means the filesystem root: a `/` followed only by further
/// `/` separators and `.` components, which `Path` normalises away.
pub open spec fn is_root_path(s: Seq<u8>) -> bool {
    &&& s.len() > 0
    &&& s[0] == SLASH
    &&& forall|i: int| 0 <= i < s.len() ==> (#[trigger] s[i] == SLASH || s[i] == DOT)
    &&& forall|i: int|
        0 <= i < s.len() && #[trigger] s[i] == DOT ==> s[i - 1] == SLASH && (i + 1 == s.len() || s[i
            + 1] == SLASH)
}

/// The byte `.`.
pub const DOT: u8 = 46;

impl Sysroot {
    pub closed spec fn root_spec(&self) -> Seq<u8> {
        self.root@
    }

    /// The real running system.
    pub fn host() -> (s: Sysroot)
        ensures
            s.root_spec() == seq![SLASH],
    {
        let mut root: Vec<u8> = Vec::new();
        root.push(SLASH);
        Sysroot { root }
    }

    /// A fixture tree standing in for the system.
    pub fn at(root: &[u8]) -> (s: Sysroot)
        ensures
            s.root_spec() == root@,
    {
        Sysroot { root: bytes_from(root) }
    }

    /// Rebase a canonical absolute path onto this root.
    pub fn resolve(&self, absolute: &str) -> (p: Vec<u8>)
        ensures
            p@ == join(self.root_spec(), bytes(strip_leading_slashes(absolute@))),
    {
        let v = chars_of(absolute);
        assert(v@.subrange(0, v@.len() as int) =~= v@);
        let k = find_in(&v, 0, v.len(), &Stop::Not('/'));
        let rel = string_of(&v, k, v.len());
        assert(rel@ =~= strip_leading_slashes(absolute@));
        let rel = bytes_of(rel.as_str());
        join_path(self.root.as_slice(), rel.as_slice())
    }

    /// True when this sysroot is the real filesystem.
    pub fn is_host(&self) -> (b: bool)
        ensures
            b == is_root_path(self.root_spec()),
    {
        let v = &self.root;
        if v.len() == 0 || v[0] != SLASH {
            return false;
        }
        let mut i: usize = 0;
        while i < v.len()
            invariant
                v@ == self.root_spec(),
                v@.len() > 0,
                v@[0] == SLASH,
                0 <= i <= v@.len(),
                forall|j: int| 0 <= j < i ==> (#[trigger] v@[j] == SLASH || v@[j] == DOT),
                forall|j: int|
                    0 <= j < i && #[trigger] v@[j] == DOT ==> v@[j - 1] == SLASH && (j + 1
                        == v@.len() || v@[j + 1] == SLASH),
            decreases v@.len() - i,
        {
            let c = v[i];
            if c == DOT {
                if !(v[i - 1] == SLASH && (i + 1 == v.len() || v[i + 1] == SLASH)) {
                    return false;
                }
            } else if c != SLASH {
                return false;
            }
            i += 1;
        }
        true
    }
}

impl Default for Sysroot {
    fn default() -> (s: Sysroot)
        ensures
            s.root_spec() == seq![SLASH],
    {
        Sysroot::host()
    }
}

} // verus!
