//! Minimal `which(1)`: where an executable is looked for on `PATH`.
//!
//! Preflight needs the *path* a binary resolved to, so it can tell the user
//! which one was actually picked up. The search order is decided here; the
//! front end takes the first candidate that is an executable file.
//!
//! `PATH` is taken as the operating system holds it, as bytes, so entries
//! that are not UTF-8 are searched like any other.
use vstd::prelude::*;

use crate::paths::{join, join_text};
use crate::text::{byte_views, bytes, slice_bytes};

verus! {

/// The byte `:`, which separates `PATH` entries.
pub const COLON: u8 = 58;

/// Index of the first `:` in `s`, or `s.len()` when there is none.
pub open spec fn first_colon(s: Seq<u8>) -> int
    decreases s.len(),
{
    if s.len() == 0 {
        0
    } else if s[0] == COLON {
        0
    } else {
        first_colon(s.drop_first()) + 1
    }
}

pub proof fn lemma_first_colon(s: Seq<u8>)
    ensures
        0 <= first_colon(s) <= s.len(),
        forall|j: int| 0 <= j < first_colon(s) ==> #[trigger] s[j] != COLON,
        first_colon(s) < s.len() ==> s[first_colon(s)] == COLON,
    decreases s.len(),
{
    if s.len() > 0 && s[0] != COLON {
        lemma_first_colon(s.drop_first());
        assert forall|j: int| 0 <= j < first_colon(s) implies #[trigger] s[j] != COLON by {
            if j > 0 {
                assert(s[j] == s.drop_first()[j - 1]);
            }
        }
    }
}

proof fn lemma_first_colon_at(s: Seq<u8>, k: int)
    requires
        0 <= k <= s.len(),
        forall|j: int| 0 <= j < k ==> #[trigger] s[j] != COLON,
        k < s.len() ==> s[k] == COLON,
    ensures
        first_colon(s) == k,
{
    lemma_first_colon(s);
    let f = first_colon(s);
    if f < k {
        assert(s[f] != COLON);
    } else if k < f {
        assert(s[k] != COLON);
    }
}

/// Where `name` is looked for, given the value of `PATH`: the name joined
/// onto each entry between colons, in order, with empty entries skipped.
pub open spec fn search_order(name: Seq<char>, path_var: Seq<u8>) -> Seq<Seq<u8>>
    decreases path_var.len(),
{
    let k = first_colon(path_var);
    let dir = if k < path_var.len() {
        path_var.take(k)
    } else {
        path_var
    };
    let here = if dir.len() > 0 {
        seq![join(dir, bytes(name))]
    } else {
        seq![]
    };
    if k < path_var.len() {
        proof {
            lemma_first_colon(path_var);
        }
        here + search_order(name, path_var.skip(k + 1))
    } else {
        here
    }
}

proof fn lemma_search_step(name: Seq<char>, s: Seq<u8>, start: int, i: int)
    requires
        0 <= start <= i < s.len(),
        s[i] == COLON,
        forall|j: int| start <= j < i ==> s[j] != COLON,
    ensures
        search_order(name, s.skip(start)) == (if i > start {
            seq![join(s.subrange(start, i), bytes(name))]
        } else {
            seq![]
        }) + search_order(name, s.skip(i + 1)),
{
    let t = s.skip(start);
    assert forall|j: int| 0 <= j < i - start implies #[trigger] t[j] != COLON by {
        assert(t[j] == s[start + j]);
    }
    lemma_first_colon_at(t, i - start);
    assert(t.take(i - start) =~= s.subrange(start, i));
    assert(t.skip(i - start + 1) =~= s.skip(i + 1));
}

proof fn lemma_search_last(name: Seq<char>, s: Seq<u8>, start: int)
    requires
        0 <= start <= s.len(),
        forall|j: int| start <= j < s.len() ==> s[j] != COLON,
    ensures
        search_order(name, s.skip(start)) == if start < s.len() {
            seq![join(s.skip(start), bytes(name))]
        } else {
            Seq::<Seq<u8>>::empty()
        },
{
    let t = s.skip(start);
    assert forall|j: int| 0 <= j < t.len() implies #[trigger] t[j] != COLON by {
        assert(t[j] == s[start + j]);
    }
    lemma_first_colon_at(t, t.len() as int);
}

/// Every place `name` is looked for on `path_var`, in the order `PATH`
/// gives them.
pub fn candidates(name: &str, path_var: &[u8]) -> (r: Vec<Vec<u8>>)
    ensures
        byte_views(r@) == search_order(name@, path_var@),
{
    let mut r: Vec<Vec<u8>> = Vec::new();
    let mut start: usize = 0;
    let mut i: usize = 0;
    assert(path_var@.skip(0) =~= path_var@);
    while i < path_var.len()
        invariant
            0 <= start <= i <= path_var@.len(),
            forall|j: int| start <= j < i ==> path_var@[j] != COLON,
            search_order(name@, path_var@) == byte_views(r@) + search_order(
                name@,
                path_var@.skip(start as int),
            ),
        decreases path_var@.len() - i,
    {
        if path_var[i] == COLON {
            proof {
                lemma_search_step(name@, path_var@, start as int, i as int);
            }
            let ghost old_r = byte_views(r@);
            if i > start {
                let dir = slice_bytes(path_var, start, i);
                r.push(join_text(dir.as_slice(), name));
                assert(byte_views(r@) =~= old_r + seq![
                    join(path_var@.subrange(start as int, i as int), bytes(name@)),
                ]);
            }
            assert(old_r + ((if i > start {
                seq![join(path_var@.subrange(start as int, i as int), bytes(name@))]
            } else {
                seq![]
            }) + search_order(name@, path_var@.skip(i + 1))) =~= byte_views(r@) + search_order(
                name@,
                path_var@.skip(i + 1),
            ));
            start = i + 1;
        }
        i += 1;
    }
    proof {
        lemma_search_last(name@, path_var@, start as int);
    }
    let ghost old_r = byte_views(r@);
    if start < path_var.len() {
        let dir = slice_bytes(path_var, start, path_var.len());
        assert(path_var@.subrange(start as int, path_var@.len() as int) =~= path_var@.skip(
            start as int,
        ));
        r.push(join_text(dir.as_slice(), name));
        assert(byte_views(r@) =~= old_r + seq![join(path_var@.skip(start as int), bytes(name@))]);
    } else {
        assert(old_r + Seq::<Seq<u8>>::empty() =~= old_r);
    }
    r
}

} // verus!
