//! Checks of the rendered schema definition text.
//!
//! On startup the service persists its schema definition to a file.  The
//! functions here decide, by verified substring search, whether such a text
//! declares the service's two query fields with their documented argument
//! and result shapes.

use vstd::prelude::*;

verus! {

/// Whether `needle` occurs in `hay` starting at position `k`.
pub open spec fn occurs_at(hay: Seq<char>, needle: Seq<char>, k: int) -> bool {
    0 <= k && k + needle.len() <= hay.len() && hay.subrange(k, k + needle.len()) == needle
}

/// Whether `needle` occurs anywhere in `hay`.
pub open spec fn occurs_in(hay: Seq<char>, needle: Seq<char>) -> bool {
    exists|k: int| occurs_at(hay, needle, k)
}

fn matches_at(hay: &str, needle: &str, hl: usize, nl: usize, k: usize) -> (r: bool)
    requires
        hl == hay@.len(),
        nl == needle@.len(),
        k + nl <= hl,
    ensures
        r == occurs_at(hay@, needle@, k as int),
{
    let mut m: usize = 0;
    while m < nl
        invariant
            hl == hay@.len(),
            nl == needle@.len(),
            k + nl <= hl,
            m <= nl,
            forall|t: int| 0 <= t < m ==> hay@[k + t] == needle@[t],
        decreases nl - m,
    {
        let a = hay.get_char(k + m);
        let b = needle.get_char(m);
        if a != b {
            proof {
                assert(hay@.subrange(k as int, k + nl)[m as int] == hay@[k + m]);
            }
            return false;
        }
        m = m + 1;
    }
    proof {
        assert(hay@.subrange(k as int, k + nl) =~= needle@);
    }
    true
}

/// Whether `needle` occurs in `hay` as a contiguous run of characters.
pub fn contains_str(hay: &str, needle: &str) -> (r: bool)
    ensures
        r == occurs_in(hay@, needle@),
{
    let hl = hay.unicode_len();
    let nl = needle.unicode_len();
    if nl > hl {
        return false;
    }
    if nl == 0 {
        proof {
            assert(hay@.subrange(0, 0) =~= needle@);
            assert(occurs_at(hay@, needle@, 0));
        }
        return true;
    }
    let mut k: usize = 0;
    while k <= hl - nl
        invariant
            hl == hay@.len(),
            nl == needle@.len(),
            1 <= nl <= hl,
            k <= hl - nl + 1,
            forall|t: int| 0 <= t < k ==> !occurs_at(hay@, needle@, t),
        decreases hl - nl + 1 - k,
    {
        if matches_at(hay, needle, hl, nl, k) {
            return true;
        }
        k = k + 1;
    }
    false
}

/// Whether the schema definition text declares both query fields of this
/// service — the database listing and the schema listing — with their
/// argument and result shapes, each as a contiguous declaration.
pub fn sdl_declares_query_fields(sdl: &str) -> (r: bool)
    ensures
        r == (occurs_in(
            sdl@,
            "databases(dbnamePattern: String, omitTemplates: Boolean): [DbInfo!]!"@,
        ) && occurs_in(sdl@, "schemas(schemaNamePattern: String): [Schema!]!"@)),
{
    let d = contains_str(sdl, "databases(dbnamePattern: String, omitTemplates: Boolean): [DbInfo!]!");
    let s = contains_str(sdl, "schemas(schemaNamePattern: String): [Schema!]!");
    d && s
}

} // verus!
