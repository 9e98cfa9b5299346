//! Lexicographic ordering of names, used to sort schema listings.

use vstd::prelude::*;

verus! {

/// Lexicographic order on character sequences by code point: the empty
/// sequence comes first, otherwise the first differing character decides.
pub open spec fn lex_le(a: Seq<char>, b: Seq<char>) -> bool
    decreases a.len(),
{
    if a.len() == 0 {
        true
    } else if b.len() == 0 {
        false
    } else if (a[0] as int) < (b[0] as int) {
        true
    } else if (a[0] as int) > (b[0] as int) {
        false
    } else {
        lex_le(a.skip(1), b.skip(1))
    }
}

/// Order on optional names as the catalog sorts them ascending: present
/// names lexicographically, absent names after every present one.
pub open spec fn name_le(a: Option<String>, b: Option<String>) -> bool {
    match (a, b) {
        (Option::None, Option::None) => true,
        (Option::None, Option::Some(_)) => false,
        (Option::Some(_), Option::None) => true,
        (Option::Some(x), Option::Some(y)) => lex_le(x@, y@),
    }
}

/// `lex_le` is total: of any two sequences, one is less-or-equal the other.
pub proof fn lemma_lex_le_total(a: Seq<char>, b: Seq<char>)
    ensures
        lex_le(a, b) || lex_le(b, a),
    decreases a.len(),
{
    if a.len() == 0 {
    } else if b.len() == 0 {
    } else if (a[0] as int) == (b[0] as int) {
        lemma_lex_le_total(a.skip(1), b.skip(1));
    }
}

/// `lex_le` is transitive.
pub proof fn lemma_lex_le_trans(a: Seq<char>, b: Seq<char>, c: Seq<char>)
    requires
        lex_le(a, b),
        lex_le(b, c),
    ensures
        lex_le(a, c),
    decreases a.len(),
{
    if a.len() == 0 {
    } else {
        if (a[0] as int) == (b[0] as int) && (b[0] as int) == (c[0] as int) {
            lemma_lex_le_trans(a.skip(1), b.skip(1), c.skip(1));
        }
    }
}

/// `name_le` is total.
pub proof fn lemma_name_le_total(a: Option<String>, b: Option<String>)
    ensures
        name_le(a, b) || name_le(b, a),
{
    match (a, b) {
        (Option::Some(x), Option::Some(y)) => lemma_lex_le_total(x@, y@),
        _ => {},
    }
}

/// `name_le` is transitive.
pub proof fn lemma_name_le_trans(a: Option<String>, b: Option<String>, c: Option<String>)
    requires
        name_le(a, b),
        name_le(b, c),
    ensures
        name_le(a, c),
{
    match (a, b) {
        (Option::Some(x), Option::Some(y)) => match c {
            Option::Some(z) => lemma_lex_le_trans(x@, y@, z@),
            Option::None => {},
        },
        _ => {},
    }
}

fn str_le_at(a: &str, b: &str, al: usize, bl: usize, i: usize) -> (r: bool)
    requires
        al == a@.len(),
        bl == b@.len(),
        i <= al,
        i <= bl,
    ensures
        r == lex_le(a@.skip(i as int), b@.skip(i as int)),
    decreases al - i,
{
    if i == al {
        true
    } else if i == bl {
        false
    } else {
        proof {
            assert(a@.skip(i as int)[0] == a@[i as int]);
            assert(b@.skip(i as int)[0] == b@[i as int]);
            assert(a@.skip(i as int).skip(1) =~= a@.skip(i as int + 1));
            assert(b@.skip(i as int).skip(1) =~= b@.skip(i as int + 1));
        }
        let ca = a.get_char(i) as u32;
        let cb = b.get_char(i) as u32;
        if ca < cb {
            true
        } else if ca > cb {
            false
        } else {
            str_le_at(a, b, al, bl, i + 1)
        }
    }
}

/// Whether `a` comes before `b` (or equals it) in lexicographic order.
pub fn str_le(a: &str, b: &str) -> (r: bool)
    ensures
        r == lex_le(a@, b@),
{
    let al = a.unicode_len();
    let bl = b.unicode_len();
    proof {
        assert(a@.skip(0) =~= a@);
        assert(b@.skip(0) =~= b@);
    }
    str_le_at(a, b, al, bl, 0)
}

/// Whether name `a` sorts at or before name `b`, absent names last.
pub fn name_le_exec(a: &Option<String>, b: &Option<String>) -> (r: bool)
    ensures
        r == name_le(*a, *b),
{
    match (a, b) {
        (Option::None, Option::None) => true,
        (Option::None, Option::Some(_)) => false,
        (Option::Some(_), Option::None) => true,
        (Option::Some(x), Option::Some(y)) => str_le(x.as_str(), y.as_str()),
    }
}

} // verus!
