//! The database listing: catalog rows filtered by name pattern, templates
//! omitted on request.

use vstd::prelude::*;

use crate::like::effective_pattern;
use crate::like::like_matches;

verus! {

/// Database information: one row of the database catalog.
#[derive(Debug, Clone, PartialEq, Eq)]
pub struct DbInfo {
    /// The name of the database.
    pub datname: String,
    /// The character set encoding of the database.
    pub encoding: i32,
    /// The collation of the database.
    pub datcollate: String,
    /// The character classification of the database.
    pub datctype: String,
    /// Whether the database is a template.
    pub datistemplate: bool,
    /// Whether connections are allowed to the database.
    pub datallowconn: bool,
    /// The connection limit for the database.
    pub datconnlimit: i32,
}

/// The template flag a listing actually applies: an absent argument stands
/// for `false`, keeping template databases in the result.
pub open spec fn effective_omit(o: Option<bool>) -> bool {
    match o {
        Option::Some(b) => b,
        Option::None => false,
    }
}

/// Whether a catalog row survives the listing's filter: its name matches
/// the pattern, and it is no template when templates are omitted.
pub open spec fn db_keeps(row: DbInfo, p: Seq<char>, omit: bool) -> bool {
    like_matches(p, row.datname@) && (!omit || !row.datistemplate)
}

/// The rows of `rows` that survive the filter, in their original order.
pub open spec fn db_filtered(rows: Seq<DbInfo>, p: Seq<char>, omit: bool) -> Seq<DbInfo>
    decreases rows.len(),
{
    if rows.len() == 0 {
        Seq::empty()
    } else {
        db_filtered(rows.drop_last(), p, omit) + (if db_keeps(rows.last(), p, omit) {
            seq![rows.last()]
        } else {
            Seq::empty()
        })
    }
}

/// Every row of a filtered listing passed the filter.
pub proof fn lemma_db_filtered_keeps(rows: Seq<DbInfo>, p: Seq<char>, omit: bool)
    ensures
        forall|k: int|
            0 <= k < db_filtered(rows, p, omit).len() ==> db_keeps(
                #[trigger] db_filtered(rows, p, omit)[k],
                p,
                omit,
            ),
    decreases rows.len(),
{
    if rows.len() > 0 {
        lemma_db_filtered_keeps(rows.drop_last(), p, omit);
        let f = db_filtered(rows, p, omit);
        let fp = db_filtered(rows.drop_last(), p, omit);
        assert forall|k: int| 0 <= k < f.len() implies db_keeps(f[k], p, omit) by {
            if k < fp.len() {
                assert(f[k] == fp[k]);
            } else {
                assert(db_keeps(rows.last(), p, omit));
                assert(f[k] == rows.last());
            }
        }
    }
}

/// An unset name pattern filters exactly as the pattern `"%"` does: the
/// two listings are the same sequence, whatever the template flag.
pub proof fn lemma_unset_pattern_like_percent(
    rows: Seq<DbInfo>,
    percent: String,
    omit: Option<bool>,
)
    requires
        percent@ == seq!['%'],
    ensures
        db_filtered(rows, effective_pattern(Option::None), effective_omit(omit)) == db_filtered(
            rows,
            effective_pattern(Option::Some(percent)),
            effective_omit(omit),
        ),
{
}

/// With an unset pattern and templates kept, the listing returns every row.
pub proof fn lemma_default_listing_keeps_all(rows: Seq<DbInfo>)
    ensures
        db_filtered(rows, effective_pattern(Option::None), false) == rows,
    decreases rows.len(),
{
    let p = effective_pattern(Option::None);
    if rows.len() == 0 {
        assert(db_filtered(rows, p, false) =~= rows);
    } else {
        lemma_default_listing_keeps_all(rows.drop_last());
        crate::like::lemma_percent_matches_all(rows.last().datname@);
        assert(db_keeps(rows.last(), p, false));
        assert(rows.drop_last() + seq![rows.last()] =~= rows);
    }
}

/// With templates kept, every row whose name matches the pattern appears in
/// the listing, template or not.
pub proof fn lemma_no_omit_keeps_every_match(rows: Seq<DbInfo>, p: Seq<char>)
    ensures
        forall|k: int|
            0 <= k < rows.len() && like_matches(p, (#[trigger] rows[k]).datname@) ==> db_filtered(
                rows,
                p,
                false,
            ).contains(rows[k]),
    decreases rows.len(),
{
    if rows.len() > 0 {
        lemma_no_omit_keeps_every_match(rows.drop_last(), p);
        let f = db_filtered(rows, p, false);
        let fp = db_filtered(rows.drop_last(), p, false);
        assert forall|k: int|
            0 <= k < rows.len() && like_matches(p, (#[trigger] rows[k]).datname@) implies f.contains(
            rows[k],
        ) by {
            if k < rows.len() - 1 {
                assert(rows.drop_last()[k] == rows[k]);
                assert(fp.contains(rows[k]));
                let w = choose|w: int| 0 <= w < fp.len() && fp[w] == rows[k];
                assert(f[w] == rows[k]);
                assert(f.contains(rows[k]));
            } else {
                assert(db_keeps(rows.last(), p, false));
                assert(f[fp.len() as int] == rows.last());
                assert(f.contains(rows[k]));
            }
        }
    }
}

/// For a pattern without wildcard characters the listing holds only rows
/// whose name is exactly the pattern, character for character.
pub proof fn lemma_exact_name_listing(rows: Seq<DbInfo>, p: Seq<char>, omit: bool)
    requires
        !crate::like::has_wildcard(p),
    ensures
        forall|k: int|
            0 <= k < db_filtered(rows, p, omit).len() ==> (#[trigger] db_filtered(rows, p, omit)[k]).datname@
                == p,
{
    lemma_db_filtered_keeps(rows, p, omit);
    let f = db_filtered(rows, p, omit);
    assert forall|k: int| 0 <= k < f.len() implies (#[trigger] f[k]).datname@ == p by {
        crate::like::lemma_no_wildcard_exact(p, f[k].datname@);
    }
}

/// The database listing: the rows whose name matches the pattern, templates
/// excluded exactly when `omit_templates` asks for it, in catalog order.
/// An absent pattern stands for `"%"`; an absent flag keeps templates.
pub fn get_db_info(rows: Vec<DbInfo>, datname_pattern: Option<String>, omit_templates: Option<bool>) -> (r: Vec<DbInfo>)
    ensures
        r@ == db_filtered(rows@, effective_pattern(datname_pattern), effective_omit(omit_templates)),
        forall|k: int|
            0 <= k < r@.len() && effective_omit(omit_templates) ==> !r@[k].datistemplate,
{
    let ghost p = effective_pattern(datname_pattern);
    let ghost omit = effective_omit(omit_templates);
    let mut rest = rows;
    let mut out: Vec<DbInfo> = Vec::new();
    let ghost rows0 = rest@;
    let n0: usize = rest.len();
    assert(rows0.len() == n0);
    let mut i: usize = 0;
    while rest.len() > 0
        invariant
            p == effective_pattern(datname_pattern),
            omit == effective_omit(omit_templates),
            i + rest.len() == rows0.len(),
            rows0.len() <= usize::MAX,
            rest@ =~= rows0.skip(i as int),
            out@ =~= db_filtered(rows0.take(i as int), p, omit),
        decreases rest.len(),
    {
        let row = rest.remove(0);
        assert(row == rows0[i as int]);
        let name_ok = match &datname_pattern {
            Option::Some(s) => crate::like::like_match(s.as_str(), row.datname.as_str()),
            Option::None => true,
        };
        proof {
            if datname_pattern is None {
                crate::like::lemma_percent_matches_all(row.datname@);
            }
            assert(name_ok == like_matches(p, row.datname@));
        }
        let template_ok = match &omit_templates {
            Option::Some(b) => !(*b && row.datistemplate),
            Option::None => true,
        };
        let ghost out_before = out@;
        if name_ok && template_ok {
            out.push(row);
        }
        proof {
            assert((name_ok && template_ok) == db_keeps(row, p, omit));
            let t = rows0.take(i + 1);
            assert(t.len() == i + 1);
            assert(t.drop_last() =~= rows0.take(i as int));
            assert(t.last() == rows0[i as int]);
            assert(db_filtered(t, p, omit) == db_filtered(rows0.take(i as int), p, omit) + (
            if db_keeps(row, p, omit) {
                seq![row]
            } else {
                Seq::<DbInfo>::empty()
            }));
            if db_keeps(row, p, omit) {
                assert(out@ =~= out_before.push(row));
                assert(out_before + seq![row] =~= out_before.push(row));
            } else {
                assert(out_before + Seq::<DbInfo>::empty() =~= out_before);
            }
            assert(out@ =~= db_filtered(t, p, omit));
        }
        i = i + 1;
        proof {
            assert(rest@ =~= rows0.skip(i as int));
        }
    }
    proof {
        assert(rows0.take(rows0.len() as int) =~= rows0);
        lemma_db_filtered_keeps(rows0, p, omit);
    }
    out
}

} // verus!
