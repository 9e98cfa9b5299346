//! The schema listing: metadata rows filtered by name pattern and sorted
//! ascending by schema name.

use vstd::multiset::Multiset;
use vstd::prelude::*;

use crate::like::effective_pattern;
use crate::like::like_matches;
use crate::order::lemma_name_le_total;
use crate::order::lemma_name_le_trans;
use crate::order::name_le;
use crate::order::name_le_exec;

verus! {

/// Represents a database schema: one row of the schema metadata view.
/// Every column of that view permits nulls, so every field is optional.
#[derive(Debug, Clone, PartialEq, Eq)]
pub struct Schema {
    /// The name of the catalog.
    pub catalog_name: Option<String>,
    /// The name of the schema.
    pub schema_name: Option<String>,
    /// The owner of the schema.
    pub schema_owner: Option<String>,
    /// The default character set catalog.
    pub default_character_set_catalog: Option<String>,
    /// The default character set schema.
    pub default_character_set_schema: Option<String>,
    /// The default character set name.
    pub default_character_set_name: Option<String>,
    /// The SQL path.
    pub sql_path: Option<String>,
}

/// Whether a metadata row survives the listing's filter: its schema name is
/// present and matches the pattern.  A row without a name matches no
/// pattern, as a null never satisfies a SQL `LIKE` comparison.
pub open spec fn schema_keeps(row: Schema, p: Seq<char>) -> bool {
    match row.schema_name {
        Option::Some(n) => like_matches(p, n@),
        Option::None => false,
    }
}

/// The rows of `rows` that survive the filter, in their original order.
pub open spec fn schema_filtered(rows: Seq<Schema>, p: Seq<char>) -> Seq<Schema>
    decreases rows.len(),
{
    if rows.len() == 0 {
        Seq::empty()
    } else {
        schema_filtered(rows.drop_last(), p) + (if schema_keeps(rows.last(), p) {
            seq![rows.last()]
        } else {
            Seq::empty()
        })
    }
}

/// The listing's order: ascending by schema name, absent names last.
pub open spec fn sorted_by_name(s: Seq<Schema>) -> bool {
    forall|i: int, j: int|
        0 <= i < j < s.len() ==> name_le(s[i].schema_name, s[j].schema_name)
}

/// Every row of a filtered listing passed the filter.
pub proof fn lemma_schema_filtered_keeps(rows: Seq<Schema>, p: Seq<char>)
    ensures
        forall|k: int|
            0 <= k < schema_filtered(rows, p).len() ==> schema_keeps(
                #[trigger] schema_filtered(rows, p)[k],
                p,
            ),
    decreases rows.len(),
{
    if rows.len() > 0 {
        lemma_schema_filtered_keeps(rows.drop_last(), p);
        let f = schema_filtered(rows, p);
        let fp = schema_filtered(rows.drop_last(), p);
        assert forall|k: int| 0 <= k < f.len() implies schema_keeps(f[k], p) by {
            if k < fp.len() {
                assert(f[k] == fp[k]);
            } else {
                assert(schema_keeps(rows.last(), p));
                assert(f[k] == rows.last());
            }
        }
    }
}

/// An unset name pattern filters exactly as the pattern `"%"` does.
pub proof fn lemma_unset_pattern_like_percent(rows: Seq<Schema>, percent: String)
    requires
        percent@ == seq!['%'],
    ensures
        schema_filtered(rows, effective_pattern(Option::None)) == schema_filtered(
            rows,
            effective_pattern(Option::Some(percent)),
        ),
{
}

/// With an unset pattern the listing keeps exactly the rows that have a
/// name: every named row appears, and every listed row is named.
pub proof fn lemma_default_listing_keeps_named(rows: Seq<Schema>)
    ensures
        forall|k: int|
            0 <= k < rows.len() && (#[trigger] rows[k]).schema_name is Some ==> schema_filtered(
                rows,
                effective_pattern(Option::None),
            ).contains(rows[k]),
        forall|k: int|
            0 <= k < schema_filtered(rows, effective_pattern(Option::None)).len() ==> (
            #[trigger] schema_filtered(rows, effective_pattern(Option::None))[k]).schema_name is Some,
    decreases rows.len(),
{
    let p = effective_pattern(Option::None);
    lemma_schema_filtered_keeps(rows, p);
    if rows.len() > 0 {
        lemma_default_listing_keeps_named(rows.drop_last());
        let f = schema_filtered(rows, p);
        let fp = schema_filtered(rows.drop_last(), p);
        assert forall|k: int|
            0 <= k < rows.len() && (#[trigger] rows[k]).schema_name is Some implies f.contains(
            rows[k],
        ) by {
            if k < rows.len() - 1 {
                assert(rows.drop_last()[k] == rows[k]);
                assert(fp.contains(rows[k]));
                let w = choose|w: int| 0 <= w < fp.len() && fp[w] == rows[k];
                assert(f[w] == rows[k]);
                assert(f.contains(rows[k]));
            } else {
                crate::like::lemma_percent_matches_all(rows.last().schema_name->0@);
                assert(schema_keeps(rows.last(), p));
                assert(f[fp.len() as int] == rows.last());
                assert(f.contains(rows[k]));
            }
        }
    }
}

/// For a pattern without wildcard characters the listing holds only rows
/// whose schema name is exactly the pattern, character for character.
pub proof fn lemma_exact_name_listing(rows: Seq<Schema>, p: Seq<char>)
    requires
        !crate::like::has_wildcard(p),
    ensures
        forall|k: int|
            0 <= k < schema_filtered(rows, p).len() ==> ((#[trigger] schema_filtered(rows, p)[k]).schema_name
                matches Option::Some(n) && n@ == p),
{
    lemma_schema_filtered_keeps(rows, p);
    let f = schema_filtered(rows, p);
    assert forall|k: int|
        0 <= k < f.len() implies ((#[trigger] f[k]).schema_name matches Option::Some(n) && n@
        == p) by {
        assert(schema_keeps(f[k], p));
        crate::like::lemma_no_wildcard_exact(p, f[k].schema_name->0@);
    }
}

fn filter_schemas(rows: Vec<Schema>, pattern: &Option<String>) -> (r: Vec<Schema>)
    ensures
        r@ == schema_filtered(rows@, effective_pattern(*pattern)),
{
    let ghost p = effective_pattern(*pattern);
    let mut rest = rows;
    let mut out: Vec<Schema> = Vec::new();
    let ghost rows0 = rest@;
    let n0: usize = rest.len();
    assert(rows0.len() == n0);
    let mut i: usize = 0;
    while rest.len() > 0
        invariant
            p == effective_pattern(*pattern),
            i + rest.len() == rows0.len(),
            rows0.len() <= usize::MAX,
            rest@ =~= rows0.skip(i as int),
            out@ =~= schema_filtered(rows0.take(i as int), p),
        decreases rest.len(),
    {
        let row = rest.remove(0);
        assert(row == rows0[i as int]);
        let keep = match &row.schema_name {
            Option::Some(n) => match pattern {
                Option::Some(s) => crate::like::like_match(s.as_str(), n.as_str()),
                Option::None => true,
            },
            Option::None => false,
        };
        proof {
            if pattern is None && row.schema_name is Some {
                crate::like::lemma_percent_matches_all(row.schema_name->0@);
            }
            assert(keep == schema_keeps(row, p));
        }
        let ghost out_before = out@;
        if keep {
            out.push(row);
        }
        proof {
            let t = rows0.take(i + 1);
            assert(t.len() == i + 1);
            assert(t.drop_last() =~= rows0.take(i as int));
            assert(t.last() == rows0[i as int]);
            assert(schema_filtered(t, p) == schema_filtered(rows0.take(i as int), p) + (
            if schema_keeps(row, p) {
                seq![row]
            } else {
                Seq::<Schema>::empty()
            }));
            if schema_keeps(row, p) {
                assert(out@ =~= out_before.push(row));
                assert(out_before + seq![row] =~= out_before.push(row));
            } else {
                assert(out_before + Seq::<Schema>::empty() =~= out_before);
            }
            assert(out@ =~= schema_filtered(t, p));
        }
        i = i + 1;
        proof {
            assert(rest@ =~= rows0.skip(i as int));
        }
    }
    proof {
        assert(rows0.take(rows0.len() as int) =~= rows0);
    }
    out
}

fn insert_sorted(out: &mut Vec<Schema>, x: Schema)
    requires
        sorted_by_name(old(out)@),
    ensures
        final(out)@.to_multiset() == old(out)@.to_multiset().insert(x),
        sorted_by_name(final(out)@),
{
    let ghost o = out@;
    let mut pos: usize = 0;
    loop
        invariant
            out@ == o,
            pos <= o.len(),
            sorted_by_name(o),
            forall|k: int| 0 <= k < pos ==> name_le(o[k].schema_name, x.schema_name),
        ensures
            out@ == o,
            pos <= o.len(),
            forall|k: int| 0 <= k < pos ==> name_le(o[k].schema_name, x.schema_name),
            pos < o.len() ==> !name_le(o[pos as int].schema_name, x.schema_name),
        decreases o.len() - pos,
    {
        if pos == out.len() {
            break ;
        }
        if !name_le_exec(&out[pos].schema_name, &x.schema_name) {
            break ;
        }
        pos = pos + 1;
    }
    proof {
        o.insert_ensures(pos as int, x);
        vstd::seq_lib::to_multiset_insert(o, pos as int, x);
        if pos < o.len() {
            lemma_name_le_total(o[pos as int].schema_name, x.schema_name);
        }
    }
    out.insert(pos, x);
    proof {
        assert forall|i: int, j: int|
            0 <= i < j < out@.len() implies name_le(out@[i].schema_name, out@[j].schema_name) by {
            if j < pos {
                assert(out@[i] == o[i] && out@[j] == o[j]);
            } else if i < pos && j == pos {
                assert(out@[i] == o[i]);
            } else if i < pos && j > pos {
                assert(out@[i] == o[i] && out@[j] == o[j - 1]);
            } else if i == pos && j > pos {
                assert(out@[j] == o[j - 1]);
                assert(name_le(x.schema_name, o[pos as int].schema_name));
                if j - 1 > pos {
                    lemma_name_le_trans(
                        x.schema_name,
                        o[pos as int].schema_name,
                        o[j - 1].schema_name,
                    );
                }
            } else {
                assert(out@[i] == o[i - 1] && out@[j] == o[j - 1]);
            }
        }
    }
}

fn sort_schemas(rows: Vec<Schema>) -> (r: Vec<Schema>)
    ensures
        r@.to_multiset() == rows@.to_multiset(),
        sorted_by_name(r@),
{
    broadcast use vstd::multiset::group_multiset_axioms;
    broadcast use vstd::multiset::lemma_multiset_empty_len;

    let mut rest = rows;
    let mut out: Vec<Schema> = Vec::new();
    let ghost rows0 = rest@;
    proof {
        vstd::seq_lib::to_multiset_len(out@);
        assert(out@.to_multiset().add(rest@.to_multiset()) =~= rest@.to_multiset());
    }
    while rest.len() > 0
        invariant
            out@.to_multiset().add(rest@.to_multiset()) =~= rows0.to_multiset(),
            sorted_by_name(out@),
        decreases rest.len(),
    {
        let ghost before = rest@;
        let x_opt = rest.pop();
        let x = x_opt.unwrap();
        proof {
            let n = before.len() - 1;
            vstd::seq_lib::to_multiset_remove(before, n);
            vstd::seq_lib::to_multiset_contains(before, x);
            assert(before.contains(x)) by {
                assert(before[n] == x);
            }
            assert(rest@ =~= before.remove(n));
            assert(rest@.to_multiset() == before.to_multiset().remove(x));
        }
        let ghost out_before = out@;
        insert_sorted(&mut out, x);
        proof {
            assert(out@.to_multiset() == out_before.to_multiset().insert(x));
            assert(out@.to_multiset().add(rest@.to_multiset()) =~= rows0.to_multiset());
        }
    }
    proof {
        vstd::seq_lib::to_multiset_len(rest@);
        assert(rest@.to_multiset() =~= Multiset::<Schema>::empty());
        assert(out@.to_multiset() =~= rows0.to_multiset());
    }
    out
}

/// The schema listing: the rows whose name matches the pattern, sorted
/// ascending by schema name.  An absent pattern stands for `"%"`.  The
/// result holds exactly the matching rows, each as often as it occurs in
/// the input.
pub fn get_schemas(rows: Vec<Schema>, schema_name_pattern: Option<String>) -> (r: Vec<Schema>)
    ensures
        r@.to_multiset() == schema_filtered(
            rows@,
            effective_pattern(schema_name_pattern),
        ).to_multiset(),
        sorted_by_name(r@),
{
    let kept = filter_schemas(rows, &schema_name_pattern);
    sort_schemas(kept)
}

} // verus!
