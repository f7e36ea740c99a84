//! The computational half of record ingestion: selecting and joining the
//! configured identifier columns of a record, and grouping parsed records
//! by identifier while preserving first-seen group order and record order
//! within each group. Reading the table and parsing the numeric fields
//! stay with the caller.

use vstd::prelude::*;
use vstd::string::StringExecFns;

use crate::geometry::Unit;

verus! {

/// The image of a record list: each record's identifier and unit.
pub open spec fn view_of_records(records: Seq<(String, Unit)>) -> Seq<(Seq<char>, Unit)> {
    records.map_values(|p: (String, Unit)| (p.0@, p.1))
}

/// The image of a group list: each identifier and its unit sequence.
pub open spec fn view_of_groups(groups: Seq<(String, Vec<Unit>)>) -> Seq<(Seq<char>, Seq<Unit>)> {
    groups.map_values(|p: (String, Vec<Unit>)| (p.0@, p.1@))
}

/// The index of the group that carries `key`; `groups.len()` when none
/// does.
pub open spec fn group_index(groups: Seq<(Seq<char>, Seq<Unit>)>, key: Seq<char>) -> int
    decreases groups.len(),
{
    if groups.len() == 0 {
        0
    } else if groups[0].0 == key {
        0
    } else {
        1 + group_index(groups.drop_first(), key)
    }
}

/// One record enters the grouping: appended to its identifier's group, or
/// opening a new group at the end.
pub open spec fn add_grouped(
    groups: Seq<(Seq<char>, Seq<Unit>)>,
    key: Seq<char>,
    u: Unit,
) -> Seq<(Seq<char>, Seq<Unit>)> {
    let i = group_index(groups, key);
    if i < groups.len() {
        groups.update(i, (groups[i].0, groups[i].1.push(u)))
    } else {
        groups.push((key, seq![u]))
    }
}

/// The grouping of a whole record list, in record order.
pub open spec fn groups_of(records: Seq<(Seq<char>, Unit)>) -> Seq<(Seq<char>, Seq<Unit>)>
    decreases records.len(),
{
    if records.len() == 0 {
        Seq::empty()
    } else {
        add_grouped(groups_of(records.drop_last()), records.last().0, records.last().1)
    }
}

/// What `group_index` returns: an index no larger than the length, every
/// earlier group under another key, and the indexed group under `key`
/// when the index is in range.
pub proof fn lemma_group_index_props(groups: Seq<(Seq<char>, Seq<Unit>)>, key: Seq<char>)
    ensures
        0 <= group_index(groups, key) <= groups.len(),
        forall|j: int| 0 <= j < group_index(groups, key) ==> groups[j].0 != key,
        group_index(groups, key) < groups.len() ==> groups[group_index(groups, key)].0 == key,
    decreases groups.len(),
{
    if groups.len() == 0 {
    } else if groups[0].0 == key {
    } else {
        lemma_group_index_props(groups.drop_first(), key);
        let gi = group_index(groups, key);
        assert forall|j: int| 0 <= j < gi implies groups[j].0 != key by {
            if j > 0 {
                assert(groups.drop_first()[j - 1] == groups[j]);
            }
        }
        if gi < groups.len() {
            assert(groups.drop_first()[gi - 1] == groups[gi]);
        }
    }
}

/// An index with the properties of `group_index` is `group_index`.
pub proof fn lemma_group_index_is(groups: Seq<(Seq<char>, Seq<Unit>)>, key: Seq<char>, j: int)
    requires
        0 <= j <= groups.len(),
        forall|k: int| 0 <= k < j ==> groups[k].0 != key,
        j < groups.len() ==> groups[j].0 == key,
    ensures
        group_index(groups, key) == j,
{
    lemma_group_index_props(groups, key);
    let gi = group_index(groups, key);
    if gi < j {
        assert(groups[gi].0 == key);
        assert(false);
    } else if j < gi {
        assert(groups[j].0 != key);
        assert(false);
    }
}

/// Groups `records` by identifier: groups appear in the order their
/// identifiers are first seen, and each group's units keep record order.
pub fn group_records(records: &Vec<(String, Unit)>) -> (r: Vec<(String, Vec<Unit>)>)
    ensures
        view_of_groups(r@) == groups_of(view_of_records(records@)),
{
    let mut out: Vec<(String, Vec<Unit>)> = Vec::new();
    let mut i: usize = 0;
    while i < records.len()
        invariant
            i <= records@.len(),
            view_of_groups(out@) =~= groups_of(view_of_records(records@).take(i as int)),
        decreases records@.len() - i,
    {
        let ghost pre = out@;
        let ghost prev = view_of_groups(out@);
        let ghost key = records@[i as int].0@;
        let ghost u = records@[i as int].1;

        let mut j: usize = 0;
        let mut found: bool = false;
        while j < out.len()
            invariant_except_break
                !found,
                j <= out.len(),
                out@ == pre,
                prev == view_of_groups(pre),
                i < records@.len(),
                key == records@[i as int].0@,
                forall|k: int| 0 <= k < j ==> prev[k].0 != key,
            ensures
                out@ == pre,
                found ==> j < pre.len() && prev[j as int].0 == key && forall|k: int|
                    0 <= k < j ==> prev[k].0 != key,
                !found ==> j == pre.len() && forall|k: int|
                    0 <= k < pre.len() ==> prev[k].0 != key,
            decreases out.len() - j,
        {
            let same = out[j].0 == records[i].0;
            proof {
                assert(prev[j as int].0 == pre[j as int].0@);
            }
            if same {
                found = true;
                break ;
            }
            j = j + 1;
        }

        if found {
            proof {
                lemma_group_index_is(prev, key, j as int);
            }
            let mut entry = out.remove(j);
            entry.1.push(records[i].1);
            out.insert(j, entry);
            proof {
                assert(out@ =~= pre.update(j as int, (pre[j as int].0, entry.1)));
                assert(view_of_groups(out@) =~= prev.update(
                    j as int,
                    (prev[j as int].0, prev[j as int].1.push(u)),
                ));
            }
        } else {
            proof {
                lemma_group_index_is(prev, key, prev.len() as int);
            }
            let identifier: String = records[i].0.clone();
            let mut units: Vec<Unit> = Vec::new();
            units.push(records[i].1);
            out.push((identifier, units));
            proof {
                assert(view_of_groups(out@) =~= prev.push((key, seq![u])));
            }
        }
        proof {
            assert(view_of_records(records@).take(i as int + 1).drop_last() =~= view_of_records(
                records@,
            ).take(i as int));
            assert(view_of_records(records@).take(i as int + 1).last() == (key, u));
            assert(view_of_groups(out@) =~= add_grouped(prev, key, u));
        }
        i = i + 1;
    }
    proof {
        assert(view_of_records(records@).take(records@.len() as int) =~= view_of_records(
            records@,
        ));
    }
    out
}

/// The configured identifier fields of one record: the 1-based columns
/// that fall inside the record, in the configured order; columns outside
/// the record are passed over.
pub open spec fn selected_fields(record: Seq<Seq<char>>, columns: Seq<usize>) -> Seq<Seq<char>>
    decreases columns.len(),
{
    if columns.len() == 0 {
        Seq::empty()
    } else {
        let rest = selected_fields(record, columns.drop_last());
        let c = columns.last();
        if 1 <= c && c - 1 < record.len() {
            rest.push(record[c - 1])
        } else {
            rest
        }
    }
}

/// The fields joined with a comma between neighbours.
pub open spec fn joined(fields: Seq<Seq<char>>) -> Seq<char>
    decreases fields.len(),
{
    if fields.len() == 0 {
        Seq::empty()
    } else if fields.len() == 1 {
        fields[0]
    } else {
        joined(fields.drop_last()) + seq![','] + fields.last()
    }
}

/// Builds a record's identifier: the configured columns' fields, joined
/// with commas.
pub fn select_identifier(record: &Vec<String>, columns: &Vec<usize>) -> (r: String)
    ensures
        r@ == joined(selected_fields(record@.map_values(|f: String| f@), columns@)),
{
    let ghost rv = record@.map_values(|f: String| f@);
    let mut out: String = String::new();
    let mut any: bool = false;
    let mut i: usize = 0;
    while i < columns.len()
        invariant
            i <= columns@.len(),
            rv == record@.map_values(|f: String| f@),
            any <==> selected_fields(rv, columns@.take(i as int)).len() > 0,
            out@ =~= joined(selected_fields(rv, columns@.take(i as int))),
        decreases columns@.len() - i,
    {
        let ghost sel_pre = selected_fields(rv, columns@.take(i as int));
        let c = columns[i];
        if 1 <= c && c - 1 < record.len() {
            let ghost f = rv[c as int - 1];
            proof {
                assert(f == record@[c as int - 1]@);
            }
            if any {
                out.append(",");
                out.append(record[c - 1].as_str());
                proof {
                    reveal_strlit(",");
                    assert(","@ =~= seq![',']);
                    assert(out@ =~= joined(sel_pre) + seq![','] + f);
                    assert(sel_pre.push(f).drop_last() =~= sel_pre);
                    assert(sel_pre.push(f).last() == f);
                    assert(sel_pre.push(f).len() >= 2);
                    assert(out@ =~= joined(sel_pre.push(f)));
                }
            } else {
                out.append(record[c - 1].as_str());
                any = true;
                proof {
                    assert(out@ =~= f);
                    assert(sel_pre.push(f)[0] == f);
                    assert(out@ =~= joined(sel_pre.push(f)));
                }
            }
        }
        proof {
            assert(columns@.take(i as int + 1).drop_last() =~= columns@.take(i as int));
            assert(columns@.take(i as int + 1).last() == columns@[i as int]);
            assert(out@ =~= joined(selected_fields(rv, columns@.take(i as int + 1))));
        }
        i = i + 1;
    }
    proof {
        assert(columns@.take(columns@.len() as int) =~= columns@);
    }
    out
}

} // verus!
