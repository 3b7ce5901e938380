//! Rows of a result: insertion-ordered maps from column names to dynamic
//! values.

use crate::codec::{decode_of, to_json, Cell, CellView};
use crate::error::DbError;
use crate::value::{Dynamic, DynamicView};
use indexmap::IndexMap;
use vstd::prelude::*;

verus! {

/// The insertion-ordered map of indexmap, which holds a row.
#[verifier::external_type_specification]
#[verifier::external_body]
#[verifier::reject_recursive_types(K)]
#[verifier::reject_recursive_types(V)]
#[verifier::reject_recursive_types(S)]
pub struct ExIndexMap<K, V, S>(IndexMap<K, V, S>);

/// A row of a result: its columns by name, in the order of the result set.
pub type Row = IndexMap<String, Dynamic>;

/// The entries of a row, first column first.
pub type Entries = Seq<(Seq<char>, DynamicView)>;

/// The entries that a row holds, in its order.
pub uninterp spec fn row_entries(row: IndexMap<String, Dynamic>) -> Entries;

/// The entries after a value is stored under a name: the first entry of
/// that name keeps its place and takes the value; where there is none, the
/// entry is added at the end.
pub open spec fn upsert(entries: Entries, name: Seq<char>, value: DynamicView) -> Entries
    decreases entries.len(),
{
    if entries.len() == 0 {
        seq![(name, value)]
    } else if entries[0].0 == name {
        seq![(name, value)] + entries.drop_first()
    } else {
        seq![entries[0]] + upsert(entries.drop_first(), name, value)
    }
}

/// `IndexMap::default` of indexmap: a map without entries.
#[verifier::external_body]
fn row_new() -> (row: IndexMap<String, Dynamic>)
    ensures
        row_entries(row) == Seq::<(Seq<char>, DynamicView)>::empty(),
{
    IndexMap::default()
}

/// `IndexMap::insert` of indexmap. Where an equal key is in the map, the
/// key keeps its place in the order and its value is replaced; where none
/// is, the pair is added last.
#[verifier::external_body]
fn row_insert(row: &mut IndexMap<String, Dynamic>, name: String, value: Dynamic)
    ensures
        row_entries(*final(row)) == upsert(row_entries(*old(row)), name@, value@),
{
    row.insert(name, value);
}

/// The columns of a row with their texts and bytes as sequences.
pub open spec fn column_views(columns: Seq<(String, Cell)>) -> Seq<(Seq<char>, CellView)> {
    Seq::new(columns.len(), |i: int| (columns[i].0@, columns[i].1@))
}

/// The row that a list of columns decodes to, or the name of the type of
/// its first cell that cannot be decoded. Of two columns of one name the
/// later one gives the value.
pub open spec fn row_of(columns: Seq<(Seq<char>, CellView)>) -> Result<Entries, Seq<char>>
    decreases columns.len(),
{
    if columns.len() == 0 {
        Ok(Seq::empty())
    } else {
        match row_of(columns.drop_last()) {
            Err(name) => Err(name),
            Ok(entries) => match decode_of(columns.last().1) {
                Err(name) => Err(name),
                Ok(value) => Ok(upsert(entries, columns.last().0, value)),
            },
        }
    }
}

/// The rows of a result with their texts and bytes as sequences.
pub open spec fn row_views(rows: Seq<Vec<(String, Cell)>>) -> Seq<Seq<(Seq<char>, CellView)>> {
    Seq::new(rows.len(), |i: int| column_views(rows[i]@))
}

/// The rows that a result decodes to, or the name of the type of its first
/// cell, row by row, that cannot be decoded.
pub open spec fn rows_of(rows: Seq<Seq<(Seq<char>, CellView)>>) -> Result<Seq<Entries>, Seq<char>>
    decreases rows.len(),
{
    if rows.len() == 0 {
        Ok(Seq::empty())
    } else {
        match rows_of(rows.drop_last()) {
            Err(name) => Err(name),
            Ok(decoded) => match row_of(rows.last()) {
                Err(name) => Err(name),
                Ok(entries) => Ok(decoded.push(entries)),
            },
        }
    }
}

/// The entries of each row of a list.
pub open spec fn entries_of(rows: Seq<IndexMap<String, Dynamic>>) -> Seq<Entries> {
    Seq::new(rows.len(), |i: int| row_entries(rows[i]))
}

/// The names of the entries of a row, in their order.
pub open spec fn entry_names(entries: Entries) -> Seq<Seq<char>> {
    Seq::new(entries.len(), |i: int| entries[i].0)
}

/// Storing under a name that no entry has adds the entry at the end.
pub proof fn lemma_upsert_new_name(entries: Entries, name: Seq<char>, value: DynamicView)
    requires
        !entry_names(entries).contains(name),
    ensures
        upsert(entries, name, value) == entries.push((name, value)),
    decreases entries.len(),
{
    if entries.len() == 0 {
        assert(upsert(entries, name, value) =~= entries.push((name, value)));
    } else {
        let rest = entries.drop_first();
        assert(entry_names(entries)[0] == entries[0].0);
        assert forall|i: int| 0 <= i < rest.len() implies entry_names(rest)[i] != name by {
            assert(entry_names(entries)[i + 1] == rest[i].0);
        }
        lemma_upsert_new_name(rest, name, value);
        assert(seq![entries[0]] + rest.push((name, value)) =~= entries.push((name, value)));
    }
}

/// Storing under a name keeps the names of the entries and their order; a
/// name that no entry has is added at the end.
pub proof fn lemma_upsert_names(entries: Entries, name: Seq<char>, value: DynamicView)
    ensures
        entry_names(upsert(entries, name, value)) == if entry_names(entries).contains(name) {
            entry_names(entries)
        } else {
            entry_names(entries).push(name)
        },
    decreases entries.len(),
{
    let names = entry_names(entries);
    let after = upsert(entries, name, value);
    if entries.len() == 0 {
        assert(entry_names(after) =~= names.push(name));
    } else if entries[0].0 == name {
        assert(names[0] == name);
        assert(entry_names(after) =~= names);
    } else {
        let rest = entries.drop_first();
        let stored = upsert(rest, name, value);
        lemma_upsert_names(rest, name, value);
        assert(entry_names(rest) =~= names.drop_first());
        assert(names[0] == entries[0].0);
        assert(after == seq![entries[0]] + stored);
        assert(entry_names(after) =~= seq![entries[0].0] + entry_names(stored));
        if entry_names(rest).contains(name) {
            let i = choose|i: int| 0 <= i < rest.len() && entry_names(rest)[i] == name;
            assert(names[i + 1] == name);
            assert(entry_names(after) =~= names);
        } else {
            assert forall|i: int| 0 <= i < names.len() implies names[i] != name by {
                if i > 0 {
                    assert(entry_names(rest)[i - 1] == names[i]);
                }
            }
            assert(entry_names(after) =~= names.push(name));
        }
    }
}

/// A row holds every name once.
pub proof fn lemma_row_names_unique(columns: Seq<(Seq<char>, CellView)>)
    requires
        row_of(columns) is Ok,
    ensures
        entry_names(row_of(columns)->Ok_0).no_duplicates(),
    decreases columns.len(),
{
    if columns.len() > 0 {
        let before = row_of(columns.drop_last())->Ok_0;
        let value = decode_of(columns.last().1)->Ok_0;
        lemma_row_names_unique(columns.drop_last());
        lemma_upsert_names(before, columns.last().0, value);
    }
}

/// Storing under a name, in entries that hold every name once, changes
/// the entry of that name and no other.
pub proof fn lemma_upsert_entries(entries: Entries, name: Seq<char>, value: DynamicView)
    requires
        entry_names(entries).no_duplicates(),
    ensures
        upsert(entries, name, value).len() >= entries.len(),
        forall|i: int|
            0 <= i < entries.len() ==> (#[trigger] upsert(entries, name, value)[i]) == if entries[i].0
                == name {
                (name, value)
            } else {
                entries[i]
            },
        !entry_names(entries).contains(name) ==> upsert(entries, name, value).last() == (
            name,
            value,
        ),
    decreases entries.len(),
{
    let names = entry_names(entries);
    let after = upsert(entries, name, value);
    if entries.len() > 0 {
        let rest = entries.drop_first();
        assert forall|i: int, j: int|
            0 <= i < rest.len() && 0 <= j < rest.len() && i != j implies entry_names(rest)[i]
            != entry_names(rest)[j] by {
            assert(names[i + 1] == entry_names(rest)[i]);
            assert(names[j + 1] == entry_names(rest)[j]);
        }
        if entries[0].0 == name {
            assert(names[0] == name);
            assert forall|i: int| 0 < i < entries.len() implies entries[i].0 != name by {
                assert(names[0] == name && names[i] == entries[i].0);
            }
        } else {
            lemma_upsert_entries(rest, name, value);
            let stored = upsert(rest, name, value);
            assert forall|i: int| 0 <= i < entries.len() implies (#[trigger] after[i])
                == if entries[i].0 == name {
                (name, value)
            } else {
                entries[i]
            } by {
                if i > 0 {
                    assert(after[i] == stored[i - 1]);
                    assert(rest[i - 1] == entries[i]);
                }
            }
            if !names.contains(name) {
                assert forall|i: int| 0 <= i < rest.len() implies entry_names(rest)[i] != name by {
                    assert(names[i + 1] == entry_names(rest)[i]);
                }
                assert(after.last() == stored.last());
            }
        }
    } else {
        assert(after.last() == (name, value));
    }
}

/// Of the columns of one name the last one gives the value: the row holds
/// its name with its decoded cell.
pub proof fn lemma_row_last_wins(columns: Seq<(Seq<char>, CellView)>, k: int)
    requires
        row_of(columns) is Ok,
        0 <= k < columns.len(),
        forall|j: int| k < j < columns.len() ==> columns[j].0 != columns[k].0,
    ensures
        row_of(columns)->Ok_0.contains((columns[k].0, decode_of(columns[k].1)->Ok_0)),
    decreases columns.len(),
{
    let init = columns.drop_last();
    let before = row_of(init)->Ok_0;
    let last = columns.last();
    let value = decode_of(last.1)->Ok_0;
    let after = row_of(columns)->Ok_0;
    lemma_row_names_unique(init);
    lemma_upsert_entries(before, last.0, value);
    if k == columns.len() - 1 {
        if entry_names(before).contains(last.0) {
            let i = choose|i: int| 0 <= i < before.len() && entry_names(before)[i] == last.0;
            assert(after[i] == (last.0, value));
        } else {
            assert(after[after.len() - 1] == (last.0, value));
        }
    } else {
        assert forall|j: int| k < j < init.len() implies init[j].0 != init[k].0 by {
            assert(columns[j].0 != columns[k].0);
        }
        lemma_row_last_wins(init, k);
        let kept = (columns[k].0, decode_of(columns[k].1)->Ok_0);
        let i = choose|i: int| 0 <= i < before.len() && before[i] == kept;
        assert(after[i] == kept);
    }
}

/// Where no two columns have the same name, the row holds the columns one
/// by one: each name with its decoded cell, in the order of the columns.
pub proof fn lemma_row_keeps_order(columns: Seq<(Seq<char>, CellView)>)
    requires
        row_of(columns) is Ok,
        forall|i: int, j: int| 0 <= i < j < columns.len() ==> columns[i].0 != columns[j].0,
    ensures
        row_of(columns)->Ok_0.len() == columns.len(),
        forall|i: int|
            0 <= i < columns.len() ==> (#[trigger] row_of(columns)->Ok_0[i]) == (
                columns[i].0,
                decode_of(columns[i].1)->Ok_0,
            ),
    decreases columns.len(),
{
    if columns.len() > 0 {
        let init = columns.drop_last();
        let before = row_of(init)->Ok_0;
        let value = decode_of(columns.last().1)->Ok_0;
        lemma_row_keeps_order(init);
        assert forall|i: int| 0 <= i < before.len() implies entry_names(before)[i]
            != columns.last().0 by {
            assert(before[i].0 == columns[i].0);
        }
        lemma_upsert_new_name(before, columns.last().0, value);
    }
}

/// Once a prefix of the columns fails to decode, so does the whole row,
/// with the same name.
proof fn lemma_row_error_stays(columns: Seq<(Seq<char>, CellView)>, upto: int)
    requires
        0 <= upto <= columns.len(),
        row_of(columns.take(upto)) is Err,
    ensures
        row_of(columns) == row_of(columns.take(upto)),
    decreases columns.len() - upto,
{
    if upto < columns.len() {
        let next = columns.take(upto + 1);
        assert(next.drop_last() =~= columns.take(upto));
        lemma_row_error_stays(columns, upto + 1);
    } else {
        assert(columns.take(upto) =~= columns);
    }
}

/// Once a prefix of the rows fails to decode, so does the whole result,
/// with the same name.
proof fn lemma_rows_error_stays(rows: Seq<Seq<(Seq<char>, CellView)>>, upto: int)
    requires
        0 <= upto <= rows.len(),
        rows_of(rows.take(upto)) is Err,
    ensures
        rows_of(rows) == rows_of(rows.take(upto)),
    decreases rows.len() - upto,
{
    if upto < rows.len() {
        let next = rows.take(upto + 1);
        assert(next.drop_last() =~= rows.take(upto));
        lemma_rows_error_stays(rows, upto + 1);
    } else {
        assert(rows.take(upto) =~= rows);
    }
}

/// Decodes the columns of one row, in their order.
pub fn decode_row(columns: Vec<(String, Cell)>) -> (r: Result<Row, DbError>)
    ensures
        match r {
            Ok(row) => row_of(column_views(columns@)) == Ok::<Entries, Seq<char>>(row_entries(row)),
            Err(e) => row_of(column_views(columns@)) matches Err(name) && e.unsupported(name),
        },
{
    let ghost all = column_views(columns@);
    let mut row = row_new();
    for column in it: columns
        invariant
            it.seq() == columns@,
            all == column_views(columns@),
            row_of(all.take(it.index() as int)) == Ok::<Entries, Seq<char>>(row_entries(row)),
    {
        let ghost at = it.index() as int;
        let ghost next = all.take(at + 1);
        assert(next.drop_last() =~= all.take(at));
        assert(next.last() == (column.0@, column.1@));
        let (name, cell) = column;
        match to_json(cell) {
            Ok(value) => {
                row_insert(&mut row, name, value);
            },
            Err(e) => {
                proof {
                    lemma_row_error_stays(all, at + 1);
                }
                return Err(e);
            },
        }
    }
    assert(all.take(columns@.len() as int) =~= all);
    Ok(row)
}

/// Decodes the rows of a result, in their order. The first cell that
/// cannot be decoded fails the whole result; a result without rows decodes
/// to no rows.
pub fn decode_rows(rows: Vec<Vec<(String, Cell)>>) -> (r: Result<Vec<Row>, DbError>)
    ensures
        match r {
            Ok(decoded) => rows_of(row_views(rows@)) == Ok::<Seq<Entries>, Seq<char>>(
                entries_of(decoded@),
            ) && decoded@.len() == rows@.len(),
            Err(e) => rows_of(row_views(rows@)) matches Err(name) && e.unsupported(name),
        },
        rows@.len() == 0 ==> r is Ok,
{
    let ghost all = row_views(rows@);
    let mut decoded: Vec<Row> = Vec::new();
    assert(entries_of(decoded@) =~= Seq::empty());
    for columns in it: rows
        invariant
            it.seq() == rows@,
            all == row_views(rows@),
            decoded@.len() == it.index(),
            rows_of(all.take(it.index() as int)) == Ok::<Seq<Entries>, Seq<char>>(
                entries_of(decoded@),
            ),
    {
        let ghost at = it.index() as int;
        let ghost next = all.take(at + 1);
        let ghost before = entries_of(decoded@);
        assert(next.drop_last() =~= all.take(at));
        assert(next.last() == column_views(columns@));
        match decode_row(columns) {
            Ok(row) => {
                decoded.push(row);
                assert(entries_of(decoded@) =~= before.push(row_entries(row)));
            },
            Err(e) => {
                proof {
                    lemma_rows_error_stays(all, at + 1);
                }
                return Err(e);
            },
        }
    }
    assert(all.take(rows@.len() as int) =~= all);
    Ok(decoded)
}

} // verus!
