//! Indexes: dropping, creating and renaming as the difference says turns
//! the indexes of the one table into the indexes of the other.

use crate::replay::content::{
    apply_index_creates, apply_index_drops, apply_index_renames, indexes_by_name, renamed,
};
use crate::schema::{IndexView, TableView};
use crate::search::{
    is_first_where, lemma_first_where, lemma_first_where_found, lemma_first_where_none,
};
use crate::sql_migration::{AlterIndexView, CreateIndexView, DropIndexView};
use crate::sql_schema_differ::{
    counterpart, first_unmatched_like, index_named, is_unmatched, table_created_indexes,
    table_dropped_indexes, table_renamed_indexes,
};
use vstd::prelude::*;

verus! {

/// No two of the indexes have the same name.
pub open spec fn distinct_index_names(indexes: Seq<IndexView>) -> bool {
    forall|i: int, j: int|
        0 <= i < j < indexes.len() ==> (#[trigger] indexes[i]).name != (#[trigger] indexes[j]).name
}

/// Where the index called `name` stands among indexes with distinct names.
pub proof fn lemma_index_position(indexes: Seq<IndexView>, name: Seq<char>)
    requires
        distinct_index_names(indexes),
    ensures
        match index_named(indexes, name) {
            Some(i) => 0 <= i < indexes.len() && indexes[i].name == name && forall|j: int|
                0 <= j < indexes.len() && j != i ==> (#[trigger] indexes[j]).name != name,
            None => forall|j: int| 0 <= j < indexes.len() ==> (#[trigger] indexes[j]).name != name,
        },
{
    let p = |x: IndexView| x.name == name;
    lemma_first_where(indexes, p);
    match index_named(indexes, name) {
        Some(i) => {
            assert forall|j: int| 0 <= j < indexes.len() && j != i implies (
            #[trigger] indexes[j]).name != name by {
                if j < i {
                    assert(!p(indexes[j]));
                } else {
                    assert(indexes[i].name != indexes[j].name);
                }
            }
        },
        None => {
            assert forall|j: int| 0 <= j < indexes.len() implies (#[trigger] indexes[j]).name
                != name by {
                assert(!p(indexes[j]));
            }
        },
    }
}

/// An index stands at the place where its name is found.
pub proof fn lemma_index_found(indexes: Seq<IndexView>, i: int)
    requires
        distinct_index_names(indexes),
        0 <= i < indexes.len(),
    ensures
        index_named(indexes, indexes[i].name) == Some(i),
{
    lemma_index_position(indexes, indexes[i].name);
    let p = |x: IndexView| x.name == indexes[i].name;
    assert(p(indexes[i]));
    lemma_first_where(indexes, p);
}

/// An index and its counterpart have the same definition, neither has a
/// namesake on the other side, and each is the counterpart of the other.
pub proof fn lemma_counterpart(list: Seq<IndexView>, other: Seq<IndexView>, i: int)
    requires
        0 <= i < list.len(),
        counterpart(list, other, i) is Some,
    ensures
        ({
            let j = counterpart(list, other, i)->Some_0;
            &&& 0 <= j < other.len()
            &&& list[i].same_definition(other[j])
            &&& index_named(other, list[i].name) is None
            &&& index_named(list, other[j].name) is None
            &&& counterpart(other, list, j) == Some(i)
        }),
{
    let j = counterpart(list, other, i)->Some_0;
    let like = list[i];
    let in_list = |x: IndexView| index_named(other, x.name) is None && x.same_definition(like);
    let in_other = |x: IndexView| index_named(list, x.name) is None && x.same_definition(like);
    lemma_first_where(list, in_list);
    lemma_first_where(other, in_other);
    assert(first_unmatched_like(list, other, like) == Some(i));
    assert(first_unmatched_like(other, list, like) == Some(j));
    assert(is_first_where(list, in_list, i));
    assert(is_first_where(other, in_other, j));
    let back = other[j];
    let back_in_other = |x: IndexView| index_named(list, x.name) is None && x.same_definition(back);
    let back_in_list = |x: IndexView| index_named(other, x.name) is None && x.same_definition(back);
    assert(is_first_where(other, back_in_other, j)) by {
        assert forall|a: int| 0 <= a < j implies !back_in_other(#[trigger] other[a]) by {
            assert(!in_other(other[a]));
        }
    }
    lemma_first_where_found(other, back_in_other, j);
    assert(is_first_where(list, back_in_list, i)) by {
        assert forall|a: int| 0 <= a < i implies !back_in_list(#[trigger] list[a]) by {
            assert(!in_list(list[a]));
        }
    }
    lemma_first_where_found(list, back_in_list, i);
}

/// The drops among the first `n` indexes remove the index called `name`
/// exactly if it is one of them and unmatched.
pub proof fn lemma_index_drops_at(
    indexes: Map<Seq<char>, IndexView>,
    table: Seq<char>,
    previous: Seq<IndexView>,
    next: Seq<IndexView>,
    name: Seq<char>,
    n: int,
)
    requires
        distinct_index_names(previous),
        0 <= n <= previous.len(),
    ensures
        apply_index_drops(indexes, table_dropped_indexes(table, previous, next, n)).get(name)
            == match index_named(previous, name) {
            Some(i) => if i < n && is_unmatched(previous, next, i) {
                None
            } else {
                indexes.get(name)
            },
            None => indexes.get(name),
        },
    decreases n,
{
    lemma_index_position(previous, name);
    if n > 0 {
        lemma_index_drops_at(indexes, table, previous, next, name, n - 1);
        let rest = table_dropped_indexes(table, previous, next, n - 1);
        if is_unmatched(previous, next, n - 1) {
            let drop = DropIndexView { table, name: previous[n - 1].name };
            assert(rest.push(drop).drop_last() =~= rest);
        }
    }
}

/// The creations among the first `n` indexes of the table put the index
/// called `name` there exactly if it is one of them and unmatched.
pub proof fn lemma_index_creates_at(
    indexes: Map<Seq<char>, IndexView>,
    table: TableView,
    previous: Seq<IndexView>,
    name: Seq<char>,
    n: int,
)
    requires
        distinct_index_names(table.indices),
        0 <= n <= table.indices.len(),
    ensures
        apply_index_creates(indexes, table_created_indexes(table, previous, n)).get(name)
            == match index_named(table.indices, name) {
            Some(j) => if j < n && is_unmatched(table.indices, previous, j) {
                Some(table.indices[j])
            } else {
                indexes.get(name)
            },
            None => indexes.get(name),
        },
    decreases n,
{
    lemma_index_position(table.indices, name);
    if n > 0 {
        lemma_index_creates_at(indexes, table, previous, name, n - 1);
        let rest = table_created_indexes(table, previous, n - 1);
        if is_unmatched(table.indices, previous, n - 1) {
            let create = CreateIndexView { table, index: table.indices[n - 1] };
            assert(rest.push(create).drop_last() =~= rest);
        }
    }
}

/// What the renamings of the first `n` indexes make of the index called `name`.
pub open spec fn renamed_at(
    before: Option<IndexView>,
    previous: Seq<IndexView>,
    next: Seq<IndexView>,
    name: Seq<char>,
    n: int,
) -> Option<IndexView> {
    if index_named(next, name) is Some && counterpart(
        next,
        previous,
        index_named(next, name)->Some_0,
    ) is Some && counterpart(next, previous, index_named(next, name)->Some_0)->Some_0 < n {
        Some(next[index_named(next, name)->Some_0])
    } else if index_named(previous, name) is Some && index_named(previous, name)->Some_0 < n
        && counterpart(previous, next, index_named(previous, name)->Some_0) is Some {
        None
    } else {
        before
    }
}

/// What the renamings of the first `n` indexes make of every index, where
/// each index that has a counterpart is still there under its name.
pub proof fn lemma_index_renames_at(
    indexes: Map<Seq<char>, IndexView>,
    table: Seq<char>,
    previous: Seq<IndexView>,
    next: Seq<IndexView>,
    n: int,
)
    requires
        distinct_index_names(previous),
        distinct_index_names(next),
        0 <= n <= previous.len(),
        forall|i: int|
            0 <= i < previous.len() && counterpart(previous, next, i) is Some ==> indexes.get(
                (#[trigger] previous[i]).name,
            ) == Some(previous[i]),
    ensures
        forall|name: Seq<char>|
            #[trigger] apply_index_renames(
                indexes,
                table_renamed_indexes(table, previous, next, n),
            ).get(name) == renamed_at(indexes.get(name), previous, next, name, n),
    decreases n,
{
    let result = apply_index_renames(indexes, table_renamed_indexes(table, previous, next, n));
    if n == 0 {
        assert forall|name: Seq<char>| #[trigger]
            result.get(name) == renamed_at(indexes.get(name), previous, next, name, n) by {
            lemma_index_position(next, name);
            if index_named(next, name) is Some {
                let j = index_named(next, name)->Some_0;
                if counterpart(next, previous, j) is Some {
                    lemma_counterpart(next, previous, j);
                }
            }
        }
    } else {
        lemma_index_renames_at(indexes, table, previous, next, n - 1);
        let rest = table_renamed_indexes(table, previous, next, n - 1);
        let before = apply_index_renames(indexes, rest);
        let source = previous[n - 1];
        lemma_index_found(previous, n - 1);
        match counterpart(previous, next, n - 1) {
            Some(j) => {
                lemma_counterpart(previous, next, n - 1);
                let target = next[j];
                lemma_index_found(next, j);
                let rename = AlterIndexView {
                    table,
                    index_name: source.name,
                    index_new_name: target.name,
                };
                assert(rest.push(rename).drop_last() =~= rest);
                assert(before.get(source.name) == renamed_at(
                    indexes.get(source.name),
                    previous,
                    next,
                    source.name,
                    n - 1,
                ));
                assert(before.get(source.name) == Some(source));
                assert(renamed(source, target.name) == target);
                assert(result == before.remove(source.name).insert(target.name, target));
                assert forall|name: Seq<char>| #[trigger]
                    result.get(name) == renamed_at(indexes.get(name), previous, next, name, n) by {
                    lemma_index_position(next, name);
                    lemma_index_position(previous, name);
                    assert(before.get(name) == renamed_at(
                        indexes.get(name),
                        previous,
                        next,
                        name,
                        n - 1,
                    ));
                    if name == target.name {
                    } else if name == source.name {
                    } else {
                        if index_named(next, name) is Some {
                            let b = index_named(next, name)->Some_0;
                            if counterpart(next, previous, b) is Some {
                                lemma_counterpart(next, previous, b);
                            }
                        }
                    }
                }
            },
            None => {
                assert forall|name: Seq<char>| #[trigger]
                    result.get(name) == renamed_at(indexes.get(name), previous, next, name, n) by {
                    lemma_index_position(next, name);
                    lemma_index_position(previous, name);
                    assert(before.get(name) == renamed_at(
                        indexes.get(name),
                        previous,
                        next,
                        name,
                        n - 1,
                    ));
                    if index_named(next, name) is Some {
                        let b = index_named(next, name)->Some_0;
                        if counterpart(next, previous, b) is Some {
                            lemma_counterpart(next, previous, b);
                        }
                    }
                }
            },
        }
    }
}

/// Dropping, creating and renaming the indexes as the difference says
/// turns the indexes of the one table into the indexes of the other.
pub proof fn lemma_index_changes_lead_to_target(previous: Seq<IndexView>, table: TableView)
    requires
        distinct_index_names(previous),
        distinct_index_names(table.indices),
    ensures
        apply_index_renames(
            apply_index_creates(
                apply_index_drops(
                    indexes_by_name(previous),
                    table_dropped_indexes(
                        table.name,
                        previous,
                        table.indices,
                        previous.len() as int,
                    ),
                ),
                table_created_indexes(table, previous, table.indices.len() as int),
            ),
            table_renamed_indexes(table.name, previous, table.indices, previous.len() as int),
        ) == indexes_by_name(table.indices),
{
    let next = table.indices;
    let start = indexes_by_name(previous);
    let dropped = apply_index_drops(
        start,
        table_dropped_indexes(table.name, previous, next, previous.len() as int),
    );
    let created = apply_index_creates(
        dropped,
        table_created_indexes(table, previous, next.len() as int),
    );
    let result = apply_index_renames(
        created,
        table_renamed_indexes(table.name, previous, next, previous.len() as int),
    );
    assert forall|i: int|
        0 <= i < previous.len() && counterpart(previous, next, i) is Some implies created.get(
        (#[trigger] previous[i]).name,
    ) == Some(previous[i]) by {
        let name = previous[i].name;
        lemma_counterpart(previous, next, i);
        lemma_index_found(previous, i);
        lemma_index_drops_at(start, table.name, previous, next, name, previous.len() as int);
        lemma_index_creates_at(dropped, table, previous, name, next.len() as int);
    }
    lemma_index_renames_at(created, table.name, previous, next, previous.len() as int);
    assert forall|name: Seq<char>| result.get(name) == indexes_by_name(next).get(name) by {
        lemma_index_drops_at(start, table.name, previous, next, name, previous.len() as int);
        lemma_index_creates_at(dropped, table, previous, name, next.len() as int);
        assert(result.get(name) == renamed_at(
            created.get(name),
            previous,
            next,
            name,
            previous.len() as int,
        ));
        lemma_index_position(previous, name);
        lemma_index_position(next, name);
        if index_named(next, name) is Some {
            let j = index_named(next, name)->Some_0;
            if counterpart(next, previous, j) is Some {
                lemma_counterpart(next, previous, j);
            }
        }
        if index_named(previous, name) is Some {
            let i = index_named(previous, name)->Some_0;
            if counterpart(previous, next, i) is Some {
                lemma_counterpart(previous, next, i);
            }
        }
    }
    lemma_same_indexes(result, indexes_by_name(next));
}

/// An index has no counterpart and no namesake where there are no indexes.
pub proof fn lemma_unmatched_in_nothing(list: Seq<IndexView>, i: int)
    requires
        0 <= i < list.len(),
    ensures
        is_unmatched(list, Seq::<IndexView>::empty(), i),
{
    let nothing = Seq::<IndexView>::empty();
    lemma_first_where_none(nothing, |x: IndexView| x.name == list[i].name);
    let like = list[i];
    lemma_first_where_none(
        nothing,
        |x: IndexView| index_named(list, x.name) is None && x.same_definition(like),
    );
}

/// Two sets of indexes that hold the same under every name are the same.
pub proof fn lemma_same_indexes(a: Map<Seq<char>, IndexView>, b: Map<Seq<char>, IndexView>)
    requires
        forall|name: Seq<char>| a.get(name) == b.get(name),
    ensures
        a == b,
{
    assert(a =~= b) by {
        assert forall|name: Seq<char>| a.dom().contains(name) == b.dom().contains(name) by {
            assert(a.get(name) == b.get(name));
        }
        assert forall|name: Seq<char>| a.dom().contains(name) implies a[name] == b[name] by {
            assert(a.get(name) == b.get(name));
        }
    }
}

} // verus!
