//! Laws of the catalog: what a write keeps, what the guardrails
//! guarantee, and what stays well-formed.

use crate::batch::{tables_of, OpModel};
use crate::bytes::{lemma_position_of, lemma_position_of_unique, position_of};
use crate::catalog::{
    after_write, apply_op, apply_ops, catalog_wf, columns_fit, columns_of, first_violation,
    namespace_position, namespace_resolves, op_fits, table_names, tables_wf, with_namespace,
    write_verdict, GuardrailStateModel, GuardrailErrorModel, NamespaceModel, TableModel,
};
use crate::names::{
    fresh, lemma_fresh_empty, lemma_merge_appends_fresh, lemma_merge_unique, merge_unique,
};
use crate::search::{lemma_first_match, lemma_first_match_unique};
use vstd::prelude::*;

verus! {

/// A write that names only columns that the table has is accepted, whatever
/// the size of the table and whatever the limit.
pub proof fn lemma_known_columns_fit(existing: Seq<Seq<u8>>, columns: Seq<Seq<u8>>, limit: nat)
    requires
        forall|i: int| 0 <= i < columns.len() ==> existing.contains(columns[i]),
    ensures
        columns_fit(existing, columns, limit),
{
    lemma_fresh_empty(existing, columns);
}

/// A table at or above the limit refuses every write that names a column
/// it does not have.
pub proof fn lemma_full_table_refuses_growth(
    existing: Seq<Seq<u8>>,
    columns: Seq<Seq<u8>>,
    limit: nat,
    i: int,
)
    requires
        existing.len() >= limit,
        0 <= i < columns.len(),
        !existing.contains(columns[i]),
    ensures
        !columns_fit(existing, columns, limit),
{
    lemma_fresh_empty(existing, columns);
}

/// Applying an operation keeps every table in its place under its name,
/// and keeps its columns in front of those it gains.
pub proof fn lemma_apply_op_keeps(tables: Seq<TableModel>, op: OpModel)
    ensures
        apply_op(tables, op).len() >= tables.len(),
        forall|j: int|
            0 <= j < tables.len() ==> {
                &&& (#[trigger] apply_op(tables, op)[j]).name == tables[j].name
                &&& apply_op(tables, op)[j].columns.len() >= tables[j].columns.len()
                &&& apply_op(tables, op)[j].columns.take(tables[j].columns.len() as int)
                    == tables[j].columns
            },
{
    let k = position_of(table_names(tables), op.table);
    let after = apply_op(tables, op);
    assert forall|j: int| 0 <= j < tables.len() implies {
        &&& (#[trigger] after[j]).name == tables[j].name
        &&& after[j].columns.len() >= tables[j].columns.len()
        &&& after[j].columns.take(tables[j].columns.len() as int) == tables[j].columns
    } by {
        if j == k {
            lemma_merge_unique(tables[j].columns, op.columns);
        } else {
            assert(after[j] == tables[j]);
            assert(tables[j].columns.take(tables[j].columns.len() as int) =~= tables[j].columns);
        }
    }
}

/// A write never removes a table or a column: every table stays in its
/// place under its name, with its columns in front of those it gains.
pub proof fn lemma_apply_ops_keeps(tables: Seq<TableModel>, ops: Seq<OpModel>)
    ensures
        apply_ops(tables, ops).len() >= tables.len(),
        forall|j: int|
            0 <= j < tables.len() ==> {
                &&& (#[trigger] apply_ops(tables, ops)[j]).name == tables[j].name
                &&& apply_ops(tables, ops)[j].columns.len() >= tables[j].columns.len()
                &&& apply_ops(tables, ops)[j].columns.take(tables[j].columns.len() as int)
                    == tables[j].columns
            },
    decreases ops.len(),
{
    if ops.len() == 0 {
        assert forall|j: int| 0 <= j < tables.len() implies (#[trigger] tables[j]).columns.take(
            tables[j].columns.len() as int,
        ) == tables[j].columns by {
            assert(tables[j].columns.take(tables[j].columns.len() as int) =~= tables[j].columns);
        }
    } else {
        let mid = apply_ops(tables, ops.drop_last());
        let after = apply_ops(tables, ops);
        lemma_apply_ops_keeps(tables, ops.drop_last());
        lemma_apply_op_keeps(mid, ops.last());
        assert forall|j: int| 0 <= j < tables.len() implies {
            &&& (#[trigger] after[j]).name == tables[j].name
            &&& after[j].columns.len() >= tables[j].columns.len()
            &&& after[j].columns.take(tables[j].columns.len() as int) == tables[j].columns
        } by {
            let n = tables[j].columns.len() as int;
            assert(mid[j].name == tables[j].name);
            assert(after[j].name == mid[j].name);
            assert(after[j].columns.take(mid[j].columns.len() as int) == mid[j].columns);
            assert(after[j].columns.take(n) =~= after[j].columns.take(
                mid[j].columns.len() as int,
            ).take(n));
        }
    }
}

/// An operation on another table leaves a table's place and columns as
/// they are.
pub proof fn lemma_apply_op_other(tables: Seq<TableModel>, op: OpModel, name: Seq<u8>)
    requires
        op.table != name,
    ensures
        columns_of(apply_op(tables, op), name) == columns_of(tables, name),
        position_of(table_names(tables), name) < tables.len() ==> position_of(
            table_names(apply_op(tables, op)),
            name,
        ) == position_of(table_names(tables), name),
        !(position_of(table_names(tables), name) < tables.len()) ==> !(position_of(
            table_names(apply_op(tables, op)),
            name,
        ) < apply_op(tables, op).len()),
{
    let after = apply_op(tables, op);
    let names = table_names(tables);
    let names_after = table_names(after);
    let k = position_of(names, op.table);
    let p = position_of(names, name);
    lemma_position_of(names, op.table);
    lemma_position_of(names, name);
    if 0 <= k < tables.len() {
        assert(names_after =~= names);
    } else {
        assert(names_after =~= names.push(op.table));
        if p < tables.len() {
            assert forall|j: int| 0 <= j < p implies names_after[j] != name by {
                assert(names_after[j] == names[j]);
            }
            assert(names_after[p] == name);
            lemma_position_of_unique(names_after, name, p);
        } else {
            assert forall|j: int| 0 <= j < names_after.len() implies names_after[j] != name by {
                if j < names.len() {
                    assert(names_after[j] == names[j]);
                }
            }
            lemma_position_of_unique(names_after, name, names_after.len() as int);
        }
    }
}

/// Operations on other tables leave a table's place and columns as they
/// are.
pub proof fn lemma_apply_ops_other(tables: Seq<TableModel>, ops: Seq<OpModel>, name: Seq<u8>)
    requires
        forall|i: int| 0 <= i < ops.len() ==> (#[trigger] ops[i]).table != name,
    ensures
        columns_of(apply_ops(tables, ops), name) == columns_of(tables, name),
        position_of(table_names(tables), name) < tables.len() ==> position_of(
            table_names(apply_ops(tables, ops)),
            name,
        ) == position_of(table_names(tables), name),
        !(position_of(table_names(tables), name) < tables.len()) ==> !(position_of(
            table_names(apply_ops(tables, ops)),
            name,
        ) < apply_ops(tables, ops).len()),
    decreases ops.len(),
{
    if ops.len() > 0 {
        let head = ops.drop_last();
        assert forall|i: int| 0 <= i < head.len() implies (#[trigger] head[i]).table != name by {
            assert(head[i] == ops[i]);
        }
        lemma_apply_ops_other(tables, head, name);
        assert(ops.last() == ops[ops.len() - 1]);
        lemma_apply_op_other(apply_ops(tables, head), ops.last(), name);
        lemma_apply_ops_keeps(tables, head);
    }
}

/// The guardrail holds: after a write all of whose operations fit, every
/// table either has the columns it had, or has no more columns than the
/// limit. A table above the limit keeps its columns and gains none.
pub proof fn lemma_write_respects_limit(tables: Seq<TableModel>, ops: Seq<OpModel>, limit: nat)
    requires
        tables_of(ops).no_duplicates(),
        forall|i: int| 0 <= i < ops.len() ==> op_fits(tables, #[trigger] ops[i], limit),
    ensures
        forall|j: int|
            0 <= j < apply_ops(tables, ops).len() ==> {
                ||| j < tables.len() && (#[trigger] apply_ops(tables, ops)[j]).columns
                    == tables[j].columns
                ||| apply_ops(tables, ops)[j].columns.len() <= limit
            },
    decreases ops.len(),
{
    if ops.len() > 0 {
        let head = ops.drop_last();
        let last = ops.last();
        let mid = apply_ops(tables, head);
        let after = apply_ops(tables, ops);
        assert forall|i: int, j: int|
            0 <= i < tables_of(head).len() && 0 <= j < tables_of(head).len() && i
                != j implies tables_of(head)[i] != tables_of(head)[j] by {
            assert(tables_of(ops)[i] != tables_of(ops)[j]);
        }
        assert forall|i: int| 0 <= i < head.len() implies op_fits(
            tables,
            #[trigger] head[i],
            limit,
        ) by {
            assert(head[i] == ops[i]);
        }
        lemma_write_respects_limit(tables, head, limit);
        assert forall|i: int| 0 <= i < head.len() implies (#[trigger] head[i]).table
            != last.table by {
            assert(tables_of(ops)[i] != tables_of(ops)[ops.len() - 1]);
        }
        lemma_apply_ops_other(tables, head, last.table);
        lemma_apply_ops_keeps(tables, head);
        assert(ops[ops.len() - 1] == last);
        assert(op_fits(tables, last, limit));
        let existing = columns_of(tables, last.table);
        let k = position_of(table_names(mid), last.table);
        lemma_position_of(table_names(mid), last.table);
        lemma_position_of(table_names(tables), last.table);
        lemma_merge_appends_fresh(existing, last.columns);
        assert(existing + Seq::<Seq<u8>>::empty() =~= existing);
        assert forall|j: int| 0 <= j < after.len() implies {
            ||| j < tables.len() && (#[trigger] after[j]).columns == tables[j].columns
            ||| after[j].columns.len() <= limit
        } by {
            if 0 <= k < mid.len() {
                if j == k {
                    assert(columns_of(mid, last.table) == mid[k].columns);
                    assert(mid[k].columns == existing);
                    assert(position_of(table_names(tables), last.table) == k);
                    assert(tables[k].columns == existing);
                    if fresh(existing, last.columns).len() == 0 {
                        assert(fresh(existing, last.columns) =~= Seq::<Seq<u8>>::empty());
                    }
                } else {
                    assert(after[j] == mid[j]);
                }
            } else {
                if j < mid.len() {
                    assert(after[j] == mid[j]);
                } else {
                    assert(existing =~= Seq::<Seq<u8>>::empty());
                    assert(after[j].columns == merge_unique(Seq::empty(), last.columns));
                }
            }
        }
    }
}

/// Where every operation of a write fits, none is the first violation,
/// and the other way round.
pub proof fn lemma_no_violation(tables: Seq<TableModel>, ops: Seq<OpModel>, limit: nat)
    ensures
        first_violation(tables, ops, limit) == ops.len() <==> (forall|i: int|
            0 <= i < ops.len() ==> op_fits(tables, #[trigger] ops[i], limit)),
        0 <= first_violation(tables, ops, limit) <= ops.len(),
{
    let p = |op: OpModel| !op_fits(tables, op, limit);
    lemma_first_match(ops, p);
    if forall|i: int| 0 <= i < ops.len() ==> op_fits(tables, #[trigger] ops[i], limit) {
        if first_violation(tables, ops, limit) < ops.len() {
            assert(p(ops[first_violation(tables, ops, limit)]));
        }
    }
    if first_violation(tables, ops, limit) == ops.len() {
        assert forall|i: int| 0 <= i < ops.len() implies op_fits(
            tables,
            #[trigger] ops[i],
            limit,
        ) by {
            assert(!p(ops[i]));
        }
    }
}

/// An operation keeps the tables well-formed.
pub proof fn lemma_apply_op_wf(tables: Seq<TableModel>, op: OpModel)
    requires
        tables_wf(tables),
    ensures
        tables_wf(apply_op(tables, op)),
{
    let after = apply_op(tables, op);
    let names = table_names(tables);
    let k = position_of(names, op.table);
    lemma_position_of(names, op.table);
    if 0 <= k < tables.len() {
        assert(table_names(after) =~= names);
        lemma_merge_unique(tables[k].columns, op.columns);
        assert forall|i: int| 0 <= i < after.len() implies (
        #[trigger] after[i]).columns.no_duplicates() by {
            if i != k {
                assert(after[i] == tables[i]);
            }
        }
    } else {
        let names_after = table_names(after);
        assert(names_after =~= names.push(op.table));
        lemma_merge_unique(Seq::empty(), op.columns);
        assert forall|i: int, j: int|
            0 <= i < names_after.len() && 0 <= j < names_after.len() && i != j implies names_after[i]
            != names_after[j] by {
            if i < names.len() && j < names.len() {
                assert(names[i] != names[j]);
            } else if i < names.len() {
                assert(names[i] != op.table);
            } else {
                assert(names[j] != op.table);
            }
        }
        assert forall|i: int| 0 <= i < after.len() implies (
        #[trigger] after[i]).columns.no_duplicates() by {
            if i < tables.len() {
                assert(after[i] == tables[i]);
            }
        }
    }
}

/// A write keeps the tables well-formed.
pub proof fn lemma_apply_ops_wf(tables: Seq<TableModel>, ops: Seq<OpModel>)
    requires
        tables_wf(tables),
    ensures
        tables_wf(apply_ops(tables, ops)),
    decreases ops.len(),
{
    if ops.len() > 0 {
        lemma_apply_ops_wf(tables, ops.drop_last());
        lemma_apply_op_wf(apply_ops(tables, ops.drop_last()), ops.last());
    }
}

/// Creating a namespace keeps the catalog well-formed.
pub proof fn lemma_with_namespace_wf(
    c: GuardrailStateModel,
    tenant: Seq<u8>,
    name: Seq<u8>,
    retention: Option<u64>,
)
    requires
        catalog_wf(c),
    ensures
        catalog_wf(with_namespace(c, tenant, name, retention)),
{
    let p = |ns: NamespaceModel| ns.tenant == tenant && ns.name == name;
    let r = with_namespace(c, tenant, name, retention);
    lemma_first_match(c.namespaces, p);
    if !(namespace_position(c.namespaces, tenant, name) < c.namespaces.len()) {
        assert forall|i: int, j: int|
            0 <= i < r.namespaces.len() && 0 <= j < r.namespaces.len() && i != j implies !((
        #[trigger] r.namespaces[i]).tenant == (#[trigger] r.namespaces[j]).tenant
            && r.namespaces[i].name == r.namespaces[j].name) by {
            if i < c.namespaces.len() && j < c.namespaces.len() {
                assert(r.namespaces[i] == c.namespaces[i]);
                assert(r.namespaces[j] == c.namespaces[j]);
            } else if i < c.namespaces.len() {
                assert(!p(c.namespaces[i]));
            } else {
                assert(!p(c.namespaces[j]));
            }
        }
        assert forall|i: int| 0 <= i < r.namespaces.len() implies tables_wf(
            (#[trigger] r.namespaces[i]).tables,
        ) by {
            if i < c.namespaces.len() {
                assert(r.namespaces[i] == c.namespaces[i]);
            } else {
                assert(table_names(r.namespaces[i].tables) =~= Seq::<Seq<u8>>::empty());
            }
        }
    }
}

/// A write, passed or refused, keeps the catalog well-formed.
pub proof fn lemma_after_write_wf(
    c: GuardrailStateModel,
    tenant: Seq<u8>,
    name: Seq<u8>,
    ops: Seq<OpModel>,
)
    requires
        catalog_wf(c),
    ensures
        catalog_wf(after_write(c, tenant, name, ops)),
{
    let p = |ns: NamespaceModel| ns.tenant == tenant && ns.name == name;
    let r = with_namespace(c, tenant, name, c.default_retention_hours);
    let k = namespace_position(r.namespaces, tenant, name);
    let after = after_write(c, tenant, name, ops);
    lemma_with_namespace_wf(c, tenant, name, c.default_retention_hours);
    lemma_first_match(r.namespaces, p);
    lemma_first_match(c.namespaces, p);
    if namespace_resolves(c, tenant, name) && !(first_violation(
        r.namespaces[k].tables,
        ops,
        c.column_limit,
    ) < ops.len()) {
        if !(namespace_position(c.namespaces, tenant, name) < c.namespaces.len()) {
            assert forall|j: int| 0 <= j < c.namespaces.len() implies !p(
                #[trigger] r.namespaces[j],
            ) by {
                assert(r.namespaces[j] == c.namespaces[j]);
            }
            lemma_first_match_unique(r.namespaces, p, c.namespaces.len() as int);
        }
        assert(0 <= k < r.namespaces.len());
        lemma_apply_ops_wf(r.namespaces[k].tables, ops);
        assert forall|i: int, j: int|
            0 <= i < after.namespaces.len() && 0 <= j < after.namespaces.len() && i
                != j implies !((#[trigger] after.namespaces[i]).tenant == (
        #[trigger] after.namespaces[j]).tenant && after.namespaces[i].name
            == after.namespaces[j].name) by {
            assert(after.namespaces[i].tenant == r.namespaces[i].tenant);
            assert(after.namespaces[i].name == r.namespaces[i].name);
            assert(after.namespaces[j].tenant == r.namespaces[j].tenant);
            assert(after.namespaces[j].name == r.namespaces[j].name);
        }
        assert forall|i: int| 0 <= i < after.namespaces.len() implies tables_wf(
            (#[trigger] after.namespaces[i]).tables,
        ) by {
            if i != k {
                assert(after.namespaces[i] == r.namespaces[i]);
            }
        }
    }
}

/// With creation on demand switched off, a write to an unknown namespace
/// is answered with `NamespaceNotFound` and changes nothing.
pub proof fn lemma_unknown_namespace_refused(
    c: GuardrailStateModel,
    tenant: Seq<u8>,
    name: Seq<u8>,
    ops: Seq<OpModel>,
)
    requires
        !c.autocreate,
        !(namespace_position(c.namespaces, tenant, name) < c.namespaces.len()),
    ensures
        write_verdict(c, tenant, name, ops) == Err::<(), GuardrailErrorModel>(
            GuardrailErrorModel::NamespaceNotFound,
        ),
        after_write(c, tenant, name, ops) == c,
{
}

/// Creating a namespace twice is creating it once.
pub proof fn lemma_create_idempotent(
    c: GuardrailStateModel,
    tenant: Seq<u8>,
    name: Seq<u8>,
    first: Option<u64>,
    second: Option<u64>,
)
    ensures
        with_namespace(with_namespace(c, tenant, name, first), tenant, name, second)
            == with_namespace(c, tenant, name, first),
{
    let p = |ns: NamespaceModel| ns.tenant == tenant && ns.name == name;
    let once = with_namespace(c, tenant, name, first);
    if !(namespace_position(c.namespaces, tenant, name) < c.namespaces.len()) {
        lemma_first_match(c.namespaces, p);
        assert forall|j: int| 0 <= j < c.namespaces.len() implies !p(
            #[trigger] once.namespaces[j],
        ) by {
            assert(once.namespaces[j] == c.namespaces[j]);
        }
        lemma_first_match_unique(once.namespaces, p, c.namespaces.len() as int);
    }
}

} // verus!
