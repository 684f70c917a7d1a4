//! The catalog: the namespaces of every tenant, the tables of each
//! namespace with their columns, and the guardrails on their growth.
//!
//! A namespace is found by its tenant and its name. A write names the
//! columns it touches per table; columns that a table does not have yet
//! are added to it, unless that would take the table beyond the column
//! limit. A write that adds nothing to a table is accepted whatever the
//! size of the table.

use crate::batch::{op_views, OpModel, TableWriteOp, WriteBatch};
use crate::bytes::{bytes_eq, copy_bytes, lemma_position_of_unique, position_of, views};
use crate::catalog_laws::{lemma_after_write_wf, lemma_with_namespace_wf};
use crate::names::{fresh, fresh_names, merge_names, merge_unique};
use crate::search::{first_match, lemma_first_match, lemma_first_match_unique};
use vstd::prelude::*;

verus! {

/// A table as a mathematical value.
pub struct TableModel {
    pub name: Seq<u8>,
    pub columns: Seq<Seq<u8>>,
}

/// A namespace as a mathematical value.
pub struct NamespaceModel {
    pub tenant: Seq<u8>,
    pub name: Seq<u8>,
    pub retention_hours: Option<u64>,
    pub tables: Seq<TableModel>,
}

/// A catalog as a mathematical value.
pub struct GuardrailStateModel {
    pub namespaces: Seq<NamespaceModel>,
    pub autocreate: bool,
    pub default_retention_hours: Option<u64>,
    pub column_limit: nat,
}

/// Why a write is refused, as a mathematical value.
pub enum GuardrailErrorModel {
    NamespaceNotFound,
    ColumnLimitExceeded { table: Seq<u8>, limit: nat },
}

/// A table: its name and its columns, each once.
#[derive(Debug)]
pub struct TableSchema {
    pub name: Vec<u8>,
    pub columns: Vec<Vec<u8>>,
}

impl View for TableSchema {
    type V = TableModel;

    open spec fn view(&self) -> TableModel {
        TableModel { name: self.name@, columns: views(self.columns@) }
    }
}

/// The models of `v`, in order.
pub open spec fn table_views(v: Seq<TableSchema>) -> Seq<TableModel> {
    Seq::new(v.len(), |i: int| v[i]@)
}

/// A namespace of one tenant: how long its data is kept (`None`: for
/// ever) and its tables.
#[derive(Debug)]
pub struct Namespace {
    pub tenant: Vec<u8>,
    pub name: Vec<u8>,
    pub retention_hours: Option<u64>,
    pub tables: Vec<TableSchema>,
}

impl View for Namespace {
    type V = NamespaceModel;

    open spec fn view(&self) -> NamespaceModel {
        NamespaceModel {
            tenant: self.tenant@,
            name: self.name@,
            retention_hours: self.retention_hours,
            tables: table_views(self.tables@),
        }
    }
}

/// The models of `v`, in order.
pub open spec fn namespace_views(v: Seq<Namespace>) -> Seq<NamespaceModel> {
    Seq::new(v.len(), |i: int| v[i]@)
}

/// Why a write is refused.
#[derive(Debug, PartialEq, Eq)]
pub enum GuardrailError {
    /// The namespace is unknown and namespaces are not created on demand.
    NamespaceNotFound,
    /// The write would take `table` beyond `limit` columns.
    ColumnLimitExceeded { table: Vec<u8>, limit: usize },
}

impl View for GuardrailError {
    type V = GuardrailErrorModel;

    open spec fn view(&self) -> GuardrailErrorModel {
        match self {
            GuardrailError::NamespaceNotFound => GuardrailErrorModel::NamespaceNotFound,
            GuardrailError::ColumnLimitExceeded { table, limit } => {
                GuardrailErrorModel::ColumnLimitExceeded { table: table@, limit: *limit as nat }
            },
        }
    }
}

/// Position of the namespace `name` of `tenant`, or the number of
/// namespaces where there is none.
pub open spec fn namespace_position(
    namespaces: Seq<NamespaceModel>,
    tenant: Seq<u8>,
    name: Seq<u8>,
) -> int {
    first_match(namespaces, |ns: NamespaceModel| ns.tenant == tenant && ns.name == name)
}

/// The table names of `tables`, in order.
pub open spec fn table_names(tables: Seq<TableModel>) -> Seq<Seq<u8>> {
    Seq::new(tables.len(), |i: int| tables[i].name)
}

/// The columns of table `name`; none for a table that does not exist.
pub open spec fn columns_of(tables: Seq<TableModel>, name: Seq<u8>) -> Seq<Seq<u8>> {
    let k = position_of(table_names(tables), name);
    if 0 <= k < tables.len() {
        tables[k].columns
    } else {
        Seq::empty()
    }
}

/// Whether a table with columns `existing` may take a write that names
/// `columns`: the write adds nothing, or the table stays within `limit`.
pub open spec fn columns_fit(existing: Seq<Seq<u8>>, columns: Seq<Seq<u8>>, limit: nat) -> bool {
    let added = fresh(existing, columns).len();
    added == 0 || existing.len() + added <= limit
}

/// Whether `op` may be applied to its table among `tables`.
pub open spec fn op_fits(tables: Seq<TableModel>, op: OpModel, limit: nat) -> bool {
    columns_fit(columns_of(tables, op.table), op.columns, limit)
}

/// Position of the first operation of `ops` that does not fit, or their
/// number where all fit.
pub open spec fn first_violation(tables: Seq<TableModel>, ops: Seq<OpModel>, limit: nat) -> int {
    first_match(ops, |op: OpModel| !op_fits(tables, op, limit))
}

/// `tables` after `op`: its table gains the columns it lacks; a table that
/// does not exist is appended.
pub open spec fn apply_op(tables: Seq<TableModel>, op: OpModel) -> Seq<TableModel> {
    let k = position_of(table_names(tables), op.table);
    if 0 <= k < tables.len() {
        tables.update(
            k,
            TableModel {
                name: tables[k].name,
                columns: merge_unique(tables[k].columns, op.columns),
            },
        )
    } else {
        tables.push(
            TableModel { name: op.table, columns: merge_unique(Seq::empty(), op.columns) },
        )
    }
}

/// `tables` after all of `ops`, in order.
pub open spec fn apply_ops(tables: Seq<TableModel>, ops: Seq<OpModel>) -> Seq<TableModel>
    decreases ops.len(),
{
    if ops.len() == 0 {
        tables
    } else {
        apply_op(apply_ops(tables, ops.drop_last()), ops.last())
    }
}

/// A namespace as it is created on demand: no tables, kept for `retention`.
pub open spec fn new_namespace(
    tenant: Seq<u8>,
    name: Seq<u8>,
    retention: Option<u64>,
) -> NamespaceModel {
    NamespaceModel { tenant, name, retention_hours: retention, tables: Seq::empty() }
}

/// `c` with the namespace created unless it exists: creation is idempotent.
pub open spec fn with_namespace(
    c: GuardrailStateModel,
    tenant: Seq<u8>,
    name: Seq<u8>,
    retention: Option<u64>,
) -> GuardrailStateModel {
    if namespace_position(c.namespaces, tenant, name) < c.namespaces.len() {
        c
    } else {
        GuardrailStateModel {
            namespaces: c.namespaces.push(new_namespace(tenant, name, retention)),
            autocreate: c.autocreate,
            default_retention_hours: c.default_retention_hours,
            column_limit: c.column_limit,
        }
    }
}

/// Whether a write to the namespace finds it, or may create it.
pub open spec fn namespace_resolves(
    c: GuardrailStateModel,
    tenant: Seq<u8>,
    name: Seq<u8>,
) -> bool {
    namespace_position(c.namespaces, tenant, name) < c.namespaces.len() || c.autocreate
}

/// The answer to a write of `ops` to a namespace.
pub open spec fn write_verdict(
    c: GuardrailStateModel,
    tenant: Seq<u8>,
    name: Seq<u8>,
    ops: Seq<OpModel>,
) -> Result<(), GuardrailErrorModel> {
    let r = with_namespace(c, tenant, name, c.default_retention_hours);
    let tables = r.namespaces[namespace_position(r.namespaces, tenant, name)].tables;
    let v = first_violation(tables, ops, c.column_limit);
    if !namespace_resolves(c, tenant, name) {
        Err(GuardrailErrorModel::NamespaceNotFound)
    } else if v < ops.len() {
        Err(GuardrailErrorModel::ColumnLimitExceeded { table: ops[v].table, limit: c.column_limit })
    } else {
        Ok(())
    }
}

/// The catalog after a write of `ops` to a namespace. A refused write
/// changes nothing: no namespace is created for it, and no table touched.
pub open spec fn after_write(
    c: GuardrailStateModel,
    tenant: Seq<u8>,
    name: Seq<u8>,
    ops: Seq<OpModel>,
) -> GuardrailStateModel {
    let r = with_namespace(c, tenant, name, c.default_retention_hours);
    let k = namespace_position(r.namespaces, tenant, name);
    let ns = r.namespaces[k];
    if !namespace_resolves(c, tenant, name) {
        c
    } else if first_violation(ns.tables, ops, c.column_limit) < ops.len() {
        c
    } else {
        GuardrailStateModel {
            namespaces: r.namespaces.update(
                k,
                NamespaceModel {
                    tenant: ns.tenant,
                    name: ns.name,
                    retention_hours: ns.retention_hours,
                    tables: apply_ops(ns.tables, ops),
                },
            ),
            autocreate: r.autocreate,
            default_retention_hours: r.default_retention_hours,
            column_limit: r.column_limit,
        }
    }
}

/// The tables of a namespace are well-formed: no table name twice, no
/// column twice in a table.
pub open spec fn tables_wf(tables: Seq<TableModel>) -> bool {
    &&& table_names(tables).no_duplicates()
    &&& forall|i: int| 0 <= i < tables.len() ==> (#[trigger] tables[i]).columns.no_duplicates()
}

/// A catalog is well-formed: no namespace of a tenant twice, and the
/// tables of every namespace well-formed.
pub open spec fn catalog_wf(c: GuardrailStateModel) -> bool {
    &&& forall|i: int, j: int|
        0 <= i < c.namespaces.len() && 0 <= j < c.namespaces.len() && i != j ==> !((
        #[trigger] c.namespaces[i]).tenant == (#[trigger] c.namespaces[j]).tenant
            && c.namespaces[i].name == c.namespaces[j].name)
    &&& forall|i: int|
        0 <= i < c.namespaces.len() ==> tables_wf((#[trigger] c.namespaces[i]).tables)
}

/// The guardrail state: the namespaces of every tenant with their tables
/// and columns, and the limits that writes are held to.
#[derive(Debug)]
pub struct NamespaceGuardrailState {
    namespaces: Vec<Namespace>,
    autocreate: bool,
    default_retention_hours: Option<u64>,
    column_limit: usize,
}

impl View for NamespaceGuardrailState {
    type V = GuardrailStateModel;

    closed spec fn view(&self) -> GuardrailStateModel {
        GuardrailStateModel {
            namespaces: namespace_views(self.namespaces@),
            autocreate: self.autocreate,
            default_retention_hours: self.default_retention_hours,
            column_limit: self.column_limit as nat,
        }
    }
}

/// Position of table `name` among `tables`, or their number.
fn find_table(tables: &Vec<TableSchema>, name: &[u8]) -> (k: usize)
    ensures
        k == position_of(table_names(table_views(tables@)), name@),
        k <= tables.len(),
{
    let ghost all = table_names(table_views(tables@));
    let mut i: usize = 0;
    while i < tables.len()
        invariant
            i <= tables.len(),
            all == table_names(table_views(tables@)),
            forall|j: int| 0 <= j < i ==> all[j] != name@,
        decreases tables.len() - i,
    {
        assert(all[i as int] == tables@[i as int].name@);
        if bytes_eq(tables[i].name.as_slice(), name) {
            proof {
                lemma_position_of_unique(all, name@, i as int);
            }
            return i;
        }
        i = i + 1;
    }
    proof {
        lemma_position_of_unique(all, name@, i as int);
    }
    i
}

/// Whether a table with columns `existing` may take a write that names
/// `columns`.
pub fn check_columns(existing: &Vec<Vec<u8>>, columns: &Vec<Vec<u8>>, limit: usize) -> (ok: bool)
    ensures
        ok == columns_fit(views(existing@), views(columns@), limit as nat),
{
    let added = fresh_names(existing, columns).len();
    added == 0 || (added <= limit && existing.len() <= limit - added)
}

/// Whether `op` may be applied to its table among `tables`.
fn check_op(tables: &Vec<TableSchema>, op: &TableWriteOp, limit: usize) -> (ok: bool)
    ensures
        ok == op_fits(table_views(tables@), op@, limit as nat),
{
    let k = find_table(tables, op.table.as_slice());
    if k < tables.len() {
        assert(table_views(tables@)[k as int] == tables@[k as int]@);
        check_columns(&tables[k].columns, &op.columns, limit)
    } else {
        let none: Vec<Vec<u8>> = Vec::new();
        assert(views(none@) =~= Seq::<Seq<u8>>::empty());
        check_columns(&none, &op.columns, limit)
    }
}

/// Position of the first operation that does not fit.
fn find_violation(tables: &Vec<TableSchema>, ops: &Vec<TableWriteOp>, limit: usize) -> (v: usize)
    ensures
        v == first_violation(table_views(tables@), op_views(ops@), limit as nat),
        v <= ops.len(),
{
    let ghost p = |op: OpModel| !op_fits(table_views(tables@), op, limit as nat);
    let mut i: usize = 0;
    while i < ops.len()
        invariant
            i <= ops.len(),
            p == |op: OpModel| !op_fits(table_views(tables@), op, limit as nat),
            forall|j: int| 0 <= j < i ==> !p(#[trigger] op_views(ops@)[j]),
        decreases ops.len() - i,
    {
        assert(op_views(ops@)[i as int] == ops@[i as int]@);
        if !check_op(tables, &ops[i], limit) {
            proof {
                lemma_first_match_unique(op_views(ops@), p, i as int);
            }
            return i;
        }
        i = i + 1;
    }
    proof {
        lemma_first_match_unique(op_views(ops@), p, i as int);
    }
    i
}

/// Applies `op` to its table, or appends the table.
fn apply_one(tables: &mut Vec<TableSchema>, op: &TableWriteOp)
    ensures
        table_views(final(tables)@) == apply_op(table_views(old(tables)@), op@),
{
    let ghost before = table_views(tables@);
    let k = find_table(tables, op.table.as_slice());
    if k < tables.len() {
        let mut t = tables.remove(k);
        assert(t@ == before[k as int]);
        merge_names(&mut t.columns, &op.columns);
        tables.insert(k, t);
        assert(table_views(tables@) =~= apply_op(before, op@));
    } else {
        let mut columns: Vec<Vec<u8>> = Vec::new();
        assert(views(columns@) =~= Seq::<Seq<u8>>::empty());
        merge_names(&mut columns, &op.columns);
        let name = copy_bytes(op.table.as_slice());
        tables.push(TableSchema { name, columns });
        assert(table_views(tables@) =~= apply_op(before, op@));
    }
}

/// Applies all of `ops`, in order.
fn apply_all(tables: &mut Vec<TableSchema>, ops: &Vec<TableWriteOp>)
    ensures
        table_views(final(tables)@) == apply_ops(table_views(old(tables)@), op_views(ops@)),
{
    let mut i: usize = 0;
    assert(op_views(ops@).take(0) =~= Seq::<OpModel>::empty());
    while i < ops.len()
        invariant
            i <= ops.len(),
            table_views(tables@) == apply_ops(
                table_views(old(tables)@),
                op_views(ops@).take(i as int),
            ),
        decreases ops.len() - i,
    {
        proof {
            let t = op_views(ops@).take(i as int + 1);
            assert(t.drop_last() =~= op_views(ops@).take(i as int));
            assert(t.last() == ops@[i as int]@);
        }
        apply_one(tables, &ops[i]);
        i = i + 1;
    }
    assert(op_views(ops@).take(i as int) =~= op_views(ops@));
}

impl NamespaceGuardrailState {
    /// The catalog's invariant: nothing occurs twice.
    pub open spec fn wf(&self) -> bool {
        catalog_wf(self@)
    }

    /// An empty catalog. `autocreate` says whether a write to an unknown
    /// namespace creates it, kept for `default_retention_hours` (`None`:
    /// for ever); `column_limit` is the most columns a write may take a
    /// table to.
    pub fn new(autocreate: bool, default_retention_hours: Option<u64>, column_limit: usize) -> (c:
        NamespaceGuardrailState)
        ensures
            c@ == (GuardrailStateModel {
                namespaces: Seq::empty(),
                autocreate,
                default_retention_hours,
                column_limit: column_limit as nat,
            }),
            c.wf(),
    {
        let c = NamespaceGuardrailState {
            namespaces: Vec::new(),
            autocreate,
            default_retention_hours,
            column_limit,
        };
        assert(namespace_views(c.namespaces@) =~= Seq::<NamespaceModel>::empty());
        c
    }

    /// Position of the namespace, or the number of namespaces.
    fn find_namespace(&self, tenant: &[u8], name: &[u8]) -> (k: usize)
        ensures
            k == namespace_position(self@.namespaces, tenant@, name@),
            k <= self.namespaces.len(),
    {
        let ghost all = namespace_views(self.namespaces@);
        let ghost p = |ns: NamespaceModel| ns.tenant == tenant@ && ns.name == name@;
        let mut i: usize = 0;
        while i < self.namespaces.len()
            invariant
                i <= self.namespaces.len(),
                all == namespace_views(self.namespaces@),
                p == |ns: NamespaceModel| ns.tenant == tenant@ && ns.name == name@,
                forall|j: int| 0 <= j < i ==> !p(#[trigger] all[j]),
            decreases self.namespaces.len() - i,
        {
            assert(all[i as int] == self.namespaces@[i as int]@);
            if bytes_eq(self.namespaces[i].tenant.as_slice(), tenant) && bytes_eq(
                self.namespaces[i].name.as_slice(),
                name,
            ) {
                proof {
                    lemma_first_match_unique(all, p, i as int);
                }
                return i;
            }
            i = i + 1;
        }
        proof {
            lemma_first_match_unique(all, p, i as int);
        }
        i
    }

    /// Whether the namespace exists.
    pub fn namespace_exists(&self, tenant: &[u8], name: &[u8]) -> (b: bool)
        ensures
            b == (namespace_position(self@.namespaces, tenant@, name@) < self@.namespaces.len()),
    {
        self.find_namespace(tenant, name) < self.namespaces.len()
    }

    /// Creates the namespace, kept for `retention_hours`, unless it exists.
    /// Says whether it was created.
    pub fn create_namespace(
        &mut self,
        tenant: &[u8],
        name: &[u8],
        retention_hours: Option<u64>,
    ) -> (created: bool)
        ensures
            final(self)@ == with_namespace(old(self)@, tenant@, name@, retention_hours),
            created == !(namespace_position(old(self)@.namespaces, tenant@, name@) < old(
                self,
            )@.namespaces.len()),
            old(self).wf() ==> final(self).wf(),
    {
        proof {
            if self.wf() {
                lemma_with_namespace_wf(self@, tenant@, name@, retention_hours);
            }
        }
        let k = self.find_namespace(tenant, name);
        if k < self.namespaces.len() {
            return false;
        }
        let ghost before = namespace_views(self.namespaces@);
        let ns = Namespace {
            tenant: copy_bytes(tenant),
            name: copy_bytes(name),
            retention_hours,
            tables: Vec::new(),
        };
        assert(table_views(ns.tables@) =~= Seq::<TableModel>::empty());
        self.namespaces.push(ns);
        assert(namespace_views(self.namespaces@) =~= before.push(
            new_namespace(tenant@, name@, retention_hours),
        ));
        true
    }

    /// The most columns a write may take a table to.
    pub fn column_limit(&self) -> (limit: usize)
        ensures
            limit == self@.column_limit,
    {
        self.column_limit
    }

    /// Changes the column limit. Tables that hold more columns keep them.
    pub fn set_column_limit(&mut self, limit: usize)
        ensures
            final(self)@ == (GuardrailStateModel {
                namespaces: old(self)@.namespaces,
                autocreate: old(self)@.autocreate,
                default_retention_hours: old(self)@.default_retention_hours,
                column_limit: limit as nat,
            }),
            old(self).wf() ==> final(self).wf(),
    {
        self.column_limit = limit;
    }

    /// Number of namespaces.
    pub fn namespace_count(&self) -> (n: usize)
        ensures
            n == self@.namespaces.len(),
    {
        self.namespaces.len()
    }

    /// How long the namespace is kept: `None` where it does not exist,
    /// `Some(None)` where it is kept for ever.
    pub fn retention_hours(&self, tenant: &[u8], name: &[u8]) -> (r: Option<Option<u64>>)
        ensures
            r == (if namespace_position(self@.namespaces, tenant@, name@)
                < self@.namespaces.len() {
                Some(
                    self@.namespaces[namespace_position(
                        self@.namespaces,
                        tenant@,
                        name@,
                    )].retention_hours,
                )
            } else {
                None
            }),
    {
        let k = self.find_namespace(tenant, name);
        if k < self.namespaces.len() {
            assert(namespace_views(self.namespaces@)[k as int] == self.namespaces@[k as int]@);
            Some(self.namespaces[k].retention_hours)
        } else {
            None
        }
    }

    /// Number of columns of a table: `None` where the namespace or the
    /// table does not exist.
    pub fn column_count(&self, tenant: &[u8], name: &[u8], table: &[u8]) -> (r: Option<usize>)
        ensures
            r == (if namespace_position(self@.namespaces, tenant@, name@)
                < self@.namespaces.len() {
                let tables = self@.namespaces[namespace_position(
                    self@.namespaces,
                    tenant@,
                    name@,
                )].tables;
                if position_of(table_names(tables), table@) < tables.len() {
                    Some(columns_of(tables, table@).len() as usize)
                } else {
                    None
                }
            } else {
                None
            }),
    {
        let k = self.find_namespace(tenant, name);
        if k < self.namespaces.len() {
            assert(namespace_views(self.namespaces@)[k as int] == self.namespaces@[k as int]@);
            let tables = &self.namespaces[k].tables;
            let j = find_table(tables, table);
            if j < tables.len() {
                assert(table_views(tables@)[j as int] == tables@[j as int]@);
                Some(tables[j].columns.len())
            } else {
                None
            }
        } else {
            None
        }
    }

    /// Checks `batch` against the guardrails of the namespace and, where it
    /// passes, adds its new columns and tables, to a namespace that is
    /// created on demand where that is allowed. A write that is refused
    /// changes nothing.
    pub fn write(&mut self, tenant: &[u8], name: &[u8], batch: &WriteBatch) -> (r: Result<
        (),
        GuardrailError,
    >)
        ensures
            final(self)@ == after_write(old(self)@, tenant@, name@, batch@),
            match r {
                Ok(()) => write_verdict(old(self)@, tenant@, name@, batch@) == Ok::<
                    (),
                    GuardrailErrorModel,
                >(()),
                Err(e) => write_verdict(old(self)@, tenant@, name@, batch@) == Err::<
                    (),
                    GuardrailErrorModel,
                >(e@),
            },
            r is Err ==> final(self)@ == old(self)@,
            old(self).wf() ==> final(self).wf(),
    {
        let ghost c = self@;
        proof {
            if self.wf() {
                lemma_after_write_wf(self@, tenant@, name@, batch@);
            }
        }
        let ops = batch.ops();
        let k = self.find_namespace(tenant, name);
        let ghost p = |ns: NamespaceModel| ns.tenant == tenant@ && ns.name == name@;
        if k == self.namespaces.len() {
            if !self.autocreate {
                return Err(GuardrailError::NamespaceNotFound);
            }
            let ghost r = with_namespace(c, tenant@, name@, c.default_retention_hours);
            proof {
                lemma_first_match(c.namespaces, p);
                assert forall|j: int| 0 <= j < k implies !p(#[trigger] r.namespaces[j]) by {
                    assert(r.namespaces[j] == c.namespaces[j]);
                }
                lemma_first_match_unique(r.namespaces, p, k as int);
            }
            let none: Vec<TableSchema> = Vec::new();
            assert(table_views(none@) =~= r.namespaces[k as int].tables);
            let v = find_violation(&none, ops, self.column_limit);
            if v < ops.len() {
                assert(op_views(ops@)[v as int] == ops@[v as int]@);
                let table = copy_bytes(ops[v].table.as_slice());
                return Err(GuardrailError::ColumnLimitExceeded { table, limit: self.column_limit });
            }
            let retention = self.default_retention_hours;
            self.create_namespace(tenant, name, retention);
        } else {
            assert(namespace_views(self.namespaces@)[k as int] == self.namespaces@[k as int]@);
            let v = find_violation(&self.namespaces[k].tables, ops, self.column_limit);
            if v < ops.len() {
                assert(op_views(ops@)[v as int] == ops@[v as int]@);
                let table = copy_bytes(ops[v].table.as_slice());
                return Err(GuardrailError::ColumnLimitExceeded { table, limit: self.column_limit });
            }
        }
        proof {
            let r = self@;
            assert(r == with_namespace(c, tenant@, name@, c.default_retention_hours));
            assert(namespace_position(r.namespaces, tenant@, name@) == k);
            assert(r.namespaces[k as int] == self.namespaces@[k as int]@);
        }
        let ghost before = namespace_views(self.namespaces@);
        let mut ns = self.namespaces.remove(k);
        assert(ns@ == before[k as int]);
        apply_all(&mut ns.tables, ops);
        self.namespaces.insert(k, ns);
        assert(namespace_views(self.namespaces@) =~= before.update(
            k as int,
            NamespaceModel {
                tenant: before[k as int].tenant,
                name: before[k as int].name,
                retention_hours: before[k as int].retention_hours,
                tables: apply_ops(before[k as int].tables, batch@),
            },
        ));
        Ok(())
    }
}

} // verus!
