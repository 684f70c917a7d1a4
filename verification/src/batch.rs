//! A write batch: what a payload writes, table by table.

use crate::bytes::{
    bytes_eq, lemma_position_of, lemma_position_of_unique, position_of, split, split_bytes, views,
};
use crate::line_protocol::{
    is_blank, line_meaning, parse_line, LineModel, ParseFailure, ParsedLine, NEWLINE,
};
use crate::names::{lemma_merge_unique, merge_names, merge_unique};
use vstd::prelude::*;

verus! {

/// What a batch does to one table, as a mathematical value.
pub struct OpModel {
    pub table: Seq<u8>,
    pub columns: Seq<Seq<u8>>,
    pub rows: nat,
}

/// What a batch does to one table: the columns it names, each once, in
/// order of first appearance, and the number of rows it writes.
#[derive(Debug)]
pub struct TableWriteOp {
    pub table: Vec<u8>,
    pub columns: Vec<Vec<u8>>,
    pub rows: usize,
}

impl View for TableWriteOp {
    type V = OpModel;

    open spec fn view(&self) -> OpModel {
        OpModel { table: self.table@, columns: views(self.columns@), rows: self.rows as nat }
    }
}

/// The models of `v`, in order.
pub open spec fn op_views(v: Seq<TableWriteOp>) -> Seq<OpModel> {
    Seq::new(v.len(), |i: int| v[i]@)
}

/// The table names of `ops`, in order.
pub open spec fn tables_of(ops: Seq<OpModel>) -> Seq<Seq<u8>> {
    Seq::new(ops.len(), |i: int| ops[i].table)
}

/// `ops` after one more line: the line's table gains a row and the line's
/// columns; a table not seen before is appended.
pub open spec fn add_line(ops: Seq<OpModel>, line: LineModel) -> Seq<OpModel> {
    let k = position_of(tables_of(ops), line.table);
    if 0 <= k < ops.len() {
        ops.update(
            k,
            OpModel {
                table: ops[k].table,
                columns: merge_unique(ops[k].columns, line.columns),
                rows: ops[k].rows + 1,
            },
        )
    } else {
        ops.push(
            OpModel {
                table: line.table,
                columns: merge_unique(Seq::empty(), line.columns),
                rows: 1,
            },
        )
    }
}

/// What `lines` mean together: the operations of all lines where every
/// line is well-formed, else the number (from 1) and the defect of the
/// first malformed line.
pub open spec fn lines_meaning(lines: Seq<Seq<u8>>) -> Result<Seq<OpModel>, (nat, ParseFailure)>
    decreases lines.len(),
{
    if lines.len() == 0 {
        Ok(Seq::empty())
    } else {
        match lines_meaning(lines.drop_last()) {
            Err(e) => Err(e),
            Ok(ops) => match line_meaning(lines.last()) {
                Err(f) => Err((lines.len(), f)),
                Ok(None) => Ok(ops),
                Ok(Some(l)) => Ok(add_line(ops, l)),
            },
        }
    }
}

/// What `payload` means.
pub open spec fn payload_meaning(payload: Seq<u8>) -> Result<Seq<OpModel>, (nat, ParseFailure)> {
    lines_meaning(split(payload, NEWLINE))
}

/// A batch is well-formed: no table twice, no column twice in a table,
/// every table named and written to at least once.
pub open spec fn batch_wf(ops: Seq<OpModel>) -> bool {
    &&& tables_of(ops).no_duplicates()
    &&& forall|i: int|
        0 <= i < ops.len() ==> {
            &&& (#[trigger] ops[i]).columns.no_duplicates()
            &&& ops[i].rows >= 1
        }
}

/// Adding a line keeps a batch well-formed.
pub proof fn lemma_add_line_wf(ops: Seq<OpModel>, line: LineModel)
    requires
        batch_wf(ops),
    ensures
        batch_wf(add_line(ops, line)),
{
    let k = position_of(tables_of(ops), line.table);
    let r = add_line(ops, line);
    lemma_position_of(tables_of(ops), line.table);
    if 0 <= k < ops.len() {
        lemma_merge_unique(ops[k].columns, line.columns);
        assert(tables_of(r) =~= tables_of(ops));
    } else {
        lemma_merge_unique(Seq::empty(), line.columns);
        assert(tables_of(r) =~= tables_of(ops).push(line.table));
        assert forall|i: int, j: int|
            0 <= i < tables_of(r).len() && 0 <= j < tables_of(r).len() && i != j implies tables_of(
            r,
        )[i] != tables_of(r)[j] by {
            if i < ops.len() && j < ops.len() {
                assert(tables_of(ops)[i] != tables_of(ops)[j]);
            } else if i < ops.len() {
                assert(tables_of(ops)[i] != line.table);
            } else {
                assert(tables_of(ops)[j] != line.table);
            }
        }
    }
}

/// Every payload that has a meaning means a well-formed batch.
pub proof fn lemma_lines_meaning_wf(lines: Seq<Seq<u8>>)
    ensures
        lines_meaning(lines) matches Ok(ops) ==> batch_wf(ops),
    decreases lines.len(),
{
    if lines.len() > 0 {
        lemma_lines_meaning_wf(lines.drop_last());
        match lines_meaning(lines.drop_last()) {
            Err(e) => {},
            Ok(ops) => match line_meaning(lines.last()) {
                Err(f) => {},
                Ok(None) => {},
                Ok(Some(l)) => {
                    lemma_add_line_wf(ops, l);
                },
            },
        }
    }
}

/// Number of rows that `ops` write, over all tables.
pub open spec fn total_rows(ops: Seq<OpModel>) -> nat
    decreases ops.len(),
{
    if ops.len() == 0 {
        0
    } else {
        total_rows(ops.drop_last()) + ops.last().rows
    }
}

/// Number of lines of `lines` that carry data: those that are neither
/// empty nor a comment.
pub open spec fn data_lines(lines: Seq<Seq<u8>>) -> nat
    decreases lines.len(),
{
    if lines.len() == 0 {
        0
    } else {
        data_lines(lines.drop_last()) + if is_blank(lines.last()) {
            0nat
        } else {
            1nat
        }
    }
}

/// Giving one table one more row gives the batch one more row.
pub proof fn lemma_total_rows_update(ops: Seq<OpModel>, k: int, op: OpModel)
    requires
        0 <= k < ops.len(),
        op.rows == ops[k].rows + 1,
    ensures
        total_rows(ops.update(k, op)) == total_rows(ops) + 1,
    decreases ops.len(),
{
    let after = ops.update(k, op);
    if k == ops.len() - 1 {
        assert(after.drop_last() =~= ops.drop_last());
    } else {
        assert(after.drop_last() =~= ops.drop_last().update(k, op));
        lemma_total_rows_update(ops.drop_last(), k, op);
    }
}

/// Every line that carries data is one row of the batch: a batch writes as
/// many rows as its payload has data lines.
pub proof fn lemma_rows_counted(lines: Seq<Seq<u8>>)
    ensures
        lines_meaning(lines) matches Ok(ops) ==> total_rows(ops) == data_lines(lines),
    decreases lines.len(),
{
    if lines.len() > 0 {
        lemma_rows_counted(lines.drop_last());
        match lines_meaning(lines.drop_last()) {
            Err(e) => {},
            Ok(ops) => match line_meaning(lines.last()) {
                Err(f) => {},
                Ok(None) => {},
                Ok(Some(l)) => {
                    let k = position_of(tables_of(ops), l.table);
                    lemma_position_of(tables_of(ops), l.table);
                    if 0 <= k < ops.len() {
                        lemma_total_rows_update(
                            ops,
                            k,
                            OpModel {
                                table: ops[k].table,
                                columns: merge_unique(ops[k].columns, l.columns),
                                rows: ops[k].rows + 1,
                            },
                        );
                    } else {
                        let pushed = add_line(ops, l);
                        assert(pushed.drop_last() =~= ops);
                    }
                },
            },
        }
    }
}

/// A malformed line: its number, counted from 1, and its defect.
#[derive(Clone, Copy, Debug, PartialEq, Eq, Structural)]
pub struct ParseError {
    pub line: usize,
    pub reason: ParseFailure,
}

/// The operations of one write, one per table, in order of first
/// appearance. A batch is not changed once it is made.
#[derive(Debug)]
pub struct WriteBatch {
    ops: Vec<TableWriteOp>,
}

impl View for WriteBatch {
    type V = Seq<OpModel>;

    closed spec fn view(&self) -> Seq<OpModel> {
        op_views(self.ops@)
    }
}

/// Position of `table` among `ops`, or their number where it is not there.
fn find_table(ops: &Vec<TableWriteOp>, table: &[u8]) -> (k: usize)
    ensures
        k == position_of(tables_of(op_views(ops@)), table@),
        k <= ops.len(),
{
    let ghost tables = tables_of(op_views(ops@));
    let mut i: usize = 0;
    while i < ops.len()
        invariant
            i <= ops.len(),
            tables == tables_of(op_views(ops@)),
            forall|j: int| 0 <= j < i ==> tables[j] != table@,
        decreases ops.len() - i,
    {
        assert(tables[i as int] == ops@[i as int].table@);
        if bytes_eq(ops[i].table.as_slice(), table) {
            proof {
                lemma_position_of_unique(tables, table@, i as int);
            }
            return i;
        }
        i = i + 1;
    }
    proof {
        lemma_position_of_unique(tables, table@, i as int);
    }
    i
}

/// Adds one line to `ops`.
fn add_parsed_line(ops: &mut Vec<TableWriteOp>, line: ParsedLine, Ghost(seen): Ghost<nat>)
    requires
        forall|i: int| 0 <= i < old(ops).len() ==> old(ops)@[i].rows <= seen,
        seen < usize::MAX,
    ensures
        op_views(final(ops)@) == add_line(op_views(old(ops)@), line@),
        forall|i: int| 0 <= i < final(ops).len() ==> final(ops)@[i].rows <= seen + 1,
{
    let ghost before = op_views(ops@);
    let k = find_table(ops, line.table.as_slice());
    if k < ops.len() {
        let mut op = ops.remove(k);
        assert(op@ == before[k as int]);
        merge_names(&mut op.columns, &line.columns);
        op.rows = op.rows + 1;
        ops.insert(k, op);
        assert(op_views(ops@) =~= add_line(before, line@));
    } else {
        let mut columns: Vec<Vec<u8>> = Vec::new();
        assert(views(columns@) =~= Seq::<Seq<u8>>::empty());
        merge_names(&mut columns, &line.columns);
        ops.push(TableWriteOp { table: line.table, columns, rows: 1 });
        assert(op_views(ops@) =~= add_line(before, line@));
    }
}

impl WriteBatch {
    /// Reads a payload. Gives the batch it means, or the first malformed
    /// line.
    pub fn parse(payload: &[u8]) -> (r: Result<WriteBatch, ParseError>)
        ensures
            match r {
                Ok(batch) => payload_meaning(payload@) == Ok::<
                    Seq<OpModel>,
                    (nat, ParseFailure),
                >(batch@) && batch_wf(batch@),
                Err(e) => payload_meaning(payload@) == Err::<Seq<OpModel>, (nat, ParseFailure)>(
                    (e.line as nat, e.reason),
                ),
            },
    {
        let lines = split_bytes(payload, NEWLINE);
        let ghost all = split(payload@, NEWLINE);
        let mut ops: Vec<TableWriteOp> = Vec::new();
        let mut i: usize = 0;
        assert(all.take(0) =~= Seq::<Seq<u8>>::empty());
        assert(op_views(ops@) =~= Seq::<OpModel>::empty());
        while i < lines.len()
            invariant
                i <= lines.len(),
                all == views(lines@),
                all == split(payload@, NEWLINE),
                lines_meaning(all.take(i as int)) == Ok::<Seq<OpModel>, (nat, ParseFailure)>(
                    op_views(ops@),
                ),
                forall|j: int| 0 <= j < ops.len() ==> ops@[j].rows <= i,
            decreases lines.len() - i,
        {
            let ghost done = all.take(i as int);
            let ghost next = all.take(i as int + 1);
            proof {
                assert(next.drop_last() =~= done);
                assert(next.last() == lines@[i as int]@);
            }
            match parse_line(lines[i].as_slice()) {
                Err(reason) => {
                    proof {
                        assert(next.len() == i + 1);
                        assert(lines_meaning(next) == Err::<Seq<OpModel>, (nat, ParseFailure)>(
                            (next.len(), reason),
                        ));
                        lemma_meaning_of_bad_prefix(all, i as int + 1);
                    }
                    return Err(ParseError { line: i + 1, reason });
                },
                Ok(None) => {},
                Ok(Some(line)) => {
                    add_parsed_line(&mut ops, line, Ghost(i as nat));
                },
            }
            i = i + 1;
        }
        proof {
            assert(all.take(i as int) =~= all);
            lemma_lines_meaning_wf(all);
        }
        Ok(WriteBatch { ops })
    }

    /// The operations, one per table.
    pub fn ops(&self) -> (ops: &Vec<TableWriteOp>)
        ensures
            op_views(ops@) == self@,
    {
        &self.ops
    }

    /// Number of tables that the batch writes to.
    pub fn table_count(&self) -> (n: usize)
        ensures
            n == self@.len(),
    {
        self.ops.len()
    }
}

/// A defect in a prefix of the lines is the defect of all the lines.
pub proof fn lemma_meaning_of_bad_prefix(lines: Seq<Seq<u8>>, n: int)
    requires
        0 <= n <= lines.len(),
        lines_meaning(lines.take(n)) is Err,
    ensures
        lines_meaning(lines) == lines_meaning(lines.take(n)),
    decreases lines.len() - n,
{
    if n < lines.len() {
        assert(lines.take(n + 1).drop_last() =~= lines.take(n));
        lemma_meaning_of_bad_prefix(lines, n + 1);
    } else {
        assert(lines.take(n) =~= lines);
    }
}

} // verus!
