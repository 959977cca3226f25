//! The inodes of the mount, and which paths have become stale.

use vstd::prelude::*;

use crate::attr::FileType;
use crate::mount_paths::{child_path, descends, mount_text, Components, MountPath};
use crate::text::{law_text_order_is_strict_and_total, option_view, precedes, text_less};

verus! {

/// The inode of the root.
pub const ROOT_INO: u64 = 1;

/// A path with its inode.
#[derive(Debug, PartialEq, Eq)]
pub struct PathRow<P = MountPath> {
    pub path: P,
    pub ino: u64,
    pub kind: FileType,
}

/// The model of a path with its inode.
pub type Row = PathRow<Components>;

impl View for PathRow<MountPath> {
    type V = Row;

    open spec fn view(&self) -> Row {
        PathRow { path: self.path@, ino: self.ino, kind: self.kind }
    }
}

impl Clone for PathRow<MountPath> {
    fn clone(&self) -> (copy: Self)
        ensures
            copy@ == self@,
    {
        PathRow { path: self.path.clone(), ino: self.ino, kind: self.kind }
    }
}

/// The models of paths with their inodes.
pub open spec fn row_models(rows: Seq<PathRow>) -> Seq<Row> {
    rows.map_values(|row: PathRow| row@)
}

/// The paths that have an inode, and the next inode to be given out.
pub struct PathCache {
    rows: Vec<PathRow>,
    next_ino: u64,
}

/// The model of the path cache.
pub struct Table {
    pub rows: Seq<Row>,
    pub next: u64,
}

impl View for PathCache {
    type V = Table;

    closed spec fn view(&self) -> Table {
        Table { rows: row_models(self.rows@), next: self.next_ino }
    }
}

/// Whether each path has one inode, each inode one path, and no inode was given out
/// that is still to come.
pub open spec fn consistent(table: Table) -> bool {
    &&& forall|i: int, j: int|
        0 <= i < j < table.rows.len() ==> (#[trigger] table.rows[i]).path != (
        #[trigger] table.rows[j]).path
    &&& forall|i: int, j: int|
        0 <= i < j < table.rows.len() ==> (#[trigger] table.rows[i]).ino != (
        #[trigger] table.rows[j]).ino
    &&& forall|i: int| 0 <= i < table.rows.len() ==> (#[trigger] table.rows[i]).ino < table.next
    &&& table.next > ROOT_INO
}

/// The row of a path.
pub open spec fn row_at(rows: Seq<Row>, path: Components) -> Option<Row>
    decreases rows.len(),
{
    if rows.len() == 0 {
        None
    } else if rows[0].path == path {
        Some(rows[0])
    } else {
        row_at(rows.drop_first(), path)
    }
}

/// The path of an inode.
pub open spec fn path_of(rows: Seq<Row>, ino: u64) -> Option<Components>
    decreases rows.len(),
{
    if rows.len() == 0 {
        None
    } else if rows[0].ino == ino {
        Some(rows[0].path)
    } else {
        path_of(rows.drop_first(), ino)
    }
}

/// The rows that a condition holds of.
pub open spec fn kept(rows: Seq<Row>, keep: spec_fn(Row) -> bool) -> Seq<Row>
    decreases rows.len(),
{
    if rows.len() == 0 {
        rows
    } else if keep(rows.last()) {
        kept(rows.drop_last(), keep).push(rows.last())
    } else {
        kept(rows.drop_last(), keep)
    }
}

/// The rows with another kind for a path.
pub open spec fn with_kind(rows: Seq<Row>, path: Components, kind: FileType) -> Seq<Row> {
    rows.map_values(
        |row: Row|
            if row.path == path {
                PathRow { path, ino: row.ino, kind }
            } else {
                row
            },
    )
}

/// The table after a path was given an inode, or another kind for the one it has.
pub open spec fn ensured(table: Table, path: Components, kind: FileType) -> Table {
    if row_at(table.rows, path) is Some {
        Table { rows: with_kind(table.rows, path, kind), next: table.next }
    } else {
        Table {
            rows: table.rows.push(PathRow { path, ino: table.next, kind }),
            next: (table.next + 1) as u64,
        }
    }
}

/// Whether a row is that of another path.
pub open spec fn other_than(path: Components) -> spec_fn(Row) -> bool {
    |row: Row| row.path != path
}

/// Whether a row lies neither at a path nor below it. At the root itself only the
/// root stays.
pub open spec fn outside(path: Components) -> spec_fn(Row) -> bool {
    |row: Row|
        if path.len() == 0 {
            row.path.len() == 0
        } else {
            row.path != path && !descends(row.path, path)
        }
}

/// Whether a row is the root, or does not lie below a path.
pub open spec fn not_below(path: Components) -> spec_fn(Row) -> bool {
    |row: Row| row.path.len() == 0 || !descends(row.path, path)
}

/// The table without a path.
pub open spec fn removed(table: Table, path: Components) -> Table {
    Table { rows: kept(table.rows, other_than(path)), next: table.next }
}

/// The table without a path and what lies below it. Of the whole tree only the root
/// stays.
pub open spec fn removed_recursively(table: Table, path: Components) -> Table {
    Table {
        rows: kept(table.rows, outside(path)),
        next: table.next,
    }
}

/// The table without what lies below a path.
pub open spec fn removed_below(table: Table, path: Components) -> Table {
    Table {
        rows: kept(table.rows, not_below(path)),
        next: table.next,
    }
}

/// The first place whose path comes after the given one.
pub open spec fn row_place(rows: Seq<Row>, path: Components) -> int
    decreases rows.len(),
{
    if rows.len() == 0 || text_less(mount_text(path), mount_text(rows[0].path)) {
        0
    } else {
        1 + row_place(rows.drop_first(), path)
    }
}

/// The rows in the order of their paths.
pub open spec fn ordered(rows: Seq<Row>) -> Seq<Row>
    decreases rows.len(),
{
    if rows.len() == 0 {
        rows
    } else {
        let before = ordered(rows.drop_last());
        before.insert(row_place(before, rows.last().path), rows.last())
    }
}

// ---------------------------------------------------------------------------
// Laws
// ---------------------------------------------------------------------------

proof fn lemma_row_at(rows: Seq<Row>, path: Components)
    ensures
        match row_at(rows, path) {
            Some(row) => exists|i: int| 0 <= i < rows.len() && #[trigger] rows[i] == row && row.path
                == path,
            None => forall|i: int| 0 <= i < rows.len() ==> (#[trigger] rows[i]).path != path,
        },
    decreases rows.len(),
{
    if rows.len() > 0 {
        if rows[0].path == path {
            assert(rows[0] == rows[0]);
        } else {
            let rest = rows.drop_first();
            lemma_row_at(rest, path);
            if row_at(rest, path) is Some {
                let i = choose|i: int|
                    0 <= i < rest.len() && #[trigger] rest[i] == row_at(rest, path).unwrap();
                assert(rows[i + 1] == rest[i]);
            } else {
                assert forall|i: int| 0 <= i < rows.len() implies (#[trigger] rows[i]).path
                    != path by {
                    if i > 0 {
                        assert(rows[i] == rest[i - 1]);
                    }
                }
            }
        }
    }
}

proof fn lemma_path_of(rows: Seq<Row>, i: int)
    requires
        0 <= i < rows.len(),
        forall|a: int, b: int|
            0 <= a < b < rows.len() ==> (#[trigger] rows[a]).ino != (#[trigger] rows[b]).ino,
    ensures
        path_of(rows, rows[i].ino) == Some(rows[i].path),
    decreases rows.len(),
{
    if i > 0 {
        let rest = rows.drop_first();
        assert(rows[0].ino != rows[i].ino);
        assert forall|a: int, b: int| 0 <= a < b < rest.len() implies (#[trigger] rest[a]).ino != (
        #[trigger] rest[b]).ino by {
            assert(rest[a] == rows[a + 1]);
            assert(rest[b] == rows[b + 1]);
        }
        lemma_path_of(rest, i - 1);
        assert(rest[i - 1] == rows[i]);
    }
}

/// Every row that is kept was there and meets the condition; every row that was there
/// and meets it is kept; and the rows stay in order.
proof fn lemma_kept(rows: Seq<Row>, keep: spec_fn(Row) -> bool)
    ensures
        kept(rows, keep).len() <= rows.len(),
        forall|i: int| 0 <= i < kept(rows, keep).len() ==> keep(#[trigger] kept(rows, keep)[i]),
        exists|from: spec_fn(int) -> int| #[trigger]
            comes_from(rows, kept(rows, keep), from),
        forall|i: int| 0 <= i < rows.len() && keep(#[trigger] rows[i]) ==> kept(rows, keep).contains(rows[i]),
    decreases rows.len(),
{
    if rows.len() == 0 {
        assert(comes_from(rows, kept(rows, keep), |i: int| i));
    } else {
        let front = rows.drop_last();
        lemma_kept(front, keep);
        let before = kept(front, keep);
        let after = kept(rows, keep);
        let from = choose|from: spec_fn(int) -> int| #[trigger] comes_from(front, before, from);
        if keep(rows.last()) {
            let further = |i: int|
                if i < before.len() {
                    from(i)
                } else {
                    rows.len() - 1
                };
            assert forall|i: int, j: int| 0 <= i < j < after.len() implies #[trigger] further(i)
                < #[trigger] further(j) by {
                if j < before.len() {
                    assert(from(i) < from(j));
                } else {
                    assert(front[from(i)] == before[i]);
                }
            }
            assert forall|i: int| 0 <= i < after.len() implies 0 <= further(i) < rows.len()
                && rows[#[trigger] further(i)] == after[i] by {
                if i < before.len() {
                    assert(front[from(i)] == before[i]);
                }
            }
            assert(comes_from(rows, after, further));
            assert forall|i: int| 0 <= i < rows.len() && keep(#[trigger] rows[i]) implies after.contains(
                rows[i],
            ) by {
                if i < front.len() {
                    assert(front[i] == rows[i]);
                    assert(before.contains(rows[i]));
                    let k = choose|k: int| 0 <= k < before.len() && before[k] == rows[i];
                    assert(after[k] == rows[i]);
                } else {
                    assert(after[before.len() as int] == rows[i]);
                }
            }
        } else {
            assert forall|i: int| 0 <= i < after.len() implies 0 <= from(i) < rows.len()
                && rows[#[trigger] from(i)] == after[i] by {
                assert(front[from(i)] == before[i]);
            }
            assert(comes_from(rows, after, from));
            assert forall|i: int| 0 <= i < rows.len() && keep(#[trigger] rows[i]) implies after.contains(
                rows[i],
            ) by {
                assert(front[i] == rows[i]);
            }
        }
    }
}

/// Whether some rows are rows of another list, in the same order.
spec fn comes_from(rows: Seq<Row>, some: Seq<Row>, from: spec_fn(int) -> int) -> bool {
    &&& forall|i: int| 0 <= i < some.len() ==> 0 <= from(i) < rows.len() && rows[#[trigger] from(i)] == some[i]
    &&& forall|i: int, j: int| 0 <= i < j < some.len() ==> #[trigger] from(i) < #[trigger] from(j)
}

proof fn lemma_kept_is_consistent(table: Table, keep: spec_fn(Row) -> bool)
    requires
        consistent(table),
    ensures
        consistent(Table { rows: kept(table.rows, keep), next: table.next }),
{
    lemma_kept(table.rows, keep);
    let some = kept(table.rows, keep);
    let from = choose|from: spec_fn(int) -> int| #[trigger] comes_from(table.rows, some, from);
    assert forall|i: int, j: int| 0 <= i < j < some.len() implies (#[trigger] some[i]).path != (
    #[trigger] some[j]).path && some[i].ino != some[j].ino by {
        assert(table.rows[from(i)] == some[i]);
        assert(table.rows[from(j)] == some[j]);
        assert(from(i) < from(j));
    }
    assert forall|i: int| 0 <= i < some.len() implies (#[trigger] some[i]).ino < table.next by {
        assert(table.rows[from(i)] == some[i]);
    }
}

/// Giving out an inode keeps one inode for each path and one path for each inode, and
/// so does taking paths away.
pub proof fn law_inodes_stay_unique(table: Table, path: Components, kind: FileType)
    requires
        consistent(table),
    ensures
        (row_at(table.rows, path) is None ==> table.next < u64::MAX) ==> consistent(
            ensured(table, path, kind),
        ),
        consistent(removed(table, path)),
        consistent(removed_recursively(table, path)),
        consistent(removed_below(table, path)),
{
    lemma_kept_is_consistent(table, other_than(path));
    lemma_kept_is_consistent(table, outside(path));
    lemma_kept_is_consistent(table, not_below(path));
    if row_at(table.rows, path) is None ==> table.next < u64::MAX {
        lemma_ensured_is_consistent(table, path, kind);
    }
}

/// A path is found among the rows that are kept exactly where its row is kept.
proof fn lemma_row_at_kept(rows: Seq<Row>, keep: spec_fn(Row) -> bool, path: Components)
    requires
        forall|a: Row, b: Row| a.path == b.path ==> #[trigger] keep(a) == #[trigger] keep(b),
    ensures
        row_at(kept(rows, keep), path) == match row_at(rows, path) {
            Some(row) if keep(row) => Some(row),
            _ => None,
        },
    decreases rows.len(),
{
    if rows.len() > 0 {
        let front = rows.drop_last();
        let last = rows.last();
        lemma_row_at_kept(front, keep, path);
        lemma_row_at_push(front, last, path);
        lemma_row_at_push(kept(front, keep), last, path);
        assert(rows =~= front.push(last));
        lemma_row_at(front, path);
        if row_at(front, path) is Some {
            assert(row_at(front, path).unwrap().path == path);
        }
    }
}

proof fn lemma_row_at_push(rows: Seq<Row>, row: Row, path: Components)
    ensures
        row_at(rows.push(row), path) == match row_at(rows, path) {
            Some(found) => Some(found),
            None => if row.path == path {
                Some(row)
            } else {
                None
            },
        },
    decreases rows.len(),
{
    if rows.len() == 0 {
        assert(rows.push(row).drop_first() =~= rows);
    } else {
        lemma_row_at_push(rows.drop_first(), row, path);
        assert(rows.push(row).drop_first() =~= rows.drop_first().push(row));
    }
}

/// Taking a path away takes that path and no other. With what lies below it, it takes
/// nothing else, and the root stays. What lies below a path can also go alone.
pub proof fn law_removal_takes_only_what_it_names(
    table: Table,
    path: Components,
    other: Components,
)
    ensures
        row_at(removed(table, path).rows, other) == if other == path {
            None
        } else {
            row_at(table.rows, other)
        },
        row_at(removed_recursively(table, path).rows, other) == if other.len() > 0 && (other == path
            || descends(other, path)) || path.len() == 0 && other.len() > 0 {
            None
        } else {
            row_at(table.rows, other)
        },
        row_at(removed_below(table, path).rows, other) == if other.len() > 0 && descends(
            other,
            path,
        ) {
            None
        } else {
            row_at(table.rows, other)
        },
{
    lemma_row_at(table.rows, other);
    lemma_row_at_kept(table.rows, other_than(path), other);
    lemma_row_at_kept(table.rows, outside(path), other);
    lemma_row_at_kept(table.rows, not_below(path), other);
}

/// What can be done to a table.
pub enum TableStep {
    Ensure { path: Components, kind: FileType },
    Remove { path: Components },
    RemoveRecursively { path: Components },
    RemoveBelow { path: Components },
}

/// The table after a step.
pub open spec fn stepped(table: Table, step: TableStep) -> Table {
    match step {
        TableStep::Ensure { path, kind } => ensured(table, path, kind),
        TableStep::Remove { path } => removed(table, path),
        TableStep::RemoveRecursively { path } => removed_recursively(table, path),
        TableStep::RemoveBelow { path } => removed_below(table, path),
    }
}

/// Whether a step gives out an inode.
pub open spec fn gives_out(table: Table, step: TableStep) -> bool {
    step matches TableStep::Ensure { path, kind } && row_at(table.rows, path) is None
}

/// The table after steps, one after another.
pub open spec fn walked(table: Table, steps: Seq<TableStep>) -> Table
    decreases steps.len(),
{
    if steps.len() == 0 {
        table
    } else {
        stepped(walked(table, steps.drop_last()), steps.last())
    }
}

/// The inodes that steps give out, in order.
pub open spec fn given_out(table: Table, steps: Seq<TableStep>) -> Seq<u64>
    decreases steps.len(),
{
    if steps.len() == 0 {
        Seq::empty()
    } else {
        let before = walked(table, steps.drop_last());
        if gives_out(before, steps.last()) {
            given_out(table, steps.drop_last()).push(before.next)
        } else {
            given_out(table, steps.drop_last())
        }
    }
}

/// Whether there is an inode left for every step that gives one out.
pub open spec fn enough_inodes(table: Table, steps: Seq<TableStep>) -> bool
    decreases steps.len(),
{
    steps.len() == 0 || (enough_inodes(table, steps.drop_last()) && (gives_out(
        walked(table, steps.drop_last()),
        steps.last(),
    ) ==> walked(table, steps.drop_last()).next < u64::MAX))
}

/// No inode is given out twice, whatever was done before, so not that of a path that
/// was taken away either, and never that of the root: the inodes that are given out
/// grow, and the next one is greater than all of them.
pub proof fn law_no_inode_is_given_out_twice(table: Table, steps: Seq<TableStep>)
    requires
        consistent(table),
        enough_inodes(table, steps),
    ensures
        consistent(walked(table, steps)),
        ROOT_INO < table.next <= walked(table, steps).next,
        forall|i: int|
            0 <= i < given_out(table, steps).len() ==> table.next <= #[trigger] given_out(
                table,
                steps,
            )[i] < walked(table, steps).next,
        forall|i: int, j: int|
            0 <= i < j < given_out(table, steps).len() ==> #[trigger] given_out(table, steps)[i]
                < #[trigger] given_out(table, steps)[j],
    decreases steps.len(),
{
    if steps.len() > 0 {
        let front = steps.drop_last();
        law_no_inode_is_given_out_twice(table, front);
        let before = walked(table, front);
        match steps.last() {
            TableStep::Ensure { path, kind } => {
                law_inodes_stay_unique(before, path, kind);
            },
            TableStep::Remove { path }
            | TableStep::RemoveRecursively { path }
            | TableStep::RemoveBelow { path } => {
                law_inodes_stay_unique(before, path, FileType::Directory);
            },
        }
        let early = given_out(table, front);
        let given = given_out(table, steps);
        assert forall|i: int| 0 <= i < given.len() implies table.next <= #[trigger] given[i]
            < walked(table, steps).next by {
            if i < early.len() {
                assert(given[i] == early[i]);
            }
        }
        assert forall|i: int, j: int| 0 <= i < j < given.len() implies #[trigger] given[i]
            < #[trigger] given[j] by {
            assert(given[i] == early[i]);
            if j < early.len() {
                assert(given[j] == early[j]);
            }
        }
    }
}

proof fn lemma_ensured_is_consistent(table: Table, path: Components, kind: FileType)
    requires
        consistent(table),
        row_at(table.rows, path) is None ==> table.next < u64::MAX,
    ensures
        consistent(ensured(table, path, kind)),
{
    lemma_row_at(table.rows, path);
    let after = ensured(table, path, kind);
    if row_at(table.rows, path) is Some {
        assert forall|i: int| 0 <= i < after.rows.len() implies (#[trigger] after.rows[i]).ino
            == table.rows[i].ino && after.rows[i].path == table.rows[i].path by {}
        assert forall|i: int, j: int| 0 <= i < j < after.rows.len() implies (
        #[trigger] after.rows[i]).path != (#[trigger] after.rows[j]).path && after.rows[i].ino
            != after.rows[j].ino by {
            assert(table.rows[i].path != table.rows[j].path);
            assert(table.rows[i].ino != table.rows[j].ino);
        }
        assert forall|i: int| 0 <= i < after.rows.len() implies (#[trigger] after.rows[i]).ino
            < after.next by {
            assert(table.rows[i].ino < table.next);
        }
    } else {
        assert forall|i: int, j: int| 0 <= i < j < after.rows.len() implies (
        #[trigger] after.rows[i]).path != (#[trigger] after.rows[j]).path && after.rows[i].ino
            != after.rows[j].ino by {
            assert(after.rows[i] == table.rows[i]);
            if j < table.rows.len() {
                assert(after.rows[j] == table.rows[j]);
            }
        }
        assert forall|i: int| 0 <= i < after.rows.len() implies (#[trigger] after.rows[i]).ino
            < after.next by {
            if i < table.rows.len() {
                assert(after.rows[i] == table.rows[i]);
            }
        }
    }
}

proof fn lemma_other_rows(rows: Seq<Row>, path: Components, kind: FileType, row: Row, other: Components)
    requires
        other != path,
        other != row.path,
    ensures
        row_at(with_kind(rows, path, kind), other) == row_at(rows, other),
        row_at(rows.push(row), other) == row_at(rows, other),
    decreases rows.len(),
{
    if rows.len() == 0 {
        assert(with_kind(rows, path, kind) =~= rows);
        assert(rows.push(row).drop_first() =~= rows);
    } else {
        let rest = rows.drop_first();
        lemma_other_rows(rest, path, kind, row, other);
        assert(with_kind(rows, path, kind).drop_first() =~= with_kind(rest, path, kind));
        assert(rows.push(row).drop_first() =~= rest.push(row));
    }
}

/// A path that was given an inode is found under it, keeps it when it is given one
/// again, and no other path is touched.
pub proof fn law_inodes_are_stable(
    table: Table,
    path: Components,
    kind: FileType,
    again: FileType,
    other: Components,
)
    requires
        consistent(table),
        row_at(table.rows, path) is None ==> table.next < u64::MAX,
    ensures
        row_at(ensured(table, path, kind).rows, path) matches Some(row) && row.kind == kind
            && path_of(ensured(table, path, kind).rows, row.ino) == Some(path) && row.ino == (
        match row_at(table.rows, path) {
            Some(before) => before.ino,
            None => table.next,
        }),
        row_at(ensured(ensured(table, path, kind), path, again).rows, path) matches Some(row)
            && row.kind == again && row.ino == row_at(
            ensured(table, path, kind).rows,
            path,
        ).unwrap().ino,
        other != path ==> row_at(ensured(table, path, kind).rows, other) == row_at(
            table.rows,
            other,
        ),
{
    if other != path {
        lemma_other_rows(
            table.rows,
            path,
            kind,
            PathRow { path, ino: table.next, kind },
            other,
        );
    }
    let after = ensured(table, path, kind);
    lemma_ensured_is_consistent(table, path, kind);
    lemma_row_at(table.rows, path);
    lemma_row_at(after.rows, path);
    if row_at(table.rows, path) is Some {
        let row = row_at(table.rows, path).unwrap();
        let i = choose|i: int| 0 <= i < table.rows.len() && #[trigger] table.rows[i] == row;
        assert(after.rows[i].path == path);
        lemma_unique_row(after.rows, path, i);
    } else {
        assert(after.rows[table.rows.len() as int].path == path);
        lemma_unique_row(after.rows, path, table.rows.len() as int);
    }
    let row = row_at(after.rows, path).unwrap();
    let i = choose|i: int| 0 <= i < after.rows.len() && #[trigger] after.rows[i] == row;
    lemma_path_of(after.rows, i);
    let last = ensured(after, path, again);
    assert(last.rows[i].path == path);
    lemma_ensured_is_consistent(after, path, again);
    lemma_row_at(last.rows, path);
    lemma_unique_row(last.rows, path, i);
}

proof fn lemma_other_inodes(rows: Seq<Row>, path: Components, kind: FileType, row: Row, ino: u64)
    ensures
        path_of(with_kind(rows, path, kind), ino) == path_of(rows, ino),
        ino != row.ino ==> path_of(rows.push(row), ino) == path_of(rows, ino),
    decreases rows.len(),
{
    if rows.len() == 0 {
        assert(with_kind(rows, path, kind) =~= rows);
        assert(rows.push(row).drop_first() =~= rows);
    } else {
        let rest = rows.drop_first();
        lemma_other_inodes(rest, path, kind, row, ino);
        assert(with_kind(rows, path, kind).drop_first() =~= with_kind(rest, path, kind));
        assert(rows.push(row).drop_first() =~= rest.push(row));
    }
}

/// Giving a path an inode leaves the paths of all other inodes as they are.
pub proof fn law_other_inodes_keep_their_paths(
    table: Table,
    path: Components,
    kind: FileType,
    ino: u64,
)
    requires
        row_at(table.rows, path) is None ==> ino != table.next,
    ensures
        path_of(ensured(table, path, kind).rows, ino) == path_of(table.rows, ino),
{
    lemma_other_inodes(table.rows, path, kind, PathRow { path, ino: table.next, kind }, ino);
}

/// Putting rows in order keeps as many of them.
pub proof fn lemma_ordered_is_same(rows: Seq<Row>)
    ensures
        ordered(rows).len() == rows.len(),
    decreases rows.len(),
{
    if rows.len() > 0 {
        lemma_ordered_is_same(rows.drop_last());
        lemma_row_place(ordered(rows.drop_last()), rows.last().path);
    }
}

proof fn lemma_row_place(rows: Seq<Row>, path: Components)
    ensures
        0 <= row_place(rows, path) <= rows.len(),
        forall|i: int|
            0 <= i < row_place(rows, path) ==> !text_less(
                mount_text(path),
                mount_text((#[trigger] rows[i]).path),
            ),
        row_place(rows, path) < rows.len() ==> text_less(
            mount_text(path),
            mount_text(rows[row_place(rows, path)].path),
        ),
    decreases rows.len(),
{
    if rows.len() > 0 && !text_less(mount_text(path), mount_text(rows[0].path)) {
        let rest = rows.drop_first();
        lemma_row_place(rest, path);
        assert forall|i: int| 0 <= i < row_place(rows, path) implies !text_less(
            mount_text(path),
            mount_text((#[trigger] rows[i]).path),
        ) by {
            if i > 0 {
                assert(rows[i] == rest[i - 1]);
            }
        }
    }
}

/// Whether no row comes before one whose path is less.
pub open spec fn rows_in_order(rows: Seq<Row>) -> bool {
    forall|i: int, j: int|
        0 <= i < j < rows.len() ==> !text_less(
            mount_text((#[trigger] rows[j]).path),
            mount_text((#[trigger] rows[i]).path),
        )
}

/// The rows of a snapshot are those of the table, in the order of their paths.
pub proof fn law_snapshots_are_in_order(rows: Seq<Row>)
    ensures
        rows_in_order(ordered(rows)),
        ordered(rows).to_multiset() == rows.to_multiset(),
    decreases rows.len(),
{
    broadcast use vstd::seq_lib::group_to_multiset_ensures;

    if rows.len() > 0 {
        let front = rows.drop_last();
        let last = rows.last();
        let before = ordered(front);
        law_snapshots_are_in_order(front);
        lemma_row_place(before, last.path);
        let at = row_place(before, last.path);
        let after = before.insert(at, last);
        let text = mount_text(last.path);
        assert forall|i: int, j: int| 0 <= i < j < after.len() implies !text_less(
            mount_text((#[trigger] after[j]).path),
            mount_text((#[trigger] after[i]).path),
        ) by {
            if i == at {
                let next = mount_text(before[at].path);
                let other = mount_text(after[j].path);
                law_text_order_is_strict_and_total(next, other, other);
                law_text_order_is_strict_and_total(other, text, next);
                law_text_order_is_strict_and_total(text, other, other);
                law_text_order_is_strict_and_total(text, next, other);
            }
        }
        assert(rows =~= front.push(last));
        assert(ordered(rows) == after);
    }
}

/// Putting rows in order keeps every path.
pub proof fn lemma_ordered_knows(rows: Seq<Row>, path: Components)
    ensures
        (exists|i: int| 0 <= i < ordered(rows).len() && (#[trigger] ordered(rows)[i]).path == path)
            == (exists|i: int| 0 <= i < rows.len() && (#[trigger] rows[i]).path == path),
    decreases rows.len(),
{
    if rows.len() > 0 {
        let front = rows.drop_last();
        let last = rows.last();
        let before = ordered(front);
        let after = ordered(rows);
        lemma_ordered_knows(front, path);
        lemma_row_place(before, last.path);
        let at = row_place(before, last.path);
        assert(after[at] == last);
        assert(rows[rows.len() - 1] == last);
        if exists|i: int| 0 <= i < after.len() && (#[trigger] after[i]).path == path {
            let i = choose|i: int| 0 <= i < after.len() && (#[trigger] after[i]).path == path;
            if i < at {
                assert(before[i].path == path);
            } else if i > at {
                assert(before[i - 1].path == path);
            }
            if i != at {
                let k = choose|k: int| 0 <= k < front.len() && (#[trigger] front[k]).path == path;
                assert(rows[k].path == path);
            }
        }
        if exists|i: int| 0 <= i < rows.len() && (#[trigger] rows[i]).path == path {
            let i = choose|i: int| 0 <= i < rows.len() && (#[trigger] rows[i]).path == path;
            if i < front.len() {
                assert(front[i].path == path);
                let k = choose|k: int| 0 <= k < before.len() && (#[trigger] before[k]).path == path;
                if k < at {
                    assert(after[k].path == path);
                } else {
                    assert(after[k + 1].path == path);
                }
            } else {
                assert(after[at].path == path);
            }
        }
    }
}

proof fn lemma_unique_row(rows: Seq<Row>, path: Components, i: int)
    requires
        0 <= i < rows.len(),
        rows[i].path == path,
        forall|a: int, b: int|
            0 <= a < b < rows.len() ==> (#[trigger] rows[a]).path != (#[trigger] rows[b]).path,
    ensures
        row_at(rows, path) == Some(rows[i]),
{
    lemma_row_at(rows, path);
    assert(rows[i].path == path);
    let row = row_at(rows, path).unwrap();
    let k = choose|k: int| 0 <= k < rows.len() && #[trigger] rows[k] == row;
    if k < i {
        assert(rows[k].path != rows[i].path);
    } else if i < k {
        assert(rows[i].path != rows[k].path);
    }
}

// ---------------------------------------------------------------------------
// The path cache
// ---------------------------------------------------------------------------

impl PathCache {
    #[verifier::type_invariant]
    spec fn unique(self) -> bool {
        consistent(self@)
    }

    /// A cache that holds the root alone.
    pub fn new() -> (cache: Self)
        ensures
            cache@ == (Table {
                rows: seq![
                    PathRow { path: Components::empty(), ino: ROOT_INO, kind: FileType::Directory },
                ],
                next: 2,
            }),
            consistent(cache@),
    {
        let root = PathRow { path: MountPath::root(), ino: ROOT_INO, kind: FileType::Directory };
        let rows = vec![root];
        assert(row_models(rows@) =~= seq![root@]);
        PathCache { rows, next_ino: 2 }
    }

    /// The path of an inode.
    pub fn path(&self, ino: u64) -> (path: Option<&MountPath>)
        ensures
            match path {
                Some(path) => path_of(self@.rows, ino) == Some(path@),
                None => path_of(self@.rows, ino) is None,
            },
    {
        let ghost models = row_models(self.rows@);
        let mut i: usize = 0;
        assert(models.skip(0) =~= models);
        while i < self.rows.len()
            invariant
                i <= self.rows.len(),
                models == row_models(self.rows@),
                path_of(models, ino) == path_of(models.skip(i as int), ino),
            decreases self.rows.len() - i,
        {
            assert(models.skip(i as int)[0] == self.rows@[i as int]@);
            if self.rows[i].ino == ino {
                return Some(&self.rows[i].path);
            }
            assert(models.skip(i as int).drop_first() =~= models.skip(i + 1));
            i += 1;
        }
        None
    }

    fn find(&self, path: &MountPath) -> (at: Option<usize>)
        ensures
            match at {
                Some(at) => at < self.rows.len() && row_at(self@.rows, path@) == Some(
                    self.rows[at as int]@,
                ) && self.rows[at as int]@.path == path@,
                None => row_at(self@.rows, path@) is None,
            },
    {
        let ghost models = row_models(self.rows@);
        let mut i: usize = 0;
        assert(models.skip(0) =~= models);
        while i < self.rows.len()
            invariant
                i <= self.rows.len(),
                models == row_models(self.rows@),
                row_at(models, path@) == row_at(models.skip(i as int), path@),
            decreases self.rows.len() - i,
        {
            assert(models.skip(i as int)[0] == self.rows@[i as int]@);
            if self.rows[i].path.same(path) {
                return Some(i);
            }
            assert(models.skip(i as int).drop_first() =~= models.skip(i + 1));
            i += 1;
        }
        None
    }

    /// The inode and the kind of a path.
    pub fn entry(&self, path: &MountPath) -> (entry: Option<(u64, FileType)>)
        ensures
            match entry {
                Some((ino, kind)) => row_at(self@.rows, path@) matches Some(row) && row.ino == ino
                    && row.kind == kind,
                None => row_at(self@.rows, path@) is None,
            },
    {
        match self.find(path) {
            Some(at) => Some((self.rows[at].ino, self.rows[at].kind)),
            None => None,
        }
    }

    /// How many inodes are left to be given out.
    pub fn room(&self) -> (room: u64)
        ensures
            room == u64::MAX - self@.next,
    {
        u64::MAX - self.next_ino
    }

    /// The inode of a path, with the given kind. A path without an inode gets the next
    /// one.
    pub fn ensure(&mut self, path: &MountPath, kind: FileType) -> (ino: u64)
        requires
            row_at(old(self)@.rows, path@) is None ==> old(self)@.next < u64::MAX,
        ensures
            final(self)@ == ensured(old(self)@, path@, kind),
            row_at(final(self)@.rows, path@) matches Some(row) && row.ino == ino && row.kind == kind,
            path_of(final(self)@.rows, ino) == Some(path@),
            ino == (match row_at(old(self)@.rows, path@) {
                Some(row) => row.ino,
                None => old(self)@.next,
            }),
            forall|other: Components|
                other != path@ ==> #[trigger] row_at(final(self)@.rows, other) == row_at(
                    old(self)@.rows,
                    other,
                ),
            forall|other: u64|
                other != ino ==> #[trigger] path_of(final(self)@.rows, other) == path_of(
                    old(self)@.rows,
                    other,
                ),
    {
        proof {
            use_type_invariant(&*self);
            lemma_ensured_is_consistent(self@, path@, kind);
            law_inodes_are_stable(self@, path@, kind, kind, path@);
            let after = ensured(self@, path@, kind);
            assert forall|other: Components| other != path@ implies #[trigger] row_at(
                after.rows,
                other,
            ) == row_at(self@.rows, other) by {
                law_inodes_are_stable(self@, path@, kind, kind, other);
            }
            assert forall|other: u64| other != row_at(after.rows, path@).unwrap().ino implies
                #[trigger] path_of(after.rows, other) == path_of(self@.rows, other) by {
                law_other_inodes_keep_their_paths(self@, path@, kind, other);
            }
        }
        let ghost models = row_models(self.rows@);
        let found = self.find(path);
        let mut rows: Vec<PathRow> = Vec::new();
        std::mem::swap(&mut rows, &mut self.rows);
        match found {
            Some(at) => {
                let ino = rows[at].ino;
                let row = PathRow { path: path.clone(), ino, kind };
                let ghost early = rows@;
                rows.set(at, row);
                assert forall|k: int| 0 <= k < models.len() implies row_models(rows@)[k]
                    == with_kind(models, path@, kind)[k] by {
                    assert(models[k] == early[k]@);
                    assert(models[at as int].path == path@);
                    if k != at {
                        assert(models[k].path != path@);
                    }
                }
                assert(row_models(rows@) =~= with_kind(models, path@, kind));
                self.rows = rows;
                ino
            },
            None => {
                let ino = self.next_ino;
                let row = PathRow { path: path.clone(), ino, kind };
                let ghost early = rows@;
                rows.push(row);
                assert(row_models(rows@) =~= row_models(early).push(row@));
                self.next_ino = ino + 1;
                self.rows = rows;
                ino
            },
        }
    }

    /// Takes a path away.
    pub fn remove(&mut self, path: &MountPath)
        ensures
            final(self)@ == removed(old(self)@, path@),
    {
        proof {
            use_type_invariant(&*self);
            lemma_kept_is_consistent(self@, other_than(path@));
        }
        let ghost keep = other_than(path@);
        let ghost models = row_models(self.rows@);
        let mut rows: Vec<PathRow> = Vec::new();
        let mut i: usize = 0;
        assert(models.take(0) =~= Seq::empty());
        assert(row_models(rows@) =~= Seq::empty());
        while i < self.rows.len()
            invariant
                i <= self.rows.len(),
                keep == other_than(path@),
                models == row_models(self.rows@),
                row_models(rows@) == kept(models.take(i as int), keep),
            decreases self.rows.len() - i,
        {
            let row = &self.rows[i];
            let ghost upto = models.take(i + 1);
            assert(upto.drop_last() =~= models.take(i as int));
            assert(upto.last() == row@);
            if !row.path.same(path) {
                let ghost early = rows@;
                rows.push(row.clone());
                assert(row_models(rows@) =~= row_models(early).push(row@));
            }
            i += 1;
        }
        assert(models.take(models.len() as int) =~= models);
        let next_ino = self.next_ino;
        *self = PathCache { rows, next_ino };
    }

    /// Takes a path away with all that lies below it. Of the whole tree only the root
    /// stays.
    pub fn remove_recursive(&mut self, path: &MountPath)
        ensures
            final(self)@ == removed_recursively(old(self)@, path@),
    {
        let ghost keep = outside(path@);
        proof {
            use_type_invariant(&*self);
            lemma_kept_is_consistent(self@, keep);
        }
        let ghost models = row_models(self.rows@);
        let whole = path.is_root();
        let mut rows: Vec<PathRow> = Vec::new();
        let mut i: usize = 0;
        assert(models.take(0) =~= Seq::empty());
        assert(row_models(rows@) =~= Seq::empty());
        while i < self.rows.len()
            invariant
                i <= self.rows.len(),
                whole == (path@.len() == 0),
                keep == outside(path@),
                models == row_models(self.rows@),
                row_models(rows@) == kept(models.take(i as int), keep),
            decreases self.rows.len() - i,
        {
            let row = &self.rows[i];
            let ghost upto = models.take(i + 1);
            assert(upto.drop_last() =~= models.take(i as int));
            assert(upto.last() == row@);
            let stays = if whole {
                row.path.is_root()
            } else {
                !row.path.is_self_or_descendant_of(path)
            };
            assert(stays == keep(row@));
            if stays {
                let ghost early = rows@;
                rows.push(row.clone());
                assert(row_models(rows@) =~= row_models(early).push(row@));
            }
            i += 1;
        }
        assert(models.take(models.len() as int) =~= models);
        let next_ino = self.next_ino;
        *self = PathCache { rows, next_ino };
    }

    /// Takes away what lies below a path.
    pub fn remove_descendants(&mut self, path: &MountPath)
        ensures
            final(self)@ == removed_below(old(self)@, path@),
    {
        let ghost keep = not_below(path@);
        proof {
            use_type_invariant(&*self);
            lemma_kept_is_consistent(self@, keep);
        }
        let ghost models = row_models(self.rows@);
        let mut rows: Vec<PathRow> = Vec::new();
        let mut i: usize = 0;
        assert(models.take(0) =~= Seq::empty());
        assert(row_models(rows@) =~= Seq::empty());
        while i < self.rows.len()
            invariant
                i <= self.rows.len(),
                keep == not_below(path@),
                models == row_models(self.rows@),
                row_models(rows@) == kept(models.take(i as int), keep),
            decreases self.rows.len() - i,
        {
            let row = &self.rows[i];
            let ghost upto = models.take(i + 1);
            assert(upto.drop_last() =~= models.take(i as int));
            assert(upto.last() == row@);
            if row.path.is_root() || !row.path.is_descendant_of(path) {
                let ghost early = rows@;
                rows.push(row.clone());
                assert(row_models(rows@) =~= row_models(early).push(row@));
            }
            i += 1;
        }
        assert(models.take(models.len() as int) =~= models);
        let next_ino = self.next_ino;
        *self = PathCache { rows, next_ino };
    }

    /// The path of a child of an inode: none where the inode has no path or the name
    /// gives none.
    pub fn child_path(&self, parent: u64, name: &str) -> (path: Option<MountPath>)
        ensures
            option_view(path) == (match path_of(self@.rows, parent) {
                Some(parent) => match child_path(parent, name@) {
                    Ok(path) => Some(path),
                    Err(_) => None,
                },
                None => None,
            }),
    {
        match self.path(parent) {
            Some(parent) => match parent.join_child(name) {
                Ok(path) => Some(path),
                Err(_) => None,
            },
            None => None,
        }
    }

    /// The paths with their inodes and kinds, in the order of the paths.
    pub fn snapshot(&self) -> (rows: Vec<PathRow>)
        ensures
            row_models(rows@) == ordered(self@.rows),
    {
        let ghost models = row_models(self.rows@);
        let mut rows: Vec<PathRow> = Vec::new();
        let mut i: usize = 0;
        assert(models.take(0) =~= Seq::empty());
        assert(row_models(rows@) =~= Seq::empty());
        while i < self.rows.len()
            invariant
                i <= self.rows.len(),
                models == row_models(self.rows@),
                row_models(rows@) == ordered(models.take(i as int)),
            decreases self.rows.len() - i,
        {
            let row = &self.rows[i];
            let ghost upto = models.take(i + 1);
            let ghost front = row_models(rows@);
            let ghost before = rows@;
            assert(upto.drop_last() =~= models.take(i as int));
            assert(upto.last() == row@);
            let mut at: usize = 0;
            assert(front.skip(0) =~= front);
            while at < rows.len() && !precedes(row.path.as_str(), rows[at].path.as_str())
                invariant
                    at <= rows.len(),
                    rows@ == before,
                    front == row_models(rows@),
                    row_place(front, row.path@) == at + row_place(front.skip(at as int), row.path@),
                decreases rows.len() - at,
            {
                assert(front.skip(at as int)[0] == rows@[at as int]@);
                assert(front.skip(at as int).drop_first() =~= front.skip(at + 1));
                at += 1;
            }
            if at < rows.len() {
                assert(front.skip(at as int)[0] == rows@[at as int]@);
            }
            rows.insert(at, row.clone());
            assert(row_models(rows@) =~= front.insert(at as int, row@));
            i += 1;
        }
        assert(models.take(models.len() as int) =~= models);
        rows
    }

    /// The texts of the paths with their inodes and kinds, in the order of the paths.
    pub fn diagnostic_snapshot(&self) -> (rows: Vec<(String, u64, FileType)>)
        ensures
            rows.len() == ordered(self@.rows).len(),
            forall|i: int|
                0 <= i < rows.len() ==> (#[trigger] rows[i]).0@ == mount_text(
                    ordered(self@.rows)[i].path,
                ) && rows[i].1 == ordered(self@.rows)[i].ino && rows[i].2 == ordered(
                    self@.rows,
                )[i].kind,
    {
        let snapshot = self.snapshot();
        let ghost models = row_models(snapshot@);
        let mut rows: Vec<(String, u64, FileType)> = Vec::new();
        let mut i: usize = 0;
        while i < snapshot.len()
            invariant
                i <= snapshot.len(),
                models == row_models(snapshot@),
                rows.len() == i,
                forall|k: int|
                    0 <= k < i ==> (#[trigger] rows[k]).0@ == mount_text(models[k].path)
                        && rows[k].1 == models[k].ino && rows[k].2 == models[k].kind,
            decreases snapshot.len() - i,
        {
            let row = &snapshot[i];
            assert(models[i as int] == row@);
            rows.push((row.path.to_string(), row.ino, row.kind));
            i += 1;
        }
        rows
    }

    /// How many paths have an inode.
    pub fn len(&self) -> (len: usize)
        ensures
            len == self@.rows.len(),
    {
        assert(row_models(self.rows@).len() == self.rows@.len());
        self.rows.len()
    }
}

} // verus!
