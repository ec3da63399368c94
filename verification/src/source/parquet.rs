//! Parquet files as one stream of batches.

use vstd::prelude::*;

use super::read_parallelism;
use crate::error::{Error, Result};
use crate::error_struct::at;

verus! {

/// How Parquet files are read.
#[derive(Clone, Copy, Debug, PartialEq, Eq, Structural)]
pub enum ParquetReadMode {
    /// File by file and row group by row group, in order.
    InOrder,
    /// Footers first, this many at once, then row groups as they come.
    RowGroups(usize),
}

/// Why Parquet files cannot be read, if they cannot.
pub open spec fn read_problem(
    path_count: nat,
    batch_size: usize,
    max_read_parallelism: usize,
) -> Option<Seq<char>> {
    if batch_size == 0 {
        Some("batch_size must be positive"@)
    } else if path_count == 0 {
        Some("Parquet source contains no .parquet files"@)
    } else if max_read_parallelism == 0 {
        Some("max_read_parallelism must be positive"@)
    } else {
        None
    }
}

/// Decides how the Parquet files at `paths` are read.
///
/// The first path defines the schema, and every other file must match it. Where
/// the order is preserved, files and row groups are read one after the other.
/// Else file footers and row groups are read at the same time, and
/// `max_read_parallelism` caps both.
pub fn plan_parquet_paths(
    paths: &Vec<String>,
    batch_size: usize,
    preserve_insertion_order: bool,
    max_read_parallelism: usize,
) -> (mode: Result<ParquetReadMode>)
    ensures
        match mode {
            Ok(mode) => {
                &&& read_problem(paths@.len(), batch_size, max_read_parallelism) is None
                &&& preserve_insertion_order ==> mode == ParquetReadMode::InOrder
                &&& !preserve_insertion_order ==> mode == ParquetReadMode::RowGroups(
                    super::parallelism_for(paths@.len(), max_read_parallelism as nat) as usize,
                )
            },
            Err(error) => read_problem(
                paths@.len(),
                batch_size,
                max_read_parallelism,
            ) matches Some(message) && error@ == crate::error::internal_error(message),
        },
{
    if batch_size == 0 {
        return Err(Error::message(
            "batch_size must be positive".to_owned(),
            at("src/source/parquet.rs", 66, 20),
        ));
    }
    if paths.len() == 0 {
        return Err(Error::message(
            "Parquet source contains no .parquet files".to_owned(),
            at("src/source/parquet.rs", 72, 20),
        ));
    }
    if max_read_parallelism == 0 {
        return Err(Error::message(
            "max_read_parallelism must be positive".to_owned(),
            at("src/source/parquet.rs", 78, 20),
        ));
    }
    if preserve_insertion_order {
        Ok(ParquetReadMode::InOrder)
    } else {
        Ok(ParquetReadMode::RowGroups(read_parallelism(paths.len(), max_read_parallelism)))
    }
}

/// The error for a file whose schema is not that of the first.
pub open spec fn mismatch_error(path: Seq<char>) -> crate::error::ErrorView {
    crate::error::internal_error("Parquet schema does not match the first file: "@ + path)
}

/// Checks a file against the first: `matches` tells whether it has the schema of
/// the first.
pub fn check_schema(path: &str, matches: bool) -> (checked: Result<()>)
    ensures
        match checked {
            Ok(_) => matches,
            Err(error) => !matches && error@ == mismatch_error(path@),
        },
{
    if matches {
        return Ok(());
    }
    let mut message = "Parquet schema does not match the first file: ".to_owned();
    message.append(path);
    Err(Error::message(message, at("src/source/parquet.rs", 109, 9)))
}

/// What the footer of a Parquet file says: whether its schema is that of the
/// first file, and how many row groups it has.
#[derive(Debug)]
pub struct ParquetFooter {
    pub path: String,
    pub matches_first: bool,
    pub row_groups: usize,
}

/// The first file whose schema is not that of the first file.
pub open spec fn first_mismatch(footers: Seq<ParquetFooter>) -> Option<Seq<char>>
    decreases footers.len(),
{
    if footers.len() <= 1 {
        None
    } else {
        match first_mismatch(footers.drop_last()) {
            Some(path) => Some(path),
            None => if footers.last().matches_first {
                None
            } else {
                Some(footers.last().path@)
            },
        }
    }
}

/// The row groups of files, in order: the number of the file, and that of the
/// row group in it.
pub open spec fn row_groups_of(footers: Seq<ParquetFooter>) -> Seq<(usize, usize)>
    decreases footers.len(),
{
    if footers.len() == 0 {
        Seq::empty()
    } else {
        row_groups_of(footers.drop_last()) + Seq::new(
            footers.last().row_groups as nat,
            |group: int| ((footers.len() - 1) as usize, group as usize),
        )
    }
}

proof fn lemma_mismatch_stays(footers: Seq<ParquetFooter>, end: int)
    requires
        0 <= end <= footers.len(),
        first_mismatch(footers.take(end)) is Some,
    ensures
        first_mismatch(footers) == first_mismatch(footers.take(end)),
    decreases footers.len() - end,
{
    if end < footers.len() {
        assert(footers.take(end + 1).drop_last() == footers.take(end));
        lemma_mismatch_stays(footers, end + 1);
    } else {
        assert(footers.take(end) == footers);
    }
}

/// Checks the files, and lists their row groups in order. All files are checked
/// before any is read.
pub fn plan_row_groups(footers: &Vec<ParquetFooter>) -> (row_groups: Result<Vec<(usize, usize)>>)
    ensures
        match row_groups {
            Ok(row_groups) => footers@.len() > 0 && first_mismatch(footers@) is None
                && row_groups@ == row_groups_of(footers@),
            Err(error) => if footers@.len() == 0 {
                error@ == crate::error::internal_error(
                    "Parquet source contains no .parquet files"@,
                )
            } else {
                first_mismatch(footers@) matches Some(path) && error@ == mismatch_error(path)
            },
        },
{
    if footers.len() == 0 {
        return Err(Error::message(
            "Parquet source contains no .parquet files".to_owned(),
            at("src/source/parquet.rs", 187, 20),
        ));
    }
    let mut i: usize = 1;
    while i < footers.len()
        invariant
            1 <= i <= footers@.len(),
            first_mismatch(footers@.take(i as int)) is None,
        decreases footers@.len() - i,
    {
        assert(footers@.take(i + 1).drop_last() == footers@.take(i as int));
        match check_schema(footers[i].path.as_str(), footers[i].matches_first) {
            Ok(_) => {},
            Err(error) => {
                proof {
                    lemma_mismatch_stays(footers@, i + 1);
                }
                return Err(error);
            },
        }
        i += 1;
    }
    assert(footers@.take(i as int) == footers@);
    let mut row_groups: Vec<(usize, usize)> = Vec::new();
    let mut file: usize = 0;
    assert(footers@.take(0) =~= Seq::empty());
    while file < footers.len()
        invariant
            file <= footers@.len(),
            row_groups@ == row_groups_of(footers@.take(file as int)),
        decreases footers@.len() - file,
    {
        let ghost before = row_groups@;
        let ghost part = footers@.take(file + 1);
        assert(part.drop_last() == footers@.take(file as int));
        let count: usize = footers[file].row_groups;
        for group in 0..count
            invariant
                row_groups@ == before + Seq::new(
                    group as nat,
                    |index: int| (file, index as usize),
                ),
        {
            row_groups.push((file, group));
            assert(row_groups@ =~= before + Seq::new(
                (group + 1) as nat,
                |index: int| (file, index as usize),
            ));
        }
        proof {
            assert(row_groups@ =~= before + Seq::new(
                part.last().row_groups as nat,
                |index: int| ((part.len() - 1) as usize, index as usize),
            ));
        }
        file += 1;
    }
    assert(footers@.take(file as int) == footers@);
    Ok(row_groups)
}

/// The rows of row groups, one row group after the other. `rows` tells those of
/// each.
pub open spec fn rows_of_groups<R>(
    groups: Seq<(usize, usize)>,
    rows: spec_fn((usize, usize)) -> Seq<R>,
) -> Seq<R>
    decreases groups.len(),
{
    if groups.len() == 0 {
        Seq::empty()
    } else {
        rows_of_groups(groups.drop_last(), rows) + rows(groups.last())
    }
}

/// The rows of files, file by file and row group by row group. `rows` tells
/// those of each row group.
pub open spec fn rows_in_order<R>(
    footers: Seq<ParquetFooter>,
    rows: spec_fn((usize, usize)) -> Seq<R>,
) -> Seq<R>
    decreases footers.len(),
{
    if footers.len() == 0 {
        Seq::empty()
    } else {
        let file = (footers.len() - 1) as usize;
        rows_in_order(footers.drop_last(), rows) + rows_of_groups(
            Seq::new(footers.last().row_groups as nat, |group: int| (file, group as usize)),
            rows,
        )
    }
}

proof fn lemma_row_group_listed(footers: Seq<ParquetFooter>, file: int, group: int)
    requires
        footers.len() <= usize::MAX,
        0 <= file < footers.len(),
        0 <= group < footers[file].row_groups,
    ensures
        row_groups_of(footers).contains((file as usize, group as usize)),
    decreases footers.len(),
{
    let before = row_groups_of(footers.drop_last());
    let listed = row_groups_of(footers);
    let wanted = (file as usize, group as usize);
    if file == footers.len() - 1 {
        assert(listed[before.len() + group] == wanted);
    } else {
        lemma_row_group_listed(footers.drop_last(), file, group);
        let at = choose|at: int| 0 <= at < before.len() && before[at] == wanted;
        assert(listed[at] == wanted);
    }
}

proof fn lemma_row_groups_differ(footers: Seq<ParquetFooter>)
    requires
        footers.len() <= usize::MAX,
    ensures
        row_groups_of(footers).no_duplicates(),
        forall|at: int|
            0 <= at < row_groups_of(footers).len() ==> {
                let found = #[trigger] row_groups_of(footers)[at];
                found.0 < footers.len() && found.1 < footers[found.0 as int].row_groups
            },
    decreases footers.len(),
{
    if footers.len() > 0 {
        lemma_row_groups_differ(footers.drop_last());
        let before = row_groups_of(footers.drop_last());
        let listed = row_groups_of(footers);
        let file = (footers.len() - 1) as usize;
        assert forall|at: int| 0 <= at < listed.len() implies {
            let found = #[trigger] listed[at];
            found.0 < footers.len() && found.1 < footers[found.0 as int].row_groups
        } by {
            if at < before.len() {
                assert(listed[at] == before[at]);
                assert(footers.drop_last()[before[at].0 as int] == footers[before[at].0 as int]);
            } else {
                assert(listed[at] == (file, (at - before.len()) as usize));
            }
        }
        assert forall|i: int, j: int|
            0 <= i < listed.len() && 0 <= j < listed.len() && i != j implies listed[i]
            != listed[j] by {
            if i < before.len() {
                assert(listed[i] == before[i]);
            } else {
                assert(listed[i] == (file, (i - before.len()) as usize));
            }
            if j < before.len() {
                assert(listed[j] == before[j]);
            } else {
                assert(listed[j] == (file, (j - before.len()) as usize));
            }
        }
    }
}

/// Each row group of each file is listed once, and nothing else is.
pub proof fn law_row_groups_are_listed_once(footers: Seq<ParquetFooter>)
    requires
        footers.len() <= usize::MAX,
    ensures
        row_groups_of(footers).no_duplicates(),
        forall|file: usize, group: usize|
            #[trigger] row_groups_of(footers).contains((file, group)) <==> file < footers.len()
                && group < footers[file as int].row_groups,
{
    lemma_row_groups_differ(footers);
    assert forall|file: usize, group: usize|
        #[trigger] row_groups_of(footers).contains((file, group)) <==> file < footers.len()
            && group < footers[file as int].row_groups by {
        if file < footers.len() && group < footers[file as int].row_groups {
            lemma_row_group_listed(footers, file as int, group as int);
        }
        if row_groups_of(footers).contains((file, group)) {
            let at = choose|at: int|
                0 <= at < row_groups_of(footers).len() && row_groups_of(footers)[at] == (
                    file,
                    group,
                );
            assert(row_groups_of(footers)[at] == (file, group));
        }
    }
}

proof fn lemma_groups_join<R>(
    left: Seq<(usize, usize)>,
    right: Seq<(usize, usize)>,
    rows: spec_fn((usize, usize)) -> Seq<R>,
)
    ensures
        rows_of_groups(left + right, rows) == rows_of_groups(left, rows) + rows_of_groups(
            right,
            rows,
        ),
    decreases right.len(),
{
    if right.len() == 0 {
        assert(left + right =~= left);
        assert(rows_of_groups(left, rows) + Seq::<R>::empty() =~= rows_of_groups(left, rows));
    } else {
        lemma_groups_join(left, right.drop_last(), rows);
        assert((left + right).drop_last() =~= left + right.drop_last());
        assert(rows_of_groups(left + right, rows) =~= rows_of_groups(left, rows)
            + rows_of_groups(right, rows));
    }
}

proof fn lemma_listed_in_order<R>(
    footers: Seq<ParquetFooter>,
    rows: spec_fn((usize, usize)) -> Seq<R>,
)
    ensures
        rows_of_groups(row_groups_of(footers), rows) == rows_in_order(footers, rows),
    decreases footers.len(),
{
    if footers.len() > 0 {
        lemma_listed_in_order(footers.drop_last(), rows);
        let file = (footers.len() - 1) as usize;
        let last = Seq::new(
            footers.last().row_groups as nat,
            |group: int| (file, group as usize),
        );
        assert(row_groups_of(footers) =~= row_groups_of(footers.drop_last()) + last);
        lemma_groups_join(row_groups_of(footers.drop_last()), last, rows);
    }
}

proof fn lemma_without_group<R>(
    groups: Seq<(usize, usize)>,
    at: int,
    rows: spec_fn((usize, usize)) -> Seq<R>,
)
    requires
        0 <= at < groups.len(),
    ensures
        rows_of_groups(groups, rows).to_multiset() == rows_of_groups(
            groups.remove(at),
            rows,
        ).to_multiset().add(rows(groups[at]).to_multiset()),
    decreases groups.len(),
{
    let shorter = groups.remove(at);
    let last = rows(groups.last());
    let before = rows_of_groups(groups.drop_last(), rows);
    vstd::seq_lib::lemma_multiset_commutative(before, last);
    if at == groups.len() - 1 {
        assert(shorter =~= groups.drop_last());
    } else {
        lemma_without_group(groups.drop_last(), at, rows);
        assert(shorter.drop_last() =~= groups.drop_last().remove(at));
        assert(shorter.last() == groups.last());
        vstd::seq_lib::lemma_multiset_commutative(
            rows_of_groups(shorter.drop_last(), rows),
            last,
        );
        assert(rows_of_groups(groups, rows).to_multiset() =~= rows_of_groups(
            shorter,
            rows,
        ).to_multiset().add(rows(groups[at]).to_multiset()));
    }
}

proof fn lemma_rows_by_members<R>(
    left: Seq<(usize, usize)>,
    right: Seq<(usize, usize)>,
    rows: spec_fn((usize, usize)) -> Seq<R>,
)
    requires
        left.to_multiset() == right.to_multiset(),
    ensures
        rows_of_groups(left, rows).to_multiset() == rows_of_groups(right, rows).to_multiset(),
    decreases left.len(),
{
    left.to_multiset_ensures();
    right.to_multiset_ensures();
    if left.len() > 0 {
        let group = left.last();
        assert(left.contains(group));
        assert(left.to_multiset().count(group) > 0);
        assert(right.contains(group));
        let at = choose|at: int| 0 <= at < right.len() && right[at] == group;
        assert(left.remove(left.len() - 1) =~= left.drop_last());
        lemma_without_group(left, left.len() - 1, rows);
        lemma_without_group(right, at, rows);
        lemma_rows_by_members(left.drop_last(), right.remove(at), rows);
    }
}

/// Whatever order the row groups of files come in, they hold the rows that the
/// files give when they are read in order, each as often. Only the order may
/// differ.
pub proof fn law_row_groups_hold_all_rows<R>(
    footers: Seq<ParquetFooter>,
    completed: Seq<(usize, usize)>,
    rows: spec_fn((usize, usize)) -> Seq<R>,
)
    requires
        completed.to_multiset() == row_groups_of(footers).to_multiset(),
    ensures
        rows_of_groups(completed, rows).to_multiset() == rows_in_order(
            footers,
            rows,
        ).to_multiset(),
{
    lemma_rows_by_members(completed, row_groups_of(footers), rows);
    lemma_listed_in_order(footers, rows);
}

/// Files are refused exactly where one behind the first has another schema, so
/// before any of them is read.
pub proof fn law_other_schemas_are_refused(footers: Seq<ParquetFooter>)
    ensures
        first_mismatch(footers) is Some <==> exists|i: int|
            1 <= i < footers.len() && !(#[trigger] footers[i]).matches_first,
    decreases footers.len(),
{
    if footers.len() > 1 {
        let shorter = footers.drop_last();
        law_other_schemas_are_refused(shorter);
        let last = footers.len() - 1;
        if first_mismatch(footers) is Some {
            if first_mismatch(shorter) is Some {
                let i = choose|i: int|
                    1 <= i < shorter.len() && !(#[trigger] shorter[i]).matches_first;
                assert(!footers[i].matches_first);
            } else {
                assert(!footers[last].matches_first);
            }
        }
        if exists|i: int| 1 <= i < footers.len() && !(#[trigger] footers[i]).matches_first {
            let i = choose|i: int|
                1 <= i < footers.len() && !(#[trigger] footers[i]).matches_first;
            if i < last {
                assert(!shorter[i].matches_first);
            }
        }
    }
}

/// Files are refused for the first of them that has another schema.
pub proof fn law_first_other_schema_is_named(footers: Seq<ParquetFooter>, at: int)
    requires
        1 <= at < footers.len(),
        !footers[at].matches_first,
        forall|i: int| 1 <= i < at ==> (#[trigger] footers[i]).matches_first,
    ensures
        first_mismatch(footers) == Some(footers[at].path@),
    decreases footers.len(),
{
    let shorter = footers.drop_last();
    if at < footers.len() - 1 {
        assert forall|i: int| 1 <= i < at implies (#[trigger] shorter[i]).matches_first by {
            assert(shorter[i] == footers[i]);
        }
        law_first_other_schema_is_named(shorter, at);
    } else {
        law_other_schemas_are_refused(shorter);
        if first_mismatch(shorter) is Some {
            let i = choose|i: int|
                1 <= i < shorter.len() && !(#[trigger] shorter[i]).matches_first;
            assert(footers[i].matches_first);
        }
    }
}

proof fn lemma_listed_files(footers: Seq<ParquetFooter>)
    requires
        footers.len() <= usize::MAX,
    ensures
        forall|i: int|
            0 <= i < row_groups_of(footers).len() ==> (#[trigger] row_groups_of(footers)[i]).0
                < footers.len(),
    decreases footers.len(),
{
    if footers.len() > 0 {
        lemma_listed_files(footers.drop_last());
        let before = row_groups_of(footers.drop_last());
        assert forall|i: int| 0 <= i < row_groups_of(footers).len() implies (
        #[trigger] row_groups_of(footers)[i]).0 < footers.len() by {
            if i < before.len() {
                assert(row_groups_of(footers)[i] == before[i]);
            }
        }
    }
}

/// Row groups are listed file by file, and within a file in order.
pub proof fn law_row_groups_are_listed_in_order(footers: Seq<ParquetFooter>, i: int, j: int)
    requires
        footers.len() <= usize::MAX,
        0 <= i < j < row_groups_of(footers).len(),
    ensures
        row_groups_of(footers)[i].0 < row_groups_of(footers)[j].0 || row_groups_of(footers)[i].0
            == row_groups_of(footers)[j].0 && row_groups_of(footers)[i].1
            < row_groups_of(footers)[j].1,
    decreases footers.len(),
{
    let shorter = footers.drop_last();
    let before = row_groups_of(shorter);
    lemma_listed_files(shorter);
    if j < before.len() {
        law_row_groups_are_listed_in_order(shorter, i, j);
    } else if i < before.len() {
        assert(before[i].0 < shorter.len());
    }
}

/// Files can be read where there are any, in batches that hold something, by at
/// least one reader.
pub proof fn law_reads_need_files(
    path_count: nat,
    batch_size: usize,
    max_read_parallelism: usize,
)
    ensures
        read_problem(path_count, batch_size, max_read_parallelism) is None <==> path_count > 0
            && batch_size > 0 && max_read_parallelism > 0,
{
}

}
