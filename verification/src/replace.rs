//! The find/replace engine: counting the rows of one column that
//! contain a search text, replacing that text in place, and the
//! two-phase session that refuses a replacement with no preceding
//! count.

use vstd::prelude::*;
use crate::error::EngineError;
use crate::record::first_col;
use crate::record::has_col;
use crate::record::lemma_first_col;
use crate::record::table_wf;
use crate::record::RowModel;
use crate::record::Table;
use crate::record::TableModel;
use crate::record::TableRow;
use crate::text::chars_disjoint;
use crate::text::contains_seq;
use crate::text::lemma_replace_clears;
use crate::text::replace_all;
use crate::text::replace_string;
use crate::text::str_contains;

verus! {

/// How many of the first `n` rows contain `find` in column `c`.
pub open spec fn count_matching_up_to(t: TableModel, c: int, find: Seq<char>, n: int) -> int
    decreases n,
{
    if n <= 0 {
        0
    } else {
        count_matching_up_to(t, c, find, n - 1) + if contains_seq(t.rows[n - 1].values[c], find) {
            1int
        } else {
            0int
        }
    }
}

/// How many rows of the table contain `find` in column `c`.
pub open spec fn count_matching_total(t: TableModel, c: int, find: Seq<char>) -> int {
    count_matching_up_to(t, c, find, t.rows.len() as int)
}

/// Number of rows of `column` whose text contains `find`.  Refused
/// when the table has no such column.
pub fn count_matching(t: &Table, column: &str, find: &str) -> (r: Result<usize, EngineError>)
    requires
        t.wf(),
    ensures
        has_col(t@.columns, column@) ==> r == Ok::<usize, EngineError>(
            count_matching_total(t@, first_col(t@.columns, column@), find@) as usize,
        ),
        !has_col(t@.columns, column@) ==> r == Err::<usize, EngineError>(EngineError::Query),
{
    let c = match t.column_index(column) {
        Some(c) => c,
        None => {
            return Err(EngineError::Query);
        },
    };
    let ncols = t.columns.len();
    proof {
        assert(ncols == t@.columns.len());
        lemma_first_col(t@.columns, column@);
    }
    let n = t.rows.len();
    let mut count: usize = 0;
    let mut i: usize = 0;
    while i < n
        invariant
            t.wf(),
            n == t@.rows.len(),
            has_col(t@.columns, column@),
            c == first_col(t@.columns, column@),
            0 <= c < t@.columns.len(),
            0 <= i <= n,
            count == count_matching_up_to(t@, c as int, find@, i as int),
            0 <= count <= i,
        decreases n - i,
    {
        let row = &t.rows[i];
        proof {
            assert(t@.rows[i as int] == t.rows@[i as int]@);
            assert(row.values.deep_view()[c as int] == row.values@[c as int]@);
        }
        if str_contains(row.values[c].as_str(), find) {
            count = count + 1;
        }
        i = i + 1;
    }
    proof {
        lemma_first_col(t@.columns, column@);
    }
    Ok(count)
}

/// Row `i` after the replacement pass: a row whose column `c` contains
/// `find` has that text replaced by `rep` throughout, and, when `mark`
/// is set, its dirty column `d` set to `"1"`; other rows are untouched.
pub open spec fn replaced_row(
    row: RowModel,
    c: int,
    d: int,
    find: Seq<char>,
    rep: Seq<char>,
    mark: bool,
) -> RowModel {
    if contains_seq(row.values[c], find) {
        let v1 = row.values.update(c, replace_all(row.values[c], find, rep));
        RowModel { id: row.id, values: if mark { v1.update(d, "1"@) } else { v1 } }
    } else {
        row
    }
}

/// The whole table after the replacement pass.
pub open spec fn replaced_table(
    t: TableModel,
    c: int,
    d: int,
    find: Seq<char>,
    rep: Seq<char>,
    mark: bool,
) -> TableModel {
    TableModel {
        columns: t.columns,
        rows: t.rows.map_values(|row: RowModel| replaced_row(row, c, d, find, rep, mark)),
    }
}

/// In one pass over the table, replaces every occurrence of `find` by
/// `replace` in the text of `column`, for every row whose text
/// contains `find`; returns how many rows were touched.  When
/// `mark_dirty` is set, touched rows also get the internal `_Dirty`
/// column set to `"1"`.  Refused when the named column, or, with
/// `mark_dirty`, the `_Dirty` column, does not exist; the table is
/// then unchanged.
pub fn replace_substring(
    t: &mut Table,
    column: &str,
    find: &str,
    replace: &str,
    mark_dirty: bool,
) -> (r: Result<usize, EngineError>)
    requires
        old(t).wf(),
    ensures
        !has_col(old(t)@.columns, column@) ==> r == Err::<usize, EngineError>(EngineError::Query)
            && final(t)@ == old(t)@,
        has_col(old(t)@.columns, column@) && mark_dirty && !has_col(old(t)@.columns, "_Dirty"@)
            ==> r == Err::<usize, EngineError>(EngineError::Query) && final(t)@ == old(t)@,
        has_col(old(t)@.columns, column@) && (mark_dirty ==> has_col(old(t)@.columns, "_Dirty"@))
            ==> {
            let c = first_col(old(t)@.columns, column@);
            let d = first_col(old(t)@.columns, "_Dirty"@);
            r == Ok::<usize, EngineError>(count_matching_total(old(t)@, c, find@) as usize)
                && final(t)@ == replaced_table(old(t)@, c, d, find@, replace@, mark_dirty)
        },
        final(t).wf(),
{
    let c = match t.column_index(column) {
        Some(c) => c,
        None => {
            return Err(EngineError::Query);
        },
    };
    let d = match t.column_index("_Dirty") {
        Some(d) => d,
        None => {
            if mark_dirty {
                return Err(EngineError::Query);
            }
            0
        },
    };
    proof {
        lemma_first_col(t@.columns, column@);
        lemma_first_col(t@.columns, "_Dirty"@);
    }
    let ghost c_spec = c as int;
    let ghost d_spec = d as int;
    let n = t.rows.len();
    let ncols = t.columns.len();
    proof {
        assert(ncols == t@.columns.len());
    }
    let mut new_rows: Vec<TableRow> = Vec::new();
    let mut affected: usize = 0;
    let mut i: usize = 0;
    while i < n
        invariant
            t.wf(),
            n == t@.rows.len(),
            ncols == t@.columns.len(),
            0 <= c < ncols,
            c == c_spec,
            d == d_spec,
            mark_dirty ==> 0 <= d < ncols,
            0 <= i <= n,
            affected == count_matching_up_to(t@, c_spec, find@, i as int),
            0 <= affected <= i,
            new_rows@.len() == i,
            forall|k: int|
                0 <= k < i ==> #[trigger] new_rows@[k]@ == replaced_row(
                    t@.rows[k],
                    c_spec,
                    d_spec,
                    find@,
                    replace@,
                    mark_dirty,
                ),
        decreases n - i,
    {
        let row = &t.rows[i];
        proof {
            assert(t@.rows[i as int] == t.rows@[i as int]@);
            assert(row.values.deep_view()[c as int] == row.values@[c as int]@);
        }
        let touched = str_contains(row.values[c].as_str(), find);
        let new_row: TableRow;
        if touched {
            let replaced = replace_string(row.values[c].as_str(), find, replace);
            let m = row.values.len();
            let ghost tgt = target_values(row@, c_spec, d_spec, find@, replace@, mark_dirty);
            proof {
                assert(tgt.len() == m);
            }
            let mut vals: Vec<String> = Vec::new();
            let mut j: usize = 0;
            while j < m
                invariant
                    m == row.values@.len(),
                    tgt == target_values(row@, c_spec, d_spec, find@, replace@, mark_dirty),
                    tgt.len() == m,
                    0 <= c < m,
                    c == c_spec,
                    d == d_spec,
                    mark_dirty ==> 0 <= d < m,
                    0 <= j <= m,
                    replaced@ == replace_all(row.values@[c as int]@, find@, replace@),
                    row@.values == row.values.deep_view(),
                    vals@.len() == j,
                    forall|k: int| 0 <= k < j ==> #[trigger] vals@[k]@ == tgt[k],
                decreases m - j,
            {
                proof {
                    assert(row.values.deep_view()[j as int] == row.values@[j as int]@);
                }
                if mark_dirty && j == d {
                    vals.push(String::from_str("1"));
                } else if j == c {
                    vals.push(replaced.clone());
                } else {
                    vals.push(row.values[j].clone());
                }
                j = j + 1;
            }
            new_row = TableRow { id: row.id, values: vals };
            affected = affected + 1;
            proof {
                assert(contains_seq(row@.values[c_spec], find@));
                let want = replaced_row(row@, c_spec, d_spec, find@, replace@, mark_dirty);
                assert(want.values == tgt);
                assert(new_row@.values =~= tgt) by {
                    assert(forall|k: int|
                        0 <= k < m ==> #[trigger] new_row.values.deep_view()[k]
                            == new_row.values@[k]@);
                }
                assert(new_row@ == want);
            }
        } else {
            new_row = row.clone_row();
            proof {
                assert(new_row@ == replaced_row(row@, c_spec, d_spec, find@, replace@, mark_dirty));
            }
        }
        new_rows.push(new_row);
        i = i + 1;
    }
    let ghost old_t = t@;
    t.rows = new_rows;
    proof {
        let want = replaced_table(old_t, c_spec, d_spec, find@, replace@, mark_dirty);
        assert(t@.rows =~= want.rows) by {
            assert(t@.rows.len() == old_t.rows.len());
            assert forall|k: int| 0 <= k < old_t.rows.len() implies t@.rows[k] == want.rows[k] by {
                assert(t@.rows[k] == t.rows@[k]@);
                assert(want.rows[k] == replaced_row(
                    old_t.rows[k],
                    c_spec,
                    d_spec,
                    find@,
                    replace@,
                    mark_dirty,
                ));
            }
        }
        assert(t@.columns =~= old_t.columns);
        assert(t@ == want);
        if !mark_dirty {
            lemma_replaced_table_dirty_irrelevant(old_t, c_spec, d_spec, find@, replace@);
        }
        assert(table_wf(t@)) by {
            assert forall|k: int|
                0 <= k < t@.rows.len() implies (#[trigger] t@.rows[k]).values.len()
                == t@.columns.len() by {
                assert(t@.rows[k] == replaced_row(
                    old_t.rows[k],
                    c_spec,
                    d_spec,
                    find@,
                    replace@,
                    mark_dirty,
                ));
                assert(old_t.rows[k].values.len() == old_t.columns.len());
            }
            assert forall|k: int, l: int|
                0 <= k < l < t@.rows.len() implies t@.rows[k].id != t@.rows[l].id by {
                assert(t@.rows[k].id == old_t.rows[k].id);
                assert(t@.rows[l].id == old_t.rows[l].id);
            }
        }
    }
    Ok(affected)
}

/// The value list of a touched row after replacement, spelled per
/// index so a loop can build it.
pub open spec fn target_values(
    row: RowModel,
    c: int,
    d: int,
    find: Seq<char>,
    rep: Seq<char>,
    mark: bool,
) -> Seq<Seq<char>> {
    let v1 = row.values.update(c, replace_all(row.values[c], find, rep));
    if mark {
        v1.update(d, "1"@)
    } else {
        v1
    }
}

/// If every row matching in `t1` at `c1` also matches in `t2` at `c2`,
/// the match count of `t1` is at most that of `t2`.
proof fn lemma_count_le(t1: TableModel, t2: TableModel, c1: int, c2: int, find: Seq<char>, n: int)
    requires
        forall|k: int|
            0 <= k < n ==> contains_seq(#[trigger] t1.rows[k].values[c1], find) ==> contains_seq(
                t2.rows[k].values[c2],
                find,
            ),
    ensures
        count_matching_up_to(t1, c1, find, n) <= count_matching_up_to(t2, c2, find, n),
    decreases n,
{
    if n > 0 {
        lemma_count_le(t1, t2, c1, c2, find, n - 1);
    }
}

/// A prefix with no matching row counts zero.
proof fn lemma_count_zero(t: TableModel, c: int, find: Seq<char>, n: int)
    requires
        forall|k: int| 0 <= k < n ==> !contains_seq(#[trigger] t.rows[k].values[c], find),
    ensures
        count_matching_up_to(t, c, find, n) == 0,
    decreases n,
{
    if n > 0 {
        lemma_count_zero(t, c, find, n - 1);
    }
}

/// A replacement pass never increases the number of rows whose
/// searched column still contains the search text: rows that did not
/// match are left untouched, so no new match can appear among them.
pub proof fn lemma_replace_never_increases_matches(
    t: TableModel,
    c: int,
    d: int,
    find: Seq<char>,
    rep: Seq<char>,
    mark: bool,
)
    requires
        table_wf(t),
        0 <= c < t.columns.len(),
        mark ==> 0 <= d < t.columns.len() && d != c,
    ensures
        count_matching_total(replaced_table(t, c, d, find, rep, mark), c, find)
            <= count_matching_total(t, c, find),
{
    let rt = replaced_table(t, c, d, find, rep, mark);
    assert(rt.rows.len() == t.rows.len());
    assert forall|k: int|
        0 <= k < t.rows.len() implies contains_seq(#[trigger] rt.rows[k].values[c], find)
        ==> contains_seq(t.rows[k].values[c], find) by {
        assert(rt.rows[k] == replaced_row(t.rows[k], c, d, find, rep, mark));
        if !contains_seq(t.rows[k].values[c], find) {
            assert(rt.rows[k] == t.rows[k]);
        }
    }
    lemma_count_le(rt, t, c, c, find, t.rows.len() as int);
}

/// When the replacement text is non-empty and shares no character
/// with the search text, a replacement pass clears every match: no
/// row of the searched column contains the search text afterwards.
pub proof fn lemma_replace_disjoint_clears(
    t: TableModel,
    c: int,
    d: int,
    find: Seq<char>,
    rep: Seq<char>,
    mark: bool,
)
    requires
        table_wf(t),
        0 <= c < t.columns.len(),
        mark ==> 0 <= d < t.columns.len() && d != c,
        find.len() > 0,
        rep.len() > 0,
        chars_disjoint(find, rep),
    ensures
        count_matching_total(replaced_table(t, c, d, find, rep, mark), c, find) == 0,
{
    let rt = replaced_table(t, c, d, find, rep, mark);
    assert(rt.rows.len() == t.rows.len());
    assert forall|k: int|
        0 <= k < t.rows.len() implies !contains_seq(#[trigger] rt.rows[k].values[c], find) by {
        assert(rt.rows[k] == replaced_row(t.rows[k], c, d, find, rep, mark));
        if contains_seq(t.rows[k].values[c], find) {
            assert(t.rows[k].values.len() == t.columns.len());
            assert(rt.rows[k].values[c] == replace_all(t.rows[k].values[c], find, rep));
            lemma_replace_clears(t.rows[k].values[c], find, rep);
        } else {
            assert(rt.rows[k] == t.rows[k]);
        }
    }
    lemma_count_zero(rt, c, find, t.rows.len() as int);
}

/// Where the find/replace session stands: nothing previewed yet, a
/// count previewed and awaiting confirmation, or a replacement
/// applied.
#[derive(Clone, Copy, Debug, PartialEq, Eq, Structural)]
pub enum ReplacePhase {
    Idle,
    Previewed { count: usize },
    Applied { affected: usize },
}

/// The session may confirm a replacement: a count was previewed and
/// it found at least one matching row.
pub open spec fn session_armed(p: ReplacePhase) -> bool {
    &&& p matches ReplacePhase::Previewed { count }
    &&& (p matches ReplacePhase::Previewed { count } ==> count > 0)
}

/// The two-phase find/replace session: a replacement is only carried
/// out after a count of the matching rows was previewed in the same
/// session, and never when that count was zero.
pub struct ReplaceSession {
    pub phase: ReplacePhase,
    pub find: String,
    pub column: String,
}

impl ReplaceSession {
    /// A fresh, idle session.
    pub fn new() -> (s: ReplaceSession)
        ensures
            s.phase == ReplacePhase::Idle,
            s.find@ == Seq::<char>::empty(),
            s.column@ == Seq::<char>::empty(),
    {
        ReplaceSession { phase: ReplacePhase::Idle, find: String::new(), column: String::new() }
    }

    /// First phase: count the rows of `column` containing `find` and
    /// remember both.  On success the session holds the previewed
    /// count; a bad column name leaves the session idle.
    pub fn preview(&mut self, t: &Table, find: &str, column: &str) -> (r: Result<
        usize,
        EngineError,
    >)
        requires
            t.wf(),
        ensures
            has_col(t@.columns, column@) ==> {
                let n = count_matching_total(t@, first_col(t@.columns, column@), find@) as usize;
                r == Ok::<usize, EngineError>(n) && final(self).phase == (ReplacePhase::Previewed {
                    count: n,
                }) && final(self).find@ == find@ && final(self).column@ == column@
            },
            !has_col(t@.columns, column@) ==> r == Err::<usize, EngineError>(EngineError::Query)
                && final(self).phase == ReplacePhase::Idle,
    {
        match count_matching(t, column, find) {
            Ok(n) => {
                self.find = String::from_str(find);
                self.column = String::from_str(column);
                self.phase = ReplacePhase::Previewed { count: n };
                Ok(n)
            },
            Err(e) => {
                self.phase = ReplacePhase::Idle;
                Err(e)
            },
        }
    }

    /// Abandon the previewed replacement.
    pub fn cancel(&mut self)
        ensures
            final(self).phase == ReplacePhase::Idle,
            final(self).find == old(self).find,
            final(self).column == old(self).column,
    {
        self.phase = ReplacePhase::Idle;
    }

    /// Second phase: carry out the replacement previewed earlier.
    /// Refused outright, touching nothing, unless a preview in this
    /// session found at least one matching row.
    pub fn confirm(&mut self, t: &mut Table, replace: &str, mark_dirty: bool) -> (r: Result<
        usize,
        EngineError,
    >)
        requires
            old(t).wf(),
        ensures
            !session_armed(old(self).phase) ==> r == Err::<usize, EngineError>(
                EngineError::Configuration,
            ) && *final(self) == *old(self) && *final(t) == *old(t),
            session_armed(old(self).phase) && !has_col(old(t)@.columns, old(self).column@) ==> r
                == Err::<usize, EngineError>(EngineError::Query) && *final(self) == *old(self)
                && final(t)@ == old(t)@,
            session_armed(old(self).phase) && has_col(old(t)@.columns, old(self).column@)
                && mark_dirty && !has_col(old(t)@.columns, "_Dirty"@) ==> r == Err::<
                usize,
                EngineError,
            >(EngineError::Query) && *final(self) == *old(self) && final(t)@ == old(t)@,
            session_armed(old(self).phase) && has_col(old(t)@.columns, old(self).column@) && (
            mark_dirty ==> has_col(old(t)@.columns, "_Dirty"@)) ==> {
                let c = first_col(old(t)@.columns, old(self).column@);
                let d = first_col(old(t)@.columns, "_Dirty"@);
                let n = count_matching_total(old(t)@, c, old(self).find@) as usize;
                r == Ok::<usize, EngineError>(n) && final(self).phase == (ReplacePhase::Applied {
                    affected: n,
                }) && final(self).find == old(self).find && final(self).column == old(self).column
                    && final(t)@ == replaced_table(
                    old(t)@,
                    c,
                    d,
                    old(self).find@,
                    replace@,
                    mark_dirty,
                )
            },
            final(t).wf(),
    {
        let armed = match self.phase {
            ReplacePhase::Previewed { count } => count > 0,
            _ => false,
        };
        if !armed {
            return Err(EngineError::Configuration);
        }
        match replace_substring(t, self.column.as_str(), self.find.as_str(), replace, mark_dirty) {
            Ok(n) => {
                self.phase = ReplacePhase::Applied { affected: n };
                Ok(n)
            },
            Err(e) => Err(e),
        }
    }
}

/// When the dirty flag is not set, the dirty-column index has no
/// bearing on the replacement result.
proof fn lemma_replaced_table_dirty_irrelevant(
    t: TableModel,
    c: int,
    d1: int,
    find: Seq<char>,
    rep: Seq<char>,
)
    ensures
        forall|d2: int| replaced_table(t, c, d1, find, rep, false) == #[trigger] replaced_table(
            t,
            c,
            d2,
            find,
            rep,
            false,
        ),
{
    assert forall|d2: int|
        replaced_table(t, c, d1, find, rep, false) == #[trigger] replaced_table(
        t,
        c,
        d2,
        find,
        rep,
        false,
    ) by {
        assert(replaced_table(t, c, d1, find, rep, false).rows =~= replaced_table(
            t,
            c,
            d2,
            find,
            rep,
            false,
        ).rows);
    }
}

} // verus!
