//! The data model: one metadata record, one table row, and a whole
//! table snapshot with its column schema.
//!
//! A table snapshot is what the engines work on: the columns of the
//! metadata table (internal bookkeeping columns, whose names start with
//! an underscore, included) and every row, each row holding one value
//! per column.  Row identity is the stable `id`; it is the merge key
//! for removal sets.

use vstd::prelude::*;
use crate::error::EngineError;
use crate::order::lex_lt;
use crate::order::lemma_lex_trichotomy;
use crate::order::str_eq;
use crate::order::str_lex_lt;
use crate::text::contains_seq;
use crate::text::str_contains;

verus! {

/// Mathematical model of a [`FileRecord`].
pub ghost struct RecordModel {
    pub id: int,
    pub filename: Seq<char>,
    pub duration: Seq<char>,
}

/// One row of the metadata table as the detectors report it: the
/// identity of the row plus its display name and duration payload.
#[derive(Clone, Debug)]
pub struct FileRecord {
    pub id: usize,
    pub filename: String,
    pub duration: String,
}

impl View for FileRecord {
    type V = RecordModel;

    open spec fn view(&self) -> RecordModel {
        RecordModel { id: self.id as int, filename: self.filename@, duration: self.duration@ }
    }
}

impl DeepView for FileRecord {
    type V = RecordModel;

    open spec fn deep_view(&self) -> RecordModel {
        self.view()
    }
}

impl FileRecord {
    /// An owned copy with the same model.
    pub fn duplicate(&self) -> (r: FileRecord)
        ensures
            r@ == self@,
    {
        FileRecord { id: self.id, filename: self.filename.clone(), duration: self.duration.clone() }
    }
}

/// Mathematical model of a [`TableRow`].
pub ghost struct RowModel {
    pub id: int,
    pub values: Seq<Seq<char>>,
}

/// One row of the table snapshot: the stable row identifier and one
/// text value per column, in the order of [`Table::columns`].
#[derive(Clone, Debug)]
pub struct TableRow {
    pub id: usize,
    pub values: Vec<String>,
}

impl View for TableRow {
    type V = RowModel;

    open spec fn view(&self) -> RowModel {
        RowModel { id: self.id as int, values: self.values.deep_view() }
    }
}

impl TableRow {
    /// An owned copy with the same model.
    pub fn clone_row(&self) -> (r: TableRow)
        ensures
            r@ == self@,
    {
        let m = self.values.len();
        let mut vals: Vec<String> = Vec::new();
        let mut j: usize = 0;
        while j < m
            invariant
                m == self.values@.len(),
                0 <= j <= m,
                vals@.len() == j,
                forall|k: int| 0 <= k < j ==> #[trigger] vals@[k]@ == self.values@[k]@,
            decreases m - j,
        {
            vals.push(self.values[j].clone());
            j = j + 1;
        }
        let r = TableRow { id: self.id, values: vals };
        proof {
            assert(r@.values =~= self@.values) by {
                assert(forall|k: int|
                    0 <= k < m ==> #[trigger] r.values.deep_view()[k] == r.values@[k]@);
                assert(forall|k: int|
                    0 <= k < m ==> #[trigger] self.values.deep_view()[k] == self.values@[k]@);
            }
        }
        r
    }
}

/// Mathematical model of a [`Table`].
pub ghost struct TableModel {
    pub columns: Seq<Seq<char>>,
    pub rows: Seq<RowModel>,
}

/// A snapshot of the metadata table: its column names and all rows.
#[derive(Clone, Debug)]
pub struct Table {
    pub columns: Vec<String>,
    pub rows: Vec<TableRow>,
}

impl View for Table {
    type V = TableModel;

    open spec fn view(&self) -> TableModel {
        TableModel {
            columns: self.columns.deep_view(),
            rows: self.rows@.map_values(|r: TableRow| r@),
        }
    }
}

/// The column list holds `name`.
pub open spec fn has_col(cols: Seq<Seq<char>>, name: Seq<char>) -> bool {
    exists|i: int| 0 <= i < cols.len() && cols[i] == name
}

/// Index of the first column called `name`; the length of the list
/// when no column has that name.
pub open spec fn first_col(cols: Seq<Seq<char>>, name: Seq<char>) -> int
    decreases cols.len(),
{
    if cols.len() == 0 {
        0
    } else if cols[0] == name {
        0
    } else {
        1 + first_col(cols.skip(1), name)
    }
}

/// What `first_col` returns: the least matching index, or the length
/// of the list when there is none.
pub proof fn lemma_first_col(cols: Seq<Seq<char>>, name: Seq<char>)
    ensures
        has_col(cols, name) ==> {
            let c = first_col(cols, name);
            0 <= c < cols.len() && cols[c] == name && forall|k: int| 0 <= k < c ==> cols[k] != name
        },
        !has_col(cols, name) ==> first_col(cols, name) == cols.len(),
    decreases cols.len(),
{
    if cols.len() == 0 {
    } else if cols[0] == name {
    } else {
        lemma_first_col(cols.skip(1), name);
        assert(forall|i: int| 1 <= i < cols.len() ==> #[trigger] cols[i] == cols.skip(1)[i - 1]);
        if has_col(cols, name) {
            let w = choose|i: int| 0 <= i < cols.len() && cols[i] == name;
            assert(cols.skip(1)[w - 1] == name);
            assert(has_col(cols.skip(1), name));
        } else {
            if has_col(cols.skip(1), name) {
                let w = choose|i: int| 0 <= i < cols.skip(1).len() && cols.skip(1)[i] == name;
                assert(cols[w + 1] == name);
            }
        }
    }
}

/// The model a well-formed table satisfies: every row has one value
/// per column, row identifiers are distinct, and column names are
/// distinct (a database table cannot declare the same column twice).
pub open spec fn table_wf(t: TableModel) -> bool {
    &&& forall|i: int| 0 <= i < t.rows.len() ==> (#[trigger] t.rows[i]).values.len()
        == t.columns.len()
    &&& forall|i: int, j: int| 0 <= i < j < t.rows.len() ==> t.rows[i].id != t.rows[j].id
    &&& forall|i: int, j: int| 0 <= i < j < t.columns.len() ==> t.columns[i] != t.columns[j]
}

/// The schema the detectors expect of a metadata table: a `filename`
/// and a `duration` column.
pub open spec fn schema_ok(t: TableModel) -> bool {
    has_col(t.columns, "filename"@) && has_col(t.columns, "duration"@)
}

/// The name marks an internal bookkeeping column: it starts with an
/// underscore.
pub open spec fn is_internal_name(name: Seq<char>) -> bool {
    name.len() >= 1 && name[0] == '_'
}

impl Table {
    /// The table is well formed; see [`table_wf`].
    pub open spec fn wf(&self) -> bool {
        table_wf(self@)
    }

    /// Total number of records in the table.
    pub fn row_count(&self) -> (r: usize)
        ensures
            r == self@.rows.len(),
    {
        self.rows.len()
    }

    /// Index of the first column called `name`, if any.
    pub fn column_index(&self, name: &str) -> (r: Option<usize>)
        ensures
            has_col(self@.columns, name@) ==> r == Some(
                first_col(self@.columns, name@) as usize,
            ),
            !has_col(self@.columns, name@) ==> r is None,
    {
        proof {
            lemma_first_col(self@.columns, name@);
        }
        let n = self.columns.len();
        let mut i: usize = 0;
        while i < n
            invariant
                n == self@.columns.len(),
                0 <= i <= n,
                forall|k: int| 0 <= k < i ==> self@.columns[k] != name@,
            decreases n - i,
        {
            proof {
                assert(self@.columns[i as int] == self.columns@[i as int]@);
            }
            if str_eq(self.columns[i].as_str(), name) {
                proof {
                    lemma_first_col(self@.columns, name@);
                    assert(self@.columns[i as int] == name@);
                    assert(has_col(self@.columns, name@));
                    assert(first_col(self@.columns, name@) == i) by {
                        lemma_first_col(self@.columns, name@);
                        let c = first_col(self@.columns, name@);
                        if c < i {
                            assert(self@.columns[c] == name@);
                        }
                        if c > i {
                            assert(self@.columns[i as int] != name@);
                        }
                    }
                }
                return Some(i);
            }
            i = i + 1;
        }
        proof {
            if has_col(self@.columns, name@) {
                let w = choose|k: int|
                    0 <= k < self@.columns.len() && self@.columns[k] == name@;
                assert(self@.columns[w] != name@);
            }
        }
        None
    }

    /// The records whose filename contains `substring`, in row order.
    pub fn fetch_by_filename_substring(&self, substring: &str) -> (r: Vec<FileRecord>)
        requires
            self.wf(),
            schema_ok(self@),
        ensures
            r.deep_view() == matching_records(self@, substring@),
    {
        proof {
            lemma_first_col(self@.columns, "filename"@);
            lemma_first_col(self@.columns, "duration"@);
        }
        let fc = match self.column_index("filename") {
            Some(c) => c,
            None => {
                proof {
                    assert(false);
                }
                0
            },
        };
        let dc = match self.column_index("duration") {
            Some(c) => c,
            None => {
                proof {
                    assert(false);
                }
                0
            },
        };
        let ncols = self.columns.len();
        proof {
            assert(self@.columns.len() == self.columns@.len());
            lemma_first_col(self@.columns, "filename"@);
            lemma_first_col(self@.columns, "duration"@);
        }
        let n = self.rows.len();
        let mut out: Vec<FileRecord> = Vec::new();
        let mut i: usize = 0;
        while i < n
            invariant
                self.wf(),
                schema_ok(self@),
                n == self@.rows.len(),
                fc == first_col(self@.columns, "filename"@),
                dc == first_col(self@.columns, "duration"@),
                0 <= fc < self@.columns.len(),
                0 <= dc < self@.columns.len(),
                0 <= i <= n,
                out.deep_view() == matching_records_up_to(self@, substring@, i as int),
            decreases n - i,
        {
            let row = &self.rows[i];
            proof {
                lemma_first_col(self@.columns, "filename"@);
                lemma_first_col(self@.columns, "duration"@);
                assert(self@.rows[i as int] == self.rows@[i as int]@);
                assert(row.values.deep_view().len() == row.values@.len());
                assert(self@.rows[i as int].values.len() == self@.columns.len());
                assert(row.values.deep_view()[fc as int] == row.values@[fc as int]@);
                assert(row.values.deep_view()[dc as int] == row.values@[dc as int]@);
                assert(row.values@[fc as int]@ == row_filename(self@, i as int));
            }
            let ghost old_out = out.deep_view();
            if str_contains(row.values[fc].as_str(), substring) {
                let rec = FileRecord {
                    id: row.id,
                    filename: row.values[fc].clone(),
                    duration: row.values[dc].clone(),
                };
                proof {
                    assert(rec@ == record_of_row(self@, i as int));
                }
                out.push(rec);
                proof {
                    assert(out.deep_view() =~= old_out + seq![record_of_row(self@, i as int)]);
                }
            }
            proof {
                assert(out.deep_view() =~= matching_records_up_to(self@, substring@, i + 1));
            }
            i = i + 1;
        }
        proof {
            assert(out.deep_view() =~= matching_records(self@, substring@));
        }
        out
    }

    /// The column names shown to the user: every column whose name does
    /// not start with an underscore, sorted alphabetically by code
    /// point.
    pub fn visible_columns(&self) -> (r: Vec<String>)
        requires
            self.wf(),
        ensures
            sorted_strict(r.deep_view()),
            forall|k: int| 0 <= k < r.deep_view().len() ==> visible_in(
                self@,
                #[trigger] r.deep_view()[k],
            ),
            forall|name: Seq<char>| visible_in(self@, name) ==> in_seq(r.deep_view(), name),
    {
        let n = self.columns.len();
        let mut out: Vec<String> = Vec::new();
        let mut i: usize = 0;
        while i < n
            invariant
                self.wf(),
                n == self@.columns.len(),
                0 <= i <= n,
                sorted_strict(out.deep_view()),
                forall|k: int| 0 <= k < out.deep_view().len() ==> visible_in(
                    self@,
                    #[trigger] out.deep_view()[k],
                ),
                forall|c: int|
                    0 <= c < i && !is_internal_name(self@.columns[c]) ==> in_seq(
                        out.deep_view(),
                        #[trigger] self@.columns[c],
                    ),
                forall|k: int|
                    0 <= k < out.deep_view().len() ==> exists|c: int|
                        0 <= c < i && #[trigger] out.deep_view()[k] == self@.columns[c],
            decreases n - i,
        {
            let name = &self.columns[i];
            let internal = name.unicode_len() >= 1 && name.as_str().get_char(0) == '_';
            proof {
                assert(internal == is_internal_name(self@.columns[i as int]));
            }
            if !internal {
                proof {
                    assert(!in_seq(out.deep_view(), self@.columns[i as int])) by {
                        if in_seq(out.deep_view(), self@.columns[i as int]) {
                            let k = choose|k: int|
                                0 <= k < out.deep_view().len() && out.deep_view()[k]
                                    == self@.columns[i as int];
                            let c = choose|c: int|
                                0 <= c < i && out.deep_view()[k] == self@.columns[c];
                            assert(self@.columns[c] == self@.columns[i as int]);
                        }
                    }
                }
                let pos = insert_position(&out, name.as_str());
                let ghost old_out = out.deep_view();
                out.insert(pos, name.clone());
                proof {
                    let new_out = out.deep_view();
                    let v = self@.columns[i as int];
                    assert(new_out =~= old_out.insert(pos as int, v));
                    assert(sorted_strict(new_out)) by {
                        assert(forall|k: int|
                            0 <= k < pos ==> #[trigger] new_out[k] == old_out[k]);
                        assert(new_out[pos as int] == v);
                        assert(forall|k: int|
                            pos < k < new_out.len() ==> #[trigger] new_out[k] == old_out[k - 1]);
                        assert(forall|k: int| 0 <= k < pos ==> lex_lt(#[trigger] old_out[k], v))
                            by {
                            assert forall|k: int| 0 <= k < pos implies lex_lt(
                                #[trigger] old_out[k],
                                v,
                            ) by {
                                lemma_lex_trichotomy(old_out[k], v);
                                assert(old_out[k] != v);
                            }
                        }
                    }
                    assert(forall|name2: Seq<char>|
                        in_seq(old_out, name2) || name2 == v ==> in_seq(new_out, name2)) by {
                        assert forall|name2: Seq<char>|
                            in_seq(old_out, name2) || name2 == v implies in_seq(
                            new_out,
                            name2,
                        ) by {
                            if name2 == v {
                                assert(new_out[pos as int] == name2);
                            } else {
                                let k = choose|k: int|
                                    0 <= k < old_out.len() && old_out[k] == name2;
                                if k < pos {
                                    assert(new_out[k] == name2);
                                } else {
                                    assert(new_out[k + 1] == name2);
                                }
                            }
                        }
                    }
                }
            }
            i = i + 1;
        }
        out
    }
}

/// Decide whether a freshly loaded snapshot is fit for the engines:
/// well formed — one value per column in every row, distinct row
/// ids, distinct column names — and of the expected schema.  An
/// unverified loader calls this before handing the table to any
/// engine.
pub fn check_table(t: &Table) -> (r: bool)
    ensures
        r == (t.wf() && schema_ok(t@)),
{
    let ncols = t.columns.len();
    let n = t.rows.len();
    proof {
        assert(ncols == t@.columns.len());
        assert(n == t@.rows.len());
    }
    let mut i: usize = 0;
    while i < n
        invariant
            ncols == t@.columns.len(),
            n == t@.rows.len(),
            0 <= i <= n,
            forall|k: int| 0 <= k < i ==> (#[trigger] t@.rows[k]).values.len() == ncols,
        decreases n - i,
    {
        proof {
            assert(t@.rows[i as int] == t.rows@[i as int]@);
        }
        if t.rows[i].values.len() != ncols {
            return false;
        }
        i = i + 1;
    }
    let mut i: usize = 0;
    while i < n
        invariant
            n == t@.rows.len(),
            0 <= i <= n,
            forall|k: int, l: int| 0 <= k < l < i ==> t@.rows[k].id != t@.rows[l].id,
        decreases n - i,
    {
        let mut j: usize = 0;
        while j < i
            invariant
                n == t@.rows.len(),
                0 <= j <= i < n,
                forall|k: int, l: int| 0 <= k < l < i ==> t@.rows[k].id != t@.rows[l].id,
                forall|k: int| 0 <= k < j ==> t@.rows[k].id != t@.rows[i as int].id,
            decreases i - j,
        {
            proof {
                assert(t@.rows[i as int] == t.rows@[i as int]@);
                assert(t@.rows[j as int] == t.rows@[j as int]@);
            }
            if t.rows[j].id == t.rows[i].id {
                return false;
            }
            j = j + 1;
        }
        i = i + 1;
    }
    let mut i: usize = 0;
    while i < ncols
        invariant
            ncols == t@.columns.len(),
            0 <= i <= ncols,
            forall|k: int, l: int| 0 <= k < l < i ==> t@.columns[k] != t@.columns[l],
        decreases ncols - i,
    {
        let mut j: usize = 0;
        while j < i
            invariant
                ncols == t@.columns.len(),
                0 <= j <= i < ncols,
                forall|k: int, l: int| 0 <= k < l < i ==> t@.columns[k] != t@.columns[l],
                forall|k: int| 0 <= k < j ==> t@.columns[k] != t@.columns[i as int],
            decreases i - j,
        {
            proof {
                assert(t@.columns[i as int] == t.columns@[i as int]@);
                assert(t@.columns[j as int] == t.columns@[j as int]@);
            }
            if str_eq(t.columns[j].as_str(), t.columns[i].as_str()) {
                return false;
            }
            j = j + 1;
        }
        i = i + 1;
    }
    let has_filename = match t.column_index("filename") {
        Some(_) => true,
        None => false,
    };
    let has_duration = match t.column_index("duration") {
        Some(_) => true,
        None => false,
    };
    has_filename && has_duration
}

/// Admit a freshly loaded snapshot to the engines, or refuse it as a
/// connection-level fault: a table that is not well formed, or lacks
/// the expected schema, comes from a missing, corrupt or foreign
/// database.
pub fn require_schema(t: &Table) -> (r: Result<(), EngineError>)
    ensures
        t.wf() && schema_ok(t@) ==> r == Ok::<(), EngineError>(()),
        !(t.wf() && schema_ok(t@)) ==> r == Err::<(), EngineError>(EngineError::Connection),
{
    if check_table(t) {
        Ok(())
    } else {
        Err(EngineError::Connection)
    }
}

/// `name` occurs in the sequence of names.
pub open spec fn in_seq(s: Seq<Seq<char>>, name: Seq<char>) -> bool {
    exists|i: int| 0 <= i < s.len() && s[i] == name
}

/// The names are in strictly increasing lexicographic order.
pub open spec fn sorted_strict(s: Seq<Seq<char>>) -> bool {
    forall|i: int, j: int| 0 <= i < j < s.len() ==> lex_lt(#[trigger] s[i], #[trigger] s[j])
}

/// `name` is a non-internal column of the table.
pub open spec fn visible_in(t: TableModel, name: Seq<char>) -> bool {
    has_col(t.columns, name) && !is_internal_name(name)
}

/// Records of the first `n` rows whose filename contains `sub`, in row
/// order, projected onto id, filename and duration.
pub open spec fn matching_records_up_to(t: TableModel, sub: Seq<char>, n: int) -> Seq<RecordModel>
    decreases n,
{
    if n <= 0 {
        Seq::empty()
    } else {
        let prev = matching_records_up_to(t, sub, n - 1);
        if contains_seq(row_filename(t, n - 1), sub) {
            prev + seq![record_of_row(t, n - 1)]
        } else {
            prev
        }
    }
}

/// Records of all rows whose filename contains `sub`.
pub open spec fn matching_records(t: TableModel, sub: Seq<char>) -> Seq<RecordModel> {
    matching_records_up_to(t, sub, t.rows.len() as int)
}

/// The filename value of row `i`.
pub open spec fn row_filename(t: TableModel, i: int) -> Seq<char> {
    t.rows[i].values[first_col(t.columns, "filename"@)]
}

/// The record projection of row `i`.
pub open spec fn record_of_row(t: TableModel, i: int) -> RecordModel {
    RecordModel {
        id: t.rows[i].id,
        filename: row_filename(t, i),
        duration: t.rows[i].values[first_col(t.columns, "duration"@)],
    }
}

/// Position where `name` belongs in the strictly sorted list `out`:
/// the first index holding a name that `name` precedes.
fn insert_position(out: &Vec<String>, name: &str) -> (pos: usize)
    requires
        sorted_strict(out.deep_view()),
    ensures
        0 <= pos <= out.deep_view().len(),
        forall|k: int| 0 <= k < pos ==> !lex_lt(name@, #[trigger] out.deep_view()[k]),
        forall|k: int| pos <= k < out.deep_view().len() ==> lex_lt(
            name@,
            #[trigger] out.deep_view()[k],
        ),
{
    let n = out.len();
    let mut pos: usize = 0;
    while pos < n
        invariant
            sorted_strict(out.deep_view()),
            n == out.deep_view().len(),
            0 <= pos <= n,
            forall|k: int| 0 <= k < pos ==> !lex_lt(name@, #[trigger] out.deep_view()[k]),
        decreases n - pos,
    {
        if str_lex_lt(name, out[pos].as_str()) {
            proof {
                assert forall|k: int|
                    pos <= k < out.deep_view().len() implies lex_lt(
                    name@,
                    #[trigger] out.deep_view()[k],
                ) by {
                    if k > pos {
                        crate::order::lemma_lex_transitive(
                            name@,
                            out.deep_view()[pos as int],
                            out.deep_view()[k],
                        );
                    }
                }
            }
            return pos;
        }
        pos = pos + 1;
    }
    pos
}

} // verus!
