//! The comparison matcher: flag every record of the primary table
//! whose filename also appears in a secondary database — exactly, or,
//! in substring mode, as a part of the primary filename — as already
//! archived elsewhere.

use vstd::prelude::*;
use crate::order::str_eq;
use crate::record::lemma_first_col;
use crate::record::record_of_row;
use crate::record::row_filename;
use crate::record::schema_ok;
use crate::record::FileRecord;
use crate::record::RecordModel;
use crate::record::Table;
use crate::record::TableModel;
use crate::text::contains_seq;
use crate::text::str_contains;

verus! {

/// Row `j` of the primary table overlaps the secondary table: some
/// secondary row's filename equals the primary filename, or, in
/// substring mode, occurs inside it.
pub open spec fn overlaps(t: TableModel, other: TableModel, substring_mode: bool, j: int) -> bool {
    exists|k: int|
        0 <= k < other.rows.len() && (if substring_mode {
            contains_seq(row_filename(t, j), #[trigger] row_filename(other, k))
        } else {
            row_filename(t, j) == #[trigger] row_filename(other, k)
        })
}

/// Records of the overlapping rows among the first `n`, in row order.
pub open spec fn overlap_records_up_to(
    t: TableModel,
    other: TableModel,
    substring_mode: bool,
    n: int,
) -> Seq<RecordModel>
    decreases n,
{
    if n <= 0 {
        Seq::empty()
    } else {
        let prev = overlap_records_up_to(t, other, substring_mode, n - 1);
        if overlaps(t, other, substring_mode, n - 1) {
            prev + seq![record_of_row(t, n - 1)]
        } else {
            prev
        }
    }
}

/// Records of all overlapping rows, in row order.
pub open spec fn overlap_records(t: TableModel, other: TableModel, substring_mode: bool) -> Seq<
    RecordModel,
> {
    overlap_records_up_to(t, other, substring_mode, t.rows.len() as int)
}

/// The records of the primary table whose filename also appears in
/// the secondary table, in row order.
pub fn gather_compare_overlaps(t: &Table, other: &Table, substring_mode: bool) -> (r: Vec<
    FileRecord,
>)
    requires
        t.wf(),
        schema_ok(t@),
        other.wf(),
        schema_ok(other@),
    ensures
        r.deep_view() == overlap_records(t@, other@, substring_mode),
{
    let ncols = t.columns.len();
    let ncols2 = other.columns.len();
    proof {
        assert(ncols == t@.columns.len());
        assert(ncols2 == other@.columns.len());
        lemma_first_col(t@.columns, "filename"@);
        lemma_first_col(t@.columns, "duration"@);
        lemma_first_col(other@.columns, "filename"@);
    }
    let fc = match t.column_index("filename") {
        Some(c) => c,
        None => {
            proof {
                assert(false);
            }
            0
        },
    };
    let dc = match t.column_index("duration") {
        Some(c) => c,
        None => {
            proof {
                assert(false);
            }
            0
        },
    };
    let fc2 = match other.column_index("filename") {
        Some(c) => c,
        None => {
            proof {
                assert(false);
            }
            0
        },
    };
    let n = t.rows.len();
    let n2 = other.rows.len();
    let mut out: Vec<FileRecord> = Vec::new();
    let mut j: usize = 0;
    while j < n
        invariant
            t.wf(),
            schema_ok(t@),
            other.wf(),
            schema_ok(other@),
            n == t@.rows.len(),
            n2 == other@.rows.len(),
            fc == crate::record::first_col(t@.columns, "filename"@),
            0 <= fc < t@.columns.len(),
            dc == crate::record::first_col(t@.columns, "duration"@),
            0 <= dc < t@.columns.len(),
            fc2 == crate::record::first_col(other@.columns, "filename"@),
            0 <= fc2 < other@.columns.len(),
            0 <= j <= n,
            out.deep_view() == overlap_records_up_to(t@, other@, substring_mode, j as int),
        decreases n - j,
    {
        let row = &t.rows[j];
        proof {
            assert(t@.rows[j as int] == t.rows@[j as int]@);
            assert(row.values.deep_view()[fc as int] == row.values@[fc as int]@);
            assert(row.values.deep_view()[dc as int] == row.values@[dc as int]@);
            assert(row.values@[fc as int]@ == row_filename(t@, j as int));
        }
        let mut hit = false;
        let mut k: usize = 0;
        while k < n2 && !hit
            invariant
                t.wf(),
                other.wf(),
                n == t@.rows.len(),
                n2 == other@.rows.len(),
                fc == crate::record::first_col(t@.columns, "filename"@),
                0 <= fc < t@.columns.len(),
                fc2 == crate::record::first_col(other@.columns, "filename"@),
                0 <= fc2 < other@.columns.len(),
                j < n,
                row == t.rows@[j as int],
                row.values@[fc as int]@ == row_filename(t@, j as int),
                0 <= k <= n2,
                hit ==> overlaps(t@, other@, substring_mode, j as int),
                !hit ==> forall|l: int|
                    0 <= l < k ==> (if substring_mode {
                        !contains_seq(
                            row_filename(t@, j as int),
                            #[trigger] row_filename(other@, l),
                        )
                    } else {
                        row_filename(t@, j as int) != #[trigger] row_filename(other@, l)
                    }),
            decreases n2 - k,
        {
            let orow = &other.rows[k];
            proof {
                assert(other@.rows[k as int] == other.rows@[k as int]@);
                assert(orow.values.deep_view()[fc2 as int] == orow.values@[fc2 as int]@);
                assert(orow.values@[fc2 as int]@ == row_filename(other@, k as int));
            }
            let matched = if substring_mode {
                str_contains(row.values[fc].as_str(), orow.values[fc2].as_str())
            } else {
                str_eq(row.values[fc].as_str(), orow.values[fc2].as_str())
            };
            if matched {
                proof {
                    assert(overlaps(t@, other@, substring_mode, j as int));
                }
                hit = true;
            }
            k = k + 1;
        }
        proof {
            if !hit {
                assert(!overlaps(t@, other@, substring_mode, j as int));
            }
        }
        let ghost old_out = out.deep_view();
        if hit {
            let rec = FileRecord {
                id: row.id,
                filename: row.values[fc].clone(),
                duration: row.values[dc].clone(),
            };
            proof {
                assert(rec@ == record_of_row(t@, j as int));
            }
            out.push(rec);
            proof {
                assert(out.deep_view() =~= old_out + seq![record_of_row(t@, j as int)]);
            }
        }
        proof {
            assert(out.deep_view() =~= overlap_records_up_to(t@, other@, substring_mode, j + 1));
        }
        j = j + 1;
    }
    proof {
        assert(out.deep_view() =~= overlap_records(t@, other@, substring_mode));
    }
    out
}

} // verus!
