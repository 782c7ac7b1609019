//! The tag matcher: find every record whose filename contains any of
//! the given tags — filename substrings that mark processed or
//! auxiliary audio files — and flag it for removal.  The result is a
//! set of records: which tag matched, and in what order the tags were
//! tried, does not show in it.

use vstd::prelude::*;
use crate::config::Config;
use crate::record::in_seq;
use crate::record::lemma_first_col;
use crate::record::record_of_row;
use crate::record::row_filename;
use crate::record::schema_ok;
use crate::record::FileRecord;
use crate::record::RecordModel;
use crate::record::Table;
use crate::record::TableModel;
use crate::removal::merged_models;
use crate::text::contains_seq;
use crate::text::str_contains;

verus! {

/// Row `j`'s filename contains at least one of the tags.
pub open spec fn matches_any_tag(t: TableModel, tags: Seq<Seq<char>>, j: int) -> bool {
    exists|k: int| 0 <= k < tags.len() && contains_seq(row_filename(t, j), #[trigger] tags[k])
}

/// Records of the tag-matching rows among the first `n`, in row
/// order.
pub open spec fn tag_records_up_to(t: TableModel, tags: Seq<Seq<char>>, n: int) -> Seq<RecordModel>
    decreases n,
{
    if n <= 0 {
        Seq::empty()
    } else {
        let prev = tag_records_up_to(t, tags, n - 1);
        if matches_any_tag(t, tags, n - 1) {
            prev + seq![record_of_row(t, n - 1)]
        } else {
            prev
        }
    }
}

/// Records of all tag-matching rows, in row order.
pub open spec fn tag_records(t: TableModel, tags: Seq<Seq<char>>) -> Seq<RecordModel> {
    tag_records_up_to(t, tags, t.rows.len() as int)
}

/// The tag matcher does not depend on the order of the tag list: two
/// lists holding the same tags — in particular, any permutation of
/// one list — match exactly the same records.
pub proof fn lemma_tag_match_order_independent(
    t: TableModel,
    tags1: Seq<Seq<char>>,
    tags2: Seq<Seq<char>>,
)
    requires
        forall|tag: Seq<char>| in_seq(tags1, tag) == in_seq(tags2, tag),
    ensures
        forall|j: int| #[trigger] matches_any_tag(t, tags1, j) == matches_any_tag(t, tags2, j),
        tag_records(t, tags1) == tag_records(t, tags2),
{
    assert forall|j: int| #[trigger] matches_any_tag(t, tags1, j) == matches_any_tag(
        t,
        tags2,
        j,
    ) by {
        if matches_any_tag(t, tags1, j) {
            let k = choose|k: int|
                0 <= k < tags1.len() && contains_seq(row_filename(t, j), #[trigger] tags1[k]);
            assert(in_seq(tags1, tags1[k]));
            assert(in_seq(tags2, tags1[k]));
            let k2 = choose|k2: int| 0 <= k2 < tags2.len() && tags2[k2] == tags1[k];
            assert(contains_seq(row_filename(t, j), tags2[k2]));
        }
        if matches_any_tag(t, tags2, j) {
            let k = choose|k: int|
                0 <= k < tags2.len() && contains_seq(row_filename(t, j), #[trigger] tags2[k]);
            assert(in_seq(tags2, tags2[k]));
            assert(in_seq(tags1, tags2[k]));
            let k1 = choose|k1: int| 0 <= k1 < tags1.len() && tags1[k1] == tags2[k];
            assert(contains_seq(row_filename(t, j), tags1[k1]));
        }
    }
    lemma_tag_records_pointwise(t, tags1, tags2, t.rows.len() as int);
}

/// Two tag lists that match the same rows produce the same records.
proof fn lemma_tag_records_pointwise(
    t: TableModel,
    tags1: Seq<Seq<char>>,
    tags2: Seq<Seq<char>>,
    n: int,
)
    requires
        forall|j: int| #[trigger] matches_any_tag(t, tags1, j) == matches_any_tag(t, tags2, j),
    ensures
        tag_records_up_to(t, tags1, n) == tag_records_up_to(t, tags2, n),
    decreases n,
{
    if n > 0 {
        lemma_tag_records_pointwise(t, tags1, tags2, n - 1);
    }
}

/// The records whose filename contains at least one of the tags, in
/// row order.
pub fn gather_tag_matches(t: &Table, tags: &Vec<String>) -> (r: Vec<FileRecord>)
    requires
        t.wf(),
        schema_ok(t@),
    ensures
        r.deep_view() == tag_records(t@, tags.deep_view()),
{
    proof {
        lemma_first_col(t@.columns, "filename"@);
        lemma_first_col(t@.columns, "duration"@);
    }
    let fc = match t.column_index("filename") {
        Some(c) => c,
        None => {
            proof {
                assert(false);
            }
            0
        },
    };
    let dc = match t.column_index("duration") {
        Some(c) => c,
        None => {
            proof {
                assert(false);
            }
            0
        },
    };
    let ncols = t.columns.len();
    proof {
        assert(ncols == t@.columns.len());
        lemma_first_col(t@.columns, "filename"@);
        lemma_first_col(t@.columns, "duration"@);
    }
    let ghost tv = tags.deep_view();
    let n = t.rows.len();
    let ntags = tags.len();
    let mut out: Vec<FileRecord> = Vec::new();
    let mut j: usize = 0;
    while j < n
        invariant
            t.wf(),
            schema_ok(t@),
            tv == tags.deep_view(),
            n == t@.rows.len(),
            ntags == tags@.len(),
            tv.len() == ntags,
            forall|k: int| 0 <= k < ntags ==> #[trigger] tv[k] == tags@[k]@,
            fc == crate::record::first_col(t@.columns, "filename"@),
            0 <= fc < t@.columns.len(),
            dc == crate::record::first_col(t@.columns, "duration"@),
            0 <= dc < t@.columns.len(),
            0 <= j <= n,
            out.deep_view() == tag_records_up_to(t@, tv, j as int),
        decreases n - j,
    {
        let row = &t.rows[j];
        proof {
            assert(t@.rows[j as int] == t.rows@[j as int]@);
            assert(row.values.deep_view()[fc as int] == row.values@[fc as int]@);
            assert(row.values.deep_view()[dc as int] == row.values@[dc as int]@);
            assert(row.values@[fc as int]@ == row_filename(t@, j as int));
        }
        let mut hit = false;
        let mut k: usize = 0;
        while k < ntags && !hit
            invariant
                t.wf(),
                tv == tags.deep_view(),
                ntags == tags@.len(),
                tv.len() == ntags,
                forall|l: int| 0 <= l < ntags ==> #[trigger] tv[l] == tags@[l]@,
                j < n,
                n == t@.rows.len(),
                fc == crate::record::first_col(t@.columns, "filename"@),
                0 <= fc < t@.columns.len(),
                row == t.rows@[j as int],
                row.values@[fc as int]@ == row_filename(t@, j as int),
                0 <= k <= ntags,
                hit ==> matches_any_tag(t@, tv, j as int),
                !hit ==> forall|l: int|
                    0 <= l < k ==> !contains_seq(row_filename(t@, j as int), #[trigger] tv[l]),
            decreases ntags - k,
        {
            if str_contains(row.values[fc].as_str(), tags[k].as_str()) {
                proof {
                    assert(tags@[k as int]@ == tv[k as int]);
                    assert(contains_seq(row_filename(t@, j as int), tv[k as int]));
                }
                hit = true;
            }
            k = k + 1;
        }
        proof {
            if !hit {
                assert(!matches_any_tag(t@, tv, j as int));
            }
        }
        let ghost old_out = out.deep_view();
        if hit {
            let rec = FileRecord {
                id: row.id,
                filename: row.values[fc].clone(),
                duration: row.values[dc].clone(),
            };
            proof {
                assert(rec@ == record_of_row(t@, j as int));
            }
            out.push(rec);
            proof {
                assert(out.deep_view() =~= old_out + seq![record_of_row(t@, j as int)]);
            }
        }
        proof {
            assert(out.deep_view() =~= tag_records_up_to(t@, tv, j + 1));
        }
        j = j + 1;
    }
    proof {
        assert(out.deep_view() =~= tag_records(t@, tv));
    }
    out
}

/// Run the tag matcher with a detector configuration, as one scan
/// does: the records whose filename contains any tag of the
/// detector's list are merged into the detector's removal set.
pub fn gather_filenames_with_tags(t: &Table, tags: &mut Config)
    requires
        t.wf(),
        schema_ok(t@),
    ensures
        final(tags).records.models() == merged_models(
            old(tags).records.models(),
            tag_records(t@, old(tags).list.deep_view()),
            tag_records(t@, old(tags).list.deep_view()).len() as int,
        ),
        old(tags).records.wf() ==> final(tags).records.wf(),
        final(tags).search == old(tags).search,
        final(tags).option == old(tags).option,
        final(tags).list == old(tags).list,
        final(tags).working == old(tags).working,
{
    let found = gather_tag_matches(t, &tags.list);
    let other = crate::removal::RemovalSet { items: found };
    tags.records.merge_from(&other);
}

} // verus!
