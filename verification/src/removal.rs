//! The removal set: records flagged for deletion, merged from the
//! detectors and deduplicated by record identity.  Row `id` is the
//! merge key, so two detectors flagging the same row count it once.

use vstd::prelude::*;
use crate::record::FileRecord;
use crate::record::RecordModel;
use crate::record::Table;
use crate::record::TableRow;
use crate::record::RowModel;

verus! {

/// Some record in the sequence has this id.
pub open spec fn seq_has_id(s: Seq<RecordModel>, id: int) -> bool {
    exists|k: int| 0 <= k < s.len() && s[k].id == id
}

/// What merging `b` into `a` yields: each record of `b` in turn is
/// appended unless its id is already present.
pub open spec fn merged_models(a: Seq<RecordModel>, b: Seq<RecordModel>, n: int) -> Seq<
    RecordModel,
>
    decreases n,
{
    if n <= 0 {
        a
    } else {
        let prev = merged_models(a, b, n - 1);
        if seq_has_id(prev, b[n - 1].id) {
            prev
        } else {
            prev + seq![b[n - 1]]
        }
    }
}

/// A set of records destined for removal, deduplicated by id and kept
/// in first-insertion order.
#[derive(Clone, Debug)]
pub struct RemovalSet {
    pub items: Vec<FileRecord>,
}

impl RemovalSet {
    /// The records, in first-insertion order.
    pub open spec fn models(&self) -> Seq<RecordModel> {
        self.items.deep_view()
    }

    /// The ids of the flagged records.
    pub open spec fn id_set(&self) -> Set<int> {
        Set::new(|id: int| seq_has_id(self.models(), id))
    }

    /// No id occurs twice.
    pub open spec fn wf(&self) -> bool {
        forall|k: int, l: int|
            0 <= k < l < self.models().len() ==> self.models()[k].id != self.models()[l].id
    }

    /// An empty removal set.
    pub fn new() -> (s: RemovalSet)
        ensures
            s.models() == Seq::<RecordModel>::empty(),
            s.wf(),
    {
        let s = RemovalSet { items: Vec::new() };
        proof {
            assert(s.models() =~= Seq::<RecordModel>::empty());
        }
        s
    }

    /// How many records are flagged.
    pub fn len(&self) -> (n: usize)
        ensures
            n == self.models().len(),
    {
        self.items.len()
    }

    /// Is a record with this id already flagged?
    pub fn contains_id(&self, id: usize) -> (r: bool)
        ensures
            r == seq_has_id(self.models(), id as int),
    {
        let n = self.items.len();
        let mut k: usize = 0;
        while k < n
            invariant
                n == self.items@.len(),
                self.models().len() == n,
                0 <= k <= n,
                forall|l: int| 0 <= l < k ==> self.models()[l].id != id as int,
            decreases n - k,
        {
            proof {
                assert(self.models()[k as int] == self.items@[k as int]@);
            }
            if self.items[k].id == id {
                return true;
            }
            k = k + 1;
        }
        false
    }

    /// Flag a record; a record whose id is already present is left
    /// alone, so no row is ever counted twice.
    pub fn insert(&mut self, rec: FileRecord)
        ensures
            seq_has_id(old(self).models(), rec@.id) ==> final(self).models() == old(self).models(),
            !seq_has_id(old(self).models(), rec@.id) ==> final(self).models() == old(
                self,
            ).models() + seq![rec@],
            old(self).wf() ==> final(self).wf(),
    {
        if !self.contains_id(rec.id) {
            let ghost old_models = self.models();
            self.items.push(rec);
            proof {
                assert(final(self).models() =~= old_models + seq![rec@]);
            }
        }
    }

    /// Merge another detector's result into this set: its records are
    /// taken in order, each flagged unless its id is already present.
    pub fn merge_from(&mut self, other: &RemovalSet)
        ensures
            final(self).models() == merged_models(
                old(self).models(),
                other.models(),
                other.models().len() as int,
            ),
            old(self).wf() ==> final(self).wf(),
    {
        let n = other.items.len();
        let mut k: usize = 0;
        proof {
            assert(other.models().len() == n);
        }
        while k < n
            invariant
                n == other.models().len(),
                0 <= k <= n,
                self.models() == merged_models(old(self).models(), other.models(), k as int),
                old(self).wf() ==> self.wf(),
            decreases n - k,
        {
            proof {
                assert(other.models()[k as int] == other.items@[k as int]@);
            }
            self.insert(other.items[k].duplicate());
            k = k + 1;
        }
    }
}

/// Merging the same result twice leaves the set exactly as merging it
/// once: every id the second pass offers is already present.
pub proof fn lemma_merge_idempotent(a: Seq<RecordModel>, b: Seq<RecordModel>)
    ensures
        merged_models(merged_models(a, b, b.len() as int), b, b.len() as int) == merged_models(
            a,
            b,
            b.len() as int,
        ),
{
    let c = merged_models(a, b, b.len() as int);
    lemma_merged_contains(a, b, b.len() as int);
    lemma_merged_no_new(c, b, b.len() as int);
}

/// After merging the first `n` records of `b`, each of their ids is
/// present.
proof fn lemma_merged_contains(a: Seq<RecordModel>, b: Seq<RecordModel>, n: int)
    ensures
        forall|k: int| 0 <= k < n ==> seq_has_id(merged_models(a, b, n), #[trigger] b[k].id),
    decreases n,
{
    if n > 0 {
        lemma_merged_contains(a, b, n - 1);
        let prev = merged_models(a, b, n - 1);
        let cur = merged_models(a, b, n);
        assert forall|k: int| 0 <= k < n implies seq_has_id(cur, #[trigger] b[k].id) by {
            if k < n - 1 {
                assert(seq_has_id(prev, b[k].id));
                let w = choose|w: int| 0 <= w < prev.len() && prev[w].id == b[k].id;
                assert(cur[w].id == b[k].id);
            } else {
                if seq_has_id(prev, b[n - 1].id) {
                } else {
                    assert(cur[prev.len() as int].id == b[n - 1].id);
                }
            }
        }
    }
}

/// Merging records whose ids are all present changes nothing.
proof fn lemma_merged_no_new(c: Seq<RecordModel>, b: Seq<RecordModel>, n: int)
    requires
        forall|k: int| 0 <= k < n ==> seq_has_id(c, #[trigger] b[k].id),
    ensures
        merged_models(c, b, n) == c,
    decreases n,
{
    if n > 0 {
        lemma_merged_no_new(c, b, n - 1);
    }
}

/// Rows of the first `n` whose id is not flagged, in row order.
pub open spec fn kept_rows_up_to(rows: Seq<RowModel>, removed: Seq<RecordModel>, n: int) -> Seq<
    RowModel,
>
    decreases n,
{
    if n <= 0 {
        Seq::empty()
    } else {
        let prev = kept_rows_up_to(rows, removed, n - 1);
        if seq_has_id(removed, rows[n - 1].id) {
            prev
        } else {
            prev + seq![rows[n - 1]]
        }
    }
}

/// The thinning pass a removal would perform: the rows of the table
/// whose id the removal set does not hold, in row order.  The rows
/// flagged by the scan are exactly the rows missing from the result.
pub fn remove_duplicates(t: &Table, removal: &RemovalSet) -> (kept: Vec<TableRow>)
    ensures
        kept@.map_values(|row: TableRow| row@) == kept_rows_up_to(
            t@.rows,
            removal.models(),
            t@.rows.len() as int,
        ),
{
    let n = t.rows.len();
    let mut out: Vec<TableRow> = Vec::new();
    let mut i: usize = 0;
    while i < n
        invariant
            n == t@.rows.len(),
            0 <= i <= n,
            out@.map_values(|row: TableRow| row@) =~= kept_rows_up_to(
                t@.rows,
                removal.models(),
                i as int,
            ),
        decreases n - i,
    {
        let row = &t.rows[i];
        proof {
            assert(t@.rows[i as int] == t.rows@[i as int]@);
        }
        if !removal.contains_id(row.id) {
            out.push(row.clone_row());
        }
        proof {
            assert(out@.map_values(|row: TableRow| row@) =~= kept_rows_up_to(
                t@.rows,
                removal.models(),
                i + 1,
            ));
        }
        i = i + 1;
    }
    out
}

} // verus!
