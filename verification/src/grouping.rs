//! The duplicate grouping engine: partition the rows into duplicate
//! groups — same filename, and, when grouping is on, same value of
//! the grouping column — rank each group by the tie-break rules, and
//! flag every row but the top-ranked keeper of its group.

use vstd::prelude::*;
use crate::error::EngineError;
use crate::order::str_eq;
use crate::record::first_col;
use crate::record::has_col;
use crate::record::lemma_first_col;
use crate::record::record_of_row;
use crate::record::row_filename;
use crate::record::schema_ok;
use crate::record::FileRecord;
use crate::record::RecordModel;
use crate::record::Table;
use crate::record::TableModel;
use crate::rules::beats;
use crate::rules::first_divergence;
use crate::rules::lemma_beats_total;
use crate::rules::lemma_beats_trans;
use crate::rules::lemma_first_divergence;
use crate::rules::lemma_rule_laws;
use crate::rules::lemma_rules_prefer_iff;
use crate::rules::rule_col;
use crate::rules::rule_name;
use crate::rules::rule_prefers;
use crate::rules::rule_ties;
use crate::rules::rule_value;
use crate::rules::rules_prefer;
use crate::rules::ties_all;
use crate::rules::ties_upto;
use crate::rules::RuleModel;
use crate::rules::TieBreakRule;
use crate::text::str_contains;

verus! {

/// Mathematical model of a [`Grouping`].
pub ghost struct GroupingModel {
    pub column: Option<Seq<char>>,
    pub include_null: bool,
}

/// How duplicate groups are formed: by filename alone, or by filename
/// within each value of a grouping column.  When `include_null` is
/// off, rows with an empty grouping value take part in no group at
/// all.
#[derive(Clone, Debug)]
pub struct Grouping {
    pub column: Option<String>,
    pub include_null: bool,
}

impl View for Grouping {
    type V = GroupingModel;

    open spec fn view(&self) -> GroupingModel {
        GroupingModel {
            column: match self.column {
                Some(ref name) => Some(name@),
                None => None,
            },
            include_null: self.include_null,
        }
    }
}

/// The grouping column's value of row `i`.
pub open spec fn group_value(t: TableModel, name: Seq<char>, i: int) -> Seq<char> {
    t.rows[i].values[first_col(t.columns, name)]
}

/// Row `i` takes part in partitioning: always, unless grouping is on,
/// empty-group rows are excluded, and this row's grouping value is
/// empty.
pub open spec fn in_scope(t: TableModel, g: GroupingModel, i: int) -> bool {
    match g.column {
        None => true,
        Some(name) => g.include_null || group_value(t, name, i).len() > 0,
    }
}

/// Rows `i` and `j` belong to the same duplicate group: equal
/// filenames and, when grouping is on, equal grouping values.
pub open spec fn same_group(t: TableModel, g: GroupingModel, i: int, j: int) -> bool {
    row_filename(t, i) == row_filename(t, j) && match g.column {
        None => true,
        Some(name) => group_value(t, name, i) == group_value(t, name, j),
    }
}

/// Row `j` is flagged for removal: it takes part in partitioning and
/// some other row of its group outranks it.
pub open spec fn flagged(t: TableModel, rules: Seq<RuleModel>, g: GroupingModel, j: int) -> bool {
    in_scope(t, g, j) && exists|i: int|
        0 <= i < t.rows.len() && i != j && #[trigger] in_scope(t, g, i) && same_group(t, g, i, j)
            && beats(t, rules, i, j)
}

/// Records of the flagged rows among the first `n`, in row order.
pub open spec fn flagged_records_up_to(
    t: TableModel,
    rules: Seq<RuleModel>,
    g: GroupingModel,
    n: int,
) -> Seq<RecordModel>
    decreases n,
{
    if n <= 0 {
        Seq::empty()
    } else {
        let prev = flagged_records_up_to(t, rules, g, n - 1);
        if flagged(t, rules, g, n - 1) {
            prev + seq![record_of_row(t, n - 1)]
        } else {
            prev
        }
    }
}

/// Records of all flagged rows, in row order.
pub open spec fn flagged_records(t: TableModel, rules: Seq<RuleModel>, g: GroupingModel) -> Seq<
    RecordModel,
> {
    flagged_records_up_to(t, rules, g, t.rows.len() as int)
}

/// Row `k` is a member of row `j`'s duplicate group.
pub open spec fn is_candidate(t: TableModel, g: GroupingModel, j: int, k: int) -> bool {
    0 <= k < t.rows.len() && in_scope(t, g, k) && same_group(t, g, k, j)
}

/// Every rule of the grouping engine's input names a column of the
/// table.
pub open spec fn rules_valid(t: TableModel, rules: Seq<RuleModel>) -> bool {
    forall|m: int| 0 <= m < rules.len() ==> has_col(t.columns, rule_name(#[trigger] rules[m]))
}

/// The grouping column, when set, names a column of the table.
pub open spec fn grouping_valid(t: TableModel, g: GroupingModel) -> bool {
    match g.column {
        None => true,
        Some(name) => has_col(t.columns, name),
    }
}

/// A row alone in its duplicate group is never flagged.
pub proof fn lemma_singleton_group_unflagged(
    t: TableModel,
    rules: Seq<RuleModel>,
    g: GroupingModel,
    j: int,
)
    requires
        0 <= j < t.rows.len(),
        forall|i: int|
            0 <= i < t.rows.len() && i != j ==> !(#[trigger] in_scope(t, g, i) && same_group(
                t,
                g,
                i,
                j,
            )),
    ensures
        !flagged(t, rules, g, j),
{
}

/// The best group member among the first `n` rows: the index that
/// outranks every other member seen so far; `-1` when no member was
/// seen.
spec fn best_upto(t: TableModel, rules: Seq<RuleModel>, g: GroupingModel, j: int, n: int) -> int
    decreases n,
{
    if n <= 0 {
        -1
    } else {
        let prev = best_upto(t, rules, g, j, n - 1);
        if is_candidate(t, g, j, n - 1) && (prev < 0 || beats(t, rules, n - 1, prev)) {
            n - 1
        } else {
            prev
        }
    }
}

/// What `best_upto` returns: a group member that outranks every other
/// member among the first `n` rows, as soon as any member exists.
#[verifier::rlimit(100)]
#[verifier::spinoff_prover]
proof fn lemma_best_upto(t: TableModel, rules: Seq<RuleModel>, g: GroupingModel, j: int, n: int)
    requires
        n >= 0,
    ensures
        best_upto(t, rules, g, j, n) >= 0 <==> exists|k: int|
            0 <= k < n && #[trigger] is_candidate(t, g, j, k),
        best_upto(t, rules, g, j, n) >= 0 ==> {
            let b = best_upto(t, rules, g, j, n);
            b < n && is_candidate(t, g, j, b) && forall|k: int|
                0 <= k < n && #[trigger] is_candidate(t, g, j, k) && k != b ==> beats(t, rules, b, k)
        },
    decreases n,
{
    if n > 0 {
        lemma_best_upto(t, rules, g, j, n - 1);
        let prev = best_upto(t, rules, g, j, n - 1);
        let b = best_upto(t, rules, g, j, n);
        if is_candidate(t, g, j, n - 1) {
            if prev < 0 {
                assert(b == n - 1);
                assert forall|k: int|
                    0 <= k < n && #[trigger] is_candidate(t, g, j, k) && k != b implies beats(
                    t,
                    rules,
                    b,
                    k,
                ) by {
                    assert(0 <= k < n - 1);
                }
            } else if beats(t, rules, n - 1, prev) {
                assert(b == n - 1);
                assert forall|k: int|
                    0 <= k < n && #[trigger] is_candidate(t, g, j, k) && k != b implies beats(
                    t,
                    rules,
                    b,
                    k,
                ) by {
                    if k == prev {
                    } else {
                        assert(beats(t, rules, prev, k));
                        lemma_beats_trans(t, rules, n - 1, prev, k);
                    }
                }
            } else {
                assert(b == prev);
                lemma_beats_total(t, rules, n - 1, prev);
                assert(beats(t, rules, prev, n - 1));
            }
        } else {
            assert(b == prev);
        }
    }
}

/// Of every non-empty duplicate group, exactly one member — the
/// top-ranked keeper — is not flagged; which member that is depends
/// only on the table, the rule list and the grouping, so a repeated
/// scan of unchanged data flags the same rows.
pub proof fn lemma_unique_keeper(t: TableModel, rules: Seq<RuleModel>, g: GroupingModel, j: int)
    requires
        0 <= j < t.rows.len(),
        in_scope(t, g, j),
    ensures
        exists|k: int| #[trigger] is_candidate(t, g, j, k) && !flagged(t, rules, g, k),
        forall|k1: int, k2: int|
            is_candidate(t, g, j, k1) && !flagged(t, rules, g, k1) && is_candidate(t, g, j, k2)
                && !flagged(t, rules, g, k2) ==> k1 == k2,
{
    let n = t.rows.len() as int;
    assert(is_candidate(t, g, j, j));
    lemma_best_upto(t, rules, g, j, n);
    let b = best_upto(t, rules, g, j, n);
    assert(b >= 0);
    assert(!flagged(t, rules, g, b)) by {
        if flagged(t, rules, g, b) {
            let i = choose|i: int|
                0 <= i < t.rows.len() && i != b && #[trigger] in_scope(t, g, i) && same_group(
                    t,
                    g,
                    i,
                    b,
                ) && beats(t, rules, i, b);
            assert(is_candidate(t, g, j, i)) by {
                assert(same_group(t, g, i, j));
            }
            assert(beats(t, rules, b, i));
            lemma_beats_total(t, rules, i, b);
        }
    }
    assert forall|k1: int, k2: int|
        is_candidate(t, g, j, k1) && !flagged(t, rules, g, k1) && is_candidate(t, g, j, k2)
            && !flagged(t, rules, g, k2) implies k1 == k2 by {
        if k1 != k2 {
            lemma_beats_total(t, rules, k1, k2);
            if beats(t, rules, k1, k2) {
                assert(same_group(t, g, k1, k2));
                assert(flagged(t, rules, g, k2));
            } else {
                assert(same_group(t, g, k2, k1));
                assert(flagged(t, rules, g, k1));
            }
        }
    }
}

/// Three-way outcome of one rule on a pair of rows.
enum RuleCmp {
    Lt,
    Eq,
    Gt,
}

/// Evaluate one rule on rows `i` and `j`.
fn rule_compare(t: &Table, rule: &TieBreakRule, ci: usize, i: usize, j: usize) -> (r: RuleCmp)
    requires
        t.wf(),
        i < t@.rows.len(),
        j < t@.rows.len(),
        ci == rule_col(t@, rule@),
        0 <= rule_col(t@, rule@) < t@.columns.len(),
    ensures
        r is Lt <==> rule_prefers(t@, rule@, i as int, j as int),
        r is Gt <==> rule_prefers(t@, rule@, j as int, i as int),
        r is Eq <==> rule_ties(t@, rule@, i as int, j as int),
{
    proof {
        assert(t@.rows[i as int] == t.rows@[i as int]@);
        assert(t@.rows[j as int] == t.rows@[j as int]@);
        assert(t.rows@[i as int].values.deep_view()[ci as int]
            == t.rows@[i as int].values@[ci as int]@);
        assert(t.rows@[j as int].values.deep_view()[ci as int]
            == t.rows@[j as int].values@[ci as int]@);
        assert(t.rows@[i as int].values@[ci as int]@ == rule_value(t@, rule@, i as int));
        assert(t.rows@[j as int].values@[ci as int]@ == rule_value(t@, rule@, j as int));
        lemma_rule_laws(t@, rule@, i as int, j as int, j as int);
    }
    let vi = &t.rows[i].values[ci];
    let vj = &t.rows[j].values[ci];
    match rule {
        TieBreakRule::Column { descending, .. } => {
            if str_eq(vi.as_str(), vj.as_str()) {
                RuleCmp::Eq
            } else if crate::order::str_lex_lt(vi.as_str(), vj.as_str()) {
                if *descending {
                    RuleCmp::Gt
                } else {
                    RuleCmp::Lt
                }
            } else {
                proof {
                    crate::order::lemma_lex_trichotomy(
                        rule_value(t@, rule@, i as int),
                        rule_value(t@, rule@, j as int),
                    );
                }
                if *descending {
                    RuleCmp::Lt
                } else {
                    RuleCmp::Gt
                }
            }
        },
        TieBreakRule::Prefer { pattern, matching_first, .. } => {
            let mi = str_contains(vi.as_str(), pattern.as_str());
            let mj = str_contains(vj.as_str(), pattern.as_str());
            if mi == mj {
                RuleCmp::Eq
            } else if mi == *matching_first {
                RuleCmp::Lt
            } else {
                RuleCmp::Gt
            }
        },
        TieBreakRule::NonEmptyFirst { .. } => {
            let ei = vi.as_str().is_empty();
            let ej = vj.as_str().is_empty();
            if ei == ej {
                RuleCmp::Eq
            } else if !ei {
                RuleCmp::Lt
            } else {
                RuleCmp::Gt
            }
        },
    }
}

/// Does row `i` outrank row `j` under the rule list?
fn beats_exec(t: &Table, rules: &Vec<TieBreakRule>, cols: &Vec<usize>, i: usize, j: usize) -> (r:
    bool)
    requires
        t.wf(),
        i < t@.rows.len(),
        j < t@.rows.len(),
        cols@.len() == rules@.len(),
        forall|m: int|
            0 <= m < rules@.len() ==> cols@[m] == rule_col(t@, #[trigger] rules@[m]@) && 0
                <= rule_col(t@, rules@[m]@) < t@.columns.len(),
    ensures
        r == beats(t@, rules.deep_view(), i as int, j as int),
{
    proof {
        reveal(beats);
    }
    let ghost rv = rules.deep_view();
    let n = rules.len();
    let mut m: usize = 0;
    while m < n
        invariant
            t.wf(),
            i < t@.rows.len(),
            j < t@.rows.len(),
            rv == rules.deep_view(),
            n == rules@.len(),
            rv.len() == rules@.len(),
            cols@.len() == rules@.len(),
            forall|l: int|
                0 <= l < rules@.len() ==> cols@[l] == rule_col(t@, #[trigger] rules@[l]@) && 0
                    <= rule_col(t@, rules@[l]@) < t@.columns.len(),
            forall|l: int| 0 <= l < rules@.len() ==> #[trigger] rv[l] == rules@[l]@,
            0 <= m <= n,
            ties_upto(t@, rv, i as int, j as int, m as int),
        decreases n - m,
    {
        let cmp = rule_compare(t, &rules[m], cols[m], i, j);
        match cmp {
            RuleCmp::Eq => {
                proof {
                    assert(rule_ties(t@, rv[m as int], i as int, j as int));
                    assert(ties_upto(t@, rv, i as int, j as int, m + 1));
                }
                m = m + 1;
            },
            RuleCmp::Lt => {
                proof {
                    reveal(beats);
                    assert(rule_prefers(t@, rv[m as int], i as int, j as int));
                    assert(rules_prefer(t@, rv, i as int, j as int));
                }
                return true;
            },
            RuleCmp::Gt => {
                proof {
                    reveal(beats);
                    lemma_rule_laws(t@, rv[m as int], i as int, j as int, j as int);
                    assert(!rule_ties(t@, rv[m as int], i as int, j as int));
                    assert(!rule_prefers(t@, rv[m as int], i as int, j as int));
                    lemma_first_divergence(t@, rv, i as int, j as int);
                    let d = first_divergence(t@, rv, i as int, j as int);
                    assert(d == m) by {
                        if d < m {
                            assert(rule_ties(t@, rv[d], i as int, j as int));
                        }
                        if d > m {
                            assert(rule_ties(t@, rv[m as int], i as int, j as int));
                        }
                    }
                    lemma_rules_prefer_iff(t@, rv, i as int, j as int);
                    assert(!rules_prefer(t@, rv, i as int, j as int));
                    assert(!ties_all(t@, rv, i as int, j as int));
                }
                return false;
            },
        }
    }
    proof {
        reveal(beats);
        assert(ties_all(t@, rv, i as int, j as int));
        lemma_rules_prefer_iff(t@, rv, i as int, j as int);
        lemma_first_divergence(t@, rv, i as int, j as int);
        let d = first_divergence(t@, rv, i as int, j as int);
        assert(d == rv.len()) by {
            if d < rv.len() {
                assert(rule_ties(t@, rv[d], i as int, j as int));
            }
        }
        assert(!rules_prefer(t@, rv, i as int, j as int));
    }
    i < j
}

/// The duplicate grouping engine.  Partitions the rows into duplicate
/// groups, ranks each group by the tie-break rules — consulted in
/// list order, row order breaking full ties — and returns the records
/// of every row that is not the keeper of its group, in row order.
/// Refused with a configuration error when the rule list is empty,
/// and with a query error when a rule or the grouping names an
/// unknown column.
pub fn gather_duplicate_filenames(
    t: &Table,
    rules: &Vec<TieBreakRule>,
    grouping: &Grouping,
) -> (r: Result<Vec<FileRecord>, EngineError>)
    requires
        t.wf(),
        schema_ok(t@),
    ensures
        rules@.len() == 0 ==> r == Err::<Vec<FileRecord>, EngineError>(EngineError::Configuration),
        rules@.len() > 0 && !(rules_valid(t@, rules.deep_view()) && grouping_valid(t@, grouping@))
            ==> r == Err::<Vec<FileRecord>, EngineError>(EngineError::Query),
        rules@.len() > 0 && rules_valid(t@, rules.deep_view()) && grouping_valid(t@, grouping@)
            ==> r is Ok && r->Ok_0.deep_view() == flagged_records(
            t@,
            rules.deep_view(),
            grouping@,
        ),
{
    let ghost rv = rules.deep_view();
    if rules.len() == 0 {
        return Err(EngineError::Configuration);
    }
    let ncols = t.columns.len();
    proof {
        assert(ncols == t@.columns.len());
    }
    // resolve every column the rules and the grouping read
    let nrules = rules.len();
    let mut cols: Vec<usize> = Vec::new();
    let mut m: usize = 0;
    while m < nrules
        invariant
            t.wf(),
            ncols == t@.columns.len(),
            rv == rules.deep_view(),
            nrules == rules@.len(),
            rv.len() == rules@.len(),
            0 <= m <= nrules,
            cols@.len() == m,
            forall|l: int| 0 <= l < rules@.len() ==> #[trigger] rv[l] == rules@[l]@,
            forall|l: int|
                0 <= l < m ==> cols@[l] == rule_col(t@, #[trigger] rules@[l]@) && 0 <= rule_col(
                    t@,
                    rules@[l]@,
                ) < t@.columns.len() && has_col(t@.columns, rule_name(rules@[l]@)),
        decreases nrules - m,
    {
        let name: &String = match &rules[m] {
            TieBreakRule::Column { name, .. } => name,
            TieBreakRule::Prefer { name, .. } => name,
            TieBreakRule::NonEmptyFirst { name } => name,
        };
        proof {
            assert(name@ == rule_name(rules@[m as int]@));
        }
        match t.column_index(name.as_str()) {
            Some(c) => {
                proof {
                    lemma_first_col(t@.columns, name@);
                    assert(c == rule_col(t@, rules@[m as int]@));
                    assert(has_col(t@.columns, rule_name(rules@[m as int]@)));
                }
                cols.push(c);
            },
            None => {
                proof {
                    assert(!has_col(t@.columns, rule_name(rv[m as int])));
                    assert(!rules_valid(t@, rv));
                }
                return Err(EngineError::Query);
            },
        }
        m = m + 1;
    }
    let gci: Option<usize> = match &grouping.column {
        Some(name) => {
            match t.column_index(name.as_str()) {
                Some(c) => {
                    proof {
                        lemma_first_col(t@.columns, name@);
                    }
                    Some(c)
                },
                None => {
                    proof {
                        assert(!grouping_valid(t@, grouping@));
                    }
                    return Err(EngineError::Query);
                },
            }
        },
        None => None,
    };
    proof {
        lemma_first_col(t@.columns, "filename"@);
        lemma_first_col(t@.columns, "duration"@);
    }
    let fc = match t.column_index("filename") {
        Some(c) => c,
        None => {
            proof {
                assert(false);
            }
            0
        },
    };
    let dc = match t.column_index("duration") {
        Some(c) => c,
        None => {
            proof {
                assert(false);
            }
            0
        },
    };
    let ghost g = grouping@;
    let n = t.rows.len();
    let mut out: Vec<FileRecord> = Vec::new();
    let mut j: usize = 0;
    while j < n
        invariant
            t.wf(),
            schema_ok(t@),
            rv == rules.deep_view(),
            g == grouping@,
            nrules == rules@.len(),
            nrules > 0,
            rv.len() == rules@.len(),
            cols@.len() == rules@.len(),
            forall|l: int| 0 <= l < rules@.len() ==> #[trigger] rv[l] == rules@[l]@,
            forall|l: int|
                0 <= l < rules@.len() ==> cols@[l] == rule_col(t@, #[trigger] rules@[l]@) && 0
                    <= rule_col(t@, rules@[l]@) < t@.columns.len(),
            n == t@.rows.len(),
            fc == first_col(t@.columns, "filename"@),
            0 <= fc < t@.columns.len(),
            dc == first_col(t@.columns, "duration"@),
            0 <= dc < t@.columns.len(),
            match g.column {
                Some(name) => gci matches Some(c) && c == first_col(t@.columns, name) && 0
                    <= first_col(t@.columns, name) < t@.columns.len(),
                None => gci is None,
            },
            0 <= j <= n,
            out.deep_view() == flagged_records_up_to(t@, rv, g, j as int),
        decreases n - j,
    {
        let scoped_j = row_in_scope(t, grouping, &gci, j);
        let mut is_flagged = false;
        if scoped_j {
            let mut i: usize = 0;
            while i < n && !is_flagged
                invariant
                    t.wf(),
                    schema_ok(t@),
                    rv == rules.deep_view(),
                    g == grouping@,
                    nrules == rules@.len(),
                    rv.len() == rules@.len(),
                    cols@.len() == rules@.len(),
                    forall|l: int| 0 <= l < rules@.len() ==> #[trigger] rv[l] == rules@[l]@,
                    forall|l: int|
                        0 <= l < rules@.len() ==> cols@[l] == rule_col(t@, #[trigger] rules@[l]@)
                            && 0 <= rule_col(t@, rules@[l]@) < t@.columns.len(),
                    n == t@.rows.len(),
                    fc == first_col(t@.columns, "filename"@),
                    0 <= fc < t@.columns.len(),
                    match g.column {
                        Some(name) => gci matches Some(c) && c == first_col(t@.columns, name) && 0
                            <= first_col(t@.columns, name) < t@.columns.len(),
                        None => gci is None,
                    },
                    j < n,
                    in_scope(t@, g, j as int),
                    0 <= i <= n,
                    is_flagged ==> flagged(t@, rv, g, j as int),
                    !is_flagged ==> forall|l: int|
                        0 <= l < i ==> !(l != j && #[trigger] in_scope(t@, g, l) && same_group(
                            t@,
                            g,
                            l,
                            j as int,
                        ) && beats(t@, rv, l, j as int)),
                decreases n - i,
            {
                if i != j {
                    let scoped_i = row_in_scope(t, grouping, &gci, i);
                    if scoped_i {
                        let same = same_group_exec(t, &gci, fc, i, j);
                        if same {
                            if beats_exec(t, rules, &cols, i, j) {
                                is_flagged = true;
                            }
                        }
                    }
                }
                i = i + 1;
            }
            proof {
                if !is_flagged {
                    assert(!flagged(t@, rv, g, j as int));
                }
            }
        } else {
            proof {
                assert(!flagged(t@, rv, g, j as int));
            }
        }
        let ghost old_out = out.deep_view();
        if is_flagged {
            let row = &t.rows[j];
            proof {
                assert(t@.rows[j as int] == t.rows@[j as int]@);
                assert(row.values.deep_view()[fc as int] == row.values@[fc as int]@);
                assert(row.values.deep_view()[dc as int] == row.values@[dc as int]@);
            }
            let rec = FileRecord {
                id: row.id,
                filename: row.values[fc].clone(),
                duration: row.values[dc].clone(),
            };
            proof {
                assert(rec@ == record_of_row(t@, j as int));
            }
            out.push(rec);
            proof {
                assert(out.deep_view() =~= old_out + seq![record_of_row(t@, j as int)]);
            }
        }
        proof {
            assert(out.deep_view() =~= flagged_records_up_to(t@, rv, g, j + 1));
        }
        j = j + 1;
    }
    proof {
        assert(out.deep_view() =~= flagged_records(t@, rv, g));
    }
    Ok(out)
}

/// Does row `i` take part in partitioning?
fn row_in_scope(t: &Table, grouping: &Grouping, gci: &Option<usize>, i: usize) -> (r: bool)
    requires
        t.wf(),
        i < t@.rows.len(),
        match grouping@.column {
            Some(name) => gci matches Some(c) && c == first_col(t@.columns, name) && 0 <= first_col(
                t@.columns,
                name,
            ) < t@.columns.len(),
            None => gci is None,
        },
    ensures
        r == in_scope(t@, grouping@, i as int),
{
    match gci {
        None => true,
        Some(c) => {
            if grouping.include_null {
                true
            } else {
                let row = &t.rows[i];
                proof {
                    assert(t@.rows[i as int] == t.rows@[i as int]@);
                    assert(row.values.deep_view()[*c as int] == row.values@[*c as int]@);
                }
                !row.values[*c].as_str().is_empty()
            }
        },
    }
}

/// Are rows `i` and `j` in the same duplicate group?
fn same_group_exec(t: &Table, gci: &Option<usize>, fc: usize, i: usize, j: usize) -> (r: bool)
    requires
        t.wf(),
        i < t@.rows.len(),
        j < t@.rows.len(),
        fc == first_col(t@.columns, "filename"@),
        0 <= fc < t@.columns.len(),
        match gci {
            Some(c) => 0 <= *c < t@.columns.len(),
            None => true,
        },
    ensures
        match gci {
            Some(c) => r == (row_filename(t@, i as int) == row_filename(t@, j as int)
                && t@.rows[i as int].values[*c as int] == t@.rows[j as int].values[*c as int]),
            None => r == (row_filename(t@, i as int) == row_filename(t@, j as int)),
        },
{
    let ri = &t.rows[i];
    let rj = &t.rows[j];
    proof {
        assert(t@.rows[i as int] == t.rows@[i as int]@);
        assert(t@.rows[j as int] == t.rows@[j as int]@);
        assert(ri.values.deep_view()[fc as int] == ri.values@[fc as int]@);
        assert(rj.values.deep_view()[fc as int] == rj.values@[fc as int]@);
    }
    if !str_eq(ri.values[fc].as_str(), rj.values[fc].as_str()) {
        return false;
    }
    match gci {
        None => true,
        Some(c) => {
            proof {
                assert(ri.values.deep_view()[*c as int] == ri.values@[*c as int]@);
                assert(rj.values.deep_view()[*c as int] == rj.values@[*c as int]@);
            }
            str_eq(ri.values[*c].as_str(), rj.values[*c].as_str())
        },
    }
}

} // verus!
