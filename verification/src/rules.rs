//! Tie-break rules: the ordering criteria that pick the keeper among
//! duplicate candidates.  A rule list induces, for a fixed table, a
//! strict total order on row indices — rules are consulted in list
//! order, and a final row-order tie-break makes the order total — and
//! the laws of that order are proved here.

use vstd::prelude::*;
use crate::order::lemma_lex_transitive;
use crate::order::lemma_lex_trichotomy;
use crate::order::lex_lt;
use crate::record::first_col;
use crate::record::TableModel;
use crate::text::contains_seq;

verus! {

/// Mathematical model of a [`TieBreakRule`].
pub ghost enum RuleModel {
    Column { name: Seq<char>, descending: bool },
    Prefer { name: Seq<char>, pattern: Seq<char>, matching_first: bool },
    NonEmptyFirst { name: Seq<char> },
}

/// One ordering criterion.
#[derive(Clone, Debug)]
pub enum TieBreakRule {
    /// Order by the text of a column, ascending or descending.
    Column { name: String, descending: bool },
    /// Prefer rows whose column text contains (`matching_first`) or
    /// does not contain a pattern.
    Prefer { name: String, pattern: String, matching_first: bool },
    /// Prefer rows whose column text is non-empty.
    NonEmptyFirst { name: String },
}

impl View for TieBreakRule {
    type V = RuleModel;

    open spec fn view(&self) -> RuleModel {
        match self {
            TieBreakRule::Column { name, descending } => RuleModel::Column {
                name: name@,
                descending: *descending,
            },
            TieBreakRule::Prefer { name, pattern, matching_first } => RuleModel::Prefer {
                name: name@,
                pattern: pattern@,
                matching_first: *matching_first,
            },
            TieBreakRule::NonEmptyFirst { name } => RuleModel::NonEmptyFirst { name: name@ },
        }
    }
}

impl DeepView for TieBreakRule {
    type V = RuleModel;

    open spec fn deep_view(&self) -> RuleModel {
        self.view()
    }
}

/// The column a rule reads.
pub open spec fn rule_name(r: RuleModel) -> Seq<char> {
    match r {
        RuleModel::Column { name, .. } => name,
        RuleModel::Prefer { name, .. } => name,
        RuleModel::NonEmptyFirst { name } => name,
    }
}

/// Index of the column a rule reads.
pub open spec fn rule_col(t: TableModel, r: RuleModel) -> int {
    first_col(t.columns, rule_name(r))
}

/// The text the rule reads from row `i`.
pub open spec fn rule_value(t: TableModel, r: RuleModel, i: int) -> Seq<char> {
    t.rows[i].values[rule_col(t, r)]
}

/// The rule strictly prefers row `i` over row `j`.
pub open spec fn rule_prefers(t: TableModel, r: RuleModel, i: int, j: int) -> bool {
    match r {
        RuleModel::Column { descending, .. } => if descending {
            lex_lt(rule_value(t, r, j), rule_value(t, r, i))
        } else {
            lex_lt(rule_value(t, r, i), rule_value(t, r, j))
        },
        RuleModel::Prefer { pattern, matching_first, .. } => {
            let mi = contains_seq(rule_value(t, r, i), pattern);
            let mj = contains_seq(rule_value(t, r, j), pattern);
            mi != mj && mi == matching_first
        },
        RuleModel::NonEmptyFirst { .. } => rule_value(t, r, i).len() > 0 && rule_value(
            t,
            r,
            j,
        ).len() == 0,
    }
}

/// The rule does not separate rows `i` and `j`.
pub open spec fn rule_ties(t: TableModel, r: RuleModel, i: int, j: int) -> bool {
    match r {
        RuleModel::Column { .. } => rule_value(t, r, i) == rule_value(t, r, j),
        RuleModel::Prefer { pattern, .. } => contains_seq(rule_value(t, r, i), pattern)
            == contains_seq(rule_value(t, r, j), pattern),
        RuleModel::NonEmptyFirst { .. } => (rule_value(t, r, i).len() > 0) == (rule_value(
            t,
            r,
            j,
        ).len() > 0),
    }
}

/// One rule behaves as a three-way comparison: for any rows, exactly
/// one of "prefers i", "prefers j", "ties" holds; ties are symmetric
/// and transitive; preference chains and mixes with ties compose.
pub proof fn lemma_rule_laws(t: TableModel, r: RuleModel, i: int, j: int, k: int)
    ensures
        rule_ties(t, r, i, i),
        rule_ties(t, r, i, j) == rule_ties(t, r, j, i),
        rule_prefers(t, r, i, j) || rule_prefers(t, r, j, i) || rule_ties(t, r, i, j),
        rule_prefers(t, r, i, j) ==> !rule_prefers(t, r, j, i) && !rule_ties(t, r, i, j),
        rule_ties(t, r, i, j) ==> !rule_prefers(t, r, i, j) && !rule_prefers(t, r, j, i),
        rule_ties(t, r, i, j) && rule_ties(t, r, j, k) ==> rule_ties(t, r, i, k),
        rule_prefers(t, r, i, j) && rule_prefers(t, r, j, k) ==> rule_prefers(t, r, i, k),
        rule_prefers(t, r, i, j) && rule_ties(t, r, j, k) ==> rule_prefers(t, r, i, k),
        rule_ties(t, r, i, j) && rule_prefers(t, r, j, k) ==> rule_prefers(t, r, i, k),
{
    match r {
        RuleModel::Column { descending, .. } => {
            let vi = rule_value(t, r, i);
            let vj = rule_value(t, r, j);
            let vk = rule_value(t, r, k);
            lemma_lex_trichotomy(vi, vj);
            lemma_lex_trichotomy(vj, vk);
            lemma_lex_trichotomy(vi, vk);
            if lex_lt(vi, vj) && lex_lt(vj, vk) {
                lemma_lex_transitive(vi, vj, vk);
            }
            if lex_lt(vk, vj) && lex_lt(vj, vi) {
                lemma_lex_transitive(vk, vj, vi);
            }
        },
        RuleModel::Prefer { .. } => {},
        RuleModel::NonEmptyFirst { .. } => {},
    }
}

/// The first rule in the list that separates rows `i` and `j`; the
/// length of the list when every rule ties.
pub open spec fn first_divergence(t: TableModel, rules: Seq<RuleModel>, i: int, j: int) -> int
    decreases rules.len(),
{
    if rules.len() == 0 {
        0
    } else if !rule_ties(t, rules[0], i, j) {
        0
    } else {
        1 + first_divergence(t, rules.skip(1), i, j)
    }
}

/// Every rule before index `k` ties rows `i` and `j`.
pub open spec fn ties_upto(t: TableModel, rules: Seq<RuleModel>, i: int, j: int, k: int) -> bool {
    forall|m: int| 0 <= m < k ==> rule_ties(t, #[trigger] rules[m], i, j)
}

/// Every rule in the list ties rows `i` and `j`.
pub open spec fn ties_all(t: TableModel, rules: Seq<RuleModel>, i: int, j: int) -> bool {
    ties_upto(t, rules, i, j, rules.len() as int)
}

/// Some rule prefers row `i` over row `j` while every earlier rule
/// ties them.
pub open spec fn rules_prefer(t: TableModel, rules: Seq<RuleModel>, i: int, j: int) -> bool {
    exists|k: int|
        0 <= k < rules.len() && ties_upto(t, rules, i, j, k) && rule_prefers(
            t,
            #[trigger] rules[k],
            i,
            j,
        )
}

/// Row `i` outranks row `j`: some rule prefers it first, or every
/// rule ties and `i` comes earlier in row order.  For distinct rows
/// this is a strict total order.
#[verifier::opaque]
pub open spec fn beats(t: TableModel, rules: Seq<RuleModel>, i: int, j: int) -> bool {
    rules_prefer(t, rules, i, j) || (ties_all(t, rules, i, j) && i < j)
}

/// What `first_divergence` returns: the least index whose rule does
/// not tie, or the list length when every rule ties.
pub proof fn lemma_first_divergence(t: TableModel, rules: Seq<RuleModel>, i: int, j: int)
    ensures
        0 <= first_divergence(t, rules, i, j) <= rules.len(),
        ties_upto(t, rules, i, j, first_divergence(t, rules, i, j)),
        first_divergence(t, rules, i, j) < rules.len() ==> !rule_ties(
            t,
            rules[first_divergence(t, rules, i, j)],
            i,
            j,
        ),
    decreases rules.len(),
{
    if rules.len() == 0 {
    } else if !rule_ties(t, rules[0], i, j) {
    } else {
        lemma_first_divergence(t, rules.skip(1), i, j);
        let d = first_divergence(t, rules, i, j);
        let d1 = first_divergence(t, rules.skip(1), i, j);
        assert(d == 1 + d1);
        assert(forall|m: int| 1 <= m < rules.len() ==> #[trigger] rules[m] == rules.skip(1)[m - 1]);
        if d < rules.len() {
            assert(rules[d] == rules.skip(1)[d1]);
        }
    }
}

/// `rules_prefer` holds exactly when the first separating rule
/// prefers `i`; its witness index is unique.
pub proof fn lemma_rules_prefer_iff(t: TableModel, rules: Seq<RuleModel>, i: int, j: int)
    ensures
        rules_prefer(t, rules, i, j) <==> {
            let d = first_divergence(t, rules, i, j);
            d < rules.len() && rule_prefers(t, rules[d], i, j)
        },
{
    let d = first_divergence(t, rules, i, j);
    lemma_first_divergence(t, rules, i, j);
    if d < rules.len() && rule_prefers(t, rules[d], i, j) {
        assert(rules_prefer(t, rules, i, j));
    }
    if rules_prefer(t, rules, i, j) {
        let k = choose|k: int|
            0 <= k < rules.len() && ties_upto(t, rules, i, j, k) && rule_prefers(
                t,
                #[trigger] rules[k],
                i,
                j,
            );
        lemma_rule_laws(t, rules[k], i, j, j);
        assert(!rule_ties(t, rules[k], i, j));
        assert(k == d) by {
            if k < d {
                assert(rule_ties(t, rules[k], i, j));
            }
            if k > d {
                assert(rule_ties(t, rules[d], i, j));
            }
        }
    }
}

/// The first separating rule does not depend on the direction of the
/// comparison.
pub proof fn lemma_first_divergence_sym(t: TableModel, rules: Seq<RuleModel>, i: int, j: int)
    ensures
        first_divergence(t, rules, i, j) == first_divergence(t, rules, j, i),
    decreases rules.len(),
{
    if rules.len() > 0 {
        lemma_rule_laws(t, rules[0], i, j, j);
        if rule_ties(t, rules[0], i, j) {
            lemma_first_divergence_sym(t, rules.skip(1), i, j);
        }
    }
}

/// For distinct rows, exactly one direction of `beats` holds.
pub proof fn lemma_beats_total(t: TableModel, rules: Seq<RuleModel>, i: int, j: int)
    requires
        i != j,
    ensures
        beats(t, rules, i, j) || beats(t, rules, j, i),
        !(beats(t, rules, i, j) && beats(t, rules, j, i)),
{
    reveal(beats);
    lemma_rules_prefer_iff(t, rules, i, j);
    lemma_rules_prefer_iff(t, rules, j, i);
    lemma_first_divergence_sym(t, rules, i, j);
    lemma_first_divergence(t, rules, i, j);
    let d = first_divergence(t, rules, i, j);
    if d < rules.len() {
        lemma_rule_laws(t, rules[d], i, j, j);
        assert(rule_prefers(t, rules[d], i, j) || rule_prefers(t, rules[d], j, i));
        assert(!(ties_all(t, rules, i, j)));
        assert(!(ties_all(t, rules, j, i))) by {
            lemma_rule_laws(t, rules[d], j, i, i);
        }
    } else {
        assert(ties_all(t, rules, i, j));
        assert(ties_all(t, rules, j, i)) by {
            assert forall|m: int| 0 <= m < rules.len() implies rule_ties(
                t,
                #[trigger] rules[m],
                j,
                i,
            ) by {
                lemma_rule_laws(t, rules[m], i, j, j);
            }
        }
        assert(!rules_prefer(t, rules, i, j));
        assert(!rules_prefer(t, rules, j, i));
    }
}

/// `beats` is transitive.
pub proof fn lemma_beats_trans(t: TableModel, rules: Seq<RuleModel>, i: int, j: int, k: int)
    requires
        beats(t, rules, i, j),
        beats(t, rules, j, k),
    ensures
        beats(t, rules, i, k),
{
    reveal(beats);
    lemma_rules_prefer_iff(t, rules, i, j);
    lemma_rules_prefer_iff(t, rules, j, k);
    lemma_rules_prefer_iff(t, rules, i, k);
    lemma_first_divergence(t, rules, i, j);
    lemma_first_divergence(t, rules, j, k);
    lemma_first_divergence(t, rules, i, k);
    let dij = first_divergence(t, rules, i, j);
    let djk = first_divergence(t, rules, j, k);
    let len = rules.len() as int;
    let m = if dij <= djk {
        dij
    } else {
        djk
    };
    assert forall|l: int| 0 <= l < m implies rule_ties(t, #[trigger] rules[l], i, k) by {
        lemma_rule_laws(t, rules[l], i, j, k);
    }
    if dij < len || djk < len {
        // at least one side separates; the earlier separation decides
        assert(m < len);
        assert(rule_prefers(t, rules[m], i, k)) by {
            lemma_rule_laws(t, rules[m], i, j, k);
            if dij < djk {
                assert(rule_prefers(t, rules[m], i, j));
                assert(rule_ties(t, rules[m], j, k));
            } else if djk < dij {
                assert(rule_ties(t, rules[m], i, j));
                assert(rule_prefers(t, rules[m], j, k));
            } else {
                assert(rule_prefers(t, rules[m], i, j));
                assert(rule_prefers(t, rules[m], j, k));
            }
        }
        assert(ties_upto(t, rules, i, k, m));
        assert(rules_prefer(t, rules, i, k));
    } else {
        assert(ties_all(t, rules, i, k)) by {
            assert forall|l: int| 0 <= l < len implies rule_ties(t, #[trigger] rules[l], i, k) by {
                lemma_rule_laws(t, rules[l], i, j, k);
            }
        }
        assert(i < j < k);
    }
}

} // verus!
