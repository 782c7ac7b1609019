//! The duplicate aggregator: run whichever detectors are enabled —
//! the grouping engine, the tag matcher, the comparison matcher —
//! merge what they flag into one removal set keyed by record id, and
//! report status text.  A failed detector contributes nothing and is
//! reported in its own status; the others still complete.

use vstd::prelude::*;
use crate::compare::gather_compare_overlaps;
use crate::compare::overlap_records;
use crate::config::Config;
use crate::error::EngineError;
use crate::grouping::flagged_records;
use crate::grouping::gather_duplicate_filenames;
use crate::grouping::grouping_valid;
use crate::grouping::rules_valid;
use crate::grouping::Grouping;
use crate::grouping::GroupingModel;
use crate::record::schema_ok;
use crate::record::Table;
use crate::removal::merged_models;
use crate::removal::RemovalSet;
use crate::rules::TieBreakRule;

verus! {

/// The decimal digit characters of `n`, most significant first.
pub open spec fn dec_digits(n: nat) -> Seq<char>
    decreases n,
{
    if n < 10 {
        seq![digit_char(n)]
    } else {
        dec_digits(n / 10) + seq![digit_char(n % 10)]
    }
}

/// The character of one decimal digit.
pub open spec fn digit_char(d: nat) -> char {
    if d == 0 {
        '0'
    } else if d == 1 {
        '1'
    } else if d == 2 {
        '2'
    } else if d == 3 {
        '3'
    } else if d == 4 {
        '4'
    } else if d == 5 {
        '5'
    } else if d == 6 {
        '6'
    } else if d == 7 {
        '7'
    } else if d == 8 {
        '8'
    } else {
        '9'
    }
}

/// Append the decimal digits of `n` to `out`.
fn push_digits(n: usize, out: &mut String)
    ensures
        final(out)@ == old(out)@ + dec_digits(n as nat),
    decreases n,
{
    if n >= 10 {
        push_digits(n / 10, out);
    }
    let d = n % 10;
    let ds: &str = if d == 0 {
        "0"
    } else if d == 1 {
        "1"
    } else if d == 2 {
        "2"
    } else if d == 3 {
        "3"
    } else if d == 4 {
        "4"
    } else if d == 5 {
        "5"
    } else if d == 6 {
        "6"
    } else if d == 7 {
        "7"
    } else if d == 8 {
        "8"
    } else {
        "9"
    };
    proof {
        reveal_strlit("0");
        reveal_strlit("1");
        reveal_strlit("2");
        reveal_strlit("3");
        reveal_strlit("4");
        reveal_strlit("5");
        reveal_strlit("6");
        reveal_strlit("7");
        reveal_strlit("8");
        reveal_strlit("9");
        assert(ds@ =~= seq![digit_char(d as nat)]);
        if n >= 10 {
            assert(dec_digits(n as nat) == dec_digits(n as nat / 10) + seq![
                digit_char(n as nat % 10),
            ]);
            assert(n as nat / 10 == (n / 10) as nat);
            assert(n as nat % 10 == d as nat);
        }
    }
    out.append(ds);
    proof {
        if n < 10 {
            assert(final(out)@ =~= old(out)@ + dec_digits(n as nat));
        } else {
            assert(final(out)@ =~= old(out)@ + dec_digits(n as nat));
        }
    }
}

/// The decimal rendering of `n`.
pub fn usize_to_string(n: usize) -> (s: String)
    ensures
        s@ == dec_digits(n as nat),
{
    let mut s = String::new();
    push_digits(n, &mut s);
    proof {
        assert(Seq::<char>::empty() + dec_digits(n as nat) =~= dec_digits(n as nat));
    }
    s
}

/// The summary line of a finished scan.
pub open spec fn scan_status_text(n: nat) -> Seq<char> {
    if n == 0 {
        "No records marked for removal."@
    } else {
        "Marked "@ + dec_digits(n) + " total records for removal."@
    }
}

/// Build the summary line for `n` flagged records.
pub fn scan_status(n: usize) -> (s: String)
    ensures
        s@ == scan_status_text(n as nat),
{
    if n == 0 {
        return String::from_str("No records marked for removal.");
    }
    let mut s = String::from_str("Marked ");
    push_digits(n, &mut s);
    s.append(" total records for removal.");
    proof {
        assert(s@ =~= scan_status_text(n as nat));
    }
    s
}

/// The tag detector's status line.
pub open spec fn tag_status_text(n: nat) -> Seq<char> {
    "Found "@ + dec_digits(n) + " records with matching tags"@
}

/// Build the tag detector's status line for `n` flagged records.
pub fn tag_status(n: usize) -> (s: String)
    ensures
        s@ == tag_status_text(n as nat),
{
    let mut s = String::from_str("Found ");
    push_digits(n, &mut s);
    s.append(" records with matching tags");
    proof {
        assert(s@ =~= tag_status_text(n as nat));
    }
    s
}

/// The grouping configuration a scan derives from the group
/// detector's state: the chosen column when grouped search is on,
/// nothing otherwise.
pub open spec fn scan_grouping(group: Config, include_null: bool) -> GroupingModel {
    GroupingModel {
        column: if group.search {
            match group.option {
                Some(s) => Some(s@),
                None => None,
            }
        } else {
            None
        },
        include_null,
    }
}

/// Run one full duplicate scan: dispatch the enabled detectors over
/// the primary table, merge everything they flag into `main.records`
/// — a set keyed by record id, so a record two detectors flag counts
/// once — and leave a summary in `main.status`.  A detector whose
/// input is invalid (empty rule list, unknown column, empty tag list,
/// missing comparison database) contributes nothing, reports so in
/// its own status, and does not stop the others.
pub fn gather_duplicates(
    t: &Table,
    compare_table: Option<&Table>,
    rules: &Vec<TieBreakRule>,
    include_null: bool,
    main: &mut Config,
    group: &mut Config,
    tags: &mut Config,
    compare_db: &mut Config,
) -> (flagged_total: usize)
    requires
        t.wf(),
        schema_ok(t@),
        match compare_table {
            Some(other) => other.wf() && schema_ok(other@),
            None => true,
        },
    ensures
        ({
            let gm = scan_grouping(*old(group), include_null);
            let dup_part = if old(main).search && rules@.len() > 0 && rules_valid(
                t@,
                rules.deep_view(),
            ) && grouping_valid(t@, gm) {
                flagged_records(t@, rules.deep_view(), gm)
            } else {
                Seq::empty()
            };
            let tag_part = if old(tags).search && old(tags).list@.len() > 0 {
                crate::tags::tag_records(t@, old(tags).list.deep_view())
            } else {
                Seq::empty()
            };
            let cmp_part = if old(compare_db).search && compare_table is Some {
                overlap_records(t@, compare_table->Some_0@, false)
            } else {
                Seq::empty()
            };
            let after_dup = merged_models(Seq::empty(), dup_part, dup_part.len() as int);
            let after_tag = merged_models(after_dup, tag_part, tag_part.len() as int);
            let after_cmp = merged_models(after_tag, cmp_part, cmp_part.len() as int);
            final(main).records.models() == after_cmp && final(tags).records.models()
                == merged_models(Seq::empty(), tag_part, tag_part.len() as int)
        }),
        final(main).records.wf(),
        flagged_total == final(main).records.models().len(),
        final(main).status@ == scan_status_text(final(main).records.models().len() as nat),
        final(main).search == old(main).search,
        final(main).option == old(main).option,
        final(main).list == old(main).list,
        !final(main).working,
        final(group).search == old(group).search,
        final(group).option == old(group).option,
        !final(group).working,
        final(tags).search == old(tags).search,
        final(tags).list == old(tags).list,
        !final(tags).working,
        final(compare_db).search == old(compare_db).search,
        !final(compare_db).working,
{
    let ghost gm = scan_grouping(*group, include_null);
    // a scan owns the removal set for its duration: it starts empty
    main.records = RemovalSet::new();
    tags.records = RemovalSet::new();
    compare_db.records = RemovalSet::new();
    // duplicate grouping search
    if main.search {
        main.working = true;
        let grouping = Grouping {
            column: if group.search {
                match &group.option {
                    Some(s) => Some(s.clone()),
                    None => None,
                }
            } else {
                None
            },
            include_null,
        };
        proof {
            assert(grouping@ == gm);
        }
        match gather_duplicate_filenames(t, rules, &grouping) {
            Ok(found) => {
                let part = RemovalSet { items: found };
                main.records.merge_from(&part);
                group.status = String::from_str("Duplicate filename search complete");
            },
            Err(EngineError::Configuration) => {
                group.status = String::from_str("No tie-break rules configured");
                proof {
                    assert(rules@.len() == 0);
                }
            },
            Err(_) => {
                group.status = String::from_str("Unknown column in duplicate search rules");
            },
        }
        main.working = false;
    }
    // tag search
    if tags.search {
        tags.working = true;
        if tags.list.len() == 0 {
            tags.status = String::from_str("No tags to search for");
        } else {
            let found = crate::tags::gather_tag_matches(t, &tags.list);
            let part = RemovalSet { items: found };
            tags.records.merge_from(&part);
            let tag_count = tags.records.len();
            tags.status = tag_status(tag_count);
            main.records.merge_from(&part);
        }
        tags.working = false;
    }
    // comparison search
    if compare_db.search {
        compare_db.working = true;
        match compare_table {
            Some(other) => {
                let found = gather_compare_overlaps(t, other, false);
                let part = RemovalSet { items: found };
                main.records.merge_from(&part);
                compare_db.status = String::from_str("Comparison database search complete");
            },
            None => {
                compare_db.status = String::from_str("Comparison database unavailable");
            },
        }
        compare_db.working = false;
    }
    group.working = false;
    tags.working = false;
    compare_db.working = false;
    let n = main.records.len();
    main.status = scan_status(n);
    main.working = false;
    n
}

} // verus!
