//! Case-sensitive substring search and substring replacement over
//! character sequences, with the executable counterparts used by the
//! engines.

use vstd::prelude::*;

verus! {

/// The needle `n` occurs in `h` starting at position `i`.
pub open spec fn occurs_at(h: Seq<char>, n: Seq<char>, i: int) -> bool {
    0 <= i && i + n.len() <= h.len() && h.subrange(i, i + n.len() as int) == n
}

/// The needle `n` occurs somewhere in `h` (case-sensitive).
pub open spec fn contains_seq(h: Seq<char>, n: Seq<char>) -> bool {
    exists|i: int| occurs_at(h, n, i)
}

/// Whether `h` starts with `n`.
pub open spec fn starts_with_seq(h: Seq<char>, n: Seq<char>) -> bool {
    n.len() <= h.len() && h.subrange(0, n.len() as int) == n
}

/// Executable test: does `h` contain `n` at position `i`?
fn occurs_at_exec(h: &str, n: &str, i: usize) -> (r: bool)
    requires
        i + n@.len() <= h@.len(),
    ensures
        r == occurs_at(h@, n@, i as int),
{
    let h_len = h.unicode_len();
    let n_len = n.unicode_len();
    let mut j: usize = 0;
    while j < n_len
        invariant
            i + n@.len() <= h@.len(),
            h_len == h@.len(),
            n_len == n@.len(),
            0 <= j <= n_len,
            forall|k: int| 0 <= k < j ==> h@[i + k] == n@[k],
        decreases n_len - j,
    {
        if h.get_char(i + j) != n.get_char(j) {
            assert(h@.subrange(i as int, i + n@.len()) != n@) by {
                assert(h@.subrange(i as int, i + n@.len())[j as int] != n@[j as int]);
            }
            return false;
        }
        j = j + 1;
    }
    assert(h@.subrange(i as int, i + n@.len()) =~= n@);
    true
}

/// Executable case-sensitive substring test.
pub fn str_contains(h: &str, n: &str) -> (r: bool)
    ensures
        r == contains_seq(h@, n@),
{
    let h_len = h.unicode_len();
    let n_len = n.unicode_len();
    if n_len > h_len {
        assert(!contains_seq(h@, n@)) by {
            assert(forall|i: int| !occurs_at(h@, n@, i));
        }
        return false;
    }
    if n_len == 0 {
        assert(occurs_at(h@, n@, 0)) by {
            assert(h@.subrange(0, 0) =~= n@);
        }
        return true;
    }
    let mut i: usize = 0;
    let last = h_len - n_len;
    while i <= last
        invariant
            h_len == h@.len(),
            n_len == n@.len(),
            0 < n_len <= h_len,
            last == h_len - n_len,
            0 <= i <= last + 1,
            forall|k: int| 0 <= k < i ==> !occurs_at(h@, n@, k),
        decreases last + 1 - i,
    {
        if occurs_at_exec(h, n, i) {
            assert(contains_seq(h@, n@));
            return true;
        }
        i = i + 1;
    }
    assert(forall|k: int| !occurs_at(h@, n@, k));
    false
}

/// Whether `h` ends with `n`.
pub open spec fn ends_with_seq(h: Seq<char>, n: Seq<char>) -> bool {
    n.len() <= h.len() && h.subrange(h.len() - n.len(), h.len() as int) == n
}

/// Executable suffix test.
pub fn str_ends_with(h: &str, n: &str) -> (r: bool)
    ensures
        r == ends_with_seq(h@, n@),
{
    let h_len = h.unicode_len();
    let n_len = n.unicode_len();
    if n_len > h_len {
        return false;
    }
    let r = occurs_at_exec(h, n, h_len - n_len);
    assert(occurs_at(h@, n@, h@.len() - n@.len()) == ends_with_seq(h@, n@));
    r
}

/// The result of replacing, left to right, every occurrence of `f` in `h`
/// by `r`.  The scan resumes after each substituted occurrence, so text
/// introduced by `r` is never itself rescanned; an empty `f` leaves `h`
/// unchanged.
pub open spec fn replace_all(h: Seq<char>, f: Seq<char>, r: Seq<char>) -> Seq<char>
    decreases h.len(),
{
    if f.len() == 0 || h.len() < f.len() {
        h
    } else if starts_with_seq(h, f) {
        r + replace_all(h.skip(f.len() as int), f, r)
    } else {
        seq![h[0]] + replace_all(h.skip(1), f, r)
    }
}

/// Character `c` occurs in `s`.
pub open spec fn char_in(c: char, s: Seq<char>) -> bool {
    exists|i: int| 0 <= i < s.len() && s[i] == c
}

/// No character of `f` occurs in `r`.
pub open spec fn chars_disjoint(f: Seq<char>, r: Seq<char>) -> bool {
    forall|i: int| 0 <= i < f.len() ==> !char_in(#[trigger] f[i], r)
}

/// If the replacement output starts with a suffix of `f`, the input
/// started with that same suffix: a non-empty replacement whose
/// characters are disjoint from `f` cannot take part in such a prefix.
proof fn lemma_replace_prefix_match(h: Seq<char>, f: Seq<char>, r: Seq<char>, j: int)
    requires
        f.len() > 0,
        r.len() > 0,
        chars_disjoint(f, r),
        0 <= j < f.len(),
        starts_with_seq(replace_all(h, f, r), f.subrange(j, f.len() as int)),
    ensures
        starts_with_seq(h, f.subrange(j, f.len() as int)),
    decreases h.len(),
{
    let out = replace_all(h, f, r);
    let fj = f.subrange(j, f.len() as int);
    assert(fj.len() == f.len() - j);
    assert(fj[0] == f[j]);
    if h.len() < f.len() {
        assert(out == h);
    } else if starts_with_seq(h, f) {
        assert(out == r + replace_all(h.skip(f.len() as int), f, r));
        assert(out.subrange(0, fj.len() as int)[0] == fj[0]);
        assert(out[0] == r[0]);
        assert(char_in(f[j], r));
        assert(false);
    } else {
        let rest = replace_all(h.skip(1), f, r);
        assert(out == seq![h[0]] + rest);
        assert(out.subrange(0, fj.len() as int)[0] == fj[0]);
        assert(h[0] == fj[0]);
        if j + 1 == f.len() {
            assert(h.subrange(0, 1) =~= fj);
        } else {
            let fj1 = f.subrange(j + 1, f.len() as int);
            assert(starts_with_seq(rest, fj1)) by {
                assert(rest.subrange(0, fj1.len() as int) =~= fj1) by {
                    assert(forall|k: int|
                        0 <= k < fj1.len() ==> rest.subrange(0, fj1.len() as int)[k]
                            == #[trigger] fj1[k]) by {
                        assert(forall|k: int| 0 <= k < fj1.len() ==> #[trigger] rest[k] == out[k
                            + 1]);
                        assert(forall|k: int|
                            0 <= k < fj1.len() ==> #[trigger] out[k + 1] == out.subrange(
                                0,
                                fj.len() as int,
                            )[k + 1]);
                        assert(forall|k: int| 0 <= k < fj1.len() ==> fj[k + 1] == #[trigger] fj1[k]);
                    }
                }
            }
            lemma_replace_prefix_match(h.skip(1), f, r, j + 1);
            assert(h.subrange(0, fj.len() as int) =~= fj) by {
                assert(forall|k: int|
                    1 <= k < fj.len() ==> #[trigger] h[k] == h.skip(1).subrange(0, fj1.len() as int)[
                        k - 1
                    ]);
                assert(h.skip(1).subrange(0, fj1.len() as int) == fj1);
                assert(forall|k: int| 1 <= k < fj.len() ==> #[trigger] fj[k] == fj1[k - 1]);
            }
        }
    }
}

/// After replacing every occurrence of `f` by a non-empty `r` none of
/// whose characters occurs in `f`, the result contains no occurrence
/// of `f` at all.
pub proof fn lemma_replace_clears(h: Seq<char>, f: Seq<char>, r: Seq<char>)
    requires
        f.len() > 0,
        r.len() > 0,
        chars_disjoint(f, r),
    ensures
        !contains_seq(replace_all(h, f, r), f),
    decreases h.len(),
{
    let out = replace_all(h, f, r);
    if h.len() < f.len() {
        assert(forall|i: int| !occurs_at(out, f, i));
    } else if starts_with_seq(h, f) {
        let rest = replace_all(h.skip(f.len() as int), f, r);
        lemma_replace_clears(h.skip(f.len() as int), f, r);
        assert(out == r + rest);
        assert(forall|i: int| !occurs_at(out, f, i)) by {
            assert forall|i: int| occurs_at(out, f, i) implies false by {
                if i < r.len() {
                    assert(out.subrange(i, i + f.len())[0] == f[0]);
                    assert(out[i] == r[i]);
                    assert(char_in(f[0], r));
                } else {
                    assert(occurs_at(rest, f, i - r.len())) by {
                        assert(rest.subrange(i - r.len(), i - r.len() + f.len()) =~= out.subrange(
                            i,
                            i + f.len(),
                        ));
                    }
                }
            }
        }
    } else {
        let rest = replace_all(h.skip(1), f, r);
        lemma_replace_clears(h.skip(1), f, r);
        assert(out == seq![h[0]] + rest);
        assert(forall|i: int| !occurs_at(out, f, i)) by {
            assert forall|i: int| occurs_at(out, f, i) implies false by {
                if i == 0 {
                    assert(starts_with_seq(out, f.subrange(0, f.len() as int))) by {
                        assert(f.subrange(0, f.len() as int) =~= f);
                    }
                    lemma_replace_prefix_match(h, f, r, 0);
                    assert(h.subrange(0, f.len() as int) == f.subrange(0, f.len() as int));
                    assert(f.subrange(0, f.len() as int) =~= f);
                    assert(starts_with_seq(h, f));
                } else {
                    assert(occurs_at(rest, f, i - 1)) by {
                        assert(rest.subrange(i - 1, i - 1 + f.len()) =~= out.subrange(
                            i,
                            i + f.len(),
                        ));
                    }
                }
            }
        }
    }
}

/// Executable replacement: every occurrence of `f` in `h` becomes `r`,
/// scanning left to right.
pub fn replace_string(h: &str, f: &str, r: &str) -> (out: String)
    ensures
        out@ == replace_all(h@, f@, r@),
{
    let h_len = h.unicode_len();
    let f_len = f.unicode_len();
    if f_len == 0 {
        return String::from_str(h);
    }
    if f_len > h_len {
        return String::from_str(h);
    }
    let mut out = String::new();
    let mut i: usize = 0;
    let last = h_len - f_len;
    proof {
        assert(h@.skip(0) =~= h@);
        assert(Seq::<char>::empty() + replace_all(h@, f@, r@) =~= replace_all(h@, f@, r@));
    }
    while i <= last
        invariant
            h_len == h@.len(),
            f_len == f@.len(),
            f_len >= 1,
            last == h_len - f_len,
            0 <= i <= h_len,
            replace_all(h@, f@, r@) == out@ + replace_all(h@.skip(i as int), f@, r@),
        decreases h_len - i,
    {
        if occurs_at_exec(h, f, i) {
            proof {
                let tail = h@.skip(i as int);
                assert(starts_with_seq(tail, f@)) by {
                    assert(tail.subrange(0, f@.len() as int) =~= h@.subrange(
                        i as int,
                        i + f@.len(),
                    ));
                }
                assert(replace_all(tail, f@, r@) == r@ + replace_all(
                    tail.skip(f@.len() as int),
                    f@,
                    r@,
                ));
                assert(tail.skip(f@.len() as int) =~= h@.skip(i + f@.len()));
            }
            out.append(r);
            i = i + f_len;
        } else {
            proof {
                let tail = h@.skip(i as int);
                assert(!starts_with_seq(tail, f@)) by {
                    if starts_with_seq(tail, f@) {
                        assert(h@.subrange(i as int, i + f@.len()) =~= tail.subrange(
                            0,
                            f@.len() as int,
                        ));
                        assert(occurs_at(h@, f@, i as int));
                    }
                }
                assert(tail.len() >= f@.len());
                assert(replace_all(tail, f@, r@) == seq![tail[0]] + replace_all(
                    tail.skip(1),
                    f@,
                    r@,
                ));
                assert(tail.skip(1) =~= h@.skip(i + 1));
                assert(tail[0] == h@[i as int]);
            }
            let piece = h.substring_char(i, i + 1);
            proof {
                assert(piece@ =~= seq![h@[i as int]]);
            }
            out.append(piece);
            i = i + 1;
        }
    }
    let rest = h.substring_char(i, h_len);
    proof {
        assert(rest@ =~= h@.skip(i as int));
        assert(replace_all(h@.skip(i as int), f@, r@) == h@.skip(i as int)) by {
            assert(h@.skip(i as int).len() < f@.len());
        }
    }
    out.append(rest);
    out
}

} // verus!
