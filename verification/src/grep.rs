//! The grep filter: matching lines plus context windows, with interval
//! merging and group separators.

use vstd::prelude::*;

use crate::cli::Args;
use crate::error::MatError;
use crate::line::wf_spans;
use crate::line::Document;
use crate::line::Line;
use crate::line::StyledSpan;
use crate::pattern::build_regex;
use crate::pattern::flavored_pattern_spec;
use crate::pattern::pattern_is_match;
use crate::pattern::regex_builds;
use crate::pattern::regex_matches;
use crate::pattern::Pattern;
use crate::style::Color;
use crate::style::SpanStyle;

verus! {

broadcast use vstd::seq_lib::group_to_multiset_ensures;

/// Options for grep filtering.
pub struct GrepOptions {
    /// The compiled pattern.
    pub pattern: Pattern,
    /// Lines of context before a match.
    pub before: usize,
    /// Lines of context after a match.
    pub after: usize,
}

/// The before/after counts the arguments ask for: a combined context count
/// overrides both.
pub open spec fn context_counts_spec(args: Args) -> (usize, usize) {
    match args.context {
        Some(c) => (c, c),
        None => (
            match args.before {
                Some(b) => b,
                None => 0usize,
            },
            match args.after {
                Some(a) => a,
                None => 0usize,
            },
        ),
    }
}

impl GrepOptions {
    /// Build grep options from the arguments: no grep pattern means no
    /// options, an empty pattern is an error, and a pattern that does not
    /// compile surfaces as an invalid-regex error carrying the pattern.
    pub fn from_args(args: &Args) -> (r: Result<Option<GrepOptions>, MatError>)
        ensures
            args.grep is None ==> (r matches Ok(o) && o is None),
            args.grep matches Some(p) ==> ({
                let flavored = flavored_pattern_spec(
                    p@,
                    args.ignore_case,
                    args.fixed_strings,
                    args.word_regexp,
                    args.line_regexp,
                );
                &&& (p@.len() == 0 ==> (r matches Err(e) && e is EmptyPattern))
                &&& (p@.len() > 0 ==> {
                    &&& (r matches Ok(o) ==> (o matches Some(g) && g.pattern.pat() == flavored
                        && (g.before, g.after) == context_counts_spec(*args)))
                    &&& (r is Ok <==> regex_builds(flavored))
                    &&& (r matches Err(e) ==> (e matches MatError::InvalidRegex {
                        pattern: ep,
                        ..
                    } && ep@ == p@))
                })
            }),
    {
        let pattern_str = match &args.grep {
            Some(p) => p,
            None => {
                return Ok(None);
            },
        };
        if pattern_str.as_str().unicode_len() == 0 {
            return Err(MatError::EmptyPattern);
        }
        let pattern = match build_regex(pattern_str.as_str(), args) {
            Ok(p) => p,
            Err(e) => {
                return Err(e);
            },
        };
        let (before, after) = match args.context {
            Some(c) => (c, c),
            None => {
                let b = match args.before {
                    Some(b) => b,
                    None => 0usize,
                };
                let a = match args.after {
                    Some(a) => a,
                    None => 0usize,
                };
                (b, a)
            },
        };
        Ok(Some(GrepOptions { pattern, before, after }))
    }
}

/// Every interval has its start at or before its end.
pub open spec fn valid_intervals(rs: Seq<(usize, usize)>) -> bool {
    forall|i: int| 0 <= i < rs.len() ==> (#[trigger] rs[i]).0 <= rs[i].1
}

/// Intervals are sorted with a strict gap between one interval's end and the
/// next interval's start: the fully merged form.
pub open spec fn merged_form(rs: Seq<(usize, usize)>) -> bool {
    forall|i: int| 0 <= i < rs.len() - 1 ==> (#[trigger] rs[i]).1 < rs[i + 1].0
}

/// Intervals are sorted by their start.
pub open spec fn sorted_by_start(rs: Seq<(usize, usize)>) -> bool {
    forall|i: int, j: int| 0 <= i <= j < rs.len() ==> (#[trigger] rs[i]).0 <= (#[trigger] rs[j]).0
}

/// A point lies in some interval of the list.
pub open spec fn covered(rs: Seq<(usize, usize)>, x: int) -> bool {
    exists|i: int| 0 <= i < rs.len() && (#[trigger] rs[i]).0 <= x < rs[i].1
}

/// Insertion sort by interval start.
fn sort_by_start(ranges: Vec<(usize, usize)>) -> (r: Vec<(usize, usize)>)
    ensures
        sorted_by_start(r@),
        r@.to_multiset() == ranges@.to_multiset(),
        r@.len() == ranges@.len(),
{
    let mut r = ranges;
    let n = r.len();
    let mut i: usize = 1;
    if n == 0 {
        return r;
    }
    while i < n
        invariant
            1 <= i <= n,
            n == r.len(),
            r@.to_multiset() == ranges@.to_multiset(),
            sorted_by_start(r@.take(i as int)),
        decreases n - i,
    {
        proof {
            assert forall|a: int, b: int|
                0 <= a <= b <= i && a != i && b != i implies (#[trigger] r@[a]).0
                <= (#[trigger] r@[b]).0 by {
                assert(r@.take(i as int)[a] == r@[a]);
                assert(r@.take(i as int)[b] == r@[b]);
            }
        }
        let mut j: usize = i;
        while j > 0 && r[j - 1].0 > r[j].0
            invariant
                0 <= j <= i < n,
                n == r.len(),
                r@.to_multiset() == ranges@.to_multiset(),
                forall|a: int, b: int|
                    0 <= a <= b <= i && a != j && b != j ==> (#[trigger] r@[a]).0
                        <= (#[trigger] r@[b]).0,
                forall|b: int| j < b <= i ==> r@[j as int].0 <= (#[trigger] r@[b]).0,
            decreases j,
        {
            let ghost before_swap = r@;
            let tmp_a = r[j - 1];
            let tmp_b = r[j];
            r.set(j - 1, tmp_b);
            r.set(j, tmp_a);
            proof {
                assert(r@ =~= before_swap.update(j - 1, before_swap[j as int]).update(
                    j as int,
                    before_swap[j - 1],
                ));
                assert(r@.to_multiset() =~= before_swap.to_multiset());
            }
            j = j - 1;
        }
        proof {
            assert forall|a: int, b: int| 0 <= a <= b <= i implies (#[trigger] r@[a]).0
                <= (#[trigger] r@[b]).0 by {
                if a == b {
                } else if a == j {
                    assert(r@[j as int].0 <= r@[b].0);
                } else if b == j {
                    if a < j {
                        assert(j < n);
                        if j > 0 {
                            assert(r@[j - 1].0 <= r@[j as int].0);
                            if a < j - 1 {
                                assert(r@[a].0 <= r@[j - 1].0);
                            }
                        }
                    }
                }
            }
            assert(sorted_by_start(r@.take(i + 1))) by {
                assert forall|a: int, b: int|
                    0 <= a <= b < i + 1 implies (#[trigger] r@.take(i + 1)[a]).0 <= (#[trigger] r@.take(
                    i + 1,
                )[b]).0 by {
                    assert(r@.take(i + 1)[a] == r@[a]);
                    assert(r@.take(i + 1)[b] == r@[b]);
                    assert(r@[a].0 <= r@[b].0);
                }
            }
        }
        i = i + 1;
    }
    proof {
        assert(r@.take(n as int) =~= r@);
    }
    r
}

/// Merge overlapping or adjacent sorted intervals into merged form. The
/// result covers exactly the points the input covers; an input already in
/// merged form comes back unchanged (see `lemma_merged_cover_unique`).
#[verifier::rlimit(100)]
pub fn merge_ranges(ranges: Vec<(usize, usize)>) -> (r: Vec<(usize, usize)>)
    requires
        valid_intervals(ranges@),
    ensures
        valid_intervals(r@),
        merged_form(r@),
        forall|x: int| covered(r@, x) == covered(ranges@, x),
        r@.len() == 0 <==> ranges@.len() == 0,
        ranges@.len() > 0 ==> r@.len() > 0 && r@[0].0 == seq_min_start(ranges@),
        (forall|k: int| 0 <= k < ranges@.len() ==> (#[trigger] ranges@[k]).0 < ranges@[k].1)
            ==> (forall|t: int| 0 <= t < r@.len() ==> (#[trigger] r@[t]).0 < r@[t].1),
        forall|t: int|
            0 <= t < r@.len() ==> exists|k: int|
                0 <= k < ranges@.len() && (#[trigger] r@[t]).1 == ranges@[k].1,
{
    let sorted = sort_by_start(ranges);
    proof {
        lemma_multiset_covered(sorted@, ranges@);
        lemma_multiset_min_start(sorted@, ranges@);
        lemma_multiset_valid(sorted@, ranges@);
        assert forall|k: int|
            0 <= k < sorted@.len() implies exists|k2: int|
            0 <= k2 < ranges@.len() && #[trigger] sorted@[k] == ranges@[k2] by {
            sorted@.to_multiset_ensures();
            ranges@.to_multiset_ensures();
            assert(sorted@.to_multiset().contains(sorted@[k]));
            assert(ranges@.contains(sorted@[k]));
        }
    }
    let n = sorted.len();
    let mut merged: Vec<(usize, usize)> = Vec::new();
    if n == 0 {
        return merged;
    }
    merged.push(sorted[0]);
    let mut i: usize = 1;
    proof {
        assert(merged@ =~= sorted@.take(1));
    }
    while i < n
        invariant
            1 <= i <= n,
            n == sorted.len(),
            valid_intervals(sorted@),
            sorted_by_start(sorted@),
            merged@.len() >= 1,
            valid_intervals(merged@),
            merged_form(merged@),
            merged@[0].0 == sorted@[0].0,
            merged@.last().0 <= merged@.last().1,
            merged@.last().0 <= sorted@[i - 1].0,
            (forall|k: int| 0 <= k < n ==> (#[trigger] sorted@[k]).0 < sorted@[k].1) ==> (
            forall|t: int| 0 <= t < merged@.len() ==> (#[trigger] merged@[t]).0 < merged@[t].1),
            forall|t: int|
                0 <= t < merged@.len() ==> exists|k: int|
                    0 <= k < n && (#[trigger] merged@[t]).1 == sorted@[k].1,
            forall|k: int|
                0 <= k < n ==> exists|k2: int|
                    0 <= k2 < ranges@.len() && #[trigger] sorted@[k] == ranges@[k2],
            forall|x: int| covered(merged@, x) == covered(sorted@.take(i as int), x),
        decreases n - i,
    {
        let (start, end) = sorted[i];
        let last_idx = merged.len() - 1;
        let last = merged[last_idx];
        let ghost old_merged = merged@;
        proof {
            assert(sorted@.take(i + 1).drop_last() =~= sorted@.take(i as int));
        }
        if start <= last.1 {
            let new_end = if last.1 > end {
                last.1
            } else {
                end
            };
            merged.set(last_idx, (last.0, new_end));
            proof {
                assert forall|x: int| covered(merged@, x) == covered(
                    sorted@.take(i + 1),
                    x,
                ) by {
                    lemma_cover_extend_last(
                        old_merged,
                        merged@,
                        sorted@.take(i + 1),
                        sorted@.take(i as int),
                        x,
                    );
                }
            }
        } else {
            merged.push((start, end));
            proof {
                assert forall|x: int| covered(merged@, x) == covered(
                    sorted@.take(i + 1),
                    x,
                ) by {
                    lemma_cover_push(
                        old_merged,
                        merged@,
                        sorted@.take(i + 1),
                        sorted@.take(i as int),
                        x,
                    );
                }
            }
        }
        i = i + 1;
    }
    proof {
        assert(sorted@.take(n as int) =~= sorted@);
        assert forall|t: int|
            0 <= t < merged@.len() implies exists|k: int|
            0 <= k < ranges@.len() && (#[trigger] merged@[t]).1 == ranges@[k].1 by {
            let k = choose|k: int| 0 <= k < n && (#[trigger] merged@[t]).1 == sorted@[k].1;
            let k2 = choose|k2: int| 0 <= k2 < ranges@.len() && sorted@[k] == ranges@[k2];
            assert(merged@[t].1 == ranges@[k2].1);
        }
        if forall|k: int| 0 <= k < ranges@.len() ==> (#[trigger] ranges@[k]).0 < ranges@[k].1 {
            assert forall|k: int| 0 <= k < n implies (#[trigger] sorted@[k]).0
                < sorted@[k].1 by {
                let k2 = choose|k2: int| 0 <= k2 < ranges@.len() && #[trigger] sorted@[k]
                    == ranges@[k2];
            }
        }
    }
    merged
}

/// The least interval start in a nonempty list.
pub open spec fn seq_min_start(rs: Seq<(usize, usize)>) -> usize
    decreases rs.len(),
{
    if rs.len() == 0 {
        0usize
    } else if rs.len() == 1 {
        rs[0].0
    } else if rs[0].0 <= seq_min_start(rs.drop_first()) {
        rs[0].0
    } else {
        seq_min_start(rs.drop_first())
    }
}

/// Two interval lists with the same multiset cover the same points.
proof fn lemma_multiset_covered(a: Seq<(usize, usize)>, b: Seq<(usize, usize)>)
    requires
        a.to_multiset() == b.to_multiset(),
    ensures
        forall|x: int| covered(a, x) == covered(b, x),
{
    assert forall|x: int| covered(a, x) == covered(b, x) by {
        a.to_multiset_ensures();
        b.to_multiset_ensures();
        if covered(a, x) {
            let i = choose|i: int| 0 <= i < a.len() && (#[trigger] a[i]).0 <= x < a[i].1;
            assert(a.to_multiset().contains(a[i]));
            assert(b.contains(a[i]));
            let j = choose|j: int| 0 <= j < b.len() && b[j] == a[i];
            assert(covered(b, x));
        }
        if covered(b, x) {
            let i = choose|i: int| 0 <= i < b.len() && (#[trigger] b[i]).0 <= x < b[i].1;
            assert(b.to_multiset().contains(b[i]));
            assert(a.contains(b[i]));
            let j = choose|j: int| 0 <= j < a.len() && a[j] == b[i];
            assert(covered(a, x));
        }
    }
}

/// Two interval lists with the same multiset have the same validity.
proof fn lemma_multiset_valid(a: Seq<(usize, usize)>, b: Seq<(usize, usize)>)
    requires
        a.to_multiset() == b.to_multiset(),
        valid_intervals(b),
    ensures
        valid_intervals(a),
{
    assert forall|i: int| 0 <= i < a.len() implies (#[trigger] a[i]).0 <= a[i].1 by {
        a.to_multiset_ensures();
        b.to_multiset_ensures();
        assert(a.to_multiset().contains(a[i]));
        assert(b.contains(a[i]));
        let j = choose|j: int| 0 <= j < b.len() && b[j] == a[i];
    }
}

/// A sorted permutation of a nonempty list starts at the least start.
proof fn lemma_multiset_min_start(sorted: Seq<(usize, usize)>, orig: Seq<(usize, usize)>)
    requires
        sorted.to_multiset() == orig.to_multiset(),
        sorted_by_start(sorted),
        sorted.len() == orig.len(),
    ensures
        orig.len() > 0 ==> sorted.len() > 0 && sorted[0].0 == seq_min_start(orig),
{
    if orig.len() > 0 {
        sorted.to_multiset_ensures();
        orig.to_multiset_ensures();
        lemma_min_start_properties(orig);
        let m = choose|m: int| 0 <= m < orig.len() && (#[trigger] orig[m]).0 == seq_min_start(
            orig,
        );
        assert(orig.to_multiset().contains(orig[m]));
        assert(sorted.contains(orig[m]));
        let j = choose|j: int| 0 <= j < sorted.len() && sorted[j] == orig[m];
        assert(sorted[0].0 <= sorted[j].0);
        assert(sorted.to_multiset().contains(sorted[0]));
        assert(orig.contains(sorted[0]));
        let k = choose|k: int| 0 <= k < orig.len() && orig[k] == sorted[0];
        assert(seq_min_start(orig) <= orig[k].0);
    }
}

/// The least start is attained and bounds every start.
proof fn lemma_min_start_properties(rs: Seq<(usize, usize)>)
    requires
        rs.len() > 0,
    ensures
        exists|m: int| 0 <= m < rs.len() && (#[trigger] rs[m]).0 == seq_min_start(rs),
        forall|k: int| 0 <= k < rs.len() ==> seq_min_start(rs) <= (#[trigger] rs[k]).0,
    decreases rs.len(),
{
    if rs.len() == 1 {
        assert(rs[0].0 == seq_min_start(rs));
    } else {
        lemma_min_start_properties(rs.drop_first());
        assert forall|k: int| 0 <= k < rs.len() implies seq_min_start(rs)
            <= (#[trigger] rs[k]).0 by {
            if k > 0 {
                assert(rs.drop_first()[k - 1] == rs[k]);
            }
        }
        if rs[0].0 <= seq_min_start(rs.drop_first()) {
            assert(rs[0].0 == seq_min_start(rs));
        } else {
            let m = choose|m: int|
                0 <= m < rs.drop_first().len() && (#[trigger] rs.drop_first()[m]).0
                    == seq_min_start(rs.drop_first());
            assert(rs[m + 1] == rs.drop_first()[m]);
            assert(rs[m + 1].0 == seq_min_start(rs));
        }
    }
}

/// Extending the last interval's end merges in exactly the cover of the next
/// sorted interval.
proof fn lemma_cover_extend_last(
    old_m: Seq<(usize, usize)>,
    new_m: Seq<(usize, usize)>,
    taken_new: Seq<(usize, usize)>,
    taken_old: Seq<(usize, usize)>,
    x: int,
)
    requires
        old_m.len() >= 1,
        new_m == old_m.update(
            old_m.len() - 1,
            (old_m.last().0, if old_m.last().1 > taken_new.last().1 {
                old_m.last().1
            } else {
                taken_new.last().1
            }),
        ),
        taken_new.len() >= 1,
        taken_new.drop_last() == taken_old,
        taken_new.last().0 <= taken_new.last().1,
        old_m.last().0 <= old_m.last().1,
        taken_new.last().0 <= old_m.last().1,
        taken_new.last().0 >= old_m.last().0,
        forall|y: int| covered(old_m, y) == covered(taken_old, y),
    ensures
        covered(new_m, x) == covered(taken_new, x),
{
    let li = old_m.len() - 1;
    let s = taken_new.last().0;
    let e = taken_new.last().1;
    let ol = old_m.last();
    if covered(new_m, x) {
        let i = choose|i: int| 0 <= i < new_m.len() && (#[trigger] new_m[i]).0 <= x < new_m[i].1;
        if i < li {
            assert(old_m[i] == new_m[i]);
            assert(covered(old_m, x));
            assert(covered(taken_old, x));
            let j = choose|j: int|
                0 <= j < taken_old.len() && (#[trigger] taken_old[j]).0 <= x < taken_old[j].1;
            assert(taken_new[j] == taken_old[j]);
            assert(covered(taken_new, x));
        } else {
            if x < ol.1 {
                assert(old_m[li].0 <= x < old_m[li].1);
                assert(covered(old_m, x));
                assert(covered(taken_old, x));
                let j = choose|j: int|
                    0 <= j < taken_old.len() && (#[trigger] taken_old[j]).0 <= x < taken_old[j].1;
                assert(taken_new[j] == taken_old[j]);
                assert(covered(taken_new, x));
            } else {
                assert(s <= x < e);
                assert(taken_new[taken_new.len() - 1].0 <= x < taken_new[taken_new.len() - 1].1);
                assert(covered(taken_new, x));
            }
        }
    }
    if covered(taken_new, x) {
        let j = choose|j: int|
            0 <= j < taken_new.len() && (#[trigger] taken_new[j]).0 <= x < taken_new[j].1;
        if j < taken_new.len() - 1 {
            assert(taken_old[j] == taken_new[j]);
            assert(covered(taken_old, x));
            assert(covered(old_m, x));
            let i = choose|i: int|
                0 <= i < old_m.len() && (#[trigger] old_m[i]).0 <= x < old_m[i].1;
            if i < li {
                assert(new_m[i] == old_m[i]);
                assert(covered(new_m, x));
            } else {
                assert(new_m[li].0 <= x < new_m[li].1);
                assert(covered(new_m, x));
            }
        } else {
            assert(s <= x < e);
            assert(new_m[li].0 <= x < new_m[li].1);
            assert(covered(new_m, x));
        }
    }
}

/// Pushing a gap-separated interval adds exactly its own cover.
proof fn lemma_cover_push(
    old_m: Seq<(usize, usize)>,
    new_m: Seq<(usize, usize)>,
    taken_new: Seq<(usize, usize)>,
    taken_old: Seq<(usize, usize)>,
    x: int,
)
    requires
        new_m == old_m.push(taken_new.last()),
        taken_new.len() >= 1,
        taken_new.drop_last() == taken_old,
        forall|y: int| covered(old_m, y) == covered(taken_old, y),
    ensures
        covered(new_m, x) == covered(taken_new, x),
{
    let li = old_m.len() as int;
    if covered(new_m, x) {
        let i = choose|i: int| 0 <= i < new_m.len() && (#[trigger] new_m[i]).0 <= x < new_m[i].1;
        if i < li {
            assert(old_m[i] == new_m[i]);
            assert(covered(old_m, x));
            assert(covered(taken_old, x));
            let j = choose|j: int|
                0 <= j < taken_old.len() && (#[trigger] taken_old[j]).0 <= x < taken_old[j].1;
            assert(taken_new[j] == taken_old[j]);
            assert(covered(taken_new, x));
        } else {
            assert(taken_new[taken_new.len() - 1].0 <= x < taken_new[taken_new.len() - 1].1);
            assert(covered(taken_new, x));
        }
    }
    if covered(taken_new, x) {
        let j = choose|j: int|
            0 <= j < taken_new.len() && (#[trigger] taken_new[j]).0 <= x < taken_new[j].1;
        if j < taken_new.len() - 1 {
            assert(taken_old[j] == taken_new[j]);
            assert(covered(taken_old, x));
            assert(covered(old_m, x));
            let i = choose|i: int|
                0 <= i < old_m.len() && (#[trigger] old_m[i]).0 <= x < old_m[i].1;
            assert(new_m[i] == old_m[i]);
            assert(covered(new_m, x));
        } else {
            assert(new_m[li].0 <= x < new_m[li].1);
            assert(covered(new_m, x));
        }
    }
}

/// A merged-form interval list of nonempty intervals is determined by the
/// points it covers: two such lists covering the same points are equal.
/// Merging is therefore idempotent, the identity on input already in merged
/// form, and depends only on the set of covered points, not on the order or
/// grouping of the input intervals.
#[verifier::rlimit(100)]
pub proof fn lemma_merged_cover_unique(a: Seq<(usize, usize)>, b: Seq<(usize, usize)>)
    requires
        merged_form(a),
        merged_form(b),
        forall|i: int| 0 <= i < a.len() ==> (#[trigger] a[i]).0 < a[i].1,
        forall|i: int| 0 <= i < b.len() ==> (#[trigger] b[i]).0 < b[i].1,
        forall|x: int| covered(a, x) == covered(b, x),
    ensures
        a == b,
    decreases a.len(),
{
    if a.len() == 0 {
        if b.len() > 0 {
            assert(covered(b, b[0].0 as int));
        }
        assert(a =~= b);
    } else {
        if b.len() == 0 {
            assert(covered(a, a[0].0 as int));
        }
        lemma_merged_sorted(a);
        lemma_merged_sorted(b);
        let a0 = a[0];
        let b0 = b[0];
        assert(covered(a, a0.0 as int));
        assert(covered(b, a0.0 as int));
        assert(covered(b, b0.0 as int));
        assert(covered(a, b0.0 as int));
        assert(a0.0 == b0.0) by {
            let i = choose|i: int| 0 <= i < b.len() && (#[trigger] b[i]).0 <= a0.0 < b[i].1;
            assert(b[0].0 <= b[i].0);
            let j = choose|j: int| 0 <= j < a.len() && (#[trigger] a[j]).0 <= b0.0 < a[j].1;
            assert(a[0].0 <= a[j].0);
        }
        assert(a0.1 == b0.1) by {
            if a0.1 < b0.1 {
                assert(covered(b, a0.1 as int)) by {
                    assert(b[0].0 <= a0.1 < b[0].1);
                }
                assert(!covered(a, a0.1 as int)) by {
                    if covered(a, a0.1 as int) {
                        let i = choose|i: int|
                            0 <= i < a.len() && (#[trigger] a[i]).0 <= a0.1 < a[i].1;
                        if i == 0 {
                        } else {
                            assert(a[0].1 < a[i].0);
                        }
                    }
                }
            }
            if b0.1 < a0.1 {
                assert(covered(a, b0.1 as int)) by {
                    assert(a[0].0 <= b0.1 < a[0].1);
                }
                assert(!covered(b, b0.1 as int)) by {
                    if covered(b, b0.1 as int) {
                        let i = choose|i: int|
                            0 <= i < b.len() && (#[trigger] b[i]).0 <= b0.1 < b[i].1;
                        if i == 0 {
                        } else {
                            assert(b[0].1 < b[i].0);
                        }
                    }
                }
            }
        }
        let at = a.drop_first();
        let bt = b.drop_first();
        assert forall|x: int| covered(at, x) == covered(bt, x) by {
            lemma_cover_drop_first(a, x);
            lemma_cover_drop_first(b, x);
        }
        assert(merged_form(at)) by {
            assert forall|i: int| 0 <= i < at.len() - 1 implies (#[trigger] at[i]).1
                < at[i + 1].0 by {
                assert(at[i] == a[i + 1]);
                assert(at[i + 1] == a[i + 2]);
            }
        }
        assert(merged_form(bt)) by {
            assert forall|i: int| 0 <= i < bt.len() - 1 implies (#[trigger] bt[i]).1
                < bt[i + 1].0 by {
                assert(bt[i] == b[i + 1]);
                assert(bt[i + 1] == b[i + 2]);
            }
        }
        assert(forall|i: int| 0 <= i < at.len() ==> (#[trigger] at[i]).0 < at[i].1) by {
            assert(forall|i: int| 0 <= i < at.len() ==> at[i] == a[i + 1]);
        }
        assert(forall|i: int| 0 <= i < bt.len() ==> (#[trigger] bt[i]).0 < bt[i].1) by {
            assert(forall|i: int| 0 <= i < bt.len() ==> bt[i] == b[i + 1]);
        }
        lemma_merged_cover_unique(at, bt);
        assert(a =~= b) by {
            assert(at.len() == bt.len());
            assert(a.len() == b.len());
            assert(a[0] == b[0]);
            assert forall|i: int| 0 <= i < a.len() implies a[i] == b[i] by {
                if i > 0 {
                    assert(at[i - 1] == bt[i - 1]);
                    assert(a[i] == at[i - 1]);
                    assert(b[i] == bt[i - 1]);
                }
            }
        }
    }
}

/// In merged form, later intervals start after the first interval's end.
proof fn lemma_merged_sorted(a: Seq<(usize, usize)>)
    requires
        merged_form(a),
        forall|i: int| 0 <= i < a.len() ==> (#[trigger] a[i]).0 < a[i].1,
    ensures
        forall|i: int, j: int| 0 <= i < j < a.len() ==> (#[trigger] a[i]).1 < (#[trigger] a[j]).0,
        forall|i: int| 0 <= i < a.len() ==> a[0].0 <= (#[trigger] a[i]).0,
{
    assert forall|i: int, j: int| 0 <= i < j < a.len() implies (#[trigger] a[i]).1
        < (#[trigger] a[j]).0 by {
        lemma_merged_chain(a, i, j);
    }
    assert forall|i: int| 0 <= i < a.len() implies a[0].0 <= (#[trigger] a[i]).0 by {
        if i > 0 {
            lemma_merged_chain(a, 0, i);
        }
    }
}

/// The gap ordering is transitive along the list.
proof fn lemma_merged_chain(a: Seq<(usize, usize)>, i: int, j: int)
    requires
        merged_form(a),
        forall|k: int| 0 <= k < a.len() ==> (#[trigger] a[k]).0 < a[k].1,
        0 <= i < j < a.len(),
    ensures
        a[i].1 < a[j].0,
    decreases j - i,
{
    if j == i + 1 {
    } else {
        lemma_merged_chain(a, i, j - 1);
        assert(a[j - 1].1 < a[j].0);
    }
}

/// The dim style that context lines and separators are painted with.
pub open spec fn context_dim_style() -> SpanStyle {
    SpanStyle { fg: Some(Color::DarkGray), bg: None, bold: false, italic: false, underline: false }
}

/// A matching line is kept with its spans, marked as a match.
pub open spec fn is_match_mark(orig: Line, out: Line) -> bool {
    &&& out.number == orig.number
    &&& out.spans@ == orig.spans@
    &&& out.is_match
    &&& !out.is_context
}

/// A context line is re-emitted as a single dim span holding its raw text,
/// marked as context; an empty line keeps no spans.
pub open spec fn is_context_restyle(orig: Line, out: Line) -> bool {
    &&& out.number == orig.number
    &&& !out.is_match
    &&& out.is_context
    &&& (orig.text_spec().len() > 0 ==> out.spans@.len() == 1 && out.spans@[0].text@
        == orig.text_spec() && out.spans@[0].style == context_dim_style())
    &&& (orig.text_spec().len() == 0 ==> out.spans@.len() == 0)
}

/// How one emitted line relates to the document line it came from.
pub open spec fn line_corresponds(orig: Line, matched: bool, out: Line) -> bool {
    if matched {
        is_match_mark(orig, out)
    } else {
        is_context_restyle(orig, out)
    }
}

/// A grep group separator row: line number zero and one dim two-dash span.
pub open spec fn is_separator_line(l: Line) -> bool {
    &&& l.number == 0
    &&& l.spans@.len() == 1
    &&& l.spans@[0].text@ == "--"@
    &&& l.spans@[0].style == context_dim_style()
    &&& !l.is_match
    &&& !l.is_context
}

/// Which lines the pattern matches.
pub open spec fn grep_matched_spec(lines: Seq<Line>, pat: Seq<char>) -> Seq<bool> {
    Seq::new(lines.len(), |i: int| regex_matches(pat, lines[i].text_spec()))
}

/// Index `mi` is a match whose context window holds the index `x`.
pub open spec fn window_hit(matched: Seq<bool>, before: int, after: int, x: int, mi: int) -> bool {
    0 <= mi < matched.len() && matched[mi] && mi - before <= x <= mi + after
}

/// Whether a line index lies in the context window of some match.
pub open spec fn grep_window_covered(matched: Seq<bool>, before: int, after: int, x: int) -> bool {
    exists|mi: int| window_hit(matched, before, after, x, mi)
}

/// The grep output: the lines of each merged interval in order, each either
/// kept as a match or restyled as context, with one separator row between
/// consecutive intervals.
pub open spec fn grep_emit_rel(
    lines: Seq<Line>,
    matched: Seq<bool>,
    m: Seq<(usize, usize)>,
    out: Seq<Line>,
) -> bool
    decreases m.len(),
{
    if m.len() == 0 {
        out.len() == 0
    } else {
        let s = m.last().0 as int;
        let e = m.last().1 as int;
        let seg = e - s;
        &&& s <= e <= lines.len()
        &&& if m.len() == 1 {
            &&& out.len() == seg
            &&& (forall|k: int|
                0 <= k < seg ==> line_corresponds(lines[s + k], matched[s + k], #[trigger] out[k]))
        } else {
            &&& out.len() >= seg + 1
            &&& (forall|k: int|
                0 <= k < seg ==> line_corresponds(
                    lines[s + k],
                    matched[s + k],
                    #[trigger] out[out.len() - seg + k],
                ))
            &&& is_separator_line(out[out.len() - seg - 1])
            &&& grep_emit_rel(lines, matched, m.drop_last(), out.take(out.len() - seg - 1))
        }
    }
}

/// What `grep_filter` promises of its output for a document, a compiled
/// pattern text, and the context counts.
pub open spec fn grep_output_rel(
    doc: Document,
    pat: Seq<char>,
    before: usize,
    after: usize,
    r: Document,
) -> bool {
    let n = doc.lines@.len();
    let matched = grep_matched_spec(doc.lines@, pat);
    &&& r.source_name@ == doc.source_name@
    &&& r.encoding@ == doc.encoding@
    &&& r.max_width_ok()
    &&& ((forall|i: int| 0 <= i < n ==> !matched[i]) ==> r.lines@.len() == 0)
    &&& ((exists|i: int| 0 <= i < n && matched[i]) ==> exists|m: Seq<(usize, usize)>|
        {
            &&& merged_form(m)
            &&& m.len() > 0
            &&& (forall|t: int| 0 <= t < m.len() ==> (#[trigger] m[t]).0 < m[t].1 && m[t].1 <= n)
            &&& (forall|x: int|
                covered(m, x) == (grep_window_covered(matched, before as int, after as int, x)
                    && 0 <= x < n))
            &&& grep_emit_rel(doc.lines@, matched, m, r.lines@)
        })
}

/// Clone a span list.
pub(crate) fn clone_spans(spans: &Vec<StyledSpan>) -> (r: Vec<StyledSpan>)
    ensures
        r@ == spans@,
{
    let mut r: Vec<StyledSpan> = Vec::new();
    let mut i: usize = 0;
    while i < spans.len()
        invariant
            i <= spans.len(),
            r@ == spans@.take(i as int),
        decreases spans.len() - i,
    {
        let s = &spans[i];
        r.push(StyledSpan { text: s.text.clone(), style: s.style });
        proof {
            assert(r@ =~= spans@.take(i + 1));
        }
        i = i + 1;
    }
    proof {
        assert(spans@.take(spans@.len() as int) =~= spans@);
    }
    r
}

/// Build a context line: the raw text as one dim span, or no spans for an
/// empty line.
fn context_line(number: usize, text: &str) -> (r: Line)
    ensures
        r.number == number,
        !r.is_match,
        r.is_context,
        text@.len() > 0 ==> r.spans@.len() == 1 && r.spans@[0].text@ == text@ && r.spans@[0].style
            == context_dim_style(),
        text@.len() == 0 ==> r.spans@.len() == 0,
        wf_spans(r.spans@),
    {
    let mut spans: Vec<StyledSpan> = Vec::new();
    if text.unicode_len() > 0 {
        let style = SpanStyle::new().fg(Color::DarkGray);
        spans.push(StyledSpan::new(text, style));
    }
    Line { number, spans, is_match: false, is_context: true }
}

/// Filter a document to its matching lines and their context windows: scan
/// for matches, build the context intervals, merge them, and emit the
/// merged groups separated by separator rows. A document without a match
/// filters to an empty document.
pub fn grep_filter(document: &Document, options: &GrepOptions) -> (r: Document)
    ensures
        ({
            let n = document.lines@.len();
            let matched = grep_matched_spec(document.lines@, options.pattern.pat());
            &&& r.source_name@ == document.source_name@
            &&& r.encoding@ == document.encoding@
            &&& r.max_width_ok()
            &&& ((forall|i: int| 0 <= i < n ==> !matched[i]) ==> r.lines@.len() == 0)
            &&& ((exists|i: int| 0 <= i < n && matched[i]) ==> exists|m: Seq<(usize, usize)>|
                {
                    &&& merged_form(m)
                    &&& m.len() > 0
                    &&& (forall|t: int| 0 <= t < m.len() ==> (#[trigger] m[t]).0 < m[t].1 && m[t].1
                        <= n)
                    &&& (forall|x: int|
                        covered(m, x) == (grep_window_covered(
                            matched,
                            options.before as int,
                            options.after as int,
                            x,
                        ) && 0 <= x < n))
                    &&& grep_emit_rel(document.lines@, matched, m, r.lines@)
                })
        }),
{
    let n = document.lines.len();
    let ghost pat = options.pattern.pat();
    let ghost matched_spec = grep_matched_spec(document.lines@, pat);
    let mut matched: Vec<bool> = Vec::new();
    let mut any = false;
    let mut i: usize = 0;
    while i < n
        invariant
            i <= n,
            n == document.lines@.len(),
            matched_spec == grep_matched_spec(document.lines@, pat),
            matched_spec.len() == n,
            pat == options.pattern.pat(),
            matched@.len() == i,
            forall|k: int| 0 <= k < i ==> matched@[k] == matched_spec[k],
            any == exists|k: int| 0 <= k < i && matched_spec[k],
        decreases n - i,
    {
        let text = document.lines[i].text();
        let m = pattern_is_match(&options.pattern, text.as_str());
        matched.push(m);
        if m {
            any = true;
        }
        proof {
            if m {
                assert(matched_spec[i as int]);
            }
            if !m && any {
                let k = choose|k: int| 0 <= k < i && matched_spec[k];
                assert(0 <= k < i + 1 && matched_spec[k]);
            }
        }
        i = i + 1;
    }
    let source_name = document.source_name.clone();
    let encoding = document.encoding.clone();
    if !any {
        let mut r = Document { lines: Vec::new(), max_line_width: 0, source_name, encoding };
        r.recalculate_max_width();
        return r;
    }
    let mut ranges: Vec<(usize, usize)> = Vec::new();
    let mut i: usize = 0;
    proof {
        let b = options.before as int;
        let a = options.after as int;
        assert forall|x: int| covered(ranges@, x) == (grep_window_covered(
            matched_spec.take(0),
            b,
            a,
            x,
        ) && 0 <= x < n as int) by {
            if covered(ranges@, x) {
                let t = choose|t: int|
                    0 <= t < ranges@.len() && (#[trigger] ranges@[t]).0 <= x < ranges@[t].1;
            }
            if grep_window_covered(matched_spec.take(0), b, a, x) {
                let mi = choose|mi: int| #[trigger] window_hit(matched_spec.take(0), b, a, x, mi);
            }
        }
    }
    while i < n
        invariant
            i <= n,
            n == document.lines@.len(),
            n == matched@.len(),
            matched_spec.len() == n,
            forall|k: int| 0 <= k < n ==> matched@[k] == matched_spec[k],
            valid_intervals(ranges@),
            forall|t: int| 0 <= t < ranges@.len() ==> (#[trigger] ranges@[t]).0 < ranges@[t].1
                && ranges@[t].1 <= n,
            forall|x: int|
                covered(ranges@, x) == (grep_window_covered(
                    matched_spec.take(i as int),
                    options.before as int,
                    options.after as int,
                    x,
                ) && 0 <= x < n as int),
        decreases n - i,
    {
        let ghost old_ranges = ranges@;
        if matched[i] {
            let start: usize = if options.before <= i {
                i - options.before
            } else {
                0
            };
            let end: usize = if options.after >= n - 1 - i {
                n
            } else {
                i + options.after + 1
            };
            ranges.push((start, end));
        }
        proof {
            let b = options.before as int;
            let a = options.after as int;
            assert forall|x: int| covered(ranges@, x) == (grep_window_covered(
                matched_spec.take(i + 1),
                b,
                a,
                x,
            ) && 0 <= x < n as int) by {
                if matched_spec[i as int] {
                    let start = if b <= i as int {
                        i as int - b
                    } else {
                        0
                    };
                    let end = if a >= n as int - 1 - i as int {
                        n as int
                    } else {
                        i as int + a + 1
                    };
                    assert(ranges@ == old_ranges.push((start as usize, end as usize)));
                    if covered(ranges@, x) {
                        let t = choose|t: int|
                            0 <= t < ranges@.len() && (#[trigger] ranges@[t]).0 <= x
                                < ranges@[t].1;
                        if t < old_ranges.len() {
                            assert(old_ranges[t] == ranges@[t]);
                            assert(covered(old_ranges, x));
                            let mi = choose|mi: int|
                                #[trigger] window_hit(matched_spec.take(i as int), b, a, x, mi);
                            assert(matched_spec.take(i + 1)[mi] == matched_spec[mi]);
                            assert(window_hit(matched_spec.take(i + 1), b, a, x, mi));
                        } else {
                            assert(matched_spec.take(i + 1)[i as int]);
                            assert(window_hit(matched_spec.take(i + 1), b, a, x, i as int));
                        }
                    }
                    if grep_window_covered(matched_spec.take(i + 1), b, a, x) && 0 <= x
                        < n as int {
                        let mi = choose|mi: int|
                            #[trigger] window_hit(matched_spec.take(i + 1), b, a, x, mi);
                        if mi < i as int {
                            assert(matched_spec.take(i as int)[mi] == matched_spec[mi]);
                            assert(window_hit(matched_spec.take(i as int), b, a, x, mi));
                            assert(covered(old_ranges, x));
                            let t = choose|t: int|
                                0 <= t < old_ranges.len() && (#[trigger] old_ranges[t]).0 <= x
                                    < old_ranges[t].1;
                            assert(ranges@[t] == old_ranges[t]);
                            assert(covered(ranges@, x));
                        } else {
                            assert(mi == i as int);
                            assert(ranges@[ranges@.len() - 1].0 <= x
                                < ranges@[ranges@.len() - 1].1);
                            assert(covered(ranges@, x));
                        }
                    }
                } else {
                    assert(ranges@ == old_ranges);
                    if grep_window_covered(matched_spec.take(i + 1), b, a, x) && 0 <= x
                        < n as int {
                        let mi = choose|mi: int|
                            #[trigger] window_hit(matched_spec.take(i + 1), b, a, x, mi);
                        assert(mi != i as int);
                        assert(matched_spec.take(i as int)[mi] == matched_spec[mi]);
                        assert(window_hit(matched_spec.take(i as int), b, a, x, mi));
                    }
                    if covered(ranges@, x) {
                        let mi = choose|mi: int|
                            #[trigger] window_hit(matched_spec.take(i as int), b, a, x, mi);
                        assert(matched_spec.take(i + 1)[mi] == matched_spec[mi]);
                        assert(window_hit(matched_spec.take(i + 1), b, a, x, mi));
                    }
                }
            }
        }
        i = i + 1;
    }
    proof {
        assert(matched_spec.take(n as int) =~= matched_spec);
    }
    let merged = merge_ranges(ranges);
    proof {
        let k = choose|k: int| 0 <= k < n && #[trigger] matched_spec[k];
        assert(window_hit(matched_spec, options.before as int, options.after as int, k, k));
        assert(covered(ranges@, k));
        assert(ranges@.len() > 0) by {
            if ranges@.len() == 0 {
                assert(!covered(ranges@, k));
            }
        }
    }
    let mut out: Vec<Line> = Vec::new();
    let mut t: usize = 0;
    proof {
        assert(merged@.take(0) =~= Seq::<(usize, usize)>::empty());
        assert(grep_emit_rel(document.lines@, matched_spec, merged@.take(0), out@));
    }
    while t < merged.len()
        invariant
            t <= merged.len(),
            n == document.lines@.len(),
            merged_form(merged@),
            forall|u: int| 0 <= u < merged@.len() ==> (#[trigger] merged@[u]).0 < merged@[u].1
                && merged@[u].1 <= n,
            grep_emit_rel(document.lines@, matched_spec, merged@.take(t as int), out@),
            t > 0 ==> out@.len() > 0,
            n == matched@.len(),
            matched_spec.len() == n,
            forall|k: int| 0 <= k < n ==> matched@[k] == matched_spec[k],
        decreases merged.len() - t,
    {
        let (s, e) = merged[t];
        let ghost out_before_sep = out@;
        if t > 0 {
            out.push(Line::separator());
        }
        let base = out.len();
        let ghost out_base = out@;
        let mut j: usize = s;
        proof {
            assert(merged@[t as int].0 < merged@[t as int].1);
        }
        while j < e
            invariant
                s <= j <= e,
                e <= n,
                n == document.lines@.len(),
                n == matched@.len(),
                forall|k: int| 0 <= k < n ==> matched@[k] == matched_spec[k],
                base == out_base.len(),
                out@.len() == base + (j - s),
                out@.take(base as int) == out_base,
                forall|k: int|
                    0 <= k < j - s ==> line_corresponds(
                        document.lines@[s + k],
                        matched_spec[s + k],
                        #[trigger] out@[base + k],
                    ),
            decreases e - j,
        {
            let orig = &document.lines[j];
            let ghost out_prev = out@;
            if matched[j] {
                let spans = clone_spans(&orig.spans);
                out.push(
                    Line { number: orig.number, spans, is_match: true, is_context: false },
                );
            } else {
                let text = orig.text();
                out.push(context_line(orig.number, text.as_str()));
            }
            proof {
                assert(out@.take(base as int) =~= out_prev.take(base as int));
                assert forall|k: int|
                    0 <= k < j + 1 - s implies line_corresponds(
                    document.lines@[s + k],
                    matched_spec[s + k],
                    #[trigger] out@[base + k],
                ) by {
                    if k < j - s {
                        assert(out@[base + k] == out_prev[base + k]);
                    }
                }
            }
            j = j + 1;
        }
        proof {
            let mseq = merged@.take(t + 1);
            assert(mseq.last() == merged@[t as int]);
            assert(mseq.drop_last() =~= merged@.take(t as int));
            let seg = e as int - s as int;
            if t == 0 {
                assert(merged@.take(0) =~= Seq::<(usize, usize)>::empty());
                assert(base == 0);
                assert(out@.len() == seg);
                assert forall|k: int|
                    0 <= k < seg implies line_corresponds(
                    document.lines@[s + k],
                    matched_spec[s + k],
                    #[trigger] out@[k],
                ) by {
                    assert(out@[base + k] == out@[k]);
                }
                assert(grep_emit_rel(document.lines@, matched_spec, mseq, out@));
            } else {
                assert(out@.len() == base + seg);
                assert(is_separator_line(out@[base - 1])) by {
                    assert(out@.take(base as int) == out_base);
                    assert(out_base[base - 1] == out@[base - 1]);
                }
                assert(out@.take(out@.len() - seg - 1) =~= out_before_sep);
                assert forall|k: int|
                    0 <= k < seg implies line_corresponds(
                    document.lines@[s + k],
                    matched_spec[s + k],
                    #[trigger] out@[out@.len() - seg + k],
                ) by {
                    assert(out@[base + k] == out@[out@.len() - seg + k]);
                }
                assert(grep_emit_rel(document.lines@, matched_spec, mseq, out@));
            }
        }
        t = t + 1;
    }
    proof {
        assert(merged@.take(merged@.len() as int) =~= merged@);
    }
    let mut r = Document { lines: out, max_line_width: 0, source_name, encoding };
    r.recalculate_max_width();
    proof {
        assert(grep_emit_rel(document.lines@, matched_spec, merged@, r.lines@));
    }
    r
}

/// Grep context correctness, first half: every document line whose index
/// lies in a merged interval — that is, in the context window of some match —
/// appears in the grep output, kept as a match or restyled as context.
pub proof fn lemma_grep_covered_lines_appear(
    lines: Seq<Line>,
    matched: Seq<bool>,
    m: Seq<(usize, usize)>,
    out: Seq<Line>,
    x: int,
)
    requires
        grep_emit_rel(lines, matched, m, out),
        covered(m, x),
    ensures
        exists|j: int|
            0 <= j < out.len() && line_corresponds(lines[x], matched[x], #[trigger] out[j]),
    decreases m.len(),
{
    let s = m.last().0 as int;
    let e = m.last().1 as int;
    let seg = e - s;
    if s <= x < e {
        if m.len() == 1 {
            assert(line_corresponds(lines[x], matched[x], out[x - s]));
        } else {
            assert(line_corresponds(lines[x], matched[x], out[out.len() - seg + (x - s)]));
        }
    } else {
        let i = choose|i: int| 0 <= i < m.len() && (#[trigger] m[i]).0 <= x < m[i].1;
        assert(i < m.len() - 1);
        assert(m.drop_last()[i] == m[i]);
        assert(covered(m.drop_last(), x));
        let prefix = out.take(out.len() - seg - 1);
        lemma_grep_covered_lines_appear(lines, matched, m.drop_last(), prefix, x);
        let j = choose|j: int|
            0 <= j < prefix.len() && line_corresponds(lines[x], matched[x], #[trigger] prefix[j]);
        assert(out[j] == prefix[j]);
        assert(line_corresponds(lines[x], matched[x], out[j]));
    }
}

/// Grep context correctness, second half: every line of the grep output is
/// either a group separator or comes from a document line whose index lies
/// in a merged interval.
pub proof fn lemma_grep_no_stray_lines(
    lines: Seq<Line>,
    matched: Seq<bool>,
    m: Seq<(usize, usize)>,
    out: Seq<Line>,
    j: int,
)
    requires
        grep_emit_rel(lines, matched, m, out),
        0 <= j < out.len(),
    ensures
        is_separator_line(out[j]) || exists|x: int|
            covered(m, x) && 0 <= x < lines.len() && line_corresponds(
                lines[x],
                matched[x],
                out[j],
            ),
    decreases m.len(),
{
    let s = m.last().0 as int;
    let e = m.last().1 as int;
    let seg = e - s;
    if m.len() == 1 {
        let x = s + j;
        assert(m[0].0 <= x < m[0].1);
        assert(covered(m, x) && 0 <= x < lines.len() && line_corresponds(
            lines[x],
            matched[x],
            out[j],
        ));
    } else {
        let p = out.len() - seg - 1;
        if j > p {
            let x = s + (j - (p + 1));
            assert(m[m.len() - 1].0 <= x < m[m.len() - 1].1);
            assert(out[out.len() - seg + (j - (p + 1))] == out[j]);
            assert(covered(m, x) && 0 <= x < lines.len() && line_corresponds(
                lines[x],
                matched[x],
                out[j],
            ));
        } else if j == p {
            assert(is_separator_line(out[j]));
        } else {
            let prefix = out.take(p);
            lemma_grep_no_stray_lines(lines, matched, m.drop_last(), prefix, j);
            assert(prefix[j] == out[j]);
            if !is_separator_line(out[j]) {
                let x = choose|x: int|
                    covered(m.drop_last(), x) && 0 <= x < lines.len() && line_corresponds(
                        lines[x],
                        matched[x],
                        #[trigger] prefix[j],
                    ) && prefix[j] == prefix[j];
                let i = choose|i: int|
                    0 <= i < m.drop_last().len() && (#[trigger] m.drop_last()[i]).0 <= x
                        < m.drop_last()[i].1;
                assert(m[i] == m.drop_last()[i]);
                assert(covered(m, x));
                assert(covered(m, x) && 0 <= x < lines.len() && line_corresponds(
                    lines[x],
                    matched[x],
                    out[j],
                ));
            }
        }
    }
}

/// Separator placement: when every document line carries a line number of
/// at least one and every merged interval is nonempty, a separator row in
/// the grep output never stands first or last, and its two neighbours are
/// ordinary output lines, not separators. Separators therefore appear
/// exactly between consecutive merged intervals.
pub proof fn lemma_grep_separator_placement(
    lines: Seq<Line>,
    matched: Seq<bool>,
    m: Seq<(usize, usize)>,
    out: Seq<Line>,
    j: int,
)
    requires
        grep_emit_rel(lines, matched, m, out),
        forall|t: int| 0 <= t < m.len() ==> (#[trigger] m[t]).0 < m[t].1,
        forall|i: int| 0 <= i < lines.len() ==> (#[trigger] lines[i]).number >= 1,
        0 <= j < out.len(),
        is_separator_line(out[j]),
    ensures
        0 < j < out.len() - 1,
        !is_separator_line(out[j - 1]),
        !is_separator_line(out[j + 1]),
    decreases m.len(),
{
    let s = m.last().0 as int;
    let e = m.last().1 as int;
    let seg = e - s;
    if m.len() == 1 {
        assert(line_corresponds(lines[s + j], matched[s + j], out[j]));
        assert(lines[s + j].number >= 1);
        assert(false);
    } else {
        let p = out.len() - seg - 1;
        if j > p {
            let k = j - (p + 1);
            assert(line_corresponds(lines[s + k], matched[s + k], out[out.len() - seg + k]));
            assert(out[out.len() - seg + k] == out[j]);
            assert(lines[s + k].number >= 1);
            assert(false);
        } else if j == p {
            assert(line_corresponds(lines[s + 0], matched[s + 0], out[out.len() - seg + 0]));
            assert(out.len() - seg == j + 1);
            assert(lines[s].number >= 1);
            assert(!is_separator_line(out[j + 1]));
            let prefix = out.take(p);
            let mp = m.drop_last();
            assert(grep_emit_rel(lines, matched, mp, prefix));
            assert(mp.last() == m[m.len() - 2]);
            let sp = mp.last().0 as int;
            let ep = mp.last().1 as int;
            let segp = ep - sp;
            assert(segp >= 1);
            if mp.len() == 1 {
                assert(prefix.len() == segp);
                assert(line_corresponds(
                    lines[sp + (prefix.len() - 1)],
                    matched[sp + (prefix.len() - 1)],
                    prefix[prefix.len() - 1],
                ));
                assert(lines[sp + (prefix.len() - 1)].number >= 1);
            } else {
                assert(line_corresponds(
                    lines[sp + (segp - 1)],
                    matched[sp + (segp - 1)],
                    prefix[prefix.len() - segp + (segp - 1)],
                ));
                assert(lines[sp + (segp - 1)].number >= 1);
            }
            assert(prefix[prefix.len() - 1] == out[j - 1]);
            assert(!is_separator_line(out[j - 1]));
            assert(0 < j);
        } else {
            let prefix = out.take(p);
            assert(prefix[j] == out[j]);
            assert forall|t: int|
                0 <= t < m.drop_last().len() implies (#[trigger] m.drop_last()[t]).0
                < m.drop_last()[t].1 by {
                assert(m.drop_last()[t] == m[t]);
            }
            lemma_grep_separator_placement(lines, matched, m.drop_last(), prefix, j);
            assert(prefix[j - 1] == out[j - 1]);
            assert(prefix[j + 1] == out[j + 1]);
        }
    }
}

/// Dropping the first interval of a merged-form list removes exactly the
/// points below the second interval.
proof fn lemma_cover_drop_first(a: Seq<(usize, usize)>, x: int)
    requires
        merged_form(a),
        a.len() >= 1,
        forall|i: int| 0 <= i < a.len() ==> (#[trigger] a[i]).0 < a[i].1,
    ensures
        covered(a.drop_first(), x) == (covered(a, x) && !(a[0].0 <= x < a[0].1)),
{
    lemma_merged_sorted(a);
    let at = a.drop_first();
    if covered(at, x) {
        let i = choose|i: int| 0 <= i < at.len() && (#[trigger] at[i]).0 <= x < at[i].1;
        assert(at[i] == a[i + 1]);
        assert(covered(a, x));
        assert(a[0].1 < a[i + 1].0);
    }
    if covered(a, x) && !(a[0].0 <= x < a[0].1) {
        let i = choose|i: int| 0 <= i < a.len() && (#[trigger] a[i]).0 <= x < a[i].1;
        assert(i > 0);
        assert(at[i - 1] == a[i]);
        assert(covered(at, x));
    }
}

} // verus!
