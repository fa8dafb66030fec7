//! Activity correlation: which activities appear most often in the
//! best-rated and worst-rated quarters of the entries that have any
//! activity at all.
//!
//! Entries with activities are ranked by rating, ties broken by original
//! position; the top and bottom quarters (of the whole list's size) form
//! the favorable and unfavorable buckets. Within a bucket, activity
//! occurrences are counted and the three most frequent are reported, ties
//! broken by name so the order is the same on every run.
use vstd::prelude::*;

use crate::activities::Activity;
use crate::improved_daystat::{spec_entry_bounded, EntryView, ImprovedDayStat};
use crate::state_stats::{spec_rating_sum, DayAverage};
use crate::text::{chars_of, lemma_lex_total, lemma_lex_trans, lex_cmp_chars, lex_lt, string_from_chars};

verus! {

/// True when the entry references at least one activity.
pub open spec fn spec_has_acts(e: EntryView) -> bool {
    e.activities.len() > 0
}

/// The entries that have at least one activity, in original order.
pub open spec fn spec_with_acts(views: Seq<EntryView>) -> Seq<EntryView> {
    views.filter(|e: EntryView| spec_has_acts(e))
}

/// Size of one bucket: a quarter of the whole list, but never more than
/// the sub-population with activities.
pub open spec fn spec_quartile_count(views: Seq<EntryView>) -> int {
    let q = views.len() as int / 4;
    if q <= spec_with_acts(views).len() {
        q
    } else {
        spec_with_acts(views).len() as int
    }
}

/// Ranking order: higher rating first, earlier position first on ties.
pub open spec fn spec_pair_before(a: (int, EntryView), b: (int, EntryView)) -> bool {
    a.1.rating_centi > b.1.rating_centi || (a.1.rating_centi == b.1.rating_centi && a.0 < b.0)
}

/// Inserts a ranked pair in front of the first entry it precedes.
pub open spec fn spec_insert_pair(x: (int, EntryView), s: Seq<(int, EntryView)>) -> Seq<
    (int, EntryView),
>
    decreases s.len(),
{
    if s.len() == 0 {
        seq![x]
    } else if spec_pair_before(x, s[0]) {
        seq![x] + s
    } else {
        seq![s[0]] + spec_insert_pair(x, s.drop_first())
    }
}

/// Insertion sort of ranked pairs under `spec_pair_before`.
pub open spec fn spec_sort_pairs(s: Seq<(int, EntryView)>) -> Seq<(int, EntryView)>
    decreases s.len(),
{
    if s.len() == 0 {
        Seq::empty()
    } else {
        spec_insert_pair(s[0], spec_sort_pairs(s.drop_first()))
    }
}

/// The sub-population with activities, paired with its positions.
pub open spec fn spec_indexed_sub(views: Seq<EntryView>) -> Seq<(int, EntryView)> {
    let sub = spec_with_acts(views);
    Seq::new(sub.len(), |i: int| (i, sub[i]))
}

/// The sub-population ranked by rating, best first.
pub open spec fn spec_ranked(views: Seq<EntryView>) -> Seq<(int, EntryView)> {
    spec_sort_pairs(spec_indexed_sub(views))
}

/// The entries of a slice of the ranking.
pub open spec fn spec_bucket(ranked: Seq<(int, EntryView)>, start: int, end: int) -> Seq<
    EntryView,
> {
    ranked.subrange(start, end).map_values(|p: (int, EntryView)| p.1)
}

/// All activity names of a bucket, entry by entry, in order.
pub open spec fn spec_flat_names(bucket: Seq<EntryView>) -> Seq<Seq<char>>
    decreases bucket.len(),
{
    if bucket.len() == 0 {
        Seq::empty()
    } else {
        spec_flat_names(bucket.drop_last()) + bucket.last().activities
    }
}

/// The distinct names of a list, in order of first occurrence.
pub open spec fn spec_firsts(names: Seq<Seq<char>>) -> Seq<Seq<char>>
    decreases names.len(),
{
    if names.len() == 0 {
        Seq::empty()
    } else {
        let f = spec_firsts(names.drop_last());
        if f.contains(names.last()) {
            f
        } else {
            f.push(names.last())
        }
    }
}

/// How often a name occurs in a list.
pub open spec fn spec_count_name(names: Seq<Seq<char>>, n: Seq<char>) -> int
    decreases names.len(),
{
    if names.len() == 0 {
        0int
    } else {
        spec_count_name(names.drop_last(), n) + if names.last() == n {
            1int
        } else {
            0int
        }
    }
}

/// The frequency table of a name list: each distinct name, in order of
/// first occurrence, with its occurrence count.
pub open spec fn spec_freq_table(names: Seq<Seq<char>>) -> Seq<(Seq<char>, int)> {
    let f = spec_firsts(names);
    Seq::new(f.len(), |i: int| (f[i], spec_count_name(names, f[i])))
}

/// Report order: higher count first, smaller name first on ties.
pub open spec fn spec_freq_before(a: (Seq<char>, int), b: (Seq<char>, int)) -> bool {
    a.1 > b.1 || (a.1 == b.1 && lex_lt(a.0, b.0))
}

/// Inserts a frequency row in front of the first row it precedes.
pub open spec fn spec_insert_freq(x: (Seq<char>, int), s: Seq<(Seq<char>, int)>) -> Seq<
    (Seq<char>, int),
>
    decreases s.len(),
{
    if s.len() == 0 {
        seq![x]
    } else if spec_freq_before(x, s[0]) {
        seq![x] + s
    } else {
        seq![s[0]] + spec_insert_freq(x, s.drop_first())
    }
}

/// Insertion sort of frequency rows under `spec_freq_before`.
pub open spec fn spec_sort_freq(s: Seq<(Seq<char>, int)>) -> Seq<(Seq<char>, int)>
    decreases s.len(),
{
    if s.len() == 0 {
        Seq::empty()
    } else {
        spec_insert_freq(s[0], spec_sort_freq(s.drop_first()))
    }
}

/// The three most frequent names of a name list, most frequent first, ties
/// broken by name; fewer when there are fewer distinct names.
pub open spec fn spec_top_three_names(names: Seq<Seq<char>>) -> Seq<(Seq<char>, int)> {
    let sorted = spec_sort_freq(spec_freq_table(names));
    if sorted.len() <= 3 {
        sorted
    } else {
        sorted.take(3)
    }
}

/// The three most frequent activities of a bucket, most frequent first,
/// ties broken by name; fewer when the bucket has fewer distinct names.
pub open spec fn spec_top_three(bucket: Seq<EntryView>) -> Seq<(Seq<char>, int)> {
    spec_top_three_names(spec_flat_names(bucket))
}

/// Activity correlation over the entry list.
#[derive(Debug)]
pub struct ActivityStats {
    /// Most frequent activities of the favorable bucket, with counts.
    pub top_three_common_happy_activities: Vec<(Activity, usize)>,
    /// Most frequent activities of the unfavorable bucket, with counts.
    pub top_three_common_sad_activities: Vec<(Activity, usize)>,
    /// Mean rating of the favorable bucket.
    pub average_rating_for_happy_activity_days: DayAverage,
    /// Mean rating of the unfavorable bucket.
    pub average_rating_for_sad_activity_days: DayAverage,
    /// Entries in the favorable bucket.
    pub day_stats_counted_happy: usize,
    /// Entries in the unfavorable bucket.
    pub day_stats_counted_sad: usize,
}

/// View of a reported activity list.
pub open spec fn spec_top_view(l: Seq<(Activity, usize)>) -> Seq<(Seq<char>, int)> {
    l.map_values(|p: (Activity, usize)| (p.0@, p.1 as int))
}

/// What the correlation scan reports, over the entry list it was given.
pub open spec fn spec_activity_stats_ok(views: Seq<EntryView>, a: ActivityStats) -> bool {
    let ranked = spec_ranked(views);
    let k = spec_quartile_count(views);
    let happy = spec_bucket(ranked, 0, k);
    let sad = spec_bucket(ranked, ranked.len() - k, ranked.len() as int);
    &&& spec_top_view(a.top_three_common_happy_activities@) == spec_top_three(happy)
    &&& spec_top_view(a.top_three_common_sad_activities@) == spec_top_three(sad)
    &&& a.average_rating_for_happy_activity_days.count == happy.len()
    &&& a.average_rating_for_happy_activity_days.total_centi == spec_rating_sum(happy)
    &&& a.average_rating_for_sad_activity_days.count == sad.len()
    &&& a.average_rating_for_sad_activity_days.total_centi == spec_rating_sum(sad)
    &&& a.day_stats_counted_happy == happy.len()
    &&& a.day_stats_counted_sad == sad.len()
}

// ---------------------------------------------------------------------------
// Facts about the ranking sort
// ---------------------------------------------------------------------------
/// Inserting adds one element; every element of the result is the new one
/// or came from the input.
pub proof fn lemma_insert_pair_elems(x: (int, EntryView), s: Seq<(int, EntryView)>)
    ensures
        spec_insert_pair(x, s).len() == s.len() + 1,
        forall|q: int|
            0 <= q < spec_insert_pair(x, s).len() ==> (#[trigger] spec_insert_pair(x, s)[q] == x
                || s.contains(spec_insert_pair(x, s)[q])),
    decreases s.len(),
{
    if s.len() != 0 && !spec_pair_before(x, s[0]) {
        lemma_insert_pair_elems(x, s.drop_first());
        assert forall|q: int|
            0 <= q < spec_insert_pair(x, s).len() implies (#[trigger] spec_insert_pair(x, s)[q]
            == x || s.contains(spec_insert_pair(x, s)[q])) by {
            if q > 0 {
                let y = spec_insert_pair(x, s)[q];
                assert(y == spec_insert_pair(x, s.drop_first())[q - 1]);
                if y != x {
                    let w = choose|w: int|
                        0 <= w < s.drop_first().len() && s.drop_first()[w] == y;
                    assert(s[w + 1] == y);
                }
            } else {
                assert(spec_insert_pair(x, s)[0] == s[0]);
            }
        }
    }
}

/// Sorting keeps the length, and every element of the result came from the
/// input.
pub proof fn lemma_sort_pairs_elems(s: Seq<(int, EntryView)>)
    ensures
        spec_sort_pairs(s).len() == s.len(),
        forall|q: int|
            0 <= q < spec_sort_pairs(s).len() ==> s.contains(#[trigger] spec_sort_pairs(s)[q]),
    decreases s.len(),
{
    if s.len() != 0 {
        lemma_sort_pairs_elems(s.drop_first());
        lemma_insert_pair_elems(s[0], spec_sort_pairs(s.drop_first()));
        assert forall|q: int|
            0 <= q < spec_sort_pairs(s).len() implies s.contains(
            #[trigger] spec_sort_pairs(s)[q],
        ) by {
            let y = spec_sort_pairs(s)[q];
            if y != s[0] {
                assert(spec_sort_pairs(s.drop_first()).contains(y));
                let w = choose|w: int|
                    0 <= w < spec_sort_pairs(s.drop_first()).len() && spec_sort_pairs(
                        s.drop_first(),
                    )[w] == y;
                let u = choose|u: int|
                    0 <= u < s.drop_first().len() && s.drop_first()[u] == y;
                assert(s[u + 1] == y);
            } else {
                assert(s[0] == y);
            }
        }
    }
}

/// Inserting skips past the rows that come before the new one.
pub proof fn lemma_insert_pair_skip(x: (int, EntryView), s: Seq<(int, EntryView)>, i: int)
    requires
        0 <= i <= s.len(),
        forall|j: int| 0 <= j < i ==> !spec_pair_before(x, #[trigger] s[j]),
    ensures
        spec_insert_pair(x, s) == s.subrange(0, i) + spec_insert_pair(x, s.skip(i)),
    decreases i,
{
    if i == 0 {
        assert(s.skip(0) =~= s);
        assert(s.subrange(0, 0) + spec_insert_pair(x, s) =~= spec_insert_pair(x, s));
    } else {
        lemma_insert_pair_skip(x, s.drop_first(), i - 1);
        assert(s.drop_first().skip(i - 1) =~= s.skip(i));
        assert(seq![s[0]] + (s.drop_first().subrange(0, i - 1) + spec_insert_pair(x, s.skip(i)))
            =~= s.subrange(0, i) + spec_insert_pair(x, s.skip(i)));
    }
}

/// Inserting a frequency row skips past the rows that come before it.
pub proof fn lemma_insert_freq_skip(x: (Seq<char>, int), s: Seq<(Seq<char>, int)>, i: int)
    requires
        0 <= i <= s.len(),
        forall|j: int| 0 <= j < i ==> !spec_freq_before(x, #[trigger] s[j]),
    ensures
        spec_insert_freq(x, s) == s.subrange(0, i) + spec_insert_freq(x, s.skip(i)),
    decreases i,
{
    if i == 0 {
        assert(s.skip(0) =~= s);
        assert(s.subrange(0, 0) + spec_insert_freq(x, s) =~= spec_insert_freq(x, s));
    } else {
        lemma_insert_freq_skip(x, s.drop_first(), i - 1);
        assert(s.drop_first().skip(i - 1) =~= s.skip(i));
        assert(seq![s[0]] + (s.drop_first().subrange(0, i - 1) + spec_insert_freq(x, s.skip(i)))
            =~= s.subrange(0, i) + spec_insert_freq(x, s.skip(i)));
    }
}

/// A row that strictly precedes another is not preceded by it.
proof fn lemma_freq_asym(a: (Seq<char>, int), b: (Seq<char>, int))
    requires
        spec_freq_before(a, b),
    ensures
        !spec_freq_before(b, a),
{
    lemma_lex_total(a.0, b.0);
}

/// Strict precedence is transitive.
proof fn lemma_freq_strict_trans(a: (Seq<char>, int), b: (Seq<char>, int), c: (Seq<char>, int))
    requires
        spec_freq_before(a, b),
        spec_freq_before(b, c),
    ensures
        spec_freq_before(a, c),
{
    if a.1 == b.1 && b.1 == c.1 {
        lemma_lex_trans(a.0, b.0, c.0);
    }
}

/// Inserting adds one row; every row of the result is the new one or came
/// from the input.
proof fn lemma_insert_freq_elems(x: (Seq<char>, int), s: Seq<(Seq<char>, int)>)
    ensures
        spec_insert_freq(x, s).len() == s.len() + 1,
        forall|q: int|
            0 <= q < spec_insert_freq(x, s).len() ==> (#[trigger] spec_insert_freq(x, s)[q] == x
                || s.contains(spec_insert_freq(x, s)[q])),
    decreases s.len(),
{
    if s.len() != 0 && !spec_freq_before(x, s[0]) {
        lemma_insert_freq_elems(x, s.drop_first());
        assert forall|q: int|
            0 <= q < spec_insert_freq(x, s).len() implies (#[trigger] spec_insert_freq(x, s)[q]
            == x || s.contains(spec_insert_freq(x, s)[q])) by {
            if q > 0 {
                let y = spec_insert_freq(x, s)[q];
                assert(y == spec_insert_freq(x, s.drop_first())[q - 1]);
                if y != x {
                    let w = choose|w: int|
                        0 <= w < s.drop_first().len() && s.drop_first()[w] == y;
                    assert(s[w + 1] == y);
                }
            } else {
                assert(spec_insert_freq(x, s)[0] == s[0]);
            }
        }
    }
}

/// Inserting a row keeps the report order: no later row strictly precedes
/// an earlier one.
proof fn lemma_insert_freq_keeps_order(x: (Seq<char>, int), s: Seq<(Seq<char>, int)>)
    requires
        forall|a: int, b: int|
            0 <= a < b < s.len() ==> !spec_freq_before(#[trigger] s[b], #[trigger] s[a]),
    ensures
        spec_insert_freq(x, s).len() == s.len() + 1,
        forall|a: int, b: int|
            0 <= a < b < spec_insert_freq(x, s).len() ==> !spec_freq_before(
                #[trigger] spec_insert_freq(x, s)[b],
                #[trigger] spec_insert_freq(x, s)[a],
            ),
    decreases s.len(),
{
    lemma_insert_freq_elems(x, s);
    let r = spec_insert_freq(x, s);
    if s.len() == 0 {
    } else if spec_freq_before(x, s[0]) {
        assert forall|a: int, b: int| 0 <= a < b < r.len() implies !spec_freq_before(
            #[trigger] r[b],
            #[trigger] r[a],
        ) by {
            if a == 0 {
                assert(r[0] == x);
                assert(r[b] == s[b - 1]);
                if b == 1 {
                    lemma_freq_asym(x, s[0]);
                } else {
                    if spec_freq_before(s[b - 1], x) {
                        lemma_freq_strict_trans(s[b - 1], x, s[0]);
                        assert(!spec_freq_before(s[b - 1], s[0]));
                    }
                }
            } else {
                assert(r[a] == s[a - 1]);
                assert(r[b] == s[b - 1]);
            }
        }
    } else {
        assert(forall|a: int, b: int|
            0 <= a < b < s.drop_first().len() ==> !spec_freq_before(
                #[trigger] s.drop_first()[b],
                #[trigger] s.drop_first()[a],
            )) by {
            assert forall|a: int, b: int|
                0 <= a < b < s.drop_first().len() implies !spec_freq_before(
                #[trigger] s.drop_first()[b],
                #[trigger] s.drop_first()[a],
            ) by {
                assert(!spec_freq_before(s[b + 1], s[a + 1]));
            }
        }
        lemma_insert_freq_keeps_order(x, s.drop_first());
        lemma_insert_freq_elems(x, s.drop_first());
        let ri = spec_insert_freq(x, s.drop_first());
        assert forall|a: int, b: int| 0 <= a < b < r.len() implies !spec_freq_before(
            #[trigger] r[b],
            #[trigger] r[a],
        ) by {
            if a == 0 {
                assert(r[0] == s[0]);
                assert(r[b] == ri[b - 1]);
                let y = ri[b - 1];
                if y == x {
                } else {
                    assert(s.drop_first().contains(y));
                    let w = choose|w: int|
                        0 <= w < s.drop_first().len() && s.drop_first()[w] == y;
                    assert(s[w + 1] == y);
                    assert(!spec_freq_before(s[w + 1], s[0]));
                }
            } else {
                assert(r[a] == ri[a - 1]);
                assert(r[b] == ri[b - 1]);
            }
        }
    }
}

/// The reported top three are in report order: counts never rise along the
/// list, and equal counts are in name order. This is why the report is the
/// same on every run of the same input.
pub proof fn lemma_top_three_ordered(names: Seq<Seq<char>>)
    ensures
        forall|a: int, b: int|
            0 <= a < b < spec_top_three_names(names).len() ==> !spec_freq_before(
                #[trigger] spec_top_three_names(names)[b],
                #[trigger] spec_top_three_names(names)[a],
            ),
{
    lemma_sort_freq_ordered(spec_freq_table(names));
    let sorted = spec_sort_freq(spec_freq_table(names));
    let top = spec_top_three_names(names);
    assert forall|a: int, b: int| 0 <= a < b < top.len() implies !spec_freq_before(
        #[trigger] top[b],
        #[trigger] top[a],
    ) by {
        assert(top[a] == sorted[a]);
        assert(top[b] == sorted[b]);
    }
}

/// A sorted frequency list is in report order.
proof fn lemma_sort_freq_ordered(s: Seq<(Seq<char>, int)>)
    ensures
        spec_sort_freq(s).len() == s.len(),
        forall|a: int, b: int|
            0 <= a < b < spec_sort_freq(s).len() ==> !spec_freq_before(
                #[trigger] spec_sort_freq(s)[b],
                #[trigger] spec_sort_freq(s)[a],
            ),
    decreases s.len(),
{
    if s.len() != 0 {
        lemma_sort_freq_ordered(s.drop_first());
        lemma_insert_freq_keeps_order(s[0], spec_sort_freq(s.drop_first()));
    }
}

// ---------------------------------------------------------------------------
// Executable pieces
// ---------------------------------------------------------------------------
/// View of a ranked-pair vector.
pub open spec fn spec_pairs_view(v: Seq<(usize, ImprovedDayStat)>) -> Seq<(int, EntryView)> {
    v.map_values(|p: (usize, ImprovedDayStat)| (p.0 as int, p.1@))
}

/// View of a name-list vector.
pub open spec fn spec_names_view(v: Seq<Vec<char>>) -> Seq<Seq<char>> {
    v.map_values(|c: Vec<char>| c@)
}

/// View of a frequency-row vector.
pub open spec fn spec_freq_view(v: Seq<(Vec<char>, usize)>) -> Seq<(Seq<char>, int)> {
    v.map_values(|p: (Vec<char>, usize)| (p.0@, p.1 as int))
}

/// Ranking order between two positioned entries.
fn pair_before(ap: usize, a: &ImprovedDayStat, bp: usize, b: &ImprovedDayStat) -> (r: bool)
    ensures
        r == spec_pair_before((ap as int, a@), (bp as int, b@)),
{
    a.get_rating() > b.get_rating() || (a.get_rating() == b.get_rating() && ap < bp)
}

/// Inserts one positioned entry at its ranked place.
fn insert_pair(acc: &mut Vec<(usize, ImprovedDayStat)>, pos: usize, e: ImprovedDayStat)
    ensures
        spec_pairs_view(final(acc)@) == spec_insert_pair(
            (pos as int, e@),
            spec_pairs_view(old(acc)@),
        ),
{
    let ghost xv = (pos as int, e@);
    let ghost s = spec_pairs_view(old(acc)@);
    let n = acc.len();
    let mut i: usize = 0;
    while i < n
        invariant
            n == acc@.len(),
            i <= n,
            acc@ == old(acc)@,
            s == spec_pairs_view(old(acc)@),
            xv == (pos as int, e@),
            forall|j: int| 0 <= j < i ==> !spec_pair_before(xv, #[trigger] s[j]),
        decreases n - i,
    {
        proof {
            assert(s[i as int] == (acc@[i as int].0 as int, acc@[i as int].1@));
        }
        if pair_before(pos, &e, acc[i].0, &acc[i].1) {
            proof {
                lemma_insert_pair_skip(xv, s, i as int);
                assert(s.skip(i as int)[0] == s[i as int]);
            }
            acc.insert(i, (pos, e));
            proof {
                let mapped = spec_pairs_view(acc@);
                let target = s.subrange(0, i as int) + (seq![xv] + s.skip(i as int));
                assert(s.len() == old(acc)@.len());
                assert(mapped.len() == acc@.len());
                assert forall|q: int| 0 <= q < mapped.len() implies #[trigger] mapped[q]
                    == target[q] by {
                    assert(mapped[q] == (acc@[q].0 as int, acc@[q].1@));
                    if q < i {
                        assert(acc@[q] == old(acc)@[q]);
                        assert(s[q] == (old(acc)@[q].0 as int, old(acc)@[q].1@));
                    } else if q > i {
                        assert(acc@[q] == old(acc)@[q - 1]);
                        assert(s[q - 1] == (old(acc)@[q - 1].0 as int, old(acc)@[q - 1].1@));
                        assert(s.skip(i as int)[q - i - 1] == s[q - 1]);
                    }
                }
                assert(mapped =~= target);
            }
            return ;
        }
        i = i + 1;
    }
    proof {
        lemma_insert_pair_skip(xv, s, n as int);
        assert(s.skip(n as int) =~= Seq::<(int, EntryView)>::empty());
    }
    acc.push((pos, e));
    proof {
        let mapped = spec_pairs_view(acc@);
        let target = s.subrange(0, n as int) + seq![xv];
        assert(s.len() == old(acc)@.len());
        assert(mapped.len() == acc@.len());
        assert forall|q: int| 0 <= q < mapped.len() implies #[trigger] mapped[q] == target[q] by {
            assert(mapped[q] == (acc@[q].0 as int, acc@[q].1@));
            if q < n {
                assert(acc@[q] == old(acc)@[q]);
                assert(s[q] == (old(acc)@[q].0 as int, old(acc)@[q].1@));
            }
        }
        assert(mapped =~= target);
        assert(s.subrange(0, n as int) =~= s);
    }
}

/// Sorts the positioned entries, best rating first, earlier position first
/// on ties.
fn rank_pairs(pairs: &Vec<(usize, ImprovedDayStat)>) -> (r: Vec<(usize, ImprovedDayStat)>)
    ensures
        spec_pairs_view(r@) == spec_sort_pairs(spec_pairs_view(pairs@)),
{
    let ghost s = spec_pairs_view(pairs@);
    let mut acc: Vec<(usize, ImprovedDayStat)> = Vec::new();
    let mut i: usize = pairs.len();
    proof {
        assert(s.skip(i as int) =~= Seq::<(int, EntryView)>::empty());
        assert(spec_pairs_view(acc@) =~= Seq::<(int, EntryView)>::empty());
    }
    while i > 0
        invariant
            s == spec_pairs_view(pairs@),
            i <= pairs@.len(),
            spec_pairs_view(acc@) == spec_sort_pairs(s.skip(i as int)),
        decreases i,
    {
        i = i - 1;
        proof {
            assert(s[i as int] == (pairs@[i as int].0 as int, pairs@[i as int].1@));
            assert(s.skip(i as int)[0] == s[i as int]);
            assert(s.skip(i as int).drop_first() =~= s.skip(i + 1));
        }
        insert_pair(&mut acc, pairs[i].0, pairs[i].1.clone());
    }
    proof {
        assert(s.skip(0) =~= s);
    }
    acc
}

/// Copies a character vector.
fn copy_chars(v: &Vec<char>) -> (r: Vec<char>)
    ensures
        r@ == v@,
{
    let mut out: Vec<char> = Vec::new();
    let mut i: usize = 0;
    while i < v.len()
        invariant
            i <= v@.len(),
            out@ == v@.subrange(0, i as int),
        decreases v@.len() - i,
    {
        out.push(v[i]);
        proof {
            assert(out@ =~= v@.subrange(0, i + 1));
        }
        i = i + 1;
    }
    proof {
        assert(v@.subrange(0, v@.len() as int) =~= v@);
    }
    out
}

/// All activity names of the ranked slice `[start, end)`, entry by entry.
fn flat_names_range(sorted: &Vec<(usize, ImprovedDayStat)>, start: usize, end: usize) -> (r: Vec<
    Vec<char>,
>)
    requires
        start <= end <= sorted@.len(),
    ensures
        spec_names_view(r@) == spec_flat_names(
            spec_bucket(spec_pairs_view(sorted@), start as int, end as int),
        ),
{
    let ghost rv = spec_pairs_view(sorted@);
    let mut out: Vec<Vec<char>> = Vec::new();
    proof {
        assert(spec_bucket(rv, start as int, start as int) =~= Seq::<EntryView>::empty());
        assert(spec_names_view(out@) =~= Seq::<Seq<char>>::empty());
    }
    let mut i: usize = start;
    while i < end
        invariant
            start <= i <= end <= sorted@.len(),
            rv == spec_pairs_view(sorted@),
            spec_names_view(out@) == spec_flat_names(spec_bucket(rv, start as int, i as int)),
        decreases end - i,
    {
        let ghost before_entry = spec_names_view(out@);
        let acts = sorted[i].1.get_activities();
        let ghost acts_names = acts@.map_values(|a: Activity| a@);
        let mut a: usize = 0;
        while a < acts.len()
            invariant
                a <= acts@.len(),
                acts_names == acts@.map_values(|x: Activity| x@),
                spec_names_view(out@) == before_entry + acts_names.subrange(0, a as int),
            decreases acts@.len() - a,
        {
            let ghost prev = out@;
            let name = chars_of(acts[a].get_activity_name());
            out.push(name);
            proof {
                let mapped = spec_names_view(out@);
                let target = before_entry + acts_names.subrange(0, a + 1);
                assert(acts_names[a as int] == acts@[a as int]@);
                assert(spec_names_view(prev).len() == prev.len());
                assert(mapped.len() == out@.len());
                assert forall|q: int| 0 <= q < mapped.len() implies #[trigger] mapped[q]
                    == target[q] by {
                    assert(mapped[q] == out@[q]@);
                    if q < prev.len() {
                        assert(out@[q] == prev[q]);
                        assert(spec_names_view(prev)[q] == prev[q]@);
                    }
                }
                assert(mapped =~= target);
            }
            a = a + 1;
        }
        proof {
            assert(rv[i as int].1 == sorted@[i as int].1@);
            assert(acts_names.subrange(0, acts_names.len() as int) =~= acts_names);
            assert(acts_names =~= rv[i as int].1.activities);
            let b1 = spec_bucket(rv, start as int, i + 1);
            assert(b1.drop_last() =~= spec_bucket(rv, start as int, i as int));
            assert(b1.last() == rv[i as int].1);
            assert(spec_names_view(out@) =~= spec_flat_names(b1));
        }
        i = i + 1;
    }
    out
}

/// True when the list holds this name.
fn contains_name(list: &Vec<Vec<char>>, name: &Vec<char>) -> (r: bool)
    ensures
        r == spec_names_view(list@).contains(name@),
{
    let mut i: usize = 0;
    while i < list.len()
        invariant
            i <= list@.len(),
            forall|j: int| 0 <= j < i ==> spec_names_view(list@)[j] != name@,
        decreases list@.len() - i,
    {
        let c = lex_cmp_chars(&list[i], name);
        proof {
            assert(spec_names_view(list@)[i as int] == list@[i as int]@);
        }
        if c == 0 {
            return true;
        }
        i = i + 1;
    }
    proof {
        assert(!spec_names_view(list@).contains(name@)) by {
            if spec_names_view(list@).contains(name@) {
                let j = choose|j: int|
                    0 <= j < spec_names_view(list@).len() && spec_names_view(list@)[j] == name@;
            }
        }
    }
    false
}

/// How often a name occurs in a name list.
fn count_name(list: &Vec<Vec<char>>, name: &Vec<char>) -> (r: usize)
    ensures
        r as int == spec_count_name(spec_names_view(list@), name@),
{
    let ghost names = spec_names_view(list@);
    let mut count: usize = 0;
    let mut i: usize = 0;
    proof {
        assert(names.subrange(0, 0) =~= Seq::<Seq<char>>::empty());
    }
    while i < list.len()
        invariant
            names == spec_names_view(list@),
            i <= list@.len(),
            count as int == spec_count_name(names.subrange(0, i as int), name@),
            count <= i,
        decreases list@.len() - i,
    {
        let c = lex_cmp_chars(&list[i], name);
        proof {
            assert(names[i as int] == list@[i as int]@);
            assert(names.subrange(0, i + 1).drop_last() =~= names.subrange(0, i as int));
            assert(names.subrange(0, i + 1).last() == names[i as int]);
        }
        if c == 0 {
            count = count + 1;
        }
        i = i + 1;
    }
    proof {
        assert(names.subrange(0, names.len() as int) =~= names);
    }
    count
}

/// The distinct names of a list, in order of first occurrence.
fn firsts_of(list: &Vec<Vec<char>>) -> (r: Vec<Vec<char>>)
    ensures
        spec_names_view(r@) == spec_firsts(spec_names_view(list@)),
{
    let ghost names = spec_names_view(list@);
    let mut out: Vec<Vec<char>> = Vec::new();
    proof {
        assert(names.subrange(0, 0) =~= Seq::<Seq<char>>::empty());
        assert(spec_names_view(out@) =~= Seq::<Seq<char>>::empty());
    }
    let mut i: usize = 0;
    while i < list.len()
        invariant
            names == spec_names_view(list@),
            i <= list@.len(),
            spec_names_view(out@) == spec_firsts(names.subrange(0, i as int)),
        decreases list@.len() - i,
    {
        let ghost prev = out@;
        let seen = contains_name(&out, &list[i]);
        proof {
            assert(names[i as int] == list@[i as int]@);
            assert(names.subrange(0, i + 1).drop_last() =~= names.subrange(0, i as int));
            assert(names.subrange(0, i + 1).last() == names[i as int]);
        }
        if !seen {
            out.push(copy_chars(&list[i]));
            proof {
                let mapped = spec_names_view(out@);
                let target = spec_firsts(names.subrange(0, i as int)).push(names[i as int]);
                assert(spec_names_view(prev).len() == prev.len());
                assert(mapped.len() == out@.len());
                assert forall|q: int| 0 <= q < mapped.len() implies #[trigger] mapped[q]
                    == target[q] by {
                    assert(mapped[q] == out@[q]@);
                    if q < prev.len() {
                        assert(out@[q] == prev[q]);
                        assert(spec_names_view(prev)[q] == prev[q]@);
                    }
                }
                assert(mapped =~= target);
            }
        }
        i = i + 1;
    }
    proof {
        assert(names.subrange(0, names.len() as int) =~= names);
    }
    out
}

/// Report order between two frequency rows.
fn freq_before(an: &Vec<char>, ac: usize, bn: &Vec<char>, bc: usize) -> (r: bool)
    ensures
        r == spec_freq_before((an@, ac as int), (bn@, bc as int)),
{
    if ac > bc {
        true
    } else if ac == bc {
        let c = lex_cmp_chars(an, bn);
        c == -1
    } else {
        false
    }
}

/// Inserts one frequency row at its report place.
fn insert_freq(acc: &mut Vec<(Vec<char>, usize)>, name: Vec<char>, count: usize)
    ensures
        spec_freq_view(final(acc)@) == spec_insert_freq(
            (name@, count as int),
            spec_freq_view(old(acc)@),
        ),
{
    let ghost xv = (name@, count as int);
    let ghost s = spec_freq_view(old(acc)@);
    let n = acc.len();
    let mut i: usize = 0;
    while i < n
        invariant
            n == acc@.len(),
            i <= n,
            acc@ == old(acc)@,
            s == spec_freq_view(old(acc)@),
            xv == (name@, count as int),
            forall|j: int| 0 <= j < i ==> !spec_freq_before(xv, #[trigger] s[j]),
        decreases n - i,
    {
        proof {
            assert(s[i as int] == (acc@[i as int].0@, acc@[i as int].1 as int));
        }
        if freq_before(&name, count, &acc[i].0, acc[i].1) {
            proof {
                lemma_insert_freq_skip(xv, s, i as int);
                assert(s.skip(i as int)[0] == s[i as int]);
            }
            acc.insert(i, (name, count));
            proof {
                let mapped = spec_freq_view(acc@);
                let target = s.subrange(0, i as int) + (seq![xv] + s.skip(i as int));
                assert(s.len() == old(acc)@.len());
                assert(mapped.len() == acc@.len());
                assert forall|q: int| 0 <= q < mapped.len() implies #[trigger] mapped[q]
                    == target[q] by {
                    assert(mapped[q] == (acc@[q].0@, acc@[q].1 as int));
                    if q < i {
                        assert(acc@[q] == old(acc)@[q]);
                        assert(s[q] == (old(acc)@[q].0@, old(acc)@[q].1 as int));
                    } else if q > i {
                        assert(acc@[q] == old(acc)@[q - 1]);
                        assert(s[q - 1] == (old(acc)@[q - 1].0@, old(acc)@[q - 1].1 as int));
                        assert(s.skip(i as int)[q - i - 1] == s[q - 1]);
                    }
                }
                assert(mapped =~= target);
            }
            return ;
        }
        i = i + 1;
    }
    proof {
        lemma_insert_freq_skip(xv, s, n as int);
        assert(s.skip(n as int) =~= Seq::<(Seq<char>, int)>::empty());
    }
    acc.push((name, count));
    proof {
        let mapped = spec_freq_view(acc@);
        let target = s.subrange(0, n as int) + seq![xv];
        assert(s.len() == old(acc)@.len());
        assert(mapped.len() == acc@.len());
        assert forall|q: int| 0 <= q < mapped.len() implies #[trigger] mapped[q] == target[q] by {
            assert(mapped[q] == (acc@[q].0@, acc@[q].1 as int));
            if q < n {
                assert(acc@[q] == old(acc)@[q]);
                assert(s[q] == (old(acc)@[q].0@, old(acc)@[q].1 as int));
            }
        }
        assert(mapped =~= target);
        assert(s.subrange(0, n as int) =~= s);
    }
}

/// Sorts frequency rows into report order.
fn sort_freq(rows: Vec<(Vec<char>, usize)>) -> (r: Vec<(Vec<char>, usize)>)
    ensures
        spec_freq_view(r@) == spec_sort_freq(spec_freq_view(rows@)),
{
    let ghost s = spec_freq_view(rows@);
    let mut acc: Vec<(Vec<char>, usize)> = Vec::new();
    let mut i: usize = rows.len();
    proof {
        assert(s.skip(i as int) =~= Seq::<(Seq<char>, int)>::empty());
        assert(spec_freq_view(acc@) =~= Seq::<(Seq<char>, int)>::empty());
    }
    while i > 0
        invariant
            s == spec_freq_view(rows@),
            i <= rows@.len(),
            spec_freq_view(acc@) == spec_sort_freq(s.skip(i as int)),
        decreases i,
    {
        i = i - 1;
        proof {
            assert(s[i as int] == (rows@[i as int].0@, rows@[i as int].1 as int));
            assert(s.skip(i as int)[0] == s[i as int]);
            assert(s.skip(i as int).drop_first() =~= s.skip(i + 1));
        }
        insert_freq(&mut acc, copy_chars(&rows[i].0), rows[i].1);
    }
    proof {
        assert(s.skip(0) =~= s);
    }
    acc
}

/// The three most frequent names of a name list, with counts, most
/// frequent first, ties broken by name.
fn top_three_of(flat: &Vec<Vec<char>>) -> (r: Vec<(Activity, usize)>)
    ensures
        spec_top_view(r@) == spec_top_three_names(spec_names_view(flat@)),
{
    let ghost names = spec_names_view(flat@);
    let firsts = firsts_of(flat);
    let mut rows: Vec<(Vec<char>, usize)> = Vec::new();
    let mut i: usize = 0;
    while i < firsts.len()
        invariant
            spec_names_view(firsts@) == spec_firsts(names),
            names == spec_names_view(flat@),
            i <= firsts@.len(),
            spec_freq_view(rows@) == spec_freq_table(names).subrange(0, i as int),
        decreases firsts@.len() - i,
    {
        let ghost prev = rows@;
        let c = count_name(flat, &firsts[i]);
        rows.push((copy_chars(&firsts[i]), c));
        proof {
            assert(spec_names_view(firsts@)[i as int] == firsts@[i as int]@);
            let mapped = spec_freq_view(rows@);
            let target = spec_freq_table(names).subrange(0, i + 1);
            assert(spec_freq_view(prev).len() == prev.len());
            assert(mapped.len() == rows@.len());
            assert(spec_freq_table(names).len() == spec_firsts(names).len());
            assert(spec_names_view(firsts@).len() == firsts@.len());
            assert forall|q: int| 0 <= q < mapped.len() implies #[trigger] mapped[q]
                == target[q] by {
                assert(mapped[q] == (rows@[q].0@, rows@[q].1 as int));
                assert(spec_freq_table(names)[q] == (
                    spec_firsts(names)[q],
                    spec_count_name(names, spec_firsts(names)[q]),
                ));
                if q < prev.len() {
                    assert(rows@[q] == prev[q]);
                    assert(spec_freq_view(prev)[q] == (prev[q].0@, prev[q].1 as int));
                    assert(spec_freq_table(names).subrange(0, i as int)[q] == spec_freq_table(
                        names,
                    )[q]);
                } else {
                    assert(spec_freq_table(names)[q] == (
                        spec_firsts(names)[q],
                        spec_count_name(names, spec_firsts(names)[q]),
                    ));
                }
            }
            assert(mapped =~= target);
        }
        i = i + 1;
    }
    proof {
        assert(spec_freq_table(names).subrange(0, spec_freq_table(names).len() as int)
            =~= spec_freq_table(names));
        assert(spec_freq_view(rows@) =~= spec_freq_table(names));
    }
    let mut sorted = sort_freq(rows);
    let ghost sorted_spec = spec_sort_freq(spec_freq_table(names));
    if sorted.len() > 3 {
        sorted.truncate(3);
        proof {
            assert(spec_freq_view(sorted@) =~= sorted_spec.take(3));
        }
    }
    let mut out: Vec<(Activity, usize)> = Vec::new();
    let ghost goal = spec_top_three_names(names);
    let mut j: usize = 0;
    while j < sorted.len()
        invariant
            spec_freq_view(sorted@) == goal,
            j <= sorted@.len(),
            spec_top_view(out@) == goal.subrange(0, j as int),
        decreases sorted@.len() - j,
    {
        let ghost prev = out@;
        let text = string_from_chars(&sorted[j].0);
        out.push((Activity::new(text.as_str()), sorted[j].1));
        proof {
            assert(spec_freq_view(sorted@)[j as int] == (sorted@[j as int].0@, sorted@[j as int].1
                as int));
            let mapped = spec_top_view(out@);
            let target = goal.subrange(0, j + 1);
            assert(spec_top_view(prev).len() == prev.len());
            assert(mapped.len() == out@.len());
            assert(goal.len() == spec_freq_view(sorted@).len());
            assert forall|q: int| 0 <= q < mapped.len() implies #[trigger] mapped[q]
                == target[q] by {
                assert(mapped[q] == (out@[q].0@, out@[q].1 as int));
                if q < prev.len() {
                    assert(out@[q] == prev[q]);
                    assert(spec_top_view(prev)[q] == (prev[q].0@, prev[q].1 as int));
                }
            }
            assert(mapped =~= target);
        }
        j = j + 1;
    }
    proof {
        assert(goal.subrange(0, goal.len() as int) =~= goal);
    }
    out
}

/// Sum of the ratings of the ranked slice `[start, end)`, in hundredths.
fn rating_sum_range(sorted: &Vec<(usize, ImprovedDayStat)>, start: usize, end: usize) -> (r: i128)
    requires
        start <= end <= sorted@.len(),
        forall|q: int|
            0 <= q < sorted@.len() ==> spec_entry_bounded(#[trigger] sorted@[q].1@),
    ensures
        r as int == spec_rating_sum(spec_bucket(spec_pairs_view(sorted@), start as int, end as int)),
{
    let ghost rv = spec_pairs_view(sorted@);
    let mut total: i128 = 0;
    proof {
        assert(spec_bucket(rv, start as int, start as int) =~= Seq::<EntryView>::empty());
    }
    let mut i: usize = start;
    while i < end
        invariant
            start <= i <= end <= sorted@.len(),
            rv == spec_pairs_view(sorted@),
            forall|q: int|
                0 <= q < sorted@.len() ==> spec_entry_bounded(#[trigger] sorted@[q].1@),
            total == spec_rating_sum(spec_bucket(rv, start as int, i as int)),
            -0x1000000000000000 * ((i - start) as int) <= total <= 0x1000000000000000 * ((i
                - start) as int),
        decreases end - i,
    {
        let rating = sorted[i].1.get_rating();
        proof {
            assert(rv[i as int].1 == sorted@[i as int].1@);
            let b1 = spec_bucket(rv, start as int, i + 1);
            assert(b1.drop_last() =~= spec_bucket(rv, start as int, i as int));
            assert(b1.last() == rv[i as int].1);
        }
        total = total + (rating as i128);
        i = i + 1;
    }
    total
}

/// Entries of `spec_with_acts` stay bounded when the whole list is.
proof fn lemma_with_acts_bounded(views: Seq<EntryView>)
    requires
        forall|k: int| 0 <= k < views.len() ==> spec_entry_bounded(#[trigger] views[k]),
    ensures
        forall|k: int|
            0 <= k < spec_with_acts(views).len() ==> spec_entry_bounded(
                #[trigger] spec_with_acts(views)[k],
            ),
    decreases views.len(),
{
    reveal(Seq::filter);
    if views.len() > 0 {
        assert(forall|k: int|
            0 <= k < views.drop_last().len() ==> spec_entry_bounded(
                #[trigger] views.drop_last()[k],
            ));
        lemma_with_acts_bounded(views.drop_last());
        assert(spec_with_acts(views.drop_last()) == views.drop_last().filter(
            |e: EntryView| spec_has_acts(e),
        ));
    }
}

/// Computes the activity correlation of the entry list: ranks the entries
/// with activities by rating, takes the top and bottom quarters, and
/// reports each bucket's three most frequent activities and its exact mean
/// rating.
pub fn calc_activity_stats(days: &Vec<ImprovedDayStat>) -> (r: ActivityStats)
    requires
        forall|k: int| 0 <= k < days@.len() ==> spec_entry_bounded(#[trigger] days@[k]@),
    ensures
        spec_activity_stats_ok(days@.map_values(|d: ImprovedDayStat| d@), r),
{
    let ghost views = days@.map_values(|d: ImprovedDayStat| d@);
    let ghost sub = spec_with_acts(views);
    // collect the entries that have activities, with their positions
    let mut pairs: Vec<(usize, ImprovedDayStat)> = Vec::new();
    proof {
        reveal(Seq::filter);
        assert(views.subrange(0, 0).filter(|e: EntryView| spec_has_acts(e)) =~= Seq::<
            EntryView,
        >::empty());
        assert(spec_pairs_view(pairs@) =~= Seq::<(int, EntryView)>::empty());
    }
    let mut i: usize = 0;
    while i < days.len()
        invariant
            forall|k: int| 0 <= k < days@.len() ==> spec_entry_bounded(#[trigger] days@[k]@),
            views == days@.map_values(|d: ImprovedDayStat| d@),
            i <= days@.len(),
            pairs@.len() == views.subrange(0, i as int).filter(
                |e: EntryView| spec_has_acts(e),
            ).len(),
            spec_pairs_view(pairs@) == Seq::new(
                views.subrange(0, i as int).filter(|e: EntryView| spec_has_acts(e)).len(),
                |q: int|
                    (q, views.subrange(0, i as int).filter(|e: EntryView| spec_has_acts(e))[q]),
            ),
        decreases days@.len() - i,
    {
        let ghost prefix = views.subrange(0, i as int);
        let ghost fprefix = prefix.filter(|e: EntryView| spec_has_acts(e));
        let has = days[i].get_activities().len() > 0;
        proof {
            reveal(Seq::filter);
            assert(views[i as int] == days@[i as int]@);
            assert(views.subrange(0, i + 1).drop_last() =~= prefix);
            assert(views.subrange(0, i + 1).last() == views[i as int]);
        }
        if has {
            let ghost prev = pairs@;
            let pos = pairs.len();
            pairs.push((pos, days[i].clone()));
            proof {
                let f1 = views.subrange(0, i + 1).filter(|e: EntryView| spec_has_acts(e));
                assert(f1 =~= fprefix.push(views[i as int]));
                let mapped = spec_pairs_view(pairs@);
                let target = Seq::new(f1.len(), |q: int| (q, f1[q]));
                assert(spec_pairs_view(prev).len() == prev.len());
                assert(mapped.len() == pairs@.len());
                assert forall|q: int| 0 <= q < mapped.len() implies #[trigger] mapped[q]
                    == target[q] by {
                    assert(mapped[q] == (pairs@[q].0 as int, pairs@[q].1@));
                    if q < prev.len() {
                        assert(pairs@[q] == prev[q]);
                        assert(spec_pairs_view(prev)[q] == (prev[q].0 as int, prev[q].1@));
                        assert(f1[q] == fprefix[q]);
                    }
                }
                assert(mapped =~= target);
            }
        } else {
            proof {
                assert(views.subrange(0, i + 1).filter(|e: EntryView| spec_has_acts(e))
                    =~= fprefix);
            }
        }
        i = i + 1;
    }
    proof {
        assert(views.subrange(0, views.len() as int) =~= views);
        assert(spec_pairs_view(pairs@) =~= spec_indexed_sub(views));
    }
    // rank by rating, best first
    let sorted = rank_pairs(&pairs);
    proof {
        lemma_sort_pairs_elems(spec_indexed_sub(views));
        lemma_with_acts_bounded(views);
        assert forall|q: int|
            0 <= q < sorted@.len() implies spec_entry_bounded(#[trigger] sorted@[q].1@) by {
            assert(spec_pairs_view(sorted@)[q] == (sorted@[q].0 as int, sorted@[q].1@));
            let y = spec_pairs_view(sorted@)[q];
            assert(spec_indexed_sub(views).contains(y));
            let w = choose|w: int|
                0 <= w < spec_indexed_sub(views).len() && spec_indexed_sub(views)[w] == y;
            assert(spec_indexed_sub(views)[w] == (w, sub[w]));
        }
    }
    // bucket size: a quarter of the whole list, capped by the sub-population
    let q4 = days.len() / 4;
    let k = if q4 <= sorted.len() {
        q4
    } else {
        sorted.len()
    };
    proof {
        assert(spec_pairs_view(sorted@).len() == sorted@.len());
        assert(spec_indexed_sub(views).len() == sub.len());
        assert(k as int == spec_quartile_count(views));
    }
    let ghost ranked = spec_ranked(views);
    let ghost happy = spec_bucket(ranked, 0, k as int);
    let ghost sad = spec_bucket(ranked, ranked.len() - k as int, ranked.len() as int);
    let happy_flat = flat_names_range(&sorted, 0, k);
    let sad_flat = flat_names_range(&sorted, sorted.len() - k, sorted.len());
    let happy_top = top_three_of(&happy_flat);
    let sad_top = top_three_of(&sad_flat);
    let happy_sum = rating_sum_range(&sorted, 0, k);
    let sad_sum = rating_sum_range(&sorted, sorted.len() - k, sorted.len());
    proof {
        assert(happy.len() == k as int);
        assert(sad.len() == k as int);
    }
    ActivityStats {
        top_three_common_happy_activities: happy_top,
        top_three_common_sad_activities: sad_top,
        average_rating_for_happy_activity_days: DayAverage {
            total_centi: happy_sum,
            count: k,
        },
        average_rating_for_sad_activity_days: DayAverage { total_centi: sad_sum, count: k },
        day_stats_counted_happy: k,
        day_stats_counted_sad: k,
    }
}

impl ActivityStats {
    /// An empty correlation: no buckets, undefined means.
    pub fn new() -> (r: Self)
        ensures
            r.top_three_common_happy_activities@.len() == 0,
            r.top_three_common_sad_activities@.len() == 0,
            r.average_rating_for_happy_activity_days.count == 0,
            r.average_rating_for_sad_activity_days.count == 0,
            r.day_stats_counted_happy == 0,
            r.day_stats_counted_sad == 0,
    {
        ActivityStats {
            top_three_common_happy_activities: Vec::new(),
            top_three_common_sad_activities: Vec::new(),
            average_rating_for_happy_activity_days: DayAverage::empty(),
            average_rating_for_sad_activity_days: DayAverage::empty(),
            day_stats_counted_happy: 0,
            day_stats_counted_sad: 0,
        }
    }
}

} // verus!
