//! Backup naming and retention: archives are named by calendar date with a
//! marker for manual ones, and old automatic backups are pruned only when
//! there is a surplus over the configured keep count. Manual backups are
//! never pruned; callers do the file handling and hand plain names and
//! timestamps in.
use vstd::prelude::*;

use crate::json::{push_chars, push_dec_i64, spec_dec_int};
use crate::text::{chars_of, spec_contains, contains_chars, string_from_chars};

verus! {

/// Leading part of every backup archive's name.
pub fn backup_filename_prefix() -> (r: &'static str)
    ensures
        r@ == "happy_chart_backup_"@,
{
    "happy_chart_backup_"
}

/// Marker inside the name of a manually requested backup.
pub fn manual_backup_suffix() -> (r: &'static str)
    ensures
        r@ == "_manual"@,
{
    "_manual"
}

/// Extension of every backup archive's name.
pub fn backup_file_extension() -> (r: &'static str)
    ensures
        r@ == "zip"@,
{
    "zip"
}

/// The archive name for a backup taken on the given calendar date.
pub open spec fn spec_backup_file_name(month: int, day: int, year: int, is_manual: bool) -> Seq<
    char,
> {
    "happy_chart_backup_"@ + spec_dec_int(month) + seq!['-'] + spec_dec_int(day) + seq!['-']
        + spec_dec_int(year) + (if is_manual {
        "_manual"@
    } else {
        Seq::<char>::empty()
    }) + seq!['.'] + "zip"@
}

/// Builds the archive name for a backup taken on the given calendar date.
pub fn get_backup_file_name(month: u32, day: u32, year: i32, is_manual: bool) -> (r: String)
    ensures
        r@ == spec_backup_file_name(month as int, day as int, year as int, is_manual),
{
    let prefix = chars_of(backup_filename_prefix());
    let manual = chars_of(manual_backup_suffix());
    let ext = chars_of(backup_file_extension());
    let mut buf: Vec<char> = Vec::new();
    push_chars(&mut buf, &prefix);
    push_dec_i64(&mut buf, month as i64);
    buf.push('-');
    push_dec_i64(&mut buf, day as i64);
    buf.push('-');
    push_dec_i64(&mut buf, year as i64);
    if is_manual {
        push_chars(&mut buf, &manual);
    }
    buf.push('.');
    push_chars(&mut buf, &ext);
    proof {
        assert(buf@ =~= spec_backup_file_name(month as int, day as int, year as int, is_manual));
    }
    string_from_chars(&buf)
}

/// One existing backup archive: its file name and its creation time.
#[derive(Debug)]
pub struct BackupRecord {
    /// Name of the archive file, without its directory.
    pub file_name: String,
    /// Creation time of the file, unix seconds.
    pub created_secs: i64,
}

impl Clone for BackupRecord {
    fn clone(&self) -> (r: Self)
        ensures
            r@ == self@,
    {
        BackupRecord { file_name: self.file_name.clone(), created_secs: self.created_secs }
    }
}

impl View for BackupRecord {
    type V = (Seq<char>, int);

    open spec fn view(&self) -> (Seq<char>, int) {
        (self.file_name@, self.created_secs as int)
    }
}

/// Whole days from `created` to `now`, truncated toward zero.
pub open spec fn spec_day_gap(now: int, created: int) -> int {
    let d = now - created;
    if d >= 0 {
        d / 86400
    } else {
        -((-d) / 86400)
    }
}

/// True when a backup is an automatic one (no manual marker, expected name
/// shape) that has outlived the age threshold.
pub open spec fn spec_is_stale_auto(b: (Seq<char>, int), now: int, age_keep_days: int) -> bool {
    &&& spec_contains(b.0, "happy_chart_backup_"@)
    &&& spec_contains(b.0, "zip"@)
    &&& !spec_contains(b.0, "_manual"@)
    &&& spec_day_gap(now, b.1) > age_keep_days
}

/// View of a backup list.
pub open spec fn spec_backups_view(v: Seq<BackupRecord>) -> Seq<(Seq<char>, int)> {
    v.map_values(|b: BackupRecord| b@)
}

/// The automatic backups that have outlived the age threshold, in input
/// order. A negative threshold disables age-based listing, so nothing is
/// ever eligible for pruning.
pub fn get_backup_file_list(records: &Vec<BackupRecord>, now_secs: i64, backup_age_keep_days: i32)
    -> (r: Vec<BackupRecord>)
    requires
        -0x1000000000000000 <= now_secs <= 0x1000000000000000,
        forall|k: int|
            0 <= k < records@.len() ==> -0x1000000000000000 <= (#[trigger] records@[k]).created_secs
                <= 0x1000000000000000,
    ensures
        spec_backups_view(r@) == if backup_age_keep_days < 0 {
            Seq::<(Seq<char>, int)>::empty()
        } else {
            spec_backups_view(records@).filter(
                |b: (Seq<char>, int)| spec_is_stale_auto(b, now_secs as int, backup_age_keep_days as int),
            )
        },
{
    let mut out: Vec<BackupRecord> = Vec::new();
    if backup_age_keep_days < 0 {
        proof {
            assert(spec_backups_view(out@) =~= Seq::<(Seq<char>, int)>::empty());
        }
        return out;
    }
    let ghost views = spec_backups_view(records@);
    let ghost pred = |b: (Seq<char>, int)|
        spec_is_stale_auto(b, now_secs as int, backup_age_keep_days as int);
    let prefix = chars_of(backup_filename_prefix());
    let manual = chars_of(manual_backup_suffix());
    let ext = chars_of(backup_file_extension());
    proof {
        reveal(Seq::filter);
        assert(views.subrange(0, 0).filter(pred) =~= Seq::<(Seq<char>, int)>::empty());
        assert(spec_backups_view(out@) =~= Seq::<(Seq<char>, int)>::empty());
    }
    let mut i: usize = 0;
    while i < records.len()
        invariant
            -0x1000000000000000 <= now_secs <= 0x1000000000000000,
            forall|k: int|
                0 <= k < records@.len() ==> -0x1000000000000000 <= (
                #[trigger] records@[k]).created_secs <= 0x1000000000000000,
            views == spec_backups_view(records@),
            pred == (|b: (Seq<char>, int)|
                spec_is_stale_auto(b, now_secs as int, backup_age_keep_days as int)),
            prefix@ == "happy_chart_backup_"@,
            manual@ == "_manual"@,
            ext@ == "zip"@,
            i <= records@.len(),
            spec_backups_view(out@) == views.subrange(0, i as int).filter(pred),
        decreases records@.len() - i,
    {
        let ghost fprefix = views.subrange(0, i as int).filter(pred);
        let ghost prev = out@;
        let name = chars_of(records[i].file_name.as_str());
        let has_prefix = contains_chars(&name, &prefix);
        let has_ext = contains_chars(&name, &ext);
        let has_manual = contains_chars(&name, &manual);
        let d: i64 = now_secs - records[i].created_secs;
        let gap: i64 = if d >= 0 {
            ((d as u64) / 86400) as i64
        } else {
            -((((-d) as u64) / 86400) as i64)
        };
        let stale = has_prefix && has_ext && !has_manual && gap > backup_age_keep_days as i64;
        proof {
            reveal(Seq::filter);
            assert(views[i as int] == records@[i as int]@);
            assert(views.subrange(0, i + 1).drop_last() =~= views.subrange(0, i as int));
            assert(views.subrange(0, i + 1).last() == views[i as int]);
            assert(gap as int == spec_day_gap(now_secs as int, records@[i as int].created_secs as int));
            assert(stale == pred(views[i as int]));
        }
        if stale {
            out.push(records[i].clone());
            proof {
                let mapped = spec_backups_view(out@);
                let target = fprefix.push(views[i as int]);
                assert(spec_backups_view(prev).len() == prev.len());
                assert forall|q: int| 0 <= q < mapped.len() implies #[trigger] mapped[q]
                    == target[q] by {
                    assert(mapped[q] == out@[q]@);
                    if q < prev.len() {
                        assert(out@[q] == prev[q]);
                        assert(spec_backups_view(prev)[q] == prev[q]@);
                    }
                }
                assert(mapped =~= target);
                assert(views.subrange(0, i + 1).filter(pred) =~= target);
            }
        } else {
            proof {
                assert(views.subrange(0, i + 1).filter(pred) =~= fprefix);
            }
        }
        i = i + 1;
    }
    proof {
        assert(views.subrange(0, views.len() as int) =~= views);
    }
    out
}

/// Whether an automatic backup is due: the feature is on (a non-negative
/// cadence) and more whole days have passed since the last backup than the
/// cadence allows.
pub fn should_auto_backup(now_secs: i64, last_backup_secs: i64, auto_backup_days: i32) -> (r: bool)
    requires
        -0x1000000000000000 <= now_secs <= 0x1000000000000000,
        -0x1000000000000000 <= last_backup_secs <= 0x1000000000000000,
    ensures
        r == (auto_backup_days > -1 && spec_day_gap(now_secs as int, last_backup_secs as int)
            > auto_backup_days as int),
{
    if auto_backup_days <= -1 {
        return false;
    }
    let d: i64 = now_secs - last_backup_secs;
    let gap: i64 = if d >= 0 {
        ((d as u64) / 86400) as i64
    } else {
        -((((-d) as u64) / 86400) as i64)
    };
    gap > auto_backup_days as i64
}

/// Retention order: earlier creation first; equal times keep their order
/// relative to the scan.
pub open spec fn spec_insert_by_age(x: (Seq<char>, int), s: Seq<(Seq<char>, int)>) -> Seq<
    (Seq<char>, int),
>
    decreases s.len(),
{
    if s.len() == 0 {
        seq![x]
    } else if x.1 < s[0].1 {
        seq![x] + s
    } else {
        seq![s[0]] + spec_insert_by_age(x, s.drop_first())
    }
}

/// Insertion sort of backups by creation time, oldest first.
pub open spec fn spec_sort_by_age(s: Seq<(Seq<char>, int)>) -> Seq<(Seq<char>, int)>
    decreases s.len(),
{
    if s.len() == 0 {
        Seq::empty()
    } else {
        spec_insert_by_age(s[0], spec_sort_by_age(s.drop_first()))
    }
}

/// Inserting by age skips past the entries that are not younger.
proof fn lemma_insert_by_age_skip(x: (Seq<char>, int), s: Seq<(Seq<char>, int)>, i: int)
    requires
        0 <= i <= s.len(),
        forall|j: int| 0 <= j < i ==> !(x.1 < (#[trigger] s[j]).1),
    ensures
        spec_insert_by_age(x, s) == s.subrange(0, i) + spec_insert_by_age(x, s.skip(i)),
    decreases i,
{
    if i == 0 {
        assert(s.skip(0) =~= s);
        assert(s.subrange(0, 0) + spec_insert_by_age(x, s) =~= spec_insert_by_age(x, s));
    } else {
        lemma_insert_by_age_skip(x, s.drop_first(), i - 1);
        assert(s.drop_first().skip(i - 1) =~= s.skip(i));
        assert(seq![s[0]] + (s.drop_first().subrange(0, i - 1) + spec_insert_by_age(x, s.skip(i)))
            =~= s.subrange(0, i) + spec_insert_by_age(x, s.skip(i)));
    }
}

/// Inserting by age adds one entry and keeps the order sorted.
pub proof fn lemma_insert_by_age_sorted(x: (Seq<char>, int), s: Seq<(Seq<char>, int)>)
    requires
        forall|a: int, b: int| 0 <= a < b < s.len() ==> (#[trigger] s[a]).1 <= (#[trigger] s[b]).1,
    ensures
        spec_insert_by_age(x, s).len() == s.len() + 1,
        forall|a: int, b: int|
            0 <= a < b < spec_insert_by_age(x, s).len() ==> (#[trigger] spec_insert_by_age(x, s)[a]).1
                <= (#[trigger] spec_insert_by_age(x, s)[b]).1,
    decreases s.len(),
{
    if s.len() != 0 && !(x.1 < s[0].1) {
        assert(forall|a: int, b: int|
            0 <= a < b < s.drop_first().len() ==> (#[trigger] s.drop_first()[a]).1 <= (
            #[trigger] s.drop_first()[b]).1) by {
            assert forall|a: int, b: int|
                0 <= a < b < s.drop_first().len() implies (#[trigger] s.drop_first()[a]).1 <= (
            #[trigger] s.drop_first()[b]).1 by {
                assert(s[a + 1].1 <= s[b + 1].1);
            }
        }
        lemma_insert_by_age_sorted(x, s.drop_first());
        let r = spec_insert_by_age(x, s);
        let ri = spec_insert_by_age(x, s.drop_first());
        assert forall|a: int, b: int| 0 <= a < b < r.len() implies (#[trigger] r[a]).1 <= (
        #[trigger] r[b]).1 by {
            if a == 0 {
                assert(r[b] == ri[b - 1]);
                // the head is no later than everything inserted behind it
                if b - 1 < ri.len() {
                    lemma_insert_by_age_head_bound(x, s.drop_first(), b - 1);
                }
            } else {
                assert(r[a] == ri[a - 1]);
                assert(r[b] == ri[b - 1]);
            }
        }
    }
}

/// Every entry of an insertion result is no earlier than the smallest of
/// the head candidates.
proof fn lemma_insert_by_age_head_bound(x: (Seq<char>, int), s: Seq<(Seq<char>, int)>, q: int)
    requires
        forall|a: int, b: int| 0 <= a < b < s.len() ==> (#[trigger] s[a]).1 <= (#[trigger] s[b]).1,
        0 <= q < spec_insert_by_age(x, s).len(),
    ensures
        spec_insert_by_age(x, s)[q].1 >= if s.len() == 0 {
            x.1
        } else if x.1 < s[0].1 {
            x.1
        } else {
            s[0].1
        },
    decreases s.len(),
{
    if s.len() != 0 && !(x.1 < s[0].1) {
        if q > 0 {
            assert(forall|a: int, b: int|
                0 <= a < b < s.drop_first().len() ==> (#[trigger] s.drop_first()[a]).1 <= (
                #[trigger] s.drop_first()[b]).1) by {
                assert forall|a: int, b: int|
                    0 <= a < b < s.drop_first().len() implies (#[trigger] s.drop_first()[a]).1 <= (
                #[trigger] s.drop_first()[b]).1 by {
                    assert(s[a + 1].1 <= s[b + 1].1);
                }
            }
            lemma_insert_by_age_head_bound(x, s.drop_first(), q - 1);
            if s.drop_first().len() > 0 {
                assert(s[1].1 == s.drop_first()[0].1);
            }
        }
    }
}

/// Sorting by age keeps the length and yields creation times in ascending
/// order, oldest first.
pub proof fn lemma_sort_by_age_sorted(s: Seq<(Seq<char>, int)>)
    ensures
        spec_sort_by_age(s).len() == s.len(),
        forall|a: int, b: int|
            0 <= a < b < spec_sort_by_age(s).len() ==> (#[trigger] spec_sort_by_age(s)[a]).1 <= (
            #[trigger] spec_sort_by_age(s)[b]).1,
    decreases s.len(),
{
    if s.len() != 0 {
        lemma_sort_by_age_sorted(s.drop_first());
        lemma_insert_by_age_sorted(s[0], spec_sort_by_age(s.drop_first()));
    }
}

/// Inserts one backup at its place in the age order.
fn insert_by_age(acc: &mut Vec<BackupRecord>, b: BackupRecord)
    ensures
        spec_backups_view(final(acc)@) == spec_insert_by_age(b@, spec_backups_view(old(acc)@)),
{
    let ghost xv = b@;
    let ghost s = spec_backups_view(old(acc)@);
    let n = acc.len();
    let mut i: usize = 0;
    while i < n
        invariant
            n == acc@.len(),
            i <= n,
            acc@ == old(acc)@,
            s == spec_backups_view(old(acc)@),
            xv == b@,
            forall|j: int| 0 <= j < i ==> !(xv.1 < (#[trigger] s[j]).1),
        decreases n - i,
    {
        proof {
            assert(s[i as int] == acc@[i as int]@);
        }
        if b.created_secs < acc[i].created_secs {
            proof {
                lemma_insert_by_age_skip(xv, s, i as int);
                assert(s.skip(i as int)[0] == s[i as int]);
            }
            acc.insert(i, b);
            proof {
                let mapped = spec_backups_view(acc@);
                let target = s.subrange(0, i as int) + (seq![xv] + s.skip(i as int));
                assert(s.len() == old(acc)@.len());
                assert(mapped.len() == acc@.len());
                assert forall|q: int| 0 <= q < mapped.len() implies #[trigger] mapped[q]
                    == target[q] by {
                    assert(mapped[q] == acc@[q]@);
                    if q < i {
                        assert(acc@[q] == old(acc)@[q]);
                        assert(s[q] == old(acc)@[q]@);
                    } else if q > i {
                        assert(acc@[q] == old(acc)@[q - 1]);
                        assert(s[q - 1] == old(acc)@[q - 1]@);
                        assert(s.skip(i as int)[q - i - 1] == s[q - 1]);
                    }
                }
                assert(mapped =~= target);
            }
            return ;
        }
        i = i + 1;
    }
    proof {
        lemma_insert_by_age_skip(xv, s, n as int);
        assert(s.skip(n as int) =~= Seq::<(Seq<char>, int)>::empty());
    }
    acc.push(b);
    proof {
        let mapped = spec_backups_view(acc@);
        let target = s.subrange(0, n as int) + seq![xv];
        assert(s.len() == old(acc)@.len());
        assert(mapped.len() == acc@.len());
        assert forall|q: int| 0 <= q < mapped.len() implies #[trigger] mapped[q] == target[q] by {
            assert(mapped[q] == acc@[q]@);
            if q < n {
                assert(acc@[q] == old(acc)@[q]);
                assert(s[q] == old(acc)@[q]@);
            }
        }
        assert(mapped =~= target);
        assert(s.subrange(0, n as int) =~= s);
    }
}

/// Sorts backups by creation time, oldest first.
fn sort_by_age(list: &Vec<BackupRecord>) -> (r: Vec<BackupRecord>)
    ensures
        spec_backups_view(r@) == spec_sort_by_age(spec_backups_view(list@)),
{
    let ghost s = spec_backups_view(list@);
    let mut acc: Vec<BackupRecord> = Vec::new();
    let mut i: usize = list.len();
    proof {
        assert(s.skip(i as int) =~= Seq::<(Seq<char>, int)>::empty());
        assert(spec_backups_view(acc@) =~= Seq::<(Seq<char>, int)>::empty());
    }
    while i > 0
        invariant
            s == spec_backups_view(list@),
            i <= list@.len(),
            spec_backups_view(acc@) == spec_sort_by_age(s.skip(i as int)),
        decreases i,
    {
        i = i - 1;
        proof {
            assert(s[i as int] == list@[i as int]@);
            assert(s.skip(i as int)[0] == s[i as int]);
            assert(s.skip(i as int).drop_first() =~= s.skip(i + 1));
        }
        insert_by_age(&mut acc, list[i].clone());
    }
    proof {
        assert(s.skip(0) =~= s);
    }
    acc
}

/// Picks the backups to delete out of the stale automatic ones: pruning
/// fires only when more stale backups exist than the configured keep
/// count, and then removes exactly the surplus, oldest first. A negative
/// keep count disables pruning.
pub fn select_backups_to_remove(stale: &Vec<BackupRecord>, number_of_kept_backups: i32) -> (r: Vec<
    BackupRecord,
>)
    ensures
        spec_backups_view(r@) == if number_of_kept_backups < 0 || stale@.len()
            <= number_of_kept_backups {
            Seq::<(Seq<char>, int)>::empty()
        } else {
            spec_sort_by_age(spec_backups_view(stale@)).take(
                stale@.len() - number_of_kept_backups,
            )
        },
{
    let mut out: Vec<BackupRecord> = Vec::new();
    if number_of_kept_backups < 0 || stale.len() <= number_of_kept_backups as usize {
        proof {
            assert(spec_backups_view(out@) =~= Seq::<(Seq<char>, int)>::empty());
        }
        return out;
    }
    let sorted = sort_by_age(stale);
    let excess = stale.len() - (number_of_kept_backups as usize);
    proof {
        lemma_sort_by_age_sorted(spec_backups_view(stale@));
        assert(spec_backups_view(sorted@).len() == sorted@.len());
    }
    let mut i: usize = 0;
    while i < excess
        invariant
            excess <= sorted@.len(),
            spec_backups_view(sorted@) == spec_sort_by_age(spec_backups_view(stale@)),
            i <= excess,
            spec_backups_view(out@) == spec_backups_view(sorted@).take(i as int),
        decreases excess - i,
    {
        let ghost prev = out@;
        out.push(sorted[i].clone());
        proof {
            let mapped = spec_backups_view(out@);
            let target = spec_backups_view(sorted@).take(i + 1);
            assert(spec_backups_view(prev).len() == prev.len());
            assert(spec_backups_view(sorted@)[i as int] == sorted@[i as int]@);
            assert forall|q: int| 0 <= q < mapped.len() implies #[trigger] mapped[q]
                == target[q] by {
                assert(mapped[q] == out@[q]@);
                if q < prev.len() {
                    assert(out@[q] == prev[q]);
                    assert(spec_backups_view(prev)[q] == prev[q]@);
                }
            }
            assert(mapped =~= target);
        }
        i = i + 1;
    }
    out
}

} // verus!
