//! Activities a journal entry can reference, and the sorted, duplicate-free
//! selection list the user edits.
use vstd::prelude::*;

use crate::text::{chars_of, lemma_lex_total, lex_cmp_chars, lex_lt};

verus! {

/// One named activity.
#[derive(Debug, PartialEq, Eq, Hash)]
pub struct Activity(String);

impl View for Activity {
    type V = Seq<char>;

    closed spec fn view(&self) -> Seq<char> {
        self.0@
    }
}

impl Clone for Activity {
    fn clone(&self) -> (r: Self)
        ensures
            r@ == self@,
    {
        Activity(self.0.clone())
    }
}

impl Activity {
    /// Makes an activity out of its name.
    pub fn new(activity_name: &str) -> (r: Self)
        ensures
            r@ == activity_name@,
    {
        Activity(activity_name.to_owned())
    }

    /// The name of this activity.
    pub fn get_activity_name(&self) -> (r: &str)
        ensures
            r@ == self@,
    {
        self.0.as_str()
    }
}

/// Where a new name lands in a selection list: before the first entry that
/// is not smaller, and not at all when the name is already present.
pub open spec fn spec_insert_name(names: Seq<Seq<char>>, n: Seq<char>) -> Seq<Seq<char>>
    decreases names.len(),
{
    if names.len() == 0 {
        seq![n]
    } else if names[0] == n {
        names
    } else if lex_lt(n, names[0]) {
        seq![n] + names
    } else {
        seq![names[0]] + spec_insert_name(names.drop_first(), n)
    }
}

/// Inserting skips past any prefix of entries that are smaller than the new
/// name.
pub proof fn lemma_insert_skip(names: Seq<Seq<char>>, n: Seq<char>, i: int)
    requires
        0 <= i <= names.len(),
        forall|j: int| 0 <= j < i ==> names[j] != n && !lex_lt(n, #[trigger] names[j]),
    ensures
        spec_insert_name(names, n) == names.subrange(0, i) + spec_insert_name(names.skip(i), n),
    decreases i,
{
    if i == 0 {
        assert(names.skip(0) =~= names);
        assert(names.subrange(0, 0) + spec_insert_name(names, n) =~= spec_insert_name(names, n));
    } else {
        assert(names[0] != n && !lex_lt(n, names[0]));
        lemma_insert_skip(names.drop_first(), n, i - 1);
        assert(names.drop_first().skip(i - 1) =~= names.skip(i));
        assert(seq![names[0]] + (names.drop_first().subrange(0, i - 1) + spec_insert_name(
            names.skip(i),
            n,
        )) =~= names.subrange(0, i) + spec_insert_name(names.skip(i), n));
    }
}

/// The user's list of selectable activities: sorted by name, without
/// duplicates, represented by the sequence of its names.
#[derive(Debug)]
pub struct ActivitySelectionList {
    activity_list: Vec<Activity>,
}

impl View for ActivitySelectionList {
    type V = Seq<Seq<char>>;

    closed spec fn view(&self) -> Seq<Seq<char>> {
        self.activity_list@.map_values(|a: Activity| a@)
    }
}

impl Clone for ActivitySelectionList {
    fn clone(&self) -> (r: Self)
        ensures
            r@ == self@,
    {
        let mut out: Vec<Activity> = Vec::new();
        let mut i: usize = 0;
        while i < self.activity_list.len()
            invariant
                i <= self.activity_list@.len(),
                out@.map_values(|a: Activity| a@) == self@.subrange(0, i as int),
            decreases self.activity_list@.len() - i,
        {
            let ghost prev = out@;
            out.push(self.activity_list[i].clone());
            proof {
                let mapped = out@.map_values(|a: Activity| a@);
                assert(prev.map_values(|a: Activity| a@).len() == prev.len());
                assert(prev.len() == i as int);
                assert forall|j: int| 0 <= j < i + 1 implies #[trigger] mapped[j] == self@.subrange(
                    0,
                    i + 1,
                )[j] by {
                    if j < i {
                        assert(out@[j] == prev[j]);
                        assert((prev.map_values(|a: Activity| a@))[j] == prev[j]@);
                    }
                }
                assert(out@.map_values(|a: Activity| a@) =~= self@.subrange(0, i + 1));
            }
            i = i + 1;
        }
        proof {
            assert(self@.subrange(0, self@.len() as int) =~= self@);
        }
        let r = ActivitySelectionList { activity_list: out };
        proof {
            assert(r@ =~= self@);
        }
        r
    }
}

impl Default for ActivitySelectionList {
    /// The default list is empty.
    fn default() -> (r: Self)
        ensures
            r@ == Seq::<Seq<char>>::empty(),
    {
        ActivitySelectionList::new()
    }
}

impl ActivitySelectionList {
    /// An empty selection list.
    pub fn new() -> (r: Self)
        ensures
            r@ == Seq::<Seq<char>>::empty(),
    {
        let r = ActivitySelectionList { activity_list: Vec::new() };
        proof {
            assert(r@ =~= Seq::<Seq<char>>::empty());
        }
        r
    }

    /// The activities, sorted by name.
    pub fn get_activity_list(&self) -> (r: &Vec<Activity>)
        ensures
            r@.map_values(|a: Activity| a@) == self@,
    {
        &self.activity_list
    }

    /// Drops every activity carrying the given name.
    pub fn remove_activity(&mut self, activity: &Activity)
        ensures
            final(self)@ == old(self)@.filter(|nm: Seq<char>| nm != activity@),
    {
        let mut out: Vec<Activity> = Vec::new();
        proof {
            reveal(Seq::filter);
            assert(out@.map_values(|a: Activity| a@) =~= old(self)@.subrange(0, 0).filter(
                |nm: Seq<char>| nm != activity@,
            ));
        }
        let mut i: usize = 0;
        while i < self.activity_list.len()
            invariant
                i <= self.activity_list@.len(),
                self.activity_list == old(self).activity_list,
                out@.map_values(|a: Activity| a@) == old(self)@.subrange(0, i as int).filter(
                    |nm: Seq<char>| nm != activity@,
                ),
            decreases self.activity_list@.len() - i,
        {
            let ghost prefix = old(self)@.subrange(0, i as int);
            let ghost prev = out@;
            let name_i = chars_of(self.activity_list[i].get_activity_name());
            let target = chars_of(activity.get_activity_name());
            let c = lex_cmp_chars(&name_i, &target);
            if c != 0 {
                out.push(self.activity_list[i].clone());
            }
            proof {
                reveal(Seq::filter);
                assert(old(self)@.subrange(0, i + 1).drop_last() =~= prefix);
                assert(old(self)@.subrange(0, i + 1).last() == old(self)@[i as int]);
                assert((old(self).activity_list@.map_values(|a: Activity| a@))[i as int] == old(
                    self,
                ).activity_list@[i as int]@);
                assert(name_i@ == old(self)@[i as int]);
                if c != 0 {
                    let mapped = out@.map_values(|a: Activity| a@);
                    assert(prev.map_values(|a: Activity| a@).len() == prev.len());
                    let target_seq = prefix.filter(|nm: Seq<char>| nm != activity@) + seq![
                        old(self)@[i as int],
                    ];
                    assert forall|j: int|
                        0 <= j < out@.len() implies #[trigger] mapped[j] == target_seq[j] by {
                        if j < prev.len() {
                            assert(out@[j] == prev[j]);
                            assert((prev.map_values(|a: Activity| a@))[j] == prev[j]@);
                        }
                    }
                    assert(out@.map_values(|a: Activity| a@) =~= prefix.filter(
                        |nm: Seq<char>| nm != activity@,
                    ) + seq![old(self)@[i as int]]);
                    assert(old(self)@.subrange(0, i + 1).filter(|nm: Seq<char>| nm != activity@)
                        =~= prefix.filter(|nm: Seq<char>| nm != activity@) + seq![
                        old(self)@[i as int],
                    ]);
                } else {
                    assert(out@.map_values(|a: Activity| a@) =~= old(self)@.subrange(0, i
                        + 1).filter(|nm: Seq<char>| nm != activity@));
                }
            }
            i = i + 1;
        }
        proof {
            assert(old(self)@.subrange(0, old(self)@.len() as int) =~= old(self)@);
        }
        self.activity_list = out;
    }

    /// Inserts an activity at its sorted position; a name that is already
    /// present is not added again.
    pub fn add_new_activity(&mut self, activity: Activity)
        ensures
            final(self)@ == spec_insert_name(old(self)@, activity@),
    {
        let target = chars_of(activity.get_activity_name());
        let n = self.activity_list.len();
        let mut i: usize = 0;
        while i < n
            invariant
                n == self.activity_list@.len(),
                i <= n,
                self.activity_list == old(self).activity_list,
                target@ == activity@,
                forall|j: int|
                    0 <= j < i ==> old(self)@[j] != activity@ && !lex_lt(
                        activity@,
                        #[trigger] old(self)@[j],
                    ),
            decreases n - i,
        {
            let name_i = chars_of(self.activity_list[i].get_activity_name());
            let c = lex_cmp_chars(&target, &name_i);
            if c == 0 {
                proof {
                    lemma_insert_skip(old(self)@, activity@, i as int);
                    assert(old(self)@.skip(i as int)[0] == old(self)@[i as int]);
                    assert(old(self)@.subrange(0, i as int) + old(self)@.skip(i as int) =~= old(
                        self,
                    )@);
                }
                return ;
            }
            if c == -1 {
                proof {
                    lemma_insert_skip(old(self)@, activity@, i as int);
                    assert(old(self)@.skip(i as int)[0] == old(self)@[i as int]);
                    lemma_lex_total(activity@, old(self)@[i as int]);
                }
                self.activity_list.insert(i, activity);
                proof {
                    assert(final(self)@ =~= old(self)@.subrange(0, i as int) + (seq![activity@]
                        + old(self)@.skip(i as int)));
                }
                return ;
            }
            proof {
                lemma_lex_total(activity@, old(self)@[i as int]);
            }
            i = i + 1;
        }
        proof {
            lemma_insert_skip(old(self)@, activity@, n as int);
            assert(old(self)@.skip(n as int) =~= Seq::<Seq<char>>::empty());
        }
        self.activity_list.push(activity);
        proof {
            assert(final(self)@ =~= old(self)@.subrange(0, n as int) + seq![activity@]);
            assert(old(self)@.subrange(0, n as int) =~= old(self)@);
        }
    }
}

/// Transient state of the activity-editing screen.
#[derive(Debug)]
pub struct ActivityUIState {
    pub show_activity_screen: bool,
    pub edit_mode: bool,
    pub add_or_remove_mode: bool,
    pub activity_creat_text: String,
    pub added_activity_list: ActivitySelectionList,
}

impl Default for ActivityUIState {
    /// The default state is the hidden screen.
    fn default() -> (r: Self)
        ensures
            !r.show_activity_screen,
            !r.edit_mode,
            r.add_or_remove_mode,
    {
        ActivityUIState::new()
    }
}

impl ActivityUIState {
    /// The screen starts hidden, in add-or-remove mode, with nothing typed.
    pub fn new() -> (r: Self)
        ensures
            !r.show_activity_screen,
            !r.edit_mode,
            r.add_or_remove_mode,
            r.activity_creat_text@ == Seq::<char>::empty(),
            r.added_activity_list@ == Seq::<Seq<char>>::empty(),
    {
        ActivityUIState {
            show_activity_screen: false,
            edit_mode: false,
            add_or_remove_mode: true,
            activity_creat_text: String::new(),
            added_activity_list: ActivitySelectionList::new(),
        }
    }
}

} // verus!
