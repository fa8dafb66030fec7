//! The current save layout: a journal entry list as one self-describing
//! text record per entry, with a printer, a parser, and the proof that
//! loading a saved list gives the list back unchanged.
use vstd::prelude::*;

use crate::activities::Activity;
use crate::improved_daystat::{EntryView, ImprovedDayStat};
use crate::json::{
    lemma_dec_nat_shape, lemma_parse_int_of_enc, lemma_sub_split,
    lemma_parse_str_of_enc, spec_dec_int, spec_enc_str, spec_esc, spec_is_digit, spec_parse_int,
    spec_parse_lit, spec_parse_str, I64_MAX, I64_MIN, expect_lit, parse_int, parse_str,
    push_chars, push_dec_i64, push_quoted,
};
use crate::text::{chars_of, string_from_chars};
use crate::mood_tag::MoodTag;

verus! {

// ---------------------------------------------------------------------------
// Mood codes
// ---------------------------------------------------------------------------
/// Numeric code a mood is stored under.
pub open spec fn spec_mood_code(m: MoodTag) -> int {
    match m {
        MoodTag::Happy => 0,
        MoodTag::Caring => 1,
        MoodTag::Grateful => 2,
        MoodTag::Excited => 3,
        MoodTag::Sad => 4,
        MoodTag::Lonely => 5,
        MoodTag::Hurt => 6,
        MoodTag::Disappointed => 7,
        MoodTag::Loved => 8,
        MoodTag::Respected => 9,
        MoodTag::Valued => 10,
        MoodTag::Accepted => 11,
        MoodTag::Confident => 12,
        MoodTag::Brave => 13,
        MoodTag::Hopeful => 14,
        MoodTag::Powerful => 15,
        MoodTag::Playful => 16,
        MoodTag::Creative => 17,
        MoodTag::Curious => 18,
        MoodTag::Affectionate => 19,
        MoodTag::Embarrassed => 20,
        MoodTag::Ashamed => 21,
        MoodTag::Excluded => 22,
        MoodTag::Guilty => 23,
        MoodTag::Angry => 24,
        MoodTag::Bored => 25,
        MoodTag::Jealous => 26,
        MoodTag::Annoyed => 27,
        MoodTag::Scared => 28,
        MoodTag::Anxious => 29,
        MoodTag::Powerless => 30,
        MoodTag::Overwhelmed => 31,
    }
}

/// The mood stored under a numeric code, if the code is known.
pub open spec fn spec_mood_from_code(n: int) -> Option<MoodTag> {
    if n == 0 {
        Some(MoodTag::Happy)
    } else if n == 1 {
        Some(MoodTag::Caring)
    } else if n == 2 {
        Some(MoodTag::Grateful)
    } else if n == 3 {
        Some(MoodTag::Excited)
    } else if n == 4 {
        Some(MoodTag::Sad)
    } else if n == 5 {
        Some(MoodTag::Lonely)
    } else if n == 6 {
        Some(MoodTag::Hurt)
    } else if n == 7 {
        Some(MoodTag::Disappointed)
    } else if n == 8 {
        Some(MoodTag::Loved)
    } else if n == 9 {
        Some(MoodTag::Respected)
    } else if n == 10 {
        Some(MoodTag::Valued)
    } else if n == 11 {
        Some(MoodTag::Accepted)
    } else if n == 12 {
        Some(MoodTag::Confident)
    } else if n == 13 {
        Some(MoodTag::Brave)
    } else if n == 14 {
        Some(MoodTag::Hopeful)
    } else if n == 15 {
        Some(MoodTag::Powerful)
    } else if n == 16 {
        Some(MoodTag::Playful)
    } else if n == 17 {
        Some(MoodTag::Creative)
    } else if n == 18 {
        Some(MoodTag::Curious)
    } else if n == 19 {
        Some(MoodTag::Affectionate)
    } else if n == 20 {
        Some(MoodTag::Embarrassed)
    } else if n == 21 {
        Some(MoodTag::Ashamed)
    } else if n == 22 {
        Some(MoodTag::Excluded)
    } else if n == 23 {
        Some(MoodTag::Guilty)
    } else if n == 24 {
        Some(MoodTag::Angry)
    } else if n == 25 {
        Some(MoodTag::Bored)
    } else if n == 26 {
        Some(MoodTag::Jealous)
    } else if n == 27 {
        Some(MoodTag::Annoyed)
    } else if n == 28 {
        Some(MoodTag::Scared)
    } else if n == 29 {
        Some(MoodTag::Anxious)
    } else if n == 30 {
        Some(MoodTag::Powerless)
    } else if n == 31 {
        Some(MoodTag::Overwhelmed)
    } else {
        None
    }
}

/// A mood's code names the mood back.
pub proof fn lemma_mood_code_round(m: MoodTag)
    ensures
        0 <= spec_mood_code(m) <= 31,
        spec_mood_from_code(spec_mood_code(m)) == Some(m),
{
}

/// Numeric code a mood is stored under.
pub fn mood_code(m: MoodTag) -> (r: i64)
    ensures
        r as int == spec_mood_code(m),
{
    match m {
        MoodTag::Happy => 0,
        MoodTag::Caring => 1,
        MoodTag::Grateful => 2,
        MoodTag::Excited => 3,
        MoodTag::Sad => 4,
        MoodTag::Lonely => 5,
        MoodTag::Hurt => 6,
        MoodTag::Disappointed => 7,
        MoodTag::Loved => 8,
        MoodTag::Respected => 9,
        MoodTag::Valued => 10,
        MoodTag::Accepted => 11,
        MoodTag::Confident => 12,
        MoodTag::Brave => 13,
        MoodTag::Hopeful => 14,
        MoodTag::Powerful => 15,
        MoodTag::Playful => 16,
        MoodTag::Creative => 17,
        MoodTag::Curious => 18,
        MoodTag::Affectionate => 19,
        MoodTag::Embarrassed => 20,
        MoodTag::Ashamed => 21,
        MoodTag::Excluded => 22,
        MoodTag::Guilty => 23,
        MoodTag::Angry => 24,
        MoodTag::Bored => 25,
        MoodTag::Jealous => 26,
        MoodTag::Annoyed => 27,
        MoodTag::Scared => 28,
        MoodTag::Anxious => 29,
        MoodTag::Powerless => 30,
        MoodTag::Overwhelmed => 31,
    }
}

/// The mood stored under a numeric code, if the code is known.
pub fn mood_from_code(n: i64) -> (r: Option<MoodTag>)
    ensures
        r == spec_mood_from_code(n as int),
{
    if n == 0 {
        Some(MoodTag::Happy)
    } else if n == 1 {
        Some(MoodTag::Caring)
    } else if n == 2 {
        Some(MoodTag::Grateful)
    } else if n == 3 {
        Some(MoodTag::Excited)
    } else if n == 4 {
        Some(MoodTag::Sad)
    } else if n == 5 {
        Some(MoodTag::Lonely)
    } else if n == 6 {
        Some(MoodTag::Hurt)
    } else if n == 7 {
        Some(MoodTag::Disappointed)
    } else if n == 8 {
        Some(MoodTag::Loved)
    } else if n == 9 {
        Some(MoodTag::Respected)
    } else if n == 10 {
        Some(MoodTag::Valued)
    } else if n == 11 {
        Some(MoodTag::Accepted)
    } else if n == 12 {
        Some(MoodTag::Confident)
    } else if n == 13 {
        Some(MoodTag::Brave)
    } else if n == 14 {
        Some(MoodTag::Hopeful)
    } else if n == 15 {
        Some(MoodTag::Powerful)
    } else if n == 16 {
        Some(MoodTag::Playful)
    } else if n == 17 {
        Some(MoodTag::Creative)
    } else if n == 18 {
        Some(MoodTag::Curious)
    } else if n == 19 {
        Some(MoodTag::Affectionate)
    } else if n == 20 {
        Some(MoodTag::Embarrassed)
    } else if n == 21 {
        Some(MoodTag::Ashamed)
    } else if n == 22 {
        Some(MoodTag::Excluded)
    } else if n == 23 {
        Some(MoodTag::Guilty)
    } else if n == 24 {
        Some(MoodTag::Angry)
    } else if n == 25 {
        Some(MoodTag::Bored)
    } else if n == 26 {
        Some(MoodTag::Jealous)
    } else if n == 27 {
        Some(MoodTag::Annoyed)
    } else if n == 28 {
        Some(MoodTag::Scared)
    } else if n == 29 {
        Some(MoodTag::Anxious)
    } else if n == 30 {
        Some(MoodTag::Powerless)
    } else if n == 31 {
        Some(MoodTag::Overwhelmed)
    } else {
        None
    }
}

// ---------------------------------------------------------------------------
// The grammar's fixed key texts
// ---------------------------------------------------------------------------
pub open spec fn lit_entry_rating() -> Seq<char> {
    seq!['{', '"', 'r', 'a', 't', 'i', 'n', 'g', '"', ':']
}

pub open spec fn lit_secs() -> Seq<char> {
    seq![',', '"', 's', 'e', 'c', 's', '"', ':']
}

pub open spec fn lit_offset() -> Seq<char> {
    seq![',', '"', 'o', 'f', 'f', 's', 'e', 't', '"', ':']
}

pub open spec fn lit_note() -> Seq<char> {
    seq![',', '"', 'n', 'o', 't', 'e', '"', ':']
}

pub open spec fn lit_moods() -> Seq<char> {
    seq![',', '"', 'm', 'o', 'o', 'd', 's', '"', ':', '[']
}

pub open spec fn lit_acts() -> Seq<char> {
    seq![',', '"', 'a', 'c', 't', 'i', 'v', 'i', 't', 'i', 'e', 's', '"', ':', '[']
}

// ---------------------------------------------------------------------------
// Printers (specification)
// ---------------------------------------------------------------------------
/// Mood codes joined by commas, without the surrounding brackets.
pub open spec fn spec_enc_moods(ms: Seq<MoodTag>) -> Seq<char>
    decreases ms.len(),
{
    if ms.len() == 0 {
        Seq::empty()
    } else if ms.len() == 1 {
        spec_dec_int(spec_mood_code(ms[0]))
    } else {
        spec_dec_int(spec_mood_code(ms[0])) + (seq![','] + spec_enc_moods(ms.drop_first()))
    }
}

/// Quoted activity names joined by commas, without the surrounding brackets.
pub open spec fn spec_enc_acts(acts: Seq<Seq<char>>) -> Seq<char>
    decreases acts.len(),
{
    if acts.len() == 0 {
        Seq::empty()
    } else if acts.len() == 1 {
        spec_enc_str(acts[0])
    } else {
        spec_enc_str(acts[0]) + (seq![','] + spec_enc_acts(acts.drop_first()))
    }
}

/// One printed entry record.
pub open spec fn spec_enc_entry(e: EntryView) -> Seq<char> {
    lit_entry_rating() + (spec_dec_int(e.rating_centi) + (lit_secs() + (spec_dec_int(e.utc_secs)
        + (lit_offset() + (spec_dec_int(e.offset_secs) + (lit_note() + (spec_enc_str(e.note) + (
    lit_moods() + ((spec_enc_moods(e.moods) + seq![']']) + (lit_acts() + ((spec_enc_acts(
        e.activities,
    ) + seq![']']) + seq!['}'])))))))))))
}

/// Printed entries joined by commas, without the surrounding brackets.
pub open spec fn spec_enc_entries(es: Seq<EntryView>) -> Seq<char>
    decreases es.len(),
{
    if es.len() == 0 {
        Seq::empty()
    } else if es.len() == 1 {
        spec_enc_entry(es[0])
    } else {
        spec_enc_entry(es[0]) + (seq![','] + spec_enc_entries(es.drop_first()))
    }
}

/// A whole printed save: the entry list in brackets.
pub open spec fn spec_enc_save(es: Seq<EntryView>) -> Seq<char> {
    seq!['['] + (spec_enc_entries(es) + seq![']'])
}

/// True when the numeric fields of `e` fit machine integers, which holds of
/// the view of every in-memory entry.
pub open spec fn spec_entry_i64(e: EntryView) -> bool {
    &&& I64_MIN as int <= e.rating_centi <= I64_MAX as int
    &&& I64_MIN as int <= e.utc_secs <= I64_MAX as int
    &&& I64_MIN as int <= e.offset_secs <= I64_MAX as int
}

// ---------------------------------------------------------------------------
// Parsers (specification)
// ---------------------------------------------------------------------------
/// Parses a quoted string at `i`, both quotes included.
pub open spec fn spec_parse_quoted(s: Seq<char>, i: int) -> Option<(Seq<char>, int)> {
    if 0 <= i && i < s.len() && s[i] == '"' {
        spec_parse_str(s, i + 1)
    } else {
        None
    }
}

/// Parses a non-empty, comma-separated list of mood codes, up to and
/// including the closing bracket.
pub open spec fn spec_parse_moods_rest(s: Seq<char>, i: int) -> Option<(Seq<MoodTag>, int)>
    decreases s.len() - i,
{
    if i < 0 || i >= s.len() {
        None
    } else {
        match spec_parse_int(s, i) {
            None => None,
            Some((v, j)) => if !(i < j && j <= s.len()) {
                None
            } else {
                match spec_mood_from_code(v) {
                    None => None,
                    Some(m) => if j < s.len() && s[j] == ',' {
                        match spec_parse_moods_rest(s, j + 1) {
                            None => None,
                            Some((ms, k)) => Some((seq![m] + ms, k)),
                        }
                    } else if j < s.len() && s[j] == ']' {
                        Some((seq![m], j + 1))
                    } else {
                        None
                    },
                }
            },
        }
    }
}

/// Parses a possibly empty mood list, up to and including the closing
/// bracket.
pub open spec fn spec_parse_moods(s: Seq<char>, i: int) -> Option<(Seq<MoodTag>, int)> {
    if 0 <= i && i < s.len() && s[i] == ']' {
        Some((Seq::empty(), i + 1))
    } else {
        spec_parse_moods_rest(s, i)
    }
}

/// Parses a non-empty, comma-separated list of quoted activity names, up to
/// and including the closing bracket.
pub open spec fn spec_parse_acts_rest(s: Seq<char>, i: int) -> Option<(Seq<Seq<char>>, int)>
    decreases s.len() - i,
{
    if i < 0 || i >= s.len() {
        None
    } else {
        match spec_parse_quoted(s, i) {
            None => None,
            Some((name, j)) => if !(i < j && j <= s.len()) {
                None
            } else if j < s.len() && s[j] == ',' {
                match spec_parse_acts_rest(s, j + 1) {
                    None => None,
                    Some((names, k)) => Some((seq![name] + names, k)),
                }
            } else if j < s.len() && s[j] == ']' {
                Some((seq![name], j + 1))
            } else {
                None
            },
        }
    }
}

/// Parses a possibly empty activity list, up to and including the closing
/// bracket.
pub open spec fn spec_parse_acts(s: Seq<char>, i: int) -> Option<(Seq<Seq<char>>, int)> {
    if 0 <= i && i < s.len() && s[i] == ']' {
        Some((Seq::empty(), i + 1))
    } else {
        spec_parse_acts_rest(s, i)
    }
}

/// Parses one entry record at `i`.
pub open spec fn spec_parse_entry(s: Seq<char>, i: int) -> Option<(EntryView, int)> {
    match spec_parse_lit(s, i, lit_entry_rating()) {
        None => None,
        Some(p1) => match spec_parse_int(s, p1) {
            None => None,
            Some((rating, p2)) => match spec_parse_lit(s, p2, lit_secs()) {
                None => None,
                Some(p3) => match spec_parse_int(s, p3) {
                    None => None,
                    Some((secs, p4)) => match spec_parse_lit(s, p4, lit_offset()) {
                        None => None,
                        Some(p5) => match spec_parse_int(s, p5) {
                            None => None,
                            Some((off, p6)) => match spec_parse_lit(s, p6, lit_note()) {
                                None => None,
                                Some(p7) => match spec_parse_quoted(s, p7) {
                                    None => None,
                                    Some((note, p8)) => match spec_parse_lit(s, p8, lit_moods()) {
                                        None => None,
                                        Some(p9) => match spec_parse_moods(s, p9) {
                                            None => None,
                                            Some((moods, p10)) => match spec_parse_lit(
                                                s,
                                                p10,
                                                lit_acts(),
                                            ) {
                                                None => None,
                                                Some(p11) => match spec_parse_acts(s, p11) {
                                                    None => None,
                                                    Some((acts, p12)) => if p12 < s.len() && s[p12]
                                                        == '}' {
                                                        Some(
                                                            (
                                                                EntryView {
                                                                    rating_centi: rating,
                                                                    utc_secs: secs,
                                                                    offset_secs: off,
                                                                    note,
                                                                    moods,
                                                                    activities: acts,
                                                                },
                                                                p12 + 1,
                                                            ),
                                                        )
                                                    } else {
                                                        None
                                                    },
                                                },
                                            },
                                        },
                                    },
                                },
                            },
                        },
                    },
                },
            },
        },
    }
}

/// Parses a non-empty, comma-separated list of entries, up to and including
/// the closing bracket.
pub open spec fn spec_parse_entries_rest(s: Seq<char>, i: int) -> Option<(Seq<EntryView>, int)>
    decreases s.len() - i,
{
    if i < 0 || i >= s.len() {
        None
    } else {
        match spec_parse_entry(s, i) {
            None => None,
            Some((e, j)) => if !(i < j && j <= s.len()) {
                None
            } else if j < s.len() && s[j] == ',' {
                match spec_parse_entries_rest(s, j + 1) {
                    None => None,
                    Some((es, k)) => Some((seq![e] + es, k)),
                }
            } else if j < s.len() && s[j] == ']' {
                Some((seq![e], j + 1))
            } else {
                None
            },
        }
    }
}

/// Parses a possibly empty entry list, up to and including the closing
/// bracket.
pub open spec fn spec_parse_entries(s: Seq<char>, i: int) -> Option<(Seq<EntryView>, int)> {
    if 0 <= i && i < s.len() && s[i] == ']' {
        Some((Seq::empty(), i + 1))
    } else {
        spec_parse_entries_rest(s, i)
    }
}

/// Parses a whole save text; the entry list must span the entire text.
pub open spec fn spec_parse_save(s: Seq<char>) -> Option<Seq<EntryView>> {
    if s.len() < 1 || s[0] != '[' {
        None
    } else {
        match spec_parse_entries(s, 1) {
            None => None,
            Some((es, j)) => if j == s.len() {
                Some(es)
            } else {
                None
            },
        }
    }
}

// ---------------------------------------------------------------------------
// The parsers invert the printers
// ---------------------------------------------------------------------------
/// Parsing at the start of a printed quoted string gives the string back.
pub proof fn lemma_parse_quoted_of_enc(s: Seq<char>, i: int, v: Seq<char>)
    requires
        0 <= i,
        i + spec_enc_str(v).len() <= s.len(),
        s.subrange(i, i + spec_enc_str(v).len()) == spec_enc_str(v),
    ensures
        spec_parse_quoted(s, i) == Some((v, i + spec_enc_str(v).len())),
{
    let e = spec_esc(v);
    assert(spec_enc_str(v) =~= seq!['"'] + (e + seq!['"']));
    lemma_sub_split(s, i, seq!['"'], e + seq!['"']);
    lemma_sub_split(s, i + 1, e, seq!['"']);
    assert(s.subrange(i, i + 1)[0] == '"');
    assert(s.subrange(i + 1 + e.len(), i + 2 + e.len())[0] == '"');
    lemma_parse_str_of_enc(s, i + 1, v);
}

/// Parsing at the start of a printed mood list (closing bracket included)
/// gives the moods back.
pub proof fn lemma_parse_moods_of_enc(s: Seq<char>, i: int, ms: Seq<MoodTag>)
    requires
        0 <= i,
        i + spec_enc_moods(ms).len() + 1 <= s.len(),
        s.subrange(i, i + spec_enc_moods(ms).len() + 1) == spec_enc_moods(ms) + seq![']'],
    ensures
        spec_parse_moods(s, i) == Some((ms, i + spec_enc_moods(ms).len() + 1)),
    decreases ms.len(),
{
    if ms.len() == 0 {
        assert(s.subrange(i, i + 1)[0] == ']');
        assert(ms =~= Seq::<MoodTag>::empty());
    } else {
        let code = spec_mood_code(ms[0]);
        lemma_mood_code_round(ms[0]);
        let d = spec_dec_int(code);
        lemma_dec_nat_shape(code);
        if ms.len() == 1 {
            assert(spec_enc_moods(ms) + seq![']'] =~= d + seq![']']);
            lemma_sub_split(s, i, d, seq![']']);
            let j = i + d.len();
            assert(s.subrange(j, j + 1)[0] == ']');
            assert(!spec_is_digit(s[j]));
            lemma_parse_int_of_enc(s, i, code);
            assert(s.subrange(i, j)[0] == d[0]);
            assert(spec_is_digit(s[i]));
            assert(s[i] != ']');
            assert(seq![ms[0]] =~= ms);
        } else {
            let rest = spec_enc_moods(ms.drop_first());
            assert(spec_enc_moods(ms) + seq![']'] =~= d + (seq![','] + (rest + seq![']'])));
            lemma_sub_split(s, i, d, seq![','] + (rest + seq![']']));
            let j = i + d.len();
            lemma_sub_split(s, j, seq![','], rest + seq![']']);
            assert(s.subrange(j, j + 1)[0] == ',');
            assert(!spec_is_digit(s[j]));
            lemma_parse_int_of_enc(s, i, code);
            assert(s.subrange(i, j)[0] == d[0]);
            assert(spec_is_digit(s[i]));
            assert(s[i] != ']');
            lemma_parse_moods_of_enc(s, j + 1, ms.drop_first());
            assert(seq![ms[0]] + ms.drop_first() =~= ms);
        }
    }
}

/// Parsing at the start of a printed activity list (closing bracket
/// included) gives the names back.
pub proof fn lemma_parse_acts_of_enc(s: Seq<char>, i: int, acts: Seq<Seq<char>>)
    requires
        0 <= i,
        i + spec_enc_acts(acts).len() + 1 <= s.len(),
        s.subrange(i, i + spec_enc_acts(acts).len() + 1) == spec_enc_acts(acts) + seq![']'],
    ensures
        spec_parse_acts(s, i) == Some((acts, i + spec_enc_acts(acts).len() + 1)),
    decreases acts.len(),
{
    if acts.len() == 0 {
        assert(s.subrange(i, i + 1)[0] == ']');
        assert(acts =~= Seq::<Seq<char>>::empty());
    } else {
        let q = spec_enc_str(acts[0]);
        if acts.len() == 1 {
            assert(spec_enc_acts(acts) + seq![']'] =~= q + seq![']']);
            lemma_sub_split(s, i, q, seq![']']);
            let j = i + q.len();
            assert(s.subrange(j, j + 1)[0] == ']');
            lemma_parse_quoted_of_enc(s, i, acts[0]);
            assert(s.subrange(i, j)[0] == q[0]);
            assert(s[i] == '"');
            assert(seq![acts[0]] =~= acts);
        } else {
            let rest = spec_enc_acts(acts.drop_first());
            assert(spec_enc_acts(acts) + seq![']'] =~= q + (seq![','] + (rest + seq![']'])));
            lemma_sub_split(s, i, q, seq![','] + (rest + seq![']']));
            let j = i + q.len();
            lemma_sub_split(s, j, seq![','], rest + seq![']']);
            assert(s.subrange(j, j + 1)[0] == ',');
            lemma_parse_quoted_of_enc(s, i, acts[0]);
            assert(s.subrange(i, j)[0] == q[0]);
            assert(s[i] == '"');
            lemma_parse_acts_of_enc(s, j + 1, acts.drop_first());
            assert(seq![acts[0]] + acts.drop_first() =~= acts);
        }
    }
}

/// Parsing at the start of a printed entry gives the entry back.
#[verifier::rlimit(100)]
#[verifier::spinoff_prover]
pub proof fn lemma_parse_entry_of_enc(s: Seq<char>, i: int, e: EntryView)
    requires
        spec_entry_i64(e),
        0 <= i,
        i + spec_enc_entry(e).len() <= s.len(),
        s.subrange(i, i + spec_enc_entry(e).len()) == spec_enc_entry(e),
    ensures
        spec_parse_entry(s, i) == Some((e, i + spec_enc_entry(e).len())),
{
    let d1 = spec_dec_int(e.rating_centi);
    let d2 = spec_dec_int(e.utc_secs);
    let d3 = spec_dec_int(e.offset_secs);
    let q = spec_enc_str(e.note);
    let mb = spec_enc_moods(e.moods) + seq![']'];
    let ab = spec_enc_acts(e.activities) + seq![']'];
    let r12: Seq<char> = seq!['}'];
    let r11 = ab + r12;
    let r10 = lit_acts() + r11;
    let r9 = mb + r10;
    let r8 = lit_moods() + r9;
    let r7 = q + r8;
    let r6 = lit_note() + r7;
    let r5 = d3 + r6;
    let r4 = lit_offset() + r5;
    let r3 = d2 + r4;
    let r2 = lit_secs() + r3;
    let r1 = d1 + r2;
    assert(spec_enc_entry(e) == lit_entry_rating() + r1);
    lemma_sub_split(s, i, lit_entry_rating(), r1);
    let p1 = i + lit_entry_rating().len();
    lemma_sub_split(s, p1, d1, r2);
    let p2 = p1 + d1.len();
    lemma_sub_split(s, p2, lit_secs(), r3);
    let p3 = p2 + lit_secs().len();
    lemma_sub_split(s, p3, d2, r4);
    let p4 = p3 + d2.len();
    lemma_sub_split(s, p4, lit_offset(), r5);
    let p5 = p4 + lit_offset().len();
    lemma_sub_split(s, p5, d3, r6);
    let p6 = p5 + d3.len();
    lemma_sub_split(s, p6, lit_note(), r7);
    let p7 = p6 + lit_note().len();
    lemma_sub_split(s, p7, q, r8);
    let p8 = p7 + q.len();
    lemma_sub_split(s, p8, lit_moods(), r9);
    let p9 = p8 + lit_moods().len();
    lemma_sub_split(s, p9, mb, r10);
    let p10 = p9 + mb.len();
    lemma_sub_split(s, p10, lit_acts(), r11);
    let p11 = p10 + lit_acts().len();
    lemma_sub_split(s, p11, ab, r12);
    let p12 = p11 + ab.len();
    // the three integers are each followed by a comma
    assert(s.subrange(p2, p2 + lit_secs().len())[0] == ',');
    assert(!spec_is_digit(s[p2]));
    lemma_parse_int_of_enc(s, p1, e.rating_centi);
    assert(s.subrange(p4, p4 + lit_offset().len())[0] == ',');
    assert(!spec_is_digit(s[p4]));
    lemma_parse_int_of_enc(s, p3, e.utc_secs);
    assert(s.subrange(p6, p6 + lit_note().len())[0] == ',');
    assert(!spec_is_digit(s[p6]));
    lemma_parse_int_of_enc(s, p5, e.offset_secs);
    lemma_parse_quoted_of_enc(s, p7, e.note);
    lemma_parse_moods_of_enc(s, p9, e.moods);
    lemma_parse_acts_of_enc(s, p11, e.activities);
    assert(s.subrange(p12, p12 + 1)[0] == '}');
    assert(spec_parse_lit(s, i, lit_entry_rating()) == Some(p1));
    assert(spec_parse_lit(s, p2, lit_secs()) == Some(p3));
    assert(spec_parse_lit(s, p4, lit_offset()) == Some(p5));
    assert(spec_parse_lit(s, p6, lit_note()) == Some(p7));
    assert(spec_parse_lit(s, p8, lit_moods()) == Some(p9));
    assert(spec_parse_lit(s, p10, lit_acts()) == Some(p11));
}

/// Parsing at the start of a printed entry list (closing bracket included)
/// gives the entries back.
#[verifier::rlimit(100)]
#[verifier::spinoff_prover]
pub proof fn lemma_parse_entries_of_enc(s: Seq<char>, i: int, es: Seq<EntryView>)
    requires
        forall|k: int| 0 <= k < es.len() ==> spec_entry_i64(#[trigger] es[k]),
        0 <= i,
        i + spec_enc_entries(es).len() + 1 <= s.len(),
        s.subrange(i, i + spec_enc_entries(es).len() + 1) == spec_enc_entries(es) + seq![']'],
    ensures
        spec_parse_entries(s, i) == Some((es, i + spec_enc_entries(es).len() + 1)),
    decreases es.len(),
{
    if es.len() == 0 {
        assert(s.subrange(i, i + 1)[0] == ']');
        assert(es =~= Seq::<EntryView>::empty());
    } else {
        let en = spec_enc_entry(es[0]);
        if es.len() == 1 {
            assert(spec_enc_entries(es) + seq![']'] =~= en + seq![']']);
            lemma_sub_split(s, i, en, seq![']']);
            let j = i + en.len();
            assert(s.subrange(j, j + 1)[0] == ']');
            lemma_parse_entry_of_enc(s, i, es[0]);
            assert(s.subrange(i, j)[0] == en[0]);
            assert(s[i] == '{');
            assert(seq![es[0]] =~= es);
        } else {
            let rest = spec_enc_entries(es.drop_first());
            assert(spec_enc_entries(es) + seq![']'] =~= en + (seq![','] + (rest + seq![']'])));
            lemma_sub_split(s, i, en, seq![','] + (rest + seq![']']));
            let j = i + en.len();
            lemma_sub_split(s, j, seq![','], rest + seq![']']);
            assert(s.subrange(j, j + 1)[0] == ',');
            lemma_parse_entry_of_enc(s, i, es[0]);
            assert(s.subrange(i, j)[0] == en[0]);
            assert(s[i] == '{');
            assert(forall|k: int|
                0 <= k < es.drop_first().len() ==> spec_entry_i64(#[trigger] es.drop_first()[k]));
            lemma_parse_entries_of_enc(s, j + 1, es.drop_first());
            assert(seq![es[0]] + es.drop_first() =~= es);
        }
    }
}

/// Loading a saved entry list gives the list back: the whole-save parser
/// inverts the whole-save printer.
pub proof fn lemma_save_round_trip(es: Seq<EntryView>)
    requires
        forall|k: int| 0 <= k < es.len() ==> spec_entry_i64(#[trigger] es[k]),
    ensures
        spec_parse_save(spec_enc_save(es)) == Some(es),
{
    let s = spec_enc_save(es);
    assert(s[0] == '[');
    assert(s.subrange(1, s.len() as int) =~= spec_enc_entries(es) + seq![']']);
    assert(s.subrange(1, 1 + spec_enc_entries(es).len() as int + 1) =~= spec_enc_entries(es)
        + seq![']']);
    lemma_parse_entries_of_enc(s, 1, es);
}

// ---------------------------------------------------------------------------
// Executable printer
// ---------------------------------------------------------------------------
/// Appends the printed mood codes from position `start` on (separators
/// included, brackets not).
fn push_moods(out: &mut Vec<char>, ms: &Vec<MoodTag>, start: usize)
    requires
        start <= ms@.len(),
    ensures
        final(out)@ == old(out)@ + spec_enc_moods(ms@.skip(start as int)),
    decreases ms@.len() - start,
{
    if start < ms.len() {
        let code = mood_code(ms[start]);
        push_dec_i64(out, code);
        proof {
            assert(ms@.skip(start as int)[0] == ms@[start as int]);
        }
        if start + 1 < ms.len() {
            out.push(',');
            push_moods(out, ms, start + 1);
            proof {
                assert(ms@.skip(start as int).drop_first() =~= ms@.skip(start + 1));
                assert(final(out)@ =~= old(out)@ + spec_enc_moods(ms@.skip(start as int)));
            }
        } else {
            proof {
                assert(ms@.skip(start as int).len() == 1);
            }
        }
    } else {
        proof {
            assert(ms@.skip(start as int) =~= Seq::<MoodTag>::empty());
            assert(old(out)@ + spec_enc_moods(ms@.skip(start as int)) =~= old(out)@);
        }
    }
}

/// Appends the printed activity names from position `start` on.
fn push_acts(out: &mut Vec<char>, acts: &Vec<Activity>, start: usize)
    requires
        start <= acts@.len(),
    ensures
        final(out)@ == old(out)@ + spec_enc_acts(
            acts@.map_values(|a: Activity| a@).skip(start as int),
        ),
    decreases acts@.len() - start,
{
    let ghost names = acts@.map_values(|a: Activity| a@);
    if start < acts.len() {
        let name = chars_of(acts[start].get_activity_name());
        push_quoted(out, &name);
        proof {
            assert(names.skip(start as int)[0] == names[start as int]);
            assert(names[start as int] == acts@[start as int]@);
        }
        if start + 1 < acts.len() {
            out.push(',');
            push_acts(out, acts, start + 1);
            proof {
                assert(names.skip(start as int).drop_first() =~= names.skip(start + 1));
                assert(final(out)@ =~= old(out)@ + spec_enc_acts(names.skip(start as int)));
            }
        } else {
            proof {
                assert(names.skip(start as int).len() == 1);
            }
        }
    } else {
        proof {
            assert(names.skip(start as int) =~= Seq::<Seq<char>>::empty());
            assert(old(out)@ + spec_enc_acts(names.skip(start as int)) =~= old(out)@);
        }
    }
}

/// Appends one printed entry record.
#[verifier::rlimit(100)]
#[verifier::spinoff_prover]
fn push_entry(out: &mut Vec<char>, e: &ImprovedDayStat)
    ensures
        final(out)@ == old(out)@ + spec_enc_entry(e@),
{
    let la = chars_of("{\"rating\":");
    let lb = chars_of(",\"secs\":");
    let lc = chars_of(",\"offset\":");
    let ld = chars_of(",\"note\":");
    let le = chars_of(",\"moods\":[");
    let lf = chars_of(",\"activities\":[");
    proof {
        reveal_strlit("{\"rating\":");
        reveal_strlit(",\"secs\":");
        reveal_strlit(",\"offset\":");
        reveal_strlit(",\"note\":");
        reveal_strlit(",\"moods\":[");
        reveal_strlit(",\"activities\":[");
        assert(la@ =~= lit_entry_rating());
        assert(lb@ =~= lit_secs());
        assert(lc@ =~= lit_offset());
        assert(ld@ =~= lit_note());
        assert(le@ =~= lit_moods());
        assert(lf@ =~= lit_acts());
    }
    push_chars(out, &la);
    push_dec_i64(out, e.get_rating());
    push_chars(out, &lb);
    push_dec_i64(out, e.get_date());
    push_chars(out, &lc);
    push_dec_i64(out, e.get_utc_offset());
    push_chars(out, &ld);
    let note = chars_of(e.get_note());
    push_quoted(out, &note);
    push_chars(out, &le);
    push_moods(out, e.get_mood_tags(), 0);
    out.push(']');
    push_chars(out, &lf);
    push_acts(out, e.get_activities(), 0);
    out.push(']');
    out.push('}');
    proof {
        assert(e@.moods.skip(0) =~= e@.moods);
        assert(e@.activities.skip(0) =~= e@.activities);
        assert(final(out)@ =~= old(out)@ + spec_enc_entry(e@));
    }
}

/// Appends the printed entries from position `start` on.
fn push_entries(out: &mut Vec<char>, days: &Vec<ImprovedDayStat>, start: usize)
    requires
        start <= days@.len(),
    ensures
        final(out)@ == old(out)@ + spec_enc_entries(
            days@.map_values(|d: ImprovedDayStat| d@).skip(start as int),
        ),
    decreases days@.len() - start,
{
    let ghost views = days@.map_values(|d: ImprovedDayStat| d@);
    if start < days.len() {
        push_entry(out, &days[start]);
        proof {
            assert(views.skip(start as int)[0] == views[start as int]);
            assert(views[start as int] == days@[start as int]@);
        }
        if start + 1 < days.len() {
            out.push(',');
            push_entries(out, days, start + 1);
            proof {
                assert(views.skip(start as int).drop_first() =~= views.skip(start + 1));
                assert(final(out)@ =~= old(out)@ + spec_enc_entries(views.skip(start as int)));
            }
        } else {
            proof {
                assert(views.skip(start as int).len() == 1);
            }
        }
    } else {
        proof {
            assert(views.skip(start as int) =~= Seq::<EntryView>::empty());
            assert(old(out)@ + spec_enc_entries(views.skip(start as int)) =~= old(out)@);
        }
    }
}

/// Prints a whole entry list in the current save layout.
pub fn encode_entries(days: &Vec<ImprovedDayStat>) -> (r: String)
    ensures
        r@ == spec_enc_save(days@.map_values(|d: ImprovedDayStat| d@)),
{
    let mut buf: Vec<char> = Vec::new();
    buf.push('[');
    push_entries(&mut buf, days, 0);
    buf.push(']');
    proof {
        let views = days@.map_values(|d: ImprovedDayStat| d@);
        assert(views.skip(0) =~= views);
        assert(buf@ =~= spec_enc_save(views));
    }
    string_from_chars(&buf)
}

// ---------------------------------------------------------------------------
// Executable parser
// ---------------------------------------------------------------------------
/// Parses a quoted string at `i`, as `spec_parse_quoted` describes.
fn parse_quoted(s: &Vec<char>, i: usize) -> (r: Option<(Vec<char>, usize)>)
    requires
        i <= s@.len(),
    ensures
        r is None <==> spec_parse_quoted(s@, i as int) is None,
        r matches Some(p) ==> spec_parse_quoted(s@, i as int) == Some((p.0@, p.1 as int)) && i
            < p.1 <= s@.len(),
{
    if i < s.len() && s[i] == '"' {
        parse_str(s, i + 1)
    } else {
        None
    }
}

/// Parses a non-empty mood list, as `spec_parse_moods_rest` describes.
fn parse_moods_rest(s: &Vec<char>, i: usize) -> (r: Option<(Vec<MoodTag>, usize)>)
    requires
        i <= s@.len(),
    ensures
        r is None <==> spec_parse_moods_rest(s@, i as int) is None,
        r matches Some(p) ==> spec_parse_moods_rest(s@, i as int) == Some((p.0@, p.1 as int)) && i
            < p.1 <= s@.len(),
    decreases s@.len() - i,
{
    if i >= s.len() {
        return None;
    }
    match parse_int(s, i) {
        None => None,
        Some((v, j)) => {
            match mood_from_code(v) {
                None => None,
                Some(m) => {
                    if j < s.len() && s[j] == ',' {
                        match parse_moods_rest(s, j + 1) {
                            None => None,
                            Some((rest, k)) => {
                                let mut out = rest;
                                out.insert(0, m);
                                proof {
                                    assert(out@ =~= seq![m] + out@.subrange(1, out@.len() as int));
                                }
                                Some((out, k))
                            },
                        }
                    } else if j < s.len() && s[j] == ']' {
                        let mut out: Vec<MoodTag> = Vec::new();
                        out.push(m);
                        proof {
                            assert(out@ =~= seq![m]);
                        }
                        Some((out, j + 1))
                    } else {
                        None
                    }
                },
            }
        },
    }
}

/// Parses a possibly empty mood list, as `spec_parse_moods` describes.
fn parse_moods(s: &Vec<char>, i: usize) -> (r: Option<(Vec<MoodTag>, usize)>)
    requires
        i <= s@.len(),
    ensures
        r is None <==> spec_parse_moods(s@, i as int) is None,
        r matches Some(p) ==> spec_parse_moods(s@, i as int) == Some((p.0@, p.1 as int)) && i < p.1
            <= s@.len(),
{
    if i < s.len() && s[i] == ']' {
        Some((Vec::new(), i + 1))
    } else {
        parse_moods_rest(s, i)
    }
}

/// Parses a non-empty activity list, as `spec_parse_acts_rest` describes.
fn parse_acts_rest(s: &Vec<char>, i: usize) -> (r: Option<(Vec<Activity>, usize)>)
    requires
        i <= s@.len(),
    ensures
        r is None <==> spec_parse_acts_rest(s@, i as int) is None,
        r matches Some(p) ==> spec_parse_acts_rest(s@, i as int) == Some(
            (p.0@.map_values(|a: Activity| a@), p.1 as int),
        ) && i < p.1 <= s@.len(),
    decreases s@.len() - i,
{
    if i >= s.len() {
        return None;
    }
    match parse_quoted(s, i) {
        None => None,
        Some((name, j)) => {
            let text = string_from_chars(&name);
            let act = Activity::new(text.as_str());
            if j < s.len() && s[j] == ',' {
                match parse_acts_rest(s, j + 1) {
                    None => None,
                    Some((rest, k)) => {
                        let ghost rest_names = rest@.map_values(|a: Activity| a@);
                        let mut out = rest;
                        out.insert(0, act);
                        proof {
                            let mapped = out@.map_values(|a: Activity| a@);
                            assert forall|q: int|
                                0 <= q < mapped.len() implies #[trigger] mapped[q] == (seq![name@]
                                + rest_names)[q] by {
                                if q > 0 {
                                    assert(out@[q] == rest@[q - 1]);
                                    assert(rest_names[q - 1] == rest@[q - 1]@);
                                }
                            }
                            assert(mapped =~= seq![name@] + rest_names);
                        }
                        Some((out, k))
                    },
                }
            } else if j < s.len() && s[j] == ']' {
                let mut out: Vec<Activity> = Vec::new();
                out.push(act);
                proof {
                    assert(out@.map_values(|a: Activity| a@) =~= seq![name@]);
                }
                Some((out, j + 1))
            } else {
                None
            }
        },
    }
}

/// Parses a possibly empty activity list, as `spec_parse_acts` describes.
fn parse_acts(s: &Vec<char>, i: usize) -> (r: Option<(Vec<Activity>, usize)>)
    requires
        i <= s@.len(),
    ensures
        r is None <==> spec_parse_acts(s@, i as int) is None,
        r matches Some(p) ==> spec_parse_acts(s@, i as int) == Some(
            (p.0@.map_values(|a: Activity| a@), p.1 as int),
        ) && i < p.1 <= s@.len(),
{
    if i < s.len() && s[i] == ']' {
        let out: Vec<Activity> = Vec::new();
        proof {
            assert(out@.map_values(|a: Activity| a@) =~= Seq::<Seq<char>>::empty());
        }
        Some((out, i + 1))
    } else {
        parse_acts_rest(s, i)
    }
}

/// Parses one entry record, as `spec_parse_entry` describes.
fn parse_entry(s: &Vec<char>, i: usize) -> (r: Option<(ImprovedDayStat, usize)>)
    requires
        i <= s@.len(),
    ensures
        r is None <==> spec_parse_entry(s@, i as int) is None,
        r matches Some(p) ==> spec_parse_entry(s@, i as int) == Some((p.0@, p.1 as int)) && i < p.1
            <= s@.len(),
{
    let la = chars_of("{\"rating\":");
    let lb = chars_of(",\"secs\":");
    let lc = chars_of(",\"offset\":");
    let ld = chars_of(",\"note\":");
    let le = chars_of(",\"moods\":[");
    let lf = chars_of(",\"activities\":[");
    proof {
        reveal_strlit("{\"rating\":");
        reveal_strlit(",\"secs\":");
        reveal_strlit(",\"offset\":");
        reveal_strlit(",\"note\":");
        reveal_strlit(",\"moods\":[");
        reveal_strlit(",\"activities\":[");
        assert(la@ =~= lit_entry_rating());
        assert(lb@ =~= lit_secs());
        assert(lc@ =~= lit_offset());
        assert(ld@ =~= lit_note());
        assert(le@ =~= lit_moods());
        assert(lf@ =~= lit_acts());
    }
    let p1 = match expect_lit(s, i, &la) {
        None => {
            return None;
        },
        Some(p) => p,
    };
    let (rating, p2) = match parse_int(s, p1) {
        None => {
            return None;
        },
        Some(p) => p,
    };
    let p3 = match expect_lit(s, p2, &lb) {
        None => {
            return None;
        },
        Some(p) => p,
    };
    let (secs, p4) = match parse_int(s, p3) {
        None => {
            return None;
        },
        Some(p) => p,
    };
    let p5 = match expect_lit(s, p4, &lc) {
        None => {
            return None;
        },
        Some(p) => p,
    };
    let (off, p6) = match parse_int(s, p5) {
        None => {
            return None;
        },
        Some(p) => p,
    };
    let p7 = match expect_lit(s, p6, &ld) {
        None => {
            return None;
        },
        Some(p) => p,
    };
    let (note, p8) = match parse_quoted(s, p7) {
        None => {
            return None;
        },
        Some(p) => p,
    };
    let p9 = match expect_lit(s, p8, &le) {
        None => {
            return None;
        },
        Some(p) => p,
    };
    let (moods, p10) = match parse_moods(s, p9) {
        None => {
            return None;
        },
        Some(p) => p,
    };
    let p11 = match expect_lit(s, p10, &lf) {
        None => {
            return None;
        },
        Some(p) => p,
    };
    let (acts, p12) = match parse_acts(s, p11) {
        None => {
            return None;
        },
        Some(p) => p,
    };
    if p12 < s.len() && s[p12] == '}' {
        let note_text = string_from_chars(&note);
        let entry = ImprovedDayStat::new(rating, secs, off, note_text.as_str(), moods, acts);
        Some((entry, p12 + 1))
    } else {
        None
    }
}

/// Parses a non-empty entry list, as `spec_parse_entries_rest` describes.
fn parse_entries_rest(s: &Vec<char>, i: usize) -> (r: Option<(Vec<ImprovedDayStat>, usize)>)
    requires
        i <= s@.len(),
    ensures
        r is None <==> spec_parse_entries_rest(s@, i as int) is None,
        r matches Some(p) ==> spec_parse_entries_rest(s@, i as int) == Some(
            (p.0@.map_values(|d: ImprovedDayStat| d@), p.1 as int),
        ) && i < p.1 <= s@.len(),
    decreases s@.len() - i,
{
    if i >= s.len() {
        return None;
    }
    match parse_entry(s, i) {
        None => None,
        Some((e, j)) => {
            let ghost ev = e@;
            if j < s.len() && s[j] == ',' {
                match parse_entries_rest(s, j + 1) {
                    None => None,
                    Some((rest, k)) => {
                        let ghost rest_views = rest@.map_values(|d: ImprovedDayStat| d@);
                        let mut out = rest;
                        out.insert(0, e);
                        proof {
                            let mapped = out@.map_values(|d: ImprovedDayStat| d@);
                            assert forall|q: int|
                                0 <= q < mapped.len() implies #[trigger] mapped[q] == (seq![ev]
                                + rest_views)[q] by {
                                if q > 0 {
                                    assert(out@[q] == rest@[q - 1]);
                                    assert(rest_views[q - 1] == rest@[q - 1]@);
                                }
                            }
                            assert(mapped =~= seq![ev] + rest_views);
                        }
                        Some((out, k))
                    },
                }
            } else if j < s.len() && s[j] == ']' {
                let mut out: Vec<ImprovedDayStat> = Vec::new();
                out.push(e);
                proof {
                    assert(out@.map_values(|d: ImprovedDayStat| d@) =~= seq![ev]);
                }
                Some((out, j + 1))
            } else {
                None
            }
        },
    }
}

/// Parses a possibly empty entry list, as `spec_parse_entries` describes.
fn parse_entries(s: &Vec<char>, i: usize) -> (r: Option<(Vec<ImprovedDayStat>, usize)>)
    requires
        i <= s@.len(),
    ensures
        r is None <==> spec_parse_entries(s@, i as int) is None,
        r matches Some(p) ==> spec_parse_entries(s@, i as int) == Some(
            (p.0@.map_values(|d: ImprovedDayStat| d@), p.1 as int),
        ) && i < p.1 <= s@.len(),
{
    if i < s.len() && s[i] == ']' {
        let out: Vec<ImprovedDayStat> = Vec::new();
        proof {
            assert(out@.map_values(|d: ImprovedDayStat| d@) =~= Seq::<EntryView>::empty());
        }
        Some((out, i + 1))
    } else {
        parse_entries_rest(s, i)
    }
}

/// Round trip of the codec: parsing a just-printed entry list always
/// succeeds and gives back entries equal to the originals, field for field.
pub fn encode_then_decode(days: &Vec<ImprovedDayStat>) -> (r: Vec<ImprovedDayStat>)
    ensures
        r@.map_values(|d: ImprovedDayStat| d@) == days@.map_values(|d: ImprovedDayStat| d@),
{
    let text = encode_entries(days);
    proof {
        let views = days@.map_values(|d: ImprovedDayStat| d@);
        assert forall|k: int| 0 <= k < views.len() implies spec_entry_i64(#[trigger] views[k]) by {
            assert(views[k] == days@[k]@);
            crate::improved_daystat::lemma_entry_view_fits_i64(&days@[k]);
        }
        lemma_save_round_trip(views);
    }
    let parsed = decode_entries(text.as_str());
    match parsed {
        Some(v) => v,
        None => {
            proof {
                assert(false);
            }
            Vec::new()
        },
    }
}

/// Parses a whole save text in the current layout.
pub fn decode_entries(text: &str) -> (r: Option<Vec<ImprovedDayStat>>)
    ensures
        r is None <==> spec_parse_save(text@) is None,
        r matches Some(v) ==> spec_parse_save(text@) == Some(
            v@.map_values(|d: ImprovedDayStat| d@),
        ),
{
    let s = chars_of(text);
    if s.len() < 1 {
        return None;
    }
    if s[0] != '[' {
        return None;
    }
    match parse_entries(&s, 1) {
        None => None,
        Some((v, j)) => {
            if j == s.len() {
                Some(v)
            } else {
                None
            }
        },
    }
}

} // verus!
