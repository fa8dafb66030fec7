//! The historical save layout: per-record primitive fields with an integer
//! unix-seconds timestamp and no mood or activity fields. Loading migrates
//! each record into a current entry under a caller-supplied fixed zone
//! offset.
use vstd::prelude::*;

use crate::improved_daystat::{EntryView, ImprovedDayStat};
use crate::json::{
    expect_lit, parse_int, parse_str, spec_digit_run_end, spec_digit_val, spec_digits_val,
    spec_is_digit, spec_parse_int, spec_parse_lit, spec_parse_str,
};
use crate::text::{chars_of, string_from_chars};

verus! {

/// Largest whole-point magnitude a stored rating may have: keeps the value
/// in hundredths inside an `i64`.
pub open spec fn spec_centi_whole_limit() -> int {
    92233720368547757
}

/// Parses a decimal number with an optional fraction at `i` and returns its
/// value in hundredths of a unit, truncated after two fraction digits.
pub open spec fn spec_parse_centi(s: Seq<char>, i: int) -> Option<(int, int)> {
    let neg = 0 <= i && i < s.len() && s[i] == '-';
    let i0 = if neg {
        i + 1
    } else {
        i
    };
    if i0 < 0 || i0 > s.len() {
        None
    } else {
        let j = spec_digit_run_end(s, i0);
        let v0 = spec_digits_val(s, i0, j);
        if j == i0 || v0 > spec_centi_whole_limit() {
            None
        } else if j < s.len() && s[j] == '.' {
            let k = spec_digit_run_end(s, j + 1);
            if k == j + 1 {
                None
            } else {
                let frac2 = if k == j + 2 {
                    spec_digit_val(s[j + 1]) * 10
                } else {
                    spec_digit_val(s[j + 1]) * 10 + spec_digit_val(s[j + 2])
                };
                let centi = v0 * 100 + frac2;
                Some(
                    (
                        if neg {
                            -centi
                        } else {
                            centi
                        },
                        k,
                    ),
                )
            }
        } else {
            let centi = v0 * 100;
            Some(
                (
                    if neg {
                        -centi
                    } else {
                        centi
                    },
                    j,
                ),
            )
        }
    }
}

pub open spec fn lit_legacy_rating() -> Seq<char> {
    seq!['{', '"', 'r', 'a', 't', 'i', 'n', 'g', '"', ':']
}

pub open spec fn lit_legacy_date() -> Seq<char> {
    seq![',', '"', 'd', 'a', 't', 'e', '"', ':']
}

pub open spec fn lit_legacy_note() -> Seq<char> {
    seq![',', '"', 'n', 'o', 't', 'e', '"', ':', '"']
}

/// Parses one historical record at `i`; a matched record becomes a current
/// entry with the given fixed zone offset and no moods or activities.
pub open spec fn spec_parse_legacy_entry(s: Seq<char>, i: int, offset: int) -> Option<
    (EntryView, int),
> {
    match spec_parse_lit(s, i, lit_legacy_rating()) {
        None => None,
        Some(p1) => match spec_parse_centi(s, p1) {
            None => None,
            Some((rating, p2)) => match spec_parse_lit(s, p2, lit_legacy_date()) {
                None => None,
                Some(p3) => match spec_parse_int(s, p3) {
                    None => None,
                    Some((date, p4)) => match spec_parse_lit(s, p4, lit_legacy_note()) {
                        None => None,
                        Some(p5) => match spec_parse_str(s, p5) {
                            None => None,
                            Some((note, p6)) => if p6 < s.len() && s[p6] == '}' {
                                Some(
                                    (
                                        EntryView {
                                            rating_centi: rating,
                                            utc_secs: date,
                                            offset_secs: offset,
                                            note,
                                            moods: Seq::empty(),
                                            activities: Seq::empty(),
                                        },
                                        p6 + 1,
                                    ),
                                )
                            } else {
                                None
                            },
                        },
                    },
                },
            },
        },
    }
}

/// Parses a non-empty, comma-separated list of historical records, up to and
/// including the closing bracket.
pub open spec fn spec_parse_legacy_rest(s: Seq<char>, i: int, offset: int) -> Option<
    (Seq<EntryView>, int),
>
    decreases s.len() - i,
{
    if i < 0 || i >= s.len() {
        None
    } else {
        match spec_parse_legacy_entry(s, i, offset) {
            None => None,
            Some((e, j)) => if !(i < j && j <= s.len()) {
                None
            } else if j < s.len() && s[j] == ',' {
                match spec_parse_legacy_rest(s, j + 1, offset) {
                    None => None,
                    Some((es, k)) => Some((seq![e] + es, k)),
                }
            } else if j < s.len() && s[j] == ']' {
                Some((seq![e], j + 1))
            } else {
                None
            },
        }
    }
}

/// Parses a whole historical save text; the record list must span the whole
/// text.
pub open spec fn spec_parse_legacy_save(s: Seq<char>, offset: int) -> Option<Seq<EntryView>> {
    if s.len() < 1 || s[0] != '[' {
        None
    } else {
        let inner = if 1 < s.len() && s[1] == ']' {
            Some((Seq::<EntryView>::empty(), 2int))
        } else {
            spec_parse_legacy_rest(s, 1, offset)
        };
        match inner {
            None => None,
            Some((es, j)) => if j == s.len() {
                Some(es)
            } else {
                None
            },
        }
    }
}

/// Parses a decimal number with an optional fraction, as `spec_parse_centi`
/// describes.
fn parse_centi(s: &Vec<char>, i: usize) -> (r: Option<(i64, usize)>)
    requires
        i <= s@.len(),
    ensures
        r is None <==> spec_parse_centi(s@, i as int) is None,
        r matches Some(p) ==> spec_parse_centi(s@, i as int) == Some((p.0 as int, p.1 as int)) && i
            < p.1 <= s@.len(),
{
    let neg = i < s.len() && s[i] == '-';
    let i0: usize = if neg {
        i + 1
    } else {
        i
    };
    let mut j: usize = i0;
    let mut acc: u64 = 0;
    while j < s.len() && '0' <= s[j] && s[j] <= '9'
        invariant
            i <= s@.len(),
            neg == (i < s@.len() && s@[i as int] == '-'),
            i0 == if neg {
                i + 1
            } else {
                i as int
            },
            i0 <= j <= s@.len(),
            acc == spec_digits_val(s@, i0 as int, j as int),
            acc <= 92233720368547757,
            forall|k: int| i0 <= k < j ==> spec_is_digit(#[trigger] s@[k]),
            spec_digit_run_end(s@, i0 as int) == spec_digit_run_end(s@, j as int),
        decreases s@.len() - j,
    {
        let d: u8 = (s[j] as u8) - 48;
        let next: u64 = acc * 10 + (d as u64);
        proof {
            assert(spec_digits_val(s@, i0 as int, j + 1) == spec_digits_val(s@, i0 as int, j as int)
                * 10 + spec_digit_val(s@[j as int]));
            assert(spec_digit_run_end(s@, j as int) == spec_digit_run_end(s@, j + 1));
        }
        if next > 92233720368547757 {
            proof {
                let e = spec_digit_run_end(s@, i0 as int);
                crate::json::lemma_digit_run_end_bounds(s@, j + 1);
                crate::json::lemma_digits_val_mono(s@, i0 as int, j + 1, e);
            }
            return None;
        }
        acc = next;
        j = j + 1;
    }
    proof {
        assert(spec_digit_run_end(s@, j as int) == j);
    }
    if j == i0 {
        return None;
    }
    let whole: i64 = (acc as i64) * 100;
    if j < s.len() && s[j] == '.' {
        let f1: usize = j + 1;
        let mut k: usize = f1;
        while k < s.len() && '0' <= s[k] && s[k] <= '9'
            invariant
                f1 <= k <= s@.len(),
                forall|m: int| f1 <= m < k ==> spec_is_digit(#[trigger] s@[m]),
                spec_digit_run_end(s@, f1 as int) == spec_digit_run_end(s@, k as int),
            decreases s@.len() - k,
        {
            proof {
                assert(spec_digit_run_end(s@, k as int) == spec_digit_run_end(s@, k + 1));
            }
            k = k + 1;
        }
        proof {
            assert(spec_digit_run_end(s@, k as int) == k);
        }
        if k == f1 {
            return None;
        }
        let d1: u8 = (s[f1] as u8) - 48;
        let frac2: i64 = if k == f1 + 1 {
            (d1 as i64) * 10
        } else {
            let d2: u8 = (s[f1 + 1] as u8) - 48;
            (d1 as i64) * 10 + (d2 as i64)
        };
        let centi: i64 = whole + frac2;
        if neg {
            Some((-centi, k))
        } else {
            Some((centi, k))
        }
    } else {
        if neg {
            Some((-whole, j))
        } else {
            Some((whole, j))
        }
    }
}

/// Parses one historical record, as `spec_parse_legacy_entry` describes.
fn parse_legacy_entry(s: &Vec<char>, i: usize, offset: i64) -> (r: Option<(ImprovedDayStat, usize)>)
    requires
        i <= s@.len(),
    ensures
        r is None <==> spec_parse_legacy_entry(s@, i as int, offset as int) is None,
        r matches Some(p) ==> spec_parse_legacy_entry(s@, i as int, offset as int) == Some(
            (p.0@, p.1 as int),
        ) && i < p.1 <= s@.len(),
{
    let la = chars_of("{\"rating\":");
    let lb = chars_of(",\"date\":");
    let lc = chars_of(",\"note\":\"");
    proof {
        reveal_strlit("{\"rating\":");
        reveal_strlit(",\"date\":");
        reveal_strlit(",\"note\":\"");
        assert(la@ =~= lit_legacy_rating());
        assert(lb@ =~= lit_legacy_date());
        assert(lc@ =~= lit_legacy_note());
    }
    let p1 = match expect_lit(s, i, &la) {
        None => {
            return None;
        },
        Some(p) => p,
    };
    let (rating, p2) = match parse_centi(s, p1) {
        None => {
            return None;
        },
        Some(p) => p,
    };
    let p3 = match expect_lit(s, p2, &lb) {
        None => {
            return None;
        },
        Some(p) => p,
    };
    let (date, p4) = match parse_int(s, p3) {
        None => {
            return None;
        },
        Some(p) => p,
    };
    let p5 = match expect_lit(s, p4, &lc) {
        None => {
            return None;
        },
        Some(p) => p,
    };
    let (note, p6) = match parse_str(s, p5) {
        None => {
            return None;
        },
        Some(p) => p,
    };
    if p6 < s.len() && s[p6] == '}' {
        let note_text = string_from_chars(&note);
        let entry = ImprovedDayStat::new(
            rating,
            date,
            offset,
            note_text.as_str(),
            Vec::new(),
            Vec::new(),
        );
        proof {
            assert(entry@.moods =~= Seq::<crate::mood_tag::MoodTag>::empty());
            assert(entry@.activities =~= Seq::<Seq<char>>::empty());
        }
        Some((entry, p6 + 1))
    } else {
        None
    }
}

/// Parses a non-empty historical record list, as `spec_parse_legacy_rest`
/// describes.
fn parse_legacy_rest(s: &Vec<char>, i: usize, offset: i64) -> (r: Option<
    (Vec<ImprovedDayStat>, usize),
>)
    requires
        i <= s@.len(),
    ensures
        r is None <==> spec_parse_legacy_rest(s@, i as int, offset as int) is None,
        r matches Some(p) ==> spec_parse_legacy_rest(s@, i as int, offset as int) == Some(
            (p.0@.map_values(|d: ImprovedDayStat| d@), p.1 as int),
        ) && i < p.1 <= s@.len(),
    decreases s@.len() - i,
{
    if i >= s.len() {
        return None;
    }
    match parse_legacy_entry(s, i, offset) {
        None => None,
        Some((e, j)) => {
            let ghost ev = e@;
            if j < s.len() && s[j] == ',' {
                match parse_legacy_rest(s, j + 1, offset) {
                    None => None,
                    Some((rest, k)) => {
                        let ghost rest_views = rest@.map_values(|d: ImprovedDayStat| d@);
                        let mut out = rest;
                        out.insert(0, e);
                        proof {
                            let mapped = out@.map_values(|d: ImprovedDayStat| d@);
                            assert forall|q: int|
                                0 <= q < mapped.len() implies #[trigger] mapped[q] == (seq![ev]
                                + rest_views)[q] by {
                                if q > 0 {
                                    assert(out@[q] == rest@[q - 1]);
                                    assert(rest_views[q - 1] == rest@[q - 1]@);
                                }
                            }
                            assert(mapped =~= seq![ev] + rest_views);
                        }
                        Some((out, k))
                    },
                }
            } else if j < s.len() && s[j] == ']' {
                let mut out: Vec<ImprovedDayStat> = Vec::new();
                out.push(e);
                proof {
                    assert(out@.map_values(|d: ImprovedDayStat| d@) =~= seq![ev]);
                }
                Some((out, j + 1))
            } else {
                None
            }
        },
    }
}

/// Parses a whole historical save text, as `spec_parse_legacy_save`
/// describes.
pub fn decode_legacy_entries(text: &str, offset: i64) -> (r: Option<Vec<ImprovedDayStat>>)
    ensures
        r is None <==> spec_parse_legacy_save(text@, offset as int) is None,
        r matches Some(v) ==> spec_parse_legacy_save(text@, offset as int) == Some(
            v@.map_values(|d: ImprovedDayStat| d@),
        ),
{
    let s = chars_of(text);
    if s.len() < 1 {
        return None;
    }
    if s[0] != '[' {
        return None;
    }
    if 1 < s.len() && s[1] == ']' {
        if s.len() == 2 {
            let out: Vec<ImprovedDayStat> = Vec::new();
            proof {
                assert(out@.map_values(|d: ImprovedDayStat| d@) =~= Seq::<EntryView>::empty());
            }
            return Some(out);
        } else {
            return None;
        }
    }
    match parse_legacy_rest(&s, 1, offset) {
        None => None,
        Some((v, j)) => {
            if j == s.len() {
                Some(v)
            } else {
                None
            }
        },
    }
}

} // verus!
