//! Textual primitives of the save-file grammar: decimal integers and escaped
//! strings, each with a printer, a parser, and a proof that the parser
//! inverts the printer.
//!
//! Parsers work on a character sequence and a position, and return the parsed
//! value with the position just after it.
use vstd::prelude::*;

verus! {

/// Digit character for one decimal digit.
pub open spec fn spec_digit_char(d: int) -> char
    recommends
        0 <= d <= 9,
{
    (((48 + d) as u8) as char)
}

/// Decimal digits of a non-negative number, most significant first.
pub open spec fn spec_dec_nat(n: int) -> Seq<char>
    recommends
        n >= 0,
    decreases n,
{
    if n <= 9 {
        seq![spec_digit_char(n)]
    } else {
        spec_dec_nat(n / 10) + seq![spec_digit_char(n % 10)]
    }
}

/// Decimal form of an integer, with a leading '-' when negative.
pub open spec fn spec_dec_int(n: int) -> Seq<char> {
    if n < 0 {
        seq!['-'] + spec_dec_nat(-n)
    } else {
        spec_dec_nat(n)
    }
}

pub open spec fn spec_is_digit(c: char) -> bool {
    '0' <= c && c <= '9'
}

pub open spec fn spec_digit_val(c: char) -> int
    recommends
        spec_is_digit(c),
{
    (c as u32) - 48
}

/// End of the digit run that starts at `i`: the first position at or after
/// `i` holding no digit.
pub open spec fn spec_digit_run_end(s: Seq<char>, i: int) -> int
    recommends
        0 <= i <= s.len(),
    decreases s.len() - i,
{
    if i < 0 || i >= s.len() || !spec_is_digit(s[i]) {
        i
    } else {
        spec_digit_run_end(s, i + 1)
    }
}

/// Value of the digits `s[i..j)`, most significant first.
pub open spec fn spec_digits_val(s: Seq<char>, i: int, j: int) -> int
    recommends
        0 <= i <= j <= s.len(),
    decreases j - i,
{
    if j <= i {
        0
    } else {
        spec_digits_val(s, i, j - 1) * 10 + spec_digit_val(s[j - 1])
    }
}

pub const I64_MIN: i64 = -9223372036854775808;

pub const I64_MAX: i64 = 9223372036854775807;

/// Parses a decimal integer at `i`: an optional '-', then a non-empty digit
/// run; fails when there is no digit or the value does not fit an `i64`.
pub open spec fn spec_parse_int(s: Seq<char>, i: int) -> Option<(int, int)> {
    if 0 <= i && i < s.len() && s[i] == '-' {
        let j = spec_digit_run_end(s, i + 1);
        let v = spec_digits_val(s, i + 1, j);
        if j == i + 1 || v > -(I64_MIN as int) {
            None
        } else {
            Some((-v, j))
        }
    } else {
        let j = spec_digit_run_end(s, i);
        let v = spec_digits_val(s, i, j);
        if j == i || v > I64_MAX as int {
            None
        } else {
            Some((v, j))
        }
    }
}

/// Expects the exact characters of `lit` at `i`; on success returns the
/// position just after them.
pub open spec fn spec_parse_lit(s: Seq<char>, i: int, lit: Seq<char>) -> Option<int> {
    if 0 <= i && i + lit.len() <= s.len() && s.subrange(i, i + lit.len()) == lit {
        Some(i + lit.len())
    } else {
        None
    }
}

/// Escape form of one character inside a quoted string.
pub open spec fn spec_esc_char(c: char) -> Seq<char> {
    if c == '"' {
        seq!['\\', '"']
    } else if c == '\\' {
        seq!['\\', '\\']
    } else if c == '\n' {
        seq!['\\', 'n']
    } else if c == '\t' {
        seq!['\\', 't']
    } else if c == '\r' {
        seq!['\\', 'r']
    } else {
        seq![c]
    }
}

/// Escape form of a whole string body (without the surrounding quotes).
pub open spec fn spec_esc(s: Seq<char>) -> Seq<char>
    decreases s.len(),
{
    if s.len() == 0 {
        Seq::empty()
    } else {
        spec_esc_char(s[0]) + spec_esc(s.drop_first())
    }
}

/// A quoted, escaped string.
pub open spec fn spec_enc_str(s: Seq<char>) -> Seq<char> {
    seq!['"'] + spec_esc(s) + seq!['"']
}

pub open spec fn spec_unesc_char(c: char) -> char
    recommends
        c == '"' || c == '\\' || c == 'n' || c == 't' || c == 'r',
{
    if c == 'n' {
        '\n'
    } else if c == 't' {
        '\t'
    } else if c == 'r' {
        '\r'
    } else {
        c
    }
}

/// Parses a string body starting at `i` (just after the opening quote) up to
/// and including the closing quote; returns the unescaped content.
pub open spec fn spec_parse_str(s: Seq<char>, i: int) -> Option<(Seq<char>, int)>
    recommends
        0 <= i,
    decreases s.len() - i,
{
    if i < 0 || i >= s.len() {
        None
    } else if s[i] == '"' {
        Some((Seq::empty(), i + 1))
    } else if s[i] == '\\' {
        if i + 1 < s.len() && (s[i + 1] == '"' || s[i + 1] == '\\' || s[i + 1] == 'n' || s[i + 1]
            == 't' || s[i + 1] == 'r') {
            match spec_parse_str(s, i + 2) {
                None => None,
                Some((t, j)) => Some((seq![spec_unesc_char(s[i + 1])] + t, j)),
            }
        } else {
            None
        }
    } else {
        match spec_parse_str(s, i + 1) {
            None => None,
            Some((t, j)) => Some((seq![s[i]] + t, j)),
        }
    }
}

// ---------------------------------------------------------------------------
// Executable printers
// ---------------------------------------------------------------------------
/// Appends the decimal digits of `n`.
pub fn push_dec_u64(out: &mut Vec<char>, n: u64)
    ensures
        final(out)@ == old(out)@ + spec_dec_nat(n as int),
    decreases n,
{
    if n <= 9 {
        let b: u8 = 48 + (n as u8);
        out.push(b as char);
    } else {
        push_dec_u64(out, n / 10);
        let b: u8 = 48 + ((n % 10) as u8);
        out.push(b as char);
        proof {
            assert(final(out)@ =~= old(out)@ + spec_dec_nat(n as int));
        }
    }
}

/// Appends the decimal form of `n`, with a '-' when negative.
pub fn push_dec_i64(out: &mut Vec<char>, n: i64)
    ensures
        final(out)@ == old(out)@ + spec_dec_int(n as int),
{
    if n < 0 {
        out.push('-');
        let m: u64 = if n == I64_MIN {
            9223372036854775808u64
        } else {
            (-n) as u64
        };
        push_dec_u64(out, m);
        proof {
            assert(final(out)@ =~= old(out)@ + spec_dec_int(n as int));
        }
    } else {
        push_dec_u64(out, n as u64);
    }
}

/// Appends the escape form of the string body `v`.
pub fn push_esc(out: &mut Vec<char>, v: &Vec<char>)
    ensures
        final(out)@ == old(out)@ + spec_esc(v@),
{
    let mut i: usize = 0;
    while i < v.len()
        invariant
            i <= v@.len(),
            out@ == old(out)@ + spec_esc(v@.subrange(0, i as int)),
        decreases v@.len() - i,
    {
        let c = v[i];
        if c == '"' {
            out.push('\\');
            out.push('"');
        } else if c == '\\' {
            out.push('\\');
            out.push('\\');
        } else if c == '\n' {
            out.push('\\');
            out.push('n');
        } else if c == '\t' {
            out.push('\\');
            out.push('t');
        } else if c == '\r' {
            out.push('\\');
            out.push('r');
        } else {
            out.push(c);
        }
        proof {
            lemma_esc_append(v@.subrange(0, i as int), seq![v@[i as int]]);
            assert(v@.subrange(0, i + 1) =~= v@.subrange(0, i as int) + seq![v@[i as int]]);
            lemma_esc_single(v@[i as int]);
            assert(out@ =~= old(out)@ + spec_esc(v@.subrange(0, i + 1)));
        }
        i = i + 1;
    }
    proof {
        assert(v@.subrange(0, v@.len() as int) =~= v@);
    }
}

/// Appends every character of `v`.
pub fn push_chars(out: &mut Vec<char>, v: &Vec<char>)
    ensures
        final(out)@ == old(out)@ + v@,
{
    let mut i: usize = 0;
    while i < v.len()
        invariant
            i <= v@.len(),
            out@ == old(out)@ + v@.subrange(0, i as int),
        decreases v@.len() - i,
    {
        out.push(v[i]);
        proof {
            assert(out@ =~= old(out)@ + v@.subrange(0, i + 1));
        }
        i = i + 1;
    }
    proof {
        assert(v@.subrange(0, v@.len() as int) =~= v@);
    }
}

/// Appends a quoted, escaped string.
pub fn push_quoted(out: &mut Vec<char>, v: &Vec<char>)
    ensures
        final(out)@ == old(out)@ + spec_enc_str(v@),
{
    out.push('"');
    push_esc(out, v);
    out.push('"');
    proof {
        assert(final(out)@ =~= old(out)@ + spec_enc_str(v@));
    }
}

// ---------------------------------------------------------------------------
// Executable parsers
// ---------------------------------------------------------------------------
/// Parses a decimal integer at `i`, as `spec_parse_int` describes.
pub fn parse_int(s: &Vec<char>, i: usize) -> (r: Option<(i64, usize)>)
    requires
        i <= s@.len(),
    ensures
        r is None <==> spec_parse_int(s@, i as int) is None,
        r matches Some(p) ==> spec_parse_int(s@, i as int) == Some((p.0 as int, p.1 as int))
            && i < p.1 <= s@.len(),
{
    let neg = i < s.len() && s[i] == '-';
    let start: usize = if neg {
        i + 1
    } else {
        i
    };
    let limit: u128 = if neg {
        9223372036854775808u128
    } else {
        9223372036854775807u128
    };
    let mut j: usize = start;
    let mut acc: u128 = 0;
    while j < s.len() && '0' <= s[j] && s[j] <= '9'
        invariant
            i <= s@.len(),
            start <= j <= s@.len(),
            neg == (i < s@.len() && s@[i as int] == '-'),
            start == if neg {
                i + 1
            } else {
                i as int
            },
            acc == spec_digits_val(s@, start as int, j as int),
            acc <= limit,
            limit == if neg {
                9223372036854775808u128
            } else {
                9223372036854775807u128
            },
            forall|k: int| start <= k < j ==> spec_is_digit(#[trigger] s@[k]),
            spec_digit_run_end(s@, start as int) == spec_digit_run_end(s@, j as int),
        decreases s@.len() - j,
    {
        let d: u8 = (s[j] as u8) - 48;
        let next: u128 = acc * 10 + (d as u128);
        proof {
            assert(spec_digit_run_end(s@, j as int) == spec_digit_run_end(s@, j + 1));
        }
        if next > limit {
            proof {
                assert(spec_digits_val(s@, start as int, j + 1) == spec_digits_val(
                    s@,
                    start as int,
                    j as int,
                ) * 10 + spec_digit_val(s@[j as int]));
                assert(spec_digits_val(s@, start as int, j + 1) == next);
                let e = spec_digit_run_end(s@, start as int);
                lemma_digit_run_end_bounds(s@, j + 1);
                assert(e == spec_digit_run_end(s@, j + 1));
                lemma_digits_val_mono(s@, start as int, j + 1, e);
                assert(spec_digits_val(s@, start as int, e) > limit);
            }
            return None;
        }
        acc = next;
        j = j + 1;
    }
    proof {
        assert(spec_digit_run_end(s@, j as int) == j);
    }
    if j == start {
        return None;
    }
    if neg {
        if acc == 9223372036854775808u128 {
            Some((I64_MIN, j))
        } else {
            Some((-(acc as i64), j))
        }
    } else {
        Some((acc as i64, j))
    }
}

/// Expects the characters of `lit` at `i`; on success returns the position
/// just after them.
pub fn expect_lit(s: &Vec<char>, i: usize, lit: &Vec<char>) -> (r: Option<usize>)
    requires
        i <= s@.len(),
    ensures
        r is None <==> spec_parse_lit(s@, i as int, lit@) is None,
        r matches Some(j) ==> spec_parse_lit(s@, i as int, lit@) == Some(j as int) && i <= j
            <= s@.len(),
{
    let n = lit.len();
    if n > s.len() - i {
        proof {
            assert(spec_parse_lit(s@, i as int, lit@) is None);
        }
        return None;
    }
    let mut k: usize = 0;
    while k < n
        invariant
            i + n <= s@.len(),
            i + n <= usize::MAX,
            n == lit@.len(),
            k <= n,
            forall|m: int| 0 <= m < k ==> s@[i + m] == lit@[m],
        decreases n - k,
    {
        if s[i + k] != lit[k] {
            proof {
                assert(spec_parse_lit(s@, i as int, lit@) is None) by {
                    if s@.subrange(i as int, i + lit@.len()) == lit@ {
                        assert(s@.subrange(i as int, i + lit@.len())[k as int] == s@[i + k as int]);
                    }
                }
            }
            return None;
        }
        k = k + 1;
    }
    proof {
        assert(s@.subrange(i as int, i + lit@.len()) =~= lit@);
    }
    Some(i + n)
}

/// Parses a string body at `i` up to and including the closing quote, as
/// `spec_parse_str` describes.
pub fn parse_str(s: &Vec<char>, i: usize) -> (r: Option<(Vec<char>, usize)>)
    requires
        i <= s@.len(),
    ensures
        r is None <==> spec_parse_str(s@, i as int) is None,
        r matches Some(p) ==> spec_parse_str(s@, i as int) == Some((p.0@, p.1 as int)) && i < p.1
            <= s@.len(),
{
    let mut cur: usize = i;
    let mut acc: Vec<char> = Vec::new();
    loop
        invariant
            i <= cur <= s@.len(),
            spec_parse_str(s@, i as int) == match spec_parse_str(s@, cur as int) {
                None => None::<(Seq<char>, int)>,
                Some((t, j)) => Some((acc@ + t, j)),
            },
        decreases s@.len() - cur,
    {
        if cur >= s.len() {
            return None;
        }
        let c = s[cur];
        if c == '"' {
            proof {
                assert(acc@ + Seq::<char>::empty() =~= acc@);
            }
            return Some((acc, cur + 1));
        }
        if c == '\\' {
            if cur + 1 < s.len() {
                let d = s[cur + 1];
                if d == '"' || d == '\\' || d == 'n' || d == 't' || d == 'r' {
                    let ghost before = spec_parse_str(s@, cur as int);
                    let u: char = if d == 'n' {
                        '\n'
                    } else if d == 't' {
                        '\t'
                    } else if d == 'r' {
                        '\r'
                    } else {
                        d
                    };
                    acc.push(u);
                    proof {
                        match spec_parse_str(s@, cur + 2) {
                            None => {},
                            Some((t, j)) => {
                                assert(acc@ + t =~= acc@.drop_last() + (seq![u] + t));
                            },
                        }
                    }
                    cur = cur + 2;
                } else {
                    return None;
                }
            } else {
                return None;
            }
        } else {
            acc.push(c);
            proof {
                match spec_parse_str(s@, cur + 1) {
                    None => {},
                    Some((t, j)) => {
                        assert(acc@ + t =~= acc@.drop_last() + (seq![c] + t));
                    },
                }
            }
            cur = cur + 1;
        }
    }
}

// ---------------------------------------------------------------------------
// Facts about digit runs and values
// ---------------------------------------------------------------------------
/// The end of a digit run lies between the start and the end of the text.
pub proof fn lemma_digit_run_end_bounds(s: Seq<char>, i: int)
    requires
        0 <= i <= s.len(),
    ensures
        i <= spec_digit_run_end(s, i) <= s.len(),
        forall|k: int| i <= k < spec_digit_run_end(s, i) ==> spec_is_digit(#[trigger] s[k]),
    decreases s.len() - i,
{
    if i < s.len() && spec_is_digit(s[i]) {
        lemma_digit_run_end_bounds(s, i + 1);
    }
}

/// Appending digits never lowers the value of a digit run.
pub proof fn lemma_digits_val_mono(s: Seq<char>, i: int, j1: int, j2: int)
    requires
        0 <= i <= j1 <= j2 <= s.len(),
        forall|k: int| i <= k < j2 ==> spec_is_digit(#[trigger] s[k]),
    ensures
        0 <= spec_digits_val(s, i, j1) <= spec_digits_val(s, i, j2),
    decreases j2 - j1,
{
    if j1 == j2 {
        lemma_digits_val_nonneg(s, i, j1);
    } else {
        lemma_digits_val_mono(s, i, j1, j2 - 1);
    }
}

/// A run of digits has a non-negative value.
pub proof fn lemma_digits_val_nonneg(s: Seq<char>, i: int, j: int)
    requires
        0 <= i <= j <= s.len(),
        forall|k: int| i <= k < j ==> spec_is_digit(#[trigger] s[k]),
    ensures
        spec_digits_val(s, i, j) >= 0,
    decreases j - i,
{
    if j > i {
        lemma_digits_val_nonneg(s, i, j - 1);
    }
}

// ---------------------------------------------------------------------------
// The parsers invert the printers
// ---------------------------------------------------------------------------
/// A text region known to hold `a + b` splits into a region holding `a` and
/// one holding `b`.
pub proof fn lemma_sub_split(s: Seq<char>, i: int, a: Seq<char>, b: Seq<char>)
    requires
        0 <= i,
        i + a.len() + b.len() <= s.len(),
        s.subrange(i, i + a.len() + b.len()) == a + b,
    ensures
        s.subrange(i, i + a.len()) == a,
        s.subrange(i + a.len(), i + a.len() + b.len()) == b,
{
    assert forall|k: int| 0 <= k < a.len() implies s.subrange(i, i + a.len())[k] == a[k] by {
        assert(s.subrange(i, i + a.len() + b.len())[k] == (a + b)[k]);
    }
    assert(s.subrange(i, i + a.len()) =~= a);
    assert forall|k: int|
        0 <= k < b.len() implies s.subrange(i + a.len(), i + a.len() + b.len())[k] == b[k] by {
        assert(s.subrange(i, i + a.len() + b.len())[k + a.len()] == (a + b)[k + a.len()]);
        assert(s.subrange(i + a.len(), i + a.len() + b.len())[k] == s[i + a.len() + k]);
        assert(s.subrange(i, i + a.len() + b.len())[k + a.len()] == s[i + a.len() + k]);
        assert((a + b)[k + a.len()] == b[k]);
    }
    assert(s.subrange(i + a.len(), i + a.len() + b.len()) =~= b);
}

/// The escape form of a single character.
pub proof fn lemma_esc_single(c: char)
    ensures
        spec_esc(seq![c]) == spec_esc_char(c),
{
    let s = seq![c];
    assert(s[0] == c);
    assert(s.drop_first() =~= Seq::<char>::empty());
    assert(spec_esc(s) == spec_esc_char(c) + spec_esc(Seq::<char>::empty()));
    assert(spec_esc_char(c) + Seq::<char>::empty() =~= spec_esc_char(c));
}

/// Escaping distributes over concatenation.
pub proof fn lemma_esc_append(a: Seq<char>, b: Seq<char>)
    ensures
        spec_esc(a + b) == spec_esc(a) + spec_esc(b),
    decreases a.len(),
{
    if a.len() == 0 {
        assert(a + b =~= b);
        assert(spec_esc(a) + spec_esc(b) =~= spec_esc(b));
    } else {
        lemma_esc_append(a.drop_first(), b);
        assert((a + b).drop_first() =~= a.drop_first() + b);
        assert(spec_esc(a + b) =~= spec_esc(a) + spec_esc(b));
    }
}

/// The decimal digits of a number are digits, and there is at least one.
pub proof fn lemma_dec_nat_shape(n: int)
    requires
        n >= 0,
    ensures
        spec_dec_nat(n).len() >= 1,
        forall|k: int|
            0 <= k < spec_dec_nat(n).len() ==> spec_is_digit(#[trigger] spec_dec_nat(n)[k]),
    decreases n,
{
    if n > 9 {
        lemma_dec_nat_shape(n / 10);
    }
}

/// Reading the printed digits of `n` gives back `n`.
pub proof fn lemma_digits_val_of_dec(s: Seq<char>, i: int, n: int)
    requires
        n >= 0,
        0 <= i,
        i + spec_dec_nat(n).len() <= s.len(),
        s.subrange(i, i + spec_dec_nat(n).len()) == spec_dec_nat(n),
    ensures
        spec_digits_val(s, i, i + spec_dec_nat(n).len()) == n,
    decreases n,
{
    let d = spec_dec_nat(n);
    lemma_dec_nat_shape(n);
    if n <= 9 {
        assert(s.subrange(i, i + d.len())[0] == d[0]);
        assert(s[i] == spec_digit_char(n));
        assert(spec_digit_val(spec_digit_char(n)) == n);
        assert(spec_digits_val(s, i, i + 1) == spec_digits_val(s, i, i) * 10 + spec_digit_val(
            s[i],
        ));
    } else {
        let dh = spec_dec_nat(n / 10);
        assert(s.subrange(i, i + dh.len()) =~= dh) by {
            assert forall|k: int| 0 <= k < dh.len() implies s.subrange(i, i + dh.len())[k] == dh[k]
            by {
                assert(s.subrange(i, i + d.len())[k] == d[k]);
            }
        }
        lemma_digits_val_of_dec(s, i, n / 10);
        assert(s.subrange(i, i + d.len())[d.len() - 1] == d[d.len() - 1]);
        assert(s[i + d.len() - 1] == spec_digit_char(n % 10));
        assert(spec_digit_val(spec_digit_char(n % 10)) == n % 10);
        assert(spec_digits_val(s, i, i + d.len()) == spec_digits_val(s, i, i + d.len() - 1) * 10
            + spec_digit_val(s[i + d.len() - 1]));
    }
}

/// A block of digits bounded by a non-digit (or the end) is exactly one
/// digit run.
pub proof fn lemma_digit_run_end_exact(s: Seq<char>, i: int, j: int)
    requires
        0 <= i <= j <= s.len(),
        forall|k: int| i <= k < j ==> spec_is_digit(#[trigger] s[k]),
        j == s.len() || !spec_is_digit(s[j]),
    ensures
        spec_digit_run_end(s, i) == j,
    decreases j - i,
{
    if i < j {
        lemma_digit_run_end_exact(s, i + 1, j);
    }
}

/// Parsing at the start of the printed form of `n` yields `n` and stops just
/// after it, provided no digit follows directly.
pub proof fn lemma_parse_int_of_enc(s: Seq<char>, i: int, n: int)
    requires
        I64_MIN as int <= n <= I64_MAX as int,
        0 <= i,
        i + spec_dec_int(n).len() <= s.len(),
        s.subrange(i, i + spec_dec_int(n).len()) == spec_dec_int(n),
        i + spec_dec_int(n).len() == s.len() || !spec_is_digit(s[i + spec_dec_int(n).len()]),
    ensures
        spec_parse_int(s, i) == Some((n, i + spec_dec_int(n).len())),
{
    let d = spec_dec_int(n);
    if n < 0 {
        let dn = spec_dec_nat(-n);
        assert(s[i] == d[0]);
        assert(s.subrange(i + 1, i + 1 + dn.len()) =~= dn) by {
            assert forall|k: int| 0 <= k < dn.len() implies s.subrange(i + 1, i + 1 + dn.len())[k]
                == dn[k] by {
                assert(s.subrange(i, i + d.len())[k + 1] == d[k + 1]);
            }
        }
        lemma_dec_nat_shape(-n);
        assert(forall|k: int|
            i + 1 <= k < i + 1 + dn.len() ==> spec_is_digit(#[trigger] s[k])) by {
            assert forall|k: int|
                i + 1 <= k < i + 1 + dn.len() implies spec_is_digit(#[trigger] s[k]) by {
                assert(s[k] == s.subrange(i + 1, i + 1 + dn.len())[k - i - 1]);
            }
        }
        lemma_digit_run_end_exact(s, i + 1, i + 1 + dn.len());
        lemma_digits_val_of_dec(s, i + 1, -n);
    } else {
        let dn = spec_dec_nat(n);
        lemma_dec_nat_shape(n);
        assert(forall|k: int| i <= k < i + dn.len() ==> spec_is_digit(#[trigger] s[k])) by {
            assert forall|k: int| i <= k < i + dn.len() implies spec_is_digit(#[trigger] s[k]) by {
                assert(s[k] == s.subrange(i, i + dn.len())[k - i]);
            }
        }
        lemma_digit_run_end_exact(s, i, i + dn.len());
        lemma_digits_val_of_dec(s, i, n);
        assert(s[i] == dn[0]);
        assert(s[i] != '-');
    }
}

/// Parsing at the start of a quoted, escaped body gives back the body and
/// stops after the closing quote.
pub proof fn lemma_parse_str_of_enc(s: Seq<char>, i: int, v: Seq<char>)
    requires
        0 <= i,
        i + spec_esc(v).len() < s.len(),
        s.subrange(i, i + spec_esc(v).len()) == spec_esc(v),
        s[i + spec_esc(v).len()] == '"',
    ensures
        spec_parse_str(s, i) == Some((v, i + spec_esc(v).len() + 1)),
    decreases v.len(),
{
    if v.len() == 0 {
        assert(spec_esc(v).len() == 0);
    } else {
        let c = v[0];
        let e = spec_esc_char(c);
        let rest = spec_esc(v.drop_first());
        assert(spec_esc(v) == e + rest);
        assert forall|k: int| 0 <= k < e.len() implies s[i + k] == e[k] by {
            assert(s.subrange(i, i + spec_esc(v).len())[k] == spec_esc(v)[k]);
        }
        let i2 = i + e.len();
        assert(s.subrange(i2, i2 + rest.len()) =~= rest) by {
            assert forall|k: int| 0 <= k < rest.len() implies s.subrange(i2, i2 + rest.len())[k]
                == rest[k] by {
                assert(s.subrange(i, i + spec_esc(v).len())[k + e.len()] == spec_esc(v)[k
                    + e.len()]);
            }
        }
        lemma_parse_str_of_enc(s, i2, v.drop_first());
        if c == '"' || c == '\\' || c == '\n' || c == '\t' || c == '\r' {
            assert(s[i + 0] == e[0]);
            assert(s[i + 1] == e[1]);
            assert(s[i] == '\\');
            assert(spec_unesc_char(s[i + 1]) == c);
            assert(seq![c] + v.drop_first() =~= v);
        } else {
            assert(s[i + 0] == e[0]);
            assert(s[i] == c);
            assert(seq![c] + v.drop_first() =~= v);
        }
    }
}

} // verus!
