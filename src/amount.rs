use vstd::prelude::*;
use vstd::string::StrSliceExecFns;

use crate::types::{AmountExt, AmountParseError};

verus! {

/// Unicode white space, as `char::is_whitespace` has it.
pub open spec fn is_white(c: char) -> bool {
    ('\u{9}' <= c && c <= '\u{d}') || c == ' ' || c == '\u{85}' || c == '\u{a0}' || c
        == '\u{1680}' || ('\u{2000}' <= c && c <= '\u{200a}') || c == '\u{2028}' || c
        == '\u{2029}' || c == '\u{202f}' || c == '\u{205f}' || c == '\u{3000}'
}

pub(crate) fn white_char(c: char) -> (r: bool)
    ensures
        r == is_white(c),
{
    ('\u{9}' <= c && c <= '\u{d}') || c == ' ' || c == '\u{85}' || c == '\u{a0}' || c
        == '\u{1680}' || ('\u{2000}' <= c && c <= '\u{200a}') || c == '\u{2028}' || c
        == '\u{2029}' || c == '\u{202f}' || c == '\u{205f}' || c == '\u{3000}'
}

/// The word "any" in any case.
pub open spec fn is_any_word(w: Seq<char>) -> bool {
    w.len() == 3 && (w[0] == 'a' || w[0] == 'A') && (w[1] == 'n' || w[1] == 'N') && (w[2] == 'y'
        || w[2] == 'Y')
}

/// The word "any", in any case, with nothing but white space around it.
#[verifier::opaque]
pub open spec fn is_any_text(s: Seq<char>) -> bool {
    exists|i: int|
        0 <= i && i + 3 <= s.len() && #[trigger] is_any_word(s.subrange(i, i + 3)) && (forall|k: int|
            0 <= k < s.len() && (k < i || k >= i + 3) ==> is_white(s[k]))
}

pub open spec fn is_digit(c: char) -> bool {
    '0' <= c && c <= '9'
}

/// Value of a string of decimal digits.
pub open spec fn dec_value(s: Seq<char>) -> nat
    decreases s.len(),
{
    if s.len() == 0 {
        0
    } else {
        dec_value(s.drop_last()) * 10 + ((s.last() as int - '0' as int) as nat)
    }
}

/// The digits of an unsigned integer text: all of it after an optional `+`.
pub open spec fn unsigned_digits(s: Seq<char>) -> Seq<char> {
    if s.len() > 0 && s[0] == '+' {
        s.drop_first()
    } else {
        s
    }
}

pub open spec fn all_digits(d: Seq<char>) -> bool {
    forall|k: int| 0 <= k < d.len() ==> is_digit(#[trigger] d[k])
}

/// What `str::parse` gives for an unsigned integer type whose largest value is
/// `max`: an optional `+`, then one or more decimal digits, of a value that
/// fits.
#[verifier::opaque]
pub open spec fn uint_of(s: Seq<char>, max: nat) -> Option<nat> {
    let d = unsigned_digits(s);
    if d.len() > 0 && all_digits(d) && dec_value(d) <= max {
        Some(dec_value(d))
    } else {
        None
    }
}

/// Position of the first `.` in `s`.
#[verifier::opaque]
pub open spec fn first_dot(s: Seq<char>) -> Option<int> {
    if exists|i: int| 0 <= i < s.len() && s[i] == '.' {
        Some(choose|i: int| 0 <= i < s.len() && s[i] == '.' && forall|k: int| 0 <= k < i ==> s[k] != '.')
    } else {
        None
    }
}

/// The part of `s` before its first `.`, or all of it.
pub open spec fn before_dot(s: Seq<char>) -> Seq<char> {
    match first_dot(s) {
        Some(i) => s.subrange(0, i),
        None => s,
    }
}

/// The amount a text stands for: "any" in any case and with white space
/// around it; an integer; or an integer part and a fractional part split by
/// the first `.` (what follows a second `.` is not read).
pub open spec fn amount_of(s: Seq<char>) -> Option<AmountExt> {
    if is_any_text(s) {
        Some(AmountExt::Any)
    } else {
        match first_dot(s) {
            None => match uint_of(s, u64::MAX as nat) {
                Some(v) => Some(AmountExt::Normal(v as u64)),
                None => None,
            },
            Some(i) => {
                let int_part = s.subrange(0, i);
                let frac_part = before_dot(s.subrange(i + 1, s.len() as int));
                match (uint_of(int_part, u64::MAX as nat), uint_of(frac_part, u16::MAX as nat)) {
                    (Some(a), Some(b)) => Some(AmountExt::Milli(a as u64, b as u16)),
                    _ => None,
                }
            },
        }
    }
}

proof fn lemma_dec_value_push(s: Seq<char>, c: char)
    ensures
        dec_value(s.push(c)) == dec_value(s) * 10 + ((c as int - '0' as int) as nat),
{
    assert(s.push(c).drop_last() =~= s);
}

proof fn lemma_dec_value_grows(s: Seq<char>, n: int)
    requires
        0 <= n <= s.len(),
        forall|k: int| 0 <= k < s.len() ==> is_digit(#[trigger] s[k]),
    ensures
        dec_value(s.subrange(0, n)) <= dec_value(s),
    decreases s.len() - n,
{
    if n < s.len() {
        lemma_dec_value_grows(s, n + 1);
        assert(s.subrange(0, n + 1).drop_last() =~= s.subrange(0, n));
        assert(is_digit(s[n]));
    } else {
        assert(s.subrange(0, n) =~= s);
    }
}

/// Parses `s[from..to]` as `str::parse` parses an unsigned integer no larger
/// than `max`.
fn parse_uint(s: &Vec<char>, from: usize, to: usize, max: u64) -> (r: Option<u64>)
    requires
        from <= to <= s@.len(),
        max >= 9,
    ensures
        r == (match uint_of(s@.subrange(from as int, to as int), max as nat) {
            Some(v) => Some(v as u64),
            None => None,
        }),
{
    reveal(uint_of);
    let ghost t = s@.subrange(from as int, to as int);
    let mut start = from;
    if from < to && s[from] == '+' {
        start = from + 1;
    }
    let ghost d = s@.subrange(start as int, to as int);
    proof {
        if t.len() > 0 && t[0] == '+' {
            assert(d =~= t.drop_first());
        } else {
            assert(d =~= t);
        }
    }
    if start == to {
        return None;
    }
    let mut acc: u64 = 0;
    let mut i = start;
    while i < to
        invariant
            start <= i <= to <= s@.len(),
            d == s@.subrange(start as int, to as int),
            t == s@.subrange(from as int, to as int),
            d == unsigned_digits(t),
            max >= 9,
            acc as nat == dec_value(s@.subrange(start as int, i as int)),
            acc <= max,
            forall|k: int| start <= k < i ==> is_digit(#[trigger] s@[k]),
        decreases to - i,
    {
        let c = s[i];
        if !('0' <= c && c <= '9') {
            proof {
                assert(d[i - start] == s@[i as int]);
                assert(!is_digit(d[i - start]));
                assert(!all_digits(d));
                reveal(uint_of);
                assert(uint_of(t, max as nat) is None);
            }
            return None;
        }
        let digit = (c as u32 - '0' as u32) as u64;
        assert(digit <= 9);
        proof {
            lemma_dec_value_push(s@.subrange(start as int, i as int), c);
            assert(s@.subrange(start as int, i as int).push(c) =~= s@.subrange(
                start as int,
                i + 1,
            ));
        }
        if acc > (max - digit) / 10 {
            proof {
                let p = s@.subrange(start as int, i + 1);
                assert(acc * 10 + digit > max) by (nonlinear_arith)
                    requires
                        acc > (max - digit) / 10,
                        digit <= max,
                ;
                if all_digits(d) {
                    lemma_dec_value_grows(d, i + 1 - start);
                    assert(d.subrange(0, i + 1 - start) =~= p);
                    assert(dec_value(d) > max);
                }
                reveal(uint_of);
                assert(uint_of(t, max as nat) is None);
            }
            return None;
        }
        proof {
            assert(acc * 10 + digit <= max) by (nonlinear_arith)
                requires
                    acc <= (max - digit) / 10,
                    digit <= max,
            ;
        }
        acc = acc * 10 + digit;
        i = i + 1;
    }
    proof {
        assert(s@.subrange(start as int, i as int) =~= d);
        assert forall|k: int| 0 <= k < d.len() implies is_digit(#[trigger] d[k]) by {
            assert(d[k] == s@[start + k]);
        }
    }
    Some(acc)
}

proof fn lemma_first_dot(s: Seq<char>, p: int)
    requires
        0 <= p < s.len(),
        s[p] == '.',
        forall|k: int| 0 <= k < p ==> s[k] != '.',
    ensures
        first_dot(s) == Some(p),
{
    reveal(first_dot);
    let i = choose|i: int| 0 <= i < s.len() && s[i] == '.' && forall|k: int| 0 <= k < i ==> s[k] != '.';
    assert(0 <= i < s.len() && s[i] == '.' && forall|k: int| 0 <= k < i ==> s[k] != '.');
    if i < p {
        assert(s[i] != '.');
    } else if i > p {
        assert(s[p] != '.');
    }
}

/// Position of the first `.` in `s[from..to]`, or `to`.
fn find_dot(s: &Vec<char>, from: usize, to: usize) -> (r: usize)
    requires
        from <= to <= s@.len(),
    ensures
        from <= r <= to,
        r < to ==> first_dot(s@.subrange(from as int, to as int)) == Some(r - from),
        r == to ==> first_dot(s@.subrange(from as int, to as int)) is None,
{
    reveal(first_dot);
    let ghost t = s@.subrange(from as int, to as int);
    let mut i = from;
    while i < to
        invariant
            from <= i <= to <= s@.len(),
            t == s@.subrange(from as int, to as int),
            forall|k: int| from <= k < i ==> s@[k] != '.',
        decreases to - i,
    {
        if s[i] == '.' {
            proof {
                assert forall|k: int| 0 <= k < i - from implies t[k] != '.' by {
                    assert(t[k] == s@[from + k]);
                }
                lemma_first_dot(t, i - from);
            }
            return i;
        }
        i = i + 1;
    }
    proof {
        assert forall|k: int| 0 <= k < t.len() implies t[k] != '.' by {
            assert(t[k] == s@[from + k]);
        }
    }
    to
}

/// Whether `s` is the word "any" in any case, with white space around it.
fn any_text(s: &Vec<char>) -> (r: bool)
    ensures
        r == is_any_text(s@),
{
    reveal(is_any_text);
    let n = s.len();
    let mut i: usize = 0;
    while i < n && white_char(s[i])
        invariant
            i <= n == s@.len(),
            forall|k: int| 0 <= k < i ==> is_white(s@[k]),
        decreases n - i,
    {
        i = i + 1;
    }
    // `i` is the first position that is not white space
    if i > n || n - i < 3 {
        proof {
            assert forall|j: int| 0 <= j && j + 3 <= s@.len() implies !(#[trigger] is_any_word(s@.subrange(j, j + 3)) && (forall|k: int|
                0 <= k < s@.len() && (k < j || k >= j + 3) ==> is_white(s@[k]))) by {
                if is_any_word(s@.subrange(j, j + 3)) && (forall|k: int|
                    0 <= k < s@.len() && (k < j || k >= j + 3) ==> is_white(s@[k])) {
                    assert(s@.subrange(j, j + 3)[0] == s@[j]);
                    assert(!is_white(s@[j]));
                    if j < i {
                        assert(is_white(s@[j]));
                    }
                }
            }
        }
        return false;
    }
    let word = (s[i] == 'a' || s[i] == 'A') && (s[i + 1] == 'n' || s[i + 1] == 'N') && (s[i + 2]
        == 'y' || s[i + 2] == 'Y');
    let mut rest = true;
    let mut k: usize = i + 3;
    while k < n
        invariant
            i + 3 <= k <= n == s@.len(),
            rest == (forall|m: int| i + 3 <= m < k ==> is_white(s@[m])),
        decreases n - k,
    {
        if !white_char(s[k]) {
            rest = false;
        }
        k = k + 1;
    }
    let r = word && rest;
    proof {
        let w = s@.subrange(i as int, i + 3);
        assert(w[0] == s@[i as int] && w[1] == s@[i + 1] && w[2] == s@[i + 2]);
        assert(word == is_any_word(w));
        if r {
            assert(is_any_word(s@.subrange(i as int, i + 3)));
        } else {
            assert forall|j: int| 0 <= j && j + 3 <= s@.len() implies !(#[trigger] is_any_word(s@.subrange(j, j + 3)) && (forall|k: int|
                0 <= k < s@.len() && (k < j || k >= j + 3) ==> is_white(s@[k]))) by {
                if is_any_word(s@.subrange(j, j + 3)) && (forall|m: int|
                    0 <= m < s@.len() && (m < j || m >= j + 3) ==> is_white(s@[m])) {
                    assert(s@.subrange(j, j + 3)[0] == s@[j]);
                    assert(!is_white(s@[j]));
                    if j < i {
                        assert(is_white(s@[j]));
                    } else if j > i {
                        assert(is_white(s@[i as int]));
                    }
                    assert(j == i);
                }
            }
        }
    }
    r
}

/// The characters of a string.
pub(crate) fn chars_of(s: &str) -> (r: Vec<char>)
    ensures
        r@ == s@,
{
    let n = s.unicode_len();
    let mut r: Vec<char> = Vec::new();
    let mut i: usize = 0;
    while i < n
        invariant
            n == s@.len(),
            i <= n,
            r@ == s@.subrange(0, i as int),
        decreases n - i,
    {
        r.push(s.get_char(i));
        i = i + 1;
        proof {
            assert(r@ =~= s@.subrange(0, i as int));
        }
    }
    proof {
        assert(r@ =~= s@);
    }
    r
}

impl AmountExt {
    /// Parses an amount: "any" in any case, an integer number of atomic
    /// units, or an integer and a fractional part split by a `.`.
    pub fn from_str(s: &str) -> (r: Result<AmountExt, AmountParseError>)
        ensures
            r == (match amount_of(s@) {
                Some(a) => Ok::<AmountExt, AmountParseError>(a),
                None => Err(AmountParseError),
            }),
    {
        let cs = chars_of(s);
        if any_text(&cs) {
            return Ok(AmountExt::Any);
        }
        assert(!is_any_text(s@));
        let n = cs.len();
        let dot = find_dot(&cs, 0, n);
        proof {
            assert(cs@.subrange(0, n as int) =~= cs@);
        }
        if dot == n {
            assert(first_dot(s@) is None);
            let v = parse_uint(&cs, 0, n, u64::MAX);
            assert(amount_of(s@) == match uint_of(s@, u64::MAX as nat) {
                Some(v) => Some(AmountExt::Normal(v as u64)),
                None => None,
            });
            return match v {
                Some(v) => Ok(AmountExt::Normal(v)),
                None => Err(AmountParseError),
            };
        }
        assert(first_dot(s@) == Some(dot as int));
        let end = find_dot(&cs, dot + 1, n);
        let int_part = parse_uint(&cs, 0, dot, u64::MAX);
        let frac_part = parse_uint(&cs, dot + 1, end, 0xffff);
        proof {
            let rest = cs@.subrange(dot + 1, n as int);
            if end < n {
                assert(rest.subrange(0, end - dot - 1) =~= cs@.subrange(dot + 1, end as int));
            } else {
                assert(rest =~= cs@.subrange(dot + 1, end as int));
            }
        }
        let ghost rest = cs@.subrange(dot + 1, n as int);
        reveal(uint_of);
        assert(before_dot(rest) == cs@.subrange(dot + 1, end as int));
        assert(amount_of(s@) == match (
            uint_of(s@.subrange(0, dot as int), u64::MAX as nat),
            uint_of(before_dot(rest), u16::MAX as nat),
        ) {
            (Some(a), Some(b)) => Some(AmountExt::Milli(a as u64, b as u16)),
            _ => None,
        });
        match (int_part, frac_part) {
            (Some(a), Some(b)) => Ok(AmountExt::Milli(a, b as u16)),
            _ => Err(AmountParseError),
        }
    }
}

} // verus!
