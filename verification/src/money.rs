//! Fixed-point money values.
//!
//! Every balance and amount in the ledger is a whole number of cents held in
//! an `i64`; the persistence layer stores the same values as decimal text
//! (`"-100.00"`).  This module gives the exact text form of a cent value and
//! the parse of decimal text back into cents.

use crate::text::find_sub;
use crate::text::lemma_find_from;
use crate::text::matches_at;
use vstd::prelude::*;

verus! {

/// The character for a single decimal digit.
pub open spec fn digit_char(d: int) -> char
    recommends
        0 <= d < 10,
{
    (48 + d) as char
}

/// Decimal digit string of a natural number, no leading zeros except for 0 itself.
pub open spec fn dec_digits(n: nat) -> Seq<char>
    decreases n,
{
    if n < 10 {
        seq![digit_char(n as int)]
    } else {
        dec_digits(n / 10) + seq![digit_char((n % 10) as int)]
    }
}

/// Text form of a cent value: optional sign, whole part, a dot, two fraction digits.
pub open spec fn cents_text(v: int) -> Seq<char> {
    let m = if v < 0 {
        -v
    } else {
        v
    };
    let sign: Seq<char> = if v < 0 {
        seq!['-']
    } else {
        Seq::empty()
    };
    sign + dec_digits((m / 100) as nat) + seq!['.'] + seq![
        digit_char(m % 100 / 10),
        digit_char(m % 100 % 10),
    ]
}

fn digit_str(d: u64) -> (r: &'static str)
    requires
        d < 10,
    ensures
        r@ =~= seq![digit_char(d as int)],
{
    proof {
        reveal_strlit("0");
        reveal_strlit("1");
        reveal_strlit("2");
        reveal_strlit("3");
        reveal_strlit("4");
        reveal_strlit("5");
        reveal_strlit("6");
        reveal_strlit("7");
        reveal_strlit("8");
        reveal_strlit("9");
    }
    match d {
        0 => "0",
        1 => "1",
        2 => "2",
        3 => "3",
        4 => "4",
        5 => "5",
        6 => "6",
        7 => "7",
        8 => "8",
        _ => "9",
    }
}

/// Appends the decimal digits of `n` to `s`.
pub fn append_digits(s: &mut String, n: u64)
    ensures
        final(s)@ == old(s)@ + dec_digits(n as nat),
    decreases n,
{
    if n < 10 {
        s.append(digit_str(n));
    } else {
        append_digits(s, n / 10);
        s.append(digit_str(n % 10));
        proof {
            assert(final(s)@ =~= old(s)@ + dec_digits(n as nat));
        }
    }
}

/// Renders a cent value as decimal text with exactly two fraction digits.
pub fn format_cents(v: i64) -> (r: String)
    ensures
        r@ == cents_text(v as int),
{
    let wide: i128 = v as i128;
    let m: i128 = if wide < 0 {
        -wide
    } else {
        wide
    };
    let mag: u64 = m as u64;
    let mut s = String::new();
    if v < 0 {
        proof {
            reveal_strlit("-");
        }
        s.append("-");
    }
    append_digits(&mut s, mag / 100);
    proof {
        reveal_strlit(".");
    }
    s.append(".");
    s.append(digit_str(mag % 100 / 10));
    s.append(digit_str(mag % 100 % 10));
    proof {
        assert(s@ =~= cents_text(v as int));
    }
    s
}

/// Signed decimal text of an integer.
pub open spec fn int_text(v: int) -> Seq<char> {
    if v < 0 {
        seq!['-'] + dec_digits((-v) as nat)
    } else {
        dec_digits(v as nat)
    }
}

/// Renders an integer as signed decimal text.
pub fn format_int(v: i64) -> (r: String)
    ensures
        r@ == int_text(v as int),
{
    let wide: i128 = v as i128;
    let m: i128 = if wide < 0 {
        -wide
    } else {
        wide
    };
    let mag: u64 = m as u64;
    let mut s = String::new();
    if v < 0 {
        proof {
            reveal_strlit("-");
        }
        s.append("-");
    }
    append_digits(&mut s, mag);
    proof {
        assert(s@ =~= int_text(v as int));
    }
    s
}

/// A decimal digit character.
pub open spec fn is_digit(c: char) -> bool {
    48 <= c as int <= 57
}

pub open spec fn digit_val(c: char) -> int {
    c as int - 48
}

pub open spec fn all_digits(s: Seq<char>) -> bool {
    forall|i: int| 0 <= i < s.len() ==> is_digit(s[i])
}

/// Value of a digit string read left to right.
pub open spec fn digits_val(s: Seq<char>) -> int
    decreases s.len(),
{
    if s.len() == 0 {
        0
    } else {
        digits_val(s.drop_last()) * 10 + digit_val(s.last())
    }
}

/// Cent value of unsigned decimal text: digits, optionally a dot and one or
/// two fraction digits.
pub open spec fn unsigned_cents(s: Seq<char>) -> Option<int> {
    match find_sub(s, seq!['.']) {
        None => if s.len() > 0 && all_digits(s) {
            Some(digits_val(s) * 100)
        } else {
            None
        },
        Some(i) => {
            let ip = s.subrange(0, i);
            let fp = s.skip(i + 1);
            if ip.len() > 0 && all_digits(ip) && 1 <= fp.len() <= 2 && all_digits(fp) {
                Some(
                    digits_val(ip) * 100 + if fp.len() == 1 {
                        digits_val(fp) * 10
                    } else {
                        digits_val(fp)
                    },
                )
            } else {
                None
            }
        },
    }
}

/// Cent value of decimal text, with an optional leading minus sign.
pub open spec fn parse_cents(s: Seq<char>) -> Option<int> {
    if s.len() > 0 && s[0] == '-' {
        match unsigned_cents(s.skip(1)) {
            Some(v) => Some(-v),
            None => None,
        }
    } else {
        unsigned_cents(s)
    }
}

pub proof fn lemma_digits_val_nonneg(s: Seq<char>)
    requires
        all_digits(s),
    ensures
        digits_val(s) >= 0,
    decreases s.len(),
{
    if s.len() > 0 {
        lemma_digits_val_nonneg(s.drop_last());
    }
}

/// The value of a digit string dominates the value of any of its prefixes.
pub proof fn lemma_digits_val_prefix(s: Seq<char>, k: int)
    requires
        all_digits(s),
        0 <= k <= s.len(),
    ensures
        digits_val(s.subrange(0, k)) <= digits_val(s),
    decreases s.len(),
{
    if k == s.len() {
        assert(s.subrange(0, k) =~= s);
    } else {
        assert(s.drop_last() =~= s.subrange(0, s.len() - 1));
        lemma_digits_val_prefix(s.drop_last(), k);
        assert(s.drop_last().subrange(0, k) =~= s.subrange(0, k));
        lemma_digits_val_nonneg(s.drop_last());
    }
}

/// A digit string of at most two digits is worth at most 99.
pub proof fn lemma_digits_val_two(s: Seq<char>)
    requires
        all_digits(s),
        s.len() <= 2,
    ensures
        0 <= digits_val(s) <= 99,
        s.len() <= 1 ==> digits_val(s) <= 9,
{
    lemma_digits_val_nonneg(s);
    if s.len() == 1 {
        assert(is_digit(s[0]));
        assert(digits_val(s.drop_last()) == 0);
    } else if s.len() == 2 {
        assert(is_digit(s[0]));
        assert(is_digit(s[1]));
        let dl = s.drop_last();
        assert(dl.drop_last().len() == 0);
        assert(digits_val(dl.drop_last()) == 0);
        assert(dl.last() == s[0]);
        assert(digits_val(dl) == digit_val(s[0]));
        assert(digits_val(s) == digit_val(s[0]) * 10 + digit_val(s[1]));
    }
}

/// Reads the digit run `s[from..to]`; `None` on a non-digit, an empty run, or
/// a value past `i64::MAX`.
fn parse_digits_span(s: &str, from: usize, to: usize) -> (r: Option<i64>)
    requires
        from <= to <= s@.len(),
        s@.len() <= usize::MAX,
    ensures
        ({
            let sp = s@.subrange(from as int, to as int);
            match r {
                Some(v) => to > from && all_digits(sp) && v == digits_val(sp) && v >= 0,
                None => to == from || !all_digits(sp) || digits_val(sp) > i64::MAX,
            }
        }),
{
    let ghost sp = s@.subrange(from as int, to as int);
    if from == to {
        return None;
    }
    let mut acc: i64 = 0;
    let mut i: usize = from;
    while i < to
        invariant
            from <= i <= to <= s@.len(),
            s@.len() <= usize::MAX,
            sp == s@.subrange(from as int, to as int),
            all_digits(s@.subrange(from as int, i as int)),
            acc == digits_val(s@.subrange(from as int, i as int)),
            acc >= 0,
        decreases to - i,
    {
        let c = s.get_char(i);
        let u: u32 = c as u32;
        proof {
            assert(sp[i - from] == s@[i as int]);
        }
        if u < 48 || u > 57 {
            assert(!is_digit(sp[i - from]));
            return None;
        }
        let d: i64 = (u - 48) as i64;
        let ghost pre = s@.subrange(from as int, i as int);
        let ghost ext = s@.subrange(from as int, i + 1);
        proof {
            assert(ext.drop_last() =~= pre);
            assert(ext.last() == s@[i as int]);
            assert(digits_val(ext) == acc * 10 + d);
        }
        if acc > (i64::MAX - d) / 10 {
            proof {
                assert(acc * 10 + d > i64::MAX) by (nonlinear_arith)
                    requires
                        acc > (i64::MAX - d) / 10,
                        0 <= d <= 9,
                        acc >= 0,
                {}
                if all_digits(sp) {
                    lemma_digits_val_prefix(sp, i + 1 - from);
                    assert(sp.subrange(0, i + 1 - from) =~= ext);
                }
            }
            return None;
        }
        acc = acc * 10 + d;
        i = i + 1;
        proof {
            assert(all_digits(ext)) by {
                assert(forall|k: int| 0 <= k < pre.len() ==> ext[k] == pre[k]);
            }
        }
    }
    proof {
        assert(s@.subrange(from as int, i as int) =~= sp);
    }
    Some(acc)
}

/// Parses decimal text into cents; `None` exactly when the text is not a
/// well-formed decimal or its value lies outside `-i64::MAX ..= i64::MAX`.
pub fn parse_cents_exec(s: &str) -> (r: Option<i64>)
    ensures
        ({
            let p = parse_cents(s@);
            match r {
                Some(v) => p == Some(v as int) && -i64::MAX <= v,
                None => p is None || p.unwrap() > i64::MAX || p.unwrap() < -(i64::MAX as int),
            }
        }),
{
    proof {
        reveal_strlit(".");
        reveal_strlit("-");
        assert("."@ =~= seq!['.']);
        assert("-"@ =~= seq!['-']);
    }
    let n = s.unicode_len();
    let neg: bool = n > 0 && s.get_char(0) == '-';
    let start: usize = if neg {
        1
    } else {
        0
    };
    let ghost body = s@.skip(start as int);
    proof {
        if !neg {
            assert(body =~= s@);
        }
        assert(neg ==> s@[0] == '-');
        assert(!neg ==> !(s@.len() > 0 && s@[0] == '-'));
    }
    let found = find_sub_from_dot(s, start, n);
    proof {
        lemma_find_from(
            s@,
            seq!['.'],
            start as int,
            match found {
                Some(i) => Some(i as int),
                None => None,
            },
        );
    }
    match found {
        None => {
            proof {
                assert(s@.subrange(start as int, n as int) =~= body);
            }
            match parse_digits_span(s, start, n) {
                None => {
                    proof {
                        if unsigned_cents(body) is Some {
                            lemma_digits_val_nonneg(body);
                            assert(digits_val(body) * 100 >= digits_val(body)) by (nonlinear_arith)
                                requires
                                    digits_val(body) >= 0,
                            {}
                        }
                    }
                    None
                },
                Some(v) => {
                    if v > i64::MAX / 100 {
                        proof {
                            assert(v * 100 > i64::MAX) by (nonlinear_arith)
                                requires
                                    v > i64::MAX / 100,
                                    v >= 0,
                            {}
                        }
                        None
                    } else {
                        proof {
                            assert(v * 100 <= i64::MAX) by (nonlinear_arith)
                                requires
                                    0 <= v <= i64::MAX / 100,
                            {}
                        }
                        let cents: i64 = v * 100;
                        if neg {
                            Some(-cents)
                        } else {
                            Some(cents)
                        }
                    }
                },
            }
        },
        Some(dot) => {
            let ghost ip = body.subrange(0, dot - start);
            let ghost fp = body.skip(dot - start + 1);
            proof {
                assert(ip =~= s@.subrange(start as int, dot as int));
                assert(fp =~= s@.subrange(dot + 1, n as int));
            }
            let fplen = n - dot - 1;
            if fplen < 1 || fplen > 2 {
                return None;
            }
            let vi = match parse_digits_span(s, start, dot) {
                None => {
                    proof {
                        if unsigned_cents(body) is Some {
                            lemma_digits_val_nonneg(ip);
                            lemma_digits_val_two(fp);
                            assert(digits_val(ip) * 100 >= digits_val(ip)) by (nonlinear_arith)
                                requires
                                    digits_val(ip) >= 0,
                            {}
                        }
                    }
                    return None;
                },
                Some(v) => v,
            };
            let vf = match parse_digits_span(s, dot + 1, n) {
                None => {
                    proof {
                        if all_digits(fp) {
                            lemma_digits_val_two(fp);
                        }
                    }
                    return None;
                },
                Some(v) => v,
            };
            proof {
                lemma_digits_val_two(fp);
            }
            let frac: i64 = if fplen == 1 {
                vf * 10
            } else {
                vf
            };
            if vi > (i64::MAX - frac) / 100 {
                proof {
                    assert(vi * 100 + frac > i64::MAX) by (nonlinear_arith)
                        requires
                            vi > (i64::MAX - frac) / 100,
                            0 <= frac <= 99,
                            vi >= 0,
                    {}
                }
                return None;
            }
            proof {
                assert(vi * 100 + frac <= i64::MAX) by (nonlinear_arith)
                    requires
                        0 <= vi <= (i64::MAX - frac) / 100,
                        0 <= frac <= 99,
                {}
            }
            let cents: i64 = vi * 100 + frac;
            if neg {
                Some(-cents)
            } else {
                Some(cents)
            }
        },
    }
}

/// Position of the first dot in `s` at or past `from`.
fn find_sub_from_dot(s: &str, from: usize, n: usize) -> (r: Option<usize>)
    requires
        from <= n == s@.len(),
    ensures
        match r {
            Some(i) => from <= i && matches_at(s@, seq!['.'], i as int) && forall|j: int|
                from <= j < i ==> !matches_at(s@, seq!['.'], j),
            None => forall|j: int| from <= j ==> !matches_at(s@, seq!['.'], j),
        },
{
    let mut i: usize = from;
    while i < n
        invariant
            from <= i <= n == s@.len(),
            forall|j: int| from <= j < i ==> !matches_at(s@, seq!['.'], j),
        decreases n - i,
    {
        if s.get_char(i) == '.' {
            proof {
                assert(s@.subrange(i as int, i + 1) =~= seq!['.']);
            }
            return Some(i);
        }
        proof {
            assert(!matches_at(s@, seq!['.'], i as int)) by {
                if matches_at(s@, seq!['.'], i as int) {
                    assert(s@.subrange(i as int, i + 1)[0] == s@[i as int]);
                }
            }
        }
        i = i + 1;
    }
    None
}

} // verus!
