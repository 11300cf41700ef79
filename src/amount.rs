use vstd::prelude::*;

verus! {

/// Largest magnitude, in cents, that an entered amount may have.
pub const MAX_CENTS: i64 = 1_000_000_000_000_000;

/// Largest whole-unit part that keeps an amount within `MAX_CENTS`.
pub const MAX_WHOLE: u64 = 10_000_000_000_000;

pub open spec fn is_digit(c: char) -> bool {
    '0' <= c && c <= '9'
}

pub open spec fn digit_value(c: char) -> int {
    (c as int) - ('0' as int)
}

pub open spec fn all_digits(s: Seq<char>) -> bool {
    forall|i: int| 0 <= i < s.len() ==> is_digit(#[trigger] s[i])
}

/// The number written by a run of decimal digits.
pub open spec fn digits_value(s: Seq<char>) -> int
    decreases s.len(),
{
    if s.len() == 0 {
        0
    } else {
        digits_value(s.drop_last()) * 10 + digit_value(s.last())
    }
}

/// Length of the run of digits that starts `s`.
pub open spec fn digit_run(s: Seq<char>) -> nat
    decreases s.len(),
{
    if s.len() > 0 && is_digit(s[0]) {
        1 + digit_run(s.drop_first())
    } else {
        0
    }
}

/// Cents written by an unsigned decimal: digits, then optionally a point
/// followed by at most two digits, with at least one digit in all.
pub open spec fn unsigned_cents(s: Seq<char>) -> Option<int> {
    let k = digit_run(s) as int;
    let whole = s.subrange(0, k);
    let rest = s.subrange(k, s.len() as int);
    if rest.len() == 0 {
        if k > 0 {
            Some(digits_value(whole) * 100)
        } else {
            None
        }
    } else {
        let frac = rest.drop_first();
        if rest[0] == '.' && all_digits(frac) && frac.len() <= 2 && k + frac.len() > 0 {
            Some(digits_value(whole) * 100 + digits_value(frac) * (if frac.len() == 1 {
                10int
            } else {
                1int
            }))
        } else {
            None
        }
    }
}

/// Cents written by `s`: an optional sign, then an unsigned decimal, whose
/// magnitude is at most `MAX_CENTS`.
pub open spec fn amount_of(s: Seq<char>) -> Option<int> {
    let (negative, body) = if s.len() > 0 && s[0] == '-' {
        (true, s.drop_first())
    } else if s.len() > 0 && s[0] == '+' {
        (false, s.drop_first())
    } else {
        (false, s)
    };
    bounded(negative, unsigned_cents(body))
}

/// A magnitude with its sign, kept only when within `MAX_CENTS`.
pub open spec fn bounded(negative: bool, magnitude: Option<int>) -> Option<int> {
    match magnitude {
        Some(v) => if v <= MAX_CENTS {
            Some(if negative {
                -v
            } else {
                v
            })
        } else {
            None
        },
        None => None,
    }
}

/// What an entered amount counts for: its value, or zero where it cannot be read.
pub open spec fn amount_or_zero(s: Seq<char>) -> int {
    match amount_of(s) {
        Some(v) => v,
        None => 0,
    }
}

/// Each person's share when a total is split in two (rounded toward zero).
pub open spec fn split_share(total: int) -> int {
    if total >= 0 {
        total / 2
    } else {
        -((-total) / 2)
    }
}

proof fn lemma_digits_value_nonneg(s: Seq<char>)
    requires
        all_digits(s),
    ensures
        digits_value(s) >= 0,
    decreases s.len(),
{
    if s.len() > 0 {
        assert(is_digit(s[s.len() - 1]));
        lemma_digits_value_nonneg(s.drop_last());
    }
}

/// A longer run of digits never has a smaller value.
proof fn lemma_digits_value_prefix(s: Seq<char>, i: int)
    requires
        all_digits(s),
        0 <= i <= s.len(),
    ensures
        digits_value(s.subrange(0, i)) <= digits_value(s),
    decreases s.len(),
{
    if i < s.len() {
        assert(is_digit(s[s.len() - 1]));
        lemma_digits_value_nonneg(s.drop_last());
        assert(s.drop_last().subrange(0, i) =~= s.subrange(0, i));
        lemma_digits_value_prefix(s.drop_last(), i);
    } else {
        assert(s.subrange(0, i) =~= s);
    }
}

/// A run of digits that starts `s` is no longer than the leading run.
proof fn lemma_digit_run_ge(s: Seq<char>, m: int)
    requires
        0 <= m <= s.len(),
        all_digits(s.subrange(0, m)),
    ensures
        digit_run(s) >= m,
    decreases m,
{
    if m > 0 {
        assert(is_digit(s.subrange(0, m)[0]));
        assert forall|i: int| 0 <= i < m - 1 implies is_digit(
            #[trigger] s.drop_first().subrange(0, m - 1)[i],
        ) by {
            assert(s.subrange(0, m)[i + 1] == s.drop_first().subrange(0, m - 1)[i]);
        }
        lemma_digit_run_ge(s.drop_first(), m - 1);
    }
}

/// The run of digits ends at the first character that is not a digit.
proof fn lemma_digit_run(s: Seq<char>, m: int)
    requires
        0 <= m <= s.len(),
        all_digits(s.subrange(0, m)),
        m == s.len() || !is_digit(s[m]),
    ensures
        digit_run(s) == m,
    decreases m,
{
    if m > 0 {
        assert(is_digit(s.subrange(0, m)[0]));
        assert forall|i: int| 0 <= i < m - 1 implies is_digit(
            #[trigger] s.drop_first().subrange(0, m - 1)[i],
        ) by {
            assert(s.subrange(0, m)[i + 1] == s.drop_first().subrange(0, m - 1)[i]);
        }
        lemma_digit_run(s.drop_first(), m - 1);
    }
}

/// Once the digits read so far exceed `MAX_WHOLE`, no reading of the text
/// lies within bounds.
proof fn lemma_whole_too_large(body: Seq<char>, m: int)
    requires
        0 <= m <= body.len(),
        all_digits(body.subrange(0, m)),
        digits_value(body.subrange(0, m)) > MAX_WHOLE,
    ensures
        unsigned_cents(body) is None || unsigned_cents(body).unwrap() > MAX_CENTS,
{
    lemma_digit_run_ge(body, m);
    let k = digit_run(body) as int;
    lemma_digit_run_all(body);
    let w = body.subrange(0, k);
    assert(w.subrange(0, m) =~= body.subrange(0, m));
    lemma_digits_value_prefix(w, m);
    let rest = body.subrange(k, body.len() as int);
    if rest.len() > 0 {
        let frac = rest.drop_first();
        if all_digits(frac) {
            lemma_digits_value_nonneg(frac);
        }
    }
}

proof fn lemma_digit_run_le(s: Seq<char>)
    ensures
        digit_run(s) <= s.len(),
    decreases s.len(),
{
    if s.len() > 0 && is_digit(s[0]) {
        lemma_digit_run_le(s.drop_first());
    }
}

proof fn lemma_digit_run_all(s: Seq<char>)
    ensures
        digit_run(s) <= s.len(),
        all_digits(s.subrange(0, digit_run(s) as int)),
    decreases s.len(),
{
    lemma_digit_run_le(s);
    if s.len() > 0 && is_digit(s[0]) {
        lemma_digit_run_all(s.drop_first());
        let k = digit_run(s) as int;
        assert forall|i: int| 0 <= i < k implies is_digit(#[trigger] s.subrange(0, k)[i]) by {
            if i > 0 {
                assert(s.subrange(0, k)[i] == s.drop_first().subrange(0, k - 1)[i - 1]);
            }
        }
    }
}

/// An amount that can be read lies within `MAX_CENTS` either way.
proof fn lemma_amount_bounds(s: Seq<char>)
    ensures
        amount_of(s) is Some ==> -MAX_CENTS <= amount_of(s).unwrap() <= MAX_CENTS,
{
    let body = if s.len() > 0 && (s[0] == '-' || s[0] == '+') {
        s.drop_first()
    } else {
        s
    };
    lemma_digit_run_all(body);
    let k = digit_run(body) as int;
    lemma_digits_value_nonneg(body.subrange(0, k));
    let rest = body.subrange(k, body.len() as int);
    if rest.len() > 0 && all_digits(rest.drop_first()) {
        lemma_digits_value_nonneg(rest.drop_first());
    }
}

fn char_digit(c: char) -> (r: Option<u64>)
    ensures
        r.is_some() == is_digit(c),
        r.is_some() ==> r.unwrap() == digit_value(c) && r.unwrap() <= 9,
{
    if '0' <= c && c <= '9' {
        Some((c as u32 - '0' as u32) as u64)
    } else {
        None
    }
}

/// Reads an entered amount as cents: `Some(v)` exactly when the text is a
/// decimal amount within bounds, `None` when it cannot be read.
pub fn parse_amount(text: &str) -> (r: Option<i64>)
    ensures
        r.is_some() == amount_of(text@).is_some(),
        r.is_some() ==> r.unwrap() == amount_of(text@).unwrap(),
{
    let n = text.unicode_len();
    let ghost s = text@;
    let mut i: usize = 0;
    let mut negative = false;
    if n > 0 {
        let c = text.get_char(0);
        if c == '-' {
            negative = true;
            i = 1;
        } else if c == '+' {
            i = 1;
        }
    }
    let start = i;
    let ghost body = s.subrange(start as int, n as int);
    proof {
        if start == 1 {
            assert(body =~= s.drop_first());
        } else {
            assert(body =~= s);
        }
        assert(amount_of(s) == bounded(negative, unsigned_cents(body)));
    }
    let mut whole: u64 = 0;
    loop
        invariant
            start <= i <= n,
            n == s.len(),
            s == text@,
            body == s.subrange(start as int, n as int),
            amount_of(s) == bounded(negative, unsigned_cents(body)),
            all_digits(body.subrange(0, i - start)),
            whole == digits_value(body.subrange(0, i - start)),
            whole <= MAX_WHOLE,
        ensures
            start <= i <= n,
            all_digits(body.subrange(0, i - start)),
            whole == digits_value(body.subrange(0, i - start)),
            whole <= MAX_WHOLE,
            i == n || !is_digit(s[i as int]),
        decreases n - i,
    {
        if i == n {
            break;
        }
        let d = match char_digit(text.get_char(i)) {
            Some(d) => d,
            None => break,
        };
        proof {
            assert(body.subrange(0, i + 1 - start).drop_last() =~= body.subrange(0, i - start));
            assert(body.subrange(0, i + 1 - start).last() == s[i as int]);
        }
        whole = whole * 10 + d;
        i = i + 1;
        proof {
            assert forall|j: int| 0 <= j < i - start implies is_digit(
                #[trigger] body.subrange(0, i - start)[j],
            ) by {
                if j < i - 1 - start {
                    assert(body.subrange(0, i - start)[j] == body.subrange(0, i - 1 - start)[j]);
                }
            }
        }
        if whole > MAX_WHOLE {
            proof {
                lemma_whole_too_large(body, i - start);
            }
            return None;
        }
    }
    let m = i - start;
    proof {
        lemma_digit_run(body, m as int);
        assert(body.subrange(0, m as int) == s.subrange(start as int, i as int));
    }
    let ghost rest = body.subrange(m as int, body.len() as int);
    let cents: u64;
    if i == n {
        if m == 0 {
            return None;
        }
        cents = whole * 100;
    } else {
        if text.get_char(i) != '.' {
            proof {
                assert(rest[0] == s[i as int]);
            }
            return None;
        }
        i = i + 1;
        let ghost frac = rest.drop_first();
        proof {
            assert(frac =~= s.subrange(i as int, n as int));
        }
        let mut part: u64 = 0;
        let mut fd: usize = 0;
        loop
            invariant
                i == start + m + 1 + fd,
                i <= n,
                n == s.len(),
                s == text@,
                fd <= 2,
                frac == s.subrange(start + m + 1, n as int),
                body == s.subrange(start as int, n as int),
                digit_run(body) == m,
                rest == body.subrange(m as int, body.len() as int),
                rest.len() > 0,
                rest[0] == '.',
                frac == rest.drop_first(),
                frac.len() == n - (start + m + 1),
                amount_of(s) == bounded(negative, unsigned_cents(body)),
                all_digits(frac.subrange(0, fd as int)),
                part == digits_value(frac.subrange(0, fd as int)),
                fd == 0 ==> part == 0,
                fd <= 1 ==> part <= 9,
                part <= 99,
            ensures
                i == n,
                i == start + m + 1 + fd,
                fd <= 2,
                all_digits(frac.subrange(0, fd as int)),
                part == digits_value(frac.subrange(0, fd as int)),
                part <= 99,
            decreases n - i,
        {
            if i == n {
                break;
            }
            let d = match char_digit(text.get_char(i)) {
                Some(d) => d,
                None => {
                    proof {
                        assert(frac[fd as int] == s[i as int]);
                    }
                    return None;
                },
            };
            if fd == 2 {
                return None;
            }
            proof {
                assert(frac.subrange(0, fd + 1).drop_last() =~= frac.subrange(0, fd as int));
                assert(frac.subrange(0, fd + 1).last() == s[i as int]);
                assert forall|j: int| 0 <= j < fd + 1 implies is_digit(
                    #[trigger] frac.subrange(0, fd + 1)[j],
                ) by {
                    if j < fd {
                        assert(frac.subrange(0, fd + 1)[j] == frac.subrange(0, fd as int)[j]);
                    }
                }
            }
            part = part * 10 + d;
            fd = fd + 1;
            i = i + 1;
        }
        proof {
            assert(frac.subrange(0, fd as int) =~= frac);
        }
        if m == 0 && fd == 0 {
            return None;
        }
        cents = whole * 100 + if fd == 1 {
            part * 10
        } else {
            part
        };
    }
    if cents > MAX_CENTS as u64 {
        return None;
    }
    if negative {
        Some(-(cents as i64))
    } else {
        Some(cents as i64)
    }
}

/// Each person's share of `total` cents when it is split in two.
pub fn split_share_of(total: i64) -> (r: i64)
    requires
        total != i64::MIN,
    ensures
        r == split_share(total as int),
{
    if total >= 0 {
        total / 2
    } else {
        -((-total) / 2)
    }
}

/// Reads an entered amount, counting text that cannot be read as zero.
pub fn amount_or_zero_of(text: &str) -> (r: i64)
    ensures
        r == amount_or_zero(text@),
        -MAX_CENTS <= r <= MAX_CENTS,
{
    proof {
        lemma_amount_bounds(text@);
    }
    match parse_amount(text) {
        Some(v) => v,
        None => 0,
    }
}

} // verus!
