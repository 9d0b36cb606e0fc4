//! Reading unsigned decimal numerals from text.
use vstd::prelude::*;

verus! {

pub open spec fn is_digit(c: char) -> bool {
    '0' <= c && c <= '9'
}

pub open spec fn digit_value(c: char) -> nat {
    (c as int - '0' as int) as nat
}

/// Reads `s` left to right as digits with at most one decimal point.
/// On success gives (the value of all digits read as one integer, the number of
/// digits, whether a point was seen, the number of digits after the point).
pub open spec fn scan(s: Seq<char>) -> Option<(nat, nat, bool, nat)>
    decreases s.len(),
{
    if s.len() == 0 {
        Some((0, 0, false, 0))
    } else {
        match scan(s.drop_last()) {
            None => None,
            Some(t) => {
                let c = s.last();
                if is_digit(c) {
                    Some((t.0 * 10 + digit_value(c), t.1 + 1, t.2, if t.2 { t.3 + 1 } else { t.3 }))
                } else if c == '.' && !t.2 {
                    Some((t.0, t.1, true, t.3))
                } else {
                    None
                }
            },
        }
    }
}

/// The value of a run of digits.
pub open spec fn digits_value(s: Seq<char>) -> nat
    decreases s.len(),
{
    if s.len() == 0 {
        0
    } else {
        digits_value(s.drop_last()) * 10 + digit_value(s.last())
    }
}

pub open spec fn all_digits(s: Seq<char>) -> bool {
    forall|i: int| 0 <= i < s.len() ==> #[trigger] is_digit(s[i])
}

pub open spec fn digit_char(d: nat) -> char {
    (d + '0' as nat) as char
}

/// The decimal digits of `n`, without leading zeros (`0` for zero).
pub open spec fn digits_of(n: nat) -> Seq<char>
    decreases n,
{
    if n < 10 {
        seq![digit_char(n)]
    } else {
        digits_of(n / 10).push(digit_char(n % 10))
    }
}

/// `count` zeros.
pub open spec fn zeros(count: nat) -> Seq<char> {
    Seq::new(count, |i: int| '0')
}

pub(crate) proof fn lemma_scan_digits(s: Seq<char>)
    requires
        all_digits(s),
    ensures
        scan(s) == Some((digits_value(s), s.len(), false, 0nat)),
    decreases s.len(),
{
    if s.len() > 0 {
        lemma_scan_digits(s.drop_last());
    }
}

pub(crate) proof fn lemma_scan_point(x: Seq<char>, y: Seq<char>)
    requires
        all_digits(x),
        all_digits(y),
    ensures
        scan(x + seq!['.'] + y) == Some((digits_value(x + y), x.len() + y.len(), true, y.len())),
    decreases y.len(),
{
    if y.len() == 0 {
        assert((x + seq!['.'] + y).drop_last() =~= x);
        assert(x + y =~= x);
        lemma_scan_digits(x);
    } else {
        let yp = y.drop_last();
        lemma_scan_point(x, yp);
        assert((x + seq!['.'] + y).drop_last() =~= x + seq!['.'] + yp);
        assert((x + y).drop_last() =~= x + yp);
    }
}

pub(crate) proof fn lemma_zeros_value(k: nat)
    ensures
        digits_value(zeros(k)) == 0,
    decreases k,
{
    if k > 0 {
        assert(zeros(k).drop_last() =~= zeros((k - 1) as nat));
        lemma_zeros_value((k - 1) as nat);
    }
}

pub(crate) proof fn lemma_leading_zeros(k: nat, d: Seq<char>)
    ensures
        digits_value(zeros(k) + d) == digits_value(d),
    decreases d.len(),
{
    if d.len() == 0 {
        assert(zeros(k) + d =~= zeros(k));
        lemma_zeros_value(k);
    } else {
        assert((zeros(k) + d).drop_last() =~= zeros(k) + d.drop_last());
        lemma_leading_zeros(k, d.drop_last());
    }
}

pub(crate) proof fn lemma_digits_of(n: nat)
    ensures
        digits_value(digits_of(n)) == n,
        all_digits(digits_of(n)),
        digits_of(n).len() >= 1,
    decreases n,
{
    if n >= 10 {
        lemma_digits_of(n / 10);
        assert(digits_of(n).drop_last() =~= digits_of(n / 10));
        assert(digit_value(digit_char(n % 10)) == n % 10);
        assert(n == (n / 10) * 10 + n % 10);
        assert(digits_of(n).last() == digit_char(n % 10));
        assert(digits_value(digits_of(n)) == digits_value(digits_of(n / 10)) * 10 + n % 10);
    } else {
        assert(digit_value(digit_char(n)) == n);
        assert(digits_value(Seq::<char>::empty()) == 0);
        assert(seq![digit_char(n)].last() == digit_char(n));
        assert(seq![digit_char(n)].drop_last() =~= Seq::<char>::empty());
    }
}

/// The text after an optional leading `+`.
pub open spec fn unsigned_body(s: Seq<char>) -> Seq<char> {
    if s.len() > 0 && s[0] == '+' {
        s.drop_first()
    } else {
        s
    }
}

/// The value of `s` read as an unsigned integer that fits in `usize`: an optional
/// `+` and then one or more ASCII digits.
pub open spec fn usize_of(s: Seq<char>) -> Option<nat> {
    match scan(unsigned_body(s)) {
        Some(t) => if t.1 >= 1 && !t.2 && t.0 <= usize::MAX {
            Some(t.0)
        } else {
            None
        },
        None => None,
    }
}

proof fn lemma_scan_prefix(s: Seq<char>, i: int)
    requires
        0 <= i <= s.len(),
        scan(s) is Some,
    ensures
        scan(s.take(i)) is Some,
        scan(s.take(i)).unwrap().0 <= scan(s).unwrap().0,
    decreases s.len(),
{
    if i < s.len() {
        let p = s.drop_last();
        assert(p.take(i) =~= s.take(i));
        lemma_scan_prefix(p, i);
    } else {
        assert(s.take(i) =~= s);
    }
}

pub(crate) proof fn lemma_scan_counts(s: Seq<char>)
    requires
        scan(s) is Some,
    ensures
        scan(s).unwrap().3 <= scan(s).unwrap().1,
        scan(s).unwrap().1 <= s.len(),
        scan(s).unwrap().2 ==> scan(s).unwrap().1 < s.len(),
        !scan(s).unwrap().2 ==> scan(s).unwrap().3 == 0,
    decreases s.len(),
{
    if s.len() > 0 {
        lemma_scan_counts(s.drop_last());
    }
}

/// Scans `s[start..]`; `None` where the text is no numeral or its value
/// exceeds `u128::MAX`.
pub(crate) fn scan_from(s: &str, start: usize) -> (r: Option<(u128, usize, bool, usize)>)
    requires
        start <= s@.len(),
    ensures
        r is Some <==> (scan(s@.skip(start as int)) is Some && scan(s@.skip(start as int)).unwrap().0 <= u128::MAX),
        r is Some ==> ({
            let t = scan(s@.skip(start as int)).unwrap();
            let v = r.unwrap();
            v.0 as nat == t.0 && v.1 as nat == t.1 && v.2 == t.2 && v.3 as nat == t.3
        }),
{
    let len = s.unicode_len();
    let ghost body = s@.skip(start as int);
    let mut units: u128 = 0;
    let mut digits: usize = 0;
    let mut point: bool = false;
    let mut fraction: usize = 0;
    let mut i: usize = start;
    proof {
        assert(body.take(0) =~= Seq::<char>::empty());
    }
    while i < len
        invariant
            len == s@.len(),
            start <= i <= len,
            body == s@.skip(start as int),
            scan(body.take(i - start)) == Some((units as nat, digits as nat, point, fraction as nat)),
        decreases len - i,
    {
        let c = s.get_char(i);
        let ghost pre = body.take(i - start);
        let ghost next = body.take(i - start + 1);
        proof {
            assert(next.drop_last() =~= pre);
            assert(next.last() == c);
            lemma_scan_counts(pre);
        }
        if '0' <= c && c <= '9' {
            let d = (c as u32 - '0' as u32) as u128;
            if units > (u128::MAX - d) / 10 {
                proof {
                    assert(units * 10 + d > u128::MAX) by (nonlinear_arith)
                        requires units > (u128::MAX - d) / 10, d <= 9;
                    if scan(body) is Some {
                        assert(body.take(body.len() as int) =~= body);
                        lemma_scan_prefix(body, i - start + 1);
                    }
                }
                return None;
            }
            assert(units * 10 + d <= u128::MAX) by (nonlinear_arith)
                requires units <= (u128::MAX - d) / 10, d <= 9;
            units = units * 10 + d;
            digits = digits + 1;
            if point {
                fraction = fraction + 1;
            }
        } else if c == '.' && !point {
            point = true;
        } else {
            proof {
                assert(scan(next) is None);
                if scan(body) is Some {
                    lemma_scan_prefix(body, i - start + 1);
                }
            }
            return None;
        }
        i = i + 1;
    }
    proof {
        assert(body.take(i - start) =~= body);
    }
    Some((units, digits, point, fraction))
}

/// Reads `s` as `str::parse::<usize>` does: an optional `+`, then one or more
/// ASCII digits, whose value fits in `usize`.
pub fn parse_usize(s: &str) -> (r: Option<usize>)
    ensures
        match r {
            Some(n) => usize_of(s@) == Some(n as nat),
            None => usize_of(s@) is None,
        },
{
    let len = s.unicode_len();
    let start: usize = if len > 0 && s.get_char(0) == '+' { 1 } else { 0 };
    proof {
        assert(unsigned_body(s@) =~= s@.skip(start as int));
    }
    match scan_from(s, start) {
        Some(t) => {
            if t.1 >= 1 && !t.2 && t.0 <= usize::MAX as u128 {
                Some(t.0 as usize)
            } else {
                None
            }
        },
        None => None,
    }
}

} // verus!
