//! Exact decimal amounts of money.
use vstd::prelude::*;
use crate::numeral::{
    scan, scan_from, unsigned_body, all_digits, digit_char, digits_of, digits_value, zeros,
};

verus! {

/// The amount `units / 10^scale`, held exactly.
#[derive(Clone, Copy, Debug, PartialEq, Eq, Structural)]
pub struct Amount {
    pub units: u128,
    pub scale: usize,
}

/// The amount that `s` writes in plain decimal notation: an optional `+`, then
/// digits with at most one decimal point, and at least one digit. The scale is
/// the number of digits after the point, and all digits together must fit in
/// `u128`.
pub open spec fn amount_of(s: Seq<char>) -> Option<Amount> {
    match scan(unsigned_body(s)) {
        Some(t) => if t.1 >= 1 && t.0 <= u128::MAX {
            Some(Amount { units: t.0 as u128, scale: t.3 as usize })
        } else {
            None
        },
        None => None,
    }
}

/// A tenth of `a`, exactly: the same digits one place further right.
pub open spec fn tenth_of(a: Amount) -> Amount {
    Amount { units: a.units, scale: (a.scale + 1) as usize }
}

/// `(price + price / 10) * quantity`, at the scale of a tenth of the price;
/// `None` where its units do not fit in `u128`.
pub open spec fn taxed_total_of(price: Amount, quantity: nat) -> Option<Amount> {
    let units = 11 * price.units * quantity;
    if units <= u128::MAX {
        Some(Amount { units: units as u128, scale: (price.scale + 1) as usize })
    } else {
        None
    }
}

/// The digits of `a.units`, padded with leading zeros to more than `a.scale`
/// digits.
pub open spec fn padded_digits(a: Amount) -> Seq<char> {
    let d = digits_of(a.units as nat);
    if d.len() < a.scale + 1 {
        zeros((a.scale + 1 - d.len()) as nat) + d
    } else {
        d
    }
}

/// `a` in plain decimal notation, with exactly `a.scale` digits after the
/// point and at least one before it (`0.05`, `33.00`, `7`).
pub open spec fn amount_text(a: Amount) -> Seq<char> {
    let p = padded_digits(a);
    if a.scale == 0 {
        p
    } else {
        p.take(p.len() - a.scale) + seq!['.'] + p.skip(p.len() - a.scale)
    }
}

impl Amount {
    pub open spec fn is_positive(self) -> bool {
        self.units > 0
    }

    /// The amount in plain decimal notation (see `amount_text`).
    pub fn to_text(&self) -> (r: Vec<char>)
        requires
            self.scale < usize::MAX,
        ensures
            r@ == amount_text(*self),
    {
        let ghost d = digits_of(self.units as nat);
        let mut out: Vec<char> = Vec::new();
        let mut n: u128 = self.units;
        while n >= 10
            invariant
                d == digits_of(self.units as nat),
                d == digits_of(n as nat) + out@,
            decreases n,
        {
            let c = ((n % 10) as u8 + 48u8) as char;
            assert(c == digit_char((n % 10) as nat));
            proof {
                assert(digits_of(n as nat) + out@ =~= digits_of((n / 10) as nat) + out@.insert(0, c));
            }
            out.insert(0, c);
            n = n / 10;
        }
        let c = (n as u8 + 48u8) as char;
        assert(c == digit_char(n as nat));
        proof {
            assert(digits_of(n as nat) + out@ =~= out@.insert(0, c));
        }
        out.insert(0, c);
        let ghost k: nat = 0;
        proof {
            assert(out@ =~= zeros(0) + d);
        }
        while out.len() <= self.scale
            invariant
                self.scale < usize::MAX,
                d == digits_of(self.units as nat),
                out@ == zeros(k) + d,
                k == 0 || out@.len() <= self.scale + 1,
            decreases self.scale + 1 - out@.len(),
        {
            proof {
                assert(zeros(k + 1) + d =~= (zeros(k) + d).insert(0, '0'));
                k = k + 1;
            }
            out.insert(0, '0');
        }
        proof {
            if d.len() >= self.scale + 1 {
                assert(k == 0);
                assert(zeros(0) + d =~= d);
            }
        }
        assert(out@ == padded_digits(*self));
        if self.scale > 0 {
            let at = out.len() - self.scale;
            let ghost p = out@;
            out.insert(at, '.');
            assert(out@ =~= p.take(at as int) + seq!['.'] + p.skip(at as int));
        }
        out
    }
}

/// The text that `to_text` writes reads back as the same amount.
pub proof fn lemma_text_round_trip(a: Amount)
    requires
        a.scale < usize::MAX,
    ensures
        amount_of(amount_text(a)) == Some(a),
{
    let d = digits_of(a.units as nat);
    crate::numeral::lemma_digits_of(a.units as nat);
    let p = padded_digits(a);
    if d.len() < a.scale + 1 {
        let k = (a.scale + 1 - d.len()) as nat;
        crate::numeral::lemma_leading_zeros(k, d);
        assert(all_digits(zeros(k) + d)) by {
            assert forall|i: int| 0 <= i < (zeros(k) + d).len() implies #[trigger] crate::numeral::is_digit((zeros(k) + d)[i]) by {
                if i >= k {
                    assert((zeros(k) + d)[i] == d[i - k]);
                }
            }
        }
    }
    assert(all_digits(p));
    assert(digits_value(p) == a.units);
    let t = amount_text(a);
    if a.scale == 0 {
        crate::numeral::lemma_scan_digits(p);
        assert(crate::numeral::is_digit(p[0]));
        assert(t[0] != '+');
        assert(unsigned_body(t) == t);
    } else {
        let x = p.take(p.len() - a.scale);
        let y = p.skip(p.len() - a.scale);
        assert(all_digits(x));
        assert(all_digits(y));
        crate::numeral::lemma_scan_point(x, y);
        assert(x + y =~= p);
        assert(t[0] == x[0]);
        assert(crate::numeral::is_digit(x[0]));
        assert(unsigned_body(t) == t);
    }
}

/// Reads `s` as a plain decimal amount (see `amount_of`).
pub fn parse_amount(s: &str) -> (r: Option<Amount>)
    ensures
        r == amount_of(s@),
        r is Some ==> r.unwrap().scale < usize::MAX,
{
    let len = s.unicode_len();
    let start: usize = if len > 0 && s.get_char(0) == '+' { 1 } else { 0 };
    proof {
        assert(unsigned_body(s@) =~= s@.skip(start as int));
        if scan(unsigned_body(s@)) is Some {
            crate::numeral::lemma_scan_counts(unsigned_body(s@));
        }
    }
    match scan_from(s, start) {
        Some(t) => {
            if t.1 >= 1 {
                Some(Amount { units: t.0, scale: t.3 })
            } else {
                None
            }
        },
        None => None,
    }
}

/// A tenth of `a` (see `tenth_of`).
pub fn tenth(a: Amount) -> (r: Amount)
    requires
        a.scale < usize::MAX,
    ensures
        r == tenth_of(a),
{
    Amount { units: a.units, scale: a.scale + 1 }
}

/// `(price + price / 10) * quantity` (see `taxed_total_of`).
pub fn taxed_total(price: Amount, quantity: usize) -> (r: Option<Amount>)
    requires
        price.scale < usize::MAX,
    ensures
        r == taxed_total_of(price, quantity as nat),
{
    if quantity == 0 {
        return Some(Amount { units: 0, scale: price.scale + 1 });
    }
    let eleven: u128 = 11;
    let per_unit = eleven.checked_mul(price.units);
    if per_unit.is_none() {
        assert(11 * price.units * quantity > u128::MAX) by (nonlinear_arith)
            requires 11 * price.units > u128::MAX, quantity >= 1;
        return None;
    }
    let u = per_unit.unwrap();
    let all = u.checked_mul(quantity as u128);
    if all.is_none() {
        assert(11 * price.units * quantity > u128::MAX) by (nonlinear_arith)
            requires u == 11 * price.units, u * quantity > u128::MAX;
        return None;
    }
    let total = all.unwrap();
    assert(total == 11 * price.units * quantity) by (nonlinear_arith)
        requires u == 11 * price.units, total == u * quantity;
    Some(Amount { units: total, scale: price.scale + 1 })
}

} // verus!
