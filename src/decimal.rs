use bigdecimal::{BigDecimal, Zero};
use core::cmp::Ordering;
use vstd::arithmetic::power::*;
use vstd::prelude::*;

verus! {

/// The exact value of a decimal text as bigdecimal reads it, written as a
/// numerator `n` and an exponent `e` that stand for `n / 10^e`; `None` where the
/// text is no decimal.
pub uninterp spec fn decimal_value(s: Seq<char>) -> Option<(int, nat)>;

/// `a < b` on the values that the pairs stand for.
pub open spec fn dec_lt(a: (int, nat), b: (int, nat)) -> bool {
    a.0 * pow(10, b.1) < b.0 * pow(10, a.1)
}

/// `a == b` on the values that the pairs stand for.
pub open spec fn dec_eq(a: (int, nat), b: (int, nat)) -> bool {
    a.0 * pow(10, b.1) == b.0 * pow(10, a.1)
}

pub open spec fn dec_le(a: (int, nat), b: (int, nat)) -> bool {
    dec_lt(a, b) || dec_eq(a, b)
}

/// The exact sum of the values that the pairs stand for.
pub open spec fn dec_add(a: (int, nat), b: (int, nat)) -> (int, nat) {
    (a.0 * pow(10, b.1) + b.0 * pow(10, a.1), a.1 + b.1)
}

pub open spec fn dec_zero() -> (int, nat) {
    (0, 0)
}

/// How the value of `a` stands to the value of `b`.
pub open spec fn dec_order(a: (int, nat), b: (int, nat)) -> Ordering {
    if dec_lt(a, b) {
        Ordering::Less
    } else if dec_eq(a, b) {
        Ordering::Equal
    } else {
        Ordering::Greater
    }
}

/// The text is a decimal whose value is above zero.
pub open spec fn is_positive_decimal(s: Seq<char>) -> bool {
    decimal_value(s) is Some && decimal_value(s).unwrap().0 > 0
}

/// Relies on `BigDecimal`'s `FromStr` and `Ord`: each text is read as a decimal
/// and the two values are compared exactly.
#[verifier::external_body]
pub(crate) fn decimal_compare(a: &str, b: &str) -> (r: Option<Ordering>)
    ensures
        r is Some <==> (decimal_value(a@) is Some && decimal_value(b@) is Some),
        r is Some ==> r.unwrap() == dec_order(
            decimal_value(a@).unwrap(),
            decimal_value(b@).unwrap(),
        ),
{
    match (a.parse::<BigDecimal>(), b.parse::<BigDecimal>()) {
        (Ok(x), Ok(y)) => Some(x.cmp(&y)),
        _ => None,
    }
}

/// Relies on `BigDecimal`'s `Add` and `Display`: the exact sum of two decimal
/// texts, written back as a decimal text.
#[verifier::external_body]
pub(crate) fn decimal_add(a: &str, b: &str) -> (r: Option<String>)
    ensures
        r is Some <==> (decimal_value(a@) is Some && decimal_value(b@) is Some),
        r is Some ==> decimal_value(r.unwrap()@) is Some,
        r is Some ==> dec_eq(
            decimal_value(r.unwrap()@).unwrap(),
            dec_add(decimal_value(a@).unwrap(), decimal_value(b@).unwrap()),
        ),
{
    match (a.parse::<BigDecimal>(), b.parse::<BigDecimal>()) {
        (Ok(x), Ok(y)) => Some((x + y).to_string()),
        _ => None,
    }
}

/// Relies on `BigDecimal::zero` and `Display`: the text of the decimal zero.
#[verifier::external_body]
pub(crate) fn decimal_zero() -> (r: String)
    ensures
        decimal_value(r@) is Some,
        decimal_value(r@).unwrap().0 == 0,
{
    BigDecimal::zero().to_string()
}

/// Compares a decimal text with zero: `None` where it is no decimal.
pub fn decimal_sign(s: &str) -> (r: Option<Ordering>)
    ensures
        r is Some <==> decimal_value(s@) is Some,
        r == Some(Ordering::Greater) <==> is_positive_decimal(s@),
        r == Some(Ordering::Equal) <==> (decimal_value(s@) is Some && decimal_value(s@).unwrap().0
            == 0),
{
    let zero = decimal_zero();
    let r = decimal_compare(s, zero.as_str());
    proof {
        if decimal_value(s@) is Some {
            let v = decimal_value(s@).unwrap();
            let z = decimal_value(zero@).unwrap();
            lemma_pow_positive(10, v.1);
            lemma_pow_positive(10, z.1);
            lemma_sign_order(v, z);
        }
    }
    r
}

/// Comparing with any form of zero gives the sign of the numerator.
pub proof fn lemma_sign_order(v: (int, nat), z: (int, nat))
    requires
        z.0 == 0,
    ensures
        dec_lt(v, z) <==> v.0 < 0,
        dec_eq(v, z) <==> v.0 == 0,
        dec_lt(z, v) <==> v.0 > 0,
{
    lemma_pow_positive(10, v.1);
    lemma_pow_positive(10, z.1);
    let pv = pow(10, v.1);
    let pz = pow(10, z.1);
    assert(v.0 * pz < 0 <==> v.0 < 0) by (nonlinear_arith)
        requires
            pz > 0,
    ;
    assert(v.0 * pz == 0 <==> v.0 == 0) by (nonlinear_arith)
        requires
            pz > 0,
    ;
    assert(0 * pv == 0) by (nonlinear_arith);
}

/// Equality of values is transitive.
pub proof fn lemma_dec_eq_trans(a: (int, nat), b: (int, nat), c: (int, nat))
    requires
        dec_eq(a, b),
        dec_eq(b, c),
    ensures
        dec_eq(a, c),
{
    lemma_pow_positive(10, a.1);
    lemma_pow_positive(10, b.1);
    lemma_pow_positive(10, c.1);
    let pa = pow(10, a.1);
    let pb = pow(10, b.1);
    let pc = pow(10, c.1);
    assert(a.0 * pc == c.0 * pa) by (nonlinear_arith)
        requires
            a.0 * pb == b.0 * pa,
            b.0 * pc == c.0 * pb,
            pb > 0,
    {
        assert(a.0 * pc * pb == b.0 * pa * pc);
        assert(c.0 * pa * pb == b.0 * pc * pa);
    }
}

/// Adding the same value to equal values gives equal sums.
pub proof fn lemma_dec_add_congruent(a: (int, nat), b: (int, nat), c: (int, nat))
    requires
        dec_eq(a, b),
    ensures
        dec_eq(dec_add(a, c), dec_add(b, c)),
{
    let pa = pow(10, a.1);
    let pb = pow(10, b.1);
    let pc = pow(10, c.1);
    lemma_pow_adds(10, a.1, c.1);
    lemma_pow_adds(10, b.1, c.1);
    assert(a.0 * pb * (pc * pc) == b.0 * pa * (pc * pc)) by (nonlinear_arith)
        requires
            a.0 * pb == b.0 * pa,
    ;
    assert((a.0 * pc + c.0 * pa) * (pb * pc) == a.0 * pb * (pc * pc) + c.0 * pa * pb * pc)
        by (nonlinear_arith);
    assert((b.0 * pc + c.0 * pb) * (pa * pc) == b.0 * pa * (pc * pc) + c.0 * pb * pa * pc)
        by (nonlinear_arith);
    assert(c.0 * pb * pa * pc == c.0 * pa * pb * pc) by (nonlinear_arith);
}

/// A sum of a value that is not below zero and one above zero is above zero.
pub proof fn lemma_dec_add_positive(a: (int, nat), b: (int, nat))
    requires
        a.0 >= 0,
        b.0 > 0,
    ensures
        dec_add(a, b).0 > 0,
{
    lemma_pow_positive(10, a.1);
    lemma_pow_positive(10, b.1);
    let pa = pow(10, a.1);
    let pb = pow(10, b.1);
    assert(a.0 * pb + b.0 * pa > 0) by (nonlinear_arith)
        requires
            a.0 >= 0,
            b.0 > 0,
            pa > 0,
            pb > 0,
    ;
}

/// Values that are equal have numerators of the same sign.
pub proof fn lemma_dec_eq_sign(a: (int, nat), b: (int, nat))
    requires
        dec_eq(a, b),
    ensures
        a.0 > 0 <==> b.0 > 0,
        a.0 == 0 <==> b.0 == 0,
{
    lemma_pow_positive(10, a.1);
    lemma_pow_positive(10, b.1);
    let pa = pow(10, a.1);
    let pb = pow(10, b.1);
    assert(a.0 > 0 <==> b.0 > 0) by (nonlinear_arith)
        requires
            a.0 * pb == b.0 * pa,
            pa > 0,
            pb > 0,
    ;
    assert(a.0 == 0 <==> b.0 == 0) by (nonlinear_arith)
        requires
            a.0 * pb == b.0 * pa,
            pa > 0,
            pb > 0,
    ;
}

/// A value equal to `s` stands to any `y` as `s` does.
pub proof fn lemma_dec_eq_substitute(s: (int, nat), x: (int, nat), y: (int, nat))
    requires
        dec_eq(s, x),
    ensures
        dec_lt(s, y) == dec_lt(x, y),
        dec_eq(s, y) == dec_eq(x, y),
{
    lemma_pow_positive(10, s.1);
    lemma_pow_positive(10, x.1);
    lemma_pow_positive(10, y.1);
    let ps = pow(10, s.1);
    let px = pow(10, x.1);
    let py = pow(10, y.1);
    assert(s.0 * py * px == x.0 * py * ps) by (nonlinear_arith)
        requires
            s.0 * px == x.0 * ps,
    ;
    assert(s.0 * py < y.0 * ps <==> s.0 * py * px < y.0 * ps * px) by (nonlinear_arith)
        requires
            px > 0,
    ;
    assert(x.0 * py < y.0 * px <==> x.0 * py * ps < y.0 * px * ps) by (nonlinear_arith)
        requires
            ps > 0,
    ;
    assert(s.0 * py == y.0 * ps <==> s.0 * py * px == y.0 * ps * px) by (nonlinear_arith)
        requires
            px > 0,
    ;
    assert(x.0 * py == y.0 * px <==> x.0 * py * ps == y.0 * px * ps) by (nonlinear_arith)
        requires
            ps > 0,
    ;
    assert(y.0 * ps * px == y.0 * px * ps) by (nonlinear_arith);
}

/// Adding a value above zero gives a greater value.
pub proof fn lemma_dec_add_grows(m: (int, nat), a: (int, nat))
    requires
        a.0 > 0,
    ensures
        dec_lt(m, dec_add(m, a)),
{
    lemma_pow_positive(10, m.1);
    lemma_pow_positive(10, a.1);
    lemma_pow_adds(10, m.1, a.1);
    let pm = pow(10, m.1);
    let pa = pow(10, a.1);
    assert(m.0 * (pm * pa) < (m.0 * pa + a.0 * pm) * pm) by (nonlinear_arith)
        requires
            a.0 > 0,
            pm > 0,
            pa > 0,
    {
        assert(a.0 * pm * pm > 0);
        assert((m.0 * pa + a.0 * pm) * pm == m.0 * pa * pm + a.0 * pm * pm);
        assert(m.0 * (pm * pa) == m.0 * pa * pm);
    }
}

/// `x < y <= z` gives `x < z`.
pub proof fn lemma_dec_lt_le_trans(x: (int, nat), y: (int, nat), z: (int, nat))
    requires
        dec_lt(x, y),
        dec_le(y, z),
    ensures
        dec_lt(x, z),
{
    lemma_pow_positive(10, x.1);
    lemma_pow_positive(10, y.1);
    lemma_pow_positive(10, z.1);
    let px = pow(10, x.1);
    let py = pow(10, y.1);
    let pz = pow(10, z.1);
    assert(x.0 * pz < z.0 * px) by (nonlinear_arith)
        requires
            x.0 * py < y.0 * px,
            y.0 * pz <= z.0 * py,
            px > 0,
            py > 0,
            pz > 0,
    {
        assert(x.0 * py * pz < y.0 * px * pz);
        assert(y.0 * pz * px <= z.0 * py * px);
        assert(x.0 * pz * py < z.0 * px * py);
    }
}

} // verus!
