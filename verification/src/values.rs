//! The values of checked rational and Gaussian-rational arithmetic.
use vstd::prelude::*;
use crate::eval::{Rational, rat_new, rat_add, rat_sub, rat_mul, rat_div, ComplexRational, cr_mul, cr_div};
use crate::eval::{nat_gcd, abs, lemma_nat_gcd_bound};
use crate::laws::{law_rational_normal_form, lemma_gcd_scale, reduced};

verus! {

/// `r` has the value `n / d`.
pub open spec fn val_is(r: Rational, n: int, d: int) -> bool {
    d != 0 && r.den > 0 && r.num * d == n * r.den
}

/// Two rationals with positive denominators stand for the same number.
pub open spec fn same_value(r: Rational, s: Rational) -> bool {
    r.num * s.den == s.num * r.den
}

proof fn lemma_cancel(x: int, y: int, k: int)
    requires k != 0, x * k == y * k,
    ensures x == y,
{
    assert(x == y) by (nonlinear_arith) requires k != 0, x * k == y * k;
}

/// What `rat_new` gives has the value of the fraction it was given.
proof fn lemma_new_val(n: int, d: int)
    requires rat_new(n, d) is Some,
    ensures val_is(rat_new(n, d)->Some_0, n, d),
{
    law_rational_normal_form(n, d);
}

/// A rational given as `n1 / d1` that `n1 / d1 = n2 / d2` also has the value `n2 / d2`.
proof fn lemma_val_same(r: Rational, n1: int, d1: int, n2: int, d2: int)
    requires val_is(r, n1, d1), d2 != 0, n1 * d2 == n2 * d1,
    ensures val_is(r, n2, d2),
{
    let rn = r.num as int;
    let rd = r.den as int;
    assert((rn * d2) * d1 == (n2 * rd) * d1) by (nonlinear_arith)
        requires rn * d1 == n1 * rd, n1 * d2 == n2 * d1;
    lemma_cancel(rn * d2, n2 * rd, d1);
}

#[verifier::rlimit(100)]
proof fn lemma_mul_val(a: Rational, an: int, ad: int, b: Rational, bn: int, bd: int)
    requires val_is(a, an, ad), val_is(b, bn, bd), rat_mul(a, b) is Some,
    ensures val_is(rat_mul(a, b)->Some_0, an * bn, ad * bd),
{
    let (x, xd, y, yd) = (a.num as int, a.den as int, b.num as int, b.den as int);
    lemma_new_val(x * y, xd * yd);
    assert(ad * bd != 0) by (nonlinear_arith) requires ad != 0, bd != 0;
    assert((x * y) * (ad * bd) == (an * bn) * (xd * yd)) by (nonlinear_arith)
        requires x * ad == an * xd, y * bd == bn * yd;
    lemma_val_same(rat_mul(a, b)->Some_0, x * y, xd * yd, an * bn, ad * bd);
}

#[verifier::rlimit(100)]
proof fn lemma_add_val(a: Rational, an: int, ad: int, b: Rational, bn: int, bd: int)
    requires val_is(a, an, ad), val_is(b, bn, bd), rat_add(a, b) is Some,
    ensures val_is(rat_add(a, b)->Some_0, an * bd + bn * ad, ad * bd),
{
    let (x, xd, y, yd) = (a.num as int, a.den as int, b.num as int, b.den as int);
    lemma_new_val(x * yd + y * xd, xd * yd);
    assert(ad * bd != 0) by (nonlinear_arith) requires ad != 0, bd != 0;
    assert((x * yd) * (ad * bd) == (an * bd) * (xd * yd)) by (nonlinear_arith)
        requires x * ad == an * xd;
    assert((y * xd) * (ad * bd) == (bn * ad) * (xd * yd)) by (nonlinear_arith)
        requires y * bd == bn * yd;
    assert((x * yd + y * xd) * (ad * bd) == (x * yd) * (ad * bd) + (y * xd) * (ad * bd)) by (nonlinear_arith);
    assert((an * bd + bn * ad) * (xd * yd) == (an * bd) * (xd * yd) + (bn * ad) * (xd * yd)) by (nonlinear_arith);
    lemma_val_same(rat_add(a, b)->Some_0, x * yd + y * xd, xd * yd, an * bd + bn * ad, ad * bd);
}

#[verifier::rlimit(100)]
proof fn lemma_sub_val(a: Rational, an: int, ad: int, b: Rational, bn: int, bd: int)
    requires val_is(a, an, ad), val_is(b, bn, bd), rat_sub(a, b) is Some,
    ensures val_is(rat_sub(a, b)->Some_0, an * bd - bn * ad, ad * bd),
{
    let (x, xd, y, yd) = (a.num as int, a.den as int, b.num as int, b.den as int);
    lemma_new_val(x * yd - y * xd, xd * yd);
    assert(ad * bd != 0) by (nonlinear_arith) requires ad != 0, bd != 0;
    assert((x * yd) * (ad * bd) == (an * bd) * (xd * yd)) by (nonlinear_arith)
        requires x * ad == an * xd;
    assert((y * xd) * (ad * bd) == (bn * ad) * (xd * yd)) by (nonlinear_arith)
        requires y * bd == bn * yd;
    assert((x * yd - y * xd) * (ad * bd) == (x * yd) * (ad * bd) - (y * xd) * (ad * bd)) by (nonlinear_arith);
    assert((an * bd - bn * ad) * (xd * yd) == (an * bd) * (xd * yd) - (bn * ad) * (xd * yd)) by (nonlinear_arith);
    lemma_val_same(rat_sub(a, b)->Some_0, x * yd - y * xd, xd * yd, an * bd - bn * ad, ad * bd);
}

#[verifier::rlimit(100)]
proof fn lemma_div_val(a: Rational, an: int, ad: int, b: Rational, bn: int, bd: int)
    requires val_is(a, an, ad), val_is(b, bn, bd), rat_div(a, b) is Some,
    ensures bn != 0, val_is(rat_div(a, b)->Some_0, an * bd, ad * bn),
{
    let (x, xd, y, yd) = (a.num as int, a.den as int, b.num as int, b.den as int);
    assert(bn != 0) by (nonlinear_arith) requires y * bd == bn * yd, y != 0, bd != 0;
    lemma_new_val(x * yd, xd * y);
    assert(ad * bn != 0) by (nonlinear_arith) requires ad != 0, bn != 0;
    assert((x * yd) * (ad * bn) == (an * bd) * (xd * y)) by (nonlinear_arith)
        requires x * ad == an * xd, y * bd == bn * yd;
    lemma_val_same(rat_div(a, b)->Some_0, x * yd, xd * y, an * bd, ad * bn);
}


/// Rationals of one denominator subtract by their numerators.
proof fn lemma_sub_common(a: Rational, an: int, b: Rational, bn: int, e: int)
    requires val_is(a, an, e), val_is(b, bn, e), rat_sub(a, b) is Some,
    ensures val_is(rat_sub(a, b)->Some_0, an - bn, e),
{
    lemma_sub_val(a, an, e, b, bn, e);
    assert((an * e - bn * e) * e == (an - bn) * (e * e)) by (nonlinear_arith);
    lemma_val_same(rat_sub(a, b)->Some_0, an * e - bn * e, e * e, an - bn, e);
}

/// Rationals of one denominator add by their numerators.
proof fn lemma_add_common(a: Rational, an: int, b: Rational, bn: int, e: int)
    requires val_is(a, an, e), val_is(b, bn, e), rat_add(a, b) is Some,
    ensures val_is(rat_add(a, b)->Some_0, an + bn, e),
{
    lemma_add_val(a, an, e, b, bn, e);
    assert((an * e + bn * e) * e == (an + bn) * (e * e)) by (nonlinear_arith);
    lemma_val_same(rat_add(a, b)->Some_0, an * e + bn * e, e * e, an + bn, e);
}

/// Scaling numerator and denominator by one factor keeps the value.
proof fn lemma_scale(r: Rational, n: int, d: int, k: int)
    requires val_is(r, n, d), k != 0,
    ensures val_is(r, n * k, d * k),
{
    assert(d * k != 0) by (nonlinear_arith) requires d != 0, k != 0;
    assert(n * (d * k) == (n * k) * d) by (nonlinear_arith);
    lemma_val_same(r, n, d, n * k, d * k);
}

/// The numerators of `(x + yi)(c - di)`, the real and imaginary parts scaled.
pub open spec fn re_num(xn: int, xd: int, yn: int, yd: int, cn: int, cd: int, dn: int, dd: int) -> int {
    xn * cn * (yd * dd) + yn * dn * (xd * cd)
}

pub open spec fn im_num(xn: int, xd: int, yn: int, yd: int, cn: int, cd: int, dn: int, dd: int) -> int {
    yn * cn * (xd * dd) - xn * dn * (yd * cd)
}

/// `|c + di|²` scaled by `(cd·dd)²`.
pub open spec fn modulus_num(cn: int, cd: int, dn: int, dd: int) -> int {
    cn * cn * (dd * dd) + dn * dn * (cd * cd)
}

proof fn lemma_distrib(a: int, b: int, k1: int, k2: int)
    ensures
        (a + b) * k1 * k2 == a * k1 * k2 + b * k1 * k2,
        (a - b) * k1 * k2 == a * k1 * k2 - b * k1 * k2,
{
    assert((a + b) * k1 == a * k1 + b * k1) by (nonlinear_arith);
    assert((a - b) * k1 == a * k1 - b * k1) by (nonlinear_arith);
    assert((a * k1 + b * k1) * k2 == a * k1 * k2 + b * k1 * k2) by (nonlinear_arith);
    assert((a * k1 - b * k1) * k2 == a * k1 * k2 - b * k1 * k2) by (nonlinear_arith);
}

proof fn lemma_distrib_left(k: int, a: int, b: int)
    ensures k * (a + b) == k * a + k * b,
{
    assert(k * (a + b) == k * a + k * b) by (nonlinear_arith);
}

proof fn lemma_re_identity(xn: int, xd: int, yn: int, yd: int, cn: int, cd: int, dn: int, dd: int)
    ensures
        re_num(xn, xd, yn, yd, cn, cd, dn, dd) * cn * dd - im_num(xn, xd, yn, yd, cn, cd, dn, dd) * dn * cd
            == xn * yd * modulus_num(cn, cd, dn, dd),
{
    let a = xn * cn * (yd * dd);
    let b = yn * dn * (xd * cd);
    let c = yn * cn * (xd * dd);
    let d = xn * dn * (yd * cd);
    lemma_distrib(a, b, cn, dd);
    lemma_distrib(c, d, dn, cd);
    assert(b * cn * dd == c * dn * cd) by (nonlinear_arith)
        requires b == yn * dn * (xd * cd), c == yn * cn * (xd * dd);
    assert(a * cn * dd == xn * yd * (cn * cn * (dd * dd))) by (nonlinear_arith)
        requires a == xn * cn * (yd * dd);
    assert(d * dn * cd == xn * yd * (dn * dn * (cd * cd))) by (nonlinear_arith)
        requires d == xn * dn * (yd * cd);
    lemma_distrib_left(xn * yd, cn * cn * (dd * dd), dn * dn * (cd * cd));
}

proof fn lemma_im_identity(xn: int, xd: int, yn: int, yd: int, cn: int, cd: int, dn: int, dd: int)
    ensures
        re_num(xn, xd, yn, yd, cn, cd, dn, dd) * dn * cd + im_num(xn, xd, yn, yd, cn, cd, dn, dd) * cn * dd
            == yn * xd * modulus_num(cn, cd, dn, dd),
{
    let a = xn * cn * (yd * dd);
    let b = yn * dn * (xd * cd);
    let c = yn * cn * (xd * dd);
    let d = xn * dn * (yd * cd);
    lemma_distrib(a, b, dn, cd);
    lemma_distrib(c, d, cn, dd);
    assert(a * dn * cd == d * cn * dd) by (nonlinear_arith)
        requires a == xn * cn * (yd * dd), d == xn * dn * (yd * cd);
    assert(b * dn * cd == yn * xd * (dn * dn * (cd * cd))) by (nonlinear_arith)
        requires b == yn * dn * (xd * cd);
    assert(c * cn * dd == yn * xd * (cn * cn * (dd * dd))) by (nonlinear_arith)
        requires c == yn * cn * (xd * dd);
    lemma_distrib_left(yn * xd, cn * cn * (dd * dd), dn * dn * (cd * cd));
}

/// A Gaussian rational whose parts have positive denominators.
pub open spec fn cr_valid(a: ComplexRational) -> bool {
    a.re.den > 0 && a.im.den > 0
}

/// The parts of a quotient `a / b`, as fractions of the parts of `a` and `b`.
proof fn lemma_quotient_values(a: ComplexRational, b: ComplexRational)
    requires cr_valid(a), cr_valid(b), cr_div(a, b) is Some,
    ensures ({
        let (xn, xd, yn, yd) = (a.re.num as int, a.re.den as int, a.im.num as int, a.im.den as int);
        let (cn, cd, dn, dd) = (b.re.num as int, b.re.den as int, b.im.num as int, b.im.den as int);
        let g = (cd * cd) * (dd * dd);
        let h = (xd * cd) * (yd * dd);
        let mm = modulus_num(cn, cd, dn, dd);
        &&& mm != 0
        &&& val_is(cr_div(a, b)->Some_0.re, re_num(xn, xd, yn, yd, cn, cd, dn, dd) * g, h * mm)
        &&& val_is(cr_div(a, b)->Some_0.im, im_num(xn, xd, yn, yd, cn, cd, dn, dd) * g, h * mm)
    }),
{
    let (x, y, c, d) = (a.re, a.im, b.re, b.im);
    let (xn, xd, yn, yd) = (x.num as int, x.den as int, y.num as int, y.den as int);
    let (cn, cd, dn, dd) = (c.num as int, c.den as int, d.num as int, d.den as int);
    let cc = rat_mul(c, c)->Some_0;
    let d2 = rat_mul(d, d)->Some_0;
    let m = rat_add(cc, d2)->Some_0;
    lemma_mul_val(c, cn, cd, c, cn, cd);
    lemma_mul_val(d, dn, dd, d, dn, dd);
    lemma_add_val(cc, cn * cn, cd * cd, d2, dn * dn, dd * dd);
    let xc = rat_mul(x, c)->Some_0;
    let ydn = rat_mul(y, d)->Some_0;
    let yc = rat_mul(y, c)->Some_0;
    let xdn = rat_mul(x, d)->Some_0;
    lemma_mul_val(x, xn, xd, c, cn, cd);
    lemma_mul_val(y, yn, yd, d, dn, dd);
    lemma_mul_val(y, yn, yd, c, cn, cd);
    lemma_mul_val(x, xn, xd, d, dn, dd);
    let rn = rat_add(xc, ydn)->Some_0;
    let imn = rat_sub(yc, xdn)->Some_0;
    lemma_add_val(xc, xn * cn, xd * cd, ydn, yn * dn, yd * dd);
    lemma_sub_val(yc, yn * cn, yd * cd, xdn, xn * dn, xd * dd);
    let h = (xd * cd) * (yd * dd);
    let h2 = (yd * cd) * (xd * dd);
    assert(h2 == h) by (nonlinear_arith) requires h == (xd * cd) * (yd * dd), h2 == (yd * cd) * (xd * dd);
    let big_im = im_num(xn, xd, yn, yd, cn, cd, dn, dd);
    assert(big_im * h == big_im * h2);
    lemma_val_same(imn, big_im, h2, big_im, h);
    let mm = modulus_num(cn, cd, dn, dd);
    let g = (cd * cd) * (dd * dd);
    lemma_div_val(rn, re_num(xn, xd, yn, yd, cn, cd, dn, dd), h, m, mm, g);
    lemma_div_val(imn, big_im, h, m, mm, g);
}

proof fn lemma_factor(rn: int, im: int, g: int, cn: int, dd: int, dn: int, cd: int)
    ensures
        rn * g * cn * dd - im * g * dn * cd == g * (rn * cn * dd - im * dn * cd),
        rn * g * dn * cd + im * g * cn * dd == g * (rn * dn * cd + im * cn * dd),
{
    assert(rn * g * cn * dd == g * (rn * cn * dd)) by (nonlinear_arith);
    assert(im * g * dn * cd == g * (im * dn * cd)) by (nonlinear_arith);
    assert(rn * g * dn * cd == g * (rn * dn * cd)) by (nonlinear_arith);
    assert(im * g * cn * dd == g * (im * cn * dd)) by (nonlinear_arith);
    assert(g * (rn * cn * dd - im * dn * cd) == g * (rn * cn * dd) - g * (im * dn * cd)) by (nonlinear_arith);
    assert(g * (rn * dn * cd + im * cn * dd) == g * (rn * dn * cd) + g * (im * cn * dd)) by (nonlinear_arith);
}

#[verifier::rlimit(100)]
proof fn lemma_final_algebra(xn: int, xd: int, yn: int, yd: int, cd: int, dd: int, g: int, h: int, mm: int, e: int, k1: int, k2: int)
    requires
        g == (cd * cd) * (dd * dd),
        h == (xd * cd) * (yd * dd),
        e == h * mm * cd * dd,
        k1 == xn * yd * mm,
        k2 == yn * xd * mm,
    ensures
        (g * k1) * xd == xn * e,
        (g * k2) * yd == yn * e,
{
    let w = xd * yd * mm * (cd * cd) * (dd * dd);
    assert((g * k1) * xd == xn * w) by (nonlinear_arith) requires g == (cd * cd) * (dd * dd), k1 == xn * yd * mm, w == xd * yd * mm * (cd * cd) * (dd * dd);
    assert(e == w) by (nonlinear_arith) requires h == (xd * cd) * (yd * dd), e == h * mm * cd * dd, w == xd * yd * mm * (cd * cd) * (dd * dd);
    assert((g * k2) * yd == yn * w) by (nonlinear_arith) requires g == (cd * cd) * (dd * dd), k2 == yn * xd * mm, w == xd * yd * mm * (cd * cd) * (dd * dd);
}

proof fn lemma_sub_reduced(a: Rational, b: Rational)
    requires rat_sub(a, b) is Some,
    ensures reduced(rat_sub(a, b)->Some_0),
{
    law_rational_normal_form(a.num * b.den - b.num * a.den, a.den * b.den);
}

proof fn lemma_add_reduced(a: Rational, b: Rational)
    requires rat_add(a, b) is Some,
    ensures reduced(rat_add(a, b)->Some_0),
{
    law_rational_normal_form(a.num * b.den + b.num * a.den, a.den * b.den);
}

/// A rational in lowest terms with a positive denominator is the only such form of its value.
proof fn lemma_reduced_unique(r: Rational, s: Rational)
    requires reduced(r), reduced(s), same_value(r, s),
    ensures r == s,
{
    let (rn, rd, sn, sd) = (r.num as int, r.den as int, s.num as int, s.den as int);
    let (a, b, c, d) = (abs(rn), abs(rd), abs(sn), abs(sd));
    assert(b == rd && d == sd);
    lemma_nat_gcd_bound(a, b);
    lemma_nat_gcd_bound(c, d);
    assert(nat_gcd(a, b) == 1 && nat_gcd(c, d) == 1);
    assert(a == (if rn < 0 { -rn } else { rn }) && c == (if sn < 0 { -sn } else { sn }));
    assert(a * d == c * b) by (nonlinear_arith)
        requires
            rn * sd == sn * rd, rd > 0, sd > 0, d == sd, b == rd,
            a == (if rn < 0 { -rn } else { rn }), c == (if sn < 0 { -sn } else { sn });
    lemma_gcd_scale(d, a, b);
    lemma_gcd_scale(b, c, d);
    assert(d * a == b * c && d * b == b * d) by (nonlinear_arith) requires a * d == c * b;
    assert(d * 1 == b * 1);
    assert(rd == sd);
    lemma_cancel(rn, sn, rd);
}

/// Division of Gaussian rationals undoes multiplication: when `a / b` gives `q` and `q * b` can be
/// formed without overflow, `q * b` has the value of `a`, part by part. So the real part of the
/// quotient is `(a.re·b.re + a.im·b.im) / |b|²` and its imaginary part `(a.im·b.re - a.re·b.im) / |b|²`.
pub proof fn law_division_inverts_multiplication(a: ComplexRational, b: ComplexRational)
    requires
        cr_valid(a),
        cr_valid(b),
        cr_div(a, b) is Some,
        cr_mul(cr_div(a, b)->Some_0, b) is Some,
    ensures
        same_value(cr_mul(cr_div(a, b)->Some_0, b)->Some_0.re, a.re),
        same_value(cr_mul(cr_div(a, b)->Some_0, b)->Some_0.im, a.im),
        reduced(a.re) && reduced(a.im) ==> cr_mul(cr_div(a, b)->Some_0, b) == Some(a),
{
    let (c, d) = (b.re, b.im);
    let (xn, xd, yn, yd) = (a.re.num as int, a.re.den as int, a.im.num as int, a.im.den as int);
    let (cn, cd, dn, dd) = (c.num as int, c.den as int, d.num as int, d.den as int);
    let q = cr_div(a, b)->Some_0;
    let p = cr_mul(q, b)->Some_0;
    lemma_quotient_values(a, b);
    let g = (cd * cd) * (dd * dd);
    let h = (xd * cd) * (yd * dd);
    let mm = modulus_num(cn, cd, dn, dd);
    let rn = re_num(xn, xd, yn, yd, cn, cd, dn, dd);
    let im = im_num(xn, xd, yn, yd, cn, cd, dn, dd);
    let e = h * mm * cd * dd;
    assert(cd != 0 && dd != 0);
    lemma_mul_val(q.re, rn * g, h * mm, c, cn, cd);
    lemma_mul_val(q.im, im * g, h * mm, d, dn, dd);
    lemma_mul_val(q.re, rn * g, h * mm, d, dn, dd);
    lemma_mul_val(q.im, im * g, h * mm, c, cn, cd);
    let s1 = rat_mul(q.re, c)->Some_0;
    let s2 = rat_mul(q.im, d)->Some_0;
    let s3 = rat_mul(q.re, d)->Some_0;
    let s4 = rat_mul(q.im, c)->Some_0;
    lemma_scale(s1, rn * g * cn, h * mm * cd, dd);
    lemma_scale(s2, im * g * dn, h * mm * dd, cd);
    lemma_scale(s3, rn * g * dn, h * mm * dd, cd);
    lemma_scale(s4, im * g * cn, h * mm * cd, dd);
    assert(h * mm * cd * dd == e && h * mm * dd * cd == e) by (nonlinear_arith) requires e == h * mm * cd * dd;
    assert(p.re == rat_sub(s1, s2)->Some_0 && p.im == rat_add(s3, s4)->Some_0);
    lemma_sub_common(s1, rn * g * cn * dd, s2, im * g * dn * cd, e);
    lemma_add_common(s3, rn * g * dn * cd, s4, im * g * cn * dd, e);
    lemma_re_identity(xn, xd, yn, yd, cn, cd, dn, dd);
    lemma_im_identity(xn, xd, yn, yd, cn, cd, dn, dd);
    lemma_final_algebra(xn, xd, yn, yd, cd, dd, g, h, mm, e, rn * cn * dd - im * dn * cd, rn * dn * cd + im * cn * dd);
    lemma_factor(rn, im, g, cn, dd, dn, cd);
    lemma_val_same(p.re, rn * g * cn * dd - im * g * dn * cd, e, xn, xd);
    lemma_val_same(p.im, rn * g * dn * cd + im * g * cn * dd, e, yn, yd);
    if reduced(a.re) && reduced(a.im) {
        lemma_sub_reduced(s1, s2);
        lemma_add_reduced(s3, s4);
        lemma_reduced_unique(p.re, a.re);
        lemma_reduced_unique(p.im, a.im);
    }
}

} // verus!
