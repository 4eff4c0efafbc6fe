//! Exact arithmetic over Gaussian rationals, and evaluation of ground terms.
use vstd::prelude::*;
use crate::fol::{Term, STerm, Equality, SEquality, terms_view, func1, func2, int_term, lemma_view, lemma_view_func, lemma_decreases_arg, term_eq, clone_terms, lemma_terms_view_push, lemma_terms_view_update, rep, display, eq_vars};
use crate::strings::{owned, str_eq, parse_i64, parse_i64_spec, strings_view};
use crate::lean::{is_boolean_equality, is_bool_eq};

verus! {

/// Euclid's greatest common divisor of two naturals.
pub open spec fn nat_gcd(a: nat, b: nat) -> nat
    decreases b,
{
    if b == 0 { a } else { nat_gcd(b, a % b) }
}

pub open spec fn abs(x: int) -> nat {
    if x < 0 { (-x) as nat } else { x as nat }
}

/// What `gcd` returns: the greatest common divisor of the magnitudes, or 1 when both are zero.
pub open spec fn spec_gcd(a: int, b: int) -> int {
    let g = nat_gcd(abs(a), abs(b));
    if g == 0 { 1 } else { g as int }
}

pub proof fn lemma_nat_gcd_bound(a: nat, b: nat)
    ensures
        nat_gcd(a, b) <= if a >= b { a } else { b },
        (a > 0 || b > 0) ==> nat_gcd(a, b) > 0,
    decreases b,
{
    if b > 0 {
        assert(a % b < b) by (nonlinear_arith) requires b > 0;
        lemma_nat_gcd_bound(b, a % b);
    }
}

fn gcd_u64(a: u64, b: u64) -> (r: u64)
    ensures r == nat_gcd(a as nat, b as nat),
{
    let mut x = a;
    let mut y = b;
    while y != 0
        invariant nat_gcd(x as nat, y as nat) == nat_gcd(a as nat, b as nat),
        decreases y,
    {
        let t = y;
        y = x % y;
        x = t;
    }
    x
}

/// Greatest common divisor of the magnitudes of `a` and `b`, or 1 when both are zero.
pub fn gcd(a: i64, b: i64) -> (r: i64)
    requires a != i64::MIN, b != i64::MIN,
    ensures r == spec_gcd(a as int, b as int),
{
    let x: u64 = if a < 0 { (-a) as u64 } else { a as u64 };
    let y: u64 = if b < 0 { (-b) as u64 } else { b as u64 };
    let g = gcd_u64(x, y);
    proof { lemma_nat_gcd_bound(x as nat, y as nat); }
    if g == 0 { 1 } else { g as i64 }
}

/// A rational number `num / den`; the operations keep it reduced with a positive denominator.
#[derive(Debug, Clone, Copy, PartialEq, Eq, Hash, Structural)]
pub struct Rational {
    pub num: i64,
    pub den: i64,
}

pub open spec fn fits(x: int) -> bool {
    i64::MIN <= x <= i64::MAX
}

/// What `Rational::new` makes of `num / den`: reduced by the greatest common divisor, with the
/// sign carried by the numerator; `None` for a zero denominator or an operand of `i64::MIN`.
pub open spec fn rat_new(num: int, den: int) -> Option<Rational> {
    if den == 0 || !fits(num) || !fits(den) || num == i64::MIN || den == i64::MIN {
        None
    } else {
        let g = spec_gcd(num, den) as nat;
        let q = (abs(num) / g) as int;
        let s = if num < 0 { -q } else { q };
        Some(Rational {
            num: (if den < 0 { -s } else { s }) as i64,
            den: (abs(den) / g) as i64,
        })
    }
}

pub open spec fn rat_add(a: Rational, b: Rational) -> Option<Rational> {
    let p1 = a.num * b.den;
    let p2 = b.num * a.den;
    let d = a.den * b.den;
    if !fits(p1) || !fits(p2) || !fits(p1 + p2) || !fits(d) { None } else { rat_new(p1 + p2, d) }
}

pub open spec fn rat_sub(a: Rational, b: Rational) -> Option<Rational> {
    let p1 = a.num * b.den;
    let p2 = b.num * a.den;
    let d = a.den * b.den;
    if !fits(p1) || !fits(p2) || !fits(p1 - p2) || !fits(d) { None } else { rat_new(p1 - p2, d) }
}

pub open spec fn rat_mul(a: Rational, b: Rational) -> Option<Rational> {
    let n = a.num * b.num;
    let d = a.den * b.den;
    if !fits(n) || !fits(d) { None } else { rat_new(n, d) }
}

pub open spec fn rat_div(a: Rational, b: Rational) -> Option<Rational> {
    let n = a.num * b.den;
    let d = a.den * b.num;
    if b.num == 0 || !fits(n) || !fits(d) { None } else { rat_new(n, d) }
}

pub open spec fn rat_neg(a: Rational) -> Rational {
    Rational { num: (-a.num) as i64, den: a.den }
}

/// The term for a rational: an integer, or a quotient of integers.
pub open spec fn rat_term(r: Rational) -> STerm {
    if r.den == 1 {
        int_term(r.num as int)
    } else {
        STerm::Func("/"@, seq![int_term(r.num as int), int_term(r.den as int)])
    }
}

pub proof fn lemma_div_le(a: nat, g: nat)
    requires g >= 1,
    ensures a / g <= a,
{
    assert(a / g <= a) by (nonlinear_arith) requires g >= 1;
}

impl Rational {
    /// `num / den` reduced, or `None` when `den` is zero.
    pub fn new(num: i64, den: i64) -> (r: Option<Rational>)
        ensures r == rat_new(num as int, den as int),
    {
        if den == 0 || num == i64::MIN || den == i64::MIN {
            return None;
        }
        let g = gcd(num, den);
        let an: u64 = if num < 0 { (-num) as u64 } else { num as u64 };
        let ad: u64 = if den < 0 { (-den) as u64 } else { den as u64 };
        proof {
            lemma_div_le(an as nat, g as nat);
            lemma_div_le(ad as nat, g as nat);
        }
        let qn = (an / (g as u64)) as i64;
        let qd = (ad / (g as u64)) as i64;
        let signed = if num < 0 { -qn } else { qn };
        let n = if den < 0 { -signed } else { signed };
        Some(Rational { num: n, den: qd })
    }

    pub fn from_i64(n: i64) -> (r: Rational)
        ensures r == (Rational { num: n, den: 1 }),
    {
        Rational { num: n, den: 1 }
    }

    pub fn is_integer(&self) -> (r: bool)
        ensures r == (self.den == 1),
    {
        self.den == 1
    }

    pub fn add(self, other: Rational) -> (r: Option<Rational>)
        ensures r == rat_add(self, other),
    {
        let p1 = self.num.checked_mul(other.den)?;
        let p2 = other.num.checked_mul(self.den)?;
        let num = p1.checked_add(p2)?;
        let den = self.den.checked_mul(other.den)?;
        Rational::new(num, den)
    }

    pub fn sub(self, other: Rational) -> (r: Option<Rational>)
        ensures r == rat_sub(self, other),
    {
        let p1 = self.num.checked_mul(other.den)?;
        let p2 = other.num.checked_mul(self.den)?;
        let num = p1.checked_sub(p2)?;
        let den = self.den.checked_mul(other.den)?;
        Rational::new(num, den)
    }

    pub fn mul(self, other: Rational) -> (r: Option<Rational>)
        ensures r == rat_mul(self, other),
    {
        let num = self.num.checked_mul(other.num)?;
        let den = self.den.checked_mul(other.den)?;
        Rational::new(num, den)
    }

    pub fn div(self, other: Rational) -> (r: Option<Rational>)
        ensures r == rat_div(self, other),
    {
        if other.num == 0 {
            return None;
        }
        let num = self.num.checked_mul(other.den)?;
        let den = self.den.checked_mul(other.num)?;
        Rational::new(num, den)
    }

    pub fn neg(self) -> (r: Rational)
        requires self.num != i64::MIN,
        ensures r == rat_neg(self),
    {
        Rational { num: -self.num, den: self.den }
    }

    pub fn to_term(&self) -> (r: Term)
        ensures r@ == rat_term(*self),
    {
        if self.den == 1 {
            Term::from_i64(self.num)
        } else {
            func2("/", Term::from_i64(self.num), Term::from_i64(self.den))
        }
    }
}


/// A rational with denominator one.
pub open spec fn ri(n: int) -> Rational {
    Rational { num: n as i64, den: 1 }
}

/// A Gaussian rational `re + im·i`.
#[derive(Debug, Clone, Copy, PartialEq, Eq, Structural)]
pub struct ComplexRational {
    pub re: Rational,
    pub im: Rational,
}

pub open spec fn opt_add(x: Option<Rational>, y: Option<Rational>) -> Option<Rational> {
    match (x, y) {
        (Some(p), Some(q)) => rat_add(p, q),
        _ => None,
    }
}

pub open spec fn opt_sub(x: Option<Rational>, y: Option<Rational>) -> Option<Rational> {
    match (x, y) {
        (Some(p), Some(q)) => rat_sub(p, q),
        _ => None,
    }
}

pub open spec fn opt_pair(x: Option<Rational>, y: Option<Rational>) -> Option<ComplexRational> {
    match (x, y) {
        (Some(re), Some(im)) => Some(ComplexRational { re, im }),
        _ => None,
    }
}

pub open spec fn cr_add(a: ComplexRational, b: ComplexRational) -> Option<ComplexRational> {
    opt_pair(rat_add(a.re, b.re), rat_add(a.im, b.im))
}

pub open spec fn cr_sub(a: ComplexRational, b: ComplexRational) -> Option<ComplexRational> {
    opt_pair(rat_sub(a.re, b.re), rat_sub(a.im, b.im))
}

/// `(a + bi)(c + di) = (ac - bd) + (ad + bc)i`, each step checked.
pub open spec fn cr_mul(a: ComplexRational, b: ComplexRational) -> Option<ComplexRational> {
    opt_pair(
        opt_sub(rat_mul(a.re, b.re), rat_mul(a.im, b.im)),
        opt_add(rat_mul(a.re, b.im), rat_mul(a.im, b.re)),
    )
}

/// Division through the squared modulus of the divisor; `None` when it is zero or a step overflows.
pub open spec fn cr_div(a: ComplexRational, b: ComplexRational) -> Option<ComplexRational> {
    match opt_add(rat_mul(b.re, b.re), rat_mul(b.im, b.im)) {
        None => None,
        Some(d) => if d.num == 0 {
            None
        } else {
            match (
                opt_add(rat_mul(a.re, b.re), rat_mul(a.im, b.im)),
                opt_sub(rat_mul(a.im, b.re), rat_mul(a.re, b.im)),
            ) {
                (Some(rn), Some(imn)) => opt_pair(rat_div(rn, d), rat_div(imn, d)),
                _ => None,
            }
        },
    }
}

/// Negation of both parts; `None` where a part is `i64::MIN` and has no negation in i64.
pub open spec fn cr_neg(a: ComplexRational) -> Option<ComplexRational> {
    if a.re.num == i64::MIN || a.im.num == i64::MIN {
        None
    } else {
        Some(ComplexRational { re: rat_neg(a.re), im: rat_neg(a.im) })
    }
}

/// The arithmetic operators that evaluation folds.
pub open spec fn is_arith_op(op: Seq<char>) -> bool {
    op == "+"@ || op == "-"@ || op == "*"@ || op == "·"@ || op == "/"@
}

pub open spec fn cr_binop(op: Seq<char>, a: ComplexRational, b: ComplexRational) -> Option<ComplexRational> {
    if op == "+"@ {
        cr_add(a, b)
    } else if op == "-"@ {
        cr_sub(a, b)
    } else if op == "*"@ || op == "·"@ {
        cr_mul(a, b)
    } else if op == "/"@ {
        cr_div(a, b)
    } else {
        None
    }
}

/// The Gaussian rational a ground term denotes: numerals, `i`, unary minus and the four
/// operations; `None` for anything else, a zero divisor or an overflow.
pub open spec fn cr_of(t: STerm) -> Option<ComplexRational>
    decreases t,
{
    match t {
        STerm::Const(s) => if s == "i"@ {
            Some(ComplexRational { re: ri(0), im: ri(1) })
        } else {
            match parse_i64_spec(s) {
                Some(n) => Some(ComplexRational { re: ri(n as int), im: ri(0) }),
                None => None,
            }
        },
        STerm::Func(op, args) => if op == "-"@ && args.len() == 1 {
            match cr_of(args[0]) {
                Some(x) => cr_neg(x),
                None => None,
            }
        } else if args.len() == 2 {
            match (cr_of(args[0]), cr_of(args[1])) {
                (Some(a), Some(b)) => cr_binop(op, a, b),
                _ => None,
            }
        } else {
            None
        },
        STerm::Var(_) => None,
    }
}

/// The term for an imaginary part `im·i`.
pub open spec fn im_term(im: Rational) -> STerm {
    if im == ri(1) {
        STerm::Const("i"@)
    } else if im == ri(-1) {
        STerm::Func("-"@, seq![STerm::Const("i"@)])
    } else {
        STerm::Func("*"@, seq![rat_term(im), STerm::Const("i"@)])
    }
}

/// The term for a Gaussian rational: the real part alone, the imaginary part alone, or their sum.
pub open spec fn cr_term(c: ComplexRational) -> STerm {
    if c.im.num == 0 {
        rat_term(c.re)
    } else if c.re.num == 0 {
        im_term(c.im)
    } else {
        STerm::Func("+"@, seq![rat_term(c.re), im_term(c.im)])
    }
}

impl ComplexRational {
    pub fn new(re: Rational, im: Rational) -> (r: ComplexRational)
        ensures r == (ComplexRational { re, im }),
    {
        ComplexRational { re, im }
    }

    pub fn from_i64(n: i64) -> (r: ComplexRational)
        ensures r == (ComplexRational { re: ri(n as int), im: ri(0) }),
    {
        ComplexRational { re: Rational::from_i64(n), im: Rational::from_i64(0) }
    }

    pub fn add(self, other: ComplexRational) -> (r: Option<ComplexRational>)
        ensures r == cr_add(self, other),
    {
        let re = self.re.add(other.re)?;
        let im = self.im.add(other.im)?;
        Some(ComplexRational::new(re, im))
    }

    pub fn sub(self, other: ComplexRational) -> (r: Option<ComplexRational>)
        ensures r == cr_sub(self, other),
    {
        let re = self.re.sub(other.re)?;
        let im = self.im.sub(other.im)?;
        Some(ComplexRational::new(re, im))
    }

    pub fn mul(self, other: ComplexRational) -> (r: Option<ComplexRational>)
        ensures r == cr_mul(self, other),
    {
        let ac = self.re.mul(other.re)?;
        let bd = self.im.mul(other.im)?;
        let re = ac.sub(bd)?;
        let ad = self.re.mul(other.im)?;
        let bc = self.im.mul(other.re)?;
        let im = ad.add(bc)?;
        Some(ComplexRational::new(re, im))
    }

    pub fn div(self, other: ComplexRational) -> (r: Option<ComplexRational>)
        ensures r == cr_div(self, other),
    {
        let cc = other.re.mul(other.re)?;
        let dd = other.im.mul(other.im)?;
        let denom = cc.add(dd)?;
        if denom.num == 0 {
            return None;
        }
        let ac = self.re.mul(other.re)?;
        let bd = self.im.mul(other.im)?;
        let re_num = ac.add(bd)?;
        let bc = self.im.mul(other.re)?;
        let ad = self.re.mul(other.im)?;
        let im_num = bc.sub(ad)?;
        let re = re_num.div(denom)?;
        let im = im_num.div(denom)?;
        Some(ComplexRational::new(re, im))
    }

    fn negate(self) -> (r: Option<ComplexRational>)
        ensures r == cr_neg(self),
    {
        if self.re.num == i64::MIN || self.im.num == i64::MIN {
            None
        } else {
            Some(ComplexRational::new(self.re.neg(), self.im.neg()))
        }
    }

    fn binop(op: &str, a: ComplexRational, b: ComplexRational) -> (r: Option<ComplexRational>)
        ensures r == cr_binop(op@, a, b),
    {
        if str_eq(op, "+") {
            a.add(b)
        } else if str_eq(op, "-") {
            a.sub(b)
        } else if str_eq(op, "*") || str_eq(op, "·") {
            a.mul(b)
        } else if str_eq(op, "/") {
            a.div(b)
        } else {
            None
        }
    }

    /// The Gaussian rational a ground term denotes, if any.
    pub fn from_term(term: &Term) -> (r: Option<ComplexRational>)
        ensures r == cr_of(term@),
        decreases term,
    {
        proof { lemma_view(*term); }
        match term {
            Term::Const(s) => {
                if str_eq(s.as_str(), "i") {
                    Some(ComplexRational::new(Rational::from_i64(0), Rational::from_i64(1)))
                } else {
                    match parse_i64(s.as_str()) {
                        Some(n) => Some(ComplexRational::from_i64(n)),
                        None => None,
                    }
                }
            },
            Term::Func(op, args) => {
                proof { lemma_view_func(*term); }
                if str_eq(op.as_str(), "-") && args.len() == 1 {
                    proof { lemma_decreases_arg(*term, 0); }
                    let inner = ComplexRational::from_term(&args[0])?;
                    inner.negate()
                } else if args.len() == 2 {
                    proof {
                        lemma_decreases_arg(*term, 0);
                        lemma_decreases_arg(*term, 1);
                    }
                    let a = ComplexRational::from_term(&args[0])?;
                    let b = ComplexRational::from_term(&args[1])?;
                    ComplexRational::binop(op.as_str(), a, b)
                } else {
                    None
                }
            },
            Term::Var(_) => None,
        }
    }

    /// The term for this number.
    pub fn to_term(&self) -> (r: Term)
        ensures r@ == cr_term(*self),
    {
        if self.im.num == 0 {
            self.re.to_term()
        } else if self.re.num == 0 {
            imaginary_term(self.im)
        } else {
            func2("+", self.re.to_term(), imaginary_term(self.im))
        }
    }
}

fn imaginary_term(im: Rational) -> (r: Term)
    ensures r@ == im_term(im),
{
    if im == Rational::from_i64(1) {
        Term::constant("i")
    } else if im == Rational::from_i64(-1) {
        func1("-", Term::constant("i"))
    } else {
        func2("*", im.to_term(), Term::constant("i"))
    }
}

/// A Gaussian integer `re + im·i`.
#[derive(Debug, Clone, Copy, PartialEq, Eq, Structural)]
pub struct ComplexInt {
    pub re: i64,
    pub im: i64,
}

/// The Gaussian integer a ground term denotes, when it denotes one.
pub open spec fn ci_of(t: STerm) -> Option<ComplexInt> {
    match cr_of(t) {
        Some(c) => if c.re.den == 1 && c.im.den == 1 {
            Some(ComplexInt { re: c.re.num, im: c.im.num })
        } else {
            None
        },
        None => None,
    }
}

impl ComplexInt {
    pub fn new(re: i64, im: i64) -> (r: ComplexInt)
        ensures r == (ComplexInt { re, im }),
    {
        ComplexInt { re, im }
    }

    pub fn from_term(term: &Term) -> (r: Option<ComplexInt>)
        ensures r == ci_of(term@),
    {
        let cr = ComplexRational::from_term(term)?;
        if cr.re.is_integer() && cr.im.is_integer() {
            Some(ComplexInt::new(cr.re.num, cr.im.num))
        } else {
            None
        }
    }

    pub fn to_term(&self) -> (r: Term)
        ensures r@ == cr_term(ComplexRational { re: ri(self.re as int), im: ri(self.im as int) }),
    {
        ComplexRational::new(Rational::from_i64(self.re), Rational::from_i64(self.im)).to_term()
    }
}


/// Full evaluation: a term that denotes a Gaussian rational becomes its canonical term;
/// otherwise each argument of an application is evaluated in place.
pub open spec fn eval_full(t: STerm) -> STerm
    decreases t,
{
    match cr_of(t) {
        Some(c) => cr_term(c),
        None => match t {
            STerm::Func(op, args) => STerm::Func(
                op,
                Seq::new(args.len(), |i: int| if 0 <= i < args.len() { eval_full(args[i]) } else { t }),
            ),
            _ => t,
        },
    }
}

/// Evaluates every ground arithmetic subterm of `term` to its canonical form.
#[verifier::loop_isolation(false)]
pub fn eval_full_arithmetic(term: &Term) -> (r: Term)
    ensures r@ == eval_full(term@),
    decreases term,
{
    match ComplexRational::from_term(term) {
        Some(c) => { return c.to_term(); },
        None => {},
    }
    proof { lemma_view(*term); }
    match term {
        Term::Func(op, args) => {
            proof { lemma_view_func(*term); }
            let mut out: Vec<Term> = Vec::new();
            let mut i: usize = 0;
            while i < args.len()
                invariant
                    i <= args.len(),
                    out@.len() == i,
                    forall|j: int| 0 <= j < i ==> #[trigger] out@[j]@ == eval_full(args@[j]@),
                decreases args.len() - i,
            {
                proof { lemma_decreases_arg(*term, i as int); }
                out.push(eval_full_arithmetic(&args[i]));
                i += 1;
            }
            let r = Term::func(op.as_str(), out);
            proof {
                let ev = eval_full(term@);
                assert(ev->Func_1 =~= terms_view(out@));
            }
            r
        },
        _ => term.clone(),
    }
}

/// The truth value of a ground boolean term built from 0, 1, true, false, negation,
/// conjunction and disjunction.
pub open spec fn bool_of(t: STerm) -> Option<bool>
    decreases t,
{
    match t {
        STerm::Const(s) => if s == "1"@ || s == "true"@ {
            Some(true)
        } else if s == "0"@ || s == "false"@ {
            Some(false)
        } else {
            None
        },
        STerm::Func(op, args) => if (op == "!"@ || op == "¬"@ || op == "~"@) && args.len() == 1 {
            match bool_of(args[0]) {
                Some(b) => Some(!b),
                None => None,
            }
        } else if args.len() == 2 {
            match (bool_of(args[0]), bool_of(args[1])) {
                (Some(a), Some(b)) => if op == "&"@ || op == "∧"@ {
                    Some(a && b)
                } else if op == "|"@ || op == "∨"@ {
                    Some(a || b)
                } else {
                    None
                },
                _ => None,
            }
        } else {
            None
        },
        STerm::Var(_) => None,
    }
}

/// Evaluates a ground boolean term.
pub fn eval_bool_term(term: &Term) -> (r: Option<bool>)
    ensures r == bool_of(term@),
    decreases term,
{
    proof { lemma_view(*term); }
    match term {
        Term::Const(s) => {
            if str_eq(s.as_str(), "1") || str_eq(s.as_str(), "true") {
                Some(true)
            } else if str_eq(s.as_str(), "0") || str_eq(s.as_str(), "false") {
                Some(false)
            } else {
                None
            }
        },
        Term::Func(op, args) => {
            proof { lemma_view_func(*term); }
            let o = op.as_str();
            if (str_eq(o, "!") || str_eq(o, "¬") || str_eq(o, "~")) && args.len() == 1 {
                proof { lemma_decreases_arg(*term, 0); }
                let b = eval_bool_term(&args[0])?;
                Some(!b)
            } else if args.len() == 2 {
                proof {
                    lemma_decreases_arg(*term, 0);
                    lemma_decreases_arg(*term, 1);
                }
                let a = eval_bool_term(&args[0])?;
                let b = eval_bool_term(&args[1])?;
                if str_eq(o, "&") || str_eq(o, "∧") {
                    Some(a && b)
                } else if str_eq(o, "|") || str_eq(o, "∨") {
                    Some(a || b)
                } else {
                    None
                }
            } else {
                None
            }
        },
        Term::Var(_) => None,
    }
}


/// Removes consecutive repeats, keeping the first of each run (what `Vec::dedup` does).
pub open spec fn dedup(s: Seq<STerm>) -> Seq<STerm>
    decreases s.len(),
{
    if s.len() <= 1 {
        s
    } else if s.last() == s[s.len() - 2] {
        dedup(s.drop_last())
    } else {
        dedup(s.drop_last()).push(s.last())
    }
}

fn dedup_terms(v: &Vec<Term>) -> (r: Vec<Term>)
    ensures terms_view(r@) == dedup(terms_view(v@)),
{
    let mut out: Vec<Term> = Vec::new();
    let mut i: usize = 0;
    while i < v.len()
        invariant
            i <= v.len(),
            terms_view(out@) == dedup(terms_view(v@).take(i as int)),
        decreases v.len() - i,
    {
        let ghost sv = terms_view(v@);
        proof {
            assert(sv.take(i + 1).drop_last() =~= sv.take(i as int));
            assert(sv.take(i + 1).last() == v@[i as int]@);
            if i > 0 {
                assert(sv.take(i + 1)[i - 1] == v@[i - 1]@);
            }
        }
        if i == 0 || !term_eq(&v[i], &v[i - 1]) {
            let c = v[i].clone();
            proof { lemma_terms_view_push(out@, c); }
            out.push(c);
            proof {
                if i == 0 {
                    assert(sv.take(1) =~= seq![v@[0]@]);
                    assert(dedup(sv.take(0)) =~= Seq::empty());
                }
            }
        }
        i += 1;
    }
    proof { assert(terms_view(v@).take(i as int) =~= terms_view(v@)); }
    out
}

/// The single result of folding an arithmetic operation on two ground operands, if it changes the term.
pub open spec fn fold_root(t: STerm, op: Seq<char>, x: STerm, y: STerm) -> Seq<STerm> {
    match (cr_of(x), cr_of(y)) {
        (Some(a), Some(b)) => match cr_binop(op, a, b) {
            Some(res) => if cr_term(res) != t { seq![cr_term(res)] } else { Seq::empty() },
            None => Seq::empty(),
        },
        _ => Seq::empty(),
    }
}

/// The single result of folding a negation of a ground operand, if it changes the term.
pub open spec fn neg_root(t: STerm, x: STerm) -> Seq<STerm> {
    match cr_of(x) {
        Some(a) => match cr_neg(a) {
            Some(n) => if cr_term(n) != t { seq![cr_term(n)] } else { Seq::empty() },
            None => Seq::empty(),
        },
        None => Seq::empty(),
    }
}

/// The results of one evaluation step at argument `i`, put back in place.
pub open spec fn steps_at(op: Seq<char>, args: Seq<STerm>, i: int, subs: Seq<STerm>) -> Seq<STerm> {
    subs.map_values(|r: STerm| STerm::Func(op, args.update(i, r)))
}

/// All terms one arithmetic evaluation step away: folding at the root first, then inside the
/// arguments from left to right; consecutive repeats removed at each level.
pub open spec fn eval_step(t: STerm) -> Seq<STerm>
    decreases t, 2nat, 0nat,
{
    dedup(raw_step(t))
}

/// The steps of `eval_step` before consecutive repeats are removed.
pub open spec fn raw_step(t: STerm) -> Seq<STerm>
    decreases t, 1nat, 0nat,
{
    match t {
        STerm::Func(op, args) => if args.len() == 2 && is_arith_op(op) {
            fold_root(t, op, args[0], args[1]) + inner_upto(t, args.len())
        } else if args.len() == 1 && op == "-"@ {
            neg_root(t, args[0]) + inner_upto(t, args.len())
        } else {
            inner_upto(t, args.len())
        },
        STerm::Const(s) => match parse_i64_spec(s) {
            Some(v) => if v < 0 { seq![int_term(v as int)] } else { Seq::empty() },
            None => Seq::empty(),
        },
        STerm::Var(_) => Seq::empty(),
    }
}

/// The steps inside the first `n` arguments of an application, left to right, each put back in place.
pub open spec fn inner_upto(t: STerm, n: nat) -> Seq<STerm>
    decreases t, 0nat, n,
{
    match t {
        STerm::Func(op, args) => if n == 0 || n > args.len() {
            Seq::empty()
        } else {
            inner_upto(t, (n - 1) as nat) + steps_at(op, args, n - 1, eval_step(args[n - 1]))
        },
        _ => Seq::empty(),
    }
}

/// The steps inside each argument of an application.
pub open spec fn inner_steps(t: STerm) -> Seq<STerm> {
    match t {
        STerm::Func(_, args) => inner_upto(t, args.len()),
        _ => Seq::empty(),
    }
}

/// Appends each term of `subs`, put in place of argument `pos` of `op(args)`.
fn push_wrapped(results: &mut Vec<Term>, subs: &Vec<Term>, op: &str, args: &Vec<Term>, pos: usize)
    requires pos < args.len(),
    ensures
        terms_view(final(results)@) == terms_view(old(results)@) + steps_at(op@, terms_view(args@), pos as int, terms_view(subs@)),
{
    let ghost base = terms_view(results@);
    let ghost sargs = terms_view(args@);
    let mut k: usize = 0;
    while k < subs.len()
        invariant
            k <= subs.len(),
            pos < args.len(),
            sargs == terms_view(args@),
            terms_view(results@) == base + steps_at(op@, sargs, pos as int, terms_view(subs@).take(k as int)),
        decreases subs.len() - k,
    {
        let mut new_args = clone_terms(args);
        assert(new_args@.len() == terms_view(new_args@).len() && args@.len() == terms_view(args@).len());
        let c = subs[k].clone();
        proof { lemma_terms_view_update(new_args@, pos as int, c); }
        new_args.set(pos, c);
        let t = Term::func(op, new_args);
        proof {
            lemma_terms_view_push(results@, t);
            assert(terms_view(subs@).take(k + 1) =~= terms_view(subs@).take(k as int).push(subs@[k as int]@));
            assert(steps_at(op@, sargs, pos as int, terms_view(subs@).take(k + 1)) =~=
                steps_at(op@, sargs, pos as int, terms_view(subs@).take(k as int)).push(t@));
        }
        results.push(t);
        k += 1;
    }
    proof { assert(terms_view(subs@).take(k as int) =~= terms_view(subs@)); }
}

fn fold_at_root(term: &Term, op: &str, x: &Term, y: &Term) -> (r: Vec<Term>)
    ensures terms_view(r@) == fold_root(term@, op@, x@, y@),
{
    let mut results: Vec<Term> = Vec::new();
    match (ComplexRational::from_term(x), ComplexRational::from_term(y)) {
        (Some(a), Some(b)) => {
            match ComplexRational::binop(op, a, b) {
                Some(res) => {
                    let nt = res.to_term();
                    if !term_eq(&nt, term) {
                        proof { lemma_terms_view_push(results@, nt); }
                        results.push(nt);
                    }
                },
                None => {},
            }
        },
        _ => {},
    }
    assert(terms_view(results@) =~= fold_root(term@, op@, x@, y@));
    results
}

fn negate_at_root(term: &Term, x: &Term) -> (r: Vec<Term>)
    ensures terms_view(r@) == neg_root(term@, x@),
{
    let mut results: Vec<Term> = Vec::new();
    match ComplexRational::from_term(x) {
        Some(a) => {
            match a.negate() {
                Some(n) => {
                    let nt = n.to_term();
                    if !term_eq(&nt, term) {
                        proof { lemma_terms_view_push(results@, nt); }
                        results.push(nt);
                    }
                },
                None => {},
            }
        },
        None => {},
    }
    assert(terms_view(results@) =~= neg_root(term@, x@));
    results
}

/// The results of one evaluation step inside each argument of `term`, left to right.
#[verifier::loop_isolation(false)]
fn steps_in_args(term: &Term) -> (r: Vec<Term>)
    ensures terms_view(r@) == inner_steps(term@),
    decreases term, 0nat,
{
    proof { lemma_view(*term); }
    let mut results: Vec<Term> = Vec::new();
    match term {
        Term::Func(op, args) => {
            proof { lemma_view_func(*term); }
            let ghost sargs = terms_view(args@);
            let mut i: usize = 0;
            while i < args.len()
                invariant
                    i <= args.len(),
                    sargs == terms_view(args@),
                    term@ == STerm::Func(op@, sargs),
                    terms_view(results@) == inner_upto(term@, i as nat),
                decreases args.len() - i,
            {
                proof { lemma_decreases_arg(*term, i as int); }
                let subs = eval_step_arithmetic(&args[i]);
                push_wrapped(&mut results, &subs, op.as_str(), args, i);
                proof {
                    assert(sargs[i as int] == args@[i as int]@);
                }
                i += 1;
            }
            assert(terms_view(results@) =~= inner_steps(term@));
        },
        _ => {
            assert(terms_view(results@) =~= inner_steps(term@));
        },
    }
    results
}

/// How the view of a list of terms distributes over concatenation, for all lists.
pub proof fn lemma_terms_view_add_pub()
    ensures forall|a: Seq<Term>, b: Seq<Term>| #[trigger] terms_view(a + b) == terms_view(a) + terms_view(b),
{
    assert forall|a: Seq<Term>, b: Seq<Term>| #[trigger] terms_view(a + b) == terms_view(a) + terms_view(b) by {
        lemma_terms_view_add(a, b);
    }
}

pub proof fn lemma_terms_view_add(a: Seq<Term>, b: Seq<Term>)
    ensures terms_view(a + b) == terms_view(a) + terms_view(b),
{
    assert(terms_view(a + b) =~= terms_view(a) + terms_view(b));
}

/// All terms one arithmetic evaluation step away from `term`.
#[verifier::loop_isolation(false)]
pub fn eval_step_arithmetic(term: &Term) -> (r: Vec<Term>)
    ensures terms_view(r@) == eval_step(term@),
    decreases term, 1nat,
{
    proof { lemma_view(*term); }
    let mut results: Vec<Term> = Vec::new();
    match term {
        Term::Func(op, args) => {
            proof { lemma_view_func(*term); }
            let o = op.as_str();
            if args.len() == 2 && (str_eq(o, "+") || str_eq(o, "*") || str_eq(o, "·") || str_eq(o, "-") || str_eq(o, "/")) {
                results = fold_at_root(term, o, &args[0], &args[1]);
            } else if args.len() == 1 && str_eq(o, "-") {
                results = negate_at_root(term, &args[0]);
            }
            let mut inner = steps_in_args(term);
            proof {
                lemma_terms_view_add(results@, inner@);
                if args@.len() >= 1 {
                    assert(terms_view(args@)[0] == args@[0]@);
                }
                if args@.len() == 2 {
                    assert(terms_view(args@)[1] == args@[1]@);
                }
            }
            results.append(&mut inner);
        },
        Term::Const(s) => {
            match parse_i64(s.as_str()) {
                Some(v) => {
                    if v < 0 {
                        let t = Term::from_i64(v);
                        proof { lemma_terms_view_push(results@, t); }
                        results.push(t);
                    }
                },
                None => {},
            }
        },
        Term::Var(_) => {},
    }
    dedup_terms(&results)
}


/// Whether substituting `c` for `var` makes both sides of `eq` evaluate to the same term.
pub open spec fn is_root_at(eq: SEquality, var: Seq<char>, c: STerm) -> bool {
    eval_full(rep(eq.lhs, var, c)) == eval_full(rep(eq.rhs, var, c))
}

/// One candidate considered: kept when it is a root and, with `fresh`, not already kept.
pub open spec fn consider_step(prev: Seq<STerm>, eq: SEquality, var: Seq<char>, c: Option<STerm>, fresh: bool) -> Seq<STerm> {
    match c {
        Some(c) => if is_root_at(eq, var, c) && !(fresh && prev.contains(c)) { prev.push(c) } else { prev },
        None => prev,
    }
}

/// The candidates of a row considered in order.
pub open spec fn collect_roots(roots: Seq<STerm>, eq: SEquality, var: Seq<char>, cands: Seq<Option<STerm>>, fresh: bool) -> Seq<STerm>
    decreases cands.len(),
{
    if cands.len() == 0 {
        roots
    } else {
        consider_step(collect_roots(roots, eq, var, cands.drop_last(), fresh), eq, var, cands.last(), fresh)
    }
}

/// Rows of candidates considered in order.
pub open spec fn collect_rows(roots: Seq<STerm>, eq: SEquality, var: Seq<char>, rows: Seq<Seq<Option<STerm>>>, fresh: bool) -> Seq<STerm>
    decreases rows.len(),
{
    if rows.len() == 0 {
        roots
    } else {
        collect_roots(collect_rows(roots, eq, var, rows.drop_last(), fresh), eq, var, rows.last(), fresh)
    }
}

/// The number of integers in `-n..=n`.
pub open spec fn width(n: int) -> nat {
    if n >= 0 { (2 * n + 1) as nat } else { 0 }
}

/// The integers `-range..=range` as candidate terms.
pub open spec fn int_row(range: int) -> Seq<Option<STerm>> {
    Seq::new(width(range), |k: int| Some(int_term(k - range)))
}

/// The candidate `p / q`, when `p` and `q` are coprime.
pub open spec fn rat_cand(p: int, q: int) -> Option<STerm> {
    if spec_gcd(p, q) == 1 {
        match rat_new(p, q) {
            Some(r) => Some(rat_term(r)),
            None => None,
        }
    } else {
        None
    }
}

/// The fractions `p / q` for `p` in `-(range·q)..=range·q`.
pub open spec fn rat_row(range: int, q: int) -> Seq<Option<STerm>> {
    Seq::new(width(range * q), |k: int| rat_cand(k - range * q, q))
}

/// The Gaussian integers `a + b·i` for `b` in `-range..=range`, `b` nonzero.
pub open spec fn cx_row(range: int, a: int) -> Seq<Option<STerm>> {
    Seq::new(
        width(range),
        |k: int| if k - range == 0 {
            None
        } else {
            Some(cr_term(ComplexRational { re: ri(a), im: ri(k - range) }))
        },
    )
}

/// What `find_polynomial_roots` returns: the integer roots in `-range..=range`, then the new
/// fractional roots with denominators 2, 3 and 4, then the new Gaussian-integer roots with a
/// nonzero imaginary part, each group in increasing order of its enumeration.
pub open spec fn poly_roots(eq: SEquality, var: Seq<char>, range: int) -> Seq<STerm> {
    let r1 = collect_roots(Seq::empty(), eq, var, int_row(range), false);
    let r2 = collect_rows(r1, eq, var, seq![rat_row(range, 2), rat_row(range, 3), rat_row(range, 4)], true);
    collect_rows(r2, eq, var, Seq::new(width(range), |i: int| cx_row(range, i - range)), true)
}

pub open spec fn opt_view(o: Option<Term>) -> Option<STerm> {
    match o {
        Some(t) => Some(t@),
        None => None,
    }
}

/// Whether substituting `cand` for `var` makes both sides evaluate to the same term.
fn check_root(eq: &Equality, var: &str, cand: &Term) -> (r: bool)
    ensures r == is_root_at(eq@, var@, cand@),
{
    let se = eq.replace_variable(var, cand);
    let l = eval_full_arithmetic(&se.lhs);
    let r = eval_full_arithmetic(&se.rhs);
    term_eq(&l, &r)
}

/// Whether the list holds a term equal to `t`.
pub fn contains_term(v: &Vec<Term>, t: &Term) -> (r: bool)
    ensures r == terms_view(v@).contains(t@),
{
    let mut i: usize = 0;
    while i < v.len()
        invariant
            i <= v.len(),
            forall|j: int| 0 <= j < i ==> #[trigger] v@[j]@ != t@,
        decreases v.len() - i,
    {
        if term_eq(&v[i], t) {
            assert(terms_view(v@)[i as int] == t@);
            return true;
        }
        i += 1;
    }
    proof {
        if terms_view(v@).contains(t@) {
            let j = choose|j: int| 0 <= j < terms_view(v@).len() && terms_view(v@)[j] == t@;
            assert(v@[j]@ == t@);
        }
    }
    false
}

fn consider(roots: &mut Vec<Term>, eq: &Equality, var: &str, cand: Option<Term>, fresh: bool)
    ensures terms_view(final(roots)@) == consider_step(terms_view(old(roots)@), eq@, var@, opt_view(cand), fresh),
{
    match cand {
        Some(c) => {
            if check_root(eq, var, &c) && !(fresh && contains_term(roots, &c)) {
                proof { lemma_terms_view_push(roots@, c); }
                roots.push(c);
            }
        },
        None => {},
    }
}

proof fn lemma_row_step(roots: Seq<STerm>, eq: SEquality, var: Seq<char>, row: Seq<Option<STerm>>, k: int, fresh: bool)
    requires 0 <= k < row.len(),
    ensures
        collect_roots(roots, eq, var, row.take(k + 1), fresh)
            == consider_step(collect_roots(roots, eq, var, row.take(k), fresh), eq, var, row[k], fresh),
{
    assert(row.take(k + 1).drop_last() =~= row.take(k));
}

proof fn lemma_rows_step(roots: Seq<STerm>, eq: SEquality, var: Seq<char>, rows: Seq<Seq<Option<STerm>>>, k: int, fresh: bool)
    requires 0 <= k < rows.len(),
    ensures
        collect_rows(roots, eq, var, rows.take(k + 1), fresh)
            == collect_roots(collect_rows(roots, eq, var, rows.take(k), fresh), eq, var, rows[k], fresh),
{
    assert(rows.take(k + 1).drop_last() =~= rows.take(k));
}

fn int_phase(eq: &Equality, var: &str, range: i64) -> (r: Vec<Term>)
    requires 0 <= range, 4 * range <= i64::MAX,
    ensures terms_view(r@) == collect_roots(Seq::empty(), eq@, var@, int_row(range as int), false),
{
    let mut roots: Vec<Term> = Vec::new();
    let ghost row = int_row(range as int);
    let mut r: i64 = -range;
    while r <= range
        invariant
            0 <= range, 4 * range <= i64::MAX,
            -range <= r <= range + 1,
            row == int_row(range as int),
            terms_view(roots@) == collect_roots(Seq::empty(), eq@, var@, row.take(r + range), false),
        decreases range + 1 - r,
    {
        let cand = Term::from_i64(r);
        proof { lemma_row_step(Seq::empty(), eq@, var@, row, r + range, false); }
        consider(&mut roots, eq, var, Some(cand), false);
        r += 1;
    }
    proof { assert(row.take(r + range) =~= row); }
    roots
}

fn rat_phase(roots: &mut Vec<Term>, eq: &Equality, var: &str, range: i64, q: i64)
    requires 0 <= range, 4 * range <= i64::MAX, 2 <= q <= 4,
    ensures terms_view(final(roots)@) == collect_roots(terms_view(old(roots)@), eq@, var@, rat_row(range as int, q as int), true),
{
    let ghost base = terms_view(roots@);
    let ghost row = rat_row(range as int, q as int);
    assert(range * q <= 4 * range) by (nonlinear_arith) requires 0 <= range, q <= 4;
    assert(range * q >= 0) by (nonlinear_arith) requires 0 <= range, q >= 0;
    let m = range * q;
    let mut p: i64 = -m;
    while p <= m
        invariant
            0 <= m, m == range * q, 4 * range <= i64::MAX, m <= 4 * range, 2 <= q <= 4,
            -m <= p <= m + 1,
            row == rat_row(range as int, q as int),
            terms_view(roots@) == collect_roots(base, eq@, var@, row.take(p + m), true),
        decreases m + 1 - p,
    {
        proof { lemma_row_step(base, eq@, var@, row, p + m, true); }
        let mut cand: Option<Term> = None;
        if gcd(p, q) == 1 {
            match Rational::new(p, q) {
                Some(rat) => { cand = Some(rat.to_term()); },
                None => {},
            }
        }
        assert(opt_view(cand) == row[p + m]);
        consider(roots, eq, var, cand, true);
        p += 1;
    }
    proof { assert(row.take(p + m) =~= row); }
}

fn cx_phase(roots: &mut Vec<Term>, eq: &Equality, var: &str, range: i64)
    requires 0 <= range, 4 * range <= i64::MAX,
    ensures
        terms_view(final(roots)@) == collect_rows(
            terms_view(old(roots)@), eq@, var@,
            Seq::new(width(range as int), |i: int| cx_row(range as int, i - range)), true),
{
    let ghost base = terms_view(roots@);
    let ghost rows = Seq::new(width(range as int), |i: int| cx_row(range as int, i - range));
    let mut a: i64 = -range;
    while a <= range
        invariant
            0 <= range, 4 * range <= i64::MAX,
            -range <= a <= range + 1,
            rows == Seq::new(width(range as int), |i: int| cx_row(range as int, i - range)),
            terms_view(roots@) == collect_rows(base, eq@, var@, rows.take(a + range), true),
        decreases range + 1 - a,
    {
        proof { lemma_rows_step(base, eq@, var@, rows, a + range, true); }
        let ghost mid = terms_view(roots@);
        let ghost row = cx_row(range as int, a as int);
        assert(rows[a + range] == row);
        let mut b: i64 = -range;
        while b <= range
            invariant
                0 <= range, 4 * range <= i64::MAX,
                -range <= a <= range,
                -range <= b <= range + 1,
                row == cx_row(range as int, a as int),
                terms_view(roots@) == collect_roots(mid, eq@, var@, row.take(b + range), true),
            decreases range + 1 - b,
        {
            proof { lemma_row_step(mid, eq@, var@, row, b + range, true); }
            if b == 0 {
                consider(roots, eq, var, None, true);
            } else {
                let c = ComplexRational::new(Rational::from_i64(a), Rational::from_i64(b));
                let t = c.to_term();
                consider(roots, eq, var, Some(t), true);
            }
            b += 1;
        }
        proof { assert(row.take(b + range) =~= row); }
        a += 1;
    }
    proof { assert(rows.take(a + range) =~= rows); }
}

proof fn lemma_rows3(roots: Seq<STerm>, eq: SEquality, var: Seq<char>, a: Seq<Option<STerm>>, b: Seq<Option<STerm>>, c: Seq<Option<STerm>>, fresh: bool)
    ensures
        collect_rows(roots, eq, var, seq![a, b, c], fresh)
            == collect_roots(collect_roots(collect_roots(roots, eq, var, a, fresh), eq, var, b, fresh), eq, var, c, fresh),
{
    let rows = seq![a, b, c];
    assert(rows.drop_last() =~= seq![a, b]);
    assert(rows.drop_last().drop_last() =~= seq![a]);
    assert(rows.drop_last().drop_last().drop_last() =~= Seq::empty());
    reveal_with_fuel(collect_rows, 4);
}

proof fn lemma_no_candidates(eq: SEquality, var: Seq<char>, range: int)
    requires range < 0,
    ensures poly_roots(eq, var, range) == Seq::<STerm>::empty(),
{
    assert(int_row(range) =~= Seq::empty());
    assert(rat_row(range, 2) =~= Seq::empty());
    assert(rat_row(range, 3) =~= Seq::empty());
    assert(rat_row(range, 4) =~= Seq::empty());
    let e = Seq::<STerm>::empty();
    lemma_rows3(e, eq, var, rat_row(range, 2), rat_row(range, 3), rat_row(range, 4), true);
    assert(Seq::new(width(range), |i: int| cx_row(range, i - range)) =~= Seq::empty());
}

/// Searches for roots of `eq` in `var` among the integers in `-range..=range`, the fractions
/// with denominators 2 to 4 in the same interval, and the Gaussian integers with both parts in it.
pub fn find_polynomial_roots(eq: &Equality, var: &str, range: i64) -> (r: Vec<Term>)
    requires -i64::MAX <= 4 * range <= i64::MAX,
    ensures terms_view(r@) == poly_roots(eq@, var@, range as int),
{
    if range < 0 {
        let r: Vec<Term> = Vec::new();
        proof {
            assert(terms_view(r@) =~= Seq::empty());
            lemma_no_candidates(eq@, var@, range as int);
        }
        return r;
    }
    let mut roots = int_phase(eq, var, range);
    let ghost r1 = terms_view(roots@);
    rat_phase(&mut roots, eq, var, range, 2);
    rat_phase(&mut roots, eq, var, range, 3);
    rat_phase(&mut roots, eq, var, range, 4);
    proof {
        lemma_rows3(r1, eq@, var@, rat_row(range as int, 2), rat_row(range as int, 3), rat_row(range as int, 4), true);
    }
    cx_phase(&mut roots, eq, var, range);
    roots
}


// ---------------------------------------------------------------------------
// Refutation by sampling
// ---------------------------------------------------------------------------

/// An assignment of sample values under which the two sides of an equality evaluate differently.
#[derive(Debug)]
pub struct Counterexample {
    pub assignments: Vec<(String, Term)>,
    pub lhs_val: String,
    pub rhs_val: String,
}

pub struct SCounterexample {
    pub assignments: Seq<(Seq<char>, STerm)>,
    pub lhs_val: Seq<char>,
    pub rhs_val: Seq<char>,
}

pub open spec fn assigns_view(v: Seq<(String, Term)>) -> Seq<(Seq<char>, STerm)> {
    Seq::new(v.len(), |i: int| (v[i].0@, v[i].1@))
}

impl View for Counterexample {
    type V = SCounterexample;

    open spec fn view(&self) -> SCounterexample {
        SCounterexample { assignments: assigns_view(self.assignments@), lhs_val: self.lhs_val@, rhs_val: self.rhs_val@ }
    }
}

pub open spec fn opt_ce_view(o: Option<Counterexample>) -> Option<SCounterexample> {
    match o {
        Some(c) => Some(c@),
        None => None,
    }
}

pub open spec fn bool_text(b: bool) -> Seq<char> {
    if b { "true"@ } else { "false"@ }
}

/// The sample values for boolean variables: 0 and 1.
pub open spec fn bool_samples() -> Seq<STerm> {
    seq![STerm::Const("0"@), STerm::Const("1"@)]
}

/// The sample values for numeric variables: 0, 1, 2, -1, 3 and 1/2.
pub open spec fn num_samples() -> Seq<STerm> {
    seq![int_term(0), int_term(1), int_term(2), int_term(-1), int_term(3), rat_term(Rational { num: 1, den: 2 })]
}

/// The digits of `c` in base `b`, least significant first, `n` of them.
pub open spec fn digits(c: nat, b: nat, n: nat) -> Seq<nat>
    decreases n,
{
    if n == 0 {
        Seq::empty()
    } else {
        seq![c % b].add(digits(c / b, b, (n - 1) as nat))
    }
}

pub open spec fn spow(b: nat, n: nat) -> nat
    decreases n,
{
    if n == 0 { 1 } else { b * spow(b, (n - 1) as nat) }
}

/// The variables replaced by the values one after the other, first variable first.
pub open spec fn subst_all(t: STerm, vars: Seq<Seq<char>>, vals: Seq<STerm>) -> STerm
    decreases vars.len(),
{
    if vars.len() == 0 || vals.len() != vars.len() {
        t
    } else {
        rep(subst_all(t, vars.drop_last(), vals.drop_last()), vars.last(), vals.last())
    }
}

/// The values that combination `c` assigns to `n` variables.
pub open spec fn combo_values(c: nat, bool_mode: bool, n: nat) -> Seq<STerm> {
    let samples = if bool_mode { bool_samples() } else { num_samples() };
    digits(c, samples.len(), n).map_values(|d: nat| samples[d as int])
}

/// The counterexample that combination `c` gives, if the sides evaluate and differ there.
pub open spec fn ce_at(e: SEquality, vars: Seq<Seq<char>>, bool_mode: bool, c: nat) -> Option<SCounterexample> {
    let vals = combo_values(c, bool_mode, vars.len());
    let l = subst_all(e.lhs, vars, vals);
    let r = subst_all(e.rhs, vars, vals);
    let assigns = Seq::new(vars.len(), |k: int| (vars[k], vals[k]));
    if bool_mode {
        match (bool_of(l), bool_of(r)) {
            (Some(x), Some(y)) => if x != y {
                Some(SCounterexample { assignments: assigns, lhs_val: bool_text(x), rhs_val: bool_text(y) })
            } else {
                None
            },
            _ => None,
        }
    } else {
        match (cr_of(l), cr_of(r)) {
            (Some(x), Some(y)) => if x != y {
                Some(SCounterexample { assignments: assigns, lhs_val: display(cr_term(x)), rhs_val: display(cr_term(y)) })
            } else {
                None
            },
            _ => None,
        }
    }
}

/// The first counterexample among the combinations `c..total`.
pub open spec fn first_ce(e: SEquality, vars: Seq<Seq<char>>, bool_mode: bool, c: nat, total: nat) -> Option<SCounterexample>
    decreases total - c,
{
    if c >= total {
        None
    } else {
        match ce_at(e, vars, bool_mode, c) {
            Some(x) => Some(x),
            None => first_ce(e, vars, bool_mode, c + 1, total),
        }
    }
}

/// What `find_counterexample` returns: for a ground equality, its two evaluated sides if they
/// differ; otherwise the first combination of sample values (0 and 1 for a boolean equality with
/// at most five variables; 0, 1, 2, -1, 3 and 1/2 for one with at most four) that separates the sides.
pub open spec fn counterexample(e: SEquality) -> Option<SCounterexample> {
    let vars = eq_vars(e);
    if vars.len() == 0 {
        if is_bool_eq(e) {
            match (bool_of(e.lhs), bool_of(e.rhs)) {
                (Some(x), Some(y)) => if x != y {
                    Some(SCounterexample { assignments: Seq::empty(), lhs_val: bool_text(x), rhs_val: bool_text(y) })
                } else {
                    None
                },
                _ => None,
            }
        } else {
            match (cr_of(e.lhs), cr_of(e.rhs)) {
                (Some(a), Some(b)) => if a != b {
                    Some(SCounterexample { assignments: Seq::empty(), lhs_val: display(cr_term(a)), rhs_val: display(cr_term(b)) })
                } else {
                    None
                },
                _ => None,
            }
        }
    } else if is_bool_eq(e) {
        if vars.len() <= 5 { first_ce(e, vars, true, 0, spow(2, vars.len())) } else { None }
    } else {
        if vars.len() <= 4 { first_ce(e, vars, false, 0, spow(6, vars.len())) } else { None }
    }
}

fn bool_string(b: bool) -> (r: String)
    ensures r@ == bool_text(b),
{
    if b { owned("true") } else { owned("false") }
}

fn sample_term(bool_mode: bool, d: usize) -> (r: Term)
    requires d < (if bool_mode { 2nat } else { 6nat }),
    ensures r@ == (if bool_mode { bool_samples() } else { num_samples() })[d as int],
{
    if bool_mode {
        if d == 0 { Term::constant("0") } else { Term::constant("1") }
    } else if d == 0 {
        Term::from_i64(0)
    } else if d == 1 {
        Term::from_i64(1)
    } else if d == 2 {
        Term::from_i64(2)
    } else if d == 3 {
        Term::from_i64(-1)
    } else if d == 4 {
        Term::from_i64(3)
    } else {
        Rational { num: 1, den: 2 }.to_term()
    }
}

/// The sample values that combination `combo` assigns to `n` variables.
fn combo_terms(bool_mode: bool, combo: usize, n: usize) -> (r: Vec<Term>)
    ensures terms_view(r@) == combo_values(combo as nat, bool_mode, n as nat),
{
    let base: usize = if bool_mode { 2 } else { 6 };
    let ghost samples = if bool_mode { bool_samples() } else { num_samples() };
    let ghost all = digits(combo as nat, base as nat, n as nat);
    proof { lemma_digits_len(combo as nat, base as nat, n as nat); }
    let mut out: Vec<Term> = Vec::new();
    let mut temp = combo;
    let ghost mut done: Seq<nat> = Seq::empty();
    let mut k: usize = 0;
    while k < n
        invariant
            k <= n,
            base == samples.len(),
            samples == (if bool_mode { bool_samples() } else { num_samples() }),
            done.len() == k,
            all.len() == n,
            all == done + digits(temp as nat, base as nat, (n - k) as nat),
            terms_view(out@) == done.map_values(|d: nat| samples[d as int]),
        decreases n - k,
    {
        let d = temp % base;
        proof {
            assert(digits(temp as nat, base as nat, (n - k) as nat)
                == seq![(temp % base) as nat] + digits((temp / base) as nat, base as nat, (n - k - 1) as nat));
            assert(all =~= done.push(d as nat) + digits((temp / base) as nat, base as nat, (n - k - 1) as nat));
        }
        let t = sample_term(bool_mode, d);
        proof {
            lemma_terms_view_push(out@, t);
            assert(done.push(d as nat).map_values(|d: nat| samples[d as int])
                =~= done.map_values(|d: nat| samples[d as int]).push(samples[d as int]));
        }
        out.push(t);
        proof { done = done.push(d as nat); }
        temp = temp / base;
        k += 1;
    }
    proof {
        assert(digits(temp as nat, base as nat, 0) =~= Seq::empty());
        assert(all =~= done);
    }
    out
}

/// Replaces the variables by the values one after the other.
fn subst_vars(t: &Term, vars: &Vec<String>, vals: &Vec<Term>) -> (r: Term)
    requires vars@.len() == vals@.len(),
    ensures r@ == subst_all(t@, strings_view(vars@), terms_view(vals@)),
{
    let ghost sv = strings_view(vars@);
    let ghost tv = terms_view(vals@);
    let mut cur = t.clone();
    let mut k: usize = 0;
    assert(sv.take(0).len() == 0);
    while k < vars.len()
        invariant
            k <= vars.len(),
            vars@.len() == vals@.len(),
            sv == strings_view(vars@),
            tv == terms_view(vals@),
            cur@ == subst_all(t@, sv.take(k as int), tv.take(k as int)),
        decreases vars.len() - k,
    {
        cur = cur.replace_variable(vars[k].as_str(), &vals[k]);
        proof {
            let t1 = sv.take(k + 1);
            let v1 = tv.take(k + 1);
            assert(t1.drop_last() =~= sv.take(k as int));
            assert(v1.drop_last() =~= tv.take(k as int));
            assert(t1.last() == vars@[k as int]@);
            assert(v1.last() == vals@[k as int]@);
        }
        k += 1;
    }
    proof {
        assert(sv.take(k as int) =~= sv);
        assert(tv.take(k as int) =~= tv);
    }
    cur
}

/// The variables paired with their values.
fn zip_assigns(vars: &Vec<String>, vals: &Vec<Term>) -> (r: Vec<(String, Term)>)
    requires vars@.len() == vals@.len(),
    ensures assigns_view(r@) == Seq::new(vars@.len(), |k: int| (strings_view(vars@)[k], terms_view(vals@)[k])),
{
    let mut out: Vec<(String, Term)> = Vec::new();
    let mut k: usize = 0;
    while k < vars.len()
        invariant
            k <= vars.len(),
            vars@.len() == vals@.len(),
            out@.len() == k,
            forall|j: int| 0 <= j < k ==> #[trigger] out@[j].0@ == vars@[j]@ && out@[j].1@ == vals@[j]@,
        decreases vars.len() - k,
    {
        out.push((vars[k].clone(), vals[k].clone()));
        k += 1;
    }
    assert(assigns_view(out@) =~= Seq::new(vars@.len(), |k: int| (strings_view(vars@)[k], terms_view(vals@)[k])));
    out
}

/// The counterexample of combination `combo`, if any.
fn try_combo(eq: &Equality, vars: &Vec<String>, bool_mode: bool, combo: usize) -> (r: Option<Counterexample>)
    ensures opt_ce_view(r) == ce_at(eq@, strings_view(vars@), bool_mode, combo as nat),
{
    let vals = combo_terms(bool_mode, combo, vars.len());
    proof { lemma_digits_len(combo as nat, (if bool_mode { 2nat } else { 6nat }), vars@.len() as nat); }
    assert(vals@.len() == terms_view(vals@).len());
    let l = subst_vars(&eq.lhs, vars, &vals);
    let r = subst_vars(&eq.rhs, vars, &vals);
    let assigns = zip_assigns(vars, &vals);
    if bool_mode {
        match (eval_bool_term(&l), eval_bool_term(&r)) {
            (Some(x), Some(y)) => {
                if x != y {
                    return Some(Counterexample { assignments: assigns, lhs_val: bool_string(x), rhs_val: bool_string(y) });
                }
            },
            _ => {},
        }
    } else {
        match (ComplexRational::from_term(&l), ComplexRational::from_term(&r)) {
            (Some(x), Some(y)) => {
                if x != y {
                    return Some(Counterexample { assignments: assigns, lhs_val: x.to_term().to_string(), rhs_val: y.to_term().to_string() });
                }
            },
            _ => {},
        }
    }
    None
}

pub proof fn lemma_digits_len(c: nat, b: nat, n: nat)
    requires b > 0,
    ensures digits(c, b, n).len() == n,
    decreases n,
{
    if n > 0 {
        lemma_digits_len(c / b, b, (n - 1) as nat);
        let rest = digits(c / b, b, (n - 1) as nat);
        assert(digits(c, b, n) == seq![c % b].add(rest));
    }
}

proof fn lemma_spow6(k: nat)
    requires k <= 5,
    ensures spow(6, k) <= 7776,
{
    reveal_with_fuel(spow, 6);
}

fn small_pow(b: usize, n: usize) -> (r: usize)
    requires 2 <= b <= 6, n <= 5,
    ensures r == spow(b as nat, n as nat), r <= 7776,
{
    let mut r: usize = 1;
    let mut k: usize = 0;
    while k < n
        invariant
            k <= n, n <= 5, 2 <= b <= 6,
            r == spow(b as nat, k as nat),
            r <= spow(6, k as nat),
        decreases n - k,
    {
        proof {
            assert(spow(b as nat, (k + 1) as nat) == b * spow(b as nat, k as nat));
            assert(spow(6, (k + 1) as nat) == 6 * spow(6, k as nat));
            lemma_spow6((k + 1) as nat);
        }
        assert(b * r <= spow(6, (k + 1) as nat)) by (nonlinear_arith)
            requires r <= spow(6, k as nat), b <= 6, spow(6, (k + 1) as nat) == 6 * spow(6, k as nat), r >= 0;
        r = b * r;
        k += 1;
    }
    proof { lemma_spow6(k as nat); }
    r
}

/// Searches for values of the variables under which the two sides evaluate differently.
#[verifier::loop_isolation(false)]
pub fn find_counterexample(eq: &Equality) -> (r: Option<Counterexample>)
    ensures opt_ce_view(r) == counterexample(eq@),
{
    let vars = eq.extract_variables();
    let ghost sv = strings_view(vars@);
    let is_bool = is_boolean_equality(eq);
    if vars.len() == 0 {
        if is_bool {
            match (eval_bool_term(&eq.lhs), eval_bool_term(&eq.rhs)) {
                (Some(l), Some(r)) => {
                    if l != r {
                        let c = Counterexample { assignments: Vec::new(), lhs_val: bool_string(l), rhs_val: bool_string(r) };
                        assert(assigns_view(c.assignments@) =~= Seq::empty());
                        return Some(c);
                    }
                },
                _ => {},
            }
        } else {
            match (ComplexRational::from_term(&eq.lhs), ComplexRational::from_term(&eq.rhs)) {
                (Some(a), Some(b)) => {
                    if a != b {
                        let c = Counterexample { assignments: Vec::new(), lhs_val: a.to_term().to_string(), rhs_val: b.to_term().to_string() };
                        assert(assigns_view(c.assignments@) =~= Seq::empty());
                        return Some(c);
                    }
                },
                _ => {},
            }
        }
        return None;
    }
    let limit: usize = if is_bool { 5 } else { 4 };
    if vars.len() > limit {
        return None;
    }
    let base: usize = if is_bool { 2 } else { 6 };
    let total = small_pow(base, vars.len());
    let mut combo: usize = 0;
    while combo < total
        invariant
            combo <= total,
            total == spow(base as nat, vars@.len() as nat),
            first_ce(eq@, sv, is_bool, 0, total as nat) == first_ce(eq@, sv, is_bool, combo as nat, total as nat),
        decreases total - combo,
    {
        match try_combo(eq, &vars, is_bool, combo) {
            Some(c) => { return Some(c); },
            None => {},
        }
        combo += 1;
    }
    None
}

} // verus!
