//! Invention of candidate conjectures in each domain, and the filter for trivial ones.
use vstd::prelude::*;
use crate::fol::{Term, STerm, Equality, SEquality, func1, func2, symbol_set, term_eq};
use crate::axioms::{sc, sf1, sf2};
use crate::kernel::MathDomain;
use crate::random::random_index;

verus! {

/// The algebraic conjecture templates, by number, over three variables.
pub open spec fn algebraic_shape(k: int, v1: STerm, v2: STerm, v3: STerm) -> SEquality {
    if k == 0 {
        SEquality { lhs: sf2("*"@, sf2("+"@, sf2("+"@, v1, v2), sf1("-"@, v2)), sf2("+"@, sc("1"@), sc("0"@))), rhs: sf2("+"@, sc("0"@), v1) }
    } else if k == 1 {
        SEquality { lhs: sf2("+"@, sf2("+"@, sf2("+"@, v1, sc("0"@)), v2), v3), rhs: sf2("+"@, v3, sf2("+"@, v2, v1)) }
    } else if k == 2 {
        SEquality { lhs: sf2("+"@, sf2("*"@, sf2("+"@, sf2("*"@, v1, sc("1"@)), sc("0"@)), sc("1"@)), sc("0"@)), rhs: sf2("+"@, sc("0"@), sf2("*"@, sc("1"@), v1)) }
    } else if k == 3 {
        SEquality { lhs: sf2("+"@, sf2("+"@, v1, sf1("-"@, v1)), sf2("+"@, sf2("*"@, v2, sc("1"@)), sf1("-"@, v2))), rhs: sf2("+"@, sc("0"@), sc("0"@)) }
    } else if k == 4 {
        SEquality { lhs: sf2("*"@, sf2("+"@, v1, sf2("+"@, v2, sf1("-"@, v2))), sc("1"@)), rhs: sf2("+"@, v1, sc("0"@)) }
    } else if k == 5 {
        SEquality { lhs: sf2("+"@, sf2("*"@, sc("1"@), sf2("+"@, v1, v2)), sc("0"@)), rhs: sf2("+"@, sf2("+"@, sc("0"@), v2), sf2("*"@, v1, sc("1"@))) }
    } else if k == 6 {
        SEquality { lhs: sf2("+"@, sf2("+"@, sf2("*"@, v1, sc("0"@)), sf2("*"@, v2, sc("1"@))), sc("0"@)), rhs: sf2("*"@, sc("1"@), sf2("+"@, v2, sc("0"@))) }
    } else if k == 7 {
        SEquality { lhs: sf2("+"@, sf2("+"@, v1, v2), sf2("+"@, v3, sc("0"@))), rhs: sf2("+"@, sf2("+"@, sc("0"@), v3), sf2("+"@, v2, v1)) }
    } else if k == 8 {
        SEquality { lhs: sf2("+"@, sf2("+"@, v1, sc("0"@)), sf1("-"@, sf2("+"@, v1, sc("0"@)))), rhs: sf2("+"@, sc("0"@), sc("0"@)) }
    } else if k == 9 {
        SEquality { lhs: sf2("*"@, sf2("*"@, v1, sf2("*"@, sc("1"@), v2)), sc("1"@)), rhs: sf2("*"@, sc("1"@), sf2("*"@, v2, v1)) }
    } else if k == 10 {
        SEquality { lhs: sf2("+"@, sf2("+"@, sf2("+"@, v1, v2), v3), sf1("-"@, v3)), rhs: sf2("+"@, v2, v1) }
    } else {
        SEquality { lhs: sf2("+"@, sf2("*"@, sf2("*"@, v1, sc("1"@)), sc("1"@)), sf2("*"@, sf2("*"@, v2, sc("1"@)), sc("1"@))), rhs: sf2("+"@, v2, v1) }
    }
}

fn algebraic_shape_exec(k: usize, v1: &Term, v2: &Term, v3: &Term) -> (r: Equality)
    ensures r@ == algebraic_shape(k as int, v1@, v2@, v3@),
{
    if k == 0 {
        Equality::new(func2("*", func2("+", func2("+", v1.clone(), v2.clone()), func1("-", v2.clone())), func2("+", Term::constant("1"), Term::constant("0"))), func2("+", Term::constant("0"), v1.clone()))
    } else if k == 1 {
        Equality::new(func2("+", func2("+", func2("+", v1.clone(), Term::constant("0")), v2.clone()), v3.clone()), func2("+", v3.clone(), func2("+", v2.clone(), v1.clone())))
    } else if k == 2 {
        Equality::new(func2("+", func2("*", func2("+", func2("*", v1.clone(), Term::constant("1")), Term::constant("0")), Term::constant("1")), Term::constant("0")), func2("+", Term::constant("0"), func2("*", Term::constant("1"), v1.clone())))
    } else if k == 3 {
        Equality::new(func2("+", func2("+", v1.clone(), func1("-", v1.clone())), func2("+", func2("*", v2.clone(), Term::constant("1")), func1("-", v2.clone()))), func2("+", Term::constant("0"), Term::constant("0")))
    } else if k == 4 {
        Equality::new(func2("*", func2("+", v1.clone(), func2("+", v2.clone(), func1("-", v2.clone()))), Term::constant("1")), func2("+", v1.clone(), Term::constant("0")))
    } else if k == 5 {
        Equality::new(func2("+", func2("*", Term::constant("1"), func2("+", v1.clone(), v2.clone())), Term::constant("0")), func2("+", func2("+", Term::constant("0"), v2.clone()), func2("*", v1.clone(), Term::constant("1"))))
    } else if k == 6 {
        Equality::new(func2("+", func2("+", func2("*", v1.clone(), Term::constant("0")), func2("*", v2.clone(), Term::constant("1"))), Term::constant("0")), func2("*", Term::constant("1"), func2("+", v2.clone(), Term::constant("0"))))
    } else if k == 7 {
        Equality::new(func2("+", func2("+", v1.clone(), v2.clone()), func2("+", v3.clone(), Term::constant("0"))), func2("+", func2("+", Term::constant("0"), v3.clone()), func2("+", v2.clone(), v1.clone())))
    } else if k == 8 {
        Equality::new(func2("+", func2("+", v1.clone(), Term::constant("0")), func1("-", func2("+", v1.clone(), Term::constant("0")))), func2("+", Term::constant("0"), Term::constant("0")))
    } else if k == 9 {
        Equality::new(func2("*", func2("*", v1.clone(), func2("*", Term::constant("1"), v2.clone())), Term::constant("1")), func2("*", Term::constant("1"), func2("*", v2.clone(), v1.clone())))
    } else if k == 10 {
        Equality::new(func2("+", func2("+", func2("+", v1.clone(), v2.clone()), v3.clone()), func1("-", v3.clone())), func2("+", v2.clone(), v1.clone()))
    } else {
        Equality::new(func2("+", func2("*", func2("*", v1.clone(), Term::constant("1")), Term::constant("1")), func2("*", func2("*", v2.clone(), Term::constant("1")), Term::constant("1"))), func2("+", v2.clone(), v1.clone()))
    }
}

/// The boolean conjecture templates, by number, over three variables.
pub open spec fn boolean_shape(k: int, a: STerm, b: STerm, c: STerm) -> SEquality {
    if k == 0 {
        SEquality { lhs: sf2("|"@, sf2("&"@, a, b), sf2("&"@, a, sf1("!"@, b))), rhs: sf2("&"@, a, sc("1"@)) }
    } else if k == 1 {
        SEquality { lhs: sf1("!"@, sf2("&"@, sf1("!"@, sf2("&"@, sf1("!"@, a), sf1("!"@, b))), sf1("!"@, c))), rhs: sf2("|"@, sf2("|"@, a, b), c) }
    } else if k == 2 {
        SEquality { lhs: sf2("|"@, sf2("&"@, a, sf1("!"@, a)), sf2("|"@, sf2("&"@, b, sc("1"@)), sf2("&"@, c, sc("0"@)))), rhs: sf2("|"@, sc("0"@), b) }
    } else if k == 3 {
        SEquality { lhs: sf1("!"@, sf1("!"@, sf2("&"@, a, sf2("|"@, b, sc("0"@))))), rhs: sf2("&"@, b, sf2("&"@, a, sc("1"@))) }
    } else if k == 4 {
        SEquality { lhs: sf1("!"@, sf2("|"@, sf1("!"@, a), sf1("!"@, b))), rhs: sf2("&"@, b, a) }
    } else if k == 5 {
        SEquality { lhs: sf2("|"@, a, sf2("&"@, a, sf2("|"@, b, sc("0"@)))), rhs: sf2("|"@, sc("0"@), a) }
    } else if k == 6 {
        SEquality { lhs: sf1("!"@, sf1("!"@, sf1("!"@, sf1("!"@, sf2("&"@, a, sc("1"@)))))), rhs: sf2("|"@, a, sc("0"@)) }
    } else {
        SEquality { lhs: sf2("|"@, a, sf1("!"@, sf2("&"@, sc("1"@), sc("0"@)))), rhs: sf2("|"@, sc("1"@), sc("0"@)) }
    }
}

fn boolean_shape_exec(k: usize, a: &Term, b: &Term, c: &Term) -> (r: Equality)
    ensures r@ == boolean_shape(k as int, a@, b@, c@),
{
    if k == 0 {
        Equality::new(func2("|", func2("&", a.clone(), b.clone()), func2("&", a.clone(), func1("!", b.clone()))), func2("&", a.clone(), Term::constant("1")))
    } else if k == 1 {
        Equality::new(func1("!", func2("&", func1("!", func2("&", func1("!", a.clone()), func1("!", b.clone()))), func1("!", c.clone()))), func2("|", func2("|", a.clone(), b.clone()), c.clone()))
    } else if k == 2 {
        Equality::new(func2("|", func2("&", a.clone(), func1("!", a.clone())), func2("|", func2("&", b.clone(), Term::constant("1")), func2("&", c.clone(), Term::constant("0")))), func2("|", Term::constant("0"), b.clone()))
    } else if k == 3 {
        Equality::new(func1("!", func1("!", func2("&", a.clone(), func2("|", b.clone(), Term::constant("0"))))), func2("&", b.clone(), func2("&", a.clone(), Term::constant("1"))))
    } else if k == 4 {
        Equality::new(func1("!", func2("|", func1("!", a.clone()), func1("!", b.clone()))), func2("&", b.clone(), a.clone()))
    } else if k == 5 {
        Equality::new(func2("|", a.clone(), func2("&", a.clone(), func2("|", b.clone(), Term::constant("0")))), func2("|", Term::constant("0"), a.clone()))
    } else if k == 6 {
        Equality::new(func1("!", func1("!", func1("!", func1("!", func2("&", a.clone(), Term::constant("1")))))), func2("|", a.clone(), Term::constant("0")))
    } else {
        Equality::new(func2("|", a.clone(), func1("!", func2("&", Term::constant("1"), Term::constant("0")))), func2("|", Term::constant("1"), Term::constant("0")))
    }
}

/// The calculus conjecture templates, by number, in the variable `x`.
pub open spec fn calculus_shape(k: int) -> SEquality {
    if k == 0 {
        SEquality { lhs: sf1("D"@, sf2("+"@, sf2("*"@, sc("x"@), sc("1"@)), sf2("+"@, sc("x"@), sc("0"@)))), rhs: sf2("+"@, sf2("+"@, sc("1"@), sc("0"@)), sf2("+"@, sc("1"@), sc("0"@))) }
    } else if k == 1 {
        SEquality { lhs: sf1("D"@, sf2("*"@, sf2("+"@, sc("x"@), sc("0"@)), sf2("+"@, sc("x"@), sc("0"@)))), rhs: sf2("+"@, sf2("*"@, sc("1"@), sc("x"@)), sf2("*"@, sc("x"@), sc("1"@))) }
    } else if k == 2 {
        SEquality { lhs: sf1("D"@, sf2("+"@, sf2("+"@, sc("x"@), sf1("-"@, sc("x"@))), sf2("*"@, sc("x"@), sc("1"@)))), rhs: sf2("+"@, sc("0"@), sc("1"@)) }
    } else if k == 3 {
        SEquality { lhs: sf1("D"@, sf2("+"@, sf2("+"@, sc("x"@), sc("x"@)), sf2("+"@, sc("x"@), sc("0"@)))), rhs: sf2("+"@, sf2("+"@, sc("1"@), sc("1"@)), sf2("+"@, sc("1"@), sc("0"@))) }
    } else if k == 4 {
        SEquality { lhs: sf1("D"@, sf2("*"@, sc("1"@), sf2("+"@, sc("x"@), sc("0"@)))), rhs: sf2("*"@, sc("1"@), sc("1"@)) }
    } else {
        SEquality { lhs: sf1("D"@, sf2("*"@, sc("x"@), sc("1"@))), rhs: sf2("+"@, sc("1"@), sc("0"@)) }
    }
}

fn calculus_shape_exec(k: usize) -> (r: Equality)
    ensures r@ == calculus_shape(k as int),
{
    if k == 0 {
        Equality::new(func1("D", func2("+", func2("*", Term::constant("x"), Term::constant("1")), func2("+", Term::constant("x"), Term::constant("0")))), func2("+", func2("+", Term::constant("1"), Term::constant("0")), func2("+", Term::constant("1"), Term::constant("0"))))
    } else if k == 1 {
        Equality::new(func1("D", func2("*", func2("+", Term::constant("x"), Term::constant("0")), func2("+", Term::constant("x"), Term::constant("0")))), func2("+", func2("*", Term::constant("1"), Term::constant("x")), func2("*", Term::constant("x"), Term::constant("1"))))
    } else if k == 2 {
        Equality::new(func1("D", func2("+", func2("+", Term::constant("x"), func1("-", Term::constant("x"))), func2("*", Term::constant("x"), Term::constant("1")))), func2("+", Term::constant("0"), Term::constant("1")))
    } else if k == 3 {
        Equality::new(func1("D", func2("+", func2("+", Term::constant("x"), Term::constant("x")), func2("+", Term::constant("x"), Term::constant("0")))), func2("+", func2("+", Term::constant("1"), Term::constant("1")), func2("+", Term::constant("1"), Term::constant("0"))))
    } else if k == 4 {
        Equality::new(func1("D", func2("*", Term::constant("1"), func2("+", Term::constant("x"), Term::constant("0")))), func2("*", Term::constant("1"), Term::constant("1")))
    } else {
        Equality::new(func1("D", func2("*", Term::constant("x"), Term::constant("1"))), func2("+", Term::constant("1"), Term::constant("0")))
    }
}

/// The set conjecture templates, by number, over three sets.
pub open spec fn set_shape(k: int, a: STerm, b: STerm, c: STerm) -> SEquality {
    if k == 0 {
        SEquality { lhs: sf2("inter"@, sf2("union"@, a, b), sf2("union"@, a, sf1("comp"@, b))), rhs: sf2("union"@, a, sc("0"@)) }
    } else if k == 1 {
        SEquality { lhs: sf1("comp"@, sf2("inter"@, sf1("comp"@, a), sf1("comp"@, b))), rhs: sf2("union"@, b, a) }
    } else if k == 2 {
        SEquality { lhs: sf2("union"@, sf2("inter"@, a, sc("U"@)), sf2("inter"@, b, sc("0"@))), rhs: a }
    } else if k == 3 {
        SEquality { lhs: sf2("union"@, a, sf2("inter"@, a, sf2("union"@, b, c))), rhs: sf2("union"@, sc("0"@), a) }
    } else if k == 4 {
        SEquality { lhs: sf2("union"@, sf2("inter"@, a, sf1("comp"@, a)), b), rhs: sf2("union"@, sc("0"@), b) }
    } else {
        SEquality { lhs: sf1("comp"@, sf1("comp"@, sf2("inter"@, a, sc("U"@)))), rhs: sf2("union"@, a, sc("0"@)) }
    }
}

fn set_shape_exec(k: usize, a: &Term, b: &Term, c: &Term) -> (r: Equality)
    ensures r@ == set_shape(k as int, a@, b@, c@),
{
    if k == 0 {
        Equality::new(func2("inter", func2("union", a.clone(), b.clone()), func2("union", a.clone(), func1("comp", b.clone()))), func2("union", a.clone(), Term::constant("0")))
    } else if k == 1 {
        Equality::new(func1("comp", func2("inter", func1("comp", a.clone()), func1("comp", b.clone()))), func2("union", b.clone(), a.clone()))
    } else if k == 2 {
        Equality::new(func2("union", func2("inter", a.clone(), Term::constant("U")), func2("inter", b.clone(), Term::constant("0"))), a.clone())
    } else if k == 3 {
        Equality::new(func2("union", a.clone(), func2("inter", a.clone(), func2("union", b.clone(), c.clone()))), func2("union", Term::constant("0"), a.clone()))
    } else if k == 4 {
        Equality::new(func2("union", func2("inter", a.clone(), func1("comp", a.clone())), b.clone()), func2("union", Term::constant("0"), b.clone()))
    } else {
        Equality::new(func1("comp", func1("comp", func2("inter", a.clone(), Term::constant("U")))), func2("union", a.clone(), Term::constant("0")))
    }
}

/// The variable names for algebraic conjectures.
pub open spec fn alg_var(i: int) -> Seq<char> {
    if i == 0 { "x"@ } else if i == 1 { "y"@ } else if i == 2 { "z"@ } else if i == 3 { "a"@ }
    else if i == 4 { "b"@ } else if i == 5 { "c"@ } else if i == 6 { "u"@ } else { "v"@ }
}

fn alg_var_exec(i: usize) -> (r: &'static str)
    ensures r@ == alg_var(i as int),
{
    if i == 0 { "x" } else if i == 1 { "y" } else if i == 2 { "z" } else if i == 3 { "a" }
    else if i == 4 { "b" } else if i == 5 { "c" } else if i == 6 { "u" } else { "v" }
}

/// The variable names for boolean conjectures.
pub open spec fn bool_var(i: int) -> Seq<char> {
    if i == 0 { "p"@ } else if i == 1 { "q"@ } else if i == 2 { "r"@ } else if i == 3 { "a"@ }
    else if i == 4 { "b"@ } else if i == 5 { "c"@ } else if i == 6 { "x"@ } else { "y"@ }
}

fn bool_var_exec(i: usize) -> (r: &'static str)
    ensures r@ == bool_var(i as int),
{
    if i == 0 { "p" } else if i == 1 { "q" } else if i == 2 { "r" } else if i == 3 { "a" }
    else if i == 4 { "b" } else if i == 5 { "c" } else if i == 6 { "x" } else { "y" }
}

/// The set names for set conjectures.
pub open spec fn set_var(i: int) -> Seq<char> {
    if i == 0 { "A"@ } else if i == 1 { "B"@ } else if i == 2 { "C"@ } else if i == 3 { "X"@ }
    else if i == 4 { "Y"@ } else { "Z"@ }
}

fn set_var_exec(i: usize) -> (r: &'static str)
    ensures r@ == set_var(i as int),
{
    if i == 0 { "A" } else if i == 1 { "B" } else if i == 2 { "C" } else if i == 3 { "X" }
    else if i == 4 { "Y" } else { "Z" }
}

/// The algebraic conjecture for `seed`, its variables shifted by the offsets `o1`, `o2`, `o3`.
pub open spec fn algebraic_conjecture(seed: int, o1: int, o2: int, o3: int) -> SEquality {
    algebraic_shape(seed % 12,
        sc(alg_var((seed + o1) % 8)), sc(alg_var((seed + 1 + o2) % 8)), sc(alg_var((seed + 2 + o3) % 8)))
}

pub open spec fn boolean_conjecture(seed: int) -> SEquality {
    boolean_shape(seed % 8, sc(bool_var(seed % 8)), sc(bool_var((seed + 1) % 8)), sc(bool_var((seed + 2) % 8)))
}

pub open spec fn calculus_conjecture(seed: int) -> SEquality {
    calculus_shape(seed % 6)
}

pub open spec fn set_conjecture(seed: int) -> SEquality {
    set_shape(seed % 6, sc(set_var(seed % 6)), sc(set_var((seed + 1) % 6)), sc(set_var((seed + 2) % 6)))
}

/// Which family a domain invents in: 0 algebra, 1 logic, 2 calculus, 3 sets. Domains without a
/// family of their own take the four in turn by `seed`.
pub open spec fn invention_kind(domain: MathDomain, seed: int) -> int {
    match domain {
        MathDomain::AbstractAlgebra => 0,
        MathDomain::BooleanLogic => 1,
        MathDomain::SymbolicCalculus => 2,
        MathDomain::SetTheory => 3,
        _ => seed % 4,
    }
}

/// Whether `e` is a conjecture that may be invented for `domain` from `seed`; the algebraic
/// family shifts each variable by a random offset of 0 or 1.
pub open spec fn may_invent(domain: MathDomain, seed: int, e: SEquality) -> bool {
    let k = invention_kind(domain, seed);
    if k == 0 {
        exists|o1: int, o2: int, o3: int| 0 <= o1 < 2 && 0 <= o2 < 2 && 0 <= o3 < 2
            && #[trigger] algebraic_conjecture(seed, o1, o2, o3) == e
    } else if k == 1 {
        e == boolean_conjecture(seed)
    } else if k == 2 {
        e == calculus_conjecture(seed)
    } else {
        e == set_conjecture(seed)
    }
}

/// The seeds whose variable indices stay within `usize` for the family the domain uses:
/// `seed + 3` for the algebraic family, `seed + 2` for the boolean and set families, any seed
/// for calculus.
pub open spec fn seed_fits(domain: MathDomain, seed: int) -> bool {
    let k = invention_kind(domain, seed);
    if k == 0 {
        seed + 3 <= usize::MAX
    } else if k == 2 {
        true
    } else {
        seed + 2 <= usize::MAX
    }
}

/// A conjecture is worth proving when its sides differ, it mentions a symbol other than 0 and 1,
/// and its sides are not both leaves of one kind.
pub open spec fn non_trivial(e: SEquality) -> bool {
    &&& e.lhs != e.rhs
    &&& !(symbol_set(e.lhs).is_empty() && symbol_set(e.rhs).is_empty())
    &&& !((e.lhs is Const && e.rhs is Const) || (e.lhs is Var && e.rhs is Var))
}

/// The inventor of candidate conjectures.
pub struct TheoryInventor;

impl TheoryInventor {
    /// The algebraic conjecture for `seed` with the given variable offsets.
    pub fn invent_algebraic_with(seed: usize, o1: usize, o2: usize, o3: usize) -> (r: Equality)
        requires o1 < 2, o2 < 2, o3 < 2, seed + 2 + o3 <= usize::MAX,
        ensures r@ == algebraic_conjecture(seed as int, o1 as int, o2 as int, o3 as int),
    {
        let v1 = Term::constant(alg_var_exec((seed + o1) % 8));
        let v2 = Term::constant(alg_var_exec((seed + 1 + o2) % 8));
        let v3 = Term::constant(alg_var_exec((seed + 2 + o3) % 8));
        algebraic_shape_exec(seed % 12, &v1, &v2, &v3)
    }

    fn invent_algebraic(seed: usize) -> (r: Equality)
        requires seed + 3 <= usize::MAX,
        ensures may_invent(MathDomain::AbstractAlgebra, seed as int, r@),
    {
        let o1 = random_index(2);
        let o2 = random_index(2);
        let o3 = random_index(2);
        let r = TheoryInventor::invent_algebraic_with(seed, o1, o2, o3);
        assert(algebraic_conjecture(seed as int, o1 as int, o2 as int, o3 as int) == r@);
        r
    }

    fn invent_boolean(seed: usize) -> (r: Equality)
        requires seed + 2 <= usize::MAX,
        ensures r@ == boolean_conjecture(seed as int),
    {
        let a = Term::constant(bool_var_exec(seed % 8));
        let b = Term::constant(bool_var_exec((seed + 1) % 8));
        let c = Term::constant(bool_var_exec((seed + 2) % 8));
        boolean_shape_exec(seed % 8, &a, &b, &c)
    }

    fn invent_calculus(seed: usize) -> (r: Equality)
        ensures r@ == calculus_conjecture(seed as int),
    {
        calculus_shape_exec(seed % 6)
    }

    fn invent_set_theory(seed: usize) -> (r: Equality)
        requires seed + 2 <= usize::MAX,
        ensures r@ == set_conjecture(seed as int),
    {
        let a = Term::constant(set_var_exec(seed % 6));
        let b = Term::constant(set_var_exec((seed + 1) % 6));
        let c = Term::constant(set_var_exec((seed + 2) % 6));
        set_shape_exec(seed % 6, &a, &b, &c)
    }

    /// A candidate conjecture for the domain. The domains without a family of their own
    /// (complex numbers, linear algebra, order theory, several variables, probability) are
    /// treated as the unified domain is: the families take turns by `seed % 4`.
    pub fn invent_for_domain(domain: MathDomain, seed: usize) -> (r: Equality)
        requires seed_fits(domain, seed as int),
        ensures may_invent(domain, seed as int, r@), non_trivial(r@),
    {
        let r = TheoryInventor::invent_for_domain_inner(domain, seed);
        proof { crate::laws::law_invented_conjectures_are_non_trivial(domain, seed as int, r@); }
        r
    }

    fn invent_for_domain_inner(domain: MathDomain, seed: usize) -> (r: Equality)
        requires seed_fits(domain, seed as int),
        ensures may_invent(domain, seed as int, r@),
    {
        let kind: usize = match domain {
            MathDomain::AbstractAlgebra => 0,
            MathDomain::BooleanLogic => 1,
            MathDomain::SymbolicCalculus => 2,
            MathDomain::SetTheory => 3,
            _ => seed % 4,
        };
        if kind == 0 {
            let r = TheoryInventor::invent_algebraic(seed);
            assert(may_invent(MathDomain::AbstractAlgebra, seed as int, r@));
            r
        } else if kind == 1 {
            TheoryInventor::invent_boolean(seed)
        } else if kind == 2 {
            TheoryInventor::invent_calculus(seed)
        } else {
            TheoryInventor::invent_set_theory(seed)
        }
    }

    /// A candidate algebraic conjecture.
    pub fn invent_candidate_conjecture(seed: usize) -> (r: Equality)
        requires seed + 3 <= usize::MAX,
        ensures may_invent(MathDomain::AbstractAlgebra, seed as int, r@), non_trivial(r@),
    {
        let r = TheoryInventor::invent_algebraic(seed);
        proof { crate::laws::law_invented_conjectures_are_non_trivial(MathDomain::AbstractAlgebra, seed as int, r@); }
        r
    }

    /// Whether a conjecture is worth proving.
    pub fn is_non_trivial(conjecture: &Equality) -> (r: bool)
        ensures r == non_trivial(conjecture@),
    {
        if term_eq(&conjecture.lhs, &conjecture.rhs) {
            return false;
        }
        let lhs_symbols = conjecture.lhs.extract_symbols();
        let rhs_symbols = conjecture.rhs.extract_symbols();
        if lhs_symbols.len() == 0 && rhs_symbols.len() == 0 {
            proof {
                assert(crate::strings::strings_view(lhs_symbols@).to_set() =~= Set::empty());
                assert(crate::strings::strings_view(rhs_symbols@).to_set() =~= Set::empty());
            }
            return false;
        }
        proof {
            if lhs_symbols.len() > 0 {
                let sv = crate::strings::strings_view(lhs_symbols@);
                assert(sv[0] == lhs_symbols@[0]@);
                assert(sv.contains(sv[0]));
                assert(sv.to_set().contains(sv[0]));
            } else {
                let sv = crate::strings::strings_view(rhs_symbols@);
                assert(sv[0] == rhs_symbols@[0]@);
                assert(sv.contains(sv[0]));
                assert(sv.to_set().contains(sv[0]));
            }
        }
        match (&conjecture.lhs, &conjecture.rhs) {
            (Term::Const(_), Term::Const(_)) => false,
            (Term::Var(_), Term::Var(_)) => false,
            _ => true,
        }
    }
}

} // verus!
