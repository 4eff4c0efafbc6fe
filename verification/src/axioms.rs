//! The rule libraries of each domain.
use vstd::prelude::*;
use crate::fol::{Term, STerm, Equality, SEquality, int_term, func1, func2};
use crate::kernel::{AxiomLibrary, MathDomain, has_rule};

verus! {

pub open spec fn sv(n: Seq<char>) -> STerm {
    STerm::Var(n)
}

pub open spec fn sc(n: Seq<char>) -> STerm {
    STerm::Const(n)
}

pub open spec fn sf1(op: Seq<char>, a: STerm) -> STerm {
    STerm::Func(op, seq![a])
}

pub open spec fn sf2(op: Seq<char>, a: STerm, b: STerm) -> STerm {
    STerm::Func(op, seq![a, b])
}

pub open spec fn rule(name: Seq<char>, lhs: STerm, rhs: STerm) -> (Seq<char>, SEquality) {
    (name, SEquality { lhs, rhs })
}

/// The additive group, multiplicative monoid and ring laws, with factoring identities.
pub open spec fn standard_algebra_rules() -> Seq<(Seq<char>, SEquality)> {
    seq![
        rule("add_zero"@, sf2("+"@, sv("x"@), sc("0"@)), sv("x"@)),
        rule("zero_add"@, sf2("+"@, sc("0"@), sv("x"@)), sv("x"@)),
        rule("add_comm"@, sf2("+"@, sv("x"@), sv("y"@)), sf2("+"@, sv("y"@), sv("x"@))),
        rule("add_assoc"@, sf2("+"@, sf2("+"@, sv("x"@), sv("y"@)), sv("z"@)), sf2("+"@, sv("x"@), sf2("+"@, sv("y"@), sv("z"@)))),
        rule("add_inv"@, sf2("+"@, sv("x"@), sf1("-"@, sv("x"@))), sc("0"@)),
        rule("mul_one"@, sf2("*"@, sv("x"@), sc("1"@)), sv("x"@)),
        rule("one_mul"@, sf2("*"@, sc("1"@), sv("x"@)), sv("x"@)),
        rule("mul_zero"@, sf2("*"@, sv("x"@), sc("0"@)), sc("0"@)),
        rule("mul_comm"@, sf2("*"@, sv("x"@), sv("y"@)), sf2("*"@, sv("y"@), sv("x"@))),
        rule("mul_assoc"@, sf2("*"@, sf2("*"@, sv("x"@), sv("y"@)), sv("z"@)), sf2("*"@, sv("x"@), sf2("*"@, sv("y"@), sv("z"@)))),
        rule("distrib_left"@, sf2("*"@, sv("x"@), sf2("+"@, sv("y"@), sv("z"@))), sf2("+"@, sf2("*"@, sv("x"@), sv("y"@)), sf2("*"@, sv("x"@), sv("z"@)))),
        rule("distrib_right"@, sf2("*"@, sf2("+"@, sv("x"@), sv("y"@)), sv("z"@)), sf2("+"@, sf2("*"@, sv("x"@), sv("z"@)), sf2("*"@, sv("y"@), sv("z"@)))),
        rule("neg_neg"@, sf1("-"@, sf1("-"@, sv("x"@))), sv("x"@)),
        rule("mul_neg_left"@, sf2("*"@, sf1("-"@, sv("x"@)), sv("y"@)), sf1("-"@, sf2("*"@, sv("x"@), sv("y"@)))),
        rule("sub_self"@, sf2("-"@, sv("x"@), sv("x"@)), sc("0"@)),
        rule("diff_squares"@, sf2("*"@, sf2("+"@, sv("x"@), sf1("-"@, sv("y"@))), sf2("+"@, sv("x"@), sv("y"@))), sf2("+"@, sf2("*"@, sv("x"@), sv("x"@)), sf1("-"@, sf2("*"@, sv("y"@), sv("y"@))))),
        rule("factor_diff_squares"@, sf2("+"@, sf2("*"@, sv("x"@), sv("x"@)), sf1("-"@, sf2("*"@, sv("y"@), sv("y"@)))), sf2("*"@, sf2("+"@, sv("x"@), sf1("-"@, sv("y"@))), sf2("+"@, sv("x"@), sv("y"@)))),
        rule("diff_cubes"@, sf2("*"@, sf2("+"@, sv("x"@), sf1("-"@, sv("y"@))), sf2("+"@, sf2("+"@, sf2("*"@, sv("x"@), sv("x"@)), sf2("*"@, sv("x"@), sv("y"@))), sf2("*"@, sv("y"@), sv("y"@)))), sf2("+"@, sf2("*"@, sf2("*"@, sv("x"@), sv("x"@)), sv("x"@)), sf1("-"@, sf2("*"@, sf2("*"@, sv("y"@), sv("y"@)), sv("y"@))))),
        rule("factor_common_right"@, sf2("+"@, sf2("*"@, sv("x"@), sv("z"@)), sf2("*"@, sv("y"@), sv("z"@))), sf2("*"@, sf2("+"@, sv("x"@), sv("y"@)), sv("z"@))),
        rule("factor_common_left"@, sf2("+"@, sf2("*"@, sv("z"@), sv("x"@)), sf2("*"@, sv("z"@), sv("y"@))), sf2("*"@, sv("z"@), sf2("+"@, sv("x"@), sv("y"@)))),
    ]
}

/// The algebra rules with the laws of the imaginary unit.
pub open spec fn complex_numbers_rules() -> Seq<(Seq<char>, SEquality)> {
    standard_algebra_rules() + seq![
        rule("i_squared"@, sf2("*"@, sc("i"@), sc("i"@)), int_term(-1)),
        rule("mul_i_i"@, sf2("*"@, sf2("*"@, sv("x"@), sc("i"@)), sc("i"@)), sf1("-"@, sv("x"@))),
        rule("mul_imaginary"@, sf2("*"@, sf2("*"@, sv("x"@), sc("i"@)), sf2("*"@, sv("y"@), sc("i"@))), sf1("-"@, sf2("*"@, sv("x"@), sv("y"@)))),
    ]
}

/// The laws of Boolean algebra, with 0 and 1 as false and true.
pub open spec fn boolean_logic_rules() -> Seq<(Seq<char>, SEquality)> {
    seq![
        rule("and_true"@, sf2("&"@, sv("a"@), sc("1"@)), sv("a"@)),
        rule("true_and"@, sf2("&"@, sc("1"@), sv("a"@)), sv("a"@)),
        rule("or_false"@, sf2("|"@, sv("a"@), sc("0"@)), sv("a"@)),
        rule("false_or"@, sf2("|"@, sc("0"@), sv("a"@)), sv("a"@)),
        rule("and_false"@, sf2("&"@, sv("a"@), sc("0"@)), sc("0"@)),
        rule("or_true"@, sf2("|"@, sv("a"@), sc("1"@)), sc("1"@)),
        rule("and_comm"@, sf2("&"@, sv("a"@), sv("b"@)), sf2("&"@, sv("b"@), sv("a"@))),
        rule("or_comm"@, sf2("|"@, sv("a"@), sv("b"@)), sf2("|"@, sv("b"@), sv("a"@))),
        rule("and_assoc"@, sf2("&"@, sf2("&"@, sv("a"@), sv("b"@)), sv("c"@)), sf2("&"@, sv("a"@), sf2("&"@, sv("b"@), sv("c"@)))),
        rule("or_assoc"@, sf2("|"@, sf2("|"@, sv("a"@), sv("b"@)), sv("c"@)), sf2("|"@, sv("a"@), sf2("|"@, sv("b"@), sv("c"@)))),
        rule("not_not"@, sf1("!"@, sf1("!"@, sv("a"@))), sv("a"@)),
        rule("and_not"@, sf2("&"@, sv("a"@), sf1("!"@, sv("a"@))), sc("0"@)),
        rule("or_not"@, sf2("|"@, sv("a"@), sf1("!"@, sv("a"@))), sc("1"@)),
        rule("de_morgan_and"@, sf1("!"@, sf2("&"@, sv("a"@), sv("b"@))), sf2("|"@, sf1("!"@, sv("a"@)), sf1("!"@, sv("b"@)))),
        rule("de_morgan_or"@, sf1("!"@, sf2("|"@, sv("a"@), sv("b"@))), sf2("&"@, sf1("!"@, sv("a"@)), sf1("!"@, sv("b"@)))),
    ]
}

/// Rules of differentiation `D` and integration `Int`, and of the hyperbolic functions.
pub open spec fn symbolic_calculus_rules() -> Seq<(Seq<char>, SEquality)> {
    seq![
        rule("d_const_0"@, sf1("D"@, sc("0"@)), sc("0"@)),
        rule("d_const_1"@, sf1("D"@, sc("1"@)), sc("0"@)),
        rule("d_var"@, sf1("D"@, sc("x"@)), sc("1"@)),
        rule("d_sum"@, sf1("D"@, sf2("+"@, sv("u"@), sv("v"@))), sf2("+"@, sf1("D"@, sv("u"@)), sf1("D"@, sv("v"@)))),
        rule("d_prod"@, sf1("D"@, sf2("*"@, sv("u"@), sv("v"@))), sf2("+"@, sf2("*"@, sf1("D"@, sv("u"@)), sv("v"@)), sf2("*"@, sv("u"@), sf1("D"@, sv("v"@))))),
        rule("d_exp"@, sf1("D"@, sf1("exp"@, sv("u"@))), sf2("*"@, sf1("exp"@, sv("u"@)), sf1("D"@, sv("u"@)))),
        rule("d_sin"@, sf1("D"@, sf1("sin"@, sv("u"@))), sf2("*"@, sf1("cos"@, sv("u"@)), sf1("D"@, sv("u"@)))),
        rule("d_cos"@, sf1("D"@, sf1("cos"@, sv("u"@))), sf1("-"@, sf2("*"@, sf1("sin"@, sv("u"@)), sf1("D"@, sv("u"@))))),
        rule("d_quotient"@, sf1("D"@, sf2("/"@, sv("u"@), sv("v"@))), sf2("/"@, sf2("-"@, sf2("*"@, sf1("D"@, sv("u"@)), sv("v"@)), sf2("*"@, sv("u"@), sf1("D"@, sv("v"@)))), sf2("*"@, sv("v"@), sv("v"@)))),
        rule("add_zero"@, sf2("+"@, sv("u"@), sc("0"@)), sv("u"@)),
        rule("zero_add"@, sf2("+"@, sc("0"@), sv("u"@)), sv("u"@)),
        rule("mul_one"@, sf2("*"@, sv("u"@), sc("1"@)), sv("u"@)),
        rule("one_mul"@, sf2("*"@, sc("1"@), sv("u"@)), sv("u"@)),
        rule("mul_zero"@, sf2("*"@, sv("u"@), sc("0"@)), sc("0"@)),
        rule("zero_mul"@, sf2("*"@, sc("0"@), sv("u"@)), sc("0"@)),
        rule("sub_self"@, sf2("-"@, sv("u"@), sv("u"@)), sc("0"@)),
        rule("add_inv"@, sf2("+"@, sv("u"@), sf1("-"@, sv("u"@))), sc("0"@)),
        rule("add_inv_left"@, sf2("+"@, sf1("-"@, sv("u"@)), sv("u"@)), sc("0"@)),
        rule("add_comm"@, sf2("+"@, sv("u"@), sv("v"@)), sf2("+"@, sv("v"@), sv("u"@))),
        rule("d_neg"@, sf1("D"@, sf1("-"@, sv("u"@))), sf1("-"@, sf1("D"@, sv("u"@)))),
        rule("mul_neg_left"@, sf2("*"@, sf1("-"@, sv("u"@)), sv("v"@)), sf1("-"@, sf2("*"@, sv("u"@), sv("v"@)))),
        rule("mul_neg_right"@, sf2("*"@, sv("u"@), sf1("-"@, sv("v"@))), sf1("-"@, sf2("*"@, sv("u"@), sv("v"@)))),
        rule("neg_neg"@, sf1("-"@, sf1("-"@, sv("u"@))), sv("u"@)),
        rule("ftc"@, sf1("D"@, sf1("Int"@, sv("u"@))), sv("u"@)),
        rule("ftc_reverse"@, sf1("Int"@, sf1("D"@, sv("u"@))), sv("u"@)),
        rule("int_sum"@, sf1("Int"@, sf2("+"@, sv("u"@), sv("v"@))), sf2("+"@, sf1("Int"@, sv("u"@)), sf1("Int"@, sv("v"@)))),
        rule("int_zero"@, sf1("Int"@, sc("0"@)), sc("0"@)),
        rule("int_one"@, sf1("Int"@, sc("1"@)), sc("x"@)),
        rule("int_exp"@, sf1("Int"@, sf1("exp"@, sc("x"@))), sf1("exp"@, sc("x"@))),
        rule("int_cos"@, sf1("Int"@, sf1("cos"@, sc("x"@))), sf1("sin"@, sc("x"@))),
        rule("int_sin"@, sf1("Int"@, sf1("sin"@, sc("x"@))), sf1("-"@, sf1("cos"@, sc("x"@)))),
        rule("cosh_sq_sub_sinh_sq"@, sf2("+"@, sf2("*"@, sf1("cosh"@, sv("u"@)), sf1("cosh"@, sv("u"@))), sf1("-"@, sf2("*"@, sf1("sinh"@, sv("u"@)), sf1("sinh"@, sv("u"@))))), sc("1"@)),
        rule("d_sinh"@, sf1("D"@, sf1("sinh"@, sv("u"@))), sf2("*"@, sf1("cosh"@, sv("u"@)), sf1("D"@, sv("u"@)))),
        rule("d_cosh"@, sf1("D"@, sf1("cosh"@, sv("u"@))), sf2("*"@, sf1("sinh"@, sv("u"@)), sf1("D"@, sv("u"@)))),
        rule("euler_cosh_i"@, sf1("cosh"@, sf2("*"@, sc("i"@), sv("u"@))), sf1("cos"@, sv("u"@))),
        rule("euler_sinh_i"@, sf1("sinh"@, sf2("*"@, sc("i"@), sv("u"@))), sf2("*"@, sc("i"@), sf1("sin"@, sv("u"@)))),
        rule("sinh_zero"@, sf1("sinh"@, sc("0"@)), sc("0"@)),
        rule("cosh_zero"@, sf1("cosh"@, sc("0"@)), sc("1"@)),
    ]
}

/// The laws of the algebra of sets, with `+` as union, `*` as intersection, 0 as the empty set and `U` as the universe.
pub open spec fn set_theory_rules() -> Seq<(Seq<char>, SEquality)> {
    seq![
        rule("inter_univ"@, sf2("inter"@, sv("a"@), sc("U"@)), sv("a"@)),
        rule("union_empty"@, sf2("union"@, sv("a"@), sc("0"@)), sv("a"@)),
        rule("inter_empty"@, sf2("inter"@, sv("a"@), sc("0"@)), sc("0"@)),
        rule("union_univ"@, sf2("union"@, sv("a"@), sc("U"@)), sc("U"@)),
        rule("inter_comm"@, sf2("inter"@, sv("a"@), sv("b"@)), sf2("inter"@, sv("b"@), sv("a"@))),
        rule("union_comm"@, sf2("union"@, sv("a"@), sv("b"@)), sf2("union"@, sv("b"@), sv("a"@))),
        rule("comp_comp"@, sf1("comp"@, sf1("comp"@, sv("a"@))), sv("a"@)),
        rule("inter_comp"@, sf2("inter"@, sv("a"@), sf1("comp"@, sv("a"@))), sc("0"@)),
        rule("union_comp"@, sf2("union"@, sv("a"@), sf1("comp"@, sv("a"@))), sc("U"@)),
        rule("de_morgan_inter"@, sf1("comp"@, sf2("inter"@, sv("a"@), sv("b"@))), sf2("union"@, sf1("comp"@, sv("a"@)), sf1("comp"@, sv("b"@)))),
        rule("de_morgan_union"@, sf1("comp"@, sf2("union"@, sv("a"@), sv("b"@))), sf2("inter"@, sf1("comp"@, sv("a"@)), sf1("comp"@, sv("b"@)))),
    ]
}

/// Laws of matrix transpose `T`, trace `tr`, determinant `det`, inverse `inv` and the identity `I`.
pub open spec fn linear_algebra_rules() -> Seq<(Seq<char>, SEquality)> {
    seq![
        rule("mat_add_zero"@, sf2("+"@, sv("A"@), sc("0"@)), sv("A"@)),
        rule("mat_add_comm"@, sf2("+"@, sv("A"@), sv("B"@)), sf2("+"@, sv("B"@), sv("A"@))),
        rule("mat_add_assoc"@, sf2("+"@, sf2("+"@, sv("A"@), sv("B"@)), sv("C"@)), sf2("+"@, sv("A"@), sf2("+"@, sv("B"@), sv("C"@)))),
        rule("mat_mul_ident_right"@, sf2("*"@, sv("A"@), sc("I"@)), sv("A"@)),
        rule("mat_mul_ident_left"@, sf2("*"@, sc("I"@), sv("A"@)), sv("A"@)),
        rule("mat_mul_assoc"@, sf2("*"@, sf2("*"@, sv("A"@), sv("B"@)), sv("C"@)), sf2("*"@, sv("A"@), sf2("*"@, sv("B"@), sv("C"@)))),
        rule("transpose_add"@, sf1("T"@, sf2("+"@, sv("A"@), sv("B"@))), sf2("+"@, sf1("T"@, sv("A"@)), sf1("T"@, sv("B"@)))),
        rule("transpose_mul"@, sf1("T"@, sf2("*"@, sv("A"@), sv("B"@))), sf2("*"@, sf1("T"@, sv("B"@)), sf1("T"@, sv("A"@)))),
        rule("transpose_transpose"@, sf1("T"@, sf1("T"@, sv("A"@))), sv("A"@)),
        rule("trace_add"@, sf1("tr"@, sf2("+"@, sv("A"@), sv("B"@))), sf2("+"@, sf1("tr"@, sv("A"@)), sf1("tr"@, sv("B"@)))),
        rule("trace_cyclic"@, sf1("tr"@, sf2("*"@, sv("A"@), sv("B"@))), sf1("tr"@, sf2("*"@, sv("B"@), sv("A"@)))),
        rule("det_mul"@, sf1("det"@, sf2("*"@, sv("A"@), sv("B"@))), sf2("*"@, sf1("det"@, sv("A"@)), sf1("det"@, sv("B"@)))),
        rule("det_ident"@, sf1("det"@, sc("I"@)), sc("1"@)),
        rule("mat_mul_inv_right"@, sf2("*"@, sv("A"@), sf1("inv"@, sv("A"@))), sc("I"@)),
        rule("mat_mul_inv_left"@, sf2("*"@, sf1("inv"@, sv("A"@)), sv("A"@)), sc("I"@)),
        rule("inv_mul"@, sf1("inv"@, sf2("*"@, sv("A"@), sv("B"@))), sf2("*"@, sf1("inv"@, sv("B"@)), sf1("inv"@, sv("A"@)))),
        rule("inv_inv"@, sf1("inv"@, sf1("inv"@, sv("A"@))), sv("A"@)),
    ]
}

/// The algebra rules with the laws of the order `<=`.
pub open spec fn order_theory_rules() -> Seq<(Seq<char>, SEquality)> {
    standard_algebra_rules() + seq![
        rule("le_refl"@, sf2("<="@, sv("x"@), sv("x"@)), sc("true"@)),
        rule("square_nonneg"@, sf2("<="@, sc("0"@), sf2("*"@, sv("x"@), sv("x"@))), sc("true"@)),
        rule("le_add_right"@, sf2("<="@, sv("x"@), sv("y"@)), sf2("<="@, sf2("+"@, sv("x"@), sv("z"@)), sf2("+"@, sv("y"@), sv("z"@)))),
        rule("abs_triangle"@, sf2("<="@, sf1("abs"@, sf2("+"@, sv("x"@), sv("y"@))), sf2("+"@, sf1("abs"@, sv("x"@)), sf1("abs"@, sv("y"@)))), sc("true"@)),
    ]
}

/// Rules of the partial derivatives `Dx`, `Dy`, `Dt` and the vector operators.
pub open spec fn multivariable_calculus_rules() -> Seq<(Seq<char>, SEquality)> {
    seq![
        rule("clairaut_xy"@, sf1("Dx"@, sf1("Dy"@, sv("f"@))), sf1("Dy"@, sf1("Dx"@, sv("f"@)))),
        rule("clairaut_xt"@, sf1("Dx"@, sf1("Dt"@, sv("f"@))), sf1("Dt"@, sf1("Dx"@, sv("f"@)))),
        rule("clairaut_yt"@, sf1("Dy"@, sf1("Dt"@, sv("f"@))), sf1("Dt"@, sf1("Dy"@, sv("f"@)))),
        rule("dx_sum"@, sf1("Dx"@, sf2("+"@, sv("u"@), sv("v"@))), sf2("+"@, sf1("Dx"@, sv("u"@)), sf1("Dx"@, sv("v"@)))),
        rule("dy_sum"@, sf1("Dy"@, sf2("+"@, sv("u"@), sv("v"@))), sf2("+"@, sf1("Dy"@, sv("u"@)), sf1("Dy"@, sv("v"@)))),
        rule("dt_sum"@, sf1("Dt"@, sf2("+"@, sv("u"@), sv("v"@))), sf2("+"@, sf1("Dt"@, sv("u"@)), sf1("Dt"@, sv("v"@)))),
        rule("dx_x"@, sf1("Dx"@, sc("x"@)), sc("1"@)),
        rule("dx_y"@, sf1("Dx"@, sc("y"@)), sc("0"@)),
        rule("dx_t"@, sf1("Dx"@, sc("t"@)), sc("0"@)),
        rule("dy_y"@, sf1("Dy"@, sc("y"@)), sc("1"@)),
        rule("dy_x"@, sf1("Dy"@, sc("x"@)), sc("0"@)),
        rule("dt_t"@, sf1("Dt"@, sc("t"@)), sc("1"@)),
        rule("dt_x"@, sf1("Dt"@, sc("x"@)), sc("0"@)),
        rule("curl_grad"@, sf1("curl"@, sf1("grad"@, sv("f"@))), sc("0"@)),
        rule("div_curl"@, sf1("div"@, sf1("curl"@, sv("f"@))), sc("0"@)),
        rule("laplacian_def"@, sf1("laplacian"@, sv("f"@)), sf1("div"@, sf1("grad"@, sv("f"@)))),
        rule("laplacian_cartesian"@, sf1("laplacian"@, sv("f"@)), sf2("+"@, sf1("Dx"@, sf1("Dx"@, sv("f"@))), sf1("Dy"@, sf1("Dy"@, sv("f"@))))),
        rule("add_comm"@, sf2("+"@, sv("u"@), sv("v"@)), sf2("+"@, sv("v"@), sv("u"@))),
        rule("add_zero"@, sf2("+"@, sv("u"@), sc("0"@)), sv("u"@)),
        rule("zero_add"@, sf2("+"@, sc("0"@), sv("u"@)), sv("u"@)),
    ]
}

/// Laws of a probability measure `P` and of conditional probability `cond`.
pub open spec fn probability_rules() -> Seq<(Seq<char>, SEquality)> {
    seq![
        rule("prob_total"@, sf1("P"@, sc("U"@)), sc("1"@)),
        rule("prob_empty"@, sf1("P"@, sc("0"@)), sc("0"@)),
        rule("prob_union"@, sf1("P"@, sf2("|"@, sv("A"@), sv("B"@))), sf2("+"@, sf2("+"@, sf1("P"@, sv("A"@)), sf1("P"@, sv("B"@))), sf1("-"@, sf1("P"@, sf2("&"@, sv("A"@), sv("B"@)))))),
        rule("prob_complement"@, sf1("P"@, sf1("!"@, sv("A"@))), sf2("+"@, sc("1"@), sf1("-"@, sf1("P"@, sv("A"@))))),
        rule("event_and_comm"@, sf2("&"@, sv("A"@), sv("B"@)), sf2("&"@, sv("B"@), sv("A"@))),
        rule("prob_cond_def"@, sf1("P"@, sf2("&"@, sv("A"@), sv("B"@))), sf2("*"@, sf2("cond"@, sv("A"@), sv("B"@)), sf1("P"@, sv("B"@)))),
        rule("prob_cond_def_rev"@, sf2("*"@, sf2("cond"@, sv("A"@), sv("B"@)), sf1("P"@, sv("B"@))), sf1("P"@, sf2("&"@, sv("A"@), sv("B"@)))),
        rule("bayes_symmetric"@, sf2("*"@, sf2("cond"@, sv("A"@), sv("B"@)), sf1("P"@, sv("B"@))), sf2("*"@, sf2("cond"@, sv("B"@), sv("A"@)), sf1("P"@, sv("A"@)))),
        rule("bayes_isolated"@, sf2("cond"@, sv("A"@), sv("B"@)), sf2("/"@, sf2("*"@, sf2("cond"@, sv("B"@), sv("A"@)), sf1("P"@, sv("A"@))), sf1("P"@, sv("B"@)))),
        rule("mul_comm"@, sf2("*"@, sv("A"@), sv("B"@)), sf2("*"@, sv("B"@), sv("A"@))),
    ]
}

/// The rules of `more` appended in order, each unless a rule of its name is already present.
pub open spec fn merge_rules(lib: Seq<(Seq<char>, SEquality)>, more: Seq<(Seq<char>, SEquality)>) -> Seq<(Seq<char>, SEquality)>
    decreases more.len(),
{
    if more.len() == 0 {
        lib
    } else {
        let prev = merge_rules(lib, more.drop_last());
        if has_rule(prev, more.last().0) { prev } else { prev.push(more.last()) }
    }
}

/// The union of all domains: the algebra rules, then those of logic, calculus, sets, complex
/// numbers, matrices, order, several variables and probability, each name kept once.
pub open spec fn unified_rules() -> Seq<(Seq<char>, SEquality)> {
    let a = merge_rules(standard_algebra_rules(), boolean_logic_rules());
    let b = merge_rules(a, symbolic_calculus_rules());
    let c = merge_rules(b, set_theory_rules());
    let d = merge_rules(c, complex_numbers_rules());
    let e = merge_rules(d, linear_algebra_rules());
    let f = merge_rules(e, order_theory_rules());
    let g = merge_rules(f, multivariable_calculus_rules());
    merge_rules(g, probability_rules())
}

/// The rules of a domain.
pub open spec fn domain_rules(d: MathDomain) -> Seq<(Seq<char>, SEquality)> {
    match d {
        MathDomain::AbstractAlgebra => standard_algebra_rules(),
        MathDomain::BooleanLogic => boolean_logic_rules(),
        MathDomain::SymbolicCalculus => symbolic_calculus_rules(),
        MathDomain::SetTheory => set_theory_rules(),
        MathDomain::ComplexNumbers => complex_numbers_rules(),
        MathDomain::LinearAlgebra => linear_algebra_rules(),
        MathDomain::OrderTheory => order_theory_rules(),
        MathDomain::MultivariableCalculus => multivariable_calculus_rules(),
        MathDomain::Probability => probability_rules(),
        MathDomain::Unified => unified_rules(),
    }
}

/// Appends the rules of `more` whose names are not yet in `lib`.
fn merge_into(lib: &mut AxiomLibrary, more: &AxiomLibrary)
    ensures final(lib)@ == merge_rules(old(lib)@, more@),
{
    let ghost start = lib@;
    let mut i: usize = 0;
    while i < more.rules.len()
        invariant
            i <= more.rules.len(),
            lib@ == merge_rules(start, more@.take(i as int)),
        decreases more.rules.len() - i,
    {
        proof {
            assert(more@.take(i + 1).drop_last() =~= more@.take(i as int));
            assert(more@.take(i + 1).last() == more@[i as int]);
        }
        if !lib.contains_rule(more.rules[i].0.as_str()) {
            lib.add_rule(more.rules[i].0.as_str(), more.rules[i].1.clone());
        }
        i += 1;
    }
    assert(more@.take(i as int) =~= more@);
}

impl AxiomLibrary {
    /// The rules of every domain, each name once.
    pub fn unified_multidomain() -> (r: AxiomLibrary)
        ensures r@ == unified_rules(),
    {
        let mut lib = AxiomLibrary::standard_algebra();
        merge_into(&mut lib, &AxiomLibrary::boolean_logic());
        merge_into(&mut lib, &AxiomLibrary::symbolic_calculus());
        merge_into(&mut lib, &AxiomLibrary::set_theory());
        merge_into(&mut lib, &AxiomLibrary::complex_numbers());
        merge_into(&mut lib, &AxiomLibrary::linear_algebra());
        merge_into(&mut lib, &AxiomLibrary::order_theory());
        merge_into(&mut lib, &AxiomLibrary::multivariable_calculus());
        merge_into(&mut lib, &AxiomLibrary::probability());
        lib
    }

    /// The rule library of a domain.
    pub fn for_domain(domain: MathDomain) -> (r: AxiomLibrary)
        ensures r@ == domain_rules(domain),
    {
        match domain {
            MathDomain::AbstractAlgebra => AxiomLibrary::standard_algebra(),
            MathDomain::BooleanLogic => AxiomLibrary::boolean_logic(),
            MathDomain::SymbolicCalculus => AxiomLibrary::symbolic_calculus(),
            MathDomain::SetTheory => AxiomLibrary::set_theory(),
            MathDomain::ComplexNumbers => AxiomLibrary::complex_numbers(),
            MathDomain::LinearAlgebra => AxiomLibrary::linear_algebra(),
            MathDomain::OrderTheory => AxiomLibrary::order_theory(),
            MathDomain::MultivariableCalculus => AxiomLibrary::multivariable_calculus(),
            MathDomain::Probability => AxiomLibrary::probability(),
            MathDomain::Unified => AxiomLibrary::unified_multidomain(),
        }
    }
}

impl AxiomLibrary {
    /// The additive group, multiplicative monoid and ring laws, with factoring identities.
    #[verifier::rlimit(50)]
    pub fn standard_algebra() -> (r: AxiomLibrary)
        ensures r@ == standard_algebra_rules(),
    {
        let mut lib = AxiomLibrary::empty();
        let ghost start = lib@;
        lib.add_rule("add_zero", Equality::new(func2("+", Term::var("x"), Term::constant("0")), Term::var("x")));
        lib.add_rule("zero_add", Equality::new(func2("+", Term::constant("0"), Term::var("x")), Term::var("x")));
        lib.add_rule("add_comm", Equality::new(func2("+", Term::var("x"), Term::var("y")), func2("+", Term::var("y"), Term::var("x"))));
        lib.add_rule("add_assoc", Equality::new(func2("+", func2("+", Term::var("x"), Term::var("y")), Term::var("z")), func2("+", Term::var("x"), func2("+", Term::var("y"), Term::var("z")))));
        lib.add_rule("add_inv", Equality::new(func2("+", Term::var("x"), func1("-", Term::var("x"))), Term::constant("0")));
        lib.add_rule("mul_one", Equality::new(func2("*", Term::var("x"), Term::constant("1")), Term::var("x")));
        lib.add_rule("one_mul", Equality::new(func2("*", Term::constant("1"), Term::var("x")), Term::var("x")));
        lib.add_rule("mul_zero", Equality::new(func2("*", Term::var("x"), Term::constant("0")), Term::constant("0")));
        lib.add_rule("mul_comm", Equality::new(func2("*", Term::var("x"), Term::var("y")), func2("*", Term::var("y"), Term::var("x"))));
        lib.add_rule("mul_assoc", Equality::new(func2("*", func2("*", Term::var("x"), Term::var("y")), Term::var("z")), func2("*", Term::var("x"), func2("*", Term::var("y"), Term::var("z")))));
        lib.add_rule("distrib_left", Equality::new(func2("*", Term::var("x"), func2("+", Term::var("y"), Term::var("z"))), func2("+", func2("*", Term::var("x"), Term::var("y")), func2("*", Term::var("x"), Term::var("z")))));
        lib.add_rule("distrib_right", Equality::new(func2("*", func2("+", Term::var("x"), Term::var("y")), Term::var("z")), func2("+", func2("*", Term::var("x"), Term::var("z")), func2("*", Term::var("y"), Term::var("z")))));
        lib.add_rule("neg_neg", Equality::new(func1("-", func1("-", Term::var("x"))), Term::var("x")));
        lib.add_rule("mul_neg_left", Equality::new(func2("*", func1("-", Term::var("x")), Term::var("y")), func1("-", func2("*", Term::var("x"), Term::var("y")))));
        lib.add_rule("sub_self", Equality::new(func2("-", Term::var("x"), Term::var("x")), Term::constant("0")));
        lib.add_rule("diff_squares", Equality::new(func2("*", func2("+", Term::var("x"), func1("-", Term::var("y"))), func2("+", Term::var("x"), Term::var("y"))), func2("+", func2("*", Term::var("x"), Term::var("x")), func1("-", func2("*", Term::var("y"), Term::var("y"))))));
        lib.add_rule("factor_diff_squares", Equality::new(func2("+", func2("*", Term::var("x"), Term::var("x")), func1("-", func2("*", Term::var("y"), Term::var("y")))), func2("*", func2("+", Term::var("x"), func1("-", Term::var("y"))), func2("+", Term::var("x"), Term::var("y")))));
        lib.add_rule("diff_cubes", Equality::new(func2("*", func2("+", Term::var("x"), func1("-", Term::var("y"))), func2("+", func2("+", func2("*", Term::var("x"), Term::var("x")), func2("*", Term::var("x"), Term::var("y"))), func2("*", Term::var("y"), Term::var("y")))), func2("+", func2("*", func2("*", Term::var("x"), Term::var("x")), Term::var("x")), func1("-", func2("*", func2("*", Term::var("y"), Term::var("y")), Term::var("y"))))));
        lib.add_rule("factor_common_right", Equality::new(func2("+", func2("*", Term::var("x"), Term::var("z")), func2("*", Term::var("y"), Term::var("z"))), func2("*", func2("+", Term::var("x"), Term::var("y")), Term::var("z"))));
        lib.add_rule("factor_common_left", Equality::new(func2("+", func2("*", Term::var("z"), Term::var("x")), func2("*", Term::var("z"), Term::var("y"))), func2("*", Term::var("z"), func2("+", Term::var("x"), Term::var("y")))));
        assert(lib@ =~= standard_algebra_rules());
        lib
    }

    /// The algebra rules with the laws of the imaginary unit.
    #[verifier::rlimit(50)]
    pub fn complex_numbers() -> (r: AxiomLibrary)
        ensures r@ == complex_numbers_rules(),
    {
        let mut lib = AxiomLibrary::standard_algebra();
        let ghost start = lib@;
        lib.add_rule("i_squared", Equality::new(func2("*", Term::constant("i"), Term::constant("i")), Term::from_i64(-1)));
        lib.add_rule("mul_i_i", Equality::new(func2("*", func2("*", Term::var("x"), Term::constant("i")), Term::constant("i")), func1("-", Term::var("x"))));
        lib.add_rule("mul_imaginary", Equality::new(func2("*", func2("*", Term::var("x"), Term::constant("i")), func2("*", Term::var("y"), Term::constant("i"))), func1("-", func2("*", Term::var("x"), Term::var("y")))));
        assert(lib@ =~= complex_numbers_rules());
        lib
    }

    /// The laws of Boolean algebra, with 0 and 1 as false and true.
    #[verifier::rlimit(50)]
    pub fn boolean_logic() -> (r: AxiomLibrary)
        ensures r@ == boolean_logic_rules(),
    {
        let mut lib = AxiomLibrary::empty();
        let ghost start = lib@;
        lib.add_rule("and_true", Equality::new(func2("&", Term::var("a"), Term::constant("1")), Term::var("a")));
        lib.add_rule("true_and", Equality::new(func2("&", Term::constant("1"), Term::var("a")), Term::var("a")));
        lib.add_rule("or_false", Equality::new(func2("|", Term::var("a"), Term::constant("0")), Term::var("a")));
        lib.add_rule("false_or", Equality::new(func2("|", Term::constant("0"), Term::var("a")), Term::var("a")));
        lib.add_rule("and_false", Equality::new(func2("&", Term::var("a"), Term::constant("0")), Term::constant("0")));
        lib.add_rule("or_true", Equality::new(func2("|", Term::var("a"), Term::constant("1")), Term::constant("1")));
        lib.add_rule("and_comm", Equality::new(func2("&", Term::var("a"), Term::var("b")), func2("&", Term::var("b"), Term::var("a"))));
        lib.add_rule("or_comm", Equality::new(func2("|", Term::var("a"), Term::var("b")), func2("|", Term::var("b"), Term::var("a"))));
        lib.add_rule("and_assoc", Equality::new(func2("&", func2("&", Term::var("a"), Term::var("b")), Term::var("c")), func2("&", Term::var("a"), func2("&", Term::var("b"), Term::var("c")))));
        lib.add_rule("or_assoc", Equality::new(func2("|", func2("|", Term::var("a"), Term::var("b")), Term::var("c")), func2("|", Term::var("a"), func2("|", Term::var("b"), Term::var("c")))));
        lib.add_rule("not_not", Equality::new(func1("!", func1("!", Term::var("a"))), Term::var("a")));
        lib.add_rule("and_not", Equality::new(func2("&", Term::var("a"), func1("!", Term::var("a"))), Term::constant("0")));
        lib.add_rule("or_not", Equality::new(func2("|", Term::var("a"), func1("!", Term::var("a"))), Term::constant("1")));
        lib.add_rule("de_morgan_and", Equality::new(func1("!", func2("&", Term::var("a"), Term::var("b"))), func2("|", func1("!", Term::var("a")), func1("!", Term::var("b")))));
        lib.add_rule("de_morgan_or", Equality::new(func1("!", func2("|", Term::var("a"), Term::var("b"))), func2("&", func1("!", Term::var("a")), func1("!", Term::var("b")))));
        assert(lib@ =~= boolean_logic_rules());
        lib
    }

    /// Rules of differentiation `D` and integration `Int`, and of the hyperbolic functions.
    #[verifier::rlimit(50)]
    pub fn symbolic_calculus() -> (r: AxiomLibrary)
        ensures r@ == symbolic_calculus_rules(),
    {
        let mut lib = AxiomLibrary::empty();
        let ghost start = lib@;
        lib.add_rule("d_const_0", Equality::new(func1("D", Term::constant("0")), Term::constant("0")));
        lib.add_rule("d_const_1", Equality::new(func1("D", Term::constant("1")), Term::constant("0")));
        lib.add_rule("d_var", Equality::new(func1("D", Term::constant("x")), Term::constant("1")));
        lib.add_rule("d_sum", Equality::new(func1("D", func2("+", Term::var("u"), Term::var("v"))), func2("+", func1("D", Term::var("u")), func1("D", Term::var("v")))));
        lib.add_rule("d_prod", Equality::new(func1("D", func2("*", Term::var("u"), Term::var("v"))), func2("+", func2("*", func1("D", Term::var("u")), Term::var("v")), func2("*", Term::var("u"), func1("D", Term::var("v"))))));
        lib.add_rule("d_exp", Equality::new(func1("D", func1("exp", Term::var("u"))), func2("*", func1("exp", Term::var("u")), func1("D", Term::var("u")))));
        lib.add_rule("d_sin", Equality::new(func1("D", func1("sin", Term::var("u"))), func2("*", func1("cos", Term::var("u")), func1("D", Term::var("u")))));
        lib.add_rule("d_cos", Equality::new(func1("D", func1("cos", Term::var("u"))), func1("-", func2("*", func1("sin", Term::var("u")), func1("D", Term::var("u"))))));
        lib.add_rule("d_quotient", Equality::new(func1("D", func2("/", Term::var("u"), Term::var("v"))), func2("/", func2("-", func2("*", func1("D", Term::var("u")), Term::var("v")), func2("*", Term::var("u"), func1("D", Term::var("v")))), func2("*", Term::var("v"), Term::var("v")))));
        lib.add_rule("add_zero", Equality::new(func2("+", Term::var("u"), Term::constant("0")), Term::var("u")));
        lib.add_rule("zero_add", Equality::new(func2("+", Term::constant("0"), Term::var("u")), Term::var("u")));
        lib.add_rule("mul_one", Equality::new(func2("*", Term::var("u"), Term::constant("1")), Term::var("u")));
        lib.add_rule("one_mul", Equality::new(func2("*", Term::constant("1"), Term::var("u")), Term::var("u")));
        lib.add_rule("mul_zero", Equality::new(func2("*", Term::var("u"), Term::constant("0")), Term::constant("0")));
        lib.add_rule("zero_mul", Equality::new(func2("*", Term::constant("0"), Term::var("u")), Term::constant("0")));
        lib.add_rule("sub_self", Equality::new(func2("-", Term::var("u"), Term::var("u")), Term::constant("0")));
        lib.add_rule("add_inv", Equality::new(func2("+", Term::var("u"), func1("-", Term::var("u"))), Term::constant("0")));
        lib.add_rule("add_inv_left", Equality::new(func2("+", func1("-", Term::var("u")), Term::var("u")), Term::constant("0")));
        lib.add_rule("add_comm", Equality::new(func2("+", Term::var("u"), Term::var("v")), func2("+", Term::var("v"), Term::var("u"))));
        lib.add_rule("d_neg", Equality::new(func1("D", func1("-", Term::var("u"))), func1("-", func1("D", Term::var("u")))));
        lib.add_rule("mul_neg_left", Equality::new(func2("*", func1("-", Term::var("u")), Term::var("v")), func1("-", func2("*", Term::var("u"), Term::var("v")))));
        lib.add_rule("mul_neg_right", Equality::new(func2("*", Term::var("u"), func1("-", Term::var("v"))), func1("-", func2("*", Term::var("u"), Term::var("v")))));
        lib.add_rule("neg_neg", Equality::new(func1("-", func1("-", Term::var("u"))), Term::var("u")));
        lib.add_rule("ftc", Equality::new(func1("D", func1("Int", Term::var("u"))), Term::var("u")));
        lib.add_rule("ftc_reverse", Equality::new(func1("Int", func1("D", Term::var("u"))), Term::var("u")));
        lib.add_rule("int_sum", Equality::new(func1("Int", func2("+", Term::var("u"), Term::var("v"))), func2("+", func1("Int", Term::var("u")), func1("Int", Term::var("v")))));
        lib.add_rule("int_zero", Equality::new(func1("Int", Term::constant("0")), Term::constant("0")));
        lib.add_rule("int_one", Equality::new(func1("Int", Term::constant("1")), Term::constant("x")));
        lib.add_rule("int_exp", Equality::new(func1("Int", func1("exp", Term::constant("x"))), func1("exp", Term::constant("x"))));
        lib.add_rule("int_cos", Equality::new(func1("Int", func1("cos", Term::constant("x"))), func1("sin", Term::constant("x"))));
        lib.add_rule("int_sin", Equality::new(func1("Int", func1("sin", Term::constant("x"))), func1("-", func1("cos", Term::constant("x")))));
        lib.add_rule("cosh_sq_sub_sinh_sq", Equality::new(func2("+", func2("*", func1("cosh", Term::var("u")), func1("cosh", Term::var("u"))), func1("-", func2("*", func1("sinh", Term::var("u")), func1("sinh", Term::var("u"))))), Term::constant("1")));
        lib.add_rule("d_sinh", Equality::new(func1("D", func1("sinh", Term::var("u"))), func2("*", func1("cosh", Term::var("u")), func1("D", Term::var("u")))));
        lib.add_rule("d_cosh", Equality::new(func1("D", func1("cosh", Term::var("u"))), func2("*", func1("sinh", Term::var("u")), func1("D", Term::var("u")))));
        lib.add_rule("euler_cosh_i", Equality::new(func1("cosh", func2("*", Term::constant("i"), Term::var("u"))), func1("cos", Term::var("u"))));
        lib.add_rule("euler_sinh_i", Equality::new(func1("sinh", func2("*", Term::constant("i"), Term::var("u"))), func2("*", Term::constant("i"), func1("sin", Term::var("u")))));
        lib.add_rule("sinh_zero", Equality::new(func1("sinh", Term::constant("0")), Term::constant("0")));
        lib.add_rule("cosh_zero", Equality::new(func1("cosh", Term::constant("0")), Term::constant("1")));
        assert(lib@ =~= symbolic_calculus_rules());
        lib
    }

    /// The laws of the algebra of sets, with `+` as union, `*` as intersection, 0 as the empty set and `U` as the universe.
    #[verifier::rlimit(50)]
    pub fn set_theory() -> (r: AxiomLibrary)
        ensures r@ == set_theory_rules(),
    {
        let mut lib = AxiomLibrary::empty();
        let ghost start = lib@;
        lib.add_rule("inter_univ", Equality::new(func2("inter", Term::var("a"), Term::constant("U")), Term::var("a")));
        lib.add_rule("union_empty", Equality::new(func2("union", Term::var("a"), Term::constant("0")), Term::var("a")));
        lib.add_rule("inter_empty", Equality::new(func2("inter", Term::var("a"), Term::constant("0")), Term::constant("0")));
        lib.add_rule("union_univ", Equality::new(func2("union", Term::var("a"), Term::constant("U")), Term::constant("U")));
        lib.add_rule("inter_comm", Equality::new(func2("inter", Term::var("a"), Term::var("b")), func2("inter", Term::var("b"), Term::var("a"))));
        lib.add_rule("union_comm", Equality::new(func2("union", Term::var("a"), Term::var("b")), func2("union", Term::var("b"), Term::var("a"))));
        lib.add_rule("comp_comp", Equality::new(func1("comp", func1("comp", Term::var("a"))), Term::var("a")));
        lib.add_rule("inter_comp", Equality::new(func2("inter", Term::var("a"), func1("comp", Term::var("a"))), Term::constant("0")));
        lib.add_rule("union_comp", Equality::new(func2("union", Term::var("a"), func1("comp", Term::var("a"))), Term::constant("U")));
        lib.add_rule("de_morgan_inter", Equality::new(func1("comp", func2("inter", Term::var("a"), Term::var("b"))), func2("union", func1("comp", Term::var("a")), func1("comp", Term::var("b")))));
        lib.add_rule("de_morgan_union", Equality::new(func1("comp", func2("union", Term::var("a"), Term::var("b"))), func2("inter", func1("comp", Term::var("a")), func1("comp", Term::var("b")))));
        assert(lib@ =~= set_theory_rules());
        lib
    }

    /// Laws of matrix transpose `T`, trace `tr`, determinant `det`, inverse `inv` and the identity `I`.
    #[verifier::rlimit(50)]
    pub fn linear_algebra() -> (r: AxiomLibrary)
        ensures r@ == linear_algebra_rules(),
    {
        let mut lib = AxiomLibrary::empty();
        let ghost start = lib@;
        lib.add_rule("mat_add_zero", Equality::new(func2("+", Term::var("A"), Term::constant("0")), Term::var("A")));
        lib.add_rule("mat_add_comm", Equality::new(func2("+", Term::var("A"), Term::var("B")), func2("+", Term::var("B"), Term::var("A"))));
        lib.add_rule("mat_add_assoc", Equality::new(func2("+", func2("+", Term::var("A"), Term::var("B")), Term::var("C")), func2("+", Term::var("A"), func2("+", Term::var("B"), Term::var("C")))));
        lib.add_rule("mat_mul_ident_right", Equality::new(func2("*", Term::var("A"), Term::constant("I")), Term::var("A")));
        lib.add_rule("mat_mul_ident_left", Equality::new(func2("*", Term::constant("I"), Term::var("A")), Term::var("A")));
        lib.add_rule("mat_mul_assoc", Equality::new(func2("*", func2("*", Term::var("A"), Term::var("B")), Term::var("C")), func2("*", Term::var("A"), func2("*", Term::var("B"), Term::var("C")))));
        lib.add_rule("transpose_add", Equality::new(func1("T", func2("+", Term::var("A"), Term::var("B"))), func2("+", func1("T", Term::var("A")), func1("T", Term::var("B")))));
        lib.add_rule("transpose_mul", Equality::new(func1("T", func2("*", Term::var("A"), Term::var("B"))), func2("*", func1("T", Term::var("B")), func1("T", Term::var("A")))));
        lib.add_rule("transpose_transpose", Equality::new(func1("T", func1("T", Term::var("A"))), Term::var("A")));
        lib.add_rule("trace_add", Equality::new(func1("tr", func2("+", Term::var("A"), Term::var("B"))), func2("+", func1("tr", Term::var("A")), func1("tr", Term::var("B")))));
        lib.add_rule("trace_cyclic", Equality::new(func1("tr", func2("*", Term::var("A"), Term::var("B"))), func1("tr", func2("*", Term::var("B"), Term::var("A")))));
        lib.add_rule("det_mul", Equality::new(func1("det", func2("*", Term::var("A"), Term::var("B"))), func2("*", func1("det", Term::var("A")), func1("det", Term::var("B")))));
        lib.add_rule("det_ident", Equality::new(func1("det", Term::constant("I")), Term::constant("1")));
        lib.add_rule("mat_mul_inv_right", Equality::new(func2("*", Term::var("A"), func1("inv", Term::var("A"))), Term::constant("I")));
        lib.add_rule("mat_mul_inv_left", Equality::new(func2("*", func1("inv", Term::var("A")), Term::var("A")), Term::constant("I")));
        lib.add_rule("inv_mul", Equality::new(func1("inv", func2("*", Term::var("A"), Term::var("B"))), func2("*", func1("inv", Term::var("B")), func1("inv", Term::var("A")))));
        lib.add_rule("inv_inv", Equality::new(func1("inv", func1("inv", Term::var("A"))), Term::var("A")));
        assert(lib@ =~= linear_algebra_rules());
        lib
    }

    /// The algebra rules with the laws of the order `<=`.
    #[verifier::rlimit(50)]
    pub fn order_theory() -> (r: AxiomLibrary)
        ensures r@ == order_theory_rules(),
    {
        let mut lib = AxiomLibrary::standard_algebra();
        let ghost start = lib@;
        lib.add_rule("le_refl", Equality::new(func2("<=", Term::var("x"), Term::var("x")), Term::constant("true")));
        lib.add_rule("square_nonneg", Equality::new(func2("<=", Term::constant("0"), func2("*", Term::var("x"), Term::var("x"))), Term::constant("true")));
        lib.add_rule("le_add_right", Equality::new(func2("<=", Term::var("x"), Term::var("y")), func2("<=", func2("+", Term::var("x"), Term::var("z")), func2("+", Term::var("y"), Term::var("z")))));
        lib.add_rule("abs_triangle", Equality::new(func2("<=", func1("abs", func2("+", Term::var("x"), Term::var("y"))), func2("+", func1("abs", Term::var("x")), func1("abs", Term::var("y")))), Term::constant("true")));
        assert(lib@ =~= order_theory_rules());
        lib
    }

    /// Rules of the partial derivatives `Dx`, `Dy`, `Dt` and the vector operators.
    #[verifier::rlimit(50)]
    pub fn multivariable_calculus() -> (r: AxiomLibrary)
        ensures r@ == multivariable_calculus_rules(),
    {
        let mut lib = AxiomLibrary::empty();
        let ghost start = lib@;
        lib.add_rule("clairaut_xy", Equality::new(func1("Dx", func1("Dy", Term::var("f"))), func1("Dy", func1("Dx", Term::var("f")))));
        lib.add_rule("clairaut_xt", Equality::new(func1("Dx", func1("Dt", Term::var("f"))), func1("Dt", func1("Dx", Term::var("f")))));
        lib.add_rule("clairaut_yt", Equality::new(func1("Dy", func1("Dt", Term::var("f"))), func1("Dt", func1("Dy", Term::var("f")))));
        lib.add_rule("dx_sum", Equality::new(func1("Dx", func2("+", Term::var("u"), Term::var("v"))), func2("+", func1("Dx", Term::var("u")), func1("Dx", Term::var("v")))));
        lib.add_rule("dy_sum", Equality::new(func1("Dy", func2("+", Term::var("u"), Term::var("v"))), func2("+", func1("Dy", Term::var("u")), func1("Dy", Term::var("v")))));
        lib.add_rule("dt_sum", Equality::new(func1("Dt", func2("+", Term::var("u"), Term::var("v"))), func2("+", func1("Dt", Term::var("u")), func1("Dt", Term::var("v")))));
        lib.add_rule("dx_x", Equality::new(func1("Dx", Term::constant("x")), Term::constant("1")));
        lib.add_rule("dx_y", Equality::new(func1("Dx", Term::constant("y")), Term::constant("0")));
        lib.add_rule("dx_t", Equality::new(func1("Dx", Term::constant("t")), Term::constant("0")));
        lib.add_rule("dy_y", Equality::new(func1("Dy", Term::constant("y")), Term::constant("1")));
        lib.add_rule("dy_x", Equality::new(func1("Dy", Term::constant("x")), Term::constant("0")));
        lib.add_rule("dt_t", Equality::new(func1("Dt", Term::constant("t")), Term::constant("1")));
        lib.add_rule("dt_x", Equality::new(func1("Dt", Term::constant("x")), Term::constant("0")));
        lib.add_rule("curl_grad", Equality::new(func1("curl", func1("grad", Term::var("f"))), Term::constant("0")));
        lib.add_rule("div_curl", Equality::new(func1("div", func1("curl", Term::var("f"))), Term::constant("0")));
        lib.add_rule("laplacian_def", Equality::new(func1("laplacian", Term::var("f")), func1("div", func1("grad", Term::var("f")))));
        lib.add_rule("laplacian_cartesian", Equality::new(func1("laplacian", Term::var("f")), func2("+", func1("Dx", func1("Dx", Term::var("f"))), func1("Dy", func1("Dy", Term::var("f"))))));
        lib.add_rule("add_comm", Equality::new(func2("+", Term::var("u"), Term::var("v")), func2("+", Term::var("v"), Term::var("u"))));
        lib.add_rule("add_zero", Equality::new(func2("+", Term::var("u"), Term::constant("0")), Term::var("u")));
        lib.add_rule("zero_add", Equality::new(func2("+", Term::constant("0"), Term::var("u")), Term::var("u")));
        assert(lib@ =~= multivariable_calculus_rules());
        lib
    }

    /// Laws of a probability measure `P` and of conditional probability `cond`.
    #[verifier::rlimit(50)]
    pub fn probability() -> (r: AxiomLibrary)
        ensures r@ == probability_rules(),
    {
        let mut lib = AxiomLibrary::empty();
        let ghost start = lib@;
        lib.add_rule("prob_total", Equality::new(func1("P", Term::constant("U")), Term::constant("1")));
        lib.add_rule("prob_empty", Equality::new(func1("P", Term::constant("0")), Term::constant("0")));
        lib.add_rule("prob_union", Equality::new(func1("P", func2("|", Term::var("A"), Term::var("B"))), func2("+", func2("+", func1("P", Term::var("A")), func1("P", Term::var("B"))), func1("-", func1("P", func2("&", Term::var("A"), Term::var("B")))))));
        lib.add_rule("prob_complement", Equality::new(func1("P", func1("!", Term::var("A"))), func2("+", Term::constant("1"), func1("-", func1("P", Term::var("A"))))));
        lib.add_rule("event_and_comm", Equality::new(func2("&", Term::var("A"), Term::var("B")), func2("&", Term::var("B"), Term::var("A"))));
        lib.add_rule("prob_cond_def", Equality::new(func1("P", func2("&", Term::var("A"), Term::var("B"))), func2("*", func2("cond", Term::var("A"), Term::var("B")), func1("P", Term::var("B")))));
        lib.add_rule("prob_cond_def_rev", Equality::new(func2("*", func2("cond", Term::var("A"), Term::var("B")), func1("P", Term::var("B"))), func1("P", func2("&", Term::var("A"), Term::var("B")))));
        lib.add_rule("bayes_symmetric", Equality::new(func2("*", func2("cond", Term::var("A"), Term::var("B")), func1("P", Term::var("B"))), func2("*", func2("cond", Term::var("B"), Term::var("A")), func1("P", Term::var("A")))));
        lib.add_rule("bayes_isolated", Equality::new(func2("cond", Term::var("A"), Term::var("B")), func2("/", func2("*", func2("cond", Term::var("B"), Term::var("A")), func1("P", Term::var("A"))), func1("P", Term::var("B")))));
        lib.add_rule("mul_comm", Equality::new(func2("*", Term::var("A"), Term::var("B")), func2("*", Term::var("B"), Term::var("A"))));
        assert(lib@ =~= probability_rules());
        lib
    }

}

} // verus!
