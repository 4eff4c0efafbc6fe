//! Export of terms, rules and proofs to Lean 4.
use vstd::prelude::*;
use crate::strings::{owned, str_eq};
use crate::fol::{Term, STerm, Equality, SEquality, contains_sym, term_eq, lemma_view, lemma_view_func, lemma_decreases_arg, terms_view};

verus! {

/// Binary operators written infix in Lean, `·` as `*`.
pub open spec fn is_lean_infix(n: Seq<char>) -> bool {
    n == "+"@ || n == "*"@ || n == "·"@ || n == "^"@ || n == "/"@ || n == "<="@ || n == "<"@ || n == ">="@ || n == ">"@
}

/// The Lean 4 rendering of a term; with `b`, the numerals 0 and 1 read as `false` and `true`.
pub open spec fn lean_term(t: STerm, b: bool) -> Seq<char>
    decreases t,
{
    match t {
        STerm::Var(n) => n,
        STerm::Const(n) => if b {
            if n == "0"@ || n == "false"@ {
                "false"@
            } else if n == "1"@ || n == "true"@ {
                "true"@
            } else {
                n
            }
        } else {
            n
        },
        STerm::Func(name, args) => if args.len() == 2 && is_lean_infix(name) {
            "("@ + lean_term(args[0], b) + " "@ + (if name == "·"@ { "*"@ } else { name }) + " "@ + lean_term(args[1], b) + ")"@
        } else if args.len() == 2 && (name == "&"@ || name == "∧"@) {
            "("@ + lean_term(args[0], b) + " && "@ + lean_term(args[1], b) + ")"@
        } else if args.len() == 2 && (name == "|"@ || name == "∨"@) {
            "("@ + lean_term(args[0], b) + " || "@ + lean_term(args[1], b) + ")"@
        } else if args.len() == 1 && (name == "-"@ || name == "!"@ || name == "¬"@ || name == "~"@) {
            "("@ + (if name == "-"@ { "-"@ } else { "!"@ }) + lean_term(args[0], b) + ")"@
        } else {
            let lean_name = if name == "Int"@ { "Integral"@ } else if name == "cond"@ { "prob_cond"@ } else { name };
            if args.len() == 0 {
                lean_name
            } else {
                "("@ + lean_name + " "@ + lean_list(args, b) + ")"@
            }
        },
    }
}

/// The Lean 4 renderings of a list of terms, separated by spaces.
pub open spec fn lean_list(s: Seq<STerm>, b: bool) -> Seq<char>
    decreases s,
{
    if s.len() == 0 {
        Seq::empty()
    } else if s.len() == 1 {
        lean_term(s[0], b)
    } else {
        lean_list(s.drop_last(), b) + " "@ + lean_term(s.last(), b)
    }
}

/// The Lean 4 rendering of a term over numbers.
pub fn term_to_lean(term: &Term) -> (r: String)
    ensures r@ == lean_term(term@, false),
{
    term_to_lean_with_domain(term, false)
}

/// The Lean 4 rendering of a term; with `is_bool`, 0 and 1 become `false` and `true`.
#[verifier::loop_isolation(false)]
pub fn term_to_lean_with_domain(term: &Term, is_bool: bool) -> (r: String)
    ensures r@ == lean_term(term@, is_bool),
    decreases term,
{
    proof { lemma_view(*term); }
    match term {
        Term::Var(name) => name.clone(),
        Term::Const(name) => {
            if is_bool {
                let n = name.as_str();
                if str_eq(n, "0") || str_eq(n, "false") {
                    owned("false")
                } else if str_eq(n, "1") || str_eq(n, "true") {
                    owned("true")
                } else {
                    name.clone()
                }
            } else {
                name.clone()
            }
        },
        Term::Func(name, args) => {
            proof { lemma_view_func(*term); }
            let ghost sa = term@->Func_1;
            let n = name.as_str();
            if args.len() == 2 && (str_eq(n, "+") || str_eq(n, "*") || str_eq(n, "·") || str_eq(n, "^") || str_eq(n, "/")
                || str_eq(n, "<=") || str_eq(n, "<") || str_eq(n, ">=") || str_eq(n, ">")) {
                proof {
                    lemma_decreases_arg(*term, 0);
                    lemma_decreases_arg(*term, 1);
                    assert(sa[0] == args@[0]@ && sa[1] == args@[1]@);
                }
                let mut s = owned("(");
                s.append(term_to_lean_with_domain(&args[0], is_bool).as_str());
                s.append(" ");
                if str_eq(n, "·") {
                    s.append("*");
                } else {
                    s.append(n);
                }
                s.append(" ");
                s.append(term_to_lean_with_domain(&args[1], is_bool).as_str());
                s.append(")");
                s
            } else if args.len() == 2 && (str_eq(n, "&") || str_eq(n, "∧") || str_eq(n, "|") || str_eq(n, "∨")) {
                proof {
                    lemma_decreases_arg(*term, 0);
                    lemma_decreases_arg(*term, 1);
                    assert(sa[0] == args@[0]@ && sa[1] == args@[1]@);
                }
                let conj = str_eq(n, "&") || str_eq(n, "∧");
                let mut s = owned("(");
                s.append(term_to_lean_with_domain(&args[0], is_bool).as_str());
                if conj {
                    s.append(" && ");
                } else {
                    s.append(" || ");
                }
                s.append(term_to_lean_with_domain(&args[1], is_bool).as_str());
                s.append(")");
                s
            } else if args.len() == 1 && (str_eq(n, "-") || str_eq(n, "!") || str_eq(n, "¬") || str_eq(n, "~")) {
                proof {
                    lemma_decreases_arg(*term, 0);
                    assert(sa[0] == args@[0]@);
                }
                let mut s = owned("(");
                if str_eq(n, "-") {
                    s.append("-");
                } else {
                    s.append("!");
                }
                s.append(term_to_lean_with_domain(&args[0], is_bool).as_str());
                s.append(")");
                s
            } else {
                let lean_name = if str_eq(n, "Int") {
                    owned("Integral")
                } else if str_eq(n, "cond") {
                    owned("prob_cond")
                } else {
                    name.clone()
                };
                if args.len() == 0 {
                    return lean_name;
                }
                let mut s = owned("(");
                s.append(lean_name.as_str());
                s.append(" ");
                let mut i: usize = 0;
                while i < args.len()
                    invariant
                        i <= args.len(),
                        args.len() > 0,
                        s@ == "("@ + lean_name@ + " "@ + lean_list(sa.take(i as int), is_bool),
                    decreases args.len() - i,
                {
                    proof {
                        lemma_decreases_arg(*term, i as int);
                        assert(sa.take(i + 1).drop_last() =~= sa.take(i as int));
                        assert(sa.take(i + 1).last() == args@[i as int]@);
                    }
                    if i > 0 {
                        s.append(" ");
                    }
                    s.append(term_to_lean_with_domain(&args[i], is_bool).as_str());
                    proof {
                        if i == 0 {
                            assert(sa.take(0) =~= Seq::<STerm>::empty());
                            assert(sa.take(1)[0] == sa[0]);
                        }
                    }
                    i += 1;
                }
                s.append(")");
                proof { assert(sa.take(i as int) =~= sa); }
                s
            }
        },
    }
}

/// The term mentions a boolean constant or connective.
pub open spec fn has_bool_symbols(t: STerm) -> bool
    decreases t,
{
    match t {
        STerm::Var(_) => false,
        STerm::Const(c) => c == "true"@ || c == "false"@,
        STerm::Func(f, args) => f == "&"@ || f == "|"@ || f == "!"@ || f == "∧"@ || f == "∨"@ || f == "¬"@ || f == "~"@
            || exists|i: int| #![trigger args[i]] 0 <= i < args.len() && has_bool_symbols(args[i]),
    }
}

/// An equality is read as boolean when it mentions a boolean symbol and no order symbol.
pub open spec fn is_bool_eq(e: SEquality) -> bool {
    !(contains_sym(e.lhs, "<="@) || contains_sym(e.rhs, "<="@) || contains_sym(e.lhs, "<"@) || contains_sym(e.rhs, "<"@))
        && (has_bool_symbols(e.lhs) || has_bool_symbols(e.rhs))
}

#[verifier::loop_isolation(false)]
fn has_bool(term: &Term) -> (r: bool)
    ensures r == has_bool_symbols(term@),
    decreases term,
{
    proof { lemma_view(*term); }
    match term {
        Term::Var(_) => false,
        Term::Const(c) => str_eq(c.as_str(), "true") || str_eq(c.as_str(), "false"),
        Term::Func(f, args) => {
            proof { lemma_view_func(*term); }
            let n = f.as_str();
            if str_eq(n, "&") || str_eq(n, "|") || str_eq(n, "!") || str_eq(n, "∧") || str_eq(n, "∨") || str_eq(n, "¬") || str_eq(n, "~") {
                return true;
            }
            let mut i: usize = 0;
            while i < args.len()
                invariant
                    i <= args.len(),
                    forall|j: int| 0 <= j < i ==> !has_bool_symbols(#[trigger] args@[j]@),
                decreases args.len() - i,
            {
                proof { lemma_decreases_arg(*term, i as int); }
                if has_bool(&args[i]) {
                    proof { assert(term@->Func_1[i as int] == args@[i as int]@); }
                    return true;
                }
                i += 1;
            }
            proof {
                assert forall|j: int| 0 <= j < term@->Func_1.len() implies !has_bool_symbols(#[trigger] term@->Func_1[j]) by {
                    assert(term@->Func_1[j] == args@[j]@);
                }
            }
            false
        },
    }
}

/// Whether an equality is to be read over booleans.
pub fn is_boolean_equality(eq: &Equality) -> (r: bool)
    ensures r == is_bool_eq(eq@),
{
    if eq.lhs.contains_symbol("<=") || eq.rhs.contains_symbol("<=") || eq.lhs.contains_symbol("<") || eq.rhs.contains_symbol("<") {
        return false;
    }
    has_bool(&eq.lhs) || has_bool(&eq.rhs)
}

/// The Lean 4 name of a rule of the library: the core lemma where one exists, else the rule's own name.
pub open spec fn lean_base_name(rule: Seq<char>) -> Seq<char> {
    if rule == "add_zero"@ {
        "Nat.add_zero"@
    } else if rule == "zero_add"@ {
        "Nat.zero_add"@
    } else if rule == "add_comm"@ {
        "Nat.add_comm"@
    } else if rule == "add_assoc"@ {
        "Nat.add_assoc"@
    } else if rule == "mul_one"@ {
        "Nat.mul_one"@
    } else if rule == "one_mul"@ {
        "Nat.one_mul"@
    } else if rule == "mul_zero"@ {
        "Nat.mul_zero"@
    } else if rule == "zero_mul"@ {
        "Nat.zero_mul"@
    } else if rule == "mul_comm"@ {
        "Nat.mul_comm"@
    } else if rule == "mul_assoc"@ {
        "Nat.mul_assoc"@
    } else if rule == "distrib_left"@ {
        "Nat.left_distrib"@
    } else if rule == "distrib_right"@ {
        "Nat.right_distrib"@
    } else if rule == "sub_self"@ {
        "Int.sub_self"@
    } else if rule == "and_true"@ {
        "Bool.and_true"@
    } else if rule == "true_and"@ {
        "Bool.true_and"@
    } else if rule == "or_false"@ {
        "Bool.or_false"@
    } else if rule == "false_or"@ {
        "Bool.false_or"@
    } else if rule == "and_false"@ {
        "Bool.and_false"@
    } else if rule == "false_and"@ {
        "Bool.false_and"@
    } else if rule == "or_true"@ {
        "Bool.or_true"@
    } else if rule == "true_or"@ {
        "Bool.true_or"@
    } else if rule == "and_comm"@ {
        "Bool.and_comm"@
    } else if rule == "or_comm"@ {
        "Bool.or_comm"@
    } else if rule == "and_assoc"@ {
        "Bool.and_assoc"@
    } else if rule == "or_assoc"@ {
        "Bool.or_assoc"@
    } else if rule == "not_not"@ {
        "Bool.not_not"@
    } else if rule == "not_and"@ {
        "Bool.not_and"@
    } else if rule == "not_or"@ {
        "Bool.not_or"@
    } else if rule == "de_morgan_and"@ {
        "Bool.not_and"@
    } else if rule == "de_morgan_or"@ {
        "Bool.not_or"@
    } else {
        rule
    }
}

/// The Lean 4 name of a rule when the variables are integers.
pub open spec fn lean_int_name(rule: Seq<char>) -> Seq<char> {
    if rule == "add_zero"@ {
        "Int.add_zero"@
    } else if rule == "zero_add"@ {
        "Int.zero_add"@
    } else if rule == "add_comm"@ {
        "Int.add_comm"@
    } else if rule == "add_assoc"@ {
        "Int.add_assoc"@
    } else if rule == "mul_one"@ {
        "Int.mul_one"@
    } else if rule == "one_mul"@ {
        "Int.one_mul"@
    } else if rule == "mul_zero"@ {
        "Int.mul_zero"@
    } else if rule == "zero_mul"@ {
        "Int.zero_mul"@
    } else if rule == "mul_comm"@ {
        "Int.mul_comm"@
    } else if rule == "mul_assoc"@ {
        "Int.mul_assoc"@
    } else if rule == "distrib_left"@ {
        "Int.mul_add"@
    } else if rule == "distrib_right"@ {
        "Int.add_mul"@
    } else if rule == "sub_self"@ {
        "Int.sub_self"@
    } else if rule == "neg_neg"@ {
        "Int.neg_neg"@
    } else {
        lean_base_name(rule)
    }
}

/// The lemmas on `Int` of Lean 4's core library that rewrite steps cite, each with the
/// equation it states; a lemma's variables are written x, y, z in the order Lean binds them.
pub open spec fn lean_int_lemmas() -> Seq<(Seq<char>, SEquality)> {
    let x = STerm::Var("x"@);
    let y = STerm::Var("y"@);
    let z = STerm::Var("z"@);
    let zero = STerm::Const("0"@);
    let one = STerm::Const("1"@);
    let plus = |a: STerm, b: STerm| STerm::Func("+"@, seq![a, b]);
    let times = |a: STerm, b: STerm| STerm::Func("*"@, seq![a, b]);
    let neg = |a: STerm| STerm::Func("-"@, seq![a]);
    let eq = |l: STerm, r: STerm| SEquality { lhs: l, rhs: r };
    seq![
        ("Int.add_zero"@, eq(plus(x, zero), x)),
        ("Int.zero_add"@, eq(plus(zero, x), x)),
        ("Int.add_comm"@, eq(plus(x, y), plus(y, x))),
        ("Int.add_assoc"@, eq(plus(plus(x, y), z), plus(x, plus(y, z)))),
        ("Int.mul_one"@, eq(times(x, one), x)),
        ("Int.one_mul"@, eq(times(one, x), x)),
        ("Int.mul_zero"@, eq(times(x, zero), zero)),
        ("Int.zero_mul"@, eq(times(zero, x), zero)),
        ("Int.mul_comm"@, eq(times(x, y), times(y, x))),
        ("Int.mul_assoc"@, eq(times(times(x, y), z), times(x, times(y, z)))),
        ("Int.mul_add"@, eq(times(x, plus(y, z)), plus(times(x, y), times(x, z)))),
        ("Int.add_mul"@, eq(times(plus(x, y), z), plus(times(x, z), times(y, z)))),
        ("Int.neg_neg"@, eq(neg(neg(x)), x)),
        ("Int.sub_self"@, eq(STerm::Func("-"@, seq![x, x]), zero)),
    ]
}

/// The lemmas on `Nat` of Lean 4's core library that rewrite steps cite, each with the
/// equation it states; a lemma's variables are written x, y, z in the order Lean binds them.
pub open spec fn lean_nat_lemmas() -> Seq<(Seq<char>, SEquality)> {
    let x = STerm::Var("x"@);
    let y = STerm::Var("y"@);
    let z = STerm::Var("z"@);
    let zero = STerm::Const("0"@);
    let one = STerm::Const("1"@);
    let plus = |a: STerm, b: STerm| STerm::Func("+"@, seq![a, b]);
    let times = |a: STerm, b: STerm| STerm::Func("*"@, seq![a, b]);
    let eq = |l: STerm, r: STerm| SEquality { lhs: l, rhs: r };
    seq![
        ("Nat.add_zero"@, eq(plus(x, zero), x)),
        ("Nat.zero_add"@, eq(plus(zero, x), x)),
        ("Nat.add_comm"@, eq(plus(x, y), plus(y, x))),
        ("Nat.add_assoc"@, eq(plus(plus(x, y), z), plus(x, plus(y, z)))),
        ("Nat.mul_one"@, eq(times(x, one), x)),
        ("Nat.one_mul"@, eq(times(one, x), x)),
        ("Nat.mul_zero"@, eq(times(x, zero), zero)),
        ("Nat.zero_mul"@, eq(times(zero, x), zero)),
        ("Nat.mul_comm"@, eq(times(x, y), times(y, x))),
        ("Nat.mul_assoc"@, eq(times(times(x, y), z), times(x, times(y, z)))),
        ("Nat.left_distrib"@, eq(times(x, plus(y, z)), plus(times(x, y), times(x, z)))),
        ("Nat.right_distrib"@, eq(times(plus(x, y), z), plus(times(x, z), times(y, z)))),
    ]
}

/// The lemmas on `Bool` of Lean 4's core library that rewrite steps cite, each with the equation
/// it states; a lemma's variables are written a, b, c in the order Lean binds them, and `true`
/// and `false` are written 1 and 0, as the boolean rules write them.
pub open spec fn lean_bool_lemmas() -> Seq<(Seq<char>, SEquality)> {
    let a = STerm::Var("a"@);
    let b = STerm::Var("b"@);
    let c = STerm::Var("c"@);
    let f = STerm::Const("0"@);
    let t = STerm::Const("1"@);
    let and = |x: STerm, y: STerm| STerm::Func("&"@, seq![x, y]);
    let or = |x: STerm, y: STerm| STerm::Func("|"@, seq![x, y]);
    let not = |x: STerm| STerm::Func("!"@, seq![x]);
    let eq = |l: STerm, r: STerm| SEquality { lhs: l, rhs: r };
    seq![
        ("Bool.and_true"@, eq(and(a, t), a)),
        ("Bool.true_and"@, eq(and(t, a), a)),
        ("Bool.or_false"@, eq(or(a, f), a)),
        ("Bool.false_or"@, eq(or(f, a), a)),
        ("Bool.and_false"@, eq(and(a, f), f)),
        ("Bool.false_and"@, eq(and(f, a), f)),
        ("Bool.or_true"@, eq(or(a, t), t)),
        ("Bool.true_or"@, eq(or(t, a), t)),
        ("Bool.and_comm"@, eq(and(a, b), and(b, a))),
        ("Bool.or_comm"@, eq(or(a, b), or(b, a))),
        ("Bool.and_assoc"@, eq(and(and(a, b), c), and(a, and(b, c)))),
        ("Bool.or_assoc"@, eq(or(or(a, b), c), or(a, or(b, c)))),
        ("Bool.not_not"@, eq(not(not(a)), a)),
        ("Bool.not_and"@, eq(not(and(a, b)), or(not(a), not(b)))),
        ("Bool.not_or"@, eq(not(or(a, b)), and(not(a), not(b)))),
    ]
}

fn map_rule_to_lean_base(rule: &str) -> (r: String)
    ensures r@ == lean_base_name(rule@),
{
    if str_eq(rule, "add_zero") {
        owned("Nat.add_zero")
    } else if str_eq(rule, "zero_add") {
        owned("Nat.zero_add")
    } else if str_eq(rule, "add_comm") {
        owned("Nat.add_comm")
    } else if str_eq(rule, "add_assoc") {
        owned("Nat.add_assoc")
    } else if str_eq(rule, "mul_one") {
        owned("Nat.mul_one")
    } else if str_eq(rule, "one_mul") {
        owned("Nat.one_mul")
    } else if str_eq(rule, "mul_zero") {
        owned("Nat.mul_zero")
    } else if str_eq(rule, "zero_mul") {
        owned("Nat.zero_mul")
    } else if str_eq(rule, "mul_comm") {
        owned("Nat.mul_comm")
    } else if str_eq(rule, "mul_assoc") {
        owned("Nat.mul_assoc")
    } else if str_eq(rule, "distrib_left") {
        owned("Nat.left_distrib")
    } else if str_eq(rule, "distrib_right") {
        owned("Nat.right_distrib")
    } else if str_eq(rule, "sub_self") {
        owned("Int.sub_self")
    } else if str_eq(rule, "and_true") {
        owned("Bool.and_true")
    } else if str_eq(rule, "true_and") {
        owned("Bool.true_and")
    } else if str_eq(rule, "or_false") {
        owned("Bool.or_false")
    } else if str_eq(rule, "false_or") {
        owned("Bool.false_or")
    } else if str_eq(rule, "and_false") {
        owned("Bool.and_false")
    } else if str_eq(rule, "false_and") {
        owned("Bool.false_and")
    } else if str_eq(rule, "or_true") {
        owned("Bool.or_true")
    } else if str_eq(rule, "true_or") {
        owned("Bool.true_or")
    } else if str_eq(rule, "and_comm") {
        owned("Bool.and_comm")
    } else if str_eq(rule, "or_comm") {
        owned("Bool.or_comm")
    } else if str_eq(rule, "and_assoc") {
        owned("Bool.and_assoc")
    } else if str_eq(rule, "or_assoc") {
        owned("Bool.or_assoc")
    } else if str_eq(rule, "not_not") {
        owned("Bool.not_not")
    } else if str_eq(rule, "not_and") {
        owned("Bool.not_and")
    } else if str_eq(rule, "not_or") {
        owned("Bool.not_or")
    } else if str_eq(rule, "de_morgan_and") {
        owned("Bool.not_and")
    } else if str_eq(rule, "de_morgan_or") {
        owned("Bool.not_or")
    } else {
        owned(rule)
    }
}

fn map_int_rule(rule: &str) -> (r: String)
    ensures r@ == lean_int_name(rule@),
{
    if str_eq(rule, "add_zero") {
        owned("Int.add_zero")
    } else if str_eq(rule, "zero_add") {
        owned("Int.zero_add")
    } else if str_eq(rule, "add_comm") {
        owned("Int.add_comm")
    } else if str_eq(rule, "add_assoc") {
        owned("Int.add_assoc")
    } else if str_eq(rule, "mul_one") {
        owned("Int.mul_one")
    } else if str_eq(rule, "one_mul") {
        owned("Int.one_mul")
    } else if str_eq(rule, "mul_zero") {
        owned("Int.mul_zero")
    } else if str_eq(rule, "zero_mul") {
        owned("Int.zero_mul")
    } else if str_eq(rule, "mul_comm") {
        owned("Int.mul_comm")
    } else if str_eq(rule, "mul_assoc") {
        owned("Int.mul_assoc")
    } else if str_eq(rule, "distrib_left") {
        owned("Int.mul_add")
    } else if str_eq(rule, "distrib_right") {
        owned("Int.add_mul")
    } else if str_eq(rule, "sub_self") {
        owned("Int.sub_self")
    } else if str_eq(rule, "neg_neg") {
        owned("Int.neg_neg")
    } else {
        map_rule_to_lean_base(rule)
    }
}


/// The Lean 4 name of a rule over natural numbers.
pub fn map_rule_to_lean(rule: &str) -> (r: String)
    ensures r@ == lean_base_name(rule@),
{
    proof {
        reveal_strlit("Nat");
        reveal_strlit("Int");
        assert("Nat"@[0] != "Int"@[0]);
    }
    map_rule_to_lean_typed(rule, "Nat")
}

/// The Lean 4 name of a rule for variables of the given Lean type.
pub fn map_rule_to_lean_typed(rule: &str, lean_type: &str) -> (r: String)
    ensures r@ == (if lean_type@ == "Int"@ { lean_int_name(rule@) } else { lean_base_name(rule@) }),
{
    if str_eq(lean_type, "Int") {
        map_int_rule(rule)
    } else {
        map_rule_to_lean_base(rule)
    }
}


/// The positions below `n` where two argument lists differ, ascending.
pub open spec fn diff_upto(a: Seq<STerm>, b: Seq<STerm>, n: int) -> Seq<int>
    decreases n,
{
    if n <= 0 {
        Seq::empty()
    } else {
        diff_upto(a, b, n - 1) + (if a[n - 1] != b[n - 1] { seq![n - 1] } else { Seq::<int>::empty() })
    }
}

/// The argument positions leading from the root to the single subterm where `t` differs from `o`;
/// empty when they are equal or differ in more than one place at some level.
pub open spec fn ast_path(o: STerm, t: STerm) -> Seq<int>
    decreases o,
{
    if o == t {
        Seq::empty()
    } else {
        match (o, t) {
            (STerm::Func(f1, a1), STerm::Func(f2, a2)) => if f1 == f2 && a1.len() == a2.len() {
                let d = diff_upto(a1, a2, a1.len() as int);
                if d.len() == 1 && 0 <= d[0] < a1.len() {
                    seq![d[0]] + ast_path(a1[d[0]], a2[d[0]])
                } else {
                    Seq::empty()
                }
            } else {
                Seq::empty()
            },
            _ => Seq::empty(),
        }
    }
}

pub open spec fn indices_view(v: Seq<usize>) -> Seq<int> {
    v.map_values(|x: usize| x as int)
}

proof fn lemma_diff_range(a: Seq<STerm>, b: Seq<STerm>, n: int)
    ensures forall|k: int| 0 <= k < diff_upto(a, b, n).len() ==> 0 <= #[trigger] diff_upto(a, b, n)[k] < n,
    decreases n,
{
    if n > 0 {
        lemma_diff_range(a, b, n - 1);
        let p = diff_upto(a, b, n - 1);
        let q = if a[n - 1] != b[n - 1] { seq![n - 1] } else { Seq::<int>::empty() };
        assert(diff_upto(a, b, n) == p + q);
        assert forall|k: int| 0 <= k < (p + q).len() implies 0 <= #[trigger] (p + q)[k] < n by {
            if k < p.len() {
                assert((p + q)[k] == p[k]);
            } else {
                assert((p + q)[k] == q[k - p.len()]);
            }
        }
    }
}

/// The path of argument positions to the one subterm that a rewrite changed.
#[verifier::loop_isolation(false)]
pub fn find_ast_path(orig: &Term, transformed: &Term) -> (r: Vec<usize>)
    ensures
        indices_view(r@) == ast_path(orig@, transformed@),
        forall|k: int| 0 <= k < r@.len() ==> r@[k] < usize::MAX,
    decreases orig,
{
    if term_eq(orig, transformed) {
        let r: Vec<usize> = Vec::new();
        assert(indices_view(r@) =~= Seq::empty());
        return r;
    }
    proof {
        lemma_view(*orig);
        lemma_view(*transformed);
    }
    match (orig, transformed) {
        (Term::Func(f1, args1), Term::Func(f2, args2)) => {
            proof {
                lemma_view_func(*orig);
                lemma_view_func(*transformed);
            }
            let ghost a1 = orig@->Func_1;
            let ghost a2 = transformed@->Func_1;
            if str_eq(f1.as_str(), f2.as_str()) && args1.len() == args2.len() {
                let mut diff: Vec<usize> = Vec::new();
                let mut i: usize = 0;
                while i < args1.len()
                    invariant
                        i <= args1.len(),
                        args1.len() == args2.len(),
                        indices_view(diff@) == diff_upto(a1, a2, i as int),
                    decreases args1.len() - i,
                {
                    proof {
                        assert(a1[i as int] == args1@[i as int]@ && a2[i as int] == args2@[i as int]@);
                    }
                    if !term_eq(&args1[i], &args2[i]) {
                        proof { assert(indices_view(diff@.push(i)) =~= indices_view(diff@).push(i as int)); }
                        diff.push(i);
                    } else {
                        assert(diff_upto(a1, a2, i + 1) =~= diff_upto(a1, a2, i as int));
                    }
                    i += 1;
                }
                proof { lemma_diff_range(a1, a2, a1.len() as int); }
                if diff.len() == 1 {
                    let idx = diff[0];
                    assert(idx as int == indices_view(diff@)[0]);
                    proof {
                        lemma_decreases_arg(*orig, idx as int);
                        assert(a1[idx as int] == args1@[idx as int]@ && a2[idx as int] == args2@[idx as int]@);
                    }
                    let mut sub = find_ast_path(&args1[idx], &args2[idx]);
                    let mut path: Vec<usize> = Vec::new();
                    path.push(idx);
                    let ghost p0 = path@;
                    let ghost s0 = sub@;
                    path.append(&mut sub);
                    proof {
                        assert(indices_view(path@) =~= seq![idx as int] + indices_view(s0));
                        assert(path@ =~= seq![idx] + s0);
                    }
                    path
                } else {
                    let r: Vec<usize> = Vec::new();
                    assert(indices_view(r@) =~= Seq::empty());
                    r
                }
            } else {
                let r: Vec<usize> = Vec::new();
                assert(indices_view(r@) =~= Seq::empty());
                r
            }
        },
        _ => {
            let r: Vec<usize> = Vec::new();
            assert(indices_view(r@) =~= Seq::empty());
            r
        },
    }
}

} // verus!
