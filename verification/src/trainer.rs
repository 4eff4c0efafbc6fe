//! Conjectures for self-play training.
use vstd::prelude::*;
use crate::fol::{Term, Equality, SEquality, STerm, func2};
use crate::axioms::{sc, sf2};
use crate::random::random_index;

verus! {

/// The names the synthetic conjectures draw their symbols from.
pub open spec fn synthetic_name(i: int) -> Seq<char> {
    if i == 0 { "x"@ } else if i == 1 { "y"@ } else if i == 2 { "z"@ } else if i == 3 { "a"@ } else { "b"@ }
}

fn synthetic_name_exec(i: usize) -> (r: &'static str)
    requires i < 5,
    ensures r@ == synthetic_name(i as int),
{
    if i == 0 { "x" } else if i == 1 { "y" } else if i == 2 { "z" } else if i == 3 { "a" } else { "b" }
}

/// The synthetic conjecture of a difficulty, over the symbols numbered `i1` and `i2`: the
/// additive identity, the multiplicative identity, a compound of both, or commutativity of
/// addition, as the difficulty is 0, 1, 2 or 3 modulo 4.
pub open spec fn synthetic_conjecture(difficulty: int, i1: int, i2: int) -> SEquality {
    let v1 = sc(synthetic_name(i1));
    let v2 = sc(synthetic_name(i2));
    let zero = sc("0"@);
    let one = sc("1"@);
    if difficulty % 4 == 0 {
        SEquality { lhs: sf2("+"@, v1, zero), rhs: sf2("+"@, zero, v1) }
    } else if difficulty % 4 == 1 {
        SEquality { lhs: sf2("*"@, v1, one), rhs: sf2("*"@, one, v1) }
    } else if difficulty % 4 == 2 {
        SEquality {
            lhs: sf2("+"@, sf2("+"@, v1, zero), sf2("*"@, v2, one)),
            rhs: sf2("+"@, sf2("*"@, one, v2), sf2("+"@, zero, v1)),
        }
    } else {
        SEquality { lhs: sf2("+"@, v1, v2), rhs: sf2("+"@, v2, v1) }
    }
}

fn cst(name: &str) -> (r: Term)
    ensures r@ == STerm::Const(name@),
{
    Term::constant(name)
}

/// The synthetic conjecture of a difficulty over the symbols numbered `i1` and `i2`.
pub fn synthetic_conjecture_with(difficulty: usize, i1: usize, i2: usize) -> (r: Equality)
    requires i1 < 5, i2 < 5,
    ensures r@ == synthetic_conjecture(difficulty as int, i1 as int, i2 as int),
{
    let n1 = synthetic_name_exec(i1);
    let n2 = synthetic_name_exec(i2);
    if difficulty % 4 == 0 {
        Equality::new(func2("+", cst(n1), cst("0")), func2("+", cst("0"), cst(n1)))
    } else if difficulty % 4 == 1 {
        Equality::new(func2("*", cst(n1), cst("1")), func2("*", cst("1"), cst(n1)))
    } else if difficulty % 4 == 2 {
        Equality::new(
            func2("+", func2("+", cst(n1), cst("0")), func2("*", cst(n2), cst("1"))),
            func2("+", func2("*", cst("1"), cst(n2)), func2("+", cst("0"), cst(n1))),
        )
    } else {
        Equality::new(func2("+", cst(n1), cst(n2)), func2("+", cst(n2), cst(n1)))
    }
}

/// A synthetic conjecture of the given difficulty over two symbols drawn at random from
/// x, y, z, a and b.
pub fn generate_synthetic_algebra_conjecture(difficulty: usize) -> (r: Equality)
    ensures
        exists|i1: int, i2: int| 0 <= i1 < 5 && 0 <= i2 < 5
            && r@ == #[trigger] synthetic_conjecture(difficulty as int, i1, i2),
{
    let i1 = random_index(5);
    let i2 = random_index(5);
    synthetic_conjecture_with(difficulty, i1, i2)
}

} // verus!
