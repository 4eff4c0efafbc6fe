//! The Lean 4 text of a finished proof: declarations for the symbols it uses, the theorem,
//! and one tactic line per step of the proof.
use vstd::prelude::*;
use crate::strings::{owned, str_eq, nat_str, nat_digits, strictly_sorted, strings_view, sorted_listing, lemma_sorted_listing, remove_name, parse_i64, parse_i64_spec};
use crate::fol::{Term, STerm, Equality, SEquality, contains_sym, symbol_set, lemma_view, lemma_view_func, lemma_decreases_arg, clone_strings};
use crate::kernel::{ProofState, STactic, hist_view};
use crate::lean::{lean_term, lean_base_name, lean_int_name, is_bool_eq, is_boolean_equality, term_to_lean_with_domain,
    map_rule_to_lean_typed, ast_path, indices_view, find_ast_path};
use crate::parser::{parse_conjecture, spec_parse_conjecture};

verus! {

/// The Lean 4 preamble for the complex part of a goal.
pub open spec fn complex_preamble() -> Seq<char> {
    "structure ComplexI where\n"@
        + "  re : Int\n"@
        + "  im : Int\n"@
        + "  deriving Repr, DecidableEq\n\n"@
        + "namespace ComplexI\n\n"@
        + "def add (a b : ComplexI) : ComplexI := ⟨a.re + b.re, a.im + b.im⟩\n"@
        + "def mul (a b : ComplexI) : ComplexI := ⟨a.re * b.re - a.im * b.im, a.re * b.im + a.im * b.re⟩\n"@
        + "def ofNat (n : Nat) : ComplexI := ⟨n, 0⟩\n"@
        + "def i : ComplexI := ⟨0, 1⟩\n\n"@
        + "instance : Add ComplexI := ⟨add⟩\n"@
        + "instance : Mul ComplexI := ⟨mul⟩\n"@
        + "instance (n : Nat) : OfNat ComplexI n := ⟨ofNat n⟩\n"@
        + "instance : Neg ComplexI := ⟨fun a => ⟨-a.re, -a.im⟩⟩\n"@
        + "instance : Sub ComplexI := ⟨fun a b => ⟨a.re - b.re, a.im - b.im⟩⟩\n\n"@
        + "end ComplexI\n\n"@
        + "open ComplexI\n\n"@
}

fn complex_preamble_text() -> (r: String)
    ensures r@ == complex_preamble(),
{
    let mut s = owned("structure ComplexI where\n");
    s.append("  re : Int\n");
    s.append("  im : Int\n");
    s.append("  deriving Repr, DecidableEq\n\n");
    s.append("namespace ComplexI\n\n");
    s.append("def add (a b : ComplexI) : ComplexI := ⟨a.re + b.re, a.im + b.im⟩\n");
    s.append("def mul (a b : ComplexI) : ComplexI := ⟨a.re * b.re - a.im * b.im, a.re * b.im + a.im * b.re⟩\n");
    s.append("def ofNat (n : Nat) : ComplexI := ⟨n, 0⟩\n");
    s.append("def i : ComplexI := ⟨0, 1⟩\n\n");
    s.append("instance : Add ComplexI := ⟨add⟩\n");
    s.append("instance : Mul ComplexI := ⟨mul⟩\n");
    s.append("instance (n : Nat) : OfNat ComplexI n := ⟨ofNat n⟩\n");
    s.append("instance : Neg ComplexI := ⟨fun a => ⟨-a.re, -a.im⟩⟩\n");
    s.append("instance : Sub ComplexI := ⟨fun a b => ⟨a.re - b.re, a.im - b.im⟩⟩\n\n");
    s.append("end ComplexI\n\n");
    s.append("open ComplexI\n\n");
    s
}

/// The Lean 4 preamble for the calculus part of a goal.
pub open spec fn calculus_preamble() -> Seq<char> {
    "opaque D : Int -> Int\n"@
        + "opaque Integral : Int -> Int\n"@
        + "opaque exp : Int -> Int\n"@
        + "opaque sin : Int -> Int\n"@
        + "opaque cos : Int -> Int\n"@
        + "opaque sinh : Int -> Int\n"@
        + "opaque cosh : Int -> Int\n"@
        + "axiom d_const_0 : D 0 = 0\n"@
        + "axiom d_const_1 : D 1 = 0\n"@
        + "axiom d_var (x : Int) : D x = 1\n"@
        + "axiom d_sum (u v : Int) : D (u + v) = D u + D v\n"@
        + "axiom d_prod (u v : Int) : D (u * v) = D u * v + u * D v\n"@
        + "axiom d_exp (u : Int) : D (exp u) = exp u * D u\n"@
        + "axiom d_sin (u : Int) : D (sin u) = cos u * D u\n"@
        + "axiom d_cos (u : Int) : D (cos u) = - (sin u * D u)\n"@
        + "axiom d_sinh (u : Int) : D (sinh u) = cosh u * D u\n"@
        + "axiom d_cosh (u : Int) : D (cosh u) = sinh u * D u\n"@
        + "axiom cosh_sq_sub_sinh_sq (x : Int) : ((cosh x * cosh x) + -(sinh x * sinh x)) = 1\n"@
        + "axiom euler_cosh_i (x : Int) : cosh (i * x) = cos x\n"@
        + "axiom euler_sinh_i (x : Int) : sinh (i * x) = i * sin x\n"@
        + "axiom sinh_zero : sinh 0 = 0\n"@
        + "axiom cosh_zero : cosh 0 = 1\n"@
        + "axiom d_neg (u : Int) : D (-u) = - (D u)\n"@
        + "axiom add_inv_left (u : Int) : (-u) + u = 0\n"@
        + "axiom ftc (u : Int) : D (Integral u) = u\n"@
        + "axiom ftc_reverse (u : Int) : Integral (D u) = u\n"@
        + "axiom int_sum (u v : Int) : Integral (u + v) = Integral u + Integral v\n"@
        + "axiom int_zero : Integral 0 = 0\n"@
        + "axiom int_one (x : Int) : Integral 1 = x\n"@
        + "axiom int_exp (x : Int) : Integral (exp x) = exp x\n"@
        + "axiom int_cos (x : Int) : Integral (cos x) = sin x\n"@
        + "axiom int_sin (x : Int) : Integral (sin x) = - (cos x)\n\n"@
}

fn calculus_preamble_text() -> (r: String)
    ensures r@ == calculus_preamble(),
{
    let mut s = owned("opaque D : Int -> Int\n");
    s.append("opaque Integral : Int -> Int\n");
    s.append("opaque exp : Int -> Int\n");
    s.append("opaque sin : Int -> Int\n");
    s.append("opaque cos : Int -> Int\n");
    s.append("opaque sinh : Int -> Int\n");
    s.append("opaque cosh : Int -> Int\n");
    s.append("axiom d_const_0 : D 0 = 0\n");
    s.append("axiom d_const_1 : D 1 = 0\n");
    s.append("axiom d_var (x : Int) : D x = 1\n");
    s.append("axiom d_sum (u v : Int) : D (u + v) = D u + D v\n");
    s.append("axiom d_prod (u v : Int) : D (u * v) = D u * v + u * D v\n");
    s.append("axiom d_exp (u : Int) : D (exp u) = exp u * D u\n");
    s.append("axiom d_sin (u : Int) : D (sin u) = cos u * D u\n");
    s.append("axiom d_cos (u : Int) : D (cos u) = - (sin u * D u)\n");
    s.append("axiom d_sinh (u : Int) : D (sinh u) = cosh u * D u\n");
    s.append("axiom d_cosh (u : Int) : D (cosh u) = sinh u * D u\n");
    s.append("axiom cosh_sq_sub_sinh_sq (x : Int) : ((cosh x * cosh x) + -(sinh x * sinh x)) = 1\n");
    s.append("axiom euler_cosh_i (x : Int) : cosh (i * x) = cos x\n");
    s.append("axiom euler_sinh_i (x : Int) : sinh (i * x) = i * sin x\n");
    s.append("axiom sinh_zero : sinh 0 = 0\n");
    s.append("axiom cosh_zero : cosh 0 = 1\n");
    s.append("axiom d_neg (u : Int) : D (-u) = - (D u)\n");
    s.append("axiom add_inv_left (u : Int) : (-u) + u = 0\n");
    s.append("axiom ftc (u : Int) : D (Integral u) = u\n");
    s.append("axiom ftc_reverse (u : Int) : Integral (D u) = u\n");
    s.append("axiom int_sum (u v : Int) : Integral (u + v) = Integral u + Integral v\n");
    s.append("axiom int_zero : Integral 0 = 0\n");
    s.append("axiom int_one (x : Int) : Integral 1 = x\n");
    s.append("axiom int_exp (x : Int) : Integral (exp x) = exp x\n");
    s.append("axiom int_cos (x : Int) : Integral (cos x) = sin x\n");
    s.append("axiom int_sin (x : Int) : Integral (sin x) = - (cos x)\n\n");
    s
}

/// The Lean 4 preamble for the multivar part of a goal.
pub open spec fn multivar_preamble() -> Seq<char> {
    "opaque Dx : Int -> Int\n"@
        + "opaque Dy : Int -> Int\n"@
        + "opaque Dt : Int -> Int\n"@
        + "opaque grad : Int -> Int\n"@
        + "opaque div : Int -> Int\n"@
        + "opaque curl : Int -> Int\n"@
        + "opaque laplacian : Int -> Int\n"@
        + "axiom clairaut_xy (f : Int) : Dx (Dy f) = Dy (Dx f)\n"@
        + "axiom clairaut_xt (f : Int) : Dx (Dt f) = Dt (Dx f)\n"@
        + "axiom clairaut_yt (f : Int) : Dy (Dt f) = Dt (Dy f)\n"@
        + "axiom dx_sum (u v : Int) : Dx (u + v) = Dx u + Dx v\n"@
        + "axiom dy_sum (u v : Int) : Dy (u + v) = Dy u + Dy v\n"@
        + "axiom dt_sum (u v : Int) : Dt (u + v) = Dt u + Dt v\n"@
        + "axiom dx_x : Dx x = 1\n"@
        + "axiom dx_y : Dx y = 0\n"@
        + "axiom dx_t : Dx t = 0\n"@
        + "axiom dy_y : Dy y = 1\n"@
        + "axiom dy_x : Dy x = 0\n"@
        + "axiom dt_t : Dt t = 1\n"@
        + "axiom dt_x : Dt x = 0\n"@
        + "axiom curl_grad (f : Int) : curl (grad f) = 0\n"@
        + "axiom div_curl (f : Int) : div (curl f) = 0\n"@
        + "axiom laplacian_def (f : Int) : laplacian f = div (grad f)\n"@
        + "axiom laplacian_cartesian (f : Int) : laplacian f = Dx (Dx f) + Dy (Dy f)\n\n"@
}

fn multivar_preamble_text() -> (r: String)
    ensures r@ == multivar_preamble(),
{
    let mut s = owned("opaque Dx : Int -> Int\n");
    s.append("opaque Dy : Int -> Int\n");
    s.append("opaque Dt : Int -> Int\n");
    s.append("opaque grad : Int -> Int\n");
    s.append("opaque div : Int -> Int\n");
    s.append("opaque curl : Int -> Int\n");
    s.append("opaque laplacian : Int -> Int\n");
    s.append("axiom clairaut_xy (f : Int) : Dx (Dy f) = Dy (Dx f)\n");
    s.append("axiom clairaut_xt (f : Int) : Dx (Dt f) = Dt (Dx f)\n");
    s.append("axiom clairaut_yt (f : Int) : Dy (Dt f) = Dt (Dy f)\n");
    s.append("axiom dx_sum (u v : Int) : Dx (u + v) = Dx u + Dx v\n");
    s.append("axiom dy_sum (u v : Int) : Dy (u + v) = Dy u + Dy v\n");
    s.append("axiom dt_sum (u v : Int) : Dt (u + v) = Dt u + Dt v\n");
    s.append("axiom dx_x : Dx x = 1\n");
    s.append("axiom dx_y : Dx y = 0\n");
    s.append("axiom dx_t : Dx t = 0\n");
    s.append("axiom dy_y : Dy y = 1\n");
    s.append("axiom dy_x : Dy x = 0\n");
    s.append("axiom dt_t : Dt t = 1\n");
    s.append("axiom dt_x : Dt x = 0\n");
    s.append("axiom curl_grad (f : Int) : curl (grad f) = 0\n");
    s.append("axiom div_curl (f : Int) : div (curl f) = 0\n");
    s.append("axiom laplacian_def (f : Int) : laplacian f = div (grad f)\n");
    s.append("axiom laplacian_cartesian (f : Int) : laplacian f = Dx (Dx f) + Dy (Dy f)\n\n");
    s
}

/// The Lean 4 preamble for the prob part of a goal.
pub open spec fn prob_preamble() -> Seq<char> {
    "opaque P : Int -> Int\n"@
        + "opaque prob_cond : Int -> Int -> Int\n"@
        + "axiom prob_total : P 1 = 1\n"@
        + "axiom prob_empty : P 0 = 0\n"@
        + "axiom prob_union (A B : Int) : P (A + B) = (P A + P B) + -(P (A * B))\n"@
        + "axiom prob_complement (A : Int) : P (-A) = 1 + -(P A)\n"@
        + "axiom prob_cond_def (A B : Int) : P (A * B) = prob_cond A B * P B\n"@
        + "axiom prob_cond_def_rev (A B : Int) : prob_cond A B * P B = P (A * B)\n"@
        + "axiom bayes_symmetric (A B : Int) : prob_cond A B * P B = prob_cond B A * P A\n"@
        + "axiom bayes_isolated (A B : Int) : prob_cond A B = (prob_cond B A * P A) / P B\n\n"@
}

fn prob_preamble_text() -> (r: String)
    ensures r@ == prob_preamble(),
{
    let mut s = owned("opaque P : Int -> Int\n");
    s.append("opaque prob_cond : Int -> Int -> Int\n");
    s.append("axiom prob_total : P 1 = 1\n");
    s.append("axiom prob_empty : P 0 = 0\n");
    s.append("axiom prob_union (A B : Int) : P (A + B) = (P A + P B) + -(P (A * B))\n");
    s.append("axiom prob_complement (A : Int) : P (-A) = 1 + -(P A)\n");
    s.append("axiom prob_cond_def (A B : Int) : P (A * B) = prob_cond A B * P B\n");
    s.append("axiom prob_cond_def_rev (A B : Int) : prob_cond A B * P B = P (A * B)\n");
    s.append("axiom bayes_symmetric (A B : Int) : prob_cond A B * P B = prob_cond B A * P A\n");
    s.append("axiom bayes_isolated (A B : Int) : prob_cond A B = (prob_cond B A * P A) / P B\n\n");
    s
}

/// The Lean 4 preamble for the matrix part of a goal.
pub open spec fn matrix_preamble() -> Seq<char> {
    "structure Matrix where (dummy : Nat) deriving Inhabited\n"@
        + "opaque I : Matrix\n"@
        + "opaque T : Matrix -> Matrix\n"@
        + "opaque tr : Matrix -> Matrix\n"@
        + "opaque det : Matrix -> Matrix\n"@
        + "opaque inv : Matrix -> Matrix\n"@
        + "opaque mat_add : Matrix -> Matrix -> Matrix\n"@
        + "opaque mat_mul : Matrix -> Matrix -> Matrix\n"@
        + "instance : Add Matrix := ⟨mat_add⟩\n"@
        + "instance : Mul Matrix := ⟨mat_mul⟩\n"@
        + "instance (n : Nat) : OfNat Matrix n := ⟨⟨n⟩⟩\n"@
        + "axiom transpose_add (A B : Matrix) : T (A + B) = T A + T B\n"@
        + "axiom transpose_mul (A B : Matrix) : T (A * B) = T B * T A\n"@
        + "axiom transpose_transpose (A : Matrix) : T (T A) = A\n"@
        + "axiom trace_add (A B : Matrix) : tr (A + B) = tr A + tr B\n"@
        + "axiom trace_cyclic (A B : Matrix) : tr (A * B) = tr (B * A)\n"@
        + "axiom det_mul (A B : Matrix) : det (A * B) = det A * det B\n"@
        + "axiom det_ident : det I = 1\n"@
        + "axiom mat_mul_ident_right (A : Matrix) : A * I = A\n"@
        + "axiom mat_mul_ident_left (A : Matrix) : I * A = A\n"@
        + "axiom mat_mul_inv_right (A : Matrix) : A * inv A = I\n"@
        + "axiom mat_mul_inv_left (A : Matrix) : inv A * A = I\n"@
        + "axiom inv_mul (A B : Matrix) : inv (A * B) = inv B * inv A\n"@
        + "axiom inv_inv (A : Matrix) : inv (inv A) = A\n"@
        + "axiom mat_add_zero (A : Matrix) : A + 0 = A\n"@
        + "axiom mat_add_comm (A B : Matrix) : A + B = B + A\n"@
        + "axiom mat_add_assoc (A B C : Matrix) : (A + B) + C = A + (B + C)\n"@
        + "axiom mat_mul_assoc (A B C : Matrix) : (A * B) * C = A * (B * C)\n\n"@
}

fn matrix_preamble_text() -> (r: String)
    ensures r@ == matrix_preamble(),
{
    let mut s = owned("structure Matrix where (dummy : Nat) deriving Inhabited\n");
    s.append("opaque I : Matrix\n");
    s.append("opaque T : Matrix -> Matrix\n");
    s.append("opaque tr : Matrix -> Matrix\n");
    s.append("opaque det : Matrix -> Matrix\n");
    s.append("opaque inv : Matrix -> Matrix\n");
    s.append("opaque mat_add : Matrix -> Matrix -> Matrix\n");
    s.append("opaque mat_mul : Matrix -> Matrix -> Matrix\n");
    s.append("instance : Add Matrix := ⟨mat_add⟩\n");
    s.append("instance : Mul Matrix := ⟨mat_mul⟩\n");
    s.append("instance (n : Nat) : OfNat Matrix n := ⟨⟨n⟩⟩\n");
    s.append("axiom transpose_add (A B : Matrix) : T (A + B) = T A + T B\n");
    s.append("axiom transpose_mul (A B : Matrix) : T (A * B) = T B * T A\n");
    s.append("axiom transpose_transpose (A : Matrix) : T (T A) = A\n");
    s.append("axiom trace_add (A B : Matrix) : tr (A + B) = tr A + tr B\n");
    s.append("axiom trace_cyclic (A B : Matrix) : tr (A * B) = tr (B * A)\n");
    s.append("axiom det_mul (A B : Matrix) : det (A * B) = det A * det B\n");
    s.append("axiom det_ident : det I = 1\n");
    s.append("axiom mat_mul_ident_right (A : Matrix) : A * I = A\n");
    s.append("axiom mat_mul_ident_left (A : Matrix) : I * A = A\n");
    s.append("axiom mat_mul_inv_right (A : Matrix) : A * inv A = I\n");
    s.append("axiom mat_mul_inv_left (A : Matrix) : inv A * A = I\n");
    s.append("axiom inv_mul (A B : Matrix) : inv (A * B) = inv B * inv A\n");
    s.append("axiom inv_inv (A : Matrix) : inv (inv A) = A\n");
    s.append("axiom mat_add_zero (A : Matrix) : A + 0 = A\n");
    s.append("axiom mat_add_comm (A B : Matrix) : A + B = B + A\n");
    s.append("axiom mat_add_assoc (A B C : Matrix) : (A + B) + C = A + (B + C)\n");
    s.append("axiom mat_mul_assoc (A B C : Matrix) : (A * B) * C = A * (B * C)\n\n");
    s
}

/// The Lean 4 preamble for the order part of a goal.
pub open spec fn order_preamble() -> Seq<char> {
    "opaque abs : Int -> Int\n"@
        + "axiom le_refl (x : Int) : (x <= x) = true\n"@
        + "axiom square_nonneg (x : Int) : (0 <= (x * x)) = true\n"@
        + "axiom le_add_right (x y z : Int) : (x <= y) = ((x + z) <= (y + z))\n"@
        + "axiom abs_triangle (x y : Int) : (abs (x + y) <= (abs x + abs y)) = true\n\n"@
}

fn order_preamble_text() -> (r: String)
    ensures r@ == order_preamble(),
{
    let mut s = owned("opaque abs : Int -> Int\n");
    s.append("axiom le_refl (x : Int) : (x <= x) = true\n");
    s.append("axiom square_nonneg (x : Int) : (0 <= (x * x)) = true\n");
    s.append("axiom le_add_right (x y z : Int) : (x <= y) = ((x + z) <= (y + z))\n");
    s.append("axiom abs_triangle (x y : Int) : (abs (x + y) <= (abs x + abs y)) = true\n\n");
    s
}

/// The Lean 4 preamble for the factoring part of a goal.
pub open spec fn factoring_preamble() -> Seq<char> {
    "axiom diff_squares (x y : Int) : ((x + -y) * (x + y)) = ((x * x) + -(y * y))\n"@
        + "axiom factor_diff_squares (x y : Int) : ((x * x) + -(y * y)) = ((x + -y) * (x + y))\n"@
        + "axiom diff_cubes (x y : Int) : ((x + -y) * (((x * x) + (x * y)) + (y * y))) = (((x * x * x) + -(y * y * y)))\n"@
        + "axiom factor_common_right (x y z : Int) : ((x * z) + (y * z)) = ((x + y) * z)\n"@
        + "axiom factor_common_left (x y z : Int) : ((z * x) + (z * y)) = (z * (x + y))\n\n"@
}

fn factoring_preamble_text() -> (r: String)
    ensures r@ == factoring_preamble(),
{
    let mut s = owned("axiom diff_squares (x y : Int) : ((x + -y) * (x + y)) = ((x * x) + -(y * y))\n");
    s.append("axiom factor_diff_squares (x y : Int) : ((x * x) + -(y * y)) = ((x + -y) * (x + y))\n");
    s.append("axiom diff_cubes (x y : Int) : ((x + -y) * (((x * x) + (x * y)) + (y * y))) = (((x * x * x) + -(y * y * y)))\n");
    s.append("axiom factor_common_right (x y z : Int) : ((x * z) + (y * z)) = ((x + y) * z)\n");
    s.append("axiom factor_common_left (x y z : Int) : ((z * x) + (z * y)) = (z * (x + y))\n\n");
    s
}

/// The banner and options at the top of the file.
pub open spec fn banner(name: Seq<char>) -> Seq<char> {
    "-- ========================================================\n"@
        + "-- AXIOMATIC AUTONOMOUS THEOREM DISCOVERY: "@ + name + "\n"@
        + "-- Machine-certified proof synthesized via MCTS & Neurosymbolic Kernel\n"@
        + "-- Formally verified by the Lean 4 proof assistant kernel\n"@
        + "-- ========================================================\n\n"@
        + "set_option linter.unusedVariables false\n\n"@
}

fn banner_text(name: &str) -> (r: String)
    ensures r@ == banner(name@),
{
    let mut s = owned("-- ========================================================\n");
    s.append("-- AXIOMATIC AUTONOMOUS THEOREM DISCOVERY: ");
    s.append(name);
    s.append("\n");
    s.append("-- Machine-certified proof synthesized via MCTS & Neurosymbolic Kernel\n");
    s.append("-- Formally verified by the Lean 4 proof assistant kernel\n");
    s.append("-- ========================================================\n\n");
    s.append("set_option linter.unusedVariables false\n\n");
    s
}

/// A symbol occurs on either side of the goal.
pub open spec fn mentions(e: SEquality, sym: Seq<char>) -> bool {
    contains_sym(e.lhs, sym) || contains_sym(e.rhs, sym)
}

fn mentions_exec(e: &Equality, sym: &str) -> (r: bool)
    ensures r == mentions(e@, sym@),
{
    e.lhs.contains_symbol(sym) || e.rhs.contains_symbol(sym)
}

/// `p` begins `s`.
pub open spec fn starts_with(s: Seq<char>, p: Seq<char>) -> bool {
    p.len() <= s.len() && s.take(p.len() as int) == p
}

fn starts_with_exec(s: &str, p: &str) -> (r: bool)
    ensures r == starts_with(s@, p@),
{
    let n = s.unicode_len();
    let m = p.unicode_len();
    if m > n {
        return false;
    }
    let mut i: usize = 0;
    while i < m
        invariant
            n == s@.len(), m == p@.len(), m <= n, i <= m,
            forall|k: int| 0 <= k < i ==> s@[k] == p@[k],
        decreases m - i,
    {
        if s.get_char(i) != p.get_char(i) {
            assert(s@.take(m as int)[i as int] != p@[i as int]);
            return false;
        }
        i += 1;
    }
    assert(s@.take(m as int) =~= p@);
    true
}

/// A rewrite step of the history uses a rule whose name begins with one of the prefixes.
pub open spec fn uses_rule_prefix(h: Seq<(STactic, Seq<char>)>, ps: Seq<Seq<char>>) -> bool {
    exists|i: int, j: int| 0 <= i < h.len() && 0 <= j < ps.len() && #[trigger] rule_with_prefix(h[i].0, ps[j])
}

pub open spec fn rule_with_prefix(t: STactic, p: Seq<char>) -> bool {
    match t {
        STactic::RewriteLhs(r) => starts_with(r, p),
        STactic::RewriteRhs(r) => starts_with(r, p),
        _ => false,
    }
}

fn history_uses_prefix(h: &Vec<(crate::kernel::Tactic, String)>, ps: &Vec<&str>) -> (r: bool)
    ensures r == uses_rule_prefix(hist_view(h@), ps@.map_values(|p: &str| p@)),
{
    let ghost hv = hist_view(h@);
    let ghost pv = ps@.map_values(|p: &str| p@);
    let mut i: usize = 0;
    while i < h.len()
        invariant
            i <= h.len(),
            hv == hist_view(h@),
            pv == ps@.map_values(|p: &str| p@),
            forall|a: int, b: int| 0 <= a < i && 0 <= b < pv.len() ==> !#[trigger] rule_with_prefix(hv[a].0, pv[b]),
        decreases h.len() - i,
    {
        let mut j: usize = 0;
        while j < ps.len()
            invariant
                i < h.len(), j <= ps.len(),
                hv == hist_view(h@),
                pv == ps@.map_values(|p: &str| p@),
                forall|a: int, b: int| 0 <= a < i && 0 <= b < pv.len() ==> !#[trigger] rule_with_prefix(hv[a].0, pv[b]),
                forall|b: int| 0 <= b < j ==> !#[trigger] rule_with_prefix(hv[i as int].0, pv[b]),
            decreases ps.len() - j,
        {
            assert(hv[i as int].0 == h@[i as int].0@);
            let hit = match &h[i].0 {
                crate::kernel::Tactic::RewriteLhs(r) => starts_with_exec(r.as_str(), ps[j]),
                crate::kernel::Tactic::RewriteRhs(r) => starts_with_exec(r.as_str(), ps[j]),
                _ => false,
            };
            if hit {
                assert(rule_with_prefix(hv[i as int].0, pv[j as int]));
                return true;
            }
            j += 1;
        }
        i += 1;
    }
    false
}

/// The goal mentions a negation or a negative numeral.
pub open spec fn has_negation(t: STerm) -> bool
    decreases t,
{
    match t {
        STerm::Const(s) => s.len() > 0 && s[0] == '-',
        STerm::Func(op, args) => op == "-"@ || exists|i: int| #![trigger args[i]] 0 <= i < args.len() && has_negation(args[i]),
        STerm::Var(_) => false,
    }
}

#[verifier::loop_isolation(false)]
fn has_negation_exec(t: &Term) -> (r: bool)
    ensures r == has_negation(t@),
    decreases t,
{
    proof { lemma_view(*t); }
    match t {
        Term::Const(s) => s.unicode_len() > 0 && s.get_char(0) == '-',
        Term::Func(op, args) => {
            proof { lemma_view_func(*t); }
            if str_eq(op.as_str(), "-") {
                return true;
            }
            let mut i: usize = 0;
            while i < args.len()
                invariant
                    i <= args.len(),
                    forall|j: int| 0 <= j < i ==> !has_negation(#[trigger] args@[j]@),
                decreases args.len() - i,
            {
                proof { lemma_decreases_arg(*t, i as int); }
                if has_negation_exec(&args[i]) {
                    proof { assert(t@->Func_1[i as int] == args@[i as int]@); }
                    return true;
                }
                i += 1;
            }
            proof {
                assert forall|j: int| 0 <= j < t@->Func_1.len() implies !has_negation(#[trigger] t@->Func_1[j]) by {
                    assert(t@->Func_1[j] == args@[j]@);
                }
            }
            false
        },
        Term::Var(_) => false,
    }
}


/// The facts about a goal and its proof that decide the preamble and the type of the variables.
#[derive(Clone, Copy)]
pub struct ExportFlags {
    pub imaginary: bool,
    pub calculus: bool,
    pub multivariable: bool,
    pub probability: bool,
    pub matrix: bool,
    pub order: bool,
    pub factoring: bool,
    pub boolean: bool,
}

/// The symbols of a goal that may name variables: not numerals and not boolean constants.
pub open spec fn symbol_names(e: SEquality) -> Set<Seq<char>> {
    symbol_set(e.lhs).union(symbol_set(e.rhs)).filter(|s: Seq<char>| parse_i64_spec(s) is None && s != "true"@ && s != "false"@)
}

pub open spec fn export_flags(e: SEquality, h: Seq<(STactic, Seq<char>)>) -> ExportFlags {
    ExportFlags {
        imaginary: symbol_names(e).contains("i"@),
        calculus: mentions(e, "D"@) || mentions(e, "Int"@) || mentions(e, "exp"@) || mentions(e, "sin"@)
            || mentions(e, "cos"@) || mentions(e, "sinh"@) || mentions(e, "cosh"@),
        multivariable: mentions(e, "Dx"@) || mentions(e, "Dy"@) || mentions(e, "Dt"@) || mentions(e, "grad"@)
            || mentions(e, "div"@) || mentions(e, "curl"@) || mentions(e, "laplacian"@),
        probability: mentions(e, "P"@) || mentions(e, "cond"@),
        matrix: mentions(e, "T"@) || mentions(e, "tr"@) || mentions(e, "det"@) || mentions(e, "inv"@) || mentions(e, "I"@)
            || uses_rule_prefix(h, seq!["transpose_"@, "trace_"@, "det_"@, "mat_"@, "inv_"@]),
        order: mentions(e, "<="@) || mentions(e, "<"@) || mentions(e, "abs"@)
            || uses_rule_prefix(h, seq!["le_"@, "square_nonneg"@, "abs_"@]),
        factoring: uses_rule_prefix(h, seq!["diff_"@, "factor_"@]),
        boolean: is_bool_eq(e),
    }
}

/// Whether a symbol is declared by one of the preambles the goal needs, and so is no variable.
pub open spec fn declared(f: ExportFlags, s: Seq<char>) -> bool {
    ||| f.imaginary && s == "i"@
    ||| f.calculus && (s == "D"@ || s == "Int"@ || s == "Integral"@ || s == "exp"@ || s == "sin"@ || s == "cos"@
            || s == "sinh"@ || s == "cosh"@)
    ||| f.multivariable && (s == "Dx"@ || s == "Dy"@ || s == "Dt"@ || s == "grad"@ || s == "div"@ || s == "curl"@
            || s == "laplacian"@)
    ||| f.probability && (s == "P"@ || s == "cond"@ || s == "U"@)
    ||| f.matrix && (s == "T"@ || s == "tr"@ || s == "det"@ || s == "inv"@ || s == "I"@)
    ||| f.order && (s == "abs"@ || s == "<="@ || s == "<"@)
}

/// The variables the theorem quantifies over, in ascending order.
pub open spec fn lean_vars(e: SEquality, f: ExportFlags) -> Seq<Seq<char>> {
    sorted_listing(symbol_names(e).filter(|s: Seq<char>| !declared(f, s)))
}

/// The Lean type of the variables.
pub open spec fn lean_type(e: SEquality, f: ExportFlags) -> Seq<char> {
    if f.boolean {
        "Bool"@
    } else if f.matrix {
        "Matrix"@
    } else if f.imaginary {
        "ComplexI"@
    } else if f.calculus || f.multivariable || f.probability || f.factoring || f.order || has_negation(e.lhs) || has_negation(e.rhs) {
        "Int"@
    } else {
        "Nat"@
    }
}

/// Names separated by single spaces.
pub open spec fn join_spaced(s: Seq<Seq<char>>) -> Seq<char>
    decreases s.len(),
{
    if s.len() == 0 {
        Seq::empty()
    } else if s.len() == 1 {
        s[0]
    } else {
        join_spaced(s.drop_last()) + " "@ + s.last()
    }
}

fn flags_of(goal: &Equality, state: &ProofState) -> (r: ExportFlags)
    ensures r == export_flags(goal@, state@.history),
{
    let names = symbol_list(goal);
    let imaginary = contains_name(&names, "i");
    let calculus = mentions_exec(goal, "D") || mentions_exec(goal, "Int") || mentions_exec(goal, "exp") || mentions_exec(goal, "sin")
        || mentions_exec(goal, "cos") || mentions_exec(goal, "sinh") || mentions_exec(goal, "cosh");
    let multivariable = mentions_exec(goal, "Dx") || mentions_exec(goal, "Dy") || mentions_exec(goal, "Dt") || mentions_exec(goal, "grad")
        || mentions_exec(goal, "div") || mentions_exec(goal, "curl") || mentions_exec(goal, "laplacian");
    let probability = mentions_exec(goal, "P") || mentions_exec(goal, "cond");
    let mp: Vec<&str> = vec!["transpose_", "trace_", "det_", "mat_", "inv_"];
    let matrix = mentions_exec(goal, "T") || mentions_exec(goal, "tr") || mentions_exec(goal, "det") || mentions_exec(goal, "inv")
        || mentions_exec(goal, "I") || history_uses_prefix(&state.proof_history, &mp);
    let op: Vec<&str> = vec!["le_", "square_nonneg", "abs_"];
    let order = mentions_exec(goal, "<=") || mentions_exec(goal, "<") || mentions_exec(goal, "abs")
        || history_uses_prefix(&state.proof_history, &op);
    let fp: Vec<&str> = vec!["diff_", "factor_"];
    let factoring = history_uses_prefix(&state.proof_history, &fp);
    let boolean = is_boolean_equality(goal);
    proof {
        assert(mp@.map_values(|p: &str| p@) =~= seq!["transpose_"@, "trace_"@, "det_"@, "mat_"@, "inv_"@]);
        assert(op@.map_values(|p: &str| p@) =~= seq!["le_"@, "square_nonneg"@, "abs_"@]);
        assert(fp@.map_values(|p: &str| p@) =~= seq!["diff_"@, "factor_"@]);
    }
    ExportFlags { imaginary, calculus, multivariable, probability, matrix, order, factoring, boolean }
}

/// Whether a strictly ascending list holds `name`.
fn contains_name(v: &Vec<String>, name: &str) -> (r: bool)
    ensures r == strings_view(v@).to_set().contains(name@),
{
    let mut i: usize = 0;
    while i < v.len()
        invariant
            i <= v.len(),
            forall|j: int| 0 <= j < i ==> #[trigger] v@[j]@ != name@,
        decreases v.len() - i,
    {
        if str_eq(v[i].as_str(), name) {
            assert(strings_view(v@)[i as int] == name@);
            assert(strings_view(v@).contains(name@));
            return true;
        }
        i += 1;
    }
    proof {
        if strings_view(v@).to_set().contains(name@) {
            let j = choose|j: int| 0 <= j < strings_view(v@).len() && strings_view(v@)[j] == name@;
            assert(v@[j]@ == name@);
        }
    }
    false
}

/// The possible variable names of a goal, ascending.
fn symbol_list(goal: &Equality) -> (r: Vec<String>)
    ensures strictly_sorted(strings_view(r@)), strings_view(r@).to_set() == symbol_names(goal@),
{
    let mut v = goal.lhs.extract_symbols();
    let rhs = goal.rhs.extract_symbols();
    let ghost left = strings_view(v@).to_set();
    let mut i: usize = 0;
    while i < rhs.len()
        invariant
            i <= rhs.len(),
            strictly_sorted(strings_view(v@)),
            strings_view(v@).to_set() == left.union(strings_view(rhs@).take(i as int).to_set()),
        decreases rhs.len() - i,
    {
        crate::strings::insert_sorted(&mut v, rhs[i].clone());
        proof {
            assert(strings_view(rhs@).take(i + 1) =~= strings_view(rhs@).take(i as int).push(rhs@[i as int]@));
            crate::strings::lemma_to_set_push(strings_view(rhs@).take(i as int), rhs@[i as int]@);
            assert(strings_view(v@).to_set() =~= left.union(strings_view(rhs@).take(i + 1).to_set()));
        }
        i += 1;
    }
    proof { assert(strings_view(rhs@).take(i as int) =~= strings_view(rhs@)); }
    let all = clone_strings(&v);
    let ghost full = strings_view(all@).to_set();
    let mut k: usize = 0;
    while k < all.len()
        invariant
            k <= all.len(),
            full == strings_view(all@).to_set(),
            strictly_sorted(strings_view(v@)),
            strings_view(v@).to_set() == full.filter(|s: Seq<char>|
                (parse_i64_spec(s) is None && s != "true"@ && s != "false"@) || !strings_view(all@).take(k as int).contains(s)),
        decreases all.len() - k,
    {
        let ghost pre = strings_view(all@).take(k as int);
        let ghost cur = all@[k as int]@;
        proof {
            assert(strings_view(all@).take(k + 1) =~= pre.push(cur));
            assert forall|x: Seq<char>| strings_view(all@).take(k + 1).contains(x) <==> (pre.contains(x) || x == cur) by {
                crate::strings::lemma_to_set_push(pre, cur);
                assert(pre.push(cur).to_set().contains(x) == pre.push(cur).contains(x));
                assert(pre.to_set().contains(x) == pre.contains(x));
            }
            assert(strings_view(all@)[k as int] == cur);
            assert(full.contains(cur));
        }
        let a = all[k].as_str();
        if !(parse_i64(a).is_none() && !str_eq(a, "true") && !str_eq(a, "false")) {
            remove_name(&mut v, a);
        }
        proof {
            assert(strings_view(v@).to_set() =~= full.filter(|s: Seq<char>|
                (parse_i64_spec(s) is None && s != "true"@ && s != "false"@) || !strings_view(all@).take(k + 1).contains(s)));
        }
        k += 1;
    }
    proof {
        assert(strings_view(all@).take(k as int) =~= strings_view(all@));
        assert(strings_view(v@).to_set() =~= symbol_names(goal@));
    }
    v
}

/// Removes each name in `names` from an ascending list.
fn remove_all(v: &mut Vec<String>, names: &Vec<&str>)
    requires strictly_sorted(strings_view(old(v)@)),
    ensures
        strictly_sorted(strings_view(final(v)@)),
        strings_view(final(v)@).to_set() == strings_view(old(v)@).to_set().filter(|s: Seq<char>| !names@.map_values(|p: &str| p@).contains(s)),
{
    let ghost start = strings_view(v@).to_set();
    let ghost nv = names@.map_values(|p: &str| p@);
    let mut i: usize = 0;
    while i < names.len()
        invariant
            i <= names.len(),
            nv == names@.map_values(|p: &str| p@),
            strictly_sorted(strings_view(v@)),
            strings_view(v@).to_set() == start.filter(|s: Seq<char>| !nv.take(i as int).contains(s)),
        decreases names.len() - i,
    {
        remove_name(v, names[i]);
        proof {
            assert(nv.take(i + 1) =~= nv.take(i as int).push(names@[i as int]@));
            assert forall|x: Seq<char>| nv.take(i + 1).contains(x) <==> (nv.take(i as int).contains(x) || x == names@[i as int]@) by {
                crate::strings::lemma_to_set_push(nv.take(i as int), names@[i as int]@);
                assert(nv.take(i as int).push(names@[i as int]@).to_set().contains(x) == nv.take(i as int).push(names@[i as int]@).contains(x));
                assert(nv.take(i as int).to_set().contains(x) == nv.take(i as int).contains(x));
            }
            assert(strings_view(v@).to_set() =~= start.filter(|s: Seq<char>| !nv.take(i + 1).contains(s)));
        }
        i += 1;
    }
    assert(nv.take(i as int) =~= nv);
}


/// Whether `x` is one of the names.
pub open spec fn among(x: Seq<char>, names: Seq<Seq<char>>) -> bool {
    names.contains(x)
}

fn drop_imaginary(v: &mut Vec<String>)
    requires strictly_sorted(strings_view(old(v)@)),
    ensures
        strictly_sorted(strings_view(final(v)@)),
        forall|x: Seq<char>| strings_view(final(v)@).to_set().contains(x) <==>
            (strings_view(old(v)@).to_set().contains(x) && !(x == "i"@)),
{
    let names: Vec<&str> = vec!["i"];
    let ghost q = seq!["i"@];
    assert(names@.map_values(|p: &str| p@) =~= q);
    remove_all(v, &names);
    proof {
        assert forall|x: Seq<char>| q.contains(x) <==> (x == "i"@) by {
            if q.contains(x) {
                let k = choose|k: int| 0 <= k < q.len() && q[k] == x;
            }
            if x == "i"@ { assert(q[0] == x); }
        }
    }
}

fn drop_calculus(v: &mut Vec<String>)
    requires strictly_sorted(strings_view(old(v)@)),
    ensures
        strictly_sorted(strings_view(final(v)@)),
        forall|x: Seq<char>| strings_view(final(v)@).to_set().contains(x) <==>
            (strings_view(old(v)@).to_set().contains(x) && !(x == "D"@ || x == "Int"@ || x == "Integral"@ || x == "exp"@ || x == "sin"@ || x == "cos"@ || x == "sinh"@ || x == "cosh"@)),
{
    let names: Vec<&str> = vec!["D", "Int", "Integral", "exp", "sin", "cos", "sinh", "cosh"];
    let ghost q = seq!["D"@, "Int"@, "Integral"@, "exp"@, "sin"@, "cos"@, "sinh"@, "cosh"@];
    assert(names@.map_values(|p: &str| p@) =~= q);
    remove_all(v, &names);
    proof {
        assert forall|x: Seq<char>| q.contains(x) <==> (x == "D"@ || x == "Int"@ || x == "Integral"@ || x == "exp"@ || x == "sin"@ || x == "cos"@ || x == "sinh"@ || x == "cosh"@) by {
            if q.contains(x) {
                let k = choose|k: int| 0 <= k < q.len() && q[k] == x;
            }
            if x == "D"@ { assert(q[0] == x); }
            if x == "Int"@ { assert(q[1] == x); }
            if x == "Integral"@ { assert(q[2] == x); }
            if x == "exp"@ { assert(q[3] == x); }
            if x == "sin"@ { assert(q[4] == x); }
            if x == "cos"@ { assert(q[5] == x); }
            if x == "sinh"@ { assert(q[6] == x); }
            if x == "cosh"@ { assert(q[7] == x); }
        }
    }
}

fn drop_multivariable(v: &mut Vec<String>)
    requires strictly_sorted(strings_view(old(v)@)),
    ensures
        strictly_sorted(strings_view(final(v)@)),
        forall|x: Seq<char>| strings_view(final(v)@).to_set().contains(x) <==>
            (strings_view(old(v)@).to_set().contains(x) && !(x == "Dx"@ || x == "Dy"@ || x == "Dt"@ || x == "grad"@ || x == "div"@ || x == "curl"@ || x == "laplacian"@)),
{
    let names: Vec<&str> = vec!["Dx", "Dy", "Dt", "grad", "div", "curl", "laplacian"];
    let ghost q = seq!["Dx"@, "Dy"@, "Dt"@, "grad"@, "div"@, "curl"@, "laplacian"@];
    assert(names@.map_values(|p: &str| p@) =~= q);
    remove_all(v, &names);
    proof {
        assert forall|x: Seq<char>| q.contains(x) <==> (x == "Dx"@ || x == "Dy"@ || x == "Dt"@ || x == "grad"@ || x == "div"@ || x == "curl"@ || x == "laplacian"@) by {
            if q.contains(x) {
                let k = choose|k: int| 0 <= k < q.len() && q[k] == x;
            }
            if x == "Dx"@ { assert(q[0] == x); }
            if x == "Dy"@ { assert(q[1] == x); }
            if x == "Dt"@ { assert(q[2] == x); }
            if x == "grad"@ { assert(q[3] == x); }
            if x == "div"@ { assert(q[4] == x); }
            if x == "curl"@ { assert(q[5] == x); }
            if x == "laplacian"@ { assert(q[6] == x); }
        }
    }
}

fn drop_probability(v: &mut Vec<String>)
    requires strictly_sorted(strings_view(old(v)@)),
    ensures
        strictly_sorted(strings_view(final(v)@)),
        forall|x: Seq<char>| strings_view(final(v)@).to_set().contains(x) <==>
            (strings_view(old(v)@).to_set().contains(x) && !(x == "P"@ || x == "cond"@ || x == "U"@)),
{
    let names: Vec<&str> = vec!["P", "cond", "U"];
    let ghost q = seq!["P"@, "cond"@, "U"@];
    assert(names@.map_values(|p: &str| p@) =~= q);
    remove_all(v, &names);
    proof {
        assert forall|x: Seq<char>| q.contains(x) <==> (x == "P"@ || x == "cond"@ || x == "U"@) by {
            if q.contains(x) {
                let k = choose|k: int| 0 <= k < q.len() && q[k] == x;
            }
            if x == "P"@ { assert(q[0] == x); }
            if x == "cond"@ { assert(q[1] == x); }
            if x == "U"@ { assert(q[2] == x); }
        }
    }
}

fn drop_matrix(v: &mut Vec<String>)
    requires strictly_sorted(strings_view(old(v)@)),
    ensures
        strictly_sorted(strings_view(final(v)@)),
        forall|x: Seq<char>| strings_view(final(v)@).to_set().contains(x) <==>
            (strings_view(old(v)@).to_set().contains(x) && !(x == "T"@ || x == "tr"@ || x == "det"@ || x == "inv"@ || x == "I"@)),
{
    let names: Vec<&str> = vec!["T", "tr", "det", "inv", "I"];
    let ghost q = seq!["T"@, "tr"@, "det"@, "inv"@, "I"@];
    assert(names@.map_values(|p: &str| p@) =~= q);
    remove_all(v, &names);
    proof {
        assert forall|x: Seq<char>| q.contains(x) <==> (x == "T"@ || x == "tr"@ || x == "det"@ || x == "inv"@ || x == "I"@) by {
            if q.contains(x) {
                let k = choose|k: int| 0 <= k < q.len() && q[k] == x;
            }
            if x == "T"@ { assert(q[0] == x); }
            if x == "tr"@ { assert(q[1] == x); }
            if x == "det"@ { assert(q[2] == x); }
            if x == "inv"@ { assert(q[3] == x); }
            if x == "I"@ { assert(q[4] == x); }
        }
    }
}

fn drop_order(v: &mut Vec<String>)
    requires strictly_sorted(strings_view(old(v)@)),
    ensures
        strictly_sorted(strings_view(final(v)@)),
        forall|x: Seq<char>| strings_view(final(v)@).to_set().contains(x) <==>
            (strings_view(old(v)@).to_set().contains(x) && !(x == "abs"@ || x == "<="@ || x == "<"@)),
{
    let names: Vec<&str> = vec!["abs", "<=", "<"];
    let ghost q = seq!["abs"@, "<="@, "<"@];
    assert(names@.map_values(|p: &str| p@) =~= q);
    remove_all(v, &names);
    proof {
        assert forall|x: Seq<char>| q.contains(x) <==> (x == "abs"@ || x == "<="@ || x == "<"@) by {
            if q.contains(x) {
                let k = choose|k: int| 0 <= k < q.len() && q[k] == x;
            }
            if x == "abs"@ { assert(q[0] == x); }
            if x == "<="@ { assert(q[1] == x); }
            if x == "<"@ { assert(q[2] == x); }
        }
    }
}

fn variables_of(goal: &Equality, f: ExportFlags) -> (r: Vec<String>)
    ensures strings_view(r@) == lean_vars(goal@, f),
{
    let mut v = symbol_list(goal);
    let ghost s0 = strings_view(v@).to_set();

    if f.imaginary {
        drop_imaginary(&mut v);
    }
    let ghost s1 = strings_view(v@).to_set();
    assert(forall|x: Seq<char>| s1.contains(x) <==> (s0.contains(x) && !(f.imaginary && (x == "i"@))));

    if f.calculus {
        drop_calculus(&mut v);
    }
    let ghost s2 = strings_view(v@).to_set();
    assert(forall|x: Seq<char>| s2.contains(x) <==> (s1.contains(x) && !(f.calculus && (x == "D"@ || x == "Int"@ || x == "Integral"@ || x == "exp"@ || x == "sin"@ || x == "cos"@ || x == "sinh"@ || x == "cosh"@))));

    if f.multivariable {
        drop_multivariable(&mut v);
    }
    let ghost s3 = strings_view(v@).to_set();
    assert(forall|x: Seq<char>| s3.contains(x) <==> (s2.contains(x) && !(f.multivariable && (x == "Dx"@ || x == "Dy"@ || x == "Dt"@ || x == "grad"@ || x == "div"@ || x == "curl"@ || x == "laplacian"@))));

    if f.probability {
        drop_probability(&mut v);
    }
    let ghost s4 = strings_view(v@).to_set();
    assert(forall|x: Seq<char>| s4.contains(x) <==> (s3.contains(x) && !(f.probability && (x == "P"@ || x == "cond"@ || x == "U"@))));

    if f.matrix {
        drop_matrix(&mut v);
    }
    let ghost s5 = strings_view(v@).to_set();
    assert(forall|x: Seq<char>| s5.contains(x) <==> (s4.contains(x) && !(f.matrix && (x == "T"@ || x == "tr"@ || x == "det"@ || x == "inv"@ || x == "I"@))));

    if f.order {
        drop_order(&mut v);
    }
    let ghost s6 = strings_view(v@).to_set();
    assert(forall|x: Seq<char>| s6.contains(x) <==> (s5.contains(x) && !(f.order && (x == "abs"@ || x == "<="@ || x == "<"@))));

    proof {
        let target = symbol_names(goal@).filter(|s: Seq<char>| !declared(f, s));
        assert(strings_view(v@).to_set() =~= target);
        lemma_sorted_listing(strings_view(v@));
    }
    v
}


fn join_spaced_text(v: &Vec<String>) -> (r: String)
    ensures r@ == join_spaced(strings_view(v@)),
{
    let ghost sv = strings_view(v@);
    let mut out = String::new();
    let mut i: usize = 0;
    assert(sv.take(0) =~= Seq::<Seq<char>>::empty());
    while i < v.len()
        invariant
            i <= v.len(),
            sv == strings_view(v@),
            out@ == join_spaced(sv.take(i as int)),
        decreases v.len() - i,
    {
        proof {
            assert(sv.take(i + 1).drop_last() =~= sv.take(i as int));
            assert(sv.take(i + 1).last() == v@[i as int]@);
            if i == 0 {
                assert(sv.take(1)[0] == v@[0]@);
            }
        }
        if i > 0 {
            out.append(" ");
        }
        out.append(v[i].as_str());
        proof {
            if i == 0 {
                assert(out@ =~= v@[0]@);
            }
        }
        i += 1;
    }
    assert(sv.take(i as int) =~= sv);
    out
}

/// What follows the first `": "` of `s` at or after position `i`.
pub open spec fn colon_from(s: Seq<char>, i: int) -> Option<Seq<char>>
    decreases s.len() - i,
{
    if i < 0 || i + 1 >= s.len() {
        None
    } else if s[i] == ':' && s[i + 1] == ' ' {
        Some(s.skip(i + 2))
    } else {
        colon_from(s, i + 1)
    }
}

/// The equality that a step's description ends with, after its first `": "`, if it parses.
pub open spec fn parsed_desc(desc: Seq<char>) -> Option<SEquality> {
    match colon_from(desc, 0) {
        Some(a) => match spec_parse_conjecture(a) {
            Ok(e) => Some(e),
            Err(_) => None,
        },
        None => None,
    }
}

fn after_colon(s: &str) -> (r: Option<String>)
    ensures
        match r {
            Some(t) => colon_from(s@, 0) == Some(t@),
            None => colon_from(s@, 0) is None,
        },
{
    let n = s.unicode_len();
    if n < 2 {
        return None;
    }
    let mut i: usize = 0;
    while i < n - 1
        invariant
            n == s@.len(), i <= n, n >= 2,
            colon_from(s@, 0) == colon_from(s@, i as int),
        decreases n - i,
    {
        if s.get_char(i) == ':' && s.get_char(i + 1) == ' ' {
            let rest = s.substring_char(i + 2, n);
            assert(s@.subrange(i + 2, n as int) =~= s@.skip(i + 2));
            return Some(owned(rest));
        }
        i += 1;
    }
    None
}

fn parse_desc(desc: &str) -> (r: Option<Equality>)
    ensures
        match r {
            Some(e) => parsed_desc(desc@) == Some(e@),
            None => parsed_desc(desc@) is None,
        },
{
    match after_colon(desc) {
        Some(a) => match parse_conjecture(a.as_str()) {
            Ok(e) => Some(e),
            Err(_) => None,
        },
        None => None,
    }
}

/// The `conv` navigation `arg k; ` for each position of a path, counted from 1.
pub open spec fn nav_text(path: Seq<int>) -> Seq<char>
    decreases path.len(),
{
    if path.len() == 0 {
        Seq::empty()
    } else {
        nav_text(path.drop_last()) + "arg "@ + nat_digits((path.last() + 1) as nat) + "; "@
    }
}

/// The tactic line of a rewrite of one side with the Lean lemma `rule`.
pub open spec fn rw_line(side: Seq<char>, rule: Seq<char>, path: Seq<int>) -> Seq<char> {
    if path.len() == 0 {
        "  try (first | (conv => "@ + side + "; rw ["@ + rule + "]) | (rw ["@ + rule + "]))\n"@
    } else {
        "  try (first | (conv => "@ + side + "; "@ + nav_text(path) + "rw ["@ + rule + "]) | (conv => "@ + side
            + "; rw ["@ + rule + "]) | (rw ["@ + rule + "]))\n"@
    }
}

pub open spec fn lean_rule_name(rule: Seq<char>, ty: Seq<char>) -> Seq<char> {
    if ty == "Int"@ { lean_int_name(rule) } else { lean_base_name(rule) }
}

/// The tactic lines for the steps of a history and the goal reached, as tracked from the
/// descriptions of the steps.
pub open spec fn tactic_lines(goal: SEquality, h: Seq<(STactic, Seq<char>)>, ty: Seq<char>) -> (Seq<char>, Option<SEquality>)
    decreases h.len(),
{
    if h.len() == 0 {
        (Seq::empty(), Some(goal))
    } else {
        let prev = tactic_lines(goal, h.drop_last(), ty);
        let txt = prev.0;
        let cur = prev.1;
        let t = h.last().0;
        let desc = h.last().1;
        let parsed = parsed_desc(desc);
        let next = if parsed is Some { parsed } else { cur };
        match t {
            STactic::RewriteLhs(rule) => {
                let path = if cur is Some && parsed is Some { ast_path(cur->Some_0.lhs, parsed->Some_0.lhs) } else { Seq::empty() };
                (txt + rw_line("lhs"@, lean_rule_name(rule, ty), path), next)
            },
            STactic::RewriteRhs(rule) => {
                let path = if cur is Some && parsed is Some { ast_path(cur->Some_0.rhs, parsed->Some_0.rhs) } else { Seq::empty() };
                (txt + rw_line("rhs"@, lean_rule_name(rule, ty), path), next)
            },
            STactic::Symmetry => (txt + "  try symm\n"@, match cur {
                Some(c) => Some(SEquality { lhs: c.rhs, rhs: c.lhs }),
                None => None,
            }),
            STactic::Reflexivity => (txt + "  try rfl\n"@, cur),
            _ => (txt + "  -- "@ + desc + "\n"@, cur),
        }
    }
}

fn nav_of(path: &Vec<usize>) -> (r: String)
    requires forall|i: int| 0 <= i < path@.len() ==> path@[i] < usize::MAX,
    ensures r@ == nav_text(indices_view(path@)),
{
    let ghost pv = indices_view(path@);
    let mut nav = String::new();
    let mut i: usize = 0;
    assert(pv.take(0) =~= Seq::<int>::empty());
    while i < path.len()
        invariant
            i <= path.len(),
            pv == indices_view(path@),
            forall|k: int| 0 <= k < path@.len() ==> path@[k] < usize::MAX,
            nav@ == nav_text(pv.take(i as int)),
        decreases path.len() - i,
    {
        proof {
            assert(pv.take(i + 1).drop_last() =~= pv.take(i as int));
            assert(pv.take(i + 1).last() == path@[i as int] as int);
        }
        nav.append("arg ");
        nav.append(nat_str((path[i] + 1) as u64).as_str());
        nav.append("; ");
        i += 1;
    }
    assert(pv.take(i as int) =~= pv);
    nav
}

fn rw_line_text(side: &str, rule: &str, path: &Vec<usize>) -> (r: String)
    requires forall|i: int| 0 <= i < path@.len() ==> path@[i] < usize::MAX,
    ensures r@ == rw_line(side@, rule@, indices_view(path@)),
{
    let mut s = owned("  try (first | (conv => ");
    s.append(side);
    if path.len() == 0 {
        s.append("; rw [");
        s.append(rule);
        s.append("]) | (rw [");
        s.append(rule);
        s.append("]))\n");
    } else {
        s.append("; ");
        s.append(nav_of(path).as_str());
        s.append("rw [");
        s.append(rule);
        s.append("]) | (conv => ");
        s.append(side);
        s.append("; rw [");
        s.append(rule);
        s.append("]) | (rw [");
        s.append(rule);
        s.append("]))\n");
    }
    s
}


pub open spec fn opt_view(o: Option<Equality>) -> Option<SEquality> {
    match o {
        Some(e) => Some(e@),
        None => None,
    }
}

fn rewrite_line(side_lhs: bool, rule: &str, ty: &str, cur: &Option<Equality>, parsed: &Option<Equality>) -> (r: String)
    ensures
        r@ == rw_line(if side_lhs { "lhs"@ } else { "rhs"@ }, lean_rule_name(rule@, ty@),
            if opt_view(*cur) is Some && opt_view(*parsed) is Some {
                if side_lhs {
                    ast_path(opt_view(*cur)->Some_0.lhs, opt_view(*parsed)->Some_0.lhs)
                } else {
                    ast_path(opt_view(*cur)->Some_0.rhs, opt_view(*parsed)->Some_0.rhs)
                }
            } else {
                Seq::empty()
            }),
{
    let lean_rule = map_rule_to_lean_typed(rule, ty);
    let path = match (cur, parsed) {
        (Some(c), Some(n)) => if side_lhs { find_ast_path(&c.lhs, &n.lhs) } else { find_ast_path(&c.rhs, &n.rhs) },
        _ => {
            let v: Vec<usize> = Vec::new();
            assert(indices_view(v@) =~= Seq::empty());
            v
        },
    };
    rw_line_text(if side_lhs { "lhs" } else { "rhs" }, lean_rule.as_str(), &path)
}

fn tactic_block(goal: &Equality, h: &Vec<(crate::kernel::Tactic, String)>, ty: &str) -> (r: String)
    ensures r@ == tactic_lines(goal@, hist_view(h@), ty@).0,
{
    let ghost hv = hist_view(h@);
    let mut text = String::new();
    let mut cur: Option<Equality> = Some(goal.clone());
    let mut i: usize = 0;
    assert(hv.take(0) =~= Seq::<(STactic, Seq<char>)>::empty());
    while i < h.len()
        invariant
            i <= h.len(),
            hv == hist_view(h@),
            text@ == tactic_lines(goal@, hv.take(i as int), ty@).0,
            opt_view(cur) == tactic_lines(goal@, hv.take(i as int), ty@).1,
        decreases h.len() - i,
    {
        proof {
            assert(hv.take(i + 1).drop_last() =~= hv.take(i as int));
            assert(hv.take(i + 1).last() == hv[i as int]);
            assert(hv[i as int] == (h@[i as int].0@, h@[i as int].1@));
        }
        let desc = h[i].1.as_str();
        let parsed = parse_desc(desc);
        match &h[i].0 {
            crate::kernel::Tactic::RewriteLhs(rule) => {
                let line = rewrite_line(true, rule.as_str(), ty, &cur, &parsed);
                text.append(line.as_str());
                if parsed.is_some() {
                    cur = parsed;
                }
            },
            crate::kernel::Tactic::RewriteRhs(rule) => {
                let line = rewrite_line(false, rule.as_str(), ty, &cur, &parsed);
                text.append(line.as_str());
                if parsed.is_some() {
                    cur = parsed;
                }
            },
            crate::kernel::Tactic::Symmetry => {
                text.append("  try symm\n");
                cur = match cur {
                    Some(c) => Some(c.flip()),
                    None => None,
                };
            },
            crate::kernel::Tactic::Reflexivity => {
                text.append("  try rfl\n");
            },
            _ => {
                text.append("  -- ");
                text.append(desc);
                text.append("\n");
            },
        }
        i += 1;
    }
    assert(hv.take(i as int) =~= hv);
    text
}

/// The declarations and axioms for the symbols the goal and its proof use.
pub open spec fn preambles(f: ExportFlags) -> Seq<char> {
    (if f.imaginary { complex_preamble() } else { Seq::empty() })
        + (if f.calculus { calculus_preamble() } else { Seq::empty() })
        + (if f.multivariable { multivar_preamble() } else { Seq::empty() })
        + (if f.probability { prob_preamble() } else { Seq::empty() })
        + (if f.matrix { matrix_preamble() } else { Seq::empty() })
        + (if f.order { order_preamble() } else { Seq::empty() })
        + (if f.factoring { factoring_preamble() } else { Seq::empty() })
}

/// The statement of the theorem, quantified over its variables.
pub open spec fn theorem_line(name: Seq<char>, goal: SEquality, f: ExportFlags) -> Seq<char> {
    let ty = lean_type(goal, f);
    let vars = lean_vars(goal, f);
    let sig = if vars.len() == 0 { Seq::empty() } else { "("@ + join_spaced(vars) + " : "@ + ty + ") "@ };
    let rhs_text = if f.imaginary {
        "("@ + lean_term(goal.rhs, false) + " : ComplexI)"@
    } else {
        lean_term(goal.rhs, f.boolean)
    };
    "theorem "@ + name + " "@ + sig + ": "@ + lean_term(goal.lhs, f.boolean) + " = "@ + rhs_text + " := by\n"@
}

/// The closing tactics: reflexivity, then `decide` for booleans or `omega` for numbers.
pub open spec fn closing(f: ExportFlags) -> Seq<char> {
    "  try rfl\n"@ + (if f.boolean { "  try decide\n"@ } else { "  try omega\n"@ })
}

/// The complete Lean 4 file for the proof of `goal` recorded in `h`.
pub open spec fn lean_export(name: Seq<char>, goal: SEquality, h: Seq<(STactic, Seq<char>)>) -> Seq<char> {
    let f = export_flags(goal, h);
    banner(name) + preambles(f) + theorem_line(name, goal, f) + tactic_lines(goal, h, lean_type(goal, f)).0 + closing(f)
}

fn type_text(goal: &Equality, f: ExportFlags) -> (r: &'static str)
    ensures r@ == lean_type(goal@, f),
{
    if f.boolean {
        "Bool"
    } else if f.matrix {
        "Matrix"
    } else if f.imaginary {
        "ComplexI"
    } else if f.calculus || f.multivariable || f.probability || f.factoring || f.order
        || has_negation_exec(&goal.lhs) || has_negation_exec(&goal.rhs) {
        "Int"
    } else {
        "Nat"
    }
}

fn preambles_text(f: ExportFlags) -> (r: String)
    ensures r@ == preambles(f),
{
    let mut code = String::new();
    if f.imaginary {
        code.append(complex_preamble_text().as_str());
    }
    if f.calculus {
        code.append(calculus_preamble_text().as_str());
    }
    if f.multivariable {
        code.append(multivar_preamble_text().as_str());
    }
    if f.probability {
        code.append(prob_preamble_text().as_str());
    }
    if f.matrix {
        code.append(matrix_preamble_text().as_str());
    }
    if f.order {
        code.append(order_preamble_text().as_str());
    }
    if f.factoring {
        code.append(factoring_preamble_text().as_str());
    }
    assert(code@ =~= preambles(f));
    code
}

fn theorem_line_text(theorem_name: &str, goal: &Equality, f: ExportFlags) -> (r: String)
    ensures r@ == theorem_line(theorem_name@, goal@, f),
{
    let ty = type_text(goal, f);
    let vars = variables_of(goal, f);
    let mut code = owned("theorem ");
    code.append(theorem_name);
    code.append(" ");
    if vars.len() > 0 {
        code.append("(");
        code.append(join_spaced_text(&vars).as_str());
        code.append(" : ");
        code.append(ty);
        code.append(") ");
    }
    code.append(": ");
    code.append(term_to_lean_with_domain(&goal.lhs, f.boolean).as_str());
    code.append(" = ");
    if f.imaginary {
        code.append("(");
        code.append(term_to_lean_with_domain(&goal.rhs, false).as_str());
        code.append(" : ComplexI)");
    } else {
        code.append(term_to_lean_with_domain(&goal.rhs, f.boolean).as_str());
    }
    code.append(" := by\n");
    proof {
        if vars.len() == 0 {
            assert(strings_view(vars@).len() == 0);
        }
    }
    code
}

/// The Lean 4 file proving `goal` by the steps of `final_state`.
pub fn export_equality_to_lean4(theorem_name: &str, goal: &Equality, final_state: &ProofState) -> (r: String)
    ensures r@ == lean_export(theorem_name@, goal@, final_state@.history),
{
    let f = flags_of(goal, final_state);
    let mut code = banner_text(theorem_name);
    code.append(preambles_text(f).as_str());
    code.append(theorem_line_text(theorem_name, goal, f).as_str());
    let ty = type_text(goal, f);
    code.append(tactic_block(goal, &final_state.proof_history, ty).as_str());
    code.append("  try rfl\n");
    if f.boolean {
        code.append("  try decide\n");
    } else {
        code.append("  try omega\n");
    }
    code
}

/// The Lean 4 file for a finished proof state: its initial equality, or `x = x` when it has none.
pub fn export_to_lean4(theorem_name: &str, final_state: &ProofState) -> (r: String)
    ensures
        r@ == lean_export(theorem_name@,
            match final_state@.initial {
                Some(e) => e,
                None => SEquality { lhs: STerm::Const("x"@), rhs: STerm::Const("x"@) },
            },
            final_state@.history),
{
    match &final_state.initial_equality {
        Some(eq) => export_equality_to_lean4(theorem_name, eq, final_state),
        None => {
            let dummy = Equality::new(Term::constant("x"), Term::constant("x"));
            export_equality_to_lean4(theorem_name, &dummy, final_state)
        },
    }
}

} // verus!
