//! Substitutions, Robinson unification and rewriting with equations.
use vstd::prelude::*;
use crate::fol::{Term, STerm, Equality, SEquality, occurs, size, sizes, terms_view, lemma_view, lemma_view_func, lemma_decreases_arg, lemma_sizes_take, term_eq};
use crate::strings::{owned, str_eq};

verus! {

/// The value of a substitution: bindings in the order they were made.
pub type SSubst = Seq<(Seq<char>, STerm)>;

/// The first index at or after `k` that binds `v`, or -1.
pub open spec fn find_from(s: SSubst, v: Seq<char>, k: int) -> int
    decreases s.len() - k,
{
    if k < 0 || k >= s.len() {
        -1
    } else if s[k].0 == v {
        k
    } else {
        find_from(s, v, k + 1)
    }
}

/// The index that binds `v`, or -1 when `v` is unbound.
pub open spec fn find(s: SSubst, v: Seq<char>) -> int {
    find_from(s, v, 0)
}

/// Applies the bindings at indices `lo` and above, following each binding into its value.
pub open spec fn resolve_from(s: SSubst, t: STerm, lo: int) -> STerm
    decreases s.len() - lo, t
    when 0 <= lo <= s.len()
{
    match t {
        STerm::Var(v) => {
            let i = find(s, v);
            if lo <= i < s.len() {
                resolve_from(s, s[i].1, i + 1)
            } else {
                t
            }
        },
        STerm::Const(_) => t,
        STerm::Func(f, args) => STerm::Func(
            f,
            Seq::new(args.len(), |j: int| if 0 <= j < args.len() { resolve_from(s, args[j], lo) } else { t }),
        ),
    }
}

/// The term with the substitution applied until no bound variable is left.
pub open spec fn resolve(s: SSubst, t: STerm) -> STerm {
    resolve_from(s, t, 0)
}

/// Every variable of `t` bound in `s` is bound at index `lo` or later.
pub open spec fn above(s: SSubst, t: STerm, lo: int) -> bool {
    forall|v: Seq<char>| #[trigger] occurs(t, v) && find(s, v) >= 0 ==> find(s, v) >= lo
}

/// No variable of `t` is bound in `s`.
pub open spec fn free(s: SSubst, t: STerm) -> bool {
    forall|v: Seq<char>| #[trigger] occurs(t, v) ==> find(s, v) < 0
}

/// A well-formed substitution: each name is bound once, and the value of each binding
/// mentions only variables bound later (so that applying it terminates).
pub open spec fn wf_subst(s: SSubst) -> bool {
    &&& forall|i: int, j: int| 0 <= i < j < s.len() ==> (#[trigger] s[i]).0 != (#[trigger] s[j]).0
    &&& forall|i: int| 0 <= i < s.len() ==> above(s, (#[trigger] s[i]).1, i + 1)
}

/// Every variable of `t` is in `vs`.
pub open spec fn vars_in(t: STerm, vs: Set<Seq<char>>) -> bool {
    forall|v: Seq<char>| #[trigger] occurs(t, v) ==> vs.contains(v)
}

/// Every name bound, and every variable of every value, is in `vs`.
pub open spec fn subst_vars_in(s: SSubst, vs: Set<Seq<char>>) -> bool {
    forall|i: int| 0 <= i < s.len() ==> vs.contains((#[trigger] s[i]).0) && vars_in(s[i].1, vs)
}

pub open spec fn is_prefix(a: SSubst, b: SSubst) -> bool {
    a.len() <= b.len() && b.take(a.len() as int) == a
}

// ---------------------------------------------------------------------------
// Lookup
// ---------------------------------------------------------------------------

pub proof fn lemma_find_from(s: SSubst, v: Seq<char>, k: int)
    requires 0 <= k,
    ensures
        find_from(s, v, k) == -1 || (k <= find_from(s, v, k) < s.len() && s[find_from(s, v, k)].0 == v),
        find_from(s, v, k) == -1 ==> forall|j: int| k <= j < s.len() ==> (#[trigger] s[j]).0 != v,
        find_from(s, v, k) >= 0 ==> forall|j: int| k <= j < find_from(s, v, k) ==> (#[trigger] s[j]).0 != v,
    decreases s.len() - k,
{
    if k < s.len() && s[k].0 != v {
        lemma_find_from(s, v, k + 1);
    }
}

pub proof fn lemma_find(s: SSubst, v: Seq<char>)
    ensures
        find(s, v) == -1 || (0 <= find(s, v) < s.len() && s[find(s, v)].0 == v),
        find(s, v) == -1 <==> forall|j: int| 0 <= j < s.len() ==> (#[trigger] s[j]).0 != v,
        find(s, v) >= 0 ==> forall|j: int| 0 <= j < find(s, v) ==> (#[trigger] s[j]).0 != v,
{
    lemma_find_from(s, v, 0);
}

/// Lookups in a longer substitution agree with the prefix on the names the prefix binds.
pub proof fn lemma_find_prefix(a: SSubst, b: SSubst, v: Seq<char>)
    requires is_prefix(a, b),
    ensures
        find(a, v) >= 0 ==> find(b, v) == find(a, v),
        find(a, v) < 0 ==> (find(b, v) < 0 || find(b, v) >= a.len()),
{
    lemma_find(a, v);
    lemma_find(b, v);
    assert forall|j: int| 0 <= j < a.len() implies #[trigger] b[j] == a[j] by {
        assert(b.take(a.len() as int)[j] == b[j]);
    }
    if find(a, v) >= 0 {
        let i = find(a, v);
        assert(b[i].0 == v);
        if find(b, v) < i {
            assert(b[find(b, v)] == a[find(b, v)]);
        }
    } else if find(b, v) >= 0 && find(b, v) < a.len() {
        assert(b[find(b, v)] == a[find(b, v)]);
    }
}

pub proof fn lemma_prefix_wf(a: SSubst, b: SSubst)
    requires is_prefix(a, b), wf_subst(b),
    ensures wf_subst(a),
{
    assert forall|j: int| 0 <= j < a.len() implies #[trigger] b[j] == a[j] by {
        assert(b.take(a.len() as int)[j] == b[j]);
    }
    assert forall|i: int| 0 <= i < a.len() implies above(a, (#[trigger] a[i]).1, i + 1) by {
        assert(above(b, b[i].1, i + 1));
        assert forall|v: Seq<char>| #[trigger] occurs(a[i].1, v) && find(a, v) >= 0 implies find(a, v) >= i + 1 by {
            lemma_find_prefix(a, b, v);
        }
    }
}

// ---------------------------------------------------------------------------
// Resolution
// ---------------------------------------------------------------------------

pub proof fn lemma_occurs_arg(f: Seq<char>, args: Seq<STerm>, j: int, v: Seq<char>)
    requires 0 <= j < args.len(), occurs(args[j], v),
    ensures occurs(STerm::Func(f, args), v),
{
    assert(STerm::Func(f, args)->Func_1[j] == args[j]);
}

/// Resolution from a lower bound agrees with full resolution when no variable is bound below it.
pub proof fn lemma_resolve_lo(s: SSubst, t: STerm, lo: int)
    requires 0 <= lo <= s.len(), above(s, t, lo),
    ensures resolve_from(s, t, lo) == resolve_from(s, t, 0),
    decreases t,
{
    match t {
        STerm::Var(v) => {
            lemma_find(s, v);
            assert(occurs(t, v));
        },
        STerm::Const(_) => {},
        STerm::Func(f, args) => {
            assert forall|j: int| 0 <= j < args.len() implies resolve_from(s, #[trigger] args[j], lo) == resolve_from(s, args[j], 0) by {
                assert forall|v: Seq<char>| #[trigger] occurs(args[j], v) && find(s, v) >= 0 implies find(s, v) >= lo by {
                    lemma_occurs_arg(f, args, j, v);
                }
                lemma_resolve_lo(s, args[j], lo);
            }
            assert(resolve_from(s, t, lo)->Func_1 =~= resolve_from(s, t, 0)->Func_1);
        },
    }
}

/// The full resolution of a variable bound at `i` is the full resolution of its value.
pub proof fn lemma_resolve_var(s: SSubst, v: Seq<char>)
    requires wf_subst(s),
    ensures
        find(s, v) >= 0 ==> resolve(s, STerm::Var(v)) == resolve(s, s[find(s, v)].1),
        find(s, v) < 0 ==> resolve(s, STerm::Var(v)) == STerm::Var(v),
{
    lemma_find(s, v);
    if find(s, v) >= 0 {
        let i = find(s, v);
        assert(above(s, s[i].1, i + 1));
        lemma_resolve_lo(s, s[i].1, i + 1);
    }
}

/// The resolution of a term mentions no bound variable.
pub proof fn lemma_resolve_free(s: SSubst, t: STerm, lo: int)
    requires wf_subst(s), 0 <= lo <= s.len(), above(s, t, lo),
    ensures free(s, resolve_from(s, t, lo)),
    decreases s.len() - lo, t,
{
    match t {
        STerm::Var(v) => {
            lemma_find(s, v);
            let i = find(s, v);
            if lo <= i < s.len() {
                assert(above(s, s[i].1, i + 1));
                lemma_resolve_free(s, s[i].1, i + 1);
            } else {
                assert forall|w: Seq<char>| #[trigger] occurs(resolve_from(s, t, lo), w) implies find(s, w) < 0 by {
                    assert(w == v);
                }
            }
        },
        STerm::Const(_) => {},
        STerm::Func(f, args) => {
            let r = resolve_from(s, t, lo);
            assert forall|w: Seq<char>| #[trigger] occurs(r, w) implies find(s, w) < 0 by {
                let j = choose|j: int| 0 <= j < r->Func_1.len() && occurs(r->Func_1[j], w);
                assert forall|v: Seq<char>| #[trigger] occurs(args[j], v) && find(s, v) >= 0 implies find(s, v) >= lo by {
                    lemma_occurs_arg(f, args, j, v);
                }
                lemma_resolve_free(s, args[j], lo);
            }
        },
    }
}

/// Resolving a term without bound variables leaves it unchanged.
pub proof fn lemma_resolve_id(s: SSubst, t: STerm, lo: int)
    requires 0 <= lo <= s.len(), free(s, t),
    ensures resolve_from(s, t, lo) == t,
    decreases t,
{
    match t {
        STerm::Var(v) => {
            assert(occurs(t, v));
        },
        STerm::Const(_) => {},
        STerm::Func(f, args) => {
            assert forall|j: int| 0 <= j < args.len() implies resolve_from(s, #[trigger] args[j], lo) == args[j] by {
                assert forall|v: Seq<char>| #[trigger] occurs(args[j], v) implies find(s, v) < 0 by {
                    lemma_occurs_arg(f, args, j, v);
                }
                lemma_resolve_id(s, args[j], lo);
            }
            assert(resolve_from(s, t, lo)->Func_1 =~= args);
        },
    }
}

/// Resolution does not bring in variables from outside the substitution and the term.
pub proof fn lemma_resolve_vars(s: SSubst, t: STerm, lo: int, vs: Set<Seq<char>>)
    requires 0 <= lo <= s.len(), vars_in(t, vs), subst_vars_in(s, vs),
    ensures vars_in(resolve_from(s, t, lo), vs),
    decreases s.len() - lo, t,
{
    match t {
        STerm::Var(v) => {
            lemma_find(s, v);
            let i = find(s, v);
            if lo <= i < s.len() {
                lemma_resolve_vars(s, s[i].1, i + 1, vs);
            } else {
                assert(occurs(t, v));
            }
        },
        STerm::Const(_) => {},
        STerm::Func(f, args) => {
            let r = resolve_from(s, t, lo);
            assert forall|w: Seq<char>| #[trigger] occurs(r, w) implies vs.contains(w) by {
                let j = choose|j: int| 0 <= j < r->Func_1.len() && occurs(r->Func_1[j], w);
                assert forall|v: Seq<char>| #[trigger] occurs(args[j], v) implies vs.contains(v) by {
                    lemma_occurs_arg(f, args, j, v);
                }
                lemma_resolve_vars(s, args[j], lo, vs);
            }
        },
    }
}

/// Resolving with a prefix first and then with the whole gives what resolving with the whole gives.
pub proof fn lemma_resolve_prefix(a: SSubst, b: SSubst, t: STerm, lo: int)
    requires is_prefix(a, b), wf_subst(b), 0 <= lo <= a.len(), above(a, t, lo),
    ensures resolve(b, resolve_from(a, t, lo)) == resolve_from(b, t, lo),
    decreases a.len() - lo, t,
{
    lemma_prefix_wf(a, b);
    assert forall|j: int| 0 <= j < a.len() implies #[trigger] b[j] == a[j] by {
        assert(b.take(a.len() as int)[j] == b[j]);
    }
    match t {
        STerm::Var(v) => {
            lemma_find(a, v);
            lemma_find(b, v);
            lemma_find_prefix(a, b, v);
            assert(occurs(t, v));
            let i = find(a, v);
            if i >= 0 {
                assert(above(a, a[i].1, i + 1));
                lemma_resolve_prefix(a, b, a[i].1, i + 1);
            }
        },
        STerm::Const(_) => {},
        STerm::Func(f, args) => {
            let inner = resolve_from(a, t, lo);
            assert forall|j: int| 0 <= j < args.len() implies
                resolve(b, #[trigger] inner->Func_1[j]) == resolve_from(b, args[j], lo) by {
                assert forall|v: Seq<char>| #[trigger] occurs(args[j], v) && find(a, v) >= 0 implies find(a, v) >= lo by {
                    lemma_occurs_arg(f, args, j, v);
                }
                lemma_resolve_prefix(a, b, args[j], lo);
            }
            assert(resolve(b, inner)->Func_1 =~= resolve_from(b, t, lo)->Func_1);
        },
    }
}

/// A well-formed substitution with names and values drawn from a finite set is no longer than the set.
pub proof fn lemma_subst_len(s: SSubst, vs: Set<Seq<char>>)
    requires wf_subst(s), subst_vars_in(s, vs), vs.finite(),
    ensures s.len() <= vs.len(),
{
    let keys = s.map_values(|b: (Seq<char>, STerm)| b.0);
    assert(keys.no_duplicates()) by {
        assert forall|i: int, j: int| 0 <= i < keys.len() && 0 <= j < keys.len() && i != j implies keys[i] != keys[j] by {
            if i < j { assert(s[i].0 != s[j].0); } else { assert(s[j].0 != s[i].0); }
        }
    }
    keys.unique_seq_to_set();
    assert(keys.to_set().subset_of(vs)) by {
        assert forall|x: Seq<char>| keys.to_set().contains(x) implies vs.contains(x) by {
            let k = choose|k: int| 0 <= k < keys.len() && keys[k] == x;
            assert(vs.contains(s[k].0));
        }
    }
    vstd::set_lib::lemma_len_subset(keys.to_set(), vs);
}

pub proof fn lemma_size_arg(xs: Seq<STerm>, j: int)
    requires 0 <= j < xs.len(),
    ensures size(xs[j]) <= sizes(xs),
{
    lemma_sizes_take(xs, j + 1);
    lemma_sizes_take(xs, xs.len() as int);
    assert(xs.take(xs.len() as int) =~= xs);
}

/// The variables of a term, listed with repeats.
pub open spec fn var_list(t: STerm) -> Seq<Seq<char>>
    decreases t,
{
    match t {
        STerm::Var(v) => seq![v],
        STerm::Const(_) => Seq::empty(),
        STerm::Func(_, args) => var_lists(args),
    }
}

pub open spec fn var_lists(s: Seq<STerm>) -> Seq<Seq<char>>
    decreases s,
{
    if s.len() == 0 {
        Seq::empty()
    } else {
        var_lists(s.drop_last()) + var_list(s.last())
    }
}

pub proof fn lemma_var_list(t: STerm, v: Seq<char>)
    requires occurs(t, v),
    ensures var_list(t).contains(v),
    decreases t,
{
    match t {
        STerm::Var(_) => {
            assert(var_list(t)[0] == v);
        },
        STerm::Const(_) => {},
        STerm::Func(f, args) => {
            let j = choose|j: int| 0 <= j < args.len() && occurs(args[j], v);
            lemma_var_list(args[j], v);
            lemma_var_lists(args, j, v);
        },
    }
}

pub proof fn lemma_var_lists(s: Seq<STerm>, j: int, v: Seq<char>)
    requires 0 <= j < s.len(), var_list(s[j]).contains(v),
    ensures var_lists(s).contains(v),
    decreases s.len(),
{
    let k = choose|k: int| 0 <= k < var_list(s[j]).len() && var_list(s[j])[k] == v;
    if j == s.len() - 1 {
        assert(var_lists(s)[var_lists(s.drop_last()).len() + k] == v);
    } else {
        lemma_var_lists(s.drop_last(), j, v);
        let m = choose|m: int| 0 <= m < var_lists(s.drop_last()).len() && var_lists(s.drop_last())[m] == v;
        assert(var_lists(s)[m] == v);
    }
}

/// The outcome of running unification with a bound on the depth of recursion.
pub enum UnifyOutcome {
    Done(SSubst),
    Fail,
    OutOfFuel,
}

/// Robinson unification of `t1` and `t2` under the substitution `s`, extending it,
/// with at most `fuel` levels of nested argument lists.
pub open spec fn unify_fuel(t1: STerm, t2: STerm, s: SSubst, fuel: nat) -> UnifyOutcome
    decreases fuel, 0nat,
{
    if fuel == 0 {
        UnifyOutcome::OutOfFuel
    } else {
        let a = resolve(s, t1);
        let b = resolve(s, t2);
        if a == b {
            UnifyOutcome::Done(s)
        } else {
            match (a, b) {
                (STerm::Var(v), _) => if occurs(b, v) { UnifyOutcome::Fail } else { UnifyOutcome::Done(s.push((v, b))) },
                (_, STerm::Var(v)) => if occurs(a, v) { UnifyOutcome::Fail } else { UnifyOutcome::Done(s.push((v, a))) },
                (STerm::Func(f1, x), STerm::Func(f2, y)) => {
                    if f1 != f2 || x.len() != y.len() {
                        UnifyOutcome::Fail
                    } else {
                        unify_args_fuel(x, y, x.len(), s, (fuel - 1) as nat)
                    }
                },
                _ => UnifyOutcome::Fail,
            }
        }
    }
}

/// Unifies the first `k` argument pairs in order, threading the substitution.
pub open spec fn unify_args_fuel(x: Seq<STerm>, y: Seq<STerm>, k: nat, s: SSubst, fuel: nat) -> UnifyOutcome
    decreases fuel, k + 1,
{
    if k == 0 {
        UnifyOutcome::Done(s)
    } else if k > x.len() || k > y.len() {
        UnifyOutcome::Fail
    } else {
        match unify_args_fuel(x, y, (k - 1) as nat, s, fuel) {
            UnifyOutcome::Done(s2) => unify_fuel(x[k - 1], y[k - 1], s2, fuel),
            r => r,
        }
    }
}

/// The substitution that unification computes for `t1` and `t2`, if they unify.
pub open spec fn spec_unify(t1: STerm, t2: STerm) -> Option<SSubst> {
    if exists|f: nat| unify_fuel(t1, t2, Seq::empty(), f) != UnifyOutcome::OutOfFuel {
        let f = choose|f: nat| unify_fuel(t1, t2, Seq::empty(), f) != UnifyOutcome::OutOfFuel;
        match unify_fuel(t1, t2, Seq::empty(), f) {
            UnifyOutcome::Done(s) => Some(s),
            _ => None,
        }
    } else {
        None
    }
}

/// More fuel does not change an outcome reached with less.
pub proof fn lemma_fuel_mono(t1: STerm, t2: STerm, s: SSubst, f1: nat, f2: nat)
    requires f1 <= f2, unify_fuel(t1, t2, s, f1) != UnifyOutcome::OutOfFuel,
    ensures unify_fuel(t1, t2, s, f2) == unify_fuel(t1, t2, s, f1),
    decreases f1, 0nat,
{
    let a = resolve(s, t1);
    let b = resolve(s, t2);
    if a != b {
        if let (STerm::Func(g1, x), STerm::Func(g2, y)) = (a, b) {
            if g1 == g2 && x.len() == y.len() {
                lemma_args_fuel_mono(x, y, x.len(), s, (f1 - 1) as nat, (f2 - 1) as nat);
            }
        }
    }
}

pub proof fn lemma_args_fuel_mono(x: Seq<STerm>, y: Seq<STerm>, k: nat, s: SSubst, f1: nat, f2: nat)
    requires f1 <= f2, unify_args_fuel(x, y, k, s, f1) != UnifyOutcome::OutOfFuel,
    ensures unify_args_fuel(x, y, k, s, f2) == unify_args_fuel(x, y, k, s, f1),
    decreases f1, k + 1,
{
    if k > 0 && k <= x.len() && k <= y.len() {
        lemma_args_fuel_mono(x, y, (k - 1) as nat, s, f1, f2);
        if let UnifyOutcome::Done(s2) = unify_args_fuel(x, y, (k - 1) as nat, s, f1) {
            lemma_fuel_mono(x[k - 1], y[k - 1], s2, f1, f2);
        }
    }
}

/// A failure or running out of fuel on an earlier argument pair carries through the rest.
pub proof fn lemma_args_stop(x: Seq<STerm>, y: Seq<STerm>, j: nat, k: nat, s: SSubst, f: nat)
    requires
        j <= k <= x.len(), k <= y.len(),
        !(unify_args_fuel(x, y, j, s, f) is Done),
    ensures unify_args_fuel(x, y, k, s, f) == unify_args_fuel(x, y, j, s, f),
    decreases k - j,
{
    if j < k {
        lemma_args_stop(x, y, j, (k - 1) as nat, s, f);
    }
}

/// Two outcomes of unification that both ended agree.
pub proof fn lemma_fuel_agree(t1: STerm, t2: STerm, s: SSubst, f1: nat, f2: nat)
    requires
        unify_fuel(t1, t2, s, f1) != UnifyOutcome::OutOfFuel,
        unify_fuel(t1, t2, s, f2) != UnifyOutcome::OutOfFuel,
    ensures unify_fuel(t1, t2, s, f1) == unify_fuel(t1, t2, s, f2),
{
    if f1 <= f2 {
        lemma_fuel_mono(t1, t2, s, f1, f2);
    } else {
        lemma_fuel_mono(t1, t2, s, f2, f1);
    }
}

/// A substitution of terms for variables, as unification builds it: each binding's value
/// mentions only variables bound after it.
#[derive(Debug)]
pub struct Substitution {
    bindings: Vec<(String, Term)>,
}

impl View for Substitution {
    type V = SSubst;

    closed spec fn view(&self) -> SSubst {
        Seq::new(self.bindings@.len(), |i: int| (self.bindings@[i].0@, self.bindings@[i].1@))
    }
}

impl Substitution {
    /// The empty substitution.
    pub fn new() -> (r: Substitution)
        ensures r@ == Seq::<(Seq<char>, STerm)>::empty(),
    {
        let r = Substitution { bindings: Vec::new() };
        assert(r@ =~= Seq::<(Seq<char>, STerm)>::empty());
        r
    }

    /// Number of bindings.
    pub fn len(&self) -> (r: usize)
        ensures r == self@.len(),
    {
        self.bindings.len()
    }

    /// Whether nothing is bound.
    pub fn is_empty(&self) -> (r: bool)
        ensures r == (self@.len() == 0),
    {
        self.bindings.len() == 0
    }

    /// The index of the binding of `name`, if any.
    #[verifier::loop_isolation(false)]
    fn index_of(&self, name: &str) -> (r: Option<usize>)
        ensures
            r is Some ==> r.unwrap() == find(self@, name@) && r.unwrap() < self.bindings@.len(),
            r is None ==> find(self@, name@) == -1,
    {
        proof { lemma_find(self@, name@); }
        let mut i: usize = 0;
        while i < self.bindings.len()
            invariant
                i <= self.bindings.len(),
                forall|j: int| 0 <= j < i ==> (#[trigger] self@[j]).0 != name@,
            decreases self.bindings.len() - i,
        {
            if str_eq(self.bindings[i].0.as_str(), name) {
                proof {
                    assert(self@[i as int].0 == name@);
                }
                return Some(i);
            }
            assert(self@[i as int].0 != name@);
            i += 1;
        }
        None
    }

    /// The term bound to `name`, if any.
    pub fn get(&self, name: &str) -> (r: Option<&Term>)
        ensures
            find(self@, name@) >= 0 ==> r is Some && r.unwrap()@ == self@[find(self@, name@)].1,
            find(self@, name@) < 0 ==> r is None,
    {
        match self.index_of(name) {
            Some(i) => Some(&self.bindings[i].1),
            None => None,
        }
    }

    fn bind(&mut self, name: String, t: Term)
        ensures final(self)@ == old(self)@.push((name@, t@)),
    {
        self.bindings.push((name, t));
        assert(self@ =~= old(self)@.push((name@, t@)));
    }
}

impl Term {
    #[verifier::loop_isolation(false)]
    fn substitute_from(&self, subst: &Substitution, lo: usize) -> (r: Term)
        requires lo <= subst@.len(),
        ensures r@ == resolve_from(subst@, self@, lo as int),
        decreases subst@.len() - lo, self,
    {
        proof { lemma_view(*self); }
        match self {
            Term::Var(name) => {
                match subst.index_of(name.as_str()) {
                    Some(i) => {
                        let _n = subst.bindings.len();
                        if i >= lo {
                            subst.bindings[i].1.substitute_from(subst, i + 1)
                        } else {
                            self.clone()
                        }
                    },
                    None => self.clone(),
                }
            },
            Term::Const(_) => self.clone(),
            Term::Func(f, args) => {
                let mut out: Vec<Term> = Vec::new();
                let mut i: usize = 0;
                while i < args.len()
                    invariant
                        i <= args.len(),
                        out@.len() == i,
                        forall|j: int| 0 <= j < i ==> #[trigger] out@[j]@ == resolve_from(subst@, args@[j]@, lo as int),
                    decreases args.len() - i,
                {
                    proof { lemma_decreases_arg(*self, i as int); }
                    out.push(args[i].substitute_from(subst, lo));
                    i += 1;
                }
                let r = Term::Func(f.clone(), out);
                proof {
                    lemma_view_func(r);
                    let rv = resolve_from(subst@, self@, lo as int);
                    assert(rv->Func_1 =~= terms_view(out@));
                }
                r
            },
        }
    }

    /// Applies the substitution until no bound variable is left.
    pub fn substitute(&self, subst: &Substitution) -> (r: Term)
        ensures r@ == resolve(subst@, self@),
    {
        self.substitute_from(subst, 0)
    }
}

impl Equality {
    /// Applies the substitution to both sides.
    pub fn substitute(&self, subst: &Substitution) -> (r: Equality)
        ensures r.lhs@ == resolve(subst@, self.lhs@), r.rhs@ == resolve(subst@, self.rhs@),
    {
        Equality { lhs: self.lhs.substitute(subst), rhs: self.rhs.substitute(subst) }
    }
}

/// Binding `v` (unbound, absent from `t`) to the resolved term `t` keeps the substitution
/// well formed, and makes both sides resolve alike.
proof fn lemma_bind(s: SSubst, v: Seq<char>, t: STerm, t1: STerm, t2: STerm, vs: Set<Seq<char>>)
    requires
        wf_subst(s),
        subst_vars_in(s, vs),
        find(s, v) < 0,
        free(s, t),
        !occurs(t, v),
        vs.contains(v),
        vars_in(t, vs),
        resolve(s, t1) == STerm::Var(v),
        resolve(s, t2) == t,
    ensures
        wf_subst(s.push((v, t))),
        is_prefix(s, s.push((v, t))),
        subst_vars_in(s.push((v, t)), vs),
        resolve(s.push((v, t)), t1) == resolve(s.push((v, t)), t2),
{
    let s2 = s.push((v, t));
    let n = s.len() as int;
    lemma_find(s, v);
    assert(s2.take(n) =~= s);
    assert forall|w: Seq<char>| find(s, w) >= 0 implies #[trigger] find(s2, w) == find(s, w) by {
        lemma_find_prefix(s, s2, w);
    }
    assert forall|w: Seq<char>| find(s, w) < 0 && w != v implies #[trigger] find(s2, w) < 0 by {
        lemma_find_prefix(s, s2, w);
        lemma_find(s2, w);
        if find(s2, w) >= 0 {
            assert(find(s2, w) == n);
            assert(s2[n].0 == v);
        }
    }
    assert(find(s2, v) == n) by {
        lemma_find(s2, v);
        lemma_find_prefix(s, s2, v);
        if find(s2, v) < 0 {
            assert(s2[n].0 == v);
        }
    }
    assert forall|i: int, j: int| 0 <= i < j < s2.len() implies (#[trigger] s2[i]).0 != (#[trigger] s2[j]).0 by {
        if j == n {
            assert(s2[i] == s[i]);
        } else {
            assert(s2[i] == s[i] && s2[j] == s[j]);
        }
    }
    assert forall|i: int| 0 <= i < s2.len() implies above(s2, (#[trigger] s2[i]).1, i + 1) by {
        if i < n {
            assert(s2[i] == s[i]);
            assert(above(s, s[i].1, i + 1));
            assert forall|w: Seq<char>| #[trigger] occurs(s2[i].1, w) && find(s2, w) >= 0 implies find(s2, w) >= i + 1 by {
                if find(s, w) < 0 && w != v {
                }
            }
        } else {
            assert forall|w: Seq<char>| #[trigger] occurs(s2[i].1, w) && find(s2, w) >= 0 implies find(s2, w) >= i + 1 by {
                assert(find(s, w) < 0);
                assert(w != v);
            }
        }
    }
    assert forall|i: int| 0 <= i < s2.len() implies vs.contains((#[trigger] s2[i]).0) && vars_in(s2[i].1, vs) by {
        if i < n {
            assert(s2[i] == s[i]);
        }
    }
    lemma_resolve_prefix(s, s2, t1, 0);
    lemma_resolve_prefix(s, s2, t2, 0);
    lemma_resolve_var(s2, v);
    assert(s2[n].1 == t);
}

/// Unifies `t1` and `t2` under `subst`, extending it; on failure the bindings made so far stay.
#[verifier::loop_isolation(false)]
#[verifier::rlimit(50)]
fn unify_internal(t1: &Term, t2: &Term, subst: &mut Substitution, Ghost(vs): Ghost<Set<Seq<char>>>) -> (ok: bool)
    requires
        wf_subst(old(subst)@),
        vs.finite(),
        vars_in(t1@, vs),
        vars_in(t2@, vs),
        subst_vars_in(old(subst)@, vs),
    ensures
        wf_subst(final(subst)@),
        is_prefix(old(subst)@, final(subst)@),
        subst_vars_in(final(subst)@, vs),
        exists|f: nat| unify_fuel(t1@, t2@, old(subst)@, f) == (if ok { UnifyOutcome::Done(final(subst)@) } else { UnifyOutcome::Fail }),
        ok ==> resolve(final(subst)@, t1@) == resolve(final(subst)@, t2@),
    decreases vs.len() - old(subst)@.len(), size(resolve(old(subst)@, t1@)),
{
    let ghost s0 = subst@;
    proof {
        lemma_subst_len(s0, vs);
        lemma_resolve_free(s0, t1@, 0);
        lemma_resolve_free(s0, t2@, 0);
        lemma_resolve_vars(s0, t1@, 0, vs);
        lemma_resolve_vars(s0, t2@, 0, vs);
        assert(s0.take(s0.len() as int) =~= s0);
    }
    let a = t1.substitute(subst);
    let b = t2.substitute(subst);
    let ghost av = a@;
    let ghost bv = b@;
    if term_eq(&a, &b) {
        proof { assert(unify_fuel(t1@, t2@, s0, 1) == UnifyOutcome::Done(s0)); }
        return true;
    }
    proof { lemma_view(a); lemma_view(b); }
    match (a, b) {
        (Term::Var(v), b) => {
            if b.occurs(v.as_str()) {
                proof { assert(unify_fuel(t1@, t2@, s0, 1) == UnifyOutcome::Fail); }
                return false;
            }
            proof {
                assert(occurs(av, v@));
                lemma_bind(s0, v@, bv, t1@, t2@, vs);
                assert(unify_fuel(t1@, t2@, s0, 1) == UnifyOutcome::Done(s0.push((v@, bv))));
            }
            subst.bind(v, b);
            true
        },
        (a, Term::Var(v)) => {
            if a.occurs(v.as_str()) {
                proof { assert(unify_fuel(t1@, t2@, s0, 1) == UnifyOutcome::Fail); }
                return false;
            }
            proof {
                assert(occurs(bv, v@));
                lemma_bind(s0, v@, av, t2@, t1@, vs);
                assert(unify_fuel(t1@, t2@, s0, 1) == UnifyOutcome::Done(s0.push((v@, av))));
            }
            subst.bind(v, a);
            true
        },
        (Term::Func(f1, x), Term::Func(f2, y)) => {
            let ghost xv = av->Func_1;
            let ghost yv = bv->Func_1;
            if !str_eq(f1.as_str(), f2.as_str()) || x.len() != y.len() {
                proof { assert(unify_fuel(t1@, t2@, s0, 1) == UnifyOutcome::Fail); }
                return false;
            }
            let ghost mut fa: nat = 0;
            let mut j: usize = 0;
            while j < x.len()
                invariant
                    j <= x.len(),
                    x.len() == y.len(),
                    xv.len() == x.len(),
                    yv.len() == y.len(),
                    forall|k: int| 0 <= k < x.len() ==> #[trigger] xv[k] == x@[k]@,
                    forall|k: int| 0 <= k < y.len() ==> #[trigger] yv[k] == y@[k]@,
                    wf_subst(subst@),
                    is_prefix(s0, subst@),
                    subst_vars_in(subst@, vs),
                    unify_args_fuel(xv, yv, j as nat, s0, fa) == UnifyOutcome::Done(subst@),
                    forall|k: int| 0 <= k < j ==> resolve(subst@, #[trigger] xv[k]) == resolve(subst@, yv[k]),
                decreases x.len() - j,
            {
                let ghost sj = subst@;
                proof {
                    lemma_subst_len(sj, vs);
                    assert forall|v: Seq<char>| #[trigger] occurs(xv[j as int], v) implies vs.contains(v) && find(s0, v) < 0 by {
                        lemma_occurs_arg(f1@, xv, j as int, v);
                    }
                    assert forall|v: Seq<char>| #[trigger] occurs(yv[j as int], v) implies vs.contains(v) by {
                        lemma_occurs_arg(f2@, yv, j as int, v);
                    }
                    if sj.len() == s0.len() {
                        assert(sj.take(s0.len() as int) =~= sj);
                        lemma_resolve_id(s0, xv[j as int], 0);
                        lemma_size_arg(xv, j as int);
                    }
                }
                let ok_j = unify_internal(&x[j], &y[j], subst, Ghost(vs));
                proof {
                    let fj = choose|f: nat| unify_fuel(xv[j as int], yv[j as int], sj, f)
                        == (if ok_j { UnifyOutcome::Done(subst@) } else { UnifyOutcome::Fail });
                    let fm: nat = if fa >= fj { fa } else { fj };
                    lemma_args_fuel_mono(xv, yv, j as nat, s0, fa, fm);
                    lemma_fuel_mono(xv[j as int], yv[j as int], sj, fj, fm);
                    assert(unify_args_fuel(xv, yv, (j + 1) as nat, s0, fm)
                        == (if ok_j { UnifyOutcome::Done(subst@) } else { UnifyOutcome::Fail }));
                    fa = fm;
                    // prefixes compose
                    assert(subst@.take(s0.len() as int) =~= sj.take(s0.len() as int)) by {
                        assert forall|k: int| 0 <= k < s0.len() implies subst@[k] == sj[k] by {
                            assert(subst@.take(sj.len() as int)[k] == subst@[k]);
                        }
                    }
                }
                if !ok_j {
                    proof {
                        lemma_args_stop(xv, yv, (j + 1) as nat, x.len() as nat, s0, fa);
                        assert(unify_fuel(t1@, t2@, s0, fa + 1) == UnifyOutcome::Fail);
                    }
                    return false;
                }
                proof {
                    assert forall|k: int| 0 <= k < j + 1 implies resolve(subst@, #[trigger] xv[k]) == resolve(subst@, yv[k]) by {
                        if k < j {
                            lemma_resolve_prefix(sj, subst@, xv[k], 0);
                            lemma_resolve_prefix(sj, subst@, yv[k], 0);
                        }
                    }
                }
                j += 1;
            }
            proof {
                assert(unify_fuel(t1@, t2@, s0, fa + 1) == UnifyOutcome::Done(subst@));
                lemma_resolve_prefix(s0, subst@, t1@, 0);
                lemma_resolve_prefix(s0, subst@, t2@, 0);
                assert(resolve(subst@, av)->Func_1 =~= resolve(subst@, bv)->Func_1);
            }
            true
        },
        (a, b) => {
            proof { assert(unify_fuel(t1@, t2@, s0, 1) == UnifyOutcome::Fail); }
            false
        },
    }
}

/// Robinson's unification: the most general substitution, built as the algorithm builds it,
/// under which both terms resolve to the same term; `None` when the algorithm fails.
pub fn unify(t1: &Term, t2: &Term) -> (r: Option<Substitution>)
    ensures
        r is Some ==> spec_unify(t1@, t2@) == Some(r.unwrap()@),
        r is None ==> spec_unify(t1@, t2@) is None,
        r is Some ==> wf_subst(r.unwrap()@) && resolve(r.unwrap()@, t1@) == resolve(r.unwrap()@, t2@),
{
    let ghost vs = var_list(t1@).to_set().union(var_list(t2@).to_set());
    proof {
        assert forall|v: Seq<char>| #[trigger] occurs(t1@, v) implies vs.contains(v) by {
            lemma_var_list(t1@, v);
        }
        assert forall|v: Seq<char>| #[trigger] occurs(t2@, v) implies vs.contains(v) by {
            lemma_var_list(t2@, v);
        }
    }
    let mut subst = Substitution::new();
    let ok = unify_internal(t1, t2, &mut subst, Ghost(vs));
    proof {
        let empty = Seq::<(Seq<char>, STerm)>::empty();
        let f = choose|f: nat| unify_fuel(t1@, t2@, empty, f)
            == (if ok { UnifyOutcome::Done(subst@) } else { UnifyOutcome::Fail });
        assert(unify_fuel(t1@, t2@, empty, f) != UnifyOutcome::OutOfFuel);
        let g = choose|g: nat| unify_fuel(t1@, t2@, empty, g) != UnifyOutcome::OutOfFuel;
        lemma_fuel_agree(t1@, t2@, empty, f, g);
    }
    if ok {
        Some(subst)
    } else {
        None
    }
}

/// The results of rewriting `t` once with `rule`: first at the root, then inside each
/// argument in order.
pub open spec fn rewrites(t: STerm, rule: SEquality) -> Seq<STerm>
    decreases t, 0nat,
{
    let root = match spec_unify(t, rule.lhs) {
        Some(s) => seq![resolve(s, rule.rhs)],
        None => Seq::empty(),
    };
    match t {
        STerm::Func(f, args) => root + rewrites_in_args(f, args, args.len(), rule),
        _ => root,
    }
}

/// The rewrites inside the first `k` arguments, each put back in place.
pub open spec fn rewrites_in_args(f: Seq<char>, args: Seq<STerm>, k: nat, rule: SEquality) -> Seq<STerm>
    decreases args, k,
{
    if k == 0 || k > args.len() {
        Seq::empty()
    } else {
        rewrites_in_args(f, args, (k - 1) as nat, rule)
            + rewrites(args[k - 1], rule).map_values(|r: STerm| STerm::Func(f, args.update(k - 1, r)))
    }
}

/// Rewrites `target` once with `rule` at every position where the rule's left side unifies.
#[verifier::loop_isolation(false)]
pub fn apply_rewrite(target: &Term, rule: &Equality) -> (r: Vec<Term>)
    ensures terms_view(r@) == rewrites(target@, rule@),
    decreases target,
{
    proof { lemma_view(*target); }
    let mut results: Vec<Term> = Vec::new();
    match unify(target, &rule.lhs) {
        Some(subst) => results.push(rule.rhs.substitute(&subst)),
        None => {},
    }
    let ghost root = terms_view(results@);
    proof {
        assert(root =~= match spec_unify(target@, rule.lhs@) {
            Some(s) => seq![resolve(s, rule.rhs@)],
            None => Seq::<STerm>::empty(),
        });
    }
    match target {
        Term::Func(name, args) => {
            let ghost sargs = target@->Func_1;
            let mut i: usize = 0;
            while i < args.len()
                invariant
                    i <= args.len(),
                    sargs.len() == args.len(),
                    forall|k: int| 0 <= k < args.len() ==> #[trigger] sargs[k] == args@[k]@,
                    terms_view(results@) == root + rewrites_in_args(name@, sargs, i as nat, rule@),
                decreases args.len() - i,
            {
                proof { lemma_decreases_arg(*target, i as int); }
                let subs = apply_rewrite(&args[i], rule);
                let ghost before = terms_view(results@);
                let mut k: usize = 0;
                while k < subs.len()
                    invariant
                        k <= subs.len(),
                        terms_view(results@) == before + rewrites(sargs[i as int], rule@).map_values(
                            |r: STerm| STerm::Func(name@, sargs.update(i as int, r))).take(k as int),
                    decreases subs.len() - k,
                {
                    let mut new_args: Vec<Term> = args.clone();
                    new_args.set(i, subs[k].clone());
                    let t = Term::Func(name.clone(), new_args);
                    proof {
                        lemma_view_func(t);
                        assert(terms_view(new_args@) =~= sargs.update(i as int, subs@[k as int]@));
                        assert(terms_view(subs@)[k as int] == subs@[k as int]@);
                    }
                    let ghost prev = results@;
                    results.push(t);
                    proof {
                        let m = rewrites(sargs[i as int], rule@).map_values(|r: STerm| STerm::Func(name@, sargs.update(i as int, r)));
                        assert(m.take(k + 1) =~= m.take(k as int).push(m[k as int]));
                        assert(terms_view(results@) =~= terms_view(prev).push(t@));
                    }
                    k += 1;
                }
                proof {
                    let m = rewrites(sargs[i as int], rule@).map_values(|r: STerm| STerm::Func(name@, sargs.update(i as int, r)));
                    assert(m.take(k as int) =~= m);
                    assert(rewrites_in_args(name@, sargs, (i + 1) as nat, rule@)
                        == rewrites_in_args(name@, sargs, i as nat, rule@) + m);
                }
                i += 1;
            }
            proof {
                assert(rewrites(target@, rule@) == root + rewrites_in_args(name@, sargs, sargs.len(), rule@));
            }
            results
        },
        _ => results,
    }
}

} // verus!
