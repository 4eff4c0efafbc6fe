//! Decomposition of a target goal into subterms and training subproblems.
use vstd::prelude::*;
use crate::strings::{lex_lt, str_lt};
use crate::fol::{Term, STerm, Equality, SEquality, display, term_eq, terms_view, lemma_view, lemma_view_func,
    lemma_decreases_arg, lemma_terms_view_push, func1, func2};
use crate::eval::dedup;
use crate::random::{random_index, random_bool};

verus! {

/// The application subterms of a term in preorder, the term itself first.
pub open spec fn collect(t: STerm) -> Seq<STerm>
    decreases t,
{
    match t {
        STerm::Func(_, args) => seq![t] + collect_list(args),
        _ => Seq::empty(),
    }
}

pub open spec fn collect_list(s: Seq<STerm>) -> Seq<STerm>
    decreases s,
{
    if s.len() == 0 {
        Seq::empty()
    } else {
        collect_list(s.drop_last()) + collect(s.last())
    }
}

/// `x` inserted into a list ordered by printed form, after every element printed no later than it.
pub open spec fn insert_by_display(s: Seq<STerm>, x: STerm) -> Seq<STerm>
    decreases s.len(),
{
    if s.len() == 0 {
        seq![x]
    } else if lex_lt(display(x), display(s.last())) {
        insert_by_display(s.drop_last(), x).push(s.last())
    } else {
        s.push(x)
    }
}

/// The stable sort of a list by printed form.
pub open spec fn sort_by_display(s: Seq<STerm>) -> Seq<STerm>
    decreases s.len(),
{
    if s.len() == 0 {
        s
    } else {
        insert_by_display(sort_by_display(s.drop_last()), s.last())
    }
}

/// The distinct application subterms of a term, ordered by printed form.
pub open spec fn subterms_of(t: STerm) -> Seq<STerm> {
    dedup(sort_by_display(collect(t)))
}

#[verifier::loop_isolation(false)]
fn collect_into(term: &Term, acc: &mut Vec<Term>)
    ensures terms_view(final(acc)@) == terms_view(old(acc)@) + collect(term@),
    decreases term,
{
    proof { lemma_view(*term); }
    match term {
        Term::Func(_, args) => {
            proof { lemma_view_func(*term); }
            let ghost base = terms_view(acc@);
            let c = term.clone();
            proof { lemma_terms_view_push(acc@, c); }
            acc.push(c);
            let ghost sa = terms_view(args@);
            let mut i: usize = 0;
            assert(sa.take(0) =~= Seq::<STerm>::empty());
            while i < args.len()
                invariant
                    i <= args.len(),
                    sa == terms_view(args@),
                    terms_view(acc@) == base + seq![term@] + collect_list(sa.take(i as int)),
                decreases args.len() - i,
            {
                proof {
                    lemma_decreases_arg(*term, i as int);
                    assert(sa.take(i + 1).drop_last() =~= sa.take(i as int));
                    assert(sa.take(i + 1).last() == args@[i as int]@);
                }
                collect_into(&args[i], acc);
                proof {
                    assert(base + seq![term@] + collect_list(sa.take(i + 1))
                        =~= base + seq![term@] + collect_list(sa.take(i as int)) + collect(args@[i as int]@));
                }
                i += 1;
            }
            proof {
                assert(sa.take(i as int) =~= sa);
                assert(base + seq![term@] + collect_list(sa) =~= base + collect(term@));
            }
        },
        _ => {
            assert(terms_view(acc@) =~= terms_view(acc@) + collect(term@));
        },
    }
}

/// Inserts `x` into a list ordered by printed form, after the elements printed no later than it.
fn insert_sorted_term(v: &mut Vec<Term>, x: Term)
    ensures terms_view(final(v)@) == insert_by_display(terms_view(old(v)@), x@),
{
    let ghost s = terms_view(v@);
    let kx = x.to_string();
    let mut p = v.len();
    assert(s.take(p as int) =~= s);
    assert(s.skip(p as int) =~= Seq::<STerm>::empty());
    while p > 0 && str_lt(kx.as_str(), v[p - 1].to_string().as_str())
        invariant
            p <= v.len(),
            s == terms_view(v@),
            kx@ == display(x@),
            insert_by_display(s, x@) == insert_by_display(s.take(p as int), x@) + s.skip(p as int),
        decreases p,
    {
        proof {
            let t = s.take(p as int);
            assert(t.last() == v@[p - 1]@);
            assert(t.drop_last() =~= s.take(p - 1));
            assert(s.skip(p - 1) =~= seq![t.last()] + s.skip(p as int));
            assert(insert_by_display(t, x@) == insert_by_display(s.take(p - 1), x@).push(t.last()));
            assert(insert_by_display(s.take(p - 1), x@).push(t.last()) + s.skip(p as int)
                =~= insert_by_display(s.take(p - 1), x@) + s.skip(p - 1));
        }
        p -= 1;
    }
    proof {
        let t = s.take(p as int);
        if p > 0 {
            assert(t.last() == v@[p - 1]@);
        } else {
            assert(t =~= Seq::<STerm>::empty());
        }
        assert(insert_by_display(t, x@) =~= t.push(x@));
        assert(t.push(x@) + s.skip(p as int) =~= s.insert(p as int, x@));
    }
    let ghost xv = x@;
    v.insert(p, x);
    assert(terms_view(v@) =~= s.insert(p as int, xv));
}

/// The stable sort of a list of terms by printed form.
fn sort_terms(v: &Vec<Term>) -> (r: Vec<Term>)
    ensures terms_view(r@) == sort_by_display(terms_view(v@)),
{
    let ghost s = terms_view(v@);
    let mut out: Vec<Term> = Vec::new();
    let mut i: usize = 0;
    assert(terms_view(out@) =~= sort_by_display(s.take(0)));
    while i < v.len()
        invariant
            i <= v.len(),
            s == terms_view(v@),
            terms_view(out@) == sort_by_display(s.take(i as int)),
        decreases v.len() - i,
    {
        proof {
            assert(s.take(i + 1).drop_last() =~= s.take(i as int));
            assert(s.take(i + 1).last() == v@[i as int]@);
        }
        insert_sorted_term(&mut out, v[i].clone());
        i += 1;
    }
    assert(s.take(i as int) =~= s);
    out
}

fn dedup_list(v: &Vec<Term>) -> (r: Vec<Term>)
    ensures terms_view(r@) == dedup(terms_view(v@)),
{
    let ghost sv = terms_view(v@);
    let mut out: Vec<Term> = Vec::new();
    let mut i: usize = 0;
    while i < v.len()
        invariant
            i <= v.len(),
            sv == terms_view(v@),
            terms_view(out@) == dedup(sv.take(i as int)),
        decreases v.len() - i,
    {
        proof {
            assert(sv.take(i + 1).drop_last() =~= sv.take(i as int));
            assert(sv.take(i + 1).last() == v@[i as int]@);
            if i > 0 {
                assert(sv.take(i + 1)[i - 1] == v@[i - 1]@);
            }
        }
        if i == 0 || !term_eq(&v[i], &v[i - 1]) {
            let c = v[i].clone();
            proof { lemma_terms_view_push(out@, c); }
            out.push(c);
            proof {
                if i == 0 {
                    assert(sv.take(1) =~= seq![v@[0]@]);
                    assert(dedup(sv.take(0)) =~= Seq::empty());
                }
            }
        }
        i += 1;
    }
    proof { assert(sv.take(i as int) =~= sv); }
    out
}

/// The simple identities posed on a subterm `s`: `s + 0 = s`, `0 + s = s`, `s * 1 = s`,
/// `1 * s = s` and `s + (-s) = 0`.
pub open spec fn identities_of(s: STerm) -> Seq<SEquality> {
    let zero = STerm::Const("0"@);
    let one = STerm::Const("1"@);
    seq![
        SEquality { lhs: STerm::Func("+"@, seq![s, zero]), rhs: s },
        SEquality { lhs: STerm::Func("+"@, seq![zero, s]), rhs: s },
        SEquality { lhs: STerm::Func("*"@, seq![s, one]), rhs: s },
        SEquality { lhs: STerm::Func("*"@, seq![one, s]), rhs: s },
        SEquality { lhs: STerm::Func("+"@, seq![s, STerm::Func("-"@, seq![s])]), rhs: zero },
    ]
}

pub open spec fn identity_list(subs: Seq<STerm>) -> Seq<SEquality>
    decreases subs.len(),
{
    if subs.len() == 0 {
        Seq::empty()
    } else {
        identity_list(subs.drop_last()) + identities_of(subs.last())
    }
}

/// Commutativity of `+` and `*` for the pairs `(subs[i], subs[j])` with `i < j < m`.
pub open spec fn pair_row(subs: Seq<STerm>, i: int, m: int) -> Seq<SEquality>
    decreases m,
{
    if i < 0 || m <= i + 1 || m > subs.len() {
        Seq::empty()
    } else {
        let a = subs[i];
        let b = subs[m - 1];
        pair_row(subs, i, m - 1) + seq![
            SEquality { lhs: STerm::Func("+"@, seq![a, b]), rhs: STerm::Func("+"@, seq![b, a]) },
            SEquality { lhs: STerm::Func("*"@, seq![a, b]), rhs: STerm::Func("*"@, seq![b, a]) },
        ]
    }
}

pub open spec fn pair_list(subs: Seq<STerm>, n: int) -> Seq<SEquality>
    decreases n,
{
    if n <= 0 || n > subs.len() {
        Seq::empty()
    } else {
        pair_list(subs, n - 1) + pair_row(subs, n - 1, subs.len() as int)
    }
}

/// The distinct subterms of both sides of an equality, ordered by printed form.
pub open spec fn all_subterms(e: SEquality) -> Seq<STerm> {
    dedup(sort_by_display(subterms_of(e.lhs) + subterms_of(e.rhs)))
}

/// The subproblems posed before any random filling: the identities of each subterm, the
/// commutativity of each pair of subterms, the target and the target read right to left.
pub open spec fn base_subproblems(e: SEquality) -> Seq<SEquality> {
    let subs = all_subterms(e);
    identity_list(subs) + pair_list(subs, subs.len() as int) + seq![e, SEquality { lhs: e.rhs, rhs: e.lhs }]
}

/// A random filler: an earlier subproblem with `+ 0` added on the left or `* 1` on the right.
pub open spec fn perturbed(e: SEquality, left: bool) -> SEquality {
    if left {
        SEquality { lhs: STerm::Func("+"@, seq![e.lhs, STerm::Const("0"@)]), rhs: e.rhs }
    } else {
        SEquality { lhs: e.lhs, rhs: STerm::Func("*"@, seq![e.rhs, STerm::Const("1"@)]) }
    }
}

pub open spec fn eqs_view(v: Seq<Equality>) -> Seq<SEquality> {
    Seq::new(v.len(), |i: int| v[i]@)
}

/// What every outcome of `generate_subproblems` satisfies: the first `count` base subproblems,
/// and past them, up to `count`, perturbations of earlier entries.
pub open spec fn subproblems_ok(e: SEquality, count: int, r: Seq<SEquality>) -> bool {
    let base = base_subproblems(e);
    if base.len() >= count {
        r == base.take(count)
    } else {
        &&& r.len() == count
        &&& r.take(base.len() as int) == base
        &&& perturbs_earlier(r, base.len() as int)
    }
}

/// Builds training subproblems around a target goal.
pub struct GoalDecomposer;

impl GoalDecomposer {
    /// The distinct application subterms of a term, ordered by printed form.
    pub fn extract_subterms(term: &Term) -> (r: Vec<Term>)
        ensures terms_view(r@) == subterms_of(term@),
    {
        let mut subterms: Vec<Term> = Vec::new();
        assert(terms_view(subterms@) =~= Seq::<STerm>::empty());
        GoalDecomposer::collect_subterms_recursive(term, &mut subterms);
        assert(Seq::<STerm>::empty() + collect(term@) =~= collect(term@));
        let sorted = sort_terms(&subterms);
        dedup_list(&sorted)
    }

    fn collect_subterms_recursive(term: &Term, acc: &mut Vec<Term>)
        ensures terms_view(final(acc)@) == terms_view(old(acc)@) + collect(term@),
    {
        collect_into(term, acc)
    }
}


fn perturb(e: Equality, left: bool) -> (r: Equality)
    ensures r@ == perturbed(e@, left),
{
    if left {
        Equality::new(func2("+", e.lhs, Term::constant("0")), e.rhs)
    } else {
        Equality::new(e.lhs, func2("*", e.rhs, Term::constant("1")))
    }
}

proof fn lemma_eqs_push(v: Seq<Equality>, e: Equality)
    ensures eqs_view(v.push(e)) == eqs_view(v).push(e@),
{
    assert(eqs_view(v.push(e)) =~= eqs_view(v).push(e@));
}

fn push_identities(out: &mut Vec<Equality>, subs: &Vec<Term>)
    ensures eqs_view(final(out)@) == eqs_view(old(out)@) + identity_list(terms_view(subs@)),
{
    let ghost base = eqs_view(out@);
    let ghost sv = terms_view(subs@);
    let mut k: usize = 0;
    assert(sv.take(0) =~= Seq::<STerm>::empty());
    assert(base + identity_list(sv.take(0)) =~= base);
    while k < subs.len()
        invariant
            k <= subs.len(),
            sv == terms_view(subs@),
            eqs_view(out@) == base + identity_list(sv.take(k as int)),
        decreases subs.len() - k,
    {
        let s = &subs[k];
        let ghost before = eqs_view(out@);
        let e1 = Equality::new(func2("+", s.clone(), Term::constant("0")), s.clone());
        let e2 = Equality::new(func2("+", Term::constant("0"), s.clone()), s.clone());
        let e3 = Equality::new(func2("*", s.clone(), Term::constant("1")), s.clone());
        let e4 = Equality::new(func2("*", Term::constant("1"), s.clone()), s.clone());
        let e5 = Equality::new(func2("+", s.clone(), func1("-", s.clone())), Term::constant("0"));
        proof { lemma_eqs_push(out@, e1); }
        out.push(e1);
        proof { lemma_eqs_push(out@, e2); }
        out.push(e2);
        proof { lemma_eqs_push(out@, e3); }
        out.push(e3);
        proof { lemma_eqs_push(out@, e4); }
        out.push(e4);
        proof { lemma_eqs_push(out@, e5); }
        out.push(e5);
        proof {
            assert(sv.take(k + 1).drop_last() =~= sv.take(k as int));
            assert(sv.take(k + 1).last() == subs@[k as int]@);
            assert(eqs_view(out@) =~= before + identities_of(subs@[k as int]@));
        }
        k += 1;
    }
    assert(sv.take(k as int) =~= sv);
}

#[verifier::loop_isolation(false)]
fn push_pairs(out: &mut Vec<Equality>, subs: &Vec<Term>)
    ensures eqs_view(final(out)@) == eqs_view(old(out)@) + pair_list(terms_view(subs@), subs@.len() as int),
{
    let ghost base = eqs_view(out@);
    let ghost sv = terms_view(subs@);
    let n = subs.len();
    assert(sv.len() == n);
    let mut i: usize = 0;
    while i < n
        invariant
            i <= n,
            eqs_view(out@) == base + pair_list(sv, i as int),
        decreases n - i,
    {
        let ghost row_base = eqs_view(out@);
        let mut j: usize = i + 1;
        while j < n
            invariant
                i < n, i + 1 <= j <= n,
                eqs_view(out@) == row_base + pair_row(sv, i as int, j as int),
            decreases n - j,
        {
            let a = &subs[i];
            let b = &subs[j];
            let ghost before = eqs_view(out@);
            let e1 = Equality::new(func2("+", a.clone(), b.clone()), func2("+", b.clone(), a.clone()));
            let e2 = Equality::new(func2("*", a.clone(), b.clone()), func2("*", b.clone(), a.clone()));
            proof { lemma_eqs_push(out@, e1); }
            out.push(e1);
            proof { lemma_eqs_push(out@, e2); }
            out.push(e2);
            proof {
                assert(sv[i as int] == subs@[i as int]@ && sv[j as int] == subs@[j as int]@);
                assert(eqs_view(out@) =~= before + seq![e1@, e2@]);
            }
            j += 1;
        }
        proof {
            assert(pair_list(sv, i + 1) == pair_list(sv, i as int) + pair_row(sv, i as int, n as int));
        }
        i += 1;
    }
}

fn base_list(target: &Equality) -> (r: Vec<Equality>)
    ensures eqs_view(r@) == base_subproblems(target@),
{
    let lhs_subterms = GoalDecomposer::extract_subterms(&target.lhs);
    let mut all = lhs_subterms;
    let mut rhs_subterms = GoalDecomposer::extract_subterms(&target.rhs);
    let ghost l0 = terms_view(all@);
    let ghost r0 = terms_view(rhs_subterms@);
    all.append(&mut rhs_subterms);
    proof { crate::eval::lemma_terms_view_add_pub(); }
    assert(terms_view(all@) =~= l0 + r0);
    let sorted = sort_terms(&all);
    let all_subterms = dedup_list(&sorted);
    let mut subproblems: Vec<Equality> = Vec::new();
    assert(eqs_view(subproblems@) =~= Seq::<SEquality>::empty());
    push_identities(&mut subproblems, &all_subterms);
    push_pairs(&mut subproblems, &all_subterms);
    let t = target.clone();
    proof { lemma_eqs_push(subproblems@, t); }
    subproblems.push(t);
    let f = target.flip();
    proof { lemma_eqs_push(subproblems@, f); }
    subproblems.push(f);
    assert(eqs_view(subproblems@) =~= base_subproblems(target@));
    subproblems
}

/// Whether every entry from `from` on perturbs an earlier entry.
pub open spec fn perturbs_earlier(r: Seq<SEquality>, from: int) -> bool {
    forall|i: int| from <= i < r.len() ==>
        exists|j: int, left: bool| 0 <= j < i && #[trigger] r[i] == perturbed(r[j], left)
}

fn fill_to(subproblems: &mut Vec<Equality>, count: usize)
    requires old(subproblems)@.len() > 0,
    ensures
        final(subproblems)@.len() == (if old(subproblems)@.len() >= count { old(subproblems)@.len() as int } else { count as int }),
        eqs_view(final(subproblems)@).take(old(subproblems)@.len() as int) == eqs_view(old(subproblems)@),
        perturbs_earlier(eqs_view(final(subproblems)@), old(subproblems)@.len() as int),
{
    let ghost start = eqs_view(subproblems@);
    let ghost n0 = subproblems@.len();
    assert(start.take(n0 as int) =~= start);
    while subproblems.len() < count
        invariant
            subproblems@.len() >= n0,
            n0 > 0,
            n0 == start.len(),
            subproblems@.len() <= count || subproblems@.len() == n0,
            eqs_view(subproblems@).take(n0 as int) == start,
            perturbs_earlier(eqs_view(subproblems@), n0 as int),
        decreases count - subproblems@.len(),
    {
        let idx = random_index(subproblems.len());
        let chosen = subproblems[idx].clone();
        let left = random_bool();
        let e = perturb(chosen, left);
        let ghost before = eqs_view(subproblems@);
        proof { lemma_eqs_push(subproblems@, e); }
        subproblems.push(e);
        proof {
            let after = eqs_view(subproblems@);
            assert(after.take(n0 as int) =~= before.take(n0 as int));
            assert forall|i: int| n0 <= i < after.len() implies
                exists|j: int, l: bool| 0 <= j < i && #[trigger] after[i] == perturbed(after[j], l) by {
                if i < before.len() {
                    let (j, l) = choose|j: int, l: bool| 0 <= j < i && #[trigger] before[i] == perturbed(before[j], l);
                    assert(after[i] == perturbed(after[j], l));
                } else {
                    assert(after[i] == perturbed(after[idx as int], left));
                }
            }
        }
    }
}

impl GoalDecomposer {
    /// Training subproblems directed at a target: the identities of its subterms, the
    /// commutativity of pairs of them, the target both ways round, and, up to `count`,
    /// random perturbations of earlier entries; cut to `count` entries.
    pub fn generate_subproblems(target: &Equality, count: usize) -> (r: Vec<Equality>)
        ensures subproblems_ok(target@, count as int, eqs_view(r@)),
    {
        let mut subproblems = base_list(target);
        let ghost base = eqs_view(subproblems@);
        let ghost base_len = base.len();
        fill_to(&mut subproblems, count);
        let ghost full = eqs_view(subproblems@);
        subproblems.truncate(count);
        proof {
            if base_len >= count {
                assert(eqs_view(subproblems@) =~= full.take(count as int));
                assert(full.take(count as int) =~= full.take(base_len as int).take(count as int));
            } else {
                assert(eqs_view(subproblems@) =~= full);
                assert(full.len() == count);
            }
            assert(base == base_subproblems(target@));
        }
        subproblems
    }
}


/// The goal that directed training aims at by default: `((x + 0) + (y * 1)) = ((1 * y) + (0 + x))`.
pub open spec fn default_target() -> SEquality {
    let x = STerm::Const("x"@);
    let y = STerm::Const("y"@);
    let zero = STerm::Const("0"@);
    let one = STerm::Const("1"@);
    SEquality {
        lhs: STerm::Func("+"@, seq![STerm::Func("+"@, seq![x, zero]), STerm::Func("*"@, seq![y, one])]),
        rhs: STerm::Func("+"@, seq![STerm::Func("*"@, seq![one, y]), STerm::Func("+"@, seq![zero, x])]),
    }
}

/// The default target goal of directed training.
pub fn default_target_conjecture() -> (r: Equality)
    ensures r@ == default_target(),
{
    let lhs = func2("+", func2("+", Term::constant("x"), Term::constant("0")), func2("*", Term::constant("y"), Term::constant("1")));
    let rhs = func2("+", func2("*", Term::constant("1"), Term::constant("y")), func2("+", Term::constant("0"), Term::constant("x")));
    Equality::new(lhs, rhs)
}

} // verus!
